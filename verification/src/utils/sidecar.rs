use crate::utils::text::{
    chars_of, contains_text, decimal, occurs_at, push_decimal, push_joined, push_signed,
    signed_decimal, spec_contains_text, spec_join, views_of, lemma_views_push,
};
use vstd::prelude::*;
use vstd::string::{StrSliceExecFns, StringExecFns};

verus! {

/// Whether a character is white space: what `char::is_whitespace` says of it.
pub uninterp spec fn is_space(c: char) -> bool;

/// `char::is_whitespace`: whether the character has the Unicode property White_Space.
#[verifier::external_body]
fn is_space_char(c: char) -> (b: bool)
    ensures
        b == is_space(c),
{
    c.is_whitespace()
}

/// The position of the first character from `i` on that is no white space, or the
/// length of the text.
pub open spec fn first_kept(text: Seq<char>, i: nat) -> nat
    decreases text.len() - i,
{
    if i >= text.len() {
        text.len()
    } else if !is_space(text[i as int]) {
        i
    } else {
        first_kept(text, i + 1)
    }
}

/// The position behind the last character before `n` that is no white space, or 0.
pub open spec fn last_kept(text: Seq<char>, n: nat) -> nat
    decreases n,
{
    if n == 0 {
        0
    } else if !is_space(text[n - 1]) {
        n
    } else {
        last_kept(text, (n - 1) as nat)
    }
}

/// The text without the white space at its start and at its end.
pub open spec fn spec_trim(text: Seq<char>) -> Seq<char> {
    if first_kept(text, 0) >= last_kept(text, text.len()) {
        Seq::empty()
    } else {
        text.subrange(first_kept(text, 0) as int, last_kept(text, text.len()) as int)
    }
}

/// The text without the white space at its start and at its end.
pub fn trim(text: &str) -> (r: String)
    ensures
        r@ == spec_trim(text@),
{
    let chars = chars_of(text);
    let mut first: usize = 0;
    while first < chars.len() && is_space_char(chars[first])
        invariant
            first <= chars.len(),
            first_kept(chars@, 0) == first_kept(chars@, first as nat),
        decreases chars.len() - first,
    {
        first += 1;
    }
    let mut last: usize = chars.len();
    while last > 0 && is_space_char(chars[last - 1])
        invariant
            last <= chars.len(),
            last_kept(chars@, chars@.len()) == last_kept(chars@, last as nat),
        decreases last,
    {
        last -= 1;
    }
    if first >= last {
        String::new()
    } else {
        String::from_str(text.substring_char(first, last))
    }
}

/// The position of the first line feed from `i` on, or the length of the text.
pub open spec fn next_feed(text: Seq<char>, i: nat) -> nat
    decreases text.len() - i,
{
    if i >= text.len() {
        text.len()
    } else if text[i as int] == '\n' {
        i
    } else {
        next_feed(text, i + 1)
    }
}

/// The line between `start` and the line feed at `end`: without the carriage return
/// before the line feed.
pub open spec fn fed_line(text: Seq<char>, start: nat, end: nat) -> Seq<char> {
    if start < end && text[end - 1] == '\r' {
        text.subrange(start as int, end - 1)
    } else {
        text.subrange(start as int, end as int)
    }
}

/// The lines of the text from `start` on. A line ends at a line feed, or at a carriage
/// return and a line feed; the last line need not end so.
pub open spec fn lines_from(text: Seq<char>, start: nat) -> Seq<Seq<char>>
    decreases text.len() - start,
{
    if start >= text.len() {
        Seq::empty()
    } else if next_feed(text, start) >= text.len() {
        seq![text.subrange(start as int, text.len() as int)]
    } else {
        proof {
            lemma_next_feed_bounds(text, start);
        }
        seq![fed_line(text, start, next_feed(text, start))] + lines_from(
            text,
            next_feed(text, start) + 1,
        )
    }
}

/// The lines of the text.
pub open spec fn spec_lines(text: Seq<char>) -> Seq<Seq<char>> {
    lines_from(text, 0)
}

pub proof fn lemma_next_feed_bounds(text: Seq<char>, i: nat)
    requires
        i <= text.len(),
    ensures
        i <= next_feed(text, i) <= text.len(),
    decreases text.len() - i,
{
    if i < text.len() && text[i as int] != '\n' {
        lemma_next_feed_bounds(text, i + 1);
    }
}

/// The lines of the text.
pub fn lines(text: &str) -> (r: Vec<String>)
    ensures
        views_of(r@) == spec_lines(text@),
{
    let chars = chars_of(text);
    let mut out: Vec<String> = Vec::new();
    let mut start: usize = 0;
    proof {
        assert(views_of(out@) =~= Seq::<Seq<char>>::empty());
        assert(Seq::<Seq<char>>::empty() + lines_from(chars@, 0) =~= lines_from(chars@, 0));
    }
    while start < chars.len()
        invariant
            start <= chars.len(),
            chars@ == text@,
            spec_lines(chars@) == views_of(out@) + lines_from(chars@, start as nat),
        decreases chars.len() - start,
    {
        let mut end: usize = start;
        while end < chars.len() && chars[end] != '\n'
            invariant
                start <= end <= chars.len(),
                next_feed(chars@, start as nat) == next_feed(chars@, end as nat),
            decreases chars.len() - end,
        {
            end += 1;
        }
        let ghost before = out@;
        if end >= chars.len() {
            let line = String::from_str(text.substring_char(start, chars.len()));
            proof {
                lemma_views_push(before, line);
                assert(views_of(before).push(line@) + lines_from(chars@, chars@.len())
                    =~= views_of(before) + lines_from(chars@, start as nat));
            }
            out.push(line);
            start = chars.len();
        } else {
            let stop = if start < end && chars[end - 1] == '\r' {
                end - 1
            } else {
                end
            };
            let line = String::from_str(text.substring_char(start, stop));
            proof {
                lemma_views_push(before, line);
                assert(line@ == fed_line(chars@, start as nat, end as nat));
                assert(views_of(before).push(line@) + lines_from(chars@, (end + 1) as nat)
                    =~= views_of(before) + lines_from(chars@, start as nat));
            }
            out.push(line);
            start = end + 1;
        }
    }
    proof {
        assert(views_of(out@) + lines_from(chars@, start as nat) =~= views_of(out@));
    }
    out
}

/// Whether the text starts with `prefix`.
pub open spec fn spec_starts_with(text: Seq<char>, prefix: Seq<char>) -> bool {
    occurs_at(text, prefix, 0)
}

/// Whether the text starts with `prefix`.
pub fn starts_with(text: &Vec<char>, prefix: &Vec<char>) -> (b: bool)
    ensures
        b == spec_starts_with(text@, prefix@),
{
    if prefix.len() > text.len() {
        return false;
    }
    let mut k: usize = 0;
    while k < prefix.len()
        invariant
            k <= prefix.len() <= text.len(),
            forall|j: int| 0 <= j < k ==> text@[j] == prefix@[j],
        decreases prefix.len() - k,
    {
        if text[k] != prefix[k] {
            proof {
                assert(text@.subrange(0, prefix@.len() as int)[k as int] == text@[k as int]);
            }
            return false;
        }
        k += 1;
    }
    proof {
        assert(text@.subrange(0, prefix@.len() as int) =~= prefix@);
    }
    true
}

/// The text from `start` on without the occurrences of `needle`, read from the left;
/// an empty `needle` takes nothing out.
pub open spec fn removed_from(text: Seq<char>, needle: Seq<char>, start: nat) -> Seq<char>
    decreases text.len() - start,
{
    if start >= text.len() {
        Seq::empty()
    } else if needle.len() > 0 && occurs_at(text, needle, start as int) {
        removed_from(text, needle, start + needle.len())
    } else {
        seq![text[start as int]] + removed_from(text, needle, start + 1)
    }
}

fn found_at(text: &Vec<char>, needle: &Vec<char>, at: usize) -> (b: bool)
    requires
        at <= text.len(),
    ensures
        b == occurs_at(text@, needle@, at as int),
{
    if needle.len() > text.len() - at {
        return false;
    }
    let mut k: usize = 0;
    while k < needle.len()
        invariant
            k <= needle.len(),
            at + needle.len() <= text.len(),
            forall|j: int| 0 <= j < k ==> text@[at + j] == needle@[j],
        decreases needle.len() - k,
    {
        if text[at + k] != needle[k] {
            proof {
                assert(text@.subrange(at as int, at + needle@.len())[k as int] == text@[at + k]);
            }
            return false;
        }
        k += 1;
    }
    proof {
        assert(text@.subrange(at as int, at + needle@.len()) =~= needle@);
    }
    true
}

/// The text without the occurrences of `needle`.
pub fn remove_all(text: &str, needle: &str) -> (r: String)
    ensures
        r@ == removed_from(text@, needle@, 0),
{
    let chars = chars_of(text);
    let pattern = chars_of(needle);
    let mut out = String::new();
    let mut start: usize = 0;
    proof {
        assert(out@ + removed_from(chars@, pattern@, 0) =~= removed_from(chars@, pattern@, 0));
    }
    while start < chars.len()
        invariant
            start <= chars.len(),
            chars@ == text@,
            pattern@ == needle@,
            removed_from(chars@, pattern@, 0) == out@ + removed_from(
                chars@,
                pattern@,
                start as nat,
            ),
        decreases chars.len() - start,
    {
        let ghost before = out@;
        if pattern.len() > 0 && found_at(&chars, &pattern, start) {
            start += pattern.len();
        } else {
            out.append(text.substring_char(start, start + 1));
            proof {
                assert(chars@.subrange(start as int, start + 1) =~= seq![chars@[start as int]]);
                assert(out@ + removed_from(chars@, pattern@, (start + 1) as nat) =~= before + (
                seq![chars@[start as int]] + removed_from(chars@, pattern@, (start + 1) as nat)));
            }
            start += 1;
        }
    }
    proof {
        assert(out@ + removed_from(chars@, pattern@, start as nat) =~= out@);
    }
    out
}

/// The text with a comma for each semicolon and a blank for each line feed.
pub open spec fn spec_sanitize(text: Seq<char>) -> Seq<char> {
    text.map_values(
        |c: char|
            if c == ';' {
                ','
            } else if c == '\n' {
                ' '
            } else {
                c
            },
    )
}

/// The text as one field of a row: with a comma for each semicolon and a blank for
/// each line feed.
pub fn sanitize(text: &str) -> (r: String)
    ensures
        r@ == spec_sanitize(text@),
{
    let n = text.unicode_len();
    let mut out = String::new();
    let mut i: usize = 0;
    proof {
        assert(out@ =~= spec_sanitize(text@.take(0)));
    }
    while i < n
        invariant
            i <= n,
            n == text@.len(),
            out@ == spec_sanitize(text@.take(i as int)),
        decreases n - i,
    {
        let c = text.get_char(i);
        let ghost before = out@;
        if c == ';' {
            out.append(",");
            proof {
                reveal_strlit(",");
                assert(","@ =~= seq![',']);
            }
        } else if c == '\n' {
            out.append(" ");
            proof {
                reveal_strlit(" ");
                assert(" "@ =~= seq![' ']);
            }
        } else {
            out.append(text.substring_char(i, i + 1));
            proof {
                assert(text@.subrange(i as int, i + 1) =~= seq![c]);
            }
        }
        proof {
            assert(out@ =~= spec_sanitize(text@.take(i + 1)));
        }
        i += 1;
    }
    proof {
        assert(text@.take(i as int) =~= text@);
    }
    out
}

/// The metrics of a run: of the first of `lines` that, trimmed, starts with
/// `RESULT_CSV:`, the trimmed line without that mark; nothing where there is no such
/// line.
pub open spec fn metrics_among(lines: Seq<Seq<char>>, i: nat) -> Seq<char>
    decreases lines.len() - i,
{
    if i >= lines.len() {
        Seq::empty()
    } else if spec_starts_with(spec_trim(lines[i as int]), "RESULT_CSV:"@) {
        removed_from(spec_trim(lines[i as int]), "RESULT_CSV:"@, 0)
    } else {
        metrics_among(lines, i + 1)
    }
}

/// The metrics line in what the analyzer wrote.
pub open spec fn spec_result_csv(stdout: Seq<char>) -> Seq<char> {
    metrics_among(spec_lines(stdout), 0)
}

/// The metrics line in what the analyzer wrote, without its mark.
pub fn result_csv(stdout: &str) -> (r: String)
    ensures
        r@ == spec_result_csv(stdout@),
{
    let all = lines(stdout);
    let mark = chars_of("RESULT_CSV:");
    let mut i: usize = 0;
    while i < all.len()
        invariant
            i <= all.len(),
            mark@ == "RESULT_CSV:"@,
            views_of(all@) == spec_lines(stdout@),
            spec_result_csv(stdout@) == metrics_among(views_of(all@), i as nat),
        decreases all.len() - i,
    {
        proof {
            assert(views_of(all@)[i as int] == all@[i as int]@);
        }
        let trimmed = trim(all[i].as_str());
        if starts_with(&chars_of(trimmed.as_str()), &mark) {
            return remove_all(trimmed.as_str(), "RESULT_CSV:");
        }
        i += 1;
    }
    String::new()
}

/// The first of `lines` from `i` on that holds `CRITICAL:`, trimmed.
pub open spec fn critical_among(lines: Seq<Seq<char>>, i: nat) -> Option<Seq<char>>
    decreases lines.len() - i,
{
    if i >= lines.len() {
        None
    } else if spec_contains_text(lines[i as int], "CRITICAL:"@) {
        Some(spec_trim(lines[i as int]))
    } else {
        critical_among(lines, i + 1)
    }
}

fn critical_line(stdout: &str) -> (r: Option<String>)
    ensures
        match r {
            Some(s) => critical_among(spec_lines(stdout@), 0) == Some(s@),
            None => critical_among(spec_lines(stdout@), 0).is_none(),
        },
{
    let all = lines(stdout);
    let mark = chars_of("CRITICAL:");
    let mut i: usize = 0;
    while i < all.len()
        invariant
            i <= all.len(),
            mark@ == "CRITICAL:"@,
            views_of(all@) == spec_lines(stdout@),
            critical_among(spec_lines(stdout@), 0) == critical_among(views_of(all@), i as nat),
        decreases all.len() - i,
    {
        proof {
            assert(views_of(all@)[i as int] == all@[i as int]@);
        }
        if contains_text(&chars_of(all[i].as_str()), &mark) {
            return Some(trim(all[i].as_str()));
        }
        i += 1;
    }
    None
}

/// What went wrong in a run of a batch: what the analyzer wrote as error, trimmed; else
/// its first critical line; else `Unknown error`.
pub open spec fn spec_batch_error(stderr: Seq<char>, stdout: Seq<char>) -> Seq<char> {
    if spec_trim(stderr).len() > 0 {
        spec_trim(stderr)
    } else {
        match critical_among(spec_lines(stdout), 0) {
            Some(line) => line,
            None => "Unknown error"@,
        }
    }
}

pub fn batch_error(stderr: &str, stdout: &str) -> (r: String)
    ensures
        r@ == spec_batch_error(stderr@, stdout@),
{
    let message = trim(stderr);
    if message.as_str().unicode_len() > 0 {
        return message;
    }
    match critical_line(stdout) {
        Some(line) => line,
        None => String::from_str("Unknown error"),
    }
}

/// The head of the table of a batch.
pub open spec fn spec_batch_header() -> Seq<char> {
    "file;time_ms;states;transitions;individuals;actions;conflicting;conflict_count;automaton_size_mb;max_memory_mb;obs\n"@
}

pub fn batch_header() -> (r: String)
    ensures
        r@ == spec_batch_header(),
{
    String::from_str(
        "file;time_ms;states;transitions;individuals;actions;conflicting;conflict_count;automaton_size_mb;max_memory_mb;obs\n",
    )
}

/// Whether a run of a batch counts as a success: the analyzer ended well and wrote
/// its metrics.
pub open spec fn batch_succeeded(success: bool, stdout: Seq<char>) -> bool {
    success && spec_result_csv(stdout).len() > 0
}

/// The row of a file in the table of a batch: the metrics of a successful run, or the
/// time, dashes for the numbers, and the error with the exit code; `-1` stands for no
/// exit code.
pub open spec fn spec_batch_row(
    file_name: Seq<char>,
    success: bool,
    stdout: Seq<char>,
    stderr: Seq<char>,
    elapsed: u64,
    code: Option<i32>,
) -> Seq<char> {
    if batch_succeeded(success, stdout) {
        file_name + ";"@ + spec_result_csv(stdout) + "\n"@
    } else {
        file_name + ";"@ + decimal(elapsed as nat) + ";-;-;-;-;-;-;-;-;"@ + spec_sanitize(
            spec_batch_error(stderr, stdout),
        ) + " (Exit "@ + signed_decimal(
            match code {
                Some(c) => c as int,
                None => -1,
            },
        ) + ")\n"@
    }
}

pub fn batch_row(
    file_name: &str,
    success: bool,
    stdout: &str,
    stderr: &str,
    elapsed: u64,
    code: Option<i32>,
) -> (r: String)
    ensures
        r@ == spec_batch_row(file_name@, success, stdout@, stderr@, elapsed, code),
{
    let csv = result_csv(stdout);
    let mut row = String::from_str(file_name);
    row.append(";");
    if success && csv.as_str().unicode_len() > 0 {
        row.append(csv.as_str());
        row.append("\n");
        return row;
    }
    push_decimal(&mut row, elapsed);
    row.append(";-;-;-;-;-;-;-;-;");
    let message = sanitize(batch_error(stderr, stdout).as_str());
    row.append(message.as_str());
    row.append(" (Exit ");
    let shown: i64 = match code {
        Some(c) => c as i64,
        None => -1,
    };
    push_signed(&mut row, shown);
    row.append(")\n");
    proof {
        assert(row@ =~= spec_batch_row(file_name@, success, stdout@, stderr@, elapsed, code));
    }
    row
}

/// The lines between the marks of the summary among `lines` from `i` on; `inside`
/// says whether the start mark was the last mark seen.
pub open spec fn marked_from(lines: Seq<Seq<char>>, i: nat, inside: bool) -> Seq<Seq<char>>
    decreases lines.len() - i,
{
    if i >= lines.len() {
        Seq::empty()
    } else if lines[i as int] == "FINAL_SUMMARY_START"@ {
        marked_from(lines, i + 1, true)
    } else if lines[i as int] == "FINAL_SUMMARY_END"@ {
        marked_from(lines, i + 1, false)
    } else if inside {
        seq![lines[i as int]] + marked_from(lines, i + 1, inside)
    } else {
        marked_from(lines, i + 1, inside)
    }
}

/// Whether a line belongs to the plain output of a run: it is no mark, no metrics line
/// and not the closing line.
pub open spec fn is_plain_line(line: Seq<char>) -> bool {
    &&& !spec_starts_with(line, "RESULT_CSV:"@)
    &&& line != "Analysis completed."@
    &&& line != "FINAL_SUMMARY_START"@
    &&& line != "FINAL_SUMMARY_END"@
}

/// The plain lines among `lines` from `i` on.
pub open spec fn plain_from(lines: Seq<Seq<char>>, i: nat) -> Seq<Seq<char>>
    decreases lines.len() - i,
{
    if i >= lines.len() {
        Seq::empty()
    } else if is_plain_line(lines[i as int]) {
        seq![lines[i as int]] + plain_from(lines, i + 1)
    } else {
        plain_from(lines, i + 1)
    }
}

/// The summary of a run that ended well: the lines between the marks of the summary
/// or, where there are none, the plain lines; joined by line feeds and trimmed.
pub open spec fn spec_summary(stdout: Seq<char>) -> Seq<char> {
    let marked = marked_from(spec_lines(stdout), 0, false);
    if marked.len() == 0 {
        spec_trim(spec_join(plain_from(spec_lines(stdout), 0), "\n"@))
    } else {
        spec_trim(spec_join(marked, "\n"@))
    }
}

fn same_line(line: &String, mark: &str) -> (b: bool)
    ensures
        b == (line@ == mark@),
{
    *line == String::from_str(mark)
}

fn marked_lines(all: &Vec<String>) -> (r: Vec<String>)
    ensures
        views_of(r@) == marked_from(views_of(all@), 0, false),
{
    let mut out: Vec<String> = Vec::new();
    let mut inside = false;
    let mut i: usize = 0;
    let ghost goal = marked_from(views_of(all@), 0, false);
    proof {
        assert(views_of(out@) + goal =~= goal);
    }
    while i < all.len()
        invariant
            i <= all.len(),
            goal == views_of(out@) + marked_from(views_of(all@), i as nat, inside),
        decreases all.len() - i,
    {
        proof {
            assert(views_of(all@)[i as int] == all@[i as int]@);
        }
        if same_line(&all[i], "FINAL_SUMMARY_START") {
            inside = true;
        } else if same_line(&all[i], "FINAL_SUMMARY_END") {
            inside = false;
        } else if inside {
            let ghost before = out@;
            let line = all[i].clone();
            proof {
                lemma_views_push(before, line);
                assert(views_of(before).push(line@) + marked_from(
                    views_of(all@),
                    (i + 1) as nat,
                    inside,
                ) =~= views_of(before) + (seq![line@] + marked_from(
                    views_of(all@),
                    (i + 1) as nat,
                    inside,
                )));
            }
            out.push(line);
        }
        i += 1;
    }
    proof {
        assert(views_of(out@) + Seq::<Seq<char>>::empty() =~= views_of(out@));
    }
    out
}

fn plain_lines(all: &Vec<String>) -> (r: Vec<String>)
    ensures
        views_of(r@) == plain_from(views_of(all@), 0),
{
    let mut out: Vec<String> = Vec::new();
    let mark = chars_of("RESULT_CSV:");
    let mut i: usize = 0;
    let ghost goal = plain_from(views_of(all@), 0);
    proof {
        assert(views_of(out@) + goal =~= goal);
    }
    while i < all.len()
        invariant
            i <= all.len(),
            mark@ == "RESULT_CSV:"@,
            goal == views_of(out@) + plain_from(views_of(all@), i as nat),
        decreases all.len() - i,
    {
        proof {
            assert(views_of(all@)[i as int] == all@[i as int]@);
        }
        let plain = !starts_with(&chars_of(all[i].as_str()), &mark) && !same_line(
            &all[i],
            "Analysis completed.",
        ) && !same_line(&all[i], "FINAL_SUMMARY_START") && !same_line(&all[i], "FINAL_SUMMARY_END");
        if plain {
            let ghost before = out@;
            let line = all[i].clone();
            proof {
                lemma_views_push(before, line);
                assert(views_of(before).push(line@) + plain_from(views_of(all@), (i + 1) as nat)
                    =~= views_of(before) + (seq![line@] + plain_from(
                    views_of(all@),
                    (i + 1) as nat,
                )));
            }
            out.push(line);
        }
        i += 1;
    }
    proof {
        assert(views_of(out@) + Seq::<Seq<char>>::empty() =~= views_of(out@));
    }
    out
}

/// The summary of a run that ended well.
pub fn summary(stdout: &str) -> (r: String)
    ensures
        r@ == spec_summary(stdout@),
{
    let all = lines(stdout);
    let marked = marked_lines(&all);
    let chosen = if marked.len() == 0 {
        plain_lines(&all)
    } else {
        marked
    };
    let mut joined = String::new();
    push_joined(&mut joined, &chosen, "\n");
    proof {
        assert(joined@ =~= spec_join(views_of(chosen@), "\n"@));
    }
    trim(joined.as_str())
}

/// An exit code as a failure names it: `Some(3)` or `None`.
pub open spec fn code_text(code: Option<i32>) -> Seq<char> {
    match code {
        Some(c) => "Some("@ + signed_decimal(c as int) + ")"@,
        None => "None"@,
    }
}

/// What went wrong in a run: what the analyzer wrote as error, trimmed; else its first
/// critical line; else the exit code.
pub open spec fn spec_failure(stderr: Seq<char>, stdout: Seq<char>, code: Option<i32>) -> Seq<char> {
    if spec_trim(stderr).len() > 0 {
        spec_trim(stderr)
    } else {
        match critical_among(spec_lines(stdout), 0) {
            Some(line) => line,
            None => "Analysis failed with exit code "@ + code_text(code),
        }
    }
}

pub fn failure(stderr: &str, stdout: &str, code: Option<i32>) -> (r: String)
    ensures
        r@ == spec_failure(stderr@, stdout@, code),
{
    let message = trim(stderr);
    if message.as_str().unicode_len() > 0 {
        return message;
    }
    match critical_line(stdout) {
        Some(line) => line,
        None => {
            let mut out = String::from_str("Analysis failed with exit code ");
            match code {
                Some(c) => {
                    out.append("Some(");
                    push_signed(&mut out, c as i64);
                    out.append(")");
                },
                None => {
                    out.append("None");
                },
            }
            proof {
                assert(out@ =~= "Analysis failed with exit code "@ + code_text(code));
            }
            out
        },
    }
}

/// The option of the analyzer that a mode of the desktop stands for, if any.
pub open spec fn spec_mode_option(mode: Seq<char>) -> Option<Seq<char>> {
    if mode == "Verbose"@ {
        Some("-v"@)
    } else if mode == "Test"@ {
        Some("-t"@)
    } else {
        None
    }
}

/// The command line of the analyzer for a contract file and a mode: the file, and
/// `-v` for the mode `Verbose` or `-t` for the mode `Test`.
pub fn mode_arguments(path: String, mode: &str) -> (r: Vec<String>)
    ensures
        r@.len() >= 1,
        r@[0] == path,
        match spec_mode_option(mode@) {
            Some(o) => r@.len() == 2 && r@[1]@ == o,
            None => r@.len() == 1,
        },
{
    let mut args: Vec<String> = Vec::new();
    args.push(path);
    let wanted = String::from_str(mode);
    if same_line(&wanted, "Verbose") {
        args.push(String::from_str("-v"));
    } else if same_line(&wanted, "Test") {
        args.push(String::from_str("-t"));
    }
    args
}

/// Whether a line of the analyzer is passed on to the log of the desktop: the marks of
/// the summary are not.
pub fn is_forwarded(line: &str) -> (b: bool)
    ensures
        b == (spec_trim(line@) != "FINAL_SUMMARY_START"@ && spec_trim(line@)
            != "FINAL_SUMMARY_END"@),
{
    let trimmed = trim(line);
    !same_line(&trimmed, "FINAL_SUMMARY_START") && !same_line(&trimmed, "FINAL_SUMMARY_END")
}

/// Whether a file with this extension is a contract.
pub fn is_contract_file(extension: Option<&str>) -> (b: bool)
    ensures
        b == (extension matches Some(e) && e@ == "rcl"@),
{
    match extension {
        Some(e) => same_line(&String::from_str(e), "rcl"),
        None => false,
    }
}

} // verus!
