use vstd::prelude::*;
use vstd::string::{StrSliceExecFns, StringExecFns};

verus! {

/// The character of a decimal digit.
pub open spec fn digit(d: nat) -> Seq<char> {
    if d == 0 {
        "0"@
    } else if d == 1 {
        "1"@
    } else if d == 2 {
        "2"@
    } else if d == 3 {
        "3"@
    } else if d == 4 {
        "4"@
    } else if d == 5 {
        "5"@
    } else if d == 6 {
        "6"@
    } else if d == 7 {
        "7"@
    } else if d == 8 {
        "8"@
    } else {
        "9"@
    }
}

/// The decimal digits of `n`, without leading zeros.
pub open spec fn decimal(n: nat) -> Seq<char>
    decreases n,
{
    if n < 10 {
        digit(n)
    } else {
        decimal(n / 10) + digit(n % 10)
    }
}

/// The decimal form of an integer, with `-` before a negative one.
pub open spec fn signed_decimal(n: int) -> Seq<char> {
    if n < 0 {
        "-"@ + decimal((-n) as nat)
    } else {
        decimal(n as nat)
    }
}

fn digit_str(d: u64) -> (s: &'static str)
    requires
        d < 10,
    ensures
        s@ == digit(d as nat),
{
    if d == 0 {
        "0"
    } else if d == 1 {
        "1"
    } else if d == 2 {
        "2"
    } else if d == 3 {
        "3"
    } else if d == 4 {
        "4"
    } else if d == 5 {
        "5"
    } else if d == 6 {
        "6"
    } else if d == 7 {
        "7"
    } else if d == 8 {
        "8"
    } else {
        "9"
    }
}

/// Appends the decimal digits of `n` to `out`.
pub fn push_decimal(out: &mut String, n: u64)
    ensures
        final(out)@ == old(out)@ + decimal(n as nat),
    decreases n,
{
    if n >= 10 {
        push_decimal(out, n / 10);
        out.append(digit_str(n % 10));
        proof {
            assert(out@ =~= old(out)@ + (decimal((n / 10) as nat) + digit((n % 10) as nat)));
        }
    } else {
        out.append(digit_str(n));
    }
}

/// Appends the decimal form of `n` to `out`.
pub fn push_signed(out: &mut String, n: i64)
    ensures
        final(out)@ == old(out)@ + signed_decimal(n as int),
{
    if n < 0 {
        out.append("-");
        let magnitude: u64 = if n == i64::MIN {
            0x8000_0000_0000_0000u64
        } else {
            (-n) as u64
        };
        push_decimal(out, magnitude);
        proof {
            assert(out@ =~= old(out)@ + ("-"@ + decimal((-n) as nat)));
        }
    } else {
        push_decimal(out, n as u64);
    }
}

/// The decimal digits of `n`.
pub fn decimal_string(n: u64) -> (s: String)
    ensures
        s@ == decimal(n as nat),
{
    let mut out = String::new();
    push_decimal(&mut out, n);
    proof {
        assert(Seq::<char>::empty() + decimal(n as nat) =~= decimal(n as nat));
    }
    out
}

/// `value` in hundredths of `unit`, rounded to the nearest and, half way, to the even
/// one.
pub open spec fn hundredths_of(value: nat, unit: nat) -> nat {
    let whole = value * 100 / unit;
    let rest = value * 100 % unit;
    if rest * 2 > unit || (rest * 2 == unit && whole % 2 == 1) {
        whole + 1
    } else {
        whole
    }
}

/// A number of hundredths with two decimals.
pub open spec fn two_decimals(hundredths: nat) -> Seq<char> {
    decimal(hundredths / 100) + "."@ + digit(hundredths % 100 / 10) + digit(hundredths % 10)
}

/// Appends `value` in units of `unit`, with two decimals, to `out`.
pub fn push_in_units(out: &mut String, value: u64, unit: u64)
    requires
        unit > 0,
    ensures
        final(out)@ == old(out)@ + two_decimals(hundredths_of(value as nat, unit as nat)),
{
    let scaled: u128 = (value as u128) * 100;
    let whole: u128 = scaled / (unit as u128);
    let rest: u128 = scaled % (unit as u128);
    let hundredths: u128 = if rest * 2 > unit as u128 || (rest * 2 == unit as u128 && whole % 2
        == 1) {
        whole + 1
    } else {
        whole
    };
    assert(hundredths == hundredths_of(value as nat, unit as nat));
    assert(whole <= scaled) by (nonlinear_arith)
        requires
            whole == scaled / (unit as u128),
            unit > 0,
    ;
    let units: u64 = (hundredths / 100) as u64;
    let tenths: u64 = (hundredths % 100 / 10) as u64;
    let last: u64 = (hundredths % 10) as u64;
    push_decimal(out, units);
    out.append(".");
    push_decimal(out, tenths);
    push_decimal(out, last);
    proof {
        assert(decimal(tenths as nat) == digit(tenths as nat));
        assert(decimal(last as nat) == digit(last as nat));
        assert(out@ =~= old(out)@ + two_decimals(hundredths as nat));
    }
}

/// Whether `needle` occurs in `hay` at position `at`.
pub open spec fn occurs_at(hay: Seq<char>, needle: Seq<char>, at: int) -> bool {
    0 <= at && at + needle.len() <= hay.len() && hay.subrange(at, at + needle.len()) == needle
}

/// Whether `needle` occurs somewhere in `hay`.
pub open spec fn spec_contains_text(hay: Seq<char>, needle: Seq<char>) -> bool {
    exists|at: int| occurs_at(hay, needle, at)
}

/// The characters of `s`.
pub fn chars_of(s: &str) -> (r: Vec<char>)
    ensures
        r@ == s@,
{
    let n = s.unicode_len();
    let mut out: Vec<char> = Vec::new();
    let mut i: usize = 0;
    while i < n
        invariant
            i <= n,
            n == s@.len(),
            out@ == s@.take(i as int),
        decreases n - i,
    {
        out.push(s.get_char(i));
        proof {
            assert(out@ =~= s@.take(i + 1));
        }
        i += 1;
    }
    proof {
        assert(s@.take(i as int) =~= s@);
    }
    out
}

fn matches_at(hay: &Vec<char>, needle: &Vec<char>, at: usize) -> (b: bool)
    requires
        at + needle.len() <= hay.len(),
    ensures
        b == occurs_at(hay@, needle@, at as int),
{
    let mut k: usize = 0;
    while k < needle.len()
        invariant
            k <= needle.len(),
            at + needle.len() <= hay.len(),
            forall|j: int| 0 <= j < k ==> hay@[at + j] == needle@[j],
        decreases needle.len() - k,
    {
        if hay[at + k] != needle[k] {
            proof {
                assert(hay@.subrange(at as int, at + needle.len())[k as int] == hay@[at + k]);
            }
            return false;
        }
        k += 1;
    }
    proof {
        assert(hay@.subrange(at as int, at + needle.len()) =~= needle@);
    }
    true
}

/// Whether `needle` occurs somewhere in `hay`.
pub fn contains_text(hay: &Vec<char>, needle: &Vec<char>) -> (b: bool)
    ensures
        b == spec_contains_text(hay@, needle@),
{
    if needle.len() > hay.len() {
        return false;
    }
    if needle.len() == 0 {
        proof {
            assert(hay@.subrange(0, 0) =~= needle@);
            assert(occurs_at(hay@, needle@, 0));
        }
        return true;
    }
    let last = hay.len() - needle.len();
    let mut at: usize = 0;
    while at <= last
        invariant
            at <= last + 1,
            last == hay.len() - needle.len(),
            0 < needle.len() <= hay.len(),
            forall|p: int| 0 <= p < at ==> !occurs_at(hay@, needle@, p),
        decreases last + 1 - at,
    {
        if matches_at(hay, needle, at) {
            return true;
        }
        at += 1;
    }
    false
}

/// The hash of a text: `31 * h + c` over its characters, starting from zero, in
/// wrapping 32-bit signed arithmetic.
pub open spec fn spec_string_hash(text: Seq<char>) -> i32
    decreases text.len(),
{
    if text.len() == 0 {
        0
    } else {
        spec_string_hash(text.drop_last()).wrapping_mul(31).wrapping_add(text.last() as i32)
    }
}

/// The hash of a text.
pub fn string_hash(text: &Vec<char>) -> (h: i32)
    ensures
        h == spec_string_hash(text@),
{
    let mut hash: i32 = 0;
    let mut i: usize = 0;
    while i < text.len()
        invariant
            i <= text.len(),
            hash == spec_string_hash(text@.take(i as int)),
        decreases text.len() - i,
    {
        proof {
            assert(text@.take(i + 1).drop_last() =~= text@.take(i as int));
        }
        hash = hash.wrapping_mul(31).wrapping_add(text[i] as i32);
        i += 1;
    }
    proof {
        assert(text@.take(i as int) =~= text@);
    }
    hash
}

/// The texts one after another, with `separator` between them.
pub open spec fn spec_join(parts: Seq<Seq<char>>, separator: Seq<char>) -> Seq<char>
    decreases parts.len(),
{
    if parts.len() == 0 {
        Seq::empty()
    } else if parts.len() == 1 {
        parts[0]
    } else {
        spec_join(parts.drop_last(), separator) + separator + parts.last()
    }
}

/// The texts of `parts`.
pub open spec fn views_of(parts: Seq<String>) -> Seq<Seq<char>> {
    parts.map_values(|s: String| s@)
}

/// The texts after one more was added.
pub proof fn lemma_views_push(parts: Seq<String>, last: String)
    ensures
        views_of(parts.push(last)) == views_of(parts).push(last@),
{
    assert(views_of(parts.push(last)) =~= views_of(parts).push(last@));
}

/// Appends the texts to `out`, with `separator` between them.
pub fn push_joined(out: &mut String, parts: &Vec<String>, separator: &str)
    ensures
        final(out)@ == old(out)@ + spec_join(views_of(parts@), separator@),
{
    let mut i: usize = 0;
    proof {
        assert(views_of(parts@).take(0) =~= Seq::<Seq<char>>::empty());
        assert(out@ =~= old(out)@ + Seq::<char>::empty());
    }
    while i < parts.len()
        invariant
            i <= parts.len(),
            out@ == old(out)@ + spec_join(views_of(parts@).take(i as int), separator@),
        decreases parts.len() - i,
    {
        let ghost before = spec_join(views_of(parts@).take(i as int), separator@);
        proof {
            assert(views_of(parts@).take(i + 1).drop_last() =~= views_of(parts@).take(i as int));
            assert(views_of(parts@).take(i + 1).last() == parts@[i as int]@);
        }
        if i > 0 {
            out.append(separator);
        }
        out.append(parts[i].as_str());
        proof {
            if i == 0 {
                assert(views_of(parts@).take(1)[0] == parts@[0]@);
                assert(before =~= Seq::<char>::empty());
                assert(out@ =~= old(out)@ + parts@[0]@);
            } else {
                assert(out@ =~= old(out)@ + (before + separator@ + parts@[i as int]@));
            }
        }
        i += 1;
    }
    proof {
        assert(views_of(parts@).take(i as int) =~= views_of(parts@));
    }
}

/// `text` with a backslash before each double quote.
pub open spec fn spec_escape_quotes(text: Seq<char>) -> Seq<char>
    decreases text.len(),
{
    if text.len() == 0 {
        Seq::empty()
    } else if text.last() == '"' {
        spec_escape_quotes(text.drop_last()) + seq!['\\', '"']
    } else {
        spec_escape_quotes(text.drop_last()).push(text.last())
    }
}

/// Appends `text` to `out`, with a backslash before each double quote.
pub fn push_escaped(out: &mut String, text: &str)
    ensures
        final(out)@ == old(out)@ + spec_escape_quotes(text@),
{
    let n = text.unicode_len();
    let mut i: usize = 0;
    proof {
        assert(text@.take(0) =~= Seq::<char>::empty());
        assert(out@ =~= old(out)@ + Seq::<char>::empty());
    }
    while i < n
        invariant
            i <= n,
            n == text@.len(),
            out@ == old(out)@ + spec_escape_quotes(text@.take(i as int)),
        decreases n - i,
    {
        let ghost before = spec_escape_quotes(text@.take(i as int));
        proof {
            assert(text@.take(i + 1).drop_last() =~= text@.take(i as int));
            assert(text@.take(i + 1).last() == text@[i as int]);
        }
        let c = text.get_char(i);
        if c == '"' {
            out.append("\\\"");
            proof {
                reveal_strlit("\\\"");
                assert("\\\""@ =~= seq!['\\', '"']);
                assert(out@ =~= old(out)@ + (before + seq!['\\', '"']));
            }
        } else {
            out.append(text.substring_char(i, i + 1));
            proof {
                assert(text@.subrange(i as int, i + 1) =~= seq![c]);
                assert(out@ =~= old(out)@ + before.push(c));
            }
        }
        i += 1;
    }
    proof {
        assert(text@.take(i as int) =~= text@);
    }
}

} // verus!
