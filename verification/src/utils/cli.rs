use crate::utils::config::{LogLevel, RunConfiguration};
use crate::utils::text::chars_of;
use std::path::Path;
use vstd::prelude::*;
use vstd::string::{StrSliceExecFns, StringExecFns, StringSliceAdditionalSpecFns};
use vstd::utf8::encode_utf8;

verus! {

/// The switches of a run.
#[derive(Debug, Clone, Copy, PartialEq, Eq, Structural)]
pub struct Options {
    pub export_decompositions: bool,
    pub export_automaton: bool,
    pub continue_on_conflict: bool,
    pub export_min_automaton: bool,
    pub use_prunning: bool,
    pub verbose: bool,
    pub test: bool,
}

/// What reading the options comes to.
pub enum Reading {
    /// Every option was known.
    Options(Options),
    /// Help was asked for.
    Help,
    /// This option is not known.
    Unknown(Seq<char>),
}

/// What a command line asks for.
#[derive(Debug)]
pub enum CommandLine {
    /// An analysis with these settings.
    Run(RunConfiguration),
    /// No contract file was named: the usage is to be shown, and the settings are the
    /// initial ones.
    Usage(RunConfiguration),
    /// The usage is to be shown, and nothing else done.
    Help,
    /// The usage is to be shown for this unknown option, as a failure.
    UnknownOption(String),
}

/// The switches of a configuration.
pub open spec fn options_of(c: RunConfiguration) -> Options {
    Options {
        export_decompositions: c.export_decompositions,
        export_automaton: c.export_automaton,
        continue_on_conflict: c.continue_on_conflict,
        export_min_automaton: c.export_min_automaton,
        use_prunning: c.use_prunning,
        verbose: c.log_level == LogLevel::Verbose,
        test: c.test,
    }
}

/// The switches before any option was read: pruning on, all else off.
pub open spec fn initial_options() -> Options {
    Options {
        export_decompositions: false,
        export_automaton: false,
        continue_on_conflict: false,
        export_min_automaton: false,
        use_prunning: true,
        verbose: false,
        test: false,
    }
}

/// The switches after a one-letter option; nothing for a letter that is no option.
/// `h` is not handled here.
pub open spec fn read_letter(o: Options, ch: char) -> Option<Options> {
    if ch == 'v' {
        Some(Options { verbose: true, ..o })
    } else if ch == 'g' {
        Some(Options { export_automaton: true, export_decompositions: true, ..o })
    } else if ch == 'n' {
        Some(Options { use_prunning: false, ..o })
    } else if ch == 'c' {
        Some(Options { continue_on_conflict: true, ..o })
    } else if ch == 'm' {
        Some(Options { export_automaton: true, export_min_automaton: true, ..o })
    } else if ch == 't' {
        Some(Options { test: true, ..o })
    } else {
        None
    }
}

/// Reading the letters of `arg` from position `i` on, as combined one-letter options.
pub open spec fn read_cluster(o: Options, arg: Seq<char>, i: nat) -> Reading
    decreases arg.len() - i,
{
    if i >= arg.len() {
        Reading::Options(o)
    } else if arg[i as int] == 'h' {
        Reading::Help
    } else {
        match read_letter(o, arg[i as int]) {
            Some(next) => read_cluster(next, arg, i + 1),
            None => Reading::Unknown(seq!['-', arg[i as int]]),
        }
    }
}

/// Whether `arg` combines one-letter options: one dash, not two, and more than two
/// bytes.
pub open spec fn is_cluster(arg: Seq<char>) -> bool {
    &&& arg.len() > 0
    &&& arg[0] == '-'
    &&& !(arg.len() > 1 && arg[1] == '-')
    &&& encode_utf8(arg).len() as usize > 2
}

/// Reading one argument that is no cluster.
pub open spec fn read_word(o: Options, arg: Seq<char>) -> Reading {
    if arg == "-h"@ || arg == "--help"@ {
        Reading::Help
    } else if arg == "-v"@ || arg == "--verbose"@ {
        Reading::Options(Options { verbose: true, ..o })
    } else if arg == "-g"@ {
        Reading::Options(Options { export_automaton: true, export_decompositions: true, ..o })
    } else if arg == "-n"@ || arg == "--no-prunning"@ {
        Reading::Options(Options { use_prunning: false, ..o })
    } else if arg == "-c"@ || arg == "--continue"@ {
        Reading::Options(Options { continue_on_conflict: true, ..o })
    } else if arg == "-m"@ {
        Reading::Options(Options { export_automaton: true, export_min_automaton: true, ..o })
    } else if arg == "-t"@ {
        Reading::Options(Options { test: true, ..o })
    } else {
        Reading::Unknown(arg)
    }
}

/// Reading one argument.
pub open spec fn read_argument(o: Options, arg: Seq<char>) -> Reading {
    if is_cluster(arg) {
        read_cluster(o, arg, 1)
    } else {
        read_word(o, arg)
    }
}

/// Reading the arguments from position `i` on, left to right, up to the first that
/// asks for help or is not known.
pub open spec fn read_arguments(o: Options, args: Seq<Seq<char>>, i: nat) -> Reading
    decreases args.len() - i,
{
    if i >= args.len() {
        Reading::Options(o)
    } else {
        match read_argument(o, args[i as int]) {
            Reading::Options(next) => read_arguments(next, args, i + 1),
            other => other,
        }
    }
}

/// The texts of the arguments.
pub open spec fn texts(args: Seq<String>) -> Seq<Seq<char>> {
    args.map_values(|s: String| s@)
}

/// Whether the outcome `r` is what the reading `reading` calls for, on top of the
/// file names of `config`.
pub open spec fn outcome_matches(r: CommandLine, reading: Reading, config: RunConfiguration) -> bool {
    match reading {
        Reading::Options(o) => (r matches CommandLine::Run(c) && options_of(c) == o && (c.log_level
            == LogLevel::Verbose || c.log_level == config.log_level) && c.contract_file_name
            == config.contract_file_name && c.result_file_name == config.result_file_name
            && c.decompositions_file_name == config.decompositions_file_name && c.automaton_file_name
            == config.automaton_file_name && c.min_automaton_file_name
            == config.min_automaton_file_name && c.global_log_filename == config.global_log_filename),
        Reading::Help => r is Help,
        Reading::Unknown(text) => (r matches CommandLine::UnknownOption(s) && s@ == text),
    }
}

fn same_text(a: &Vec<char>, b: &str) -> (r: bool)
    ensures
        r == (a@ == b@),
{
    let other = chars_of(b);
    if a.len() != other.len() {
        return false;
    }
    let mut i: usize = 0;
    while i < a.len()
        invariant
            i <= a.len(),
            a.len() == other.len(),
            other@ == b@,
            forall|k: int| 0 <= k < i ==> a@[k] == other@[k],
        decreases a.len() - i,
    {
        if a[i] != other[i] {
            return false;
        }
        i += 1;
    }
    proof {
        assert(a@ =~= other@);
    }
    true
}

fn apply_letter(config: &mut RunConfiguration, ch: char) -> (known: bool)
    ensures
        match read_letter(options_of(*old(config)), ch) {
            Some(o) => known && options_of(*final(config)) == o,
            None => !known && *final(config) == *old(config),
        },
        final(config).log_level == LogLevel::Verbose || final(config).log_level == old(config).log_level,
        final(config).contract_file_name == old(config).contract_file_name,
        final(config).result_file_name == old(config).result_file_name,
        final(config).decompositions_file_name == old(config).decompositions_file_name,
        final(config).automaton_file_name == old(config).automaton_file_name,
        final(config).min_automaton_file_name == old(config).min_automaton_file_name,
        final(config).global_log_filename == old(config).global_log_filename,
{
    if ch == 'v' {
        config.set_log_level(LogLevel::Verbose);
    } else if ch == 'g' {
        config.set_export_automaton(true);
        config.set_export_decompositions(true);
    } else if ch == 'n' {
        config.set_use_prunning(false);
    } else if ch == 'c' {
        config.set_continue_on_conflict(true);
    } else if ch == 'm' {
        config.set_export_automaton(true);
        config.set_export_min_automaton(true);
    } else if ch == 't' {
        config.set_test(true);
    } else {
        return false;
    }
    true
}

/// The letter that stands for a whole-word option; nothing for `-h`, `--help` and
/// unknown words.
fn letter_of(word: &Vec<char>) -> (r: Option<char>)
    ensures
        match r {
            Some(ch) => forall|o: Options|
                read_letter(o, ch).is_some() && #[trigger] read_word(o, word@) == Reading::Options(
                    read_letter(o, ch).unwrap(),
                ),
            None => forall|o: Options| #[trigger]
                read_word(o, word@) == (if word@ == "-h"@ || word@ == "--help"@ {
                    Reading::Help
                } else {
                    Reading::Unknown(word@)
                }),
        },
{
    if same_text(word, "-h") || same_text(word, "--help") {
        None
    } else if same_text(word, "-v") || same_text(word, "--verbose") {
        Some('v')
    } else if same_text(word, "-g") {
        Some('g')
    } else if same_text(word, "-n") || same_text(word, "--no-prunning") {
        Some('n')
    } else if same_text(word, "-c") || same_text(word, "--continue") {
        Some('c')
    } else if same_text(word, "-m") {
        Some('m')
    } else if same_text(word, "-t") {
        Some('t')
    } else {
        None
    }
}

/// Reads the options behind the contract file: `args` from its second entry on.
#[verifier::loop_isolation(false)]
pub fn parse_options(config: RunConfiguration, args: &Vec<String>) -> (r: CommandLine)
    ensures
        outcome_matches(r, read_arguments(options_of(config), texts(args@), 1), config),
{
    let mut config = config;
    let ghost start = config;
    let ghost words = texts(args@);
    let mut i: usize = 1;
    while i < args.len()
        invariant
            1 <= i,
            words == texts(args@),
            read_arguments(options_of(start), words, 1) == read_arguments(
                options_of(config),
                words,
                i as nat,
            ),
            config.log_level == LogLevel::Verbose || config.log_level == start.log_level,
            config.contract_file_name == start.contract_file_name,
            config.result_file_name == start.result_file_name,
            config.decompositions_file_name == start.decompositions_file_name,
            config.automaton_file_name == start.automaton_file_name,
            config.min_automaton_file_name == start.min_automaton_file_name,
            config.global_log_filename == start.global_log_filename,
        decreases args.len() - i,
    {
        let arg = args[i].as_str();
        let word = chars_of(arg);
        proof {
            assert(words[i as int] == args@[i as int]@);
            assert(encode_utf8(word@) == arg.spec_bytes());
        }
        let cluster = word.len() > 0 && word[0] == '-' && !(word.len() > 1 && word[1] == '-')
            && arg.len() > 2;
        if cluster {
            let ghost entered = config;
            let mut j: usize = 1;
            while j < word.len()
                invariant
                    1 <= j,
                    read_cluster(options_of(entered), word@, 1) == read_cluster(
                        options_of(config),
                        word@,
                        j as nat,
                    ),
                    arg@ == word@,
                    config.log_level == LogLevel::Verbose || config.log_level == start.log_level,
                    config.contract_file_name == start.contract_file_name,
                    config.result_file_name == start.result_file_name,
                    config.decompositions_file_name == start.decompositions_file_name,
                    config.automaton_file_name == start.automaton_file_name,
                    config.min_automaton_file_name == start.min_automaton_file_name,
                    config.global_log_filename == start.global_log_filename,
                decreases word.len() - j,
            {
                let ch = word[j];
                if ch == 'h' {
                    return CommandLine::Help;
                }
                if !apply_letter(&mut config, ch) {
                    let mut option = String::from_str("-");
                    option.append(arg.substring_char(j, j + 1));
                    proof {
                        reveal_strlit("-");
                        assert(option@ =~= seq!['-', ch]);
                    }
                    return CommandLine::UnknownOption(option);
                }
                j += 1;
            }
        } else {
            match letter_of(&word) {
                Some(ch) => {
                    let ghost o = options_of(config);
                    apply_letter(&mut config, ch);
                },
                None => {
                    let ghost o = options_of(config);
                    assert(read_word(o, word@) == (if word@ == "-h"@ || word@ == "--help"@ {
                        Reading::Help
                    } else {
                        Reading::Unknown(word@)
                    }));
                    proof {
                        assert(cluster == is_cluster(word@));
                        assert(read_argument(o, words[i as int]) == read_word(o, word@));
                        assert(read_arguments(o, words, i as nat) == read_word(o, word@));
                    }
                    if same_text(&word, "-h") || same_text(&word, "--help") {
                        return CommandLine::Help;
                    }
                    return CommandLine::UnknownOption(String::from_str(arg));
                },
            }
        }
        i += 1;
    }
    CommandLine::Run(config)
}

/// `Path::file_stem`: the file name of `path` without its extension, where the path
/// has one that is valid text. How a path is split depends on the platform, so
/// nothing is claimed of the result.
#[verifier::external_body]
fn file_stem(path: &str) -> (r: Option<String>) {
    Path::new(path).file_stem().and_then(|s| s.to_str()).map(|s| s.to_string())
}

/// `Path::parent`: the directory part of `path`, where it has one. Nothing is claimed
/// of the result.
#[verifier::external_body]
fn parent_dir(path: &str) -> (r: Option<String>) {
    Path::new(path).parent().map(|p| p.to_string_lossy().into_owned())
}

/// `Path::join`: `name` below the directory `dir`. Nothing is claimed of the result.
#[verifier::external_body]
fn join_path(dir: &str, name: &str) -> (r: String) {
    Path::new(dir).join(name).to_string_lossy().into_owned()
}

/// The name of a file that belongs to the contract with the stem `stem`.
pub fn file_name_for(stem: &str, suffix: &str) -> (r: String)
    ensures
        r@ == stem@ + suffix@,
{
    let mut name = String::from_str(stem);
    name.append(suffix);
    name
}

/// Where the files that an analysis writes are placed, and under which names.
pub struct OutputNames {
    pub directory: String,
    pub result: String,
    pub log: String,
    pub automaton: String,
    pub min_automaton: String,
    pub decompositions: String,
}

/// The stem under which files are written: that of the contract file, or `contract`
/// where it has none.
pub open spec fn stem_or_default(stem: Option<String>) -> Seq<char> {
    match stem {
        Some(s) => s@,
        None => "contract"@,
    }
}

/// The directory in which files are written: that of the contract file, or none.
pub open spec fn directory_or_none(parent: Option<String>) -> Seq<char> {
    match parent {
        Some(p) => p@,
        None => Seq::empty(),
    }
}

/// The directory and the names of the files of an analysis, from the stem and the
/// directory of the contract file as far as it has them: the stem with `.result`,
/// `.log`, `.dot`, `_min.dot` and `.csv` behind it.
pub fn output_names(stem: Option<String>, parent: Option<String>) -> (r: OutputNames)
    ensures
        r.directory@ == directory_or_none(parent),
        r.result@ == stem_or_default(stem) + ".result"@,
        r.log@ == stem_or_default(stem) + ".log"@,
        r.automaton@ == stem_or_default(stem) + ".dot"@,
        r.min_automaton@ == stem_or_default(stem) + "_min.dot"@,
        r.decompositions@ == stem_or_default(stem) + ".csv"@,
{
    let stem = match stem {
        Some(s) => s,
        None => String::from_str("contract"),
    };
    let directory = match parent {
        Some(p) => p,
        None => String::new(),
    };
    OutputNames {
        directory,
        result: file_name_for(stem.as_str(), ".result"),
        log: file_name_for(stem.as_str(), ".log"),
        automaton: file_name_for(stem.as_str(), ".dot"),
        min_automaton: file_name_for(stem.as_str(), "_min.dot"),
        decompositions: file_name_for(stem.as_str(), ".csv"),
    }
}

/// Reads a command line: the contract file, then the options. Without a contract file
/// the usage is asked for. The files of results, logs and exports get the names of
/// [`output_names`], joined to its directory as paths are joined on the platform.
pub fn parse_command_line(args: &Vec<String>) -> (r: CommandLine)
    ensures
        args@.len() == 0 || (args@[0]@.len() > 0 && args@[0]@[0] == '-') ==> (
        r matches CommandLine::Usage(c) && c.is_initial()),
        !(args@.len() == 0 || (args@[0]@.len() > 0 && args@[0]@[0] == '-')) ==> match read_arguments(
            initial_options(),
            texts(args@),
            1,
        ) {
            Reading::Options(o) => (r matches CommandLine::Run(c) && options_of(c) == o
                && c.contract_file_name@ == args@[0]@),
            Reading::Help => r is Help,
            Reading::Unknown(text) => (r matches CommandLine::UnknownOption(s) && s@ == text),
        },
{
    let mut config = RunConfiguration::new();
    if args.len() == 0 {
        return CommandLine::Usage(config);
    }
    let first = chars_of(args[0].as_str());
    if first.len() > 0 && first[0] == '-' {
        return CommandLine::Usage(config);
    }
    let path = args[0].as_str();
    config.set_contract_file_name(args[0].clone());
    let names = output_names(file_stem(path), parent_dir(path));
    let directory = names.directory.as_str();
    config.set_result_file_name(join_path(directory, names.result.as_str()));
    config.set_global_log_filename(join_path(directory, names.log.as_str()));
    config.set_automaton_file_name(join_path(directory, names.automaton.as_str()));
    config.set_min_automaton_file_name(join_path(directory, names.min_automaton.as_str()));
    config.set_decompositions_file_name(join_path(directory, names.decompositions.as_str()));
    parse_options(config, args)
}

/// The text that explains the command line.
pub open spec fn spec_usage() -> Seq<char> {
    "recall - RelativizEd ContrAct Language anaLyser (v1.0)\n\nUSAGE:\n    recall <CONTRACT_FILE> [OPTIONS]\n\nOPTIONS:\n    -h, --help          Print this message and exit\n    -v, --verbose       Turn on the verbose mode\n    -g                  Exports the automaton into a graphviz file\n                        Default filename is <CONTRACT_FILE>.dot\n    -n, --no-prunning   Don't use the prunning method\n    -c, --continue      Continues the analysis if a conflict is found\n    -m                  Export minimized automaton\n    -t                  Test mode (outputs CSV metrics)\n\nEXAMPLES:\n    recall contract.rcl\n        Analyzes a contract in the file 'contract.rcl'\n    recall contract.rcl -g\n        Analyzes the contract and writes automaton in a file\n\nPlease report issues to: edson.luiz.pilati@uel.br / bonifacio@uel.br\nMore information: https://recall-site.github.io/\n"@
}

/// The text that explains the command line.
pub fn print_usage() -> (s: String)
    ensures
        s@ == spec_usage(),
{
    String::from_str(
        "recall - RelativizEd ContrAct Language anaLyser (v1.0)\n\nUSAGE:\n    recall <CONTRACT_FILE> [OPTIONS]\n\nOPTIONS:\n    -h, --help          Print this message and exit\n    -v, --verbose       Turn on the verbose mode\n    -g                  Exports the automaton into a graphviz file\n                        Default filename is <CONTRACT_FILE>.dot\n    -n, --no-prunning   Don't use the prunning method\n    -c, --continue      Continues the analysis if a conflict is found\n    -m                  Export minimized automaton\n    -t                  Test mode (outputs CSV metrics)\n\nEXAMPLES:\n    recall contract.rcl\n        Analyzes a contract in the file 'contract.rcl'\n    recall contract.rcl -g\n        Analyzes the contract and writes automaton in a file\n\nPlease report issues to: edson.luiz.pilati@uel.br / bonifacio@uel.br\nMore information: https://recall-site.github.io/\n",
    )
}

} // verus!
