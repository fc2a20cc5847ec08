use crate::utils::config::{LogLevel, LogType};
use vstd::prelude::*;
use vstd::string::StringExecFns;

verus! {

/// `text` without its colour codes: what `Regex::replace_all` makes of it, for the
/// pattern of an escape character, `[`, digits and semicolons, and `m`, with the empty
/// replacement.
pub uninterp spec fn ansi_stripped(text: Seq<char>) -> Seq<char>;

/// `Regex::new` and `Regex::replace_all`: `text` with every match of the pattern
/// `\x1B\[[0-9;]*m` taken out. The result depends on `text` alone.
#[verifier::external_body]
pub fn strip_ansi_codes(text: &str) -> (r: String)
    ensures
        r@ == ansi_stripped(text@),
{
    let re = regex::Regex::new(r"\x1B\[[0-9;]*m").unwrap();
    re.replace_all(text, "").to_string()
}

/// Where a log record goes.
#[derive(Debug, Clone, Copy, PartialEq, Eq, Structural)]
pub struct LogRoute {
    /// To the log that all contracts share.
    pub global: bool,
    /// To the result file of the contract.
    pub local: bool,
    /// To the console.
    pub console: bool,
}

/// Where a record of the given type goes at the given level. The result file gets
/// every record. In a verbose run so do the shared log and the console; else they get
/// the minimal and the necessary records.
pub open spec fn spec_route(level: LogLevel, log_type: LogType) -> LogRoute {
    let wide = level == LogLevel::Verbose || log_type != LogType::Additional;
    LogRoute { global: wide, local: true, console: wide }
}

pub fn route(level: LogLevel, log_type: LogType) -> (r: LogRoute)
    ensures
        r == spec_route(level, log_type),
{
    match level {
        LogLevel::Normal => match log_type {
            LogType::Minimal | LogType::Necessary => LogRoute {
                global: true,
                local: true,
                console: true,
            },
            LogType::Additional => LogRoute { global: false, local: true, console: false },
        },
        LogLevel::Verbose => LogRoute { global: true, local: true, console: true },
    }
}

/// The line of a record in the shared log: the date, the contract in brackets, and
/// the text.
pub fn global_line(date: &str, contract_name: &str, text: &str) -> (r: String)
    ensures
        r@ == date@ + " ["@ + contract_name@ + "]: "@ + text@,
{
    let mut line = String::from_str(date);
    line.append(" [");
    line.append(contract_name);
    line.append("]: ");
    line.append(text);
    line
}

/// The line of a record in the result file: the date and the text.
pub fn local_line(date: &str, text: &str) -> (r: String)
    ensures
        r@ == date@ + ": "@ + text@,
{
    let mut line = String::from_str(date);
    line.append(": ");
    line.append(text);
    line
}

/// The line of a record in the shared log, its text without colour codes.
pub fn format_global(date: &str, contract_name: &str, text: &str) -> (r: String)
    ensures
        r@ == date@ + " ["@ + contract_name@ + "]: "@ + ansi_stripped(text@),
{
    let plain = strip_ansi_codes(text);
    global_line(date, contract_name, plain.as_str())
}

/// The line of a record in the result file, its text without colour codes.
pub fn format_local(date: &str, text: &str) -> (r: String)
    ensures
        r@ == date@ + ": "@ + ansi_stripped(text@),
{
    let plain = strip_ansi_codes(text);
    local_line(date, plain.as_str())
}

} // verus!
