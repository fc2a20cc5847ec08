use crate::utils::text::{decimal, push_decimal};
use vstd::prelude::*;
use vstd::string::StringExecFns;

verus! {

/// The memory that counts against the limit: the resident memory, or the physical
/// footprint where that is known and larger.
pub fn total_memory(rss_mb: u64, footprint_mb: u64) -> (total: u64)
    ensures
        total == (if footprint_mb > rss_mb {
            footprint_mb
        } else {
            rss_mb
        }),
{
    if footprint_mb > 0 {
        if footprint_mb > rss_mb {
            footprint_mb
        } else {
            rss_mb
        }
    } else {
        rss_mb
    }
}

/// Whether the process is to be ended: it uses more than it may.
pub fn limit_exceeded(total_mb: u64, max_usage_mb: u64) -> (b: bool)
    ensures
        b == (total_mb > max_usage_mb),
{
    total_mb > max_usage_mb
}

/// The hundredths of the memory that the process may use: 95 of 32 GB or more, 90 of
/// 16 GB or more, 85 of less.
pub open spec fn spec_share_percent(available_mb: u64) -> u64 {
    if available_mb >= 32768 {
        95
    } else if available_mb >= 16384 {
        90
    } else {
        85
    }
}

pub fn share_percent(available_mb: u64) -> (p: u64)
    ensures
        p == spec_share_percent(available_mb),
{
    if available_mb >= 32768 {
        95
    } else if available_mb >= 16384 {
        90
    } else {
        85
    }
}

/// The limit of the process, given its share of the memory: of more than 4096 MB, at
/// least 2048 MB are left to the system; of less, the process may use 1024 MB at
/// least.
pub open spec fn spec_bounded_limit(available_mb: u64, share_mb: u64) -> u64 {
    if available_mb > 4096 {
        if share_mb < available_mb - 2048 {
            share_mb
        } else {
            (available_mb - 2048) as u64
        }
    } else if share_mb > 1024 {
        share_mb
    } else {
        1024
    }
}

pub fn bounded_limit(available_mb: u64, share_mb: u64) -> (limit: u64)
    ensures
        limit == spec_bounded_limit(available_mb, share_mb),
{
    if available_mb > 4096 {
        let ceiling: u64 = available_mb - 2048;
        if share_mb < ceiling {
            share_mb
        } else {
            ceiling
        }
    } else if share_mb > 1024 {
        share_mb
    } else {
        1024
    }
}

/// What is logged when the limit is exceeded.
pub open spec fn spec_exceeded_message(rss_mb: u64, total_mb: u64, max_usage_mb: u64, elapsed_ms: u64) -> Seq<
    char,
> {
    "CRITICAL: Memory usage exceeded! RAM: "@ + decimal(rss_mb as nat) + "MB, Total Memory: "@
        + decimal(total_mb as nat) + "MB (Limit: "@ + decimal(max_usage_mb as nat)
        + "MB) - Execution Time: "@ + decimal(elapsed_ms as nat) + "ms"@
}

pub fn exceeded_message(rss_mb: u64, total_mb: u64, max_usage_mb: u64, elapsed_ms: u64) -> (s: String)
    ensures
        s@ == spec_exceeded_message(rss_mb, total_mb, max_usage_mb, elapsed_ms),
{
    let mut out = String::from_str("CRITICAL: Memory usage exceeded! RAM: ");
    push_decimal(&mut out, rss_mb);
    out.append("MB, Total Memory: ");
    push_decimal(&mut out, total_mb);
    out.append("MB (Limit: ");
    push_decimal(&mut out, max_usage_mb);
    out.append("MB) - Execution Time: ");
    push_decimal(&mut out, elapsed_ms);
    out.append("ms");
    out
}

/// The time and the peaks of memory, between two rules.
pub open spec fn spec_peak_summary(elapsed_ms: u64, rss_peak: u64, total_peak: u64) -> Seq<char> {
    "\n-------------------------------------------------------\nCompleted in "@ + decimal(
        elapsed_ms as nat,
    ) + "ms\nMax RAM: "@ + decimal(rss_peak as nat) + "MB\nMax Total Memory: "@ + decimal(
        total_peak as nat,
    ) + "MB\n-------------------------------------------------------\n"@
}

pub fn peak_summary(elapsed_ms: u64, rss_peak: u64, total_peak: u64) -> (s: String)
    ensures
        s@ == spec_peak_summary(elapsed_ms, rss_peak, total_peak),
{
    let mut out = String::from_str(
        "\n-------------------------------------------------------\nCompleted in ",
    );
    push_decimal(&mut out, elapsed_ms);
    out.append("ms\nMax RAM: ");
    push_decimal(&mut out, rss_peak);
    out.append("MB\nMax Total Memory: ");
    push_decimal(&mut out, total_peak);
    out.append("MB\n-------------------------------------------------------\n");
    out
}

} // verus!
