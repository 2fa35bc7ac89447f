//! Log-line construction: the leveled text lines the program appends to
//! its log file. Building the line is exact text work; the timestamp and
//! the file append belong to the caller.

use vstd::prelude::*;

verus! {

/// The text of one log line: `[timestamp] LEVEL - category: message`.
pub open spec fn log_line(
    level: Seq<char>,
    timestamp: Seq<char>,
    category: Seq<char>,
    message: Seq<char>,
) -> Seq<char> {
    seq!['['] + timestamp + seq![']', ' '] + level + seq![' ', '-', ' '] + category + seq![
        ':',
        ' ',
    ] + message
}

fn log_message(level: &str, timestamp: &str, category: &str, message: &str) -> (r: String)
    ensures
        r@ == log_line(level@, timestamp@, category@, message@),
{
    proof {
        reveal_strlit("[");
        reveal_strlit("] ");
        reveal_strlit(" - ");
        reveal_strlit(": ");
    }
    let mut r = String::new();
    r.append("[");
    r.append(timestamp);
    r.append("] ");
    r.append(level);
    r.append(" - ");
    r.append(category);
    r.append(": ");
    r.append(message);
    proof {
        assert(r@ =~= log_line(level@, timestamp@, category@, message@));
    }
    r
}

/// Builds an error log line for the given timestamp text.
pub fn log_error(category: &str, message: &str, timestamp: &str) -> (r: String)
    ensures
        r@ == log_line("ERROR"@, timestamp@, category@, message@),
{
    log_message("ERROR", timestamp, category, message)
}

/// Builds an informational log line for the given timestamp text.
pub fn log_info(category: &str, message: &str, timestamp: &str) -> (r: String)
    ensures
        r@ == log_line("INFO"@, timestamp@, category@, message@),
{
    log_message("INFO", timestamp, category, message)
}

} // verus!
