use vstd::prelude::*;
use vstd::string::StringExecFns;

verus! {

/// The text that `str::to_uppercase` makes of `s`.
pub uninterp spec fn upper_of(s: Seq<char>) -> Seq<char>;

/// Relies on str::to_uppercase: the result depends on the characters alone,
/// and empty text stays empty.
#[verifier::external_body]
fn uppercase(s: &str) -> (r: String)
    ensures
        r@ == upper_of(s@),
        s@.len() == 0 ==> r@.len() == 0,
{
    s.to_uppercase()
}

/// A log line with the level already in upper case:
/// `[timestamp] [LEVEL] message`.
pub fn format_log_line(timestamp: &str, upper_level: &str, message: &str) -> (r: String)
    ensures
        r@ == "["@ + timestamp@ + "] ["@ + upper_level@ + "] "@ + message@,
{
    let mut line = "[".to_owned();
    line.append(timestamp);
    line.append("] [");
    line.append(upper_level);
    line.append("] ");
    line.append(message);
    line
}

/// The log line for `message` at level `level`, written at `timestamp`: the
/// level is shown in upper case.
pub fn log_line(timestamp: &str, level: &str, message: &str) -> (r: String)
    ensures
        r@ == "["@ + timestamp@ + "] ["@ + upper_of(level@) + "] "@ + message@,
{
    let upper = uppercase(level);
    format_log_line(timestamp, upper.as_str(), message)
}

} // verus!
