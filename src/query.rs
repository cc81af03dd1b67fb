use vstd::prelude::*;
use vstd::string::StringExecFns;
use vstd::utf8::{decode_utf8, valid_utf8};

verus! {

/// The decimal digits of `n`, most significant first, without sign or
/// leading zeros.
pub open spec fn decimal(n: nat) -> Seq<char>
    decreases n,
{
    if n < 10 {
        seq![digit_char(n)]
    } else {
        decimal(n / 10).push(digit_char(n % 10))
    }
}

/// The character of the decimal digit `d`.
pub open spec fn digit_char(d: nat) -> char {
    if d < 10 {
        ((d + 48) as u8) as char
    } else {
        '?'
    }
}

/// An optional text flag: the flag and its value when the value is given and
/// not empty, else nothing.
pub open spec fn text_flag(flag: Seq<char>, value: Option<String>) -> Seq<Seq<char>> {
    match value {
        Some(v) => if v@.len() > 0 {
            seq![flag, v@]
        } else {
            Seq::empty()
        },
        None => Seq::empty(),
    }
}

/// An optional number flag: the flag and the number in decimal when given.
pub open spec fn number_flag(flag: Seq<char>, value: Option<u32>) -> Seq<Seq<char>> {
    match value {
        Some(n) => seq![flag, decimal(n as nat)],
        None => Seq::empty(),
    }
}

/// The argument list of a save-data query, after the interpreter: the script,
/// the command, `--save` with the save name, then `--filter`, `--limit`,
/// `--offset` and `--cache-key`, each only when its value is given (and, for
/// the text values, not empty).
pub open spec fn query_arg_list(
    script_path: Seq<char>,
    command: Seq<char>,
    save: Seq<char>,
    filter: Option<String>,
    limit: Option<u32>,
    offset: Option<u32>,
    cache_key: Option<String>,
) -> Seq<Seq<char>> {
    seq![script_path, command, "--save"@, save] + text_flag("--filter"@, filter) + number_flag(
        "--limit"@,
        limit,
    ) + number_flag("--offset"@, offset) + text_flag("--cache-key"@, cache_key)
}

/// Relies on `ToString` for `u32`, through its `Display`: the decimal digits
/// of the number.
#[verifier::external_body]
fn decimal_text(n: u32) -> (r: String)
    ensures
        r@ == decimal(n as nat),
{
    n.to_string()
}

fn push_text_flag(args: &mut Vec<String>, flag: &str, value: Option<String>)
    ensures
        final(args)@.map_values(|s: String| s@) == old(args)@.map_values(|s: String| s@)
            + text_flag(flag@, value),
{
    let ghost before = args@.map_values(|s: String| s@);
    if let Some(v) = value {
        if !v.as_str().is_empty() {
            args.push(flag.to_owned());
            args.push(v);
            assert(args@.map_values(|s: String| s@) =~= before + text_flag(flag@, value));
            return;
        }
    }
    assert(args@.map_values(|s: String| s@) =~= before + text_flag(flag@, value));
}

fn push_number_flag(args: &mut Vec<String>, flag: &str, value: Option<u32>)
    ensures
        final(args)@.map_values(|s: String| s@) == old(args)@.map_values(|s: String| s@)
            + number_flag(flag@, value),
{
    let ghost before = args@.map_values(|s: String| s@);
    if let Some(n) = value {
        args.push(flag.to_owned());
        args.push(decimal_text(n));
    }
    assert(args@.map_values(|s: String| s@) =~= before + number_flag(flag@, value));
}

/// The arguments with which the interpreter runs a one-shot save-data query.
pub fn query_args(
    script_path: String,
    command: String,
    save: String,
    filter: Option<String>,
    limit: Option<u32>,
    offset: Option<u32>,
    cache_key: Option<String>,
) -> (r: Vec<String>)
    ensures
        r@.map_values(|s: String| s@) == query_arg_list(
            script_path@,
            command@,
            save@,
            filter,
            limit,
            offset,
            cache_key,
        ),
{
    let ghost (sp, cm, sv) = (script_path@, command@, save@);
    let mut args: Vec<String> = Vec::new();
    args.push(script_path);
    args.push(command);
    args.push("--save".to_owned());
    args.push(save);
    assert(args@.map_values(|s: String| s@) =~= seq![sp, cm, "--save"@, sv]);
    push_text_flag(&mut args, "--filter", filter);
    push_number_flag(&mut args, "--limit", limit);
    push_number_flag(&mut args, "--offset", offset);
    push_text_flag(&mut args, "--cache-key", cache_key);
    args
}

#[verifier::external_type_specification]
#[verifier::external_body]
pub struct ExJsonValue(serde_json::Value);

/// The text that `String::from_utf8_lossy` makes of `bytes`.
pub uninterp spec fn lossy_text_of(bytes: Seq<u8>) -> Seq<char>;

/// The text that `str::trim` leaves of `s`.
pub uninterp spec fn trim_of(s: Seq<char>) -> Seq<char>;

/// Why `serde_json::from_str` rejects `s` as a JSON value, as its error
/// displays it; `None` where it accepts `s`.
pub uninterp spec fn json_error_of(s: Seq<char>) -> Option<Seq<char>>;

/// Relies on String::from_utf8_lossy: it depends on the bytes alone, and
/// valid UTF-8 is decoded unchanged.
#[verifier::external_body]
fn lossy_text(bytes: &[u8]) -> (r: String)
    ensures
        r@ == lossy_text_of(bytes@),
        valid_utf8(bytes@) ==> r@ == decode_utf8(bytes@),
{
    String::from_utf8_lossy(bytes).into_owned()
}

/// Relies on str::trim: it depends on the text alone, and empty text stays
/// empty.
#[verifier::external_body]
fn trim_text(s: &str) -> (r: &str)
    ensures
        r@ == trim_of(s@),
        s@.len() == 0 ==> r@.len() == 0,
{
    s.trim()
}

/// Relies on serde_json::from_str into a `serde_json::Value`: whether it
/// accepts the text, and the message of its error, depend on the text alone.
#[verifier::external_body]
fn parse_json(s: &str) -> (r: Result<serde_json::Value, String>)
    ensures
        r is Ok <==> json_error_of(s@) is None,
        r matches Err(m) ==> json_error_of(s@) == Some(m@),
{
    serde_json::from_str::<serde_json::Value>(s).map_err(|e| e.to_string())
}

/// The error of a query whose output, read as text, is `out` and whose error
/// output is `err`; `None` where the output parses as JSON.
pub open spec fn query_error(out: Seq<char>, err: Seq<char>) -> Option<Seq<char>> {
    if trim_of(out).len() == 0 {
        Some("Command returned empty output. Stderr: "@ + err)
    } else {
        match json_error_of(out) {
            Some(reason) => Some("Failed to parse JSON: "@ + reason + ". Output was: "@ + out),
            None => None,
        }
    }
}

/// The error for a query whose trimmed output is `trimmed` and whose error
/// output is `err`: blank output is an error that quotes the error output.
pub fn blank_output_error(trimmed: &str, err: &str) -> (r: Option<String>)
    ensures
        trimmed@.len() == 0 ==> (r matches Some(m) && m@ == "Command returned empty output. Stderr: "@
            + err@),
        trimmed@.len() > 0 ==> r is None,
{
    if trimmed.is_empty() {
        let mut msg = "Command returned empty output. Stderr: ".to_owned();
        msg.append(err);
        Some(msg)
    } else {
        None
    }
}

/// The error for a query whose output `out` did not parse as JSON, for the
/// reason `reason`.
pub fn parse_failure_message(reason: &str, out: &str) -> (r: String)
    ensures
        r@ == "Failed to parse JSON: "@ + reason@ + ". Output was: "@ + out@,
{
    let mut msg = "Failed to parse JSON: ".to_owned();
    msg.append(reason);
    msg.append(". Output was: ");
    msg.append(out);
    msg
}

/// Reads the captured output of a one-shot query: the standard output, as
/// text, must hold a JSON value. Blank output is an error that quotes the
/// error output; unparsable output is an error that gives the reason and
/// quotes the output.
pub fn query_result(stdout: &[u8], stderr: &[u8]) -> (r: Result<serde_json::Value, String>)
    ensures
        r is Ok <==> query_error(lossy_text_of(stdout@), lossy_text_of(stderr@)) is None,
        r matches Err(m) ==> query_error(lossy_text_of(stdout@), lossy_text_of(stderr@)) == Some(
            m@,
        ),
{
    let out = lossy_text(stdout);
    let err = lossy_text(stderr);
    if let Some(msg) = blank_output_error(trim_text(out.as_str()), err.as_str()) {
        return Err(msg);
    }
    match parse_json(out.as_str()) {
        Ok(v) => Ok(v),
        Err(reason) => Err(parse_failure_message(reason.as_str(), out.as_str())),
    }
}

} // verus!
