use vstd::prelude::*;
use crate::types::Error;

verus! {

/// `j` is where the first line break of a continuation request stands: the
/// first `\n` after the `+ ` prefix, right after a `\r`.
pub open spec fn payload_end(line: Seq<char>, j: int) -> bool {
    &&& 3 <= j < line.len()
    &&& line[j] == '\n'
    &&& line[j - 1] == '\r'
    &&& forall|p: int| 2 <= p < j ==> line[p] != '\n'
}

/// `line` opens with a continuation request: `+ `, a payload without a line
/// break, then `\r\n`. What follows is not looked at.
pub open spec fn is_continuation(line: Seq<char>) -> bool {
    &&& line.len() >= 2
    &&& line[0] == '+'
    &&& line[1] == ' '
    &&& exists|j: int| payload_end(line, j)
}

/// The payload of a continuation request: what stands between `+ ` and the
/// first `\r\n`.
pub open spec fn continuation_payload(line: Seq<char>) -> Seq<char> {
    line.subrange(2, (choose|j: int| payload_end(line, j)) - 1)
}

/// Relies on regex::Regex::new and Regex::captures with the pattern
/// `^\+ (.*)\r\n`: it matches exactly the lines that open with a continuation
/// request (`.` stops at `\n`, so `.*` ends before the first line break), and
/// group 1 is the payload.
#[verifier::external_body]
fn capture_payload<'a>(pattern: &str, line: &'a str) -> (r: Option<&'a str>)
    requires
        pattern@ == "^\\+ (.*)\r\n"@,
    ensures
        r is Some <==> is_continuation(line@),
        r is Some ==> r->Some_0@ == continuation_payload(line@),
{
    let re = regex::Regex::new(pattern).unwrap();
    re.captures(line).map(|c| c.get(1).map_or("", |m| m.as_str()))
}

/// The payload of a continuation request line (`+ <payload>\r\n`); any other
/// line is an authentication error that holds the line.
pub fn parse_authenticate_response<'a>(line: &'a str) -> (r: Result<&'a str, Error>)
    ensures
        is_continuation(line@) ==> r is Ok && r->Ok_0@ == continuation_payload(line@),
        !is_continuation(line@) ==> (r matches Err(Error::Authentication(s)) && s@ == line@),
{
    match capture_payload("^\\+ (.*)\r\n", line) {
        Some(data) => Ok(data),
        None => Err(Error::Authentication(line.to_owned())),
    }
}

} // verus!
