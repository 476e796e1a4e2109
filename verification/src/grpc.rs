//! gRPC statuses and metadata, as far as the transcoder reads them.

use vstd::prelude::*;
use vstd::utf8::encode_utf8;

verus! {

/// The number of the status code of a caller without permission.
pub const PERMISSION_DENIED: i32 = 7;

/// How a call ended that did not succeed.
#[derive(Debug, PartialEq, Eq)]
pub struct Status {
    /// The number of the gRPC status code.
    pub code: i32,
    pub message: String,
}

/// What a status code means, in words. A number that is no status code counts
/// as an unknown error.
pub open spec fn code_description(code: i32) -> Seq<char> {
    match code {
        0 => "The operation completed successfully"@,
        1 => "The operation was cancelled"@,
        3 => "Client specified an invalid argument"@,
        4 => "Deadline expired before operation could complete"@,
        5 => "Some requested entity was not found"@,
        6 => "Some entity that we attempted to create already exists"@,
        7 => "The caller does not have permission to execute the specified operation"@,
        8 => "Some resource has been exhausted"@,
        9 => "The system is not in a state required for the operation's execution"@,
        10 => "The operation was aborted"@,
        11 => "Operation was attempted past the valid range"@,
        12 => "Operation is not implemented or not supported"@,
        13 => "Internal error"@,
        14 => "The service is currently unavailable"@,
        15 => "Unrecoverable data loss or corruption"@,
        16 => "The request does not have valid authentication credentials"@,
        _ => "Unknown error"@,
    }
}

/// The byte `b` may stand in a metadata value: it is no control character, but
/// may be a tab.
pub open spec fn metadata_byte(b: u8) -> bool {
    b == 9 || (b >= 32 && b != 127)
}

/// The text `s` can be sent as a metadata value.
pub open spec fn metadata_text(s: Seq<char>) -> bool {
    forall|i: int| 0 <= i < encode_utf8(s).len() ==> metadata_byte(#[trigger] encode_utf8(s)[i])
}

/// The line that reports a failed call.
pub open spec fn failure_text(call: Seq<char>, code: i32, message: Seq<char>) -> Seq<char> {
    call + " 错误 ["@ + code_description(code) + "]: "@ + message
}

/// Calls `tonic::Code::from_i32` and `tonic::Code::description`: the words that
/// tonic has for each of the seventeen status codes, with those of the unknown
/// error for any other number.
#[verifier::external_body]
fn describe_code(code: i32) -> (words: String)
    ensures
        words@ == code_description(code),
{
    tonic::Code::from_i32(code).description().to_string()
}

/// Parses `s` into a `tonic::metadata::MetadataValue<Ascii>` by its `FromStr`,
/// which makes an `http::HeaderValue` of it: that succeeds where, and only
/// where, every byte is at least 32 and not 127, or a tab.
#[verifier::external_body]
fn parses_as_metadata(s: &str) -> (ok: bool)
    ensures
        ok == metadata_text(s@),
{
    s.parse::<tonic::metadata::MetadataValue<tonic::metadata::Ascii>>().is_ok()
}

/// Whether `s` can be sent as a metadata value.
pub fn is_metadata_text(s: &str) -> (ok: bool)
    ensures
        ok == metadata_text(s@),
{
    parses_as_metadata(s)
}

/// The line that reports that `call` failed with `status`.
pub fn failure_line(call: &str, status: &Status) -> (line: String)
    ensures
        line@ == failure_text(call@, status.code, status.message@),
{
    let mut line = call.to_owned();
    line.append(" 错误 [");
    line.append(describe_code(status.code).as_str());
    line.append("]: ");
    line.append(status.message.as_str());
    line
}

/// The line that reports a failure names the call, says what the code means, and
/// ends with the whole message, whatever the code.
pub proof fn law_failure_is_told_whole(call: &str, status: &Status, line: String)
    requires
        call_ensures(failure_line, (call, status), line),
    ensures
        line@ == call@ + (" 错误 ["@ + code_description(status.code) + "]: "@) + status.message@,
{
    assert(line@ == call@ + (" 错误 ["@ + code_description(status.code) + "]: "@)
        + status.message@);
}

/// A text can be sent as metadata where each of its bytes is a tab, or at least
/// a space and not a delete.
pub proof fn law_metadata_has_no_control_characters(s: &str, ok: bool)
    requires
        call_ensures(is_metadata_text, (s, ), ok),
    ensures
        ok <==> forall|i: int|
            0 <= i < encode_utf8(s@).len() ==> {
                let b = #[trigger] encode_utf8(s@)[i];
                b == 9 || 32 <= b < 127 || b > 127
            },
{
    let bytes = encode_utf8(s@);
    assert forall|i: int| 0 <= i < bytes.len() implies (metadata_byte(#[trigger] bytes[i]) <==> {
        bytes[i] == 9 || 32 <= bytes[i] < 127 || bytes[i] > 127
    }) by {}
}

} // verus!
