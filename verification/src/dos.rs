//! Documents as DOS wrote them: bytes in Windows-1252, lines that end in a
//! carriage return and a line feed.

use vstd::prelude::*;
use vstd::string::StringExecFns;
use crate::text::{replace_all, replaced};

verus! {

/// What the `encoding` crate's `decode` makes of `bytes` with the strict trap
/// and Windows-1252 as the fallback encoding: the text, or what the decoder
/// says against the bytes; and the name of the encoding that it used, which
/// is another than the fallback where the bytes start with a byte order mark.
pub uninterp spec fn decoded(bytes: Seq<u8>) -> (Result<Seq<char>, Seq<char>>, Seq<char>);

/// The text or the complaint as sequences of characters.
pub open spec fn outcome_view(outcome: Result<String, String>) -> Result<Seq<char>, Seq<char>> {
    match outcome {
        Ok(text) => Ok(text@),
        Err(complaint) => Err(complaint@),
    }
}

/// Calls `encoding::decode(bytes, DecoderTrap::Strict, WINDOWS_1252)`. The
/// contract names what comes back and states nothing else of it: the call
/// reads its arguments only, so the same bytes give the same outcome.
#[verifier::external_body]
fn decode(bytes: &[u8]) -> (r: (Result<String, String>, String))
    ensures
        outcome_view(r.0) == decoded(bytes@).0,
        r.1@ == decoded(bytes@).1,
{
    let (outcome, used) = encoding::decode(
        bytes,
        encoding::DecoderTrap::Strict,
        encoding::all::WINDOWS_1252,
    );
    match outcome {
        Ok(text) => (Ok(text), used.name().to_string()),
        Err(complaint) => (Err(complaint.into_owned()), used.name().to_string()),
    }
}

/// The message for bytes that the decoder refused.
pub open spec fn refusal(encoding: Seq<char>, complaint: Seq<char>) -> Seq<char> {
    encoding + " decoding error: "@ + complaint
}

/// Makes the result of reading a document of a decoder's outcome: the text,
/// or a message that names the encoding and holds the decoder's complaint.
pub fn decoding_result(outcome: Result<String, String>, encoding: &str) -> (r: Result<String, String>)
    ensures
        match outcome {
            Ok(text) => r matches Ok(t) && t@ == text@,
            Err(complaint) => r matches Err(m) && m@ == refusal(encoding@, complaint@),
        },
{
    match outcome {
        Ok(text) => Ok(text),
        Err(complaint) => {
            let mut message = String::new();
            message.append(encoding);
            message.append(" decoding error: ");
            message.append(complaint.as_str());
            assert(message@ =~= refusal(encoding@, complaint@));
            Err(message)
        },
    }
}

/// Decodes the bytes of a DOS document: the text, or a message that names the
/// encoding and holds the decoder's complaint.
pub fn decode_dos(bytes: &[u8]) -> (r: Result<String, String>)
    ensures
        match decoded(bytes@).0 {
            Ok(text) => r matches Ok(t) && t@ == text,
            Err(complaint) => r matches Err(m) && m@ == refusal(decoded(bytes@).1, complaint),
        },
{
    let (outcome, used) = decode(bytes);
    decoding_result(outcome, used.as_str())
}

/// `contents` with every carriage return and line feed replaced by a line
/// feed alone.
pub fn unix_lines(contents: &str) -> (r: String)
    ensures
        r@ == replaced(contents@, "\r\n"@, "\n"@),
{
    replace_all(contents, "\r\n", "\n")
}

} // verus!
