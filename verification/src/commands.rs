//! The captured result of one executed shell command, and the decoding of
//! raw captured bytes into text.

use vstd::prelude::*;
use vstd::utf8::decode_utf8;
use vstd::utf8::valid_utf8;

verus! {

/// The captured text and exit status of one executed command. The text is
/// stdout when the command succeeded and stderr otherwise; that choice is
/// the collaborator's, not this library's.
#[derive(Debug, Clone, PartialEq, Eq)]
pub struct CommandOutput {
    pub output: String,
    pub status: i32,
}

/// The mathematical value of a [`CommandOutput`]: its text as a character
/// sequence and its exit status as an integer.
pub ghost struct CommandOutputView {
    pub output: Seq<char>,
    pub status: int,
}

impl View for CommandOutput {
    type V = CommandOutputView;

    open spec fn view(&self) -> CommandOutputView {
        CommandOutputView { output: self.output@, status: self.status as int }
    }
}

/// Relies on `String::from_utf8`, which returns `Ok` exactly when the bytes
/// are a valid UTF-8 encoding and then returns the decoded text.
#[verifier::external_body]
fn string_from_utf8(bytes: Vec<u8>) -> (r: Option<String>)
    ensures
        r is Some <==> valid_utf8(bytes@),
        r is Some ==> r->0@ == decode_utf8(bytes@),
{
    match String::from_utf8(bytes) {
        Ok(s) => Some(s),
        _ => None,
    }
}

/// The captured bytes decoded as UTF-8 text, or `None` when they are not
/// valid UTF-8.
pub fn output_as_string(output: Vec<u8>) -> (r: Option<String>)
    ensures
        r is Some <==> valid_utf8(output@),
        r is Some ==> r->0@ == decode_utf8(output@),
{
    string_from_utf8(output)
}

} // verus!
