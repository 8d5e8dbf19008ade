//! What `zfs list -t snapshot` prints arrives as bytes; here they become the
//! text that the parser reads.

use vstd::prelude::*;
use vstd::utf8::{encode_utf8, valid_utf8};

verus! {

/// The error of the operating system when a process cannot be run.
#[verifier::external_type_specification]
#[verifier::external_body]
pub struct ExIoError(std::io::Error);

/// The error of `String::from_utf8`.
#[verifier::external_type_specification]
#[verifier::external_body]
pub struct ExFromUtf8Error(std::string::FromUtf8Error);

/// Why no listing could be had.
#[derive(Debug)]
pub enum ZfsError {
    /// `zfs` could not be run.
    FailedToExecuteProcess(std::io::Error),
    /// What `zfs` printed is not UTF-8.
    InvalidOutput(std::string::FromUtf8Error),
}

/// `String::from_utf8`: the bytes become a string exactly when they are
/// valid UTF-8, and the string is then the text that they encode.
#[verifier::external_body]
fn string_from_utf8(bytes: Vec<u8>) -> (r: Result<String, std::string::FromUtf8Error>)
    ensures
        r is Ok <==> valid_utf8(bytes@),
        r matches Ok(text) ==> encode_utf8(text@) == bytes@,
{
    String::from_utf8(bytes)
}

/// The text of a listing that was captured as bytes.
pub fn decode_listing(output: Vec<u8>) -> (r: Result<String, ZfsError>)
    ensures
        r is Ok <==> valid_utf8(output@),
        r matches Ok(text) ==> encode_utf8(text@) == output@,
        r matches Err(e) ==> e is InvalidOutput,
{
    match string_from_utf8(output) {
        Ok(text) => Ok(text),
        Err(e) => Err(ZfsError::InvalidOutput(e)),
    }
}

} // verus!
