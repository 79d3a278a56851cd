//! What the B-tree backend decides once the embedded database has answered:
//! how stored bytes become a value, and what a removal reports.

use vstd::prelude::*;
use vstd::utf8::*;
use crate::error::KVSError;

verus! {

/// The name of the database inside the directory of the store.
pub const DATABASE_FILENAME: &'static str = "sled.db";

/// The text of `bytes`, made by `String::from_utf8`: the UTF-8 decoding of
/// the bytes where they are valid UTF-8, and the error of the standard
/// library where they are not.
#[verifier::external_body]
fn text_of(bytes: Vec<u8>) -> (r: Result<String, std::string::FromUtf8Error>)
    ensures
        r is Ok <==> valid_utf8(bytes@),
        r matches Ok(text) ==> text@ == decode_utf8(bytes@),
{
    String::from_utf8(bytes)
}

/// The value of a key, from the bytes the database holds for it: `None`
/// where it holds none, the text of the bytes where they are UTF-8, and an
/// error where they are not.
pub fn stored_value(found: Option<Vec<u8>>) -> (r: Result<Option<String>, KVSError>)
    ensures
        match found {
            None => r == Ok::<Option<String>, KVSError>(None),
            Some(bytes) => if valid_utf8(bytes@) {
                r matches Ok(Some(value)) && value@ == decode_utf8(bytes@)
            } else {
                r == Err::<Option<String>, KVSError>(KVSError::FromUtf8Error)
            },
        },
{
    match found {
        Some(bytes) => match text_of(bytes) {
            Ok(value) => Ok(Some(value)),
            Err(e) => Err(KVSError::from(e)),
        },
        None => Ok(None),
    }
}

/// What a removal reports, from what the database returned for it: success
/// where it held a value for the key, the error that the key was not found
/// where it held none, and a general error where the database failed.
pub fn removed(outcome: Result<bool, KVSError>) -> (r: Result<(), KVSError>)
    ensures
        r == match outcome {
            Ok(true) => Ok::<(), KVSError>(()),
            Ok(false) => Err::<(), KVSError>(KVSError::KeyNotFoundError),
            Err(_) => Err::<(), KVSError>(KVSError::GeneralKVSError),
        },
{
    match outcome {
        Ok(true) => Ok(()),
        Ok(false) => Err(KVSError::KeyNotFoundError),
        Err(_) => Err(KVSError::GeneralKVSError),
    }
}

} // verus!
