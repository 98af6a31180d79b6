use crate::vocabulary::table_words;
use std::collections::HashMap;
use vstd::prelude::*;

verus! {

/// The error type of `rmp_serde`'s decoder, `rmp_serde::decode::Error`. It
/// is carried through as it is; nothing is known of what it holds.
#[verifier::external_type_specification]
#[verifier::external_body]
pub struct ExDecodeError(rmp_serde::decode::Error);

/// The token table that a MessagePack blob decodes to in the sense of
/// `rmp_serde::from_slice`, and `None` where `from_slice` reports an error.
pub uninterp spec fn decoded_token_table(data: Seq<u8>) -> Option<Map<i32, Seq<char>>>;

/// Calls `rmp_serde::from_slice` for a map from `i32` to `String`. What the
/// bytes decode to is a function of the bytes alone; the contract gives it
/// its name and says nothing else of it.
#[verifier::external_body]
pub(crate) fn decode_token_table(data: &[u8]) -> (r: Result<
    HashMap<i32, String>,
    rmp_serde::decode::Error,
>)
    ensures
        match r {
            Ok(table) => decoded_token_table(data@) == Some(table_words(table@)),
            Err(_) => decoded_token_table(data@) is None,
        },
{
    rmp_serde::from_slice(data)
}

/// Calls `to_string` on a decoding error of `rmp_serde`, which gives the
/// error's description.
#[verifier::external_body]
pub(crate) fn decode_error_message(error: &rmp_serde::decode::Error) -> (message: String) {
    error.to_string()
}

} // verus!
