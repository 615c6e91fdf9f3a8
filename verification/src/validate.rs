//! What the server's reply means for a candidate.
//!
//! A candidate is asked for as it stands. The server answers with a JSON
//! body; the candidate is valid where the body's `retcode` is the integer
//! zero. Anything else, a body that is no JSON or no reply at all, means
//! that the candidate is passed over.

use vstd::prelude::*;
use vstd::utf8::{decode_utf8, encode_utf8, valid_utf8};
use crate::web_url::{
    filter_url, filtered_text, is_filterable, keep_allowed, url_query_pairs, Url,
};

verus! {

/// What `serde_json` reads under `key` in the JSON text `body`, where that
/// is an integer that an `i64` can hold; `None` where `body` is no JSON, no
/// object, has no such key, or holds something else under it.
pub uninterp spec fn json_integer_field(body: Seq<char>, key: Seq<char>) -> Option<i64>;

/// Calls `serde_json::from_str` for a `serde_json::Value`, indexes it by
/// `key` and calls `Value::as_i64`. Trusted: that the result is a function
/// of the two texts.
#[verifier::external_body]
fn integer_field(body: &str, key: &str) -> (value: Option<i64>)
    ensures
        value == json_integer_field(body@, key@),
{
    let json: ::serde_json::Value = ::serde_json::from_str(body).ok()?;
    json[key].as_i64()
}

/// Calls `std::str::from_utf8`. Trusted: that it gives a text exactly for
/// bytes that are UTF-8, and that the text's bytes are then the given ones.
#[verifier::external_body]
fn utf8_text(bytes: &[u8]) -> (text: Option<&str>)
    ensures
        text is Some <==> valid_utf8(bytes@),
        text matches Some(t) ==> encode_utf8(t@) == bytes@,
{
    std::str::from_utf8(bytes).ok()
}

/// The `retcode` of a reply's body; `None` where the body is no UTF-8 text
/// or gives no integer under that key.
pub open spec fn reply_retcode(body: Seq<u8>) -> Option<i64> {
    if valid_utf8(body) {
        json_integer_field(decode_utf8(body), "retcode"@)
    } else {
        None
    }
}

/// The reply says that the candidate is valid.
pub open spec fn accepts(reply: Option<&[u8]>) -> bool {
    reply matches Some(body) && is_success_code(reply_retcode(body@))
}

/// The code with which the server says that a request was in order.
pub open spec fn is_success_code(retcode: Option<i64>) -> bool {
    retcode == Some(0i64)
}

/// Whether `retcode` is the code with which the server says that a request
/// was in order.
pub fn is_success(retcode: Option<i64>) -> (success: bool)
    ensures
        success == is_success_code(retcode),
{
    match retcode {
        Some(code) => code == 0,
        None => false,
    }
}

/// The `retcode` of a reply's body.
pub fn retcode(body: &[u8]) -> (code: Option<i64>)
    ensures
        code == reply_retcode(body@),
{
    match utf8_text(body) {
        Some(text) => {
            proof {
                vstd::utf8::encode_utf8_decode_utf8(text@);
            }
            integer_field(text, "retcode")
        },
        None => None,
    }
}

/// The verdict on a candidate, given the server's reply to it: the
/// candidate with only the kept keys in its query where the reply says that
/// it is valid, and `None` where it says anything else or where there was
/// no reply.
pub fn check_url(url: Url, reply: Option<&[u8]>) -> (valid: Option<Url>)
    ensures
        match valid {
            Some(v) => {
                &&& accepts(reply)
                &&& v@ == filtered_text(url@)
                &&& is_filterable(v@)
                &&& url_query_pairs(v@) == keep_allowed(url_query_pairs(url@))
                &&& filtered_text(v@) == v@
            },
            None => !accepts(reply),
        },
{
    match reply {
        Some(body) => {
            if is_success(retcode(body)) {
                Some(filter_url(url))
            } else {
                None
            }
        },
        None => None,
    }
}

} // verus!
