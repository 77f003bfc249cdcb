//! The refresh token kept in an Antigravity IDE state database: the value
//! of `antigravityUnifiedStateSync.oauthToken` is base64 of a protobuf
//! message whose field 1 → field 2 → field 1 holds, as base64 text, a second
//! message whose field 3 is the refresh token.
use vstd::prelude::*;
use vstd::utf8::{decode_utf8, valid_utf8};
use vstd::string::StringSliceAdditionalSpecFns;
use crate::protobuf::{find_field, spec_find_field};
use crate::text::push_str;

verus! {

/// What `base64::engine::general_purpose::STANDARD.decode` gives for the
/// input bytes: the decoded bytes, or the text its `DecodeError` displays.
pub uninterp spec fn base64_standard_decode_of(input: Seq<u8>) -> Result<Seq<u8>, Seq<char>>;

/// Calls `STANDARD.decode` of the base64 crate (standard alphabet, padding
/// required) and keeps the error as its displayed text. Both outcomes are
/// the named function of the input.
#[verifier::external_body]
fn base64_decode(input: &[u8]) -> (r: Result<Vec<u8>, String>)
    ensures
        match r {
            Ok(b) => base64_standard_decode_of(input@) == Ok::<Seq<u8>, Seq<char>>(b@),
            Err(e) => base64_standard_decode_of(input@) == Err::<Seq<u8>, Seq<char>>(e@),
        },
{
    base64::Engine::decode(&base64::engine::general_purpose::STANDARD, input).map_err(|e| e.to_string())
}

/// Calls `String::from_utf8`, which accepts exactly the well-formed UTF-8
/// byte strings (no overlong forms, no surrogates, nothing past U+10FFFF)
/// and then holds the characters they encode.
#[verifier::external_body]
fn utf8_string(bytes: &[u8]) -> (r: Option<String>)
    ensures
        match r {
            Some(s) => valid_utf8(bytes@) && s@ == decode_utf8(bytes@),
            None => !valid_utf8(bytes@),
        },
{
    String::from_utf8(bytes.to_vec()).ok()
}

/// The refresh token in a stored state value given as its bytes, or the
/// error of the first step that fails: base64 decoding, the lookup of field 1,
/// then 2, then 1, UTF-8 of that field, base64 decoding of it, the lookup of
/// field 3, and UTF-8 of the token.
pub open spec fn spec_refresh_token_from_state(data: Seq<u8>) -> Result<Seq<char>, Seq<char>> {
    match base64_standard_decode_of(data) {
        Err(e) => Err("Base64 decode failed: "@ + e),
        Ok(blob) => match spec_find_field(blob, 1) {
            Err(e) => Err(e),
            Ok(None) => Err("Field 1 not found"@),
            Ok(Some(f1)) => match spec_find_field(f1, 2) {
                Err(e) => Err(e),
                Ok(None) => Err("Field 2 not found"@),
                Ok(Some(f2)) => match spec_find_field(f2, 1) {
                    Err(e) => Err(e),
                    Ok(None) => Err("Field 1 inner not found"@),
                    Ok(Some(f3)) => if !valid_utf8(f3) {
                        Err("Not UTF-8"@)
                    } else {
                        match base64_standard_decode_of(f3) {
                            Err(e) => Err("Inner decode failed: "@ + e),
                            Ok(inner) => match spec_find_field(inner, 3) {
                                Err(e) => Err(e),
                                Ok(None) => Err("Refresh token not found"@),
                                Ok(Some(t)) => if valid_utf8(t) {
                                    Ok(decode_utf8(t))
                                } else {
                                    Err("Refresh token not UTF-8"@)
                                },
                            },
                        }
                    },
                },
            },
        },
    }
}

fn prefixed(prefix: &str, e: String) -> (r: String)
    ensures
        r@ == prefix@ + e@,
{
    let mut m = prefix.to_owned();
    push_str(&mut m, e.as_str());
    m
}

/// Extracts the refresh token from the stored value of
/// `antigravityUnifiedStateSync.oauthToken` (see
/// `spec_refresh_token_from_state`, over the value's UTF-8 bytes).
pub fn refresh_token_from_state(data: &str) -> (r: Result<String, String>)
    ensures
        match spec_refresh_token_from_state(data.spec_bytes()) {
            Ok(t) => r matches Ok(x) && x@ == t,
            Err(e) => r matches Err(m) && m@ == e,
        },
{
    let blob = match base64_decode(data.as_bytes()) {
        Ok(b) => b,
        Err(e) => {
            return Err(prefixed("Base64 decode failed: ", e));
        },
    };
    let f1 = match find_field(blob.as_slice(), 1)? {
        Some(f) => f,
        None => {
            return Err(String::from_str("Field 1 not found"));
        },
    };
    let f2 = match find_field(f1.as_slice(), 2)? {
        Some(f) => f,
        None => {
            return Err(String::from_str("Field 2 not found"));
        },
    };
    let f3 = match find_field(f2.as_slice(), 1)? {
        Some(f) => f,
        None => {
            return Err(String::from_str("Field 1 inner not found"));
        },
    };
    if utf8_string(f3.as_slice()).is_none() {
        return Err(String::from_str("Not UTF-8"));
    }
    let inner = match base64_decode(f3.as_slice()) {
        Ok(b) => b,
        Err(e) => {
            return Err(prefixed("Inner decode failed: ", e));
        },
    };
    let token = match find_field(inner.as_slice(), 3)? {
        Some(t) => t,
        None => {
            return Err(String::from_str("Refresh token not found"));
        },
    };
    match utf8_string(token.as_slice()) {
        Some(t) => Ok(t),
        None => Err(String::from_str("Refresh token not UTF-8")),
    }
}

} // verus!
