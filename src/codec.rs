//! Blueprint strings: a one-byte version marker, then base64 of the
//! zlib-compressed JSON text.

use vstd::prelude::*;
use vstd::string::StringSliceAdditionalSpecFns;
use vstd::utf8::{decode_utf8, is_char_boundary, valid_utf8};

verus! {

/// The bytes that base64 (standard alphabet, padded) decodes `s` into, or
/// none where `s` is not such base64.
pub uninterp spec fn base64_decode_of(s: Seq<u8>) -> Option<Seq<u8>>;

/// Digit `v` (0 to 63) of the standard base64 alphabet.
pub open spec fn base64_digit(v: int) -> char {
    "ABCDEFGHIJKLMNOPQRSTUVWXYZabcdefghijklmnopqrstuvwxyz0123456789+/"@[v]
}

/// The standard base64 text of `b`: each group of three bytes gives four
/// digits of six bits each, and a last group of one or two bytes is padded
/// with `=` to four characters.
pub open spec fn base64_standard(b: Seq<u8>) -> Seq<char>
    decreases b.len(),
{
    let x = if b.len() > 0 { b[0] as int } else { 0 };
    let y = if b.len() > 1 { b[1] as int } else { 0 };
    let z = if b.len() > 2 { b[2] as int } else { 0 };
    if b.len() == 0 {
        Seq::empty()
    } else if b.len() == 1 {
        seq![base64_digit(x / 4), base64_digit((x % 4) * 16), '=', '=']
    } else if b.len() == 2 {
        seq![base64_digit(x / 4), base64_digit((x % 4) * 16 + y / 16), base64_digit((y % 16) * 4), '=']
    } else {
        seq![
            base64_digit(x / 4),
            base64_digit((x % 4) * 16 + y / 16),
            base64_digit((y % 16) * 4 + z / 64),
            base64_digit(z % 64),
        ] + base64_standard(b.subrange(3, b.len() as int))
    }
}

/// What `inflate::inflate_bytes_zlib` returns for `b`: the bytes inflated
/// from it, or none where it reports an error. A stream cut short yields
/// the bytes decoded so far.
pub uninterp spec fn zlib_inflate_of(b: Seq<u8>) -> Option<Seq<u8>>;

/// The zlib stream that `b` compresses to at the default level.
pub uninterp spec fn zlib_deflate_of(b: Seq<u8>) -> Seq<u8>;

/// Why a blueprint string could not be opened.
#[derive(Clone, Copy, Debug, PartialEq, Eq, Structural)]
pub enum InflateError {
    /// The string does not start with a one-byte version marker.
    NoVersion,
    /// The body is not base64.
    Base64,
    /// Inflating the decoded bytes reported an error.
    Zlib,
    /// The inflated bytes are not UTF-8 text.
    Utf8,
}

/// Relies on base64::decode: the standard-alphabet decoding of `b`, which
/// depends on `b` alone. It panics only when the length of `b` plus 3
/// overflows.
#[verifier::external_body]
fn base64_decode(b: &[u8]) -> (r: Option<Vec<u8>>)
    requires
        b@.len() + 3 <= usize::MAX,
    ensures
        match r {
            Some(v) => base64_decode_of(b@) == Some(v@),
            None => base64_decode_of(b@) is None,
        },
{
    base64::decode(b).ok()
}

/// Relies on base64::encode: the standard alphabet with padding. It panics
/// only when the encoded length overflows.
#[verifier::external_body]
fn base64_encode(b: &[u8]) -> (r: String)
    requires
        b@.len() <= usize::MAX / 2,
    ensures
        r@ == base64_standard(b@),
{
    base64::encode(b)
}

/// Relies on inflate::inflate_bytes_zlib: its result for `b`, which depends
/// on `b` alone; none where it returns an error.
#[verifier::external_body]
fn zlib_inflate(b: &[u8]) -> (r: Option<Vec<u8>>)
    ensures
        match r {
            Some(v) => zlib_inflate_of(b@) == Some(v@),
            None => zlib_inflate_of(b@) is None,
        },
{
    inflate::inflate_bytes_zlib(b).ok()
}

/// Relies on deflate::deflate_bytes_zlib: the zlib stream of `b` at the
/// default compression level.
#[verifier::external_body]
fn zlib_deflate(b: &[u8]) -> (r: Vec<u8>)
    ensures
        r@ == zlib_deflate_of(b@),
{
    deflate::deflate_bytes_zlib(b)
}

/// Relies on String::from_utf8: the text of `b` where `b` is UTF-8.
#[verifier::external_body]
fn utf8_text(b: Vec<u8>) -> (r: Option<String>)
    ensures
        r is Some <==> valid_utf8(b@),
        r matches Some(s) ==> s@ == decode_utf8(b@),
{
    String::from_utf8(b).ok()
}

/// What `factorio_inflate` returns for a string whose UTF-8 bytes are `b`.
pub open spec fn inflate_result(b: Seq<u8>) -> Result<Seq<char>, InflateError> {
    if !(b.len() >= 1 && is_char_boundary(b, 1)) {
        Err(InflateError::NoVersion)
    } else {
        match base64_decode_of(b.subrange(1, b.len() as int)) {
            None => Err(InflateError::Base64),
            Some(d) => match zlib_inflate_of(d) {
                None => Err(InflateError::Zlib),
                Some(z) => if valid_utf8(z) {
                    Ok(decode_utf8(z))
                } else {
                    Err(InflateError::Utf8)
                },
            },
        }
    }
}

pub open spec fn result_view(r: Result<String, InflateError>) -> Result<Seq<char>, InflateError> {
    match r {
        Ok(s) => Ok(s@),
        Err(e) => Err(e),
    }
}

/// The body of a blueprint string: what follows its one-byte version
/// marker, if it starts with one.
pub fn strip_version(bp: &str) -> (r: Option<&str>)
    requires
        bp.spec_bytes().len() <= usize::MAX,
    ensures
        r is Some <==> (bp.spec_bytes().len() >= 1 && is_char_boundary(bp.spec_bytes(), 1)),
        r matches Some(body) ==> body.spec_bytes() == bp.spec_bytes().subrange(
            1,
            bp.spec_bytes().len() as int,
        ),
{
    if bp.len() >= 1 && bp.is_char_boundary(1) {
        let (_, body) = bp.split_at(1);
        Some(body)
    } else {
        None
    }
}

/// Opens a blueprint string: drops the version marker, decodes the base64
/// body and inflates it into JSON text.
pub fn factorio_inflate(bp_string: &str) -> (r: Result<String, InflateError>)
    requires
        bp_string.spec_bytes().len() + 3 <= usize::MAX,
    ensures
        result_view(r) == inflate_result(bp_string.spec_bytes()),
{
    let body = match strip_version(bp_string) {
        Some(body) => body,
        None => {
            return Err(InflateError::NoVersion);
        },
    };
    let decoded = match base64_decode(body.as_bytes()) {
        Some(d) => d,
        None => {
            return Err(InflateError::Base64);
        },
    };
    let inflated = match zlib_inflate(decoded.as_slice()) {
        Some(z) => z,
        None => {
            return Err(InflateError::Zlib);
        },
    };
    match utf8_text(inflated) {
        Some(text) => Ok(text),
        None => Err(InflateError::Utf8),
    }
}

/// A blueprint string from the base64 text of its compressed body: the
/// version marker `0`, then the text.
pub fn with_version(encoded: &str) -> (r: String)
    ensures
        r@ == seq!['0'] + encoded@,
{
    let mut result = String::from_str("0");
    proof {
        reveal_strlit("0");
    }
    result.append(encoded);
    result
}

/// The blueprint string of already compressed bytes.
pub fn encode_blueprint(deflated: &Vec<u8>) -> (r: String)
    requires
        deflated@.len() <= usize::MAX / 2,
    ensures
        r@ == seq!['0'] + base64_standard(deflated@),
{
    let encoded = base64_encode(deflated.as_slice());
    with_version(encoded.as_str())
}

/// Packs JSON text into a blueprint string: compresses it, encodes it in
/// base64 and puts the version marker in front. None where the compressed
/// bytes are too many to encode.
pub fn factorio_deflate(bp_string_json: &str) -> (r: Option<String>)
    ensures
        zlib_deflate_of(bp_string_json.spec_bytes()).len() <= usize::MAX / 2 <==> r is Some,
        r matches Some(s) ==> s@ == seq!['0'] + base64_standard(
            zlib_deflate_of(bp_string_json.spec_bytes()),
        ),
{
    let deflated = zlib_deflate(bp_string_json.as_bytes());
    if deflated.len() <= usize::MAX / 2 {
        Some(encode_blueprint(&deflated))
    } else {
        None
    }
}

} // verus!
