//! The signed-envelope format: a proof string travels as
//! `base64(signature + ":" + publicKey + ":" + plainMessage)`.  Wrapping and
//! the field grammar are handled here; whether the signature itself holds is
//! for the caller's signature oracle to say, on the fields this module hands
//! out.

use crate::text::{concat_parts, split_chars};
use vstd::prelude::*;
use vstd::utf8::{decode_utf8, encode_utf8, valid_utf8};

verus! {

/// What `base64::encode` returns on the given bytes.
pub uninterp spec fn b64_of(bytes: Seq<u8>) -> Seq<char>;

/// What `base64::decode` returns on the given text: the decoded bytes, or
/// nothing where the text is no base64.
pub uninterp spec fn b64_decoded(s: Seq<char>) -> Option<Seq<u8>>;

/// Relies on base64::encode: standard base64 with padding, a function of the
/// input bytes alone.
#[verifier::external_body]
fn b64_encode(bytes: &[u8]) -> (r: String)
    ensures
        r@ == b64_of(bytes@),
{
    base64::encode(bytes)
}

/// Relies on base64::decode: inverts standard base64, and fails, rather than
/// panicking, on text that is no base64.  The result is a function of the
/// input text alone.
#[verifier::external_body]
fn b64_decode(s: &str) -> (r: Option<Vec<u8>>)
    ensures
        match r {
            Some(bytes) => b64_decoded(s@) == Some(bytes@),
            None => b64_decoded(s@) is None,
        },
{
    base64::decode(s).ok()
}

/// Relies on std's String::from_utf8: succeeds exactly on valid UTF-8 and
/// decodes it.
#[verifier::external_body]
fn bytes_to_string(bytes: Vec<u8>) -> (r: Option<String>)
    ensures
        match r {
            Some(s) => valid_utf8(bytes@) && s@ == decode_utf8(bytes@),
            None => !valid_utf8(bytes@),
        },
{
    String::from_utf8(bytes).ok()
}

/// The three fields of an envelope text: signature, public key, and the
/// remaining fields joined — with nothing reinserted — as the plain message.
/// `None` where the text has fewer than three fields.
pub open spec fn envelope_fields(text: Seq<char>) -> Option<(Seq<char>, Seq<char>, Seq<char>)> {
    let parts = split_chars(text, ':');
    if parts.len() < 3 {
        None
    } else {
        Some((parts[0], parts[1], concat_parts(parts, 2)))
    }
}

/// Splits an envelope text into `(signature, public_key, plain_message)`.
/// Fails exactly where the text has fewer than three `:`-separated fields.
pub fn parse_signed_parts(text: &str) -> (r: Option<(String, String, String)>)
    ensures
        match r {
            Some(t) => envelope_fields(text@) == Some((t.0@, t.1@, t.2@)),
            None => envelope_fields(text@) is None,
        },
{
    let parts = crate::text::split_str(text, ':');
    if parts.len() < 3 {
        return None;
    }
    let plain = crate::text::join_from(&parts, 2);
    let signature = parts[0].clone();
    let public_key = parts[1].clone();
    proof {
        assert(parts@.map_values(|p: String| p@)[0] == parts@[0]@);
        assert(parts@.map_values(|p: String| p@)[1] == parts@[1]@);
    }
    Some((signature, public_key, plain))
}

/// Opens a transport blob: base64-decodes it, reads the bytes as UTF-8, and
/// splits the text into `(signature, public_key, plain_message)`.  Fails
/// exactly where the blob is no base64, the bytes are no UTF-8, or the text
/// has fewer than three fields.  Whether the signature holds is for the
/// caller's verifier oracle to decide on these fields.
pub fn unwrap_signed_message(blob: &str) -> (r: Option<(String, String, String)>)
    ensures
        match b64_decoded(blob@) {
            None => r is None,
            Some(bytes) => {
                if !valid_utf8(bytes) {
                    r is None
                } else {
                    match r {
                        Some(t) => envelope_fields(decode_utf8(bytes)) == Some(
                            (t.0@, t.1@, t.2@),
                        ),
                        None => envelope_fields(decode_utf8(bytes)) is None,
                    }
                }
            },
        },
{
    let bytes = match b64_decode(blob) {
        Some(bytes) => bytes,
        None => {
            return None;
        },
    };
    let text = match bytes_to_string(bytes) {
        Some(text) => text,
        None => {
            return None;
        },
    };
    parse_signed_parts(text.as_str())
}

/// Seals signature, public key and plain message into a transport blob:
/// the three fields joined with `:` and base64-encoded.
pub fn wrap_signed_message(signature: &str, public_key: &str, plain: &str) -> (r: String)
    ensures
        r@ == b64_of(
            encode_utf8(signature@ + seq![':'] + public_key@ + seq![':'] + plain@),
        ),
{
    let mut joined = String::from_str(signature);
    crate::text::push_char(&mut joined, ':');
    joined.append(public_key);
    crate::text::push_char(&mut joined, ':');
    joined.append(plain);
    proof {
        assert(joined@ =~= signature@ + seq![':'] + public_key@ + seq![':'] + plain@);
    }
    b64_encode(joined.as_str().as_bytes())
}

} // verus!
