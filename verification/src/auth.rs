//! The two keys: the one that clients present, and the one derived from it
//! that the CDN presents.

use vstd::prelude::*;
use vstd::string::*;
use vstd::utf8::*;

use constant_time_eq::constant_time_eq;
use hmac::Mac;

use crate::number::{hex, hex_lower, law_hex_notation, law_hex_tells_bytes_apart};
use crate::reply::{error, json_error, ErrorReply, ErrorView};
use crate::request::{presented, read_field, RequestHead};

verus! {

/// What is authenticated with the client's key to derive the CDN's.
pub const PLAYBACK_ORIGIN_DERIVATION_CONTEXT: &'static str = "drama-playback-origin-v1";

/// `constant_time_eq` compares two rows of bytes, in a time that does not
/// depend on what they hold. Claimed: it says whether they are the same.
pub assume_specification[ constant_time_eq::constant_time_eq ](a: &[u8], b: &[u8]) -> (r: bool)
    ensures
        r == (a@ == b@),
;

/// HMAC-SHA-256 of a message under a key.
pub uninterp spec fn hmac_sha256(key: Seq<u8>, message: Seq<u8>) -> Seq<u8>;

/// Authenticates a message.
///
/// Calls `Hmac::<Sha256>` of the hmac and sha2 crates: `new_from_slice`, which
/// takes a key of any length, `update` and `finalize`. Claimed: the result is
/// a function of the key and the message alone, and has 32 bytes.
#[verifier::external_body]
fn authenticate(key: &[u8], message: &[u8]) -> (r: Vec<u8>)
    ensures
        r@ == hmac_sha256(key@, message@),
        r@.len() == 32,
{
    let mut mac = hmac::Hmac::<sha2::Sha256>::new_from_slice(key)
        .expect("HMAC accepts arbitrary key sizes");
    mac.update(message);
    mac.finalize().into_bytes().to_vec()
}

/// The key that the CDN presents when clients present `api_key`.
pub open spec fn playback_origin_key(api_key: Seq<char>) -> Seq<char> {
    hex(
        hmac_sha256(
            encode_utf8(api_key),
            encode_utf8(PLAYBACK_ORIGIN_DERIVATION_CONTEXT@),
        ),
    )
}

/// Derives the key that the CDN presents: 64 hexadecimal digits.
pub fn derive_playback_origin_key(api_key: &str) -> (r: String)
    ensures
        r@ == playback_origin_key(api_key@),
        r@.len() == 64,
{
    let tag = authenticate(api_key.as_bytes(), PLAYBACK_ORIGIN_DERIVATION_CONTEXT.as_bytes());
    hex_lower(tag.as_slice())
}

/// Two keys that clients present derive the same key for the CDN if and only
/// if the digests of the derivation context under them are the same.
pub proof fn law_origin_keys_differ_as_digests_do(one: Seq<char>, other: Seq<char>)
    ensures
        ({
            let context = encode_utf8(PLAYBACK_ORIGIN_DERIVATION_CONTEXT@);
            playback_origin_key(one) == playback_origin_key(other) <==> hmac_sha256(
                encode_utf8(one),
                context,
            ) == hmac_sha256(encode_utf8(other), context)
        }),
{
    let context = encode_utf8(PLAYBACK_ORIGIN_DERIVATION_CONTEXT@);
    law_hex_tells_bytes_apart(
        hmac_sha256(encode_utf8(one), context),
        hmac_sha256(encode_utf8(other), context),
    );
}

/// Whether a presented key is the expected one.
fn same_key(provided: &str, expected: &str) -> (r: bool)
    ensures
        r == (provided@ == expected@),
{
    let a = provided.as_bytes();
    let b = expected.as_bytes();
    proof {
        encode_utf8_decode_utf8(provided@);
        encode_utf8_decode_utf8(expected@);
    }
    a.len() == b.len() && constant_time_eq(a, b)
}

/// The answer to a client that does not present the key.
pub open spec fn invalid_api_key() -> ErrorView {
    error("UNAUTHORIZED"@, "Invalid API key"@, 401)
}

/// The answer to a CDN that does not present its key.
pub open spec fn invalid_playback_origin_key() -> ErrorView {
    error("UNAUTHORIZED"@, "Invalid playback origin key"@, 401)
}

/// Lets a request pass if and only if it presents the client's key.
pub fn require_auth(req: &RequestHead, api_key: &str) -> (r: Result<(), ErrorReply>)
    ensures
        match r {
            Ok(_) => presented(req.api_key) == api_key@,
            Err(e) => presented(req.api_key) != api_key@ && e@ == invalid_api_key(),
        },
{
    let provided = match read_field(&req.api_key) {
        Some(text) => text,
        None => String::new(),
    };
    if same_key(provided.as_str(), api_key) {
        Ok(())
    } else {
        Err(json_error("UNAUTHORIZED", "Invalid API key".to_owned(), 401))
    }
}

/// Lets a request pass if and only if it presents the CDN's key.
pub fn require_playback_origin(req: &RequestHead, origin_key: &str) -> (r: Result<
    (),
    ErrorReply,
>)
    ensures
        match r {
            Ok(_) => presented(req.playback_origin_key) == origin_key@,
            Err(e) => presented(req.playback_origin_key) != origin_key@ && e@
                == invalid_playback_origin_key(),
        },
{
    let provided = match read_field(&req.playback_origin_key) {
        Some(text) => text,
        None => String::new(),
    };
    if same_key(provided.as_str(), origin_key) {
        Ok(())
    } else {
        Err(json_error("UNAUTHORIZED", "Invalid playback origin key".to_owned(), 401))
    }
}

/// The key that the CDN presents is the digest of `drama-playback-origin-v1`
/// under the key that clients present, written out in hexadecimal digits,
/// upper half before lower half.
pub proof fn law_the_origin_key_is_the_digest_written_out(api_key: Seq<char>, i: int)
    requires
        0 <= i < hmac_sha256(encode_utf8(api_key), encode_utf8("drama-playback-origin-v1"@)).len(),
    ensures
        ({
            let digest = hmac_sha256(
                encode_utf8(api_key),
                encode_utf8("drama-playback-origin-v1"@),
            );
            let key = playback_origin_key(api_key);
            let upper = digest[i] as int / 16;
            let lower = digest[i] as int % 16;
            &&& key.len() == 2 * digest.len()
            &&& key[2 * i] as int == (if upper < 10 {
                48 + upper
            } else {
                87 + upper
            })
            &&& key[2 * i + 1] as int == (if lower < 10 {
                48 + lower
            } else {
                87 + lower
            })
        }),
{
    law_hex_notation(
        hmac_sha256(encode_utf8(api_key), encode_utf8("drama-playback-origin-v1"@)),
        i,
    );
}

} // verus!
