//! Leader side of the negotiated link encryption: which requests are
//! decrypted, with which key, and the bodies of what is sent back (reading
//! and writing the HTTP bodies is the caller's part).
//!
//! Under `off` everything passes through. Otherwise a request carrying
//! `x-aipg-enc: v1` on any path but the token exchange (`/auth/token`,
//! `/auth/rename`) is decrypted with SHA-256 of its bearer token, and its
//! response encrypted with the same key; under `enforce` an unmarked `/v1/*`
//! request is answered 426 with `Upgrade: x-aipg-enc`; anything else passes
//! through untouched.
use vstd::prelude::*;
use crate::admin::{bearer_token, token_of};
use crate::link_crypto::{LinkEncryptMode, opened, sealed_form, sha256_digest, gzip_of, LinkCrypto, LinkCryptoError, ENC_VERSION, NONCE_LEN, PAYLOAD_MAX, TAG_LEN};
use crate::text::{char_count, concat, has_prefix, starts_with, str_eq};

verus! {

/// Most bytes of a body read whole (64 MiB).
pub const BODY_LIMIT: usize = 67108864;

/// The token-exchange paths, always plain: they come before any key exists.
pub open spec fn exempt(path: Seq<char>) -> bool {
    path == "/auth/token"@ || path == "/auth/rename"@
}

/// Whether a path is exempt from link encryption.
pub fn is_exempt(path: &str) -> (b: bool)
    ensures
        b == exempt(path@),
{
    str_eq(path, "/auth/token") || str_eq(path, "/auth/rename")
}

/// The link key of a token: SHA-256 of its UTF-8 bytes.
pub open spec fn token_key(token: Seq<char>) -> Seq<u8> {
    sha256_digest(vstd::utf8::encode_utf8(token))
}

/// What to do with an incoming request.
pub enum LinkStep {
    /// Hand it on as it is.
    PassThrough,
    /// Answer 400 with this message.
    Reject(String),
    /// Answer 426 Upgrade Required (`Upgrade: x-aipg-enc`) with this message.
    Upgrade(String),
    /// Decrypt the body (unless it is a GET) and encrypt the response with
    /// this key.
    Decrypt([u8; 32]),
}

/// The header's text, when present.
pub open spec fn header_view(h: Option<&str>) -> Option<Seq<char>> {
    match h {
        Some(s) => Some(s@),
        None => None,
    }
}

/// The request is marked encrypted (`x-aipg-enc: v1`).
pub open spec fn marked(enc_header: Option<&str>) -> bool {
    enc_header matches Some(h) && h@ == ENC_VERSION@
}

/// The message of a 426 answer.
pub open spec fn upgrade_message() -> Seq<char> {
    "link encryption required: send x-aipg-enc: v1"@
}

/// The step for a request under the leader's mode: its path and its
/// `x-aipg-enc`, `Authorization` and `x-api-key` headers.
pub fn link_step(
    mode: LinkEncryptMode,
    path: &str,
    enc_header: Option<&str>,
    authorization: Option<&str>,
    x_api_key: Option<&str>,
) -> (r: LinkStep)
    ensures
        mode == LinkEncryptMode::Off ==> r is PassThrough,
        mode == LinkEncryptMode::Enforce && !marked(enc_header) && has_prefix(path@, "/v1/"@) ==> (r matches LinkStep::Upgrade(m)
            && m@ == upgrade_message()),
        mode != LinkEncryptMode::Off && !marked(enc_header) && !(mode == LinkEncryptMode::Enforce && has_prefix(path@, "/v1/"@))
            ==> r is PassThrough,
        mode != LinkEncryptMode::Off && marked(enc_header) && exempt(path@) ==> r is PassThrough,
        mode != LinkEncryptMode::Off && marked(enc_header) && !exempt(path@) ==> match token_of(header_view(authorization), header_view(x_api_key)) {
            Some(t) => if t.len() > 0 {
                r matches LinkStep::Decrypt(k) && k@ == token_key(t)
            } else {
                r matches LinkStep::Reject(m) && m@ == "encrypted request requires bearer token"@
            },
            None => r matches LinkStep::Reject(m) && m@ == "encrypted request requires bearer token"@,
        },
{
    if mode == LinkEncryptMode::Off {
        return LinkStep::PassThrough;
    }
    let wants = match enc_header {
        Some(h) => str_eq(h, ENC_VERSION),
        None => false,
    };
    if !wants {
        if mode == LinkEncryptMode::Enforce && starts_with(path, "/v1/") {
            return LinkStep::Upgrade("link encryption required: send x-aipg-enc: v1".to_string());
        }
        return LinkStep::PassThrough;
    }
    if is_exempt(path) {
        return LinkStep::PassThrough;
    }
    let token = bearer_token(authorization, x_api_key);
    match token {
        Some(t) => {
            if char_count(t.as_str()) > 0 {
                LinkStep::Decrypt(LinkCrypto::derive_key(t.as_str()))
            } else {
                LinkStep::Reject("encrypted request requires bearer token".to_string())
            }
        },
        None => LinkStep::Reject("encrypted request requires bearer token".to_string()),
    }
}

/// The plain request body: GET requests carry none to decrypt; other bodies
/// are decrypted, and a failure is the message answered with 400.
pub fn open_request(key: &[u8; 32], is_get: bool, body: Vec<u8>) -> (r: Result<Vec<u8>, String>)
    ensures
        is_get ==> r == Ok::<Vec<u8>, String>(body),
        !is_get && body@.len() >= NONCE_LEN + TAG_LEN ==> match opened(key@, body@) {
            Some(Some(p)) => r is Ok && r->Ok_0@ == p,
            _ => r is Err,
        },
        !is_get && body@.len() < NONCE_LEN + TAG_LEN ==> r is Err,
        r matches Err(m) ==> crate::text::has_prefix(m@, "decrypt failed: "@),
{
    if is_get {
        return Ok(body);
    }
    let crypto = LinkCrypto::new();
    match crypto.decrypt(key, body.as_slice()) {
        Ok(p) => Ok(p),
        Err(e) => {
            proof {
                reveal_strlit("decrypt failed: ");
            }
            let a = concat("decrypt failed: ", e.message().as_str());
            let m = concat(a.as_str(), " (bad token or tampered)");
            assert(m@.take("decrypt failed: "@.len() as int) =~= "decrypt failed: "@);
            Err(m)
        },
    }
}

/// The encrypted response body (`None` when it is beyond what AES-GCM seals).
pub fn seal_response(key: &[u8; 32], body: &[u8]) -> (r: Option<Vec<u8>>)
    ensures
        r is None <==> gzip_of(6, body@).len() > PAYLOAD_MAX,
        r matches Some(raw) ==> raw@ == sealed_form(6, key@, raw@.subrange(0, 12), body@),
{
    let crypto = LinkCrypto::new();
    crypto.try_encrypt(key, body)
}

/// The JSON body of a 400 answer: `{"error":{"message":"<msg>"}}` (the
/// message is put in as it is).
pub fn error_body(msg: &str) -> (s: String)
    ensures
        s@ == "{\"error\":{\"message\":\""@ + msg@ + "\"}}"@,
{
    let a = concat("{\"error\":{\"message\":\"", msg);
    concat(a.as_str(), "\"}}")
}

} // verus!
