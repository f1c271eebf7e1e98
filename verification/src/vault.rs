//! Secrets at rest: a value is sealed with AES-256-GCM under the data
//! directory's key and kept as `base64(nonce):base64(ciphertext)`.
use vstd::prelude::*;
use vstd::string::StrSliceExecFns;
use vstd::utf8::{decode_utf8, encode_utf8, valid_utf8};
use base64::engine::general_purpose::STANDARD;
use base64::Engine;
use crate::link_crypto::{gcm_open, gcm_open_of, gcm_seal, gcm_seal_of, random_nonce, PAYLOAD_MAX};
use crate::text::{chars_of, concat, string_from_chars};

verus! {

/// The standard base64 text (with padding) of `bytes`.
pub uninterp spec fn b64_text_of(bytes: Seq<u8>) -> Seq<char>;

/// The bytes that a standard base64 text stands for (`None`: not valid base64).
pub uninterp spec fn b64_bytes_of(text: Seq<char>) -> Option<Seq<u8>>;

/// The text `String::from_utf8_lossy` makes of `bytes`.
pub uninterp spec fn utf8_lossy_of(bytes: Seq<u8>) -> Seq<char>;

/// `base64::engine::general_purpose::STANDARD.encode`: the text is named
/// `b64_text_of` of the bytes; it is made of `A`–`Z`, `a`–`z`, `0`–`9`, `+`,
/// `/` and `=`, so it holds no `:`.
#[verifier::external_body]
fn b64_encode(bytes: &[u8]) -> (r: String)
    ensures
        r@ == b64_text_of(bytes@),
        !r@.contains(':'),
{
    STANDARD.encode(bytes)
}

/// `base64::engine::general_purpose::STANDARD.decode`: `Ok` is named
/// `b64_bytes_of` of the text; the encoding of some bytes decodes back to
/// them, and a text holding `:` (outside the alphabet) does not decode.
#[verifier::external_body]
fn b64_decode(text: &str) -> (r: Option<Vec<u8>>)
    ensures
        r is Some <==> b64_bytes_of(text@) is Some,
        r matches Some(v) ==> v@ == b64_bytes_of(text@)->0,
        forall|b: Seq<u8>| text@ == #[trigger] b64_text_of(b) ==> (r is Some && r->0@ == b),
        text@.contains(':') ==> r is None,
{
    STANDARD.decode(text).ok()
}

/// `String::from_utf8_lossy`: the text is named `utf8_lossy_of` of the bytes;
/// valid UTF-8 gives back the text it encodes (invalid sequences become
/// U+FFFD, which is left unstated).
#[verifier::external_body]
fn from_utf8_lossy(bytes: &[u8]) -> (r: String)
    ensures
        r@ == utf8_lossy_of(bytes@),
        valid_utf8(bytes@) ==> r@ == decode_utf8(bytes@),
{
    String::from_utf8_lossy(bytes).into_owned()
}

/// The vault's key: the key file's first 32 bytes, zero-padded.
pub open spec fn key_of(bytes: Seq<u8>) -> Seq<u8> {
    Seq::new(32, |i: int| if i < bytes.len() { bytes[i] } else { 0u8 })
}

/// What the ciphertext part holds for `plain` under `key` and `nonce`:
/// the sealed text, or nothing when it is too long to seal.
pub open spec fn sealed_text(key: Seq<u8>, nonce: Seq<u8>, plain: Seq<char>) -> Seq<u8> {
    if encode_utf8(plain).len() <= PAYLOAD_MAX {
        gcm_seal_of(key, nonce, encode_utf8(plain))
    } else {
        Seq::empty()
    }
}

/// The stored form of `plain` sealed under `key` with `nonce`.
pub open spec fn stored_form(key: Seq<u8>, nonce: Seq<u8>, plain: Seq<char>) -> Seq<char> {
    b64_text_of(nonce) + ":"@ + b64_text_of(sealed_text(key, nonce, plain))
}

/// `i` is the position of the first `:` in `s`.
pub open spec fn first_colon(s: Seq<char>, i: int) -> bool {
    0 <= i < s.len() && s[i] == ':' && forall|j: int| 0 <= j < i ==> s[j] != ':'
}

/// What opening a stored value gives, once split at its first `:`: both
/// halves must be base64, the nonce 12 bytes and the seal intact.
pub open spec fn opened_parts(key: Seq<u8>, nonce_text: Seq<char>, ct_text: Seq<char>) -> Option<Seq<char>> {
    match (b64_bytes_of(nonce_text), b64_bytes_of(ct_text)) {
        (Some(n), Some(c)) => if n.len() == 12 {
            match gcm_open_of(key, n, c) {
                Some(p) => Some(utf8_lossy_of(p)),
                None => None,
            }
        } else {
            None
        },
        _ => None,
    }
}

/// Sealing key for secret settings.
#[derive(Clone, Copy)]
pub struct Vault {
    key: [u8; 32],
}

impl Vault {
    pub closed spec fn key(&self) -> Seq<u8> {
        self.key@
    }

    /// The vault of a key file holding `bytes`.
    pub fn from_key_bytes(bytes: &[u8]) -> (v: Vault)
        ensures
            v.key() == key_of(bytes@),
    {
        let mut key = [0u8; 32];
        let mut i: usize = 0;
        while i < 32
            invariant
                i <= 32,
                forall|j: int| 0 <= j < i ==> key@[j] == key_of(bytes@)[j],
                forall|j: int| i <= j < 32 ==> key@[j] == 0u8,
                key@.len() == 32,
            decreases 32 - i,
        {
            if i < bytes.len() {
                key.set(i, bytes[i]);
            }
            i = i + 1;
        }
        assert(key@ =~= key_of(bytes@));
        Vault { key }
    }

    /// Seals `plain` with a fresh random nonce: `base64(nonce):base64(ct)`
    /// (an empty ciphertext where the text is too long to seal).
    pub fn encrypt(&self, plain: &str) -> (r: String)
        ensures
            exists|n: Seq<u8>| n.len() == 12 && r@ == #[trigger] stored_form(self.key(), n, plain@)
                && !b64_text_of(n).contains(':'),
    {
        let nonce = random_nonce();
        let bytes = plain.as_bytes_vec();
        let ct: Vec<u8> = match gcm_seal(&self.key, &nonce, bytes.as_slice()) {
            Some(c) => c,
            None => Vec::new(),
        };
        let n_text = b64_encode(&nonce);
        let c_text = b64_encode(ct.as_slice());
        let r = concat(concat(n_text.as_str(), ":").as_str(), c_text.as_str());
        proof {
            reveal_strlit(":");
            assert(ct@ == sealed_text(self.key(), nonce@, plain@));
            assert(r@ == stored_form(self.key(), nonce@, plain@));
        }
        r
    }

    /// Opens a stored value; `None` when it has no `:`, a half is not
    /// base64, the nonce is not 12 bytes, or the seal does not open. What
    /// `encrypt` stored opens to the sealed text.
    pub fn decrypt(&self, encoded: &str) -> (r: Option<String>)
        ensures
            (forall|i: int| !first_colon(encoded@, i)) ==> r is None,
            forall|i: int| #[trigger] first_colon(encoded@, i) ==> match opened_parts(
                self.key(),
                encoded@.take(i),
                encoded@.skip(i + 1),
            ) {
                Some(t) => r matches Some(s) && s@ == t,
                None => r is None,
            },
            forall|n: Seq<u8>, plain: Seq<char>|
                n.len() == 12 && encode_utf8(plain).len() <= PAYLOAD_MAX && !b64_text_of(n).contains(':')
                    && encoded@ == #[trigger] stored_form(self.key(), n, plain) ==> (r matches Some(s) && s@ == plain),
    {
        let v = chars_of(encoded);
        let mut i: usize = 0;
        while i < v.len() && v[i] != ':'
            invariant
                i <= v.len(),
                v@ == encoded@,
                forall|j: int| 0 <= j < i ==> v@[j] != ':',
            decreases v.len() - i,
        {
            i = i + 1;
        }
        proof {
            reveal_strlit(":");
        }
        if i == v.len() {
            proof {
                assert forall|n: Seq<u8>, plain: Seq<char>|
                    n.len() == 12 && encode_utf8(plain).len() <= PAYLOAD_MAX && !b64_text_of(n).contains(':')
                        && encoded@ == #[trigger] stored_form(self.key(), n, plain) implies false by {
                    let k = b64_text_of(n).len() as int;
                    assert(stored_form(self.key(), n, plain)[k] == ':');
                    assert(encoded@[k] == ':');
                }
            }
            return None;
        }
        let ghost at = i as int;
        assert(first_colon(encoded@, at));
        let mut head: Vec<char> = Vec::new();
        let mut k: usize = 0;
        while k < i
            invariant
                k <= i,
                i < v.len(),
                head@ == v@.take(k as int),
            decreases i - k,
        {
            head.push(v[k]);
            assert(v@.take(k + 1) =~= v@.take(k as int).push(v@[k as int]));
            k = k + 1;
        }
        let mut tail: Vec<char> = Vec::new();
        let mut k: usize = i + 1;
        while k < v.len()
            invariant
                i < k <= v.len(),
                tail@ == v@.subrange(i + 1, k as int),
            decreases v.len() - k,
        {
            tail.push(v[k]);
            assert(v@.subrange(i + 1, k + 1) =~= v@.subrange(i + 1, k as int).push(v@[k as int]));
            k = k + 1;
        }
        let n_text = string_from_chars(&head);
        let c_text = string_from_chars(&tail);
        assert(n_text@ =~= encoded@.take(at));
        assert(c_text@ =~= encoded@.skip(at + 1));
        proof {
            assert forall|j: int| #[trigger] first_colon(encoded@, j) implies j == at by {
                if j < at {
                    assert(encoded@[j] != ':');
                } else if j > at {
                    assert(encoded@[at] != ':');
                }
            }
            assert forall|n: Seq<u8>, plain: Seq<char>|
                n.len() == 12 && encode_utf8(plain).len() <= PAYLOAD_MAX && !b64_text_of(n).contains(':')
                    && encoded@ == #[trigger] stored_form(self.key(), n, plain) implies {
                        &&& b64_text_of(n) == encoded@.take(at)
                        &&& b64_text_of(sealed_text(self.key(), n, plain)) == encoded@.skip(at + 1)
                    } by {
                let e = b64_text_of(n);
                let len = e.len() as int;
                assert(encoded@[len] == ':');
                if at < len {
                    assert(e[at] == encoded@[at]);
                    assert(e.contains(':'));
                }
                if at > len {
                    assert(encoded@[len] == ':');
                }
                assert(encoded@.take(at) =~= e);
                assert(encoded@.skip(at + 1) =~= b64_text_of(sealed_text(self.key(), n, plain)));
            }
        }
        let nonce = match b64_decode(n_text.as_str()) {
            Some(b) => b,
            None => return None,
        };
        let ct = match b64_decode(c_text.as_str()) {
            Some(b) => b,
            None => return None,
        };
        if nonce.len() != 12 {
            return None;
        }
        let plain = match gcm_open(&self.key, nonce.as_slice(), ct.as_slice()) {
            Some(p) => p,
            None => return None,
        };
        let out = from_utf8_lossy(plain.as_slice());
        proof {
            broadcast use vstd::utf8::encode_utf8_valid_utf8, vstd::utf8::encode_utf8_decode_utf8;
        }
        Some(out)
    }
}

} // verus!
