//! Gateway-to-gateway link hardening: compress, then encrypt.
//!
//! Wire form: `raw = nonce (12 bytes) ‖ AES-256-GCM(gzip(plain))`, the GCM tag
//! (16 bytes) trailing the ciphertext; the key is SHA-256 of the bearer token.
use vstd::prelude::*;
use vstd::string::{StrSliceExecFns, StringSliceAdditionalSpecFns};
use crate::text::{ascii_lower_seq, decimal, str_eq, to_ascii_lower, trim, trim_ws, u64_decimal, concat};
use aes_gcm::aead::rand_core::RngCore;
use aes_gcm::aead::{Aead, KeyInit, OsRng};
use aes_gcm::{Aes256Gcm, Key, Nonce};
use flate2::read::GzDecoder;
use flate2::write::GzEncoder;
use flate2::Compression;
use sha2::{Digest, Sha256};
use std::io::{Read, Write};

verus! {

/// Header that announces an encrypted body.
pub const ENC_HEADER: &'static str = "x-aipg-enc";

/// Protocol version carried in that header.
pub const ENC_VERSION: &'static str = "v1";

/// Nonce length (the standard 96-bit GCM nonce).
pub const NONCE_LEN: usize = 12;

/// Length of the GCM authentication tag.
pub const TAG_LEN: usize = 16;

/// Largest message AES-GCM seals (2^36 bytes).
pub const PAYLOAD_MAX: u64 = 68719476736;

/// Link encryption mode (configuration value `link.encrypt`).
#[derive(Debug, Clone, Copy, PartialEq, Eq, Structural)]
pub enum LinkEncryptMode {
    /// Plain text (LAN direct links, older members).
    Off,
    /// End-to-end AES-256-GCM at the protocol layer.
    AesGcm,
    /// Leader side: unencrypted `/v1/*` requests are refused with 426.
    Enforce,
    /// Reserved: transport-layer TLS.
    Tls,
}

/// The mode a configuration word selects: trimmed, ASCII case ignored;
/// anything unknown (the empty word too) is `Off`.
pub open spec fn mode_of(s: Seq<char>) -> LinkEncryptMode {
    let w = ascii_lower_seq(trim_ws(s));
    if w == "aes-gcm"@ || w == "aes_gcm"@ || w == "aes"@ {
        LinkEncryptMode::AesGcm
    } else if w == "enforce"@ || w == "strict"@ || w == "mandatory"@ {
        LinkEncryptMode::Enforce
    } else if w == "tls"@ || w == "quic"@ {
        LinkEncryptMode::Tls
    } else {
        LinkEncryptMode::Off
    }
}

/// The configuration word written back for a mode.
pub open spec fn mode_word(m: LinkEncryptMode) -> Seq<char> {
    match m {
        LinkEncryptMode::Off => "off"@,
        LinkEncryptMode::AesGcm => "aes-gcm"@,
        LinkEncryptMode::Enforce => "enforce"@,
        LinkEncryptMode::Tls => "tls"@,
    }
}

impl LinkEncryptMode {
    /// Parses a configuration value (`off` | `aes-gcm` | `enforce` | `tls`, and
    /// their aliases).
    pub fn parse(s: &str) -> (m: LinkEncryptMode)
        ensures
            m == mode_of(s@),
    {
        proof {
            reveal_strlit("aes-gcm");
            reveal_strlit("aes_gcm");
            reveal_strlit("aes");
            reveal_strlit("enforce");
            reveal_strlit("strict");
            reveal_strlit("mandatory");
            reveal_strlit("tls");
            reveal_strlit("quic");
        }
        let t = trim(s);
        let w = to_ascii_lower(t.as_str());
        let w = w.as_str();
        if str_eq(w, "aes-gcm") || str_eq(w, "aes_gcm") || str_eq(w, "aes") {
            LinkEncryptMode::AesGcm
        } else if str_eq(w, "enforce") || str_eq(w, "strict") || str_eq(w, "mandatory") {
            LinkEncryptMode::Enforce
        } else if str_eq(w, "tls") || str_eq(w, "quic") {
            LinkEncryptMode::Tls
        } else {
            LinkEncryptMode::Off
        }
    }

    /// The configuration value of this mode.
    pub fn as_str(self) -> (s: &'static str)
        ensures
            s@ == mode_word(self),
    {
        match self {
            LinkEncryptMode::Off => "off",
            LinkEncryptMode::AesGcm => "aes-gcm",
            LinkEncryptMode::Enforce => "enforce",
            LinkEncryptMode::Tls => "tls",
        }
    }

    /// Whether the sending side encrypts: every mode but `Off`.
    pub fn encrypts(self) -> (b: bool)
        ensures
            b == (self != LinkEncryptMode::Off),
    {
        !matches!(self, LinkEncryptMode::Off)
    }
}

impl Default for LinkEncryptMode {
    fn default() -> (m: Self)
        ensures
            m == LinkEncryptMode::Off,
    {
        LinkEncryptMode::Off
    }
}

/// Writing a mode and reading it back gives the same mode.
pub proof fn law_mode_word_parses_back(m: LinkEncryptMode)
    ensures
        mode_of(mode_word(m)) == m,
{
    reveal_strlit("off");
    reveal_strlit("aes-gcm");
    reveal_strlit("aes_gcm");
    reveal_strlit("aes");
    reveal_strlit("enforce");
    reveal_strlit("strict");
    reveal_strlit("mandatory");
    reveal_strlit("tls");
    reveal_strlit("quic");
    let w = mode_word(m);
    assert(crate::text::lead_ws(w) == 0);
    let t = w.subrange(0, w.len() as int);
    assert(t =~= w);
    assert(crate::text::trail_ws(w) == 0);
    assert(trim_ws(w) =~= w);
    assert(ascii_lower_seq(w) =~= w);
}

/// Link crypto failure.
#[derive(Debug)]
pub enum LinkCryptoError {
    /// The payload is shorter than a nonce and a tag.
    TooShort(usize),
    /// Compression failed.
    Compress(String),
    /// Decompression failed.
    Decompress(String),
    /// Authentication failed: wrong token or tampered payload.
    Decrypt,
}

/// The error's text, as its display form reads.
pub open spec fn crypto_error_text(e: LinkCryptoError) -> Seq<char> {
    match e {
        LinkCryptoError::TooShort(n) => "payload too short ("@ + decimal(n as nat)
            + " bytes < nonce+tag minimum)"@,
        LinkCryptoError::Compress(m) => "gzip compress failed: "@ + m@,
        LinkCryptoError::Decompress(m) => "gzip decompress failed: "@ + m@,
        LinkCryptoError::Decrypt => "AES-GCM decrypt failed (bad token / tampered payload)"@,
    }
}

impl LinkCryptoError {
    /// The error's text.
    pub fn message(&self) -> (s: String)
        ensures
            s@ == crypto_error_text(*self),
    {
        match self {
            LinkCryptoError::TooShort(n) => {
                let d = u64_decimal(*n as u64);
                let a = concat("payload too short (", d.as_str());
                concat(a.as_str(), " bytes < nonce+tag minimum)")
            },
            LinkCryptoError::Compress(m) => concat("gzip compress failed: ", m.as_str()),
            LinkCryptoError::Decompress(m) => concat("gzip decompress failed: ", m.as_str()),
            LinkCryptoError::Decrypt => "AES-GCM decrypt failed (bad token / tampered payload)".to_string(),
        }
    }
}

/// SHA-256 of a byte string.
pub uninterp spec fn sha256_digest(data: Seq<u8>) -> Seq<u8>;

/// gzip stream that `flate2` writes for `plain` at compression `level`.
pub uninterp spec fn gzip_of(level: u32, plain: Seq<u8>) -> Seq<u8>;

/// What `flate2` decodes from a gzip stream (`None`: not a valid stream).
pub uninterp spec fn gunzip_of(compressed: Seq<u8>) -> Option<Seq<u8>>;

/// AES-256-GCM ciphertext with trailing tag for `msg` under `key` and `nonce`.
pub uninterp spec fn gcm_seal_of(key: Seq<u8>, nonce: Seq<u8>, msg: Seq<u8>) -> Seq<u8>;

/// AES-256-GCM opening of `ct` (ciphertext then tag) under `key` and `nonce`
/// (`None`: authentication failed or `ct` is out of range).
pub uninterp spec fn gcm_open_of(key: Seq<u8>, nonce: Seq<u8>, ct: Seq<u8>) -> Option<Seq<u8>>;

/// `sha2::Sha256::digest`: the result is named `sha256_digest` of the input;
/// a SHA-256 digest is 32 bytes by its type.
#[verifier::external_body]
pub(crate) fn sha256(data: &[u8]) -> (r: [u8; 32])
    ensures
        r@ == sha256_digest(data@),
{
    Sha256::digest(data).into()
}

/// `flate2::write::GzEncoder` at `Compression::new(level)`, fed `plain` whole
/// and finished: the stream is named `gzip_of` of level and input (`flate2`
/// writes a fixed header, mtime 0 and OS byte 255, so the stream depends on
/// nothing else). Writing into a `Vec` does not fail.
#[verifier::external_body]
fn gzip(level: u32, plain: &[u8]) -> (r: Vec<u8>)
    requires
        level <= 9,
    ensures
        r@ == gzip_of(level, plain@),
{
    let mut enc = GzEncoder::new(Vec::new(), Compression::new(level));
    enc.write_all(plain).ok();
    enc.finish().unwrap_or_default()
}

/// `flate2::read::GzDecoder` read to the end: `Ok` exactly when `gunzip_of`
/// is `Some`, with those bytes; a stream that `gzip_of` wrote decodes to its
/// input. The text of the error (`std::io::Error`'s) is left unsaid.
#[verifier::external_body]
fn gunzip(compressed: &[u8]) -> (r: Result<Vec<u8>, String>)
    ensures
        r is Ok <==> gunzip_of(compressed@) is Some,
        r is Ok ==> r->Ok_0@ == gunzip_of(compressed@)->0,
        forall|level: u32, p: Seq<u8>|
            level <= 9 && compressed@ == #[trigger] gzip_of(level, p) ==> (r is Ok && r->Ok_0@ == p),
{
    let mut dec = GzDecoder::new(compressed);
    let mut out = Vec::new();
    match dec.read_to_end(&mut out) {
        Ok(_) => Ok(out),
        Err(e) => Err(e.to_string()),
    }
}

/// `aes_gcm::Aes256Gcm::encrypt` (no associated data): `Some` exactly when the
/// message is at most 2^36 bytes (`P_MAX`), then the ciphertext named
/// `gcm_seal_of`, 16 bytes longer than the message (tag appended).
#[verifier::external_body]
pub(crate) fn gcm_seal(key: &[u8; 32], nonce: &[u8; 12], msg: &[u8]) -> (r: Option<Vec<u8>>)
    ensures
        r is Some <==> msg@.len() <= PAYLOAD_MAX,
        r is Some ==> r->0@ == gcm_seal_of(key@, nonce@, msg@),
        r is Some ==> r->0@.len() == msg@.len() + 16,
{
    let cipher = Aes256Gcm::new(Key::<Aes256Gcm>::from_slice(key));
    cipher.encrypt(Nonce::from_slice(nonce), msg).ok()
}

/// `aes_gcm::Aes256Gcm::decrypt` (no associated data): the result is named
/// `gcm_open_of`; what `gcm_seal_of` sealed under the same key and nonce opens
/// to the message.
#[verifier::external_body]
pub(crate) fn gcm_open(key: &[u8; 32], nonce: &[u8], ct: &[u8]) -> (r: Option<Vec<u8>>)
    requires
        nonce@.len() == 12,
    ensures
        r is Some <==> gcm_open_of(key@, nonce@, ct@) is Some,
        r is Some ==> r->0@ == gcm_open_of(key@, nonce@, ct@)->0,
        forall|m: Seq<u8>|
            m.len() <= PAYLOAD_MAX && ct@ == #[trigger] gcm_seal_of(key@, nonce@, m) ==> (r is Some && r->0@ == m),
{
    let cipher = Aes256Gcm::new(Key::<Aes256Gcm>::from_slice(key));
    cipher.decrypt(Nonce::from_slice(nonce), ct).ok()
}

/// A fresh nonce from the operating system's generator (`OsRng::fill_bytes`).
/// Nothing is stated of its bytes.
#[verifier::external_body]
pub(crate) fn random_nonce() -> (r: [u8; 12]) {
    let mut n = [0u8; 12];
    OsRng.fill_bytes(&mut n);
    n
}

/// The wire form: nonce, then the sealed compressed payload.
pub open spec fn sealed_form(level: u32, key: Seq<u8>, nonce: Seq<u8>, plain: Seq<u8>) -> Seq<u8> {
    nonce + gcm_seal_of(key, nonce, gzip_of(level, plain))
}

/// What `decrypt` gives for a payload of at least nonce plus tag.
pub open spec fn opened(key: Seq<u8>, raw: Seq<u8>) -> Option<Option<Seq<u8>>> {
    match gcm_open_of(key, raw.subrange(0, 12), raw.subrange(12, raw.len() as int)) {
        None => None,
        Some(c) => Some(gunzip_of(c)),
    }
}

/// Link encryptor: key derivation plus gzip at a fixed level.
#[derive(Debug)]
pub struct LinkCrypto {
    gzip_level: u32,
}

impl LinkCrypto {
    #[verifier::type_invariant]
    spec fn level_in_range(&self) -> bool {
        self.gzip_level <= 9
    }

    /// The gzip level (1 = fastest … 9 = smallest).
    pub closed spec fn level(&self) -> u32 {
        self.gzip_level
    }

    /// Encryptor at gzip level 6 (balanced).
    pub fn new() -> (c: LinkCrypto)
        ensures
            c.level() == 6,
    {
        LinkCrypto { gzip_level: 6 }
    }

    /// Encryptor at gzip level 1: less CPU, slightly larger payloads.
    pub fn fast() -> (c: LinkCrypto)
        ensures
            c.level() == 1,
    {
        LinkCrypto { gzip_level: 1 }
    }

    /// 32-byte key from a bearer token: SHA-256 of its UTF-8 bytes.
    pub fn derive_key(token: &str) -> (k: [u8; 32])
        ensures
            k@ == sha256_digest(token.spec_bytes()),
    {
        let bytes = token.as_bytes_vec();
        sha256(bytes.as_slice())
    }

    /// Encrypts: `nonce ‖ AES-256-GCM(gzip(plain))`, with a fresh random nonce.
    pub fn encrypt(&self, key: &[u8; 32], plain: &[u8]) -> (raw: Vec<u8>)
        requires
            gzip_of(self.level(), plain@).len() <= PAYLOAD_MAX,
        ensures
            raw@.len() >= NONCE_LEN + TAG_LEN,
            raw@ == sealed_form(self.level(), key@, raw@.subrange(0, 12), plain@),
    {
        proof {
            use_type_invariant(self);
        }
        let compressed = self.compress(plain);
        let nonce = random_nonce();
        let sealed = gcm_seal(key, &nonce, compressed.as_slice());
        match sealed {
            Some(ct) => {
                let mut raw: Vec<u8> = Vec::new();
                raw.extend_from_slice(nonce.as_slice());
                raw.extend_from_slice(ct.as_slice());
                assert(raw@ =~= nonce@ + ct@);
                assert(raw@.subrange(0, 12) =~= nonce@);
                raw
            },
            None => {
                assert(false);
                Vec::new()
            },
        }
    }

    /// Encrypts when the compressed payload is within what AES-GCM seals;
    /// `None` otherwise.
    pub fn try_encrypt(&self, key: &[u8; 32], plain: &[u8]) -> (r: Option<Vec<u8>>)
        ensures
            r is None <==> gzip_of(self.level(), plain@).len() > PAYLOAD_MAX,
            r is Some ==> r->0@.len() >= NONCE_LEN + TAG_LEN,
            r is Some ==> r->0@ == sealed_form(self.level(), key@, r->0@.subrange(0, 12), plain@),
    {
        let compressed = self.compress(plain);
        if (compressed.len() as u64) <= PAYLOAD_MAX {
            Some(self.encrypt(key, plain))
        } else {
            None
        }
    }

    /// Decrypts and decompresses `nonce ‖ ciphertext ‖ tag`.
    pub fn decrypt(&self, key: &[u8; 32], raw: &[u8]) -> (r: Result<Vec<u8>, LinkCryptoError>)
        ensures
            raw@.len() < NONCE_LEN + TAG_LEN ==> r == Err::<Vec<u8>, LinkCryptoError>(
                LinkCryptoError::TooShort(raw@.len() as usize),
            ),
            raw@.len() >= NONCE_LEN + TAG_LEN ==> match opened(key@, raw@) {
                None => r matches Err(LinkCryptoError::Decrypt),
                Some(None) => r matches Err(LinkCryptoError::Decompress(_)),
                Some(Some(p)) => r is Ok && r->Ok_0@ == p,
            },
            forall|level: u32, nonce: Seq<u8>, p: Seq<u8>|
                level <= 9 && nonce.len() == 12 && gzip_of(level, p).len() <= PAYLOAD_MAX
                    && raw@.len() >= NONCE_LEN + TAG_LEN
                    && raw@ == #[trigger] sealed_form(level, key@, nonce, p) ==> (r is Ok && r->Ok_0@ == p),
    {
        if raw.len() < NONCE_LEN + TAG_LEN {
            return Err(LinkCryptoError::TooShort(raw.len()));
        }
        let (nonce, ct) = raw.split_at(NONCE_LEN);
        let opened_bytes = gcm_open(key, nonce, ct);
        proof {
            assert forall|level: u32, n: Seq<u8>, p: Seq<u8>|
                level <= 9 && n.len() == 12 && gzip_of(level, p).len() <= PAYLOAD_MAX
                    && raw@ == #[trigger] sealed_form(level, key@, n, p) implies
                    ct@ == gcm_seal_of(key@, nonce@, gzip_of(level, p)) && nonce@ == n by {
                assert(raw@.subrange(0, 12) =~= n);
                assert(raw@.subrange(12, raw@.len() as int) =~= gcm_seal_of(key@, n, gzip_of(level, p)));
            }
        }
        match opened_bytes {
            None => Err(LinkCryptoError::Decrypt),
            Some(compressed) => match gunzip(compressed.as_slice()) {
                Ok(p) => Ok(p),
                Err(e) => Err(LinkCryptoError::Decompress(e)),
            },
        }
    }

    fn compress(&self, plain: &[u8]) -> (r: Vec<u8>)
        ensures
            r@ == gzip_of(self.level(), plain@),
    {
        proof {
            use_type_invariant(self);
        }
        gzip(self.gzip_level, plain)
    }
}

impl Clone for LinkCrypto {
    fn clone(&self) -> (c: Self)
        ensures
            c.level() == self.level(),
    {
        proof {
            use_type_invariant(self);
        }
        LinkCrypto { gzip_level: self.gzip_level }
    }
}

impl Default for LinkCrypto {
    fn default() -> (c: Self)
        ensures
            c.level() == 6,
    {
        LinkCrypto::new()
    }
}

} // verus!
