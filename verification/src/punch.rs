//! Hole punching across NATs: candidates, options, and the certificate
//! fingerprint members pin (sockets and QUIC are the caller's part).
use vstd::prelude::*;
use crate::link_crypto::{sha256, sha256_digest};
use crate::text::{concat, decimal, hex_lower, str_eq, to_hex_lower, u64_decimal};

verus! {

/// Where a candidate address comes from.
#[derive(Debug, Clone, Copy, PartialEq, Eq, Structural)]
pub enum CandidateKind {
    /// The locally bound address.
    Local,
    /// The public address a STUN echo reflected.
    Mapped,
}

/// A punching candidate (`ip:port`).
#[derive(Debug, Clone)]
pub struct Candidate {
    pub ip: String,
    pub port: u16,
    pub kind: CandidateKind,
}

impl Candidate {
    pub fn new(ip: &str, port: u16, kind: CandidateKind) -> (c: Self)
        ensures
            c.ip@ == ip@,
            c.port == port,
            c.kind == kind,
    {
        Candidate { ip: ip.to_string(), port, kind }
    }

    /// The UDP target, `ip:port`.
    pub fn addr_text(&self) -> (s: String)
        ensures
            s@ == self.ip@ + ":"@ + decimal(self.port as nat),
    {
        let a = concat(self.ip.as_str(), ":");
        let d = u64_decimal(self.port as u64);
        let s = concat(a.as_str(), d.as_str());
        assert(s@ =~= self.ip@ + ":"@ + decimal(self.port as nat));
        s
    }
}

/// `Duration::from_secs(n)`.
pub uninterp spec fn secs(n: u64) -> core::time::Duration;

/// `Duration::from_millis(n)`.
pub uninterp spec fn millis(n: u64) -> core::time::Duration;

/// `std::time::Duration::from_secs`: the result is named `secs` of `n`.
#[verifier::external_body]
fn duration_secs(n: u64) -> (d: core::time::Duration)
    ensures
        d == secs(n),
{
    core::time::Duration::from_secs(n)
}

/// `std::time::Duration::from_millis`: the result is named `millis` of `n`.
#[verifier::external_body]
fn duration_millis(n: u64) -> (d: core::time::Duration)
    ensures
        d == millis(n),
{
    core::time::Duration::from_millis(n)
}

/// Punching options.
#[derive(Debug, Clone, Copy)]
pub struct PunchOptions {
    /// Overall timeout (10 s by default).
    pub timeout: core::time::Duration,
    /// Time between probes (100 ms by default).
    pub probe_interval: core::time::Duration,
    /// Probes sent to each candidate per round (1 by default).
    pub probes_per_round: u32,
}

impl Default for PunchOptions {
    fn default() -> (o: Self)
        ensures
            o.timeout == secs(10),
            o.probe_interval == millis(100),
            o.probes_per_round == 1,
    {
        PunchOptions { timeout: duration_secs(10), probe_interval: duration_millis(100), probes_per_round: 1 }
    }
}

/// Certificate fingerprint: SHA-256 of the DER bytes, lower-case hex, no colons.
pub open spec fn der_fingerprint(der: Seq<u8>) -> Seq<char> {
    hex_lower(sha256_digest(der))
}

/// A self-signed certificate for the punched QUIC link, with its fingerprint.
#[derive(Debug, Clone)]
pub struct PunchCert {
    pub der: Vec<u8>,
    pub key_der: Vec<u8>,
    /// Fingerprint (lower-case hex) members check through signalling.
    pub fingerprint: String,
}

impl PunchCert {
    /// A certificate from its DER and key (the fingerprint computed from the DER).
    pub fn from_der(der: Vec<u8>, key_der: Vec<u8>) -> (c: Self)
        ensures
            c.der@ == der@,
            c.key_der@ == key_der@,
            c.fingerprint@ == der_fingerprint(der@),
    {
        let fingerprint = PunchCert::fingerprint_of_der(der.as_slice());
        PunchCert { der, key_der, fingerprint }
    }

    /// Fingerprint of DER bytes (the same on both sides).
    pub fn fingerprint_of_der(der: &[u8]) -> (s: String)
        ensures
            s@ == der_fingerprint(der@),
    {
        let digest = sha256(der);
        to_hex_lower(digest.as_slice())
    }

    /// A stored certificate is usable when both files held something.
    pub fn usable(der: &[u8], key_der: &[u8]) -> (b: bool)
        ensures
            b == (der@.len() > 0 && key_der@.len() > 0),
    {
        der.len() > 0 && key_der.len() > 0
    }
}

/// Server-certificate check pinning an expected fingerprint.
#[derive(Debug, Clone)]
pub struct FingerprintVerifier {
    expected: String,
}

impl FingerprintVerifier {
    pub closed spec fn expected_view(&self) -> Seq<char> {
        self.expected@
    }

    pub fn new(expected: String) -> (v: Self)
        ensures
            v.expected_view() == expected@,
    {
        FingerprintVerifier { expected }
    }

    /// Accepts a server certificate exactly when its fingerprint is the expected one.
    pub fn accepts(&self, der: &[u8]) -> (b: bool)
        ensures
            b == (der_fingerprint(der@) == self.expected_view()),
    {
        let fp = PunchCert::fingerprint_of_der(der);
        str_eq(fp.as_str(), self.expected.as_str())
    }

    /// Why a certificate is refused: expected and actual fingerprints.
    pub fn mismatch_message(&self, der: &[u8]) -> (s: String)
        ensures
            s@ == "证书指纹不匹配（期望 "@ + self.expected_view() + "，实际 "@ + der_fingerprint(der@) + "），拒绝连接"@,
    {
        let fp = PunchCert::fingerprint_of_der(der);
        let a = concat("证书指纹不匹配（期望 ", self.expected.as_str());
        let b = concat(a.as_str(), "，实际 ");
        let c = concat(b.as_str(), fp.as_str());
        let s = concat(c.as_str(), "），拒绝连接");
        assert(s@ =~= "证书指纹不匹配（期望 "@ + self.expected_view() + "，实际 "@ + der_fingerprint(der@) + "），拒绝连接"@);
        s
    }
}

/// A member's punching session result: the local bridge port (tunnel entry).
#[derive(Debug, Clone, Copy)]
pub struct MemberTunnel {
    pub local_port: u16,
}

} // verus!
