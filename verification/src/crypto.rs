//! The cryptographic primitives the codec relies on, behind trusted wrappers:
//! SHA-512/256 digests, RIPEMD-160-over-SHA-256 fingerprints, recoverable
//! secp256k1 signatures, and the process-local randomness used for nonces and
//! key generation.  Each outside call's result is either pinned to a named
//! function of its arguments (the digests and signatures are deterministic) or
//! left unconstrained (randomness).
use vstd::prelude::*;

use crate::codec::{CodecError, NetError, StacksMessageCodec};
use crate::types::StacksPublicKeyBuffer;
use sha2::Digest;

verus! {

/// The SHA-512/256 digest of a byte string: 32 bytes, a function of the
/// input alone.
pub uninterp spec fn sha512_256_of(b: Seq<u8>) -> Seq<u8>;

/// Relies on sha2::Sha512_256: the digest is a function of the input bytes
/// alone and is 32 bytes long.
#[verifier::external_body]
pub fn sha512_256(b: &Vec<u8>) -> (r: Vec<u8>)
    ensures
        r@ == sha512_256_of(b@),
        r@.len() == 32,
{
    let mut hasher = sha2::Sha512_256::new();
    hasher.update(&b[..]);
    hasher.finalize().to_vec()
}

/// The SHA-256 digest of a byte string: 32 bytes, a function of the input alone.
pub uninterp spec fn sha256_of(b: Seq<u8>) -> Seq<u8>;

/// Relies on sha2::Sha256: the digest is a function of the input bytes alone
/// and is 32 bytes long.
#[verifier::external_body]
pub fn sha256(b: &Vec<u8>) -> (r: Vec<u8>)
    ensures
        r@ == sha256_of(b@),
        r@.len() == 32,
{
    let mut hasher = sha2::Sha256::new();
    hasher.update(&b[..]);
    hasher.finalize().to_vec()
}

/// The RIPEMD-160 digest of a byte string: 20 bytes, a function of the input alone.
pub uninterp spec fn ripemd160_of(b: Seq<u8>) -> Seq<u8>;

/// Relies on ripemd::Ripemd160: the digest is a function of the input bytes
/// alone and is 20 bytes long.
#[verifier::external_body]
pub fn ripemd160(b: &Vec<u8>) -> (r: Vec<u8>)
    ensures
        r@ == ripemd160_of(b@),
        r@.len() == 20,
{
    let mut hasher = ripemd::Ripemd160::new();
    hasher.update(&b[..]);
    hasher.finalize().to_vec()
}

/// The 20-byte fingerprint of a byte string: RIPEMD-160 over SHA-256.
pub open spec fn hash160_of(b: Seq<u8>) -> Seq<u8> {
    ripemd160_of(sha256_of(b))
}

/// Compute the 20-byte fingerprint of a byte string.
pub fn hash160(b: &Vec<u8>) -> (r: Vec<u8>)
    ensures
        r@ == hash160_of(b@),
        r@.len() == 20,
{
    let inner = sha256(b);
    ripemd160(&inner)
}

/// Whether 32 bytes are a valid secp256k1 secret scalar.
pub uninterp spec fn is_secp_scalar(b: Seq<u8>) -> bool;

/// Relies on libsecp256k1::SecretKey::parse_slice: it accepts exactly the
/// 32-byte strings that are valid, nonzero scalars below the curve order.
#[verifier::external_body]
pub fn secp_scalar_check(b: &Vec<u8>) -> (r: bool)
    ensures
        r == is_secp_scalar(b@),
        r ==> b@.len() == 32,
{
    libsecp256k1::SecretKey::parse_slice(&b[..]).is_ok()
}

/// Whether 33 bytes are a valid SEC1-compressed secp256k1 curve point.
pub uninterp spec fn is_secp_point(b: Seq<u8>) -> bool;

/// Relies on libsecp256k1::PublicKey::parse_slice with the compressed format:
/// it accepts exactly the 33-byte compressed encodings of curve points.
#[verifier::external_body]
pub fn secp_point_check(b: &Vec<u8>) -> (r: bool)
    ensures
        r == is_secp_point(b@),
        r ==> b@.len() == 33,
{
    libsecp256k1::PublicKey::parse_slice(
        &b[..],
        Some(libsecp256k1::PublicKeyFormat::Compressed),
    ).is_ok()
}

/// The compressed public key bytes derived from a valid secret scalar:
/// 33 bytes, a function of the scalar alone.
pub uninterp spec fn secp_pubkey_of(sk: Seq<u8>) -> Seq<u8>;

/// Relies on libsecp256k1::PublicKey::from_secret_key and
/// serialize_compressed: the compressed public key is a function of the
/// secret scalar alone, is 33 bytes, and parses back as a valid point.
#[verifier::external_body]
pub fn secp_pubkey_from_private(sk: &Vec<u8>) -> (r: Vec<u8>)
    requires
        is_secp_scalar(sk@),
    ensures
        r@ == secp_pubkey_of(sk@),
        r@.len() == 33,
        is_secp_point(r@),
{
    let key = libsecp256k1::SecretKey::parse_slice(&sk[..]).expect("valid scalar");
    let pubkey = libsecp256k1::PublicKey::from_secret_key(&key);
    pubkey.serialize_compressed().to_vec()
}

/// The recoverable signature of a 32-byte digest under a valid secret
/// scalar, in wire layout: one recovery-id byte, then r and s.  RFC 6979
/// nonces make it a function of digest and scalar alone.
pub uninterp spec fn secp_sign(digest: Seq<u8>, sk: Seq<u8>) -> Seq<u8>;

/// Whether a 65-byte recoverable signature over a 32-byte digest is valid
/// under a compressed public key: a function of its three arguments alone.
pub uninterp spec fn secp_verify(digest: Seq<u8>, sig: Seq<u8>, pk: Seq<u8>) -> bool;

/// Relies on libsecp256k1::sign: signing is deterministic (RFC 6979), yields
/// 65 bytes in recovery-id ‖ r ‖ s layout, and what it signs verifies under
/// the signer's public key (libsecp256k1::recover returns that key).
#[verifier::external_body]
pub fn secp_sign_recoverable(digest: &Vec<u8>, sk: &Vec<u8>) -> (r: Vec<u8>)
    requires
        digest@.len() == 32,
        is_secp_scalar(sk@),
    ensures
        r@ == secp_sign(digest@, sk@),
        r@.len() == 65,
        secp_verify(digest@, r@, secp_pubkey_of(sk@)),
{
    let key = libsecp256k1::SecretKey::parse_slice(&sk[..]).expect("valid scalar");
    let mut d = [0u8; 32];
    d.copy_from_slice(&digest[..]);
    let msg = libsecp256k1::Message::parse(&d);
    let (sig, recid) = libsecp256k1::sign(&msg, &key);
    let mut out = Vec::with_capacity(65);
    out.push(recid.serialize());
    out.extend_from_slice(&sig.serialize());
    out
}

/// Relies on libsecp256k1::recover: verification recovers the signing key
/// from digest and signature and succeeds exactly when it equals the given
/// compressed public key; the outcome is a function of the arguments alone.
#[verifier::external_body]
pub fn secp_verify_recoverable(digest: &Vec<u8>, sig: &Vec<u8>, pk: &Vec<u8>) -> (r: bool)
    requires
        digest@.len() == 32,
        sig@.len() == 65,
        is_secp_point(pk@),
    ensures
        r == secp_verify(digest@, sig@, pk@),
{
    let mut compact = [0u8; 64];
    compact.copy_from_slice(&sig[1..65]);
    let mut d = [0u8; 32];
    d.copy_from_slice(&digest[..]);
    let recid = libsecp256k1::RecoveryId::parse(sig[0]);
    let signature = libsecp256k1::Signature::parse_standard(&compact);
    match (recid, signature) {
        (Ok(recid), Ok(signature)) => {
            match libsecp256k1::recover(&libsecp256k1::Message::parse(&d), &signature, &recid) {
                Ok(k) => k.serialize_compressed()[..] == pk[..],
                Err(_) => false,
            }
        },
        _ => false,
    }
}

/// Relies on rand::random: draws a fresh value; nothing is promised of it.
#[verifier::external_body]
pub fn random_u32() -> u32 {
    rand::random::<u32>()
}

/// Relies on rand::fill: fills a fresh 32-byte buffer; nothing is promised
/// of its contents beyond the length.
#[verifier::external_body]
pub fn random_bytes_32() -> (r: Vec<u8>)
    ensures
        r@.len() == 32,
{
    let mut buf = [0u8; 32];
    rand::fill(&mut buf[..]);
    buf.to_vec()
}

/// A secp256k1 private key, held as its 32 scalar bytes.
#[derive(Clone, Debug)]
pub struct Secp256k1PrivateKey {
    pub bytes: Vec<u8>,
}

impl Secp256k1PrivateKey {
    /// A private key is well-formed when its bytes are a valid secret scalar.
    pub open spec fn wf(&self) -> bool {
        self.bytes@.len() == 32 && is_secp_scalar(self.bytes@)
    }

    /// Draw random bytes until they form a valid secret scalar.  Almost every
    /// draw is valid; the attempt count is bounded only to bound the loop, and
    /// exhausting it reports a signing failure.
    pub fn new() -> (r: Result<Secp256k1PrivateKey, NetError>)
        ensures
            match r {
                Ok(k) => k.wf(),
                Err(e) => e == NetError::SigningError,
            },
    {
        let mut tries: usize = 0;
        while tries < 256
            invariant
                tries <= 256,
            decreases 256 - tries,
        {
            let cand = random_bytes_32();
            if secp_scalar_check(&cand) {
                return Ok(Secp256k1PrivateKey { bytes: cand });
            }
            tries = tries + 1;
        }
        Err(NetError::SigningError)
    }

    /// Wrap the given bytes; fails exactly when they are not a valid scalar.
    pub fn from_bytes(b: Vec<u8>) -> (r: Result<Secp256k1PrivateKey, CodecError>)
        ensures
            match r {
                Ok(k) => is_secp_scalar(b@) && k == (Secp256k1PrivateKey { bytes: b }) && k.wf(),
                Err(e) => !is_secp_scalar(b@) && e == CodecError::Deserialize,
            },
    {
        if secp_scalar_check(&b) {
            Ok(Secp256k1PrivateKey { bytes: b })
        } else {
            Err(CodecError::Deserialize)
        }
    }
}

/// A secp256k1 public key, held as its 33 compressed point bytes.
#[derive(Clone, Debug, PartialEq, Eq)]
pub struct Secp256k1PublicKey {
    pub bytes: Vec<u8>,
}

impl Secp256k1PublicKey {
    /// A public key is well-formed when its bytes are a valid compressed point.
    pub open spec fn wf(&self) -> bool {
        self.bytes@.len() == 33 && is_secp_point(self.bytes@)
    }

    /// The public key of a private key.
    pub fn from_private(privkey: &Secp256k1PrivateKey) -> (r: Secp256k1PublicKey)
        requires
            privkey.wf(),
        ensures
            r.bytes@ == secp_pubkey_of(privkey.bytes@),
            r.wf(),
    {
        Secp256k1PublicKey { bytes: secp_pubkey_from_private(&privkey.bytes) }
    }
}

impl StacksPublicKeyBuffer {
    /// Copy a parsed public key into its 33-byte wire buffer.
    pub fn from_public_key(pubkey: &Secp256k1PublicKey) -> (r: StacksPublicKeyBuffer)
        requires
            pubkey.wf(),
        ensures
            r.deep_view() == pubkey.bytes@,
            <StacksPublicKeyBuffer as StacksMessageCodec>::spec_wf(r.deep_view()),
    {
        StacksPublicKeyBuffer(pubkey.bytes.clone())
    }

    /// Parse the buffer as a secp256k1 public key; fails exactly when the
    /// bytes are not a valid compressed point.
    pub fn to_public_key(&self) -> (r: Result<Secp256k1PublicKey, CodecError>)
        ensures
            match r {
                Ok(k) => is_secp_point(self.deep_view()) && k.bytes@ == self.deep_view() && k.wf(),
                Err(e) => !is_secp_point(self.deep_view()) && e == CodecError::Deserialize,
            },
    {
        if secp_point_check(&self.0) {
            Ok(Secp256k1PublicKey { bytes: self.0.clone() })
        } else {
            Err(CodecError::Deserialize)
        }
    }
}

} // verus!
