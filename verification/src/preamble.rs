//! The fixed-size message preamble: its byte layout, its decode-time
//! invariants, and the canonical signing and verification of a message body
//! against it.  The canonical form blanks the signature field, so the digest
//! that is signed is a fixed point of signing.
use vstd::prelude::*;

use crate::codec::{
    be_u32, be_u64, read_raw_bytes, spec_parse_raw, CodecError, NetError, StacksMessageCodec,
};
use crate::crypto::{
    secp_pubkey_of, secp_sign, secp_sign_recoverable, secp_verify, secp_verify_recoverable,
    sha512_256, sha512_256_of, Secp256k1PrivateKey, Secp256k1PublicKey,
};
use crate::types::{BurnchainHeaderHash, MessageSignature};
use crate::{MAX_MESSAGE_LEN, PREAMBLE_ENCODED_SIZE};

verus! {

/// The model of a preamble: every field as a plain value.
#[verifier::ext_equal]
pub struct PreambleV {
    pub peer_version: u32,
    pub network_id: u32,
    pub seq: u32,
    pub burn_block_height: u64,
    pub burn_block_hash: Seq<u8>,
    pub burn_stable_block_height: u64,
    pub burn_stable_block_hash: Seq<u8>,
    pub additional_data: u32,
    pub signature: Seq<u8>,
    pub payload_len: u32,
}

/// The fixed-size header of every message: protocol identity, sequencing,
/// the burnchain view it was sent under, a recoverable signature, and the
/// byte length of the body that follows it.
#[derive(Clone, Debug, PartialEq, Eq)]
pub struct Preamble {
    pub peer_version: u32,
    pub network_id: u32,
    pub seq: u32,
    pub burn_block_height: u64,
    pub burn_block_hash: BurnchainHeaderHash,
    pub burn_stable_block_height: u64,
    pub burn_stable_block_hash: BurnchainHeaderHash,
    pub additional_data: u32,
    pub signature: MessageSignature,
    pub payload_len: u32,
}

impl DeepView for Preamble {
    type V = PreambleV;

    open spec fn deep_view(&self) -> PreambleV {
        PreambleV {
            peer_version: self.peer_version,
            network_id: self.network_id,
            seq: self.seq,
            burn_block_height: self.burn_block_height,
            burn_block_hash: self.burn_block_hash.0@,
            burn_stable_block_height: self.burn_stable_block_height,
            burn_stable_block_hash: self.burn_stable_block_hash.0@,
            additional_data: self.additional_data,
            signature: self.signature.0@,
            payload_len: self.payload_len,
        }
    }
}

impl StacksMessageCodec for Preamble {
    /// A preamble is well-formed when its byte fields have their fixed
    /// widths and the decode-time invariants hold: the body is at least five
    /// bytes (an empty list and a tag), under the message cap, and the burn
    /// block strictly above the stable one.
    open spec fn spec_wf(m: PreambleV) -> bool {
        &&& m.burn_block_hash.len() == 32
        &&& m.burn_stable_block_hash.len() == 32
        &&& m.signature.len() == 65
        &&& m.payload_len >= 5
        &&& m.payload_len < MAX_MESSAGE_LEN
        &&& m.burn_block_height > m.burn_stable_block_height
    }

    open spec fn spec_ser(m: PreambleV) -> Seq<u8> {
        <u32 as StacksMessageCodec>::spec_ser(m.peer_version)
            + <u32 as StacksMessageCodec>::spec_ser(m.network_id)
            + <u32 as StacksMessageCodec>::spec_ser(m.seq) + <u64 as StacksMessageCodec>::spec_ser(
            m.burn_block_height,
        ) + m.burn_block_hash + <u64 as StacksMessageCodec>::spec_ser(m.burn_stable_block_height)
            + m.burn_stable_block_hash + <u32 as StacksMessageCodec>::spec_ser(m.additional_data)
            + m.signature + <u32 as StacksMessageCodec>::spec_ser(m.payload_len)
    }

    open spec fn spec_parse(b: Seq<u8>) -> Result<(PreambleV, int), CodecError> {
        if b.len() < 165 {
            Err(CodecError::Underflow)
        } else {
            let m = PreambleV {
                peer_version: be_u32(b),
                network_id: be_u32(b.skip(4)),
                seq: be_u32(b.skip(8)),
                burn_block_height: be_u64(b.skip(12)),
                burn_block_hash: b.subrange(20, 52),
                burn_stable_block_height: be_u64(b.skip(52)),
                burn_stable_block_hash: b.subrange(60, 92),
                additional_data: be_u32(b.skip(92)),
                signature: b.subrange(96, 161),
                payload_len: be_u32(b.skip(161)),
            };
            if m.payload_len < 5 {
                Err(CodecError::Deserialize)
            } else if m.payload_len >= MAX_MESSAGE_LEN {
                Err(CodecError::Deserialize)
            } else if m.burn_block_height <= m.burn_stable_block_height {
                Err(CodecError::Deserialize)
            } else {
                Ok((m, 165))
            }
        }
    }

    proof fn lemma_parse_sound(b: Seq<u8>) {
        if b.len() >= 165 {
            <u32 as StacksMessageCodec>::lemma_parse_sound(b);
            <u32 as StacksMessageCodec>::lemma_parse_sound(b.skip(4));
            <u32 as StacksMessageCodec>::lemma_parse_sound(b.skip(8));
            <u64 as StacksMessageCodec>::lemma_parse_sound(b.skip(12));
            <u64 as StacksMessageCodec>::lemma_parse_sound(b.skip(52));
            <u32 as StacksMessageCodec>::lemma_parse_sound(b.skip(92));
            <u32 as StacksMessageCodec>::lemma_parse_sound(b.skip(161));
            assert(<u32 as StacksMessageCodec>::spec_ser(be_u32(b)) == b.subrange(0, 4));
            assert(b.skip(4).subrange(0, 4) =~= b.subrange(4, 8));
            assert(b.skip(8).subrange(0, 4) =~= b.subrange(8, 12));
            assert(b.skip(12).subrange(0, 8) =~= b.subrange(12, 20));
            assert(b.skip(52).subrange(0, 8) =~= b.subrange(52, 60));
            assert(b.skip(92).subrange(0, 4) =~= b.subrange(92, 96));
            assert(b.skip(161).subrange(0, 4) =~= b.subrange(161, 165));
            match Self::spec_parse(b) {
                Ok((m, n)) => {
                    assert(Self::spec_ser(m) =~= b.subrange(0, 165));
                },
                Err(_) => {},
            }
        }
    }

    proof fn lemma_parse_ser(m: PreambleV, rest: Seq<u8>) {
        let s1 = <u32 as StacksMessageCodec>::spec_ser(m.peer_version);
        let s2 = <u32 as StacksMessageCodec>::spec_ser(m.network_id);
        let s3 = <u32 as StacksMessageCodec>::spec_ser(m.seq);
        let s4 = <u64 as StacksMessageCodec>::spec_ser(m.burn_block_height);
        let s5 = m.burn_block_hash;
        let s6 = <u64 as StacksMessageCodec>::spec_ser(m.burn_stable_block_height);
        let s7 = m.burn_stable_block_hash;
        let s8 = <u32 as StacksMessageCodec>::spec_ser(m.additional_data);
        let s9 = m.signature;
        let s10 = <u32 as StacksMessageCodec>::spec_ser(m.payload_len);
        let b = Self::spec_ser(m) + rest;
        assert(Self::spec_ser(m).len() == 165);
        <u32 as StacksMessageCodec>::lemma_parse_ser(m.peer_version, b.skip(4));
        assert(b =~= s1 + b.skip(4));
        <u32 as StacksMessageCodec>::lemma_parse_ser(m.network_id, b.skip(8));
        assert(b.skip(4) =~= s2 + b.skip(8));
        <u32 as StacksMessageCodec>::lemma_parse_ser(m.seq, b.skip(12));
        assert(b.skip(8) =~= s3 + b.skip(12));
        <u64 as StacksMessageCodec>::lemma_parse_ser(m.burn_block_height, b.skip(20));
        assert(b.skip(12) =~= s4 + b.skip(20));
        <u64 as StacksMessageCodec>::lemma_parse_ser(m.burn_stable_block_height, b.skip(60));
        assert(b.skip(52) =~= s6 + b.skip(60));
        <u32 as StacksMessageCodec>::lemma_parse_ser(m.additional_data, b.skip(96));
        assert(b.skip(92) =~= s8 + b.skip(96));
        <u32 as StacksMessageCodec>::lemma_parse_ser(m.payload_len, b.skip(165));
        assert(b.skip(161) =~= s10 + b.skip(165));
        assert(b.subrange(20, 52) =~= s5);
        assert(b.subrange(60, 92) =~= s7);
        assert(b.subrange(96, 161) =~= s9);
        match Self::spec_parse(b) {
            Ok((m2, n)) => {
                assert(m2 =~= m);
            },
            Err(_) => {
                assert(false);
            },
        }
    }

    fn consensus_serialize(&self, out: &mut Vec<u8>) {
        let ghost m = self.deep_view();
        self.peer_version.consensus_serialize(out);
        self.network_id.consensus_serialize(out);
        self.seq.consensus_serialize(out);
        self.burn_block_height.consensus_serialize(out);
        self.burn_block_hash.consensus_serialize(out);
        self.burn_stable_block_height.consensus_serialize(out);
        self.burn_stable_block_hash.consensus_serialize(out);
        self.additional_data.consensus_serialize(out);
        self.signature.consensus_serialize(out);
        self.payload_len.consensus_serialize(out);
        assert(out@ =~= old(out)@ + Self::spec_ser(m));
    }

    fn consensus_deserialize(buf: &Vec<u8>, pos: usize, end: usize) -> (r: Result<
        (Preamble, usize),
        CodecError,
    >) {
        let ghost w = buf@.subrange(pos as int, end as int);
        if end - pos < 165 {
            assert(w.len() < 165);
            return Err(CodecError::Underflow);
        }
        assert(w.len() >= 165);
        let (peer_version, c1) = match u32::consensus_deserialize(buf, pos, end) {
            Ok(x) => x,
            Err(_) => {
                assert(false);
                return Err(CodecError::Underflow);
            },
        };
        assert(w.skip(0) =~= w);
        assert(peer_version == be_u32(w));
        let (network_id, c2) = match u32::consensus_deserialize(buf, c1, end) {
            Ok(x) => x,
            Err(_) => {
                assert(false);
                return Err(CodecError::Underflow);
            },
        };
        assert(buf@.subrange(c1 as int, end as int) =~= w.skip(4));
        let (seq, c3) = match u32::consensus_deserialize(buf, c2, end) {
            Ok(x) => x,
            Err(_) => {
                assert(false);
                return Err(CodecError::Underflow);
            },
        };
        assert(buf@.subrange(c2 as int, end as int) =~= w.skip(8));
        let (burn_block_height, c4) = match u64::consensus_deserialize(buf, c3, end) {
            Ok(x) => x,
            Err(_) => {
                assert(false);
                return Err(CodecError::Underflow);
            },
        };
        assert(buf@.subrange(c3 as int, end as int) =~= w.skip(12));
        let (bbh, c5) = match read_raw_bytes(buf, c4, end, 32) {
            Ok(x) => x,
            Err(_) => {
                assert(false);
                return Err(CodecError::Underflow);
            },
        };
        assert(buf@.subrange(c4 as int, end as int).take(32) =~= w.subrange(20, 52));
        let (burn_stable_block_height, c6) = match u64::consensus_deserialize(buf, c5, end) {
            Ok(x) => x,
            Err(_) => {
                assert(false);
                return Err(CodecError::Underflow);
            },
        };
        assert(buf@.subrange(c5 as int, end as int) =~= w.skip(52));
        let (sbh, c7) = match read_raw_bytes(buf, c6, end, 32) {
            Ok(x) => x,
            Err(_) => {
                assert(false);
                return Err(CodecError::Underflow);
            },
        };
        assert(buf@.subrange(c6 as int, end as int).take(32) =~= w.subrange(60, 92));
        let (additional_data, c8) = match u32::consensus_deserialize(buf, c7, end) {
            Ok(x) => x,
            Err(_) => {
                assert(false);
                return Err(CodecError::Underflow);
            },
        };
        assert(buf@.subrange(c7 as int, end as int) =~= w.skip(92));
        let (sig, c9) = match read_raw_bytes(buf, c8, end, 65) {
            Ok(x) => x,
            Err(_) => {
                assert(false);
                return Err(CodecError::Underflow);
            },
        };
        assert(buf@.subrange(c8 as int, end as int).take(65) =~= w.subrange(96, 161));
        let (payload_len, c10) = match u32::consensus_deserialize(buf, c9, end) {
            Ok(x) => x,
            Err(_) => {
                assert(false);
                return Err(CodecError::Underflow);
            },
        };
        assert(buf@.subrange(c9 as int, end as int) =~= w.skip(161));
        if payload_len < 5 {
            return Err(CodecError::Deserialize);
        }
        if payload_len >= MAX_MESSAGE_LEN {
            return Err(CodecError::Deserialize);
        }
        if burn_block_height <= burn_stable_block_height {
            return Err(CodecError::Deserialize);
        }
        let p = Preamble {
            peer_version,
            network_id,
            seq,
            burn_block_height,
            burn_block_hash: BurnchainHeaderHash(bbh),
            burn_stable_block_height,
            burn_stable_block_hash: BurnchainHeaderHash(sbh),
            additional_data,
            signature: MessageSignature(sig),
            payload_len,
        };
        assert(Self::spec_parse(w) == Ok::<_, CodecError>((p.deep_view(), 165int))) by {
            assert(p.deep_view() =~= (match Self::spec_parse(w) {
                Ok((m, _)) => m,
                Err(_) => p.deep_view(),
            }));
        }
        Ok((p, c10))
    }
}

/// The model of a preamble with its signature blanked to 65 zero bytes: the
/// canonical form over which the signing digest is computed.
pub open spec fn spec_blanked(m: PreambleV) -> PreambleV {
    PreambleV { signature: Seq::new(65, |i: int| 0u8), ..m }
}

/// The canonical signing digest of a preamble and a message body: the
/// SHA-512/256 hash of the blanked preamble's encoding followed by the body.
pub open spec fn spec_sign_digest(m: PreambleV, msg: Seq<u8>) -> Seq<u8> {
    sha512_256_of(<Preamble as StacksMessageCodec>::spec_ser(spec_blanked(m)) + msg)
}

impl Preamble {
    /// Well-formedness of the preamble value itself.
    pub open spec fn wf(&self) -> bool {
        <Preamble as StacksMessageCodec>::spec_wf(self.deep_view())
    }

    /// Make a preamble with an empty signature and sequence number zero.
    pub fn new(
        peer_version: u32,
        network_id: u32,
        block_height: u64,
        burn_block_hash: &BurnchainHeaderHash,
        stable_block_height: u64,
        stable_burn_block_hash: &BurnchainHeaderHash,
        payload_len: u32,
    ) -> (r: Preamble)
        ensures
            r.deep_view() == (PreambleV {
                peer_version,
                network_id,
                seq: 0,
                burn_block_height: block_height,
                burn_block_hash: burn_block_hash.0@,
                burn_stable_block_height: stable_block_height,
                burn_stable_block_hash: stable_burn_block_hash.0@,
                additional_data: 0,
                signature: Seq::new(65, |i: int| 0u8),
                payload_len,
            }),
    {
        let sig = MessageSignature::zeroed();
        let r = Preamble {
            peer_version,
            network_id,
            seq: 0,
            burn_block_height: block_height,
            burn_block_hash: BurnchainHeaderHash(crate::codec::copy_bytes(&burn_block_hash.0)),
            burn_stable_block_height: stable_block_height,
            burn_stable_block_hash: BurnchainHeaderHash(
                crate::codec::copy_bytes(&stable_burn_block_hash.0),
            ),
            additional_data: 0,
            signature: sig,
            payload_len,
        };
        assert(r.deep_view() =~= (PreambleV {
            peer_version,
            network_id,
            seq: 0,
            burn_block_height: block_height,
            burn_block_hash: burn_block_hash.0@,
            burn_stable_block_height: stable_block_height,
            burn_stable_block_hash: stable_burn_block_hash.0@,
            additional_data: 0,
            signature: Seq::new(65, |i: int| 0u8),
            payload_len,
        }));
        r
    }

    /// Serialize this preamble with its signature blanked: the canonical
    /// pre-image prefix for signing and verification.
    fn serialize_blanked(&self) -> (r: Vec<u8>)
        requires
            <Preamble as StacksMessageCodec>::spec_wf(spec_blanked(self.deep_view())),
        ensures
            r@ == <Preamble as StacksMessageCodec>::spec_ser(spec_blanked(self.deep_view())),
    {
        let shadow = Preamble {
            peer_version: self.peer_version,
            network_id: self.network_id,
            seq: self.seq,
            burn_block_height: self.burn_block_height,
            burn_block_hash: BurnchainHeaderHash(crate::codec::copy_bytes(&self.burn_block_hash.0)),
            burn_stable_block_height: self.burn_stable_block_height,
            burn_stable_block_hash: BurnchainHeaderHash(
                crate::codec::copy_bytes(&self.burn_stable_block_hash.0),
            ),
            additional_data: self.additional_data,
            signature: MessageSignature::zeroed(),
            payload_len: self.payload_len,
        };
        assert(shadow.deep_view() =~= spec_blanked(self.deep_view()));
        let mut out: Vec<u8> = Vec::new();
        shadow.consensus_serialize(&mut out);
        assert(out@ =~= <Preamble as StacksMessageCodec>::spec_ser(spec_blanked(self.deep_view())));
        out
    }

    /// Compute the canonical signing digest over this preamble (signature
    /// blanked) and the given message body bytes.
    fn sign_digest(&self, message_bits: &Vec<u8>) -> (r: Vec<u8>)
        requires
            <Preamble as StacksMessageCodec>::spec_wf(spec_blanked(self.deep_view())),
            message_bits@.len() + 165 <= usize::MAX,
        ensures
            r@ == spec_sign_digest(self.deep_view(), message_bits@),
            r@.len() == 32,
    {
        let mut preimage = self.serialize_blanked();
        crate::codec::write_raw_bytes(&mut preimage, message_bits);
        sha512_256(&preimage)
    }

    /// Sign the given serialized message body (relayers, then payload): store
    /// into the preamble the recoverable signature over the canonical digest.
    /// The digest is computed with the signature field blanked, so the stored
    /// signature does not feed back into it.
    pub fn sign(&mut self, message_bits: &Vec<u8>, privkey: &Secp256k1PrivateKey) -> (r: Result<
        (),
        NetError,
    >)
        requires
            old(self).wf(),
            privkey.wf(),
            message_bits@.len() + 165 <= usize::MAX,
        ensures
            r == Ok::<(), NetError>(()),
            final(self).deep_view() == (PreambleV {
                signature: secp_sign(
                    spec_sign_digest(old(self).deep_view(), message_bits@),
                    privkey.bytes@,
                ),
                ..old(self).deep_view()
            }),
            final(self).wf(),
            secp_verify(
                spec_sign_digest(old(self).deep_view(), message_bits@),
                final(self).deep_view().signature,
                secp_pubkey_of(privkey.bytes@),
            ),
            spec_sign_digest(final(self).deep_view(), message_bits@) == spec_sign_digest(
                old(self).deep_view(),
                message_bits@,
            ),
    {
        let digest = self.sign_digest(message_bits);
        let sig = secp_sign_recoverable(&digest, &privkey.bytes);
        self.signature = MessageSignature(sig);
        assert(final(self).deep_view() =~= (PreambleV {
            signature: secp_sign(
                spec_sign_digest(old(self).deep_view(), message_bits@),
                privkey.bytes@,
            ),
            ..old(self).deep_view()
        }));
        assert(spec_blanked(final(self).deep_view()) =~= spec_blanked(old(self).deep_view()));
        Ok(())
    }

    /// Verify this preamble's stored signature over the given serialized
    /// message body against a public key.  Succeeds exactly when the
    /// recoverable signature is valid for the canonical digest under that
    /// key; the preamble itself is left untouched (the blanked form is built
    /// on a shadow copy).
    pub fn verify(&self, message_bits: &Vec<u8>, pubkey: &Secp256k1PublicKey) -> (r: Result<
        (),
        NetError,
    >)
        requires
            self.wf(),
            pubkey.wf(),
            message_bits@.len() + 165 <= usize::MAX,
        ensures
            r is Ok <==> secp_verify(
                spec_sign_digest(self.deep_view(), message_bits@),
                self.deep_view().signature,
                pubkey.bytes@,
            ),
            r is Err ==> r == Err::<(), NetError>(NetError::VerifyingError),
            r is Ok ==> r == Ok::<(), NetError>(()),
    {
        let digest = self.sign_digest(message_bits);
        if secp_verify_recoverable(&digest, &self.signature.0, &pubkey.bytes) {
            Ok(())
        } else {
            Err(NetError::VerifyingError)
        }
    }
}

} // verus!

verus! {

impl Preamble {
    /// A field-for-field copy of this preamble.
    pub fn duplicate(&self) -> (r: Preamble)
        ensures
            r.deep_view() == self.deep_view(),
    {
        let r = Preamble {
            peer_version: self.peer_version,
            network_id: self.network_id,
            seq: self.seq,
            burn_block_height: self.burn_block_height,
            burn_block_hash: BurnchainHeaderHash(crate::codec::copy_bytes(&self.burn_block_hash.0)),
            burn_stable_block_height: self.burn_stable_block_height,
            burn_stable_block_hash: BurnchainHeaderHash(
                crate::codec::copy_bytes(&self.burn_stable_block_hash.0),
            ),
            additional_data: self.additional_data,
            signature: MessageSignature(crate::codec::copy_bytes(&self.signature.0)),
            payload_len: self.payload_len,
        };
        assert(r.deep_view() =~= self.deep_view());
        r
    }
}

} // verus!

verus! {

/// Signature blanking is a fixed point: the canonical signing digest does
/// not depend on what the signature field holds, so the digest recomputed
/// after a signature is stored equals the digest that was signed.
pub proof fn lemma_sign_digest_ignores_signature(m: PreambleV, sig: Seq<u8>, msg: Seq<u8>)
    ensures
        spec_sign_digest(PreambleV { signature: sig, ..m }, msg) == spec_sign_digest(m, msg),
{
    assert(spec_blanked(PreambleV { signature: sig, ..m }) =~= spec_blanked(m));
}

} // verus!

verus! {

/// Truncation of a preamble is detected: any strict prefix of an encoded
/// preamble fails to parse with an underflow.
pub proof fn lemma_preamble_truncation(m: PreambleV, k: int)
    requires
        <Preamble as StacksMessageCodec>::spec_wf(m),
        0 <= k < <Preamble as StacksMessageCodec>::spec_ser(m).len(),
    ensures
        <Preamble as StacksMessageCodec>::spec_parse(
            <Preamble as StacksMessageCodec>::spec_ser(m).take(k),
        ) == Err::<(PreambleV, int), _>(CodecError::Underflow),
{
    assert(<Preamble as StacksMessageCodec>::spec_ser(m).len() == 165);
}

} // verus!
