//! The message envelope: a preamble, a bounded relayer chain, and a typed
//! payload, together with canonical signing, relaying, and verification and
//! the protocol-family entry points that frame messages on the wire.
use vstd::prelude::*;

use crate::codec::{
    copy_bytes, lemma_parse_ser_vec_at_most, lemma_parse_vec_at_most_sound, read_next_at_most,
    read_raw_bytes, spec_parse_vec_at_most, spec_ser_vec, spec_wf_elems, write_next_vec,
    CodecError, NetError, StacksMessageCodec,
};
use crate::crypto::{
    secp_pubkey_of, secp_sign, secp_verify, Secp256k1PrivateKey, Secp256k1PublicKey,
};
use crate::neighbor::{NeighborAddress, NeighborAddressV, RelayData, RelayDataV};
use crate::message_type::{spec_wf_message_type, StacksMessageType, StacksMessageTypeV};
use crate::preamble::{spec_sign_digest, Preamble, PreambleV};
use crate::types::{bytes_eq, BurnchainHeaderHash, Hash160, MessageSignature, PeerAddress,
    StacksPublicKeyBuffer};
use crate::{MAX_MESSAGE_LEN, MAX_RELAYERS_LEN, PREAMBLE_ENCODED_SIZE};

verus! {

/// The burnchain view a message is built under: the tip and the stable tip.
#[derive(Clone, Debug, PartialEq, Eq)]
pub struct BurnchainView {
    pub burn_block_height: u64,
    pub burn_block_hash: BurnchainHeaderHash,
    pub burn_stable_block_height: u64,
    pub burn_stable_block_hash: BurnchainHeaderHash,
}

/// How a peer is keyed in the neighbor tables: protocol identity plus address.
#[derive(Clone, Debug, PartialEq, Eq)]
pub struct NeighborKey {
    pub peer_version: u32,
    pub network_id: u32,
    pub addrbytes: PeerAddress,
    pub port: u16,
}

/// The model of `StacksMessage`: every field as a plain value.
#[verifier::ext_equal]
pub struct StacksMessageV {
    pub preamble: PreambleV,
    pub relayers: Seq<RelayDataV>,
    pub payload: StacksMessageTypeV,
}

/// A full message envelope: the preamble, the chain of relayers that have
/// forwarded it, and the typed payload.
#[derive(Clone, Debug, PartialEq, Eq)]
pub struct StacksMessage {
    pub preamble: Preamble,
    pub relayers: Vec<RelayData>,
    pub payload: StacksMessageType,
}

impl DeepView for StacksMessage {
    type V = StacksMessageV;

    open spec fn deep_view(&self) -> StacksMessageV {
        StacksMessageV {
            preamble: self.preamble.deep_view(),
            relayers: self.relayers.deep_view(),
            payload: self.payload.deep_view(),
        }
    }
}

impl StacksMessageCodec for StacksMessage {
    open spec fn spec_wf(m: StacksMessageV) -> bool {
        <Preamble as StacksMessageCodec>::spec_wf(m.preamble) && m.preamble.payload_len <= MAX_MESSAGE_LEN - PREAMBLE_ENCODED_SIZE && m.relayers.len() <= MAX_RELAYERS_LEN && spec_wf_elems::<RelayData>(m.relayers) && spec_wf_message_type(m.payload)
    }

    open spec fn spec_ser(m: StacksMessageV) -> Seq<u8> {
        <Preamble as StacksMessageCodec>::spec_ser(m.preamble)
            + spec_ser_vec::<RelayData>(m.relayers)
            + <StacksMessageType as StacksMessageCodec>::spec_ser(m.payload)
    }

    open spec fn spec_parse(b: Seq<u8>) -> Result<(StacksMessageV, int), CodecError> {
        match <Preamble as StacksMessageCodec>::spec_parse(b) {
            Err(e) => Err(e),
            Ok((preamble, n0)) => {
                if preamble.payload_len > MAX_MESSAGE_LEN - PREAMBLE_ENCODED_SIZE {
                    Err(CodecError::Deserialize)
                } else {
                    match spec_parse_vec_at_most::<RelayData>(b.skip(n0), MAX_RELAYERS_LEN as int) {
                        Err(e) => Err(e),
                        Ok((relayers, n1)) => {
                            match <StacksMessageType as StacksMessageCodec>::spec_parse(b.skip(n0 + n1)) {
                                Err(e) => Err(e),
                                Ok((payload, n2)) => {
                                    Ok((StacksMessageV { preamble, relayers, payload }, n0 + n1 + n2))
                                },
                            }
                        },
                    }
                }
            },
        }
    }

    #[verifier::rlimit(100)]
    #[verifier::spinoff_prover]
    proof fn lemma_parse_sound(b: Seq<u8>) {
        <Preamble as StacksMessageCodec>::lemma_parse_sound(b);
        match <Preamble as StacksMessageCodec>::spec_parse(b) {
            Err(_) => {},
            Ok((preamble, n0)) => {
                if !(preamble.payload_len > MAX_MESSAGE_LEN - PREAMBLE_ENCODED_SIZE) {
                    lemma_parse_vec_at_most_sound::<RelayData>(b.skip(n0), MAX_RELAYERS_LEN as int);
                    match spec_parse_vec_at_most::<RelayData>(b.skip(n0), MAX_RELAYERS_LEN as int) {
                        Err(_) => {},
                        Ok((relayers, n1)) => {
                            <StacksMessageType as StacksMessageCodec>::lemma_parse_sound(b.skip(n0 + n1));
                            match <StacksMessageType as StacksMessageCodec>::spec_parse(b.skip(n0 + n1)) {
                                Err(_) => {},
                                Ok((payload, n2)) => {
                                    assert(b.skip(n0).subrange(0, n1) =~= b.subrange(n0, n0 + n1));
                                    assert(b.skip(n0 + n1).subrange(0, n2) =~= b.subrange(n0 + n1, n0 + n1 + n2));
                                    let m = StacksMessageV { preamble, relayers, payload };
                                    lemma_sound_envelope_assemble(b, n0, n1, n2, m);
                                },
                            }
                        },
                    }
                }
            },
        }
    }

    #[verifier::spinoff_prover]
    proof fn lemma_parse_ser(m: StacksMessageV, rest: Seq<u8>) {
        let p = <Preamble as StacksMessageCodec>::spec_ser(m.preamble);
        let v = spec_ser_vec::<RelayData>(m.relayers);
        let t = <StacksMessageType as StacksMessageCodec>::spec_ser(m.payload);
        let b = Self::spec_ser(m) + rest;
        crate::codec::lemma_concat_assoc(p + v, t, rest);
        crate::codec::lemma_concat_assoc(p, v, t + rest);
        assert(b == p + (v + (t + rest)));
        <Preamble as StacksMessageCodec>::lemma_parse_ser(m.preamble, v + (t + rest));
        crate::codec::lemma_concat_skip(p, v + (t + rest));
        assert(b.skip(p.len() as int) == v + (t + rest));
        lemma_parse_ser_vec_at_most::<RelayData>(m.relayers, t + rest, MAX_RELAYERS_LEN as int);
        crate::codec::lemma_concat_skip(v, t + rest);
        crate::codec::lemma_skip_skip(b, p.len() as int, v.len() as int);
        assert(b.skip(p.len() as int + v.len() as int) == t + rest);
        <StacksMessageType as StacksMessageCodec>::lemma_parse_ser(m.payload, rest);
        match Self::spec_parse(b) {
            Ok((m2, n)) => {
                assert(m2 =~= m);
            },
            Err(_) => {
                assert(false);
            },
        }
    }

    fn consensus_serialize(&self, out: &mut Vec<u8>) {
        let ghost m = self.deep_view();
        self.preamble.consensus_serialize(out);
        write_next_vec::<RelayData>(out, &self.relayers);
        self.payload.consensus_serialize(out);
        assert(out@ =~= old(out)@ + Self::spec_ser(m));
    }

    fn consensus_deserialize(buf: &Vec<u8>, pos: usize, end: usize) -> (r: Result<
        (StacksMessage, usize),
        CodecError,
    >) {
        let ghost w = buf@.subrange(pos as int, end as int);
        let (preamble, c0) = match Preamble::consensus_deserialize(buf, pos, end) {
            Ok(x) => x,
            Err(e) => {
                return Err(e);
            },
        };
        if preamble.payload_len > MAX_MESSAGE_LEN - PREAMBLE_ENCODED_SIZE {
            return Err(CodecError::Deserialize);
        }
        assert(buf@.subrange(c0 as int, end as int) =~= w.skip(c0 - pos));
        let (relayers, c1) = match read_next_at_most::<RelayData>(buf, c0, end, MAX_RELAYERS_LEN) {
            Ok(x) => x,
            Err(e) => {
                return Err(e);
            },
        };
        assert(buf@.subrange(c1 as int, end as int) =~= w.skip(c1 - pos));
        let (payload, c2) = match StacksMessageType::consensus_deserialize(buf, c1, end) {
            Ok(x) => x,
            Err(e) => {
                return Err(e);
            },
        };
        let v = StacksMessage { preamble, relayers, payload };
        assert(Self::spec_parse(w) == Ok::<_, CodecError>((v.deep_view(), c2 - pos))) by {
            assert(v.deep_view() =~= (match Self::spec_parse(w) {
                Ok((m, _)) => m,
                Err(_) => v.deep_view(),
            }));
        }
        Ok((v, c2))
    }
}

/// The serialized body of a message: the relayer chain, then the payload.
pub open spec fn spec_message_bits(m: StacksMessageV) -> Seq<u8> {
    spec_ser_vec::<RelayData>(m.relayers) + <StacksMessageType as StacksMessageCodec>::spec_ser(
        m.payload,
    )
}

/// The canonical digest of a message: the signing digest of its preamble
/// over its serialized body.
pub open spec fn spec_message_digest(m: StacksMessageV) -> Seq<u8> {
    spec_sign_digest(m.preamble, spec_message_bits(m))
}

/// Whether a message's stored signature verifies under a public key.
pub open spec fn spec_message_verifies(m: StacksMessageV, pk: Seq<u8>) -> bool {
    secp_verify(spec_message_digest(m), m.preamble.signature, pk)
}

/// The message that signing produces: the body length is measured, the
/// sequence number left as it stands, and the signature over the canonical
/// digest stored.
pub open spec fn spec_do_sign(m: StacksMessageV, sk: Seq<u8>) -> StacksMessageV {
    let bits = spec_message_bits(m);
    let p1 = PreambleV { payload_len: bits.len() as u32, ..m.preamble };
    let sig = secp_sign(spec_sign_digest(p1, bits), sk);
    StacksMessageV { preamble: PreambleV { signature: sig, ..p1 }, ..m }
}

/// Whether the relayer chain already carries an entry with the given public
/// key fingerprint.
pub open spec fn spec_has_relayer(relayers: Seq<RelayDataV>, pkh: Seq<u8>) -> bool {
    exists|i: int| 0 <= i < relayers.len() && relayers[i].peer.public_key_hash == pkh
}

impl StacksMessage {
    /// Well-formedness of the whole envelope.
    pub open spec fn wf(&self) -> bool {
        <StacksMessage as StacksMessageCodec>::spec_wf(self.deep_view())
    }

    /// Make an unsigned message under the given chain tips: empty relayer
    /// chain, zero sequence number, empty signature, zero body length.
    pub fn new(
        peer_version: u32,
        network_id: u32,
        block_height: u64,
        burn_header_hash: &BurnchainHeaderHash,
        stable_block_height: u64,
        stable_burn_header_hash: &BurnchainHeaderHash,
        message: StacksMessageType,
    ) -> (r: StacksMessage)
        ensures
            r.deep_view() == (StacksMessageV {
                preamble: PreambleV {
                    peer_version,
                    network_id,
                    seq: 0,
                    burn_block_height: block_height,
                    burn_block_hash: burn_header_hash.0@,
                    burn_stable_block_height: stable_block_height,
                    burn_stable_block_hash: stable_burn_header_hash.0@,
                    additional_data: 0,
                    signature: Seq::new(65, |i: int| 0u8),
                    payload_len: 0,
                },
                relayers: Seq::empty(),
                payload: message.deep_view(),
            }),
    {
        let preamble = Preamble::new(
            peer_version,
            network_id,
            block_height,
            burn_header_hash,
            stable_block_height,
            stable_burn_header_hash,
            0,
        );
        let relayers: Vec<RelayData> = Vec::new();
        assert(relayers.deep_view() =~= Seq::<RelayDataV>::empty());
        let r = StacksMessage { preamble, relayers, payload: message };
        assert(r.deep_view() =~= (StacksMessageV {
            preamble: PreambleV {
                peer_version,
                network_id,
                seq: 0,
                burn_block_height: block_height,
                burn_block_hash: burn_header_hash.0@,
                burn_stable_block_height: stable_block_height,
                burn_stable_block_hash: stable_burn_header_hash.0@,
                additional_data: 0,
                signature: Seq::new(65, |i: int| 0u8),
                payload_len: 0,
            },
            relayers: Seq::empty(),
            payload: r.payload.deep_view(),
        }));
        r
    }

    /// Make an unsigned message under a burnchain view snapshot.
    pub fn from_chain_view(
        peer_version: u32,
        network_id: u32,
        chain_view: &BurnchainView,
        message: StacksMessageType,
    ) -> (r: StacksMessage)
        ensures
            r.deep_view() == (StacksMessageV {
                preamble: PreambleV {
                    peer_version,
                    network_id,
                    seq: 0,
                    burn_block_height: chain_view.burn_block_height,
                    burn_block_hash: chain_view.burn_block_hash.0@,
                    burn_stable_block_height: chain_view.burn_stable_block_height,
                    burn_stable_block_hash: chain_view.burn_stable_block_hash.0@,
                    additional_data: 0,
                    signature: Seq::new(65, |i: int| 0u8),
                    payload_len: 0,
                },
                relayers: Seq::empty(),
                payload: message.deep_view(),
            }),
    {
        StacksMessage::new(
            peer_version,
            network_id,
            chain_view.burn_block_height,
            &chain_view.burn_block_hash,
            chain_view.burn_stable_block_height,
            &chain_view.burn_stable_block_hash,
            message,
        )
    }

    /// The key this message's sender would have in the neighbor tables, at
    /// the given address.
    pub fn to_neighbor_key(&self, addrbytes: &PeerAddress, port: u16) -> (r: NeighborKey)
        ensures
            r.peer_version == self.preamble.peer_version,
            r.network_id == self.preamble.network_id,
            r.addrbytes.0@ == addrbytes.0@,
            r.port == port,
    {
        NeighborKey {
            peer_version: self.preamble.peer_version,
            network_id: self.preamble.network_id,
            addrbytes: PeerAddress(copy_bytes(&addrbytes.0)),
            port,
        }
    }

    /// The sequence number a reply correlates on.
    pub fn request_id(&self) -> (r: u32)
        ensures
            r == self.preamble.seq,
    {
        self.preamble.seq
    }

    /// The short stable name of this message's payload.
    pub fn get_message_name(&self) -> (r: &'static str)
        ensures
            r@ == crate::message_type::spec_get_message_name(self.payload.deep_view()),
    {
        self.payload.get_message_name()
    }

    /// Serialize the body (relayers, then payload), measure it into the
    /// preamble's body length, and sign the canonical digest.
    fn do_sign(&mut self, private_key: &Secp256k1PrivateKey) -> (r: Result<(), NetError>)
        requires
            old(self).preamble.deep_view().burn_block_hash.len() == 32,
            old(self).preamble.deep_view().burn_stable_block_hash.len() == 32,
            old(self).preamble.deep_view().signature.len() == 65,
            old(self).preamble.deep_view().burn_block_height > old(
                self,
            ).preamble.deep_view().burn_stable_block_height,
            old(self).relayers.deep_view().len() <= MAX_RELAYERS_LEN,
            spec_wf_elems::<RelayData>(old(self).relayers.deep_view()),
            spec_wf_message_type(old(self).payload.deep_view()),
            spec_message_bits(old(self).deep_view()).len() < MAX_MESSAGE_LEN
                - PREAMBLE_ENCODED_SIZE,
            private_key.wf(),
        ensures
            r == Ok::<(), NetError>(()),
            final(self).deep_view() == spec_do_sign(old(self).deep_view(), private_key.bytes@),
            spec_message_verifies(final(self).deep_view(), secp_pubkey_of(private_key.bytes@)),
            final(self).wf(),
    {
        let ghost m0 = self.deep_view();
        proof {
            crate::message_type::lemma_ser_message_type_len(m0.payload);
        }
        let mut message_bits: Vec<u8> = Vec::new();
        write_next_vec::<RelayData>(&mut message_bits, &self.relayers);
        self.payload.consensus_serialize(&mut message_bits);
        assert(message_bits@ == spec_message_bits(m0));
        let bits_len: u32 = message_bits.len() as u32;
        self.preamble.payload_len = bits_len;
        assert(self.preamble.deep_view() =~= (PreambleV {
            payload_len: spec_message_bits(m0).len() as u32,
            ..m0.preamble
        }));
        let res = self.preamble.sign(&message_bits, private_key);
        assert(self.deep_view() =~= spec_do_sign(m0, private_key.bytes@));
        res
    }

    /// Sign this message as its originator.  Fails exactly when the relayer
    /// chain is not empty; otherwise stores the given sequence number,
    /// measures the body, and signs it, after which the message verifies
    /// under the signer's public key.
    pub fn sign(&mut self, seq: u32, private_key: &Secp256k1PrivateKey) -> (r: Result<
        (),
        NetError,
    >)
        requires
            old(self).preamble.deep_view().burn_block_hash.len() == 32,
            old(self).preamble.deep_view().burn_stable_block_hash.len() == 32,
            old(self).preamble.deep_view().signature.len() == 65,
            old(self).preamble.deep_view().burn_block_height > old(
                self,
            ).preamble.deep_view().burn_stable_block_height,
            spec_wf_elems::<RelayData>(old(self).relayers.deep_view()),
            spec_wf_message_type(old(self).payload.deep_view()),
            spec_message_bits(old(self).deep_view()).len() < MAX_MESSAGE_LEN
                - PREAMBLE_ENCODED_SIZE,
            private_key.wf(),
        ensures
            old(self).relayers.deep_view().len() > 0 ==> r == Err::<(), NetError>(
                NetError::InvalidMessage,
            ) && *final(self) == *old(self),
            old(self).relayers.deep_view().len() == 0 ==> r == Ok::<(), NetError>(())
                && final(self).deep_view() == spec_do_sign(
                StacksMessageV {
                    preamble: PreambleV { seq, ..old(self).deep_view().preamble },
                    ..old(self).deep_view()
                },
                private_key.bytes@,
            ) && spec_message_verifies(
                final(self).deep_view(),
                secp_pubkey_of(private_key.bytes@),
            ) && final(self).wf(),
    {
        if self.relayers.len() > 0 {
            return Err(NetError::InvalidMessage);
        }
        let ghost m0 = self.deep_view();
        self.preamble.seq = seq;
        assert(self.deep_view() =~= (StacksMessageV {
            preamble: PreambleV { seq, ..m0.preamble },
            ..m0
        }));
        assert(spec_message_bits(self.deep_view()) == spec_message_bits(m0));
        self.do_sign(private_key)
    }

    /// Sign this message as a relayer: append ourselves to the relayer chain
    /// with the sequence number the message bore, store our own sequence
    /// number, and re-sign.  Fails exactly when the chain is already at
    /// `MAX_RELAYERS_LEN` or our public key fingerprint is already on it.
    pub fn sign_relay(
        &mut self,
        private_key: &Secp256k1PrivateKey,
        our_seq: u32,
        our_addr: &NeighborAddress,
    ) -> (r: Result<(), NetError>)
        requires
            old(self).preamble.deep_view().burn_block_hash.len() == 32,
            old(self).preamble.deep_view().burn_stable_block_hash.len() == 32,
            old(self).preamble.deep_view().signature.len() == 65,
            old(self).preamble.deep_view().burn_block_height > old(
                self,
            ).preamble.deep_view().burn_stable_block_height,
            old(self).relayers.deep_view().len() <= MAX_RELAYERS_LEN,
            spec_wf_elems::<RelayData>(old(self).relayers.deep_view()),
            <NeighborAddress as StacksMessageCodec>::spec_wf(our_addr.deep_view()),
            spec_wf_message_type(old(self).payload.deep_view()),
            spec_message_bits(old(self).deep_view()).len() + 42 < MAX_MESSAGE_LEN
                - PREAMBLE_ENCODED_SIZE,
            private_key.wf(),
        ensures
            old(self).relayers.deep_view().len() >= MAX_RELAYERS_LEN ==> r == Err::<(), NetError>(
                NetError::InvalidMessage,
            ) && *final(self) == *old(self),
            old(self).relayers.deep_view().len() < MAX_RELAYERS_LEN && spec_has_relayer(
                old(self).relayers.deep_view(),
                our_addr.deep_view().public_key_hash,
            ) ==> r == Err::<(), NetError>(NetError::InvalidMessage) && *final(self) == *old(self),
            old(self).relayers.deep_view().len() < MAX_RELAYERS_LEN && !spec_has_relayer(
                old(self).relayers.deep_view(),
                our_addr.deep_view().public_key_hash,
            ) ==> r == Ok::<(), NetError>(()) && final(self).deep_view() == spec_do_sign(
                StacksMessageV {
                    preamble: PreambleV { seq: our_seq, ..old(self).deep_view().preamble },
                    relayers: old(self).deep_view().relayers.push(
                        RelayDataV {
                            peer: our_addr.deep_view(),
                            seq: old(self).deep_view().preamble.seq,
                        },
                    ),
                    ..old(self).deep_view()
                },
                private_key.bytes@,
            ) && spec_message_verifies(
                final(self).deep_view(),
                secp_pubkey_of(private_key.bytes@),
            ),
    {
        let ghost m0 = self.deep_view();
        if self.relayers.len() >= 16 {
            return Err(NetError::InvalidMessage);
        }
        let mut i: usize = 0;
        while i < self.relayers.len()
            invariant
                i <= self.relayers@.len(),
                self.relayers.deep_view() == m0.relayers,
                forall|j: int|
                    0 <= j < i ==> m0.relayers[j].peer.public_key_hash
                        != our_addr.deep_view().public_key_hash,
            decreases self.relayers@.len() - i,
        {
            assert(m0.relayers[i as int].peer.public_key_hash
                == self.relayers@[i as int].peer.public_key_hash.0@);
            if bytes_eq(&self.relayers[i].peer.public_key_hash.0, &our_addr.public_key_hash.0) {
                assert(spec_has_relayer(m0.relayers, our_addr.deep_view().public_key_hash));
                return Err(NetError::InvalidMessage);
            }
            i = i + 1;
        }
        assert(!spec_has_relayer(m0.relayers, our_addr.deep_view().public_key_hash));
        let our_relay = RelayData {
            peer: NeighborAddress {
                addrbytes: PeerAddress(copy_bytes(&our_addr.addrbytes.0)),
                port: our_addr.port,
                public_key_hash: Hash160(copy_bytes(&our_addr.public_key_hash.0)),
            },
            seq: self.preamble.seq,
        };
        assert(our_relay.deep_view() =~= (RelayDataV {
            peer: our_addr.deep_view(),
            seq: m0.preamble.seq,
        }));
        let ghost relay_model = our_relay.deep_view();
        let ghost r0 = self.relayers.deep_view();
        self.relayers.push(our_relay);
        assert(self.relayers.deep_view() =~= r0.push(relay_model));
        self.preamble.seq = our_seq;
        let ghost m1 = StacksMessageV {
            preamble: PreambleV { seq: our_seq, ..m0.preamble },
            relayers: m0.relayers.push(relay_model),
            ..m0
        };
        assert(self.deep_view() =~= m1);
        proof {
            lemma_message_bits_grow(m0, m1, relay_model);
        }
        self.do_sign(private_key)
    }

    /// Read a message body (relayer chain, then payload) from a byte window.
    pub fn deserialize_body(buf: &Vec<u8>, pos: usize, end: usize) -> (r: Result<
        ((Vec<RelayData>, StacksMessageType), usize),
        NetError,
    >)
        requires
            pos <= end <= buf@.len(),
        ensures
            match spec_parse_vec_at_most::<RelayData>(
                buf@.subrange(pos as int, end as int),
                MAX_RELAYERS_LEN as int,
            ) {
                Err(e0) => r == Err::<((Vec<RelayData>, StacksMessageType), usize), NetError>(
                    NetError::from_codec_spec(e0),
                ),
                Ok((ms, k)) => match crate::message_type::spec_parse_message_type(
                    buf@.subrange(pos + k, end as int),
                ) {
                    Err(e0) => r == Err::<((Vec<RelayData>, StacksMessageType), usize), NetError>(
                        NetError::from_codec_spec(e0),
                    ),
                    Ok((pm, n2)) => r matches Ok(((relayers, payload), n))
                        && relayers.deep_view() == ms && payload.deep_view() == pm && n == pos + k
                        + n2 && pos <= n <= end,
                },
            },
    {
        let (relayers, c1) = match read_next_at_most::<RelayData>(buf, pos, end, 16) {
            Ok(x) => x,
            Err(e) => {
                return Err(NetError::from_codec(e));
            },
        };
        let (payload, c2) = match StacksMessageType::consensus_deserialize(buf, c1, end) {
            Ok(x) => x,
            Err(e) => {
                return Err(NetError::from_codec(e));
            },
        };
        assert(buf@.subrange(c1 as int, end as int) == buf@.subrange(pos + (c1 - pos), end as int));
        Ok(((relayers, payload), c2))
    }

    /// Verify this message's signature, taking the buffer as a compressed
    /// secp256k1 public key.  Fails when the buffer is not a valid point
    /// (a deserialize error) or when the signature does not verify under it
    /// (a verifying error).
    pub fn verify_secp256k1(&self, public_key: &StacksPublicKeyBuffer) -> (r: Result<
        (),
        NetError,
    >)
        requires
            self.wf(),
            spec_message_bits(self.deep_view()).len() + PREAMBLE_ENCODED_SIZE <= usize::MAX,
        ensures
            r is Ok <==> crate::crypto::is_secp_point(public_key.deep_view())
                && spec_message_verifies(self.deep_view(), public_key.deep_view()),
            r is Ok ==> r == Ok::<(), NetError>(()),
            !crate::crypto::is_secp_point(public_key.deep_view()) ==> r == Err::<(), NetError>(
                NetError::Deserialize,
            ),
            crate::crypto::is_secp_point(public_key.deep_view()) && !spec_message_verifies(
                self.deep_view(),
                public_key.deep_view(),
            ) ==> r == Err::<(), NetError>(NetError::VerifyingError),
    {
        let secp256k1_pubkey = match public_key.to_public_key() {
            Ok(k) => k,
            Err(_) => {
                return Err(NetError::Deserialize);
            },
        };
        proof {
            crate::message_type::lemma_ser_message_type_len(self.deep_view().payload);
        }
        let mut message_bits: Vec<u8> = Vec::new();
        write_next_vec::<RelayData>(&mut message_bits, &self.relayers);
        self.payload.consensus_serialize(&mut message_bits);
        assert(message_bits@ == spec_message_bits(self.deep_view()));
        assert(secp256k1_pubkey.bytes@ == public_key.deep_view());
        let res = self.preamble.verify(&message_bits, &secp256k1_pubkey);
        assert(spec_sign_digest(self.preamble.deep_view(), message_bits@) == spec_message_digest(
            self.deep_view(),
        ));
        res
    }
}

/// Appending a relayer extends the serialized body by one fixed-size record:
/// the body stays under any budget the caller has checked with room for it.
proof fn lemma_message_bits_grow(m0: StacksMessageV, m1: StacksMessageV, relay: RelayDataV)
    requires
        m1.relayers == m0.relayers.push(relay),
        m1.payload == m0.payload,
        m0.relayers.len() < MAX_RELAYERS_LEN,
        spec_wf_elems::<RelayData>(m0.relayers),
        <RelayData as StacksMessageCodec>::spec_wf(relay),
    ensures
        spec_message_bits(m1).len() == spec_message_bits(m0).len() + 42,
        spec_wf_elems::<RelayData>(m1.relayers),
{
    assert(<RelayData as StacksMessageCodec>::spec_ser(relay).len() == 42);
    crate::codec::lemma_ser_elems_push::<RelayData>(m0.relayers, relay);
    assert(forall|i: int|
        0 <= i < m1.relayers.len() ==> <RelayData as StacksMessageCodec>::spec_wf(
            #[trigger] m1.relayers[i],
        ));
}

/// Assembling an envelope's three serialized pieces from adjacent windows of
/// a byte string yields the window they jointly cover.
proof fn lemma_sound_envelope_assemble(b: Seq<u8>, n0: int, n1: int, n2: int, m: StacksMessageV)
    requires
        0 <= n0,
        0 <= n1,
        0 <= n2,
        n0 + n1 + n2 <= b.len(),
        <Preamble as StacksMessageCodec>::spec_ser(m.preamble) == b.subrange(0, n0),
        spec_ser_vec::<RelayData>(m.relayers) == b.subrange(n0, n0 + n1),
        <StacksMessageType as StacksMessageCodec>::spec_ser(m.payload) == b.subrange(
            n0 + n1,
            n0 + n1 + n2,
        ),
    ensures
        <StacksMessage as StacksMessageCodec>::spec_ser(m) == b.subrange(0, n0 + n1 + n2),
{
    assert((b.subrange(0, n0) + b.subrange(n0, n0 + n1)) + b.subrange(n0 + n1, n0 + n1 + n2)
        =~= b.subrange(0, n0 + n1 + n2));
}

} // verus!

verus! {

/// The protocol-family adapter for the peer-to-peer wire format: fixed-size
/// preambles, framed bodies whose length the preamble always declares, and
/// no streaming.
pub struct StacksP2P {}

impl StacksP2P {
    /// Make the adapter; it holds no state.
    pub fn new() -> StacksP2P {
        StacksP2P {  }
    }

    /// How many bytes a preamble occupies: always its fixed encoded size.
    pub fn preamble_size_hint(&self) -> (r: usize)
        ensures
            r == PREAMBLE_ENCODED_SIZE,
    {
        165
    }

    /// The body length of a framed message, which the preamble always
    /// declares: messages are never streamed.
    pub fn payload_len(&self, preamble: &Preamble) -> (r: Option<usize>)
        ensures
            r == Some(preamble.payload_len as usize),
    {
        Some(preamble.payload_len as usize)
    }

    /// Read a preamble from the head of a buffer.  Underflows when fewer
    /// than `PREAMBLE_ENCODED_SIZE` bytes are present; otherwise consumes
    /// exactly that many.
    pub fn read_preamble(&self, buf: &Vec<u8>) -> (r: Result<(Preamble, usize), NetError>)
        ensures
            buf@.len() < PREAMBLE_ENCODED_SIZE ==> r == Err::<(Preamble, usize), NetError>(
                NetError::Underflow,
            ),
            buf@.len() >= PREAMBLE_ENCODED_SIZE ==> match r {
                Ok((p, n)) => n == PREAMBLE_ENCODED_SIZE
                    && <Preamble as StacksMessageCodec>::spec_parse(
                    buf@.subrange(0, PREAMBLE_ENCODED_SIZE as int),
                ) == Ok::<_, CodecError>((p.deep_view(), PREAMBLE_ENCODED_SIZE as int)),
                Err(e) => exists|e0: CodecError|
                    <Preamble as StacksMessageCodec>::spec_parse(
                        buf@.subrange(0, PREAMBLE_ENCODED_SIZE as int),
                    ) == Err::<(PreambleV, int), CodecError>(e0) && e == NetError::from_codec_spec(
                        e0,
                    ),
            },
    {
        if buf.len() < 165 {
            return Err(NetError::Underflow);
        }
        match Preamble::consensus_deserialize(buf, 0, 165) {
            Ok((p, n)) => {
                proof {
                    <Preamble as StacksMessageCodec>::lemma_parse_sound(buf@.subrange(0, 165));
                }
                Ok((p, n))
            },
            Err(e) => Err(NetError::from_codec(e)),
        }
    }

    /// Read a framed message body against its preamble.  Underflows when the
    /// buffer holds fewer than the declared `payload_len` bytes; otherwise
    /// the relayer chain and payload are decoded from exactly that window.
    pub fn read_payload(&self, preamble: &Preamble, buf: &Vec<u8>) -> (r: Result<
        (StacksMessage, usize),
        NetError,
    >)
        ensures
            buf@.len() < preamble.payload_len ==> r == Err::<(StacksMessage, usize), NetError>(
                NetError::Underflow,
            ),
            buf@.len() >= preamble.payload_len ==> match spec_parse_vec_at_most::<RelayData>(
                buf@.subrange(0, preamble.payload_len as int),
                MAX_RELAYERS_LEN as int,
            ) {
                Err(e0) => r == Err::<(StacksMessage, usize), NetError>(
                    NetError::from_codec_spec(e0),
                ),
                Ok((ms, k)) => match crate::message_type::spec_parse_message_type(
                    buf@.subrange(k, preamble.payload_len as int),
                ) {
                    Err(e0) => r == Err::<(StacksMessage, usize), NetError>(
                        NetError::from_codec_spec(e0),
                    ),
                    Ok((pm, n2)) => r matches Ok((msg, n)) && msg.deep_view() == (StacksMessageV {
                        preamble: preamble.deep_view(),
                        relayers: ms,
                        payload: pm,
                    }) && n == k + n2,
                },
            },
    {
        let payload_len = preamble.payload_len as usize;
        if buf.len() < payload_len {
            return Err(NetError::Underflow);
        }
        let ((relayers, payload), n) = match StacksMessage::deserialize_body(buf, 0, payload_len) {
            Ok(x) => x,
            Err(e) => {
                return Err(e);
            },
        };
        let message = StacksMessage { preamble: preamble.duplicate(), relayers, payload };
        assert(message.deep_view() =~= (StacksMessageV {
            preamble: preamble.deep_view(),
            relayers: message.relayers.deep_view(),
            payload: message.payload.deep_view(),
        }));
        Ok((message, n))
    }

    /// Verify a framed body's signature against its preamble: the canonical
    /// digest is computed over exactly the declared `payload_len` bytes.
    pub fn verify_payload_bytes(
        &self,
        key: &Secp256k1PublicKey,
        preamble: &Preamble,
        buf: &Vec<u8>,
    ) -> (r: Result<(), NetError>)
        requires
            <Preamble as StacksMessageCodec>::spec_wf(preamble.deep_view()),
            key.wf(),
            buf@.len() >= preamble.payload_len,
        ensures
            r is Ok <==> secp_verify(
                spec_sign_digest(
                    preamble.deep_view(),
                    buf@.subrange(0, preamble.payload_len as int),
                ),
                preamble.deep_view().signature,
                key.bytes@,
            ),
            r is Err ==> r == Err::<(), NetError>(NetError::VerifyingError),
    {
        let payload_len = preamble.payload_len as usize;
        let (window, _) = match read_raw_bytes(buf, 0, payload_len, payload_len) {
            Ok(x) => x,
            Err(_) => {
                proof {
                    assert(false);
                }
                return Err(NetError::Underflow);
            },
        };
        assert(window@ == buf@.subrange(0, preamble.payload_len as int));
        preamble.verify(&window, key)
    }

    /// Append a message's encoding to the output buffer.
    pub fn write_message(&self, out: &mut Vec<u8>, message: &StacksMessage) -> (r: Result<
        (),
        NetError,
    >)
        requires
            message.wf(),
            old(out)@.len() + <StacksMessage as StacksMessageCodec>::spec_ser(
                message.deep_view(),
            ).len() <= usize::MAX,
        ensures
            r == Ok::<(), NetError>(()),
            final(out)@ == old(out)@ + <StacksMessage as StacksMessageCodec>::spec_ser(
                message.deep_view(),
            ),
    {
        message.consensus_serialize(out);
        Ok(())
    }
}

} // verus!
