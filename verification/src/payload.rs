//! The message payload bodies: handshakes, neighbor queries, block and PoX
//! inventories, block pushes, transactions, pings, and NAT punches, together
//! with the opaque embedded objects (blocks, microblocks, transactions) that
//! outside codecs define.  Those are carried as length-prefixed byte strings
//! capped by their wire budgets; their internal structure is out of scope.
use vstd::prelude::*;

use crate::codec::{
    be_u32, lemma_parse_ser_vec_at_most, lemma_parse_ser_vec_exact, lemma_parse_vec_at_most_sound,
    lemma_parse_vec_exact_sound, read_next_at_most, read_next_exact, read_raw_bytes,
    spec_parse_raw, spec_parse_vec_at_most, spec_parse_vec_exact, spec_ser_vec, spec_wf_elems,
    write_next_vec, write_raw_bytes, CodecError, StacksMessageCodec,
};
use crate::crypto::random_u32;
use crate::types::{
    bytes_eq, BurnchainHeaderHash, ConsensusHash, PeerAddress, StacksBlockId,
    StacksPublicKeyBuffer, UrlString,
};
use crate::{BLOCKS_AVAILABLE_MAX_LEN, BLOCKS_PUSHED_MAX, GETPOXINV_MAX_BITLEN, MAX_BLOCK_LEN,
    MAX_MESSAGE_LEN};

verus! {

/// How many bytes a bit vector of `bitlen` bits occupies on the wire.
pub open spec fn spec_bitvec_len(bitlen: u16) -> u32 {
    ((bitlen / 8) + if bitlen % 8 > 0 {
        1u16
    } else {
        0u16
    }) as u32
}

/// Compute the byte length of a bit vector of `bitlen` bits.
pub fn bitvec_len(bitlen: u16) -> (r: u32)
    ensures
        r == spec_bitvec_len(bitlen),
{
    (bitlen / 8 + if bitlen % 8 > 0 {
        1
    } else {
        0
    }) as u32
}


/// An anchored Stacks block, as the bytes of its external consensus encoding.
/// It is carried opaquely: a 32-bit big-endian byte count, then the bytes,
/// capped at `MAX_BLOCK_LEN`.
#[derive(Clone, Debug, PartialEq, Eq)]
pub struct StacksBlock(pub Vec<u8>);

impl DeepView for StacksBlock {
    type V = Seq<u8>;

    open spec fn deep_view(&self) -> Seq<u8> {
        self.0@
    }
}

impl StacksMessageCodec for StacksBlock {
    open spec fn spec_wf(m: Seq<u8>) -> bool {
        m.len() <= MAX_BLOCK_LEN
    }

    open spec fn spec_ser(m: Seq<u8>) -> Seq<u8> {
        <u32 as StacksMessageCodec>::spec_ser(m.len() as u32) + m
    }

    open spec fn spec_parse(b: Seq<u8>) -> Result<(Seq<u8>, int), CodecError> {
        match <u32 as StacksMessageCodec>::spec_parse(b) {
            Err(e) => Err(e),
            Ok((len, n)) => {
                if len > MAX_BLOCK_LEN {
                    Err(CodecError::Deserialize)
                } else {
                    match spec_parse_raw(b.skip(n), len as int) {
                        Ok((m, k)) => Ok((m, n + k)),
                        Err(e) => Err(e),
                    }
                }
            },
        }
    }

    proof fn lemma_parse_sound(b: Seq<u8>) {
        if b.len() >= 4 {
            <u32 as StacksMessageCodec>::lemma_parse_sound(b);
            let len = be_u32(b);
            if len <= MAX_BLOCK_LEN && b.skip(4).len() >= len {
                let m = b.skip(4).take(len as int);
                assert(m.len() == len);
                assert(Self::spec_ser(m) =~= b.subrange(0, 4 + len));
            }
        }
    }

    proof fn lemma_parse_ser(m: Seq<u8>, rest: Seq<u8>) {
        let b = Self::spec_ser(m) + rest;
        <u32 as StacksMessageCodec>::lemma_parse_ser(m.len() as u32, m + rest);
        assert(b =~= <u32 as StacksMessageCodec>::spec_ser(m.len() as u32) + (m + rest));
        assert(b.skip(4) =~= m + rest);
        assert((m + rest).take(m.len() as int) =~= m);
    }

    fn consensus_serialize(&self, out: &mut Vec<u8>) {
        let len: u32 = self.0.len() as u32;
        len.consensus_serialize(out);
        write_raw_bytes(out, &self.0);
        assert(out@ =~= old(out)@ + Self::spec_ser(self.deep_view()));
    }

    fn consensus_deserialize(buf: &Vec<u8>, pos: usize, end: usize) -> (r: Result<
        (StacksBlock, usize),
        CodecError,
    >) {
        let ghost w = buf@.subrange(pos as int, end as int);
        let (len, body) = match u32::consensus_deserialize(buf, pos, end) {
            Ok(x) => x,
            Err(e) => {
                return Err(e);
            },
        };
        if len > MAX_BLOCK_LEN {
            return Err(CodecError::Deserialize);
        }
        assert(buf@.subrange(body as int, end as int) =~= w.skip(body - pos));
        match read_raw_bytes(buf, body, end, len as usize) {
            Ok((v, n)) => Ok((StacksBlock(v), n)),
            Err(e) => Err(e),
        }
    }
}

/// A Stacks microblock, as the bytes of its external consensus encoding.
/// It is carried opaquely: a 32-bit big-endian byte count, then the bytes,
/// capped at `MAX_MESSAGE_LEN`.
#[derive(Clone, Debug, PartialEq, Eq)]
pub struct StacksMicroblock(pub Vec<u8>);

impl DeepView for StacksMicroblock {
    type V = Seq<u8>;

    open spec fn deep_view(&self) -> Seq<u8> {
        self.0@
    }
}

impl StacksMessageCodec for StacksMicroblock {
    open spec fn spec_wf(m: Seq<u8>) -> bool {
        m.len() <= MAX_MESSAGE_LEN
    }

    open spec fn spec_ser(m: Seq<u8>) -> Seq<u8> {
        <u32 as StacksMessageCodec>::spec_ser(m.len() as u32) + m
    }

    open spec fn spec_parse(b: Seq<u8>) -> Result<(Seq<u8>, int), CodecError> {
        match <u32 as StacksMessageCodec>::spec_parse(b) {
            Err(e) => Err(e),
            Ok((len, n)) => {
                if len > MAX_MESSAGE_LEN {
                    Err(CodecError::Deserialize)
                } else {
                    match spec_parse_raw(b.skip(n), len as int) {
                        Ok((m, k)) => Ok((m, n + k)),
                        Err(e) => Err(e),
                    }
                }
            },
        }
    }

    proof fn lemma_parse_sound(b: Seq<u8>) {
        if b.len() >= 4 {
            <u32 as StacksMessageCodec>::lemma_parse_sound(b);
            let len = be_u32(b);
            if len <= MAX_MESSAGE_LEN && b.skip(4).len() >= len {
                let m = b.skip(4).take(len as int);
                assert(m.len() == len);
                assert(Self::spec_ser(m) =~= b.subrange(0, 4 + len));
            }
        }
    }

    proof fn lemma_parse_ser(m: Seq<u8>, rest: Seq<u8>) {
        let b = Self::spec_ser(m) + rest;
        <u32 as StacksMessageCodec>::lemma_parse_ser(m.len() as u32, m + rest);
        assert(b =~= <u32 as StacksMessageCodec>::spec_ser(m.len() as u32) + (m + rest));
        assert(b.skip(4) =~= m + rest);
        assert((m + rest).take(m.len() as int) =~= m);
    }

    fn consensus_serialize(&self, out: &mut Vec<u8>) {
        let len: u32 = self.0.len() as u32;
        len.consensus_serialize(out);
        write_raw_bytes(out, &self.0);
        assert(out@ =~= old(out)@ + Self::spec_ser(self.deep_view()));
    }

    fn consensus_deserialize(buf: &Vec<u8>, pos: usize, end: usize) -> (r: Result<
        (StacksMicroblock, usize),
        CodecError,
    >) {
        let ghost w = buf@.subrange(pos as int, end as int);
        let (len, body) = match u32::consensus_deserialize(buf, pos, end) {
            Ok(x) => x,
            Err(e) => {
                return Err(e);
            },
        };
        if len > MAX_MESSAGE_LEN {
            return Err(CodecError::Deserialize);
        }
        assert(buf@.subrange(body as int, end as int) =~= w.skip(body - pos));
        match read_raw_bytes(buf, body, end, len as usize) {
            Ok((v, n)) => Ok((StacksMicroblock(v), n)),
            Err(e) => Err(e),
        }
    }
}

/// A Stacks transaction, as the bytes of its external consensus encoding.
/// It is carried opaquely: a 32-bit big-endian byte count, then the bytes,
/// capped at `MAX_MESSAGE_LEN`.
#[derive(Clone, Debug, PartialEq, Eq)]
pub struct StacksTransaction(pub Vec<u8>);

impl DeepView for StacksTransaction {
    type V = Seq<u8>;

    open spec fn deep_view(&self) -> Seq<u8> {
        self.0@
    }
}

impl StacksMessageCodec for StacksTransaction {
    open spec fn spec_wf(m: Seq<u8>) -> bool {
        m.len() <= MAX_MESSAGE_LEN
    }

    open spec fn spec_ser(m: Seq<u8>) -> Seq<u8> {
        <u32 as StacksMessageCodec>::spec_ser(m.len() as u32) + m
    }

    open spec fn spec_parse(b: Seq<u8>) -> Result<(Seq<u8>, int), CodecError> {
        match <u32 as StacksMessageCodec>::spec_parse(b) {
            Err(e) => Err(e),
            Ok((len, n)) => {
                if len > MAX_MESSAGE_LEN {
                    Err(CodecError::Deserialize)
                } else {
                    match spec_parse_raw(b.skip(n), len as int) {
                        Ok((m, k)) => Ok((m, n + k)),
                        Err(e) => Err(e),
                    }
                }
            },
        }
    }

    proof fn lemma_parse_sound(b: Seq<u8>) {
        if b.len() >= 4 {
            <u32 as StacksMessageCodec>::lemma_parse_sound(b);
            let len = be_u32(b);
            if len <= MAX_MESSAGE_LEN && b.skip(4).len() >= len {
                let m = b.skip(4).take(len as int);
                assert(m.len() == len);
                assert(Self::spec_ser(m) =~= b.subrange(0, 4 + len));
            }
        }
    }

    proof fn lemma_parse_ser(m: Seq<u8>, rest: Seq<u8>) {
        let b = Self::spec_ser(m) + rest;
        <u32 as StacksMessageCodec>::lemma_parse_ser(m.len() as u32, m + rest);
        assert(b =~= <u32 as StacksMessageCodec>::spec_ser(m.len() as u32) + (m + rest));
        assert(b.skip(4) =~= m + rest);
        assert((m + rest).take(m.len() as int) =~= m);
    }

    fn consensus_serialize(&self, out: &mut Vec<u8>) {
        let len: u32 = self.0.len() as u32;
        len.consensus_serialize(out);
        write_raw_bytes(out, &self.0);
        assert(out@ =~= old(out)@ + Self::spec_ser(self.deep_view()));
    }

    fn consensus_deserialize(buf: &Vec<u8>, pos: usize, end: usize) -> (r: Result<
        (StacksTransaction, usize),
        CodecError,
    >) {
        let ghost w = buf@.subrange(pos as int, end as int);
        let (len, body) = match u32::consensus_deserialize(buf, pos, end) {
            Ok(x) => x,
            Err(e) => {
                return Err(e);
            },
        };
        if len > MAX_MESSAGE_LEN {
            return Err(CodecError::Deserialize);
        }
        assert(buf@.subrange(body as int, end as int) =~= w.skip(body - pos));
        match read_raw_bytes(buf, body, end, len as usize) {
            Ok((v, n)) => Ok((StacksTransaction(v), n)),
            Err(e) => Err(e),
        }
    }
}
/// The model of `HandshakeData`: every field as a plain value.
#[verifier::ext_equal]
pub struct HandshakeDataV {
    pub addrbytes: Seq<u8>,
    pub port: u16,
    pub services: u16,
    pub node_public_key: Seq<u8>,
    pub expire_block_height: u64,
    pub data_url: Seq<u8>,
}

/// The body of a `Handshake`: how to reach the sender, which services it
/// offers, its node key, when that key expires, and its data URL.
#[derive(Clone, Debug, PartialEq, Eq)]
pub struct HandshakeData {
    pub addrbytes: PeerAddress,
    pub port: u16,
    pub services: u16,
    pub node_public_key: StacksPublicKeyBuffer,
    pub expire_block_height: u64,
    pub data_url: UrlString,
}

impl DeepView for HandshakeData {
    type V = HandshakeDataV;

    open spec fn deep_view(&self) -> HandshakeDataV {
        HandshakeDataV {
            addrbytes: self.addrbytes.deep_view(),
            port: self.port.deep_view(),
            services: self.services.deep_view(),
            node_public_key: self.node_public_key.deep_view(),
            expire_block_height: self.expire_block_height.deep_view(),
            data_url: self.data_url.deep_view(),
        }
    }
}

impl StacksMessageCodec for HandshakeData {
    open spec fn spec_wf(m: HandshakeDataV) -> bool {
        m.addrbytes.len() == 16 && m.port != 0 && m.node_public_key.len() == 33 && m.data_url.len() <= 255
    }

    open spec fn spec_ser(m: HandshakeDataV) -> Seq<u8> {
        <PeerAddress as StacksMessageCodec>::spec_ser(m.addrbytes)
            + <u16 as StacksMessageCodec>::spec_ser(m.port)
            + <u16 as StacksMessageCodec>::spec_ser(m.services)
            + <StacksPublicKeyBuffer as StacksMessageCodec>::spec_ser(m.node_public_key)
            + <u64 as StacksMessageCodec>::spec_ser(m.expire_block_height)
            + <UrlString as StacksMessageCodec>::spec_ser(m.data_url)
    }

    open spec fn spec_parse(b: Seq<u8>) -> Result<(HandshakeDataV, int), CodecError> {
        match <PeerAddress as StacksMessageCodec>::spec_parse(b) {
            Err(e) => Err(e),
            Ok((addrbytes, n0)) => {
                match <u16 as StacksMessageCodec>::spec_parse(b.skip(n0)) {
                    Err(e) => Err(e),
                    Ok((port, n1)) => {
                        if port == 0 {
                            Err(CodecError::Deserialize)
                        } else {
                            match <u16 as StacksMessageCodec>::spec_parse(b.skip(n0 + n1)) {
                                Err(e) => Err(e),
                                Ok((services, n2)) => {
                                    match <StacksPublicKeyBuffer as StacksMessageCodec>::spec_parse(b.skip(n0 + n1 + n2)) {
                                        Err(e) => Err(e),
                                        Ok((node_public_key, n3)) => {
                                            match <u64 as StacksMessageCodec>::spec_parse(b.skip(n0 + n1 + n2 + n3)) {
                                                Err(e) => Err(e),
                                                Ok((expire_block_height, n4)) => {
                                                    match <UrlString as StacksMessageCodec>::spec_parse(b.skip(n0 + n1 + n2 + n3 + n4)) {
                                                        Err(e) => Err(e),
                                                        Ok((data_url, n5)) => {
                                                            Ok((HandshakeDataV { addrbytes, port, services, node_public_key, expire_block_height, data_url }, n0 + n1 + n2 + n3 + n4 + n5))
                                                        },
                                                    }
                                                },
                                            }
                                        },
                                    }
                                },
                            }
                        }
                    },
                }
            },
        }
    }

    proof fn lemma_parse_sound(b: Seq<u8>) {
        <PeerAddress as StacksMessageCodec>::lemma_parse_sound(b);
        match <PeerAddress as StacksMessageCodec>::spec_parse(b) {
            Err(_) => {},
            Ok((addrbytes, n0)) => {
                <u16 as StacksMessageCodec>::lemma_parse_sound(b.skip(n0));
                match <u16 as StacksMessageCodec>::spec_parse(b.skip(n0)) {
                    Err(_) => {},
                    Ok((port, n1)) => {
                        if !(port == 0) {
                            <u16 as StacksMessageCodec>::lemma_parse_sound(b.skip(n0 + n1));
                            match <u16 as StacksMessageCodec>::spec_parse(b.skip(n0 + n1)) {
                                Err(_) => {},
                                Ok((services, n2)) => {
                                    <StacksPublicKeyBuffer as StacksMessageCodec>::lemma_parse_sound(b.skip(n0 + n1 + n2));
                                    match <StacksPublicKeyBuffer as StacksMessageCodec>::spec_parse(b.skip(n0 + n1 + n2)) {
                                        Err(_) => {},
                                        Ok((node_public_key, n3)) => {
                                            <u64 as StacksMessageCodec>::lemma_parse_sound(b.skip(n0 + n1 + n2 + n3));
                                            match <u64 as StacksMessageCodec>::spec_parse(b.skip(n0 + n1 + n2 + n3)) {
                                                Err(_) => {},
                                                Ok((expire_block_height, n4)) => {
                                                    <UrlString as StacksMessageCodec>::lemma_parse_sound(b.skip(n0 + n1 + n2 + n3 + n4));
                                                    match <UrlString as StacksMessageCodec>::spec_parse(b.skip(n0 + n1 + n2 + n3 + n4)) {
                                                        Err(_) => {},
                                                        Ok((data_url, n5)) => {
                                                            assert(b.skip(n0).subrange(0, n1) =~= b.subrange(n0, n0 + n1));
                                                            assert(b.skip(n0 + n1).subrange(0, n2) =~= b.subrange(n0 + n1, n0 + n1 + n2));
                                                            assert(b.skip(n0 + n1 + n2).subrange(0, n3) =~= b.subrange(n0 + n1 + n2, n0 + n1 + n2 + n3));
                                                            assert(b.skip(n0 + n1 + n2 + n3).subrange(0, n4) =~= b.subrange(n0 + n1 + n2 + n3, n0 + n1 + n2 + n3 + n4));
                                                            assert(b.skip(n0 + n1 + n2 + n3 + n4).subrange(0, n5) =~= b.subrange(n0 + n1 + n2 + n3 + n4, n0 + n1 + n2 + n3 + n4 + n5));
                                                            let m = HandshakeDataV { addrbytes, port, services, node_public_key, expire_block_height, data_url };
                                                            assert(Self::spec_ser(m) =~= b.subrange(0, n0 + n1 + n2 + n3 + n4 + n5));
                                                        },
                                                    }
                                                },
                                            }
                                        },
                                    }
                                },
                            }
                        }
                    },
                }
            },
        }
    }

    proof fn lemma_parse_ser(m: HandshakeDataV, rest: Seq<u8>) {
        let b = Self::spec_ser(m) + rest;
        let l0 = <PeerAddress as StacksMessageCodec>::spec_ser(m.addrbytes).len() as int;
        let l1 = <u16 as StacksMessageCodec>::spec_ser(m.port).len() as int;
        let l2 = <u16 as StacksMessageCodec>::spec_ser(m.services).len() as int;
        let l3 = <StacksPublicKeyBuffer as StacksMessageCodec>::spec_ser(m.node_public_key).len() as int;
        let l4 = <u64 as StacksMessageCodec>::spec_ser(m.expire_block_height).len() as int;
        let l5 = <UrlString as StacksMessageCodec>::spec_ser(m.data_url).len() as int;
        <PeerAddress as StacksMessageCodec>::lemma_parse_ser(m.addrbytes, b.skip(l0));
        assert(b =~= <PeerAddress as StacksMessageCodec>::spec_ser(m.addrbytes) + b.skip(l0));
        <u16 as StacksMessageCodec>::lemma_parse_ser(m.port, b.skip(l0 + l1));
        assert(b.skip(l0) =~= <u16 as StacksMessageCodec>::spec_ser(m.port) + b.skip(l0 + l1));
        <u16 as StacksMessageCodec>::lemma_parse_ser(m.services, b.skip(l0 + l1 + l2));
        assert(b.skip(l0 + l1) =~= <u16 as StacksMessageCodec>::spec_ser(m.services) + b.skip(l0 + l1 + l2));
        <StacksPublicKeyBuffer as StacksMessageCodec>::lemma_parse_ser(m.node_public_key, b.skip(l0 + l1 + l2 + l3));
        assert(b.skip(l0 + l1 + l2) =~= <StacksPublicKeyBuffer as StacksMessageCodec>::spec_ser(m.node_public_key) + b.skip(l0 + l1 + l2 + l3));
        <u64 as StacksMessageCodec>::lemma_parse_ser(m.expire_block_height, b.skip(l0 + l1 + l2 + l3 + l4));
        assert(b.skip(l0 + l1 + l2 + l3) =~= <u64 as StacksMessageCodec>::spec_ser(m.expire_block_height) + b.skip(l0 + l1 + l2 + l3 + l4));
        <UrlString as StacksMessageCodec>::lemma_parse_ser(m.data_url, b.skip(l0 + l1 + l2 + l3 + l4 + l5));
        assert(b.skip(l0 + l1 + l2 + l3 + l4) =~= <UrlString as StacksMessageCodec>::spec_ser(m.data_url) + b.skip(l0 + l1 + l2 + l3 + l4 + l5));
        match Self::spec_parse(b) {
            Ok((m2, n)) => {
                assert(m2 =~= m);
            },
            Err(_) => {
                assert(false);
            },
        }
    }

    fn consensus_serialize(&self, out: &mut Vec<u8>) {
        let ghost m = self.deep_view();
        self.addrbytes.consensus_serialize(out);
        self.port.consensus_serialize(out);
        self.services.consensus_serialize(out);
        self.node_public_key.consensus_serialize(out);
        self.expire_block_height.consensus_serialize(out);
        self.data_url.consensus_serialize(out);
        assert(out@ =~= old(out)@ + Self::spec_ser(m));
    }

    fn consensus_deserialize(buf: &Vec<u8>, pos: usize, end: usize) -> (r: Result<
        (HandshakeData, usize),
        CodecError,
    >) {
        let ghost w = buf@.subrange(pos as int, end as int);
        let (addrbytes, c0) = match PeerAddress::consensus_deserialize(buf, pos, end) {
            Ok(x) => x,
            Err(e) => {
                return Err(e);
            },
        };
        assert(buf@.subrange(c0 as int, end as int) =~= w.skip(c0 - pos));
        let (port, c1) = match u16::consensus_deserialize(buf, c0, end) {
            Ok(x) => x,
            Err(e) => {
                return Err(e);
            },
        };
        if port == 0 {
            return Err(CodecError::Deserialize);
        }
        assert(buf@.subrange(c1 as int, end as int) =~= w.skip(c1 - pos));
        let (services, c2) = match u16::consensus_deserialize(buf, c1, end) {
            Ok(x) => x,
            Err(e) => {
                return Err(e);
            },
        };
        assert(buf@.subrange(c2 as int, end as int) =~= w.skip(c2 - pos));
        let (node_public_key, c3) = match StacksPublicKeyBuffer::consensus_deserialize(buf, c2, end) {
            Ok(x) => x,
            Err(e) => {
                return Err(e);
            },
        };
        assert(buf@.subrange(c3 as int, end as int) =~= w.skip(c3 - pos));
        let (expire_block_height, c4) = match u64::consensus_deserialize(buf, c3, end) {
            Ok(x) => x,
            Err(e) => {
                return Err(e);
            },
        };
        assert(buf@.subrange(c4 as int, end as int) =~= w.skip(c4 - pos));
        let (data_url, c5) = match UrlString::consensus_deserialize(buf, c4, end) {
            Ok(x) => x,
            Err(e) => {
                return Err(e);
            },
        };
        let v = HandshakeData { addrbytes, port, services, node_public_key, expire_block_height, data_url };
        assert(Self::spec_parse(w) == Ok::<_, CodecError>((v.deep_view(), c5 - pos))) by {
            assert(v.deep_view() =~= (match Self::spec_parse(w) {
                Ok((m, _)) => m,
                Err(_) => v.deep_view(),
            }));
        }
        Ok((v, c5))
    }
}
/// The model of `HandshakeAcceptData`: every field as a plain value.
#[verifier::ext_equal]
pub struct HandshakeAcceptDataV {
    pub handshake: HandshakeDataV,
    pub heartbeat_interval: u32,
}

/// The body of a `HandshakeAccept`: the accepter's own handshake data and
/// its heartbeat interval.
#[derive(Clone, Debug, PartialEq, Eq)]
pub struct HandshakeAcceptData {
    pub handshake: HandshakeData,
    pub heartbeat_interval: u32,
}

impl DeepView for HandshakeAcceptData {
    type V = HandshakeAcceptDataV;

    open spec fn deep_view(&self) -> HandshakeAcceptDataV {
        HandshakeAcceptDataV {
            handshake: self.handshake.deep_view(),
            heartbeat_interval: self.heartbeat_interval.deep_view(),
        }
    }
}

impl StacksMessageCodec for HandshakeAcceptData {
    open spec fn spec_wf(m: HandshakeAcceptDataV) -> bool {
        <HandshakeData as StacksMessageCodec>::spec_wf(m.handshake)
    }

    open spec fn spec_ser(m: HandshakeAcceptDataV) -> Seq<u8> {
        <HandshakeData as StacksMessageCodec>::spec_ser(m.handshake)
            + <u32 as StacksMessageCodec>::spec_ser(m.heartbeat_interval)
    }

    open spec fn spec_parse(b: Seq<u8>) -> Result<(HandshakeAcceptDataV, int), CodecError> {
        match <HandshakeData as StacksMessageCodec>::spec_parse(b) {
            Err(e) => Err(e),
            Ok((handshake, n0)) => {
                match <u32 as StacksMessageCodec>::spec_parse(b.skip(n0)) {
                    Err(e) => Err(e),
                    Ok((heartbeat_interval, n1)) => {
                        Ok((HandshakeAcceptDataV { handshake, heartbeat_interval }, n0 + n1))
                    },
                }
            },
        }
    }

    proof fn lemma_parse_sound(b: Seq<u8>) {
        <HandshakeData as StacksMessageCodec>::lemma_parse_sound(b);
        match <HandshakeData as StacksMessageCodec>::spec_parse(b) {
            Err(_) => {},
            Ok((handshake, n0)) => {
                <u32 as StacksMessageCodec>::lemma_parse_sound(b.skip(n0));
                match <u32 as StacksMessageCodec>::spec_parse(b.skip(n0)) {
                    Err(_) => {},
                    Ok((heartbeat_interval, n1)) => {
                        assert(b.skip(n0).subrange(0, n1) =~= b.subrange(n0, n0 + n1));
                        let m = HandshakeAcceptDataV { handshake, heartbeat_interval };
                        assert(Self::spec_ser(m) =~= b.subrange(0, n0 + n1));
                    },
                }
            },
        }
    }

    proof fn lemma_parse_ser(m: HandshakeAcceptDataV, rest: Seq<u8>) {
        let b = Self::spec_ser(m) + rest;
        let l0 = <HandshakeData as StacksMessageCodec>::spec_ser(m.handshake).len() as int;
        let l1 = <u32 as StacksMessageCodec>::spec_ser(m.heartbeat_interval).len() as int;
        <HandshakeData as StacksMessageCodec>::lemma_parse_ser(m.handshake, b.skip(l0));
        assert(b =~= <HandshakeData as StacksMessageCodec>::spec_ser(m.handshake) + b.skip(l0));
        <u32 as StacksMessageCodec>::lemma_parse_ser(m.heartbeat_interval, b.skip(l0 + l1));
        assert(b.skip(l0) =~= <u32 as StacksMessageCodec>::spec_ser(m.heartbeat_interval) + b.skip(l0 + l1));
        match Self::spec_parse(b) {
            Ok((m2, n)) => {
                assert(m2 =~= m);
            },
            Err(_) => {
                assert(false);
            },
        }
    }

    fn consensus_serialize(&self, out: &mut Vec<u8>) {
        let ghost m = self.deep_view();
        self.handshake.consensus_serialize(out);
        self.heartbeat_interval.consensus_serialize(out);
        assert(out@ =~= old(out)@ + Self::spec_ser(m));
    }

    fn consensus_deserialize(buf: &Vec<u8>, pos: usize, end: usize) -> (r: Result<
        (HandshakeAcceptData, usize),
        CodecError,
    >) {
        let ghost w = buf@.subrange(pos as int, end as int);
        let (handshake, c0) = match HandshakeData::consensus_deserialize(buf, pos, end) {
            Ok(x) => x,
            Err(e) => {
                return Err(e);
            },
        };
        assert(buf@.subrange(c0 as int, end as int) =~= w.skip(c0 - pos));
        let (heartbeat_interval, c1) = match u32::consensus_deserialize(buf, c0, end) {
            Ok(x) => x,
            Err(e) => {
                return Err(e);
            },
        };
        let v = HandshakeAcceptData { handshake, heartbeat_interval };
        assert(Self::spec_parse(w) == Ok::<_, CodecError>((v.deep_view(), c1 - pos))) by {
            assert(v.deep_view() =~= (match Self::spec_parse(w) {
                Ok((m, _)) => m,
                Err(_) => v.deep_view(),
            }));
        }
        Ok((v, c1))
    }
}
/// The model of `GetBlocksInv`: every field as a plain value.
#[verifier::ext_equal]
pub struct GetBlocksInvV {
    pub consensus_hash: Seq<u8>,
    pub num_blocks: u16,
}

/// The body of a `GetBlocksInv`: which sortition to start from and how
/// many blocks of inventory to report (at least one).
#[derive(Clone, Debug, PartialEq, Eq)]
pub struct GetBlocksInv {
    pub consensus_hash: ConsensusHash,
    pub num_blocks: u16,
}

impl DeepView for GetBlocksInv {
    type V = GetBlocksInvV;

    open spec fn deep_view(&self) -> GetBlocksInvV {
        GetBlocksInvV {
            consensus_hash: self.consensus_hash.deep_view(),
            num_blocks: self.num_blocks.deep_view(),
        }
    }
}

impl StacksMessageCodec for GetBlocksInv {
    open spec fn spec_wf(m: GetBlocksInvV) -> bool {
        m.consensus_hash.len() == 20 && m.num_blocks >= 1
    }

    open spec fn spec_ser(m: GetBlocksInvV) -> Seq<u8> {
        <ConsensusHash as StacksMessageCodec>::spec_ser(m.consensus_hash)
            + <u16 as StacksMessageCodec>::spec_ser(m.num_blocks)
    }

    open spec fn spec_parse(b: Seq<u8>) -> Result<(GetBlocksInvV, int), CodecError> {
        match <ConsensusHash as StacksMessageCodec>::spec_parse(b) {
            Err(e) => Err(e),
            Ok((consensus_hash, n0)) => {
                match <u16 as StacksMessageCodec>::spec_parse(b.skip(n0)) {
                    Err(e) => Err(e),
                    Ok((num_blocks, n1)) => {
                        if num_blocks == 0 {
                            Err(CodecError::Deserialize)
                        } else {
                            Ok((GetBlocksInvV { consensus_hash, num_blocks }, n0 + n1))
                        }
                    },
                }
            },
        }
    }

    proof fn lemma_parse_sound(b: Seq<u8>) {
        <ConsensusHash as StacksMessageCodec>::lemma_parse_sound(b);
        match <ConsensusHash as StacksMessageCodec>::spec_parse(b) {
            Err(_) => {},
            Ok((consensus_hash, n0)) => {
                <u16 as StacksMessageCodec>::lemma_parse_sound(b.skip(n0));
                match <u16 as StacksMessageCodec>::spec_parse(b.skip(n0)) {
                    Err(_) => {},
                    Ok((num_blocks, n1)) => {
                        if !(num_blocks == 0) {
                            assert(b.skip(n0).subrange(0, n1) =~= b.subrange(n0, n0 + n1));
                            let m = GetBlocksInvV { consensus_hash, num_blocks };
                            assert(Self::spec_ser(m) =~= b.subrange(0, n0 + n1));
                        }
                    },
                }
            },
        }
    }

    proof fn lemma_parse_ser(m: GetBlocksInvV, rest: Seq<u8>) {
        let b = Self::spec_ser(m) + rest;
        let l0 = <ConsensusHash as StacksMessageCodec>::spec_ser(m.consensus_hash).len() as int;
        let l1 = <u16 as StacksMessageCodec>::spec_ser(m.num_blocks).len() as int;
        <ConsensusHash as StacksMessageCodec>::lemma_parse_ser(m.consensus_hash, b.skip(l0));
        assert(b =~= <ConsensusHash as StacksMessageCodec>::spec_ser(m.consensus_hash) + b.skip(l0));
        <u16 as StacksMessageCodec>::lemma_parse_ser(m.num_blocks, b.skip(l0 + l1));
        assert(b.skip(l0) =~= <u16 as StacksMessageCodec>::spec_ser(m.num_blocks) + b.skip(l0 + l1));
        match Self::spec_parse(b) {
            Ok((m2, n)) => {
                assert(m2 =~= m);
            },
            Err(_) => {
                assert(false);
            },
        }
    }

    fn consensus_serialize(&self, out: &mut Vec<u8>) {
        let ghost m = self.deep_view();
        self.consensus_hash.consensus_serialize(out);
        self.num_blocks.consensus_serialize(out);
        assert(out@ =~= old(out)@ + Self::spec_ser(m));
    }

    fn consensus_deserialize(buf: &Vec<u8>, pos: usize, end: usize) -> (r: Result<
        (GetBlocksInv, usize),
        CodecError,
    >) {
        let ghost w = buf@.subrange(pos as int, end as int);
        let (consensus_hash, c0) = match ConsensusHash::consensus_deserialize(buf, pos, end) {
            Ok(x) => x,
            Err(e) => {
                return Err(e);
            },
        };
        assert(buf@.subrange(c0 as int, end as int) =~= w.skip(c0 - pos));
        let (num_blocks, c1) = match u16::consensus_deserialize(buf, c0, end) {
            Ok(x) => x,
            Err(e) => {
                return Err(e);
            },
        };
        if num_blocks == 0 {
            return Err(CodecError::Deserialize);
        }
        let v = GetBlocksInv { consensus_hash, num_blocks };
        assert(Self::spec_parse(w) == Ok::<_, CodecError>((v.deep_view(), c1 - pos))) by {
            assert(v.deep_view() =~= (match Self::spec_parse(w) {
                Ok((m, _)) => m,
                Err(_) => v.deep_view(),
            }));
        }
        Ok((v, c1))
    }
}
/// The model of `BlocksInvData`: every field as a plain value.
#[verifier::ext_equal]
pub struct BlocksInvDataV {
    pub bitlen: u16,
    pub block_bitvec: Seq<u8>,
    pub microblocks_bitvec: Seq<u8>,
}

/// The body of a `BlocksInv`: a bit length, then one bit vector of blocks
/// present and one of microblock streams present, each exactly
/// `ceil(bitlen / 8)` bytes.
#[derive(Clone, Debug, PartialEq, Eq)]
pub struct BlocksInvData {
    pub bitlen: u16,
    pub block_bitvec: Vec<u8>,
    pub microblocks_bitvec: Vec<u8>,
}

impl DeepView for BlocksInvData {
    type V = BlocksInvDataV;

    open spec fn deep_view(&self) -> BlocksInvDataV {
        BlocksInvDataV {
            bitlen: self.bitlen.deep_view(),
            block_bitvec: self.block_bitvec.deep_view(),
            microblocks_bitvec: self.microblocks_bitvec.deep_view(),
        }
    }
}

impl StacksMessageCodec for BlocksInvData {
    open spec fn spec_wf(m: BlocksInvDataV) -> bool {
        m.bitlen >= 1 && m.block_bitvec.len() == spec_bitvec_len(m.bitlen) && m.microblocks_bitvec.len() == spec_bitvec_len(m.bitlen) && spec_wf_elems::<u8>(m.block_bitvec) && spec_wf_elems::<u8>(m.microblocks_bitvec)
    }

    open spec fn spec_ser(m: BlocksInvDataV) -> Seq<u8> {
        <u16 as StacksMessageCodec>::spec_ser(m.bitlen)
            + spec_ser_vec::<u8>(m.block_bitvec)
            + spec_ser_vec::<u8>(m.microblocks_bitvec)
    }

    open spec fn spec_parse(b: Seq<u8>) -> Result<(BlocksInvDataV, int), CodecError> {
        match <u16 as StacksMessageCodec>::spec_parse(b) {
            Err(e) => Err(e),
            Ok((bitlen, n0)) => {
                if bitlen == 0 {
                    Err(CodecError::Deserialize)
                } else {
                    match spec_parse_vec_exact::<u8>(b.skip(n0), spec_bitvec_len(bitlen) as int) {
                        Err(e) => Err(e),
                        Ok((block_bitvec, n1)) => {
                            match spec_parse_vec_exact::<u8>(b.skip(n0 + n1), spec_bitvec_len(bitlen) as int) {
                                Err(e) => Err(e),
                                Ok((microblocks_bitvec, n2)) => {
                                    Ok((BlocksInvDataV { bitlen, block_bitvec, microblocks_bitvec }, n0 + n1 + n2))
                                },
                            }
                        },
                    }
                }
            },
        }
    }

    proof fn lemma_parse_sound(b: Seq<u8>) {
        <u16 as StacksMessageCodec>::lemma_parse_sound(b);
        match <u16 as StacksMessageCodec>::spec_parse(b) {
            Err(_) => {},
            Ok((bitlen, n0)) => {
                if !(bitlen == 0) {
                    lemma_parse_vec_exact_sound::<u8>(b.skip(n0), spec_bitvec_len(bitlen) as int);
                    match spec_parse_vec_exact::<u8>(b.skip(n0), spec_bitvec_len(bitlen) as int) {
                        Err(_) => {},
                        Ok((block_bitvec, n1)) => {
                            lemma_parse_vec_exact_sound::<u8>(b.skip(n0 + n1), spec_bitvec_len(bitlen) as int);
                            match spec_parse_vec_exact::<u8>(b.skip(n0 + n1), spec_bitvec_len(bitlen) as int) {
                                Err(_) => {},
                                Ok((microblocks_bitvec, n2)) => {
                                    assert(b.skip(n0).subrange(0, n1) =~= b.subrange(n0, n0 + n1));
                                    assert(b.skip(n0 + n1).subrange(0, n2) =~= b.subrange(n0 + n1, n0 + n1 + n2));
                                    let m = BlocksInvDataV { bitlen, block_bitvec, microblocks_bitvec };
                                    assert(Self::spec_ser(m) =~= b.subrange(0, n0 + n1 + n2));
                                },
                            }
                        },
                    }
                }
            },
        }
    }

    proof fn lemma_parse_ser(m: BlocksInvDataV, rest: Seq<u8>) {
        let b = Self::spec_ser(m) + rest;
        let l0 = <u16 as StacksMessageCodec>::spec_ser(m.bitlen).len() as int;
        let l1 = spec_ser_vec::<u8>(m.block_bitvec).len() as int;
        let l2 = spec_ser_vec::<u8>(m.microblocks_bitvec).len() as int;
        <u16 as StacksMessageCodec>::lemma_parse_ser(m.bitlen, b.skip(l0));
        assert(b =~= <u16 as StacksMessageCodec>::spec_ser(m.bitlen) + b.skip(l0));
        lemma_parse_ser_vec_exact::<u8>(m.block_bitvec, b.skip(l0 + l1));
        assert(b.skip(l0) =~= spec_ser_vec::<u8>(m.block_bitvec) + b.skip(l0 + l1));
        lemma_parse_ser_vec_exact::<u8>(m.microblocks_bitvec, b.skip(l0 + l1 + l2));
        assert(b.skip(l0 + l1) =~= spec_ser_vec::<u8>(m.microblocks_bitvec) + b.skip(l0 + l1 + l2));
        match Self::spec_parse(b) {
            Ok((m2, n)) => {
                assert(m2 =~= m);
            },
            Err(_) => {
                assert(false);
            },
        }
    }

    fn consensus_serialize(&self, out: &mut Vec<u8>) {
        let ghost m = self.deep_view();
        self.bitlen.consensus_serialize(out);
        write_next_vec::<u8>(out, &self.block_bitvec);
        write_next_vec::<u8>(out, &self.microblocks_bitvec);
        assert(out@ =~= old(out)@ + Self::spec_ser(m));
    }

    fn consensus_deserialize(buf: &Vec<u8>, pos: usize, end: usize) -> (r: Result<
        (BlocksInvData, usize),
        CodecError,
    >) {
        let ghost w = buf@.subrange(pos as int, end as int);
        let (bitlen, c0) = match u16::consensus_deserialize(buf, pos, end) {
            Ok(x) => x,
            Err(e) => {
                return Err(e);
            },
        };
        if bitlen == 0 {
            return Err(CodecError::Deserialize);
        }
        assert(buf@.subrange(c0 as int, end as int) =~= w.skip(c0 - pos));
        let (block_bitvec, c1) = match read_next_exact::<u8>(buf, c0, end, bitvec_len(bitlen)) {
            Ok(x) => x,
            Err(e) => {
                return Err(e);
            },
        };
        assert(buf@.subrange(c1 as int, end as int) =~= w.skip(c1 - pos));
        let (microblocks_bitvec, c2) = match read_next_exact::<u8>(buf, c1, end, bitvec_len(bitlen)) {
            Ok(x) => x,
            Err(e) => {
                return Err(e);
            },
        };
        let v = BlocksInvData { bitlen, block_bitvec, microblocks_bitvec };
        assert(Self::spec_parse(w) == Ok::<_, CodecError>((v.deep_view(), c2 - pos))) by {
            assert(v.deep_view() =~= (match Self::spec_parse(w) {
                Ok((m, _)) => m,
                Err(_) => v.deep_view(),
            }));
        }
        Ok((v, c2))
    }
}
/// The model of `GetPoxInv`: every field as a plain value.
#[verifier::ext_equal]
pub struct GetPoxInvV {
    pub consensus_hash: Seq<u8>,
    pub num_cycles: u16,
}

/// The body of a `GetPoxInv`: which sortition to start from and how many
/// reward cycles to report, between one and `GETPOXINV_MAX_BITLEN`.
#[derive(Clone, Debug, PartialEq, Eq)]
pub struct GetPoxInv {
    pub consensus_hash: ConsensusHash,
    pub num_cycles: u16,
}

impl DeepView for GetPoxInv {
    type V = GetPoxInvV;

    open spec fn deep_view(&self) -> GetPoxInvV {
        GetPoxInvV {
            consensus_hash: self.consensus_hash.deep_view(),
            num_cycles: self.num_cycles.deep_view(),
        }
    }
}

impl StacksMessageCodec for GetPoxInv {
    open spec fn spec_wf(m: GetPoxInvV) -> bool {
        m.consensus_hash.len() == 20 && 1 <= m.num_cycles && (m.num_cycles as u64) <= GETPOXINV_MAX_BITLEN
    }

    open spec fn spec_ser(m: GetPoxInvV) -> Seq<u8> {
        <ConsensusHash as StacksMessageCodec>::spec_ser(m.consensus_hash)
            + <u16 as StacksMessageCodec>::spec_ser(m.num_cycles)
    }

    open spec fn spec_parse(b: Seq<u8>) -> Result<(GetPoxInvV, int), CodecError> {
        match <ConsensusHash as StacksMessageCodec>::spec_parse(b) {
            Err(e) => Err(e),
            Ok((consensus_hash, n0)) => {
                match <u16 as StacksMessageCodec>::spec_parse(b.skip(n0)) {
                    Err(e) => Err(e),
                    Ok((num_cycles, n1)) => {
                        if num_cycles == 0 || (num_cycles as u64) > GETPOXINV_MAX_BITLEN {
                            Err(CodecError::Deserialize)
                        } else {
                            Ok((GetPoxInvV { consensus_hash, num_cycles }, n0 + n1))
                        }
                    },
                }
            },
        }
    }

    proof fn lemma_parse_sound(b: Seq<u8>) {
        <ConsensusHash as StacksMessageCodec>::lemma_parse_sound(b);
        match <ConsensusHash as StacksMessageCodec>::spec_parse(b) {
            Err(_) => {},
            Ok((consensus_hash, n0)) => {
                <u16 as StacksMessageCodec>::lemma_parse_sound(b.skip(n0));
                match <u16 as StacksMessageCodec>::spec_parse(b.skip(n0)) {
                    Err(_) => {},
                    Ok((num_cycles, n1)) => {
                        if !(num_cycles == 0 || (num_cycles as u64) > GETPOXINV_MAX_BITLEN) {
                            assert(b.skip(n0).subrange(0, n1) =~= b.subrange(n0, n0 + n1));
                            let m = GetPoxInvV { consensus_hash, num_cycles };
                            assert(Self::spec_ser(m) =~= b.subrange(0, n0 + n1));
                        }
                    },
                }
            },
        }
    }

    proof fn lemma_parse_ser(m: GetPoxInvV, rest: Seq<u8>) {
        let b = Self::spec_ser(m) + rest;
        let l0 = <ConsensusHash as StacksMessageCodec>::spec_ser(m.consensus_hash).len() as int;
        let l1 = <u16 as StacksMessageCodec>::spec_ser(m.num_cycles).len() as int;
        <ConsensusHash as StacksMessageCodec>::lemma_parse_ser(m.consensus_hash, b.skip(l0));
        assert(b =~= <ConsensusHash as StacksMessageCodec>::spec_ser(m.consensus_hash) + b.skip(l0));
        <u16 as StacksMessageCodec>::lemma_parse_ser(m.num_cycles, b.skip(l0 + l1));
        assert(b.skip(l0) =~= <u16 as StacksMessageCodec>::spec_ser(m.num_cycles) + b.skip(l0 + l1));
        match Self::spec_parse(b) {
            Ok((m2, n)) => {
                assert(m2 =~= m);
            },
            Err(_) => {
                assert(false);
            },
        }
    }

    fn consensus_serialize(&self, out: &mut Vec<u8>) {
        let ghost m = self.deep_view();
        self.consensus_hash.consensus_serialize(out);
        self.num_cycles.consensus_serialize(out);
        assert(out@ =~= old(out)@ + Self::spec_ser(m));
    }

    fn consensus_deserialize(buf: &Vec<u8>, pos: usize, end: usize) -> (r: Result<
        (GetPoxInv, usize),
        CodecError,
    >) {
        let ghost w = buf@.subrange(pos as int, end as int);
        let (consensus_hash, c0) = match ConsensusHash::consensus_deserialize(buf, pos, end) {
            Ok(x) => x,
            Err(e) => {
                return Err(e);
            },
        };
        assert(buf@.subrange(c0 as int, end as int) =~= w.skip(c0 - pos));
        let (num_cycles, c1) = match u16::consensus_deserialize(buf, c0, end) {
            Ok(x) => x,
            Err(e) => {
                return Err(e);
            },
        };
        if num_cycles == 0 || (num_cycles as u64) > GETPOXINV_MAX_BITLEN {
            return Err(CodecError::Deserialize);
        }
        let v = GetPoxInv { consensus_hash, num_cycles };
        assert(Self::spec_parse(w) == Ok::<_, CodecError>((v.deep_view(), c1 - pos))) by {
            assert(v.deep_view() =~= (match Self::spec_parse(w) {
                Ok((m, _)) => m,
                Err(_) => v.deep_view(),
            }));
        }
        Ok((v, c1))
    }
}
/// The model of `PoxInvData`: every field as a plain value.
#[verifier::ext_equal]
pub struct PoxInvDataV {
    pub bitlen: u16,
    pub pox_bitvec: Seq<u8>,
}

/// The body of a `PoxInv`: a bit length between one and
/// `GETPOXINV_MAX_BITLEN`, then a bit vector of exactly `ceil(bitlen / 8)`
/// bytes, one bit per reward cycle.
#[derive(Clone, Debug, PartialEq, Eq)]
pub struct PoxInvData {
    pub bitlen: u16,
    pub pox_bitvec: Vec<u8>,
}

impl DeepView for PoxInvData {
    type V = PoxInvDataV;

    open spec fn deep_view(&self) -> PoxInvDataV {
        PoxInvDataV {
            bitlen: self.bitlen.deep_view(),
            pox_bitvec: self.pox_bitvec.deep_view(),
        }
    }
}

impl StacksMessageCodec for PoxInvData {
    open spec fn spec_wf(m: PoxInvDataV) -> bool {
        1 <= m.bitlen && (m.bitlen as u64) <= GETPOXINV_MAX_BITLEN && m.pox_bitvec.len() == spec_bitvec_len(m.bitlen) && spec_wf_elems::<u8>(m.pox_bitvec)
    }

    open spec fn spec_ser(m: PoxInvDataV) -> Seq<u8> {
        <u16 as StacksMessageCodec>::spec_ser(m.bitlen)
            + spec_ser_vec::<u8>(m.pox_bitvec)
    }

    open spec fn spec_parse(b: Seq<u8>) -> Result<(PoxInvDataV, int), CodecError> {
        match <u16 as StacksMessageCodec>::spec_parse(b) {
            Err(e) => Err(e),
            Ok((bitlen, n0)) => {
                if bitlen == 0 || (bitlen as u64) > GETPOXINV_MAX_BITLEN {
                    Err(CodecError::Deserialize)
                } else {
                    match spec_parse_vec_exact::<u8>(b.skip(n0), spec_bitvec_len(bitlen) as int) {
                        Err(e) => Err(e),
                        Ok((pox_bitvec, n1)) => {
                            Ok((PoxInvDataV { bitlen, pox_bitvec }, n0 + n1))
                        },
                    }
                }
            },
        }
    }

    proof fn lemma_parse_sound(b: Seq<u8>) {
        <u16 as StacksMessageCodec>::lemma_parse_sound(b);
        match <u16 as StacksMessageCodec>::spec_parse(b) {
            Err(_) => {},
            Ok((bitlen, n0)) => {
                if !(bitlen == 0 || (bitlen as u64) > GETPOXINV_MAX_BITLEN) {
                    lemma_parse_vec_exact_sound::<u8>(b.skip(n0), spec_bitvec_len(bitlen) as int);
                    match spec_parse_vec_exact::<u8>(b.skip(n0), spec_bitvec_len(bitlen) as int) {
                        Err(_) => {},
                        Ok((pox_bitvec, n1)) => {
                            assert(b.skip(n0).subrange(0, n1) =~= b.subrange(n0, n0 + n1));
                            let m = PoxInvDataV { bitlen, pox_bitvec };
                            assert(Self::spec_ser(m) =~= b.subrange(0, n0 + n1));
                        },
                    }
                }
            },
        }
    }

    proof fn lemma_parse_ser(m: PoxInvDataV, rest: Seq<u8>) {
        let b = Self::spec_ser(m) + rest;
        let l0 = <u16 as StacksMessageCodec>::spec_ser(m.bitlen).len() as int;
        let l1 = spec_ser_vec::<u8>(m.pox_bitvec).len() as int;
        <u16 as StacksMessageCodec>::lemma_parse_ser(m.bitlen, b.skip(l0));
        assert(b =~= <u16 as StacksMessageCodec>::spec_ser(m.bitlen) + b.skip(l0));
        lemma_parse_ser_vec_exact::<u8>(m.pox_bitvec, b.skip(l0 + l1));
        assert(b.skip(l0) =~= spec_ser_vec::<u8>(m.pox_bitvec) + b.skip(l0 + l1));
        match Self::spec_parse(b) {
            Ok((m2, n)) => {
                assert(m2 =~= m);
            },
            Err(_) => {
                assert(false);
            },
        }
    }

    fn consensus_serialize(&self, out: &mut Vec<u8>) {
        let ghost m = self.deep_view();
        self.bitlen.consensus_serialize(out);
        write_next_vec::<u8>(out, &self.pox_bitvec);
        assert(out@ =~= old(out)@ + Self::spec_ser(m));
    }

    fn consensus_deserialize(buf: &Vec<u8>, pos: usize, end: usize) -> (r: Result<
        (PoxInvData, usize),
        CodecError,
    >) {
        let ghost w = buf@.subrange(pos as int, end as int);
        let (bitlen, c0) = match u16::consensus_deserialize(buf, pos, end) {
            Ok(x) => x,
            Err(e) => {
                return Err(e);
            },
        };
        if bitlen == 0 || (bitlen as u64) > GETPOXINV_MAX_BITLEN {
            return Err(CodecError::Deserialize);
        }
        assert(buf@.subrange(c0 as int, end as int) =~= w.skip(c0 - pos));
        let (pox_bitvec, c1) = match read_next_exact::<u8>(buf, c0, end, bitvec_len(bitlen)) {
            Ok(x) => x,
            Err(e) => {
                return Err(e);
            },
        };
        let v = PoxInvData { bitlen, pox_bitvec };
        assert(Self::spec_parse(w) == Ok::<_, CodecError>((v.deep_view(), c1 - pos))) by {
            assert(v.deep_view() =~= (match Self::spec_parse(w) {
                Ok((m, _)) => m,
                Err(_) => v.deep_view(),
            }));
        }
        Ok((v, c1))
    }
}
/// The model of `BlocksAvailableData`: every field as a plain value.
#[verifier::ext_equal]
pub struct BlocksAvailableDataV {
    pub available: Seq<(Seq<u8>, Seq<u8>)>,
}

/// The body of a `BlocksAvailable` or `MicroblocksAvailable`: up to
/// `BLOCKS_AVAILABLE_MAX_LEN` sortitions whose data the sender can serve.
#[derive(Clone, Debug, PartialEq, Eq)]
pub struct BlocksAvailableData {
    pub available: Vec<(ConsensusHash, BurnchainHeaderHash)>,
}

impl DeepView for BlocksAvailableData {
    type V = BlocksAvailableDataV;

    open spec fn deep_view(&self) -> BlocksAvailableDataV {
        BlocksAvailableDataV {
            available: self.available.deep_view(),
        }
    }
}

impl StacksMessageCodec for BlocksAvailableData {
    open spec fn spec_wf(m: BlocksAvailableDataV) -> bool {
        m.available.len() <= BLOCKS_AVAILABLE_MAX_LEN && spec_wf_elems::<(ConsensusHash, BurnchainHeaderHash)>(m.available)
    }

    open spec fn spec_ser(m: BlocksAvailableDataV) -> Seq<u8> {
        spec_ser_vec::<(ConsensusHash, BurnchainHeaderHash)>(m.available)
    }

    open spec fn spec_parse(b: Seq<u8>) -> Result<(BlocksAvailableDataV, int), CodecError> {
        match spec_parse_vec_at_most::<(ConsensusHash, BurnchainHeaderHash)>(b, BLOCKS_AVAILABLE_MAX_LEN as int) {
            Err(e) => Err(e),
            Ok((available, n0)) => {
                Ok((BlocksAvailableDataV { available }, n0))
            },
        }
    }

    proof fn lemma_parse_sound(b: Seq<u8>) {
        lemma_parse_vec_at_most_sound::<(ConsensusHash, BurnchainHeaderHash)>(b, BLOCKS_AVAILABLE_MAX_LEN as int);
        match spec_parse_vec_at_most::<(ConsensusHash, BurnchainHeaderHash)>(b, BLOCKS_AVAILABLE_MAX_LEN as int) {
            Err(_) => {},
            Ok((available, n0)) => {
                let m = BlocksAvailableDataV { available };
                assert(Self::spec_ser(m) =~= b.subrange(0, n0));
            },
        }
    }

    proof fn lemma_parse_ser(m: BlocksAvailableDataV, rest: Seq<u8>) {
        let b = Self::spec_ser(m) + rest;
        let l0 = spec_ser_vec::<(ConsensusHash, BurnchainHeaderHash)>(m.available).len() as int;
        lemma_parse_ser_vec_at_most::<(ConsensusHash, BurnchainHeaderHash)>(m.available, b.skip(l0), BLOCKS_AVAILABLE_MAX_LEN as int);
        assert(b =~= spec_ser_vec::<(ConsensusHash, BurnchainHeaderHash)>(m.available) + b.skip(l0));
        match Self::spec_parse(b) {
            Ok((m2, n)) => {
                assert(m2 =~= m);
            },
            Err(_) => {
                assert(false);
            },
        }
    }

    fn consensus_serialize(&self, out: &mut Vec<u8>) {
        let ghost m = self.deep_view();
        write_next_vec::<(ConsensusHash, BurnchainHeaderHash)>(out, &self.available);
        assert(out@ =~= old(out)@ + Self::spec_ser(m));
    }

    fn consensus_deserialize(buf: &Vec<u8>, pos: usize, end: usize) -> (r: Result<
        (BlocksAvailableData, usize),
        CodecError,
    >) {
        let ghost w = buf@.subrange(pos as int, end as int);
        let (available, c0) = match read_next_at_most::<(ConsensusHash, BurnchainHeaderHash)>(buf, pos, end, BLOCKS_AVAILABLE_MAX_LEN) {
            Ok(x) => x,
            Err(e) => {
                return Err(e);
            },
        };
        let v = BlocksAvailableData { available };
        assert(Self::spec_parse(w) == Ok::<_, CodecError>((v.deep_view(), c0 - pos))) by {
            assert(v.deep_view() =~= (match Self::spec_parse(w) {
                Ok((m, _)) => m,
                Err(_) => v.deep_view(),
            }));
        }
        Ok((v, c0))
    }
}
/// The model of `MicroblocksData`: every field as a plain value.
#[verifier::ext_equal]
pub struct MicroblocksDataV {
    pub index_anchor_block: Seq<u8>,
    pub microblocks: Seq<Seq<u8>>,
}

/// The body of a `Microblocks` push: the index block the stream is anchored
/// to, then the microblocks.
#[derive(Clone, Debug, PartialEq, Eq)]
pub struct MicroblocksData {
    pub index_anchor_block: StacksBlockId,
    pub microblocks: Vec<StacksMicroblock>,
}

impl DeepView for MicroblocksData {
    type V = MicroblocksDataV;

    open spec fn deep_view(&self) -> MicroblocksDataV {
        MicroblocksDataV {
            index_anchor_block: self.index_anchor_block.deep_view(),
            microblocks: self.microblocks.deep_view(),
        }
    }
}

impl StacksMessageCodec for MicroblocksData {
    open spec fn spec_wf(m: MicroblocksDataV) -> bool {
        m.index_anchor_block.len() == 32 && m.microblocks.len() <= u32::MAX && spec_wf_elems::<StacksMicroblock>(m.microblocks)
    }

    open spec fn spec_ser(m: MicroblocksDataV) -> Seq<u8> {
        <StacksBlockId as StacksMessageCodec>::spec_ser(m.index_anchor_block)
            + spec_ser_vec::<StacksMicroblock>(m.microblocks)
    }

    open spec fn spec_parse(b: Seq<u8>) -> Result<(MicroblocksDataV, int), CodecError> {
        match <StacksBlockId as StacksMessageCodec>::spec_parse(b) {
            Err(e) => Err(e),
            Ok((index_anchor_block, n0)) => {
                match spec_parse_vec_at_most::<StacksMicroblock>(b.skip(n0), u32::MAX as int) {
                    Err(e) => Err(e),
                    Ok((microblocks, n1)) => {
                        Ok((MicroblocksDataV { index_anchor_block, microblocks }, n0 + n1))
                    },
                }
            },
        }
    }

    proof fn lemma_parse_sound(b: Seq<u8>) {
        <StacksBlockId as StacksMessageCodec>::lemma_parse_sound(b);
        match <StacksBlockId as StacksMessageCodec>::spec_parse(b) {
            Err(_) => {},
            Ok((index_anchor_block, n0)) => {
                lemma_parse_vec_at_most_sound::<StacksMicroblock>(b.skip(n0), u32::MAX as int);
                match spec_parse_vec_at_most::<StacksMicroblock>(b.skip(n0), u32::MAX as int) {
                    Err(_) => {},
                    Ok((microblocks, n1)) => {
                        assert(b.skip(n0).subrange(0, n1) =~= b.subrange(n0, n0 + n1));
                        let m = MicroblocksDataV { index_anchor_block, microblocks };
                        assert(Self::spec_ser(m) =~= b.subrange(0, n0 + n1));
                    },
                }
            },
        }
    }

    proof fn lemma_parse_ser(m: MicroblocksDataV, rest: Seq<u8>) {
        let b = Self::spec_ser(m) + rest;
        let l0 = <StacksBlockId as StacksMessageCodec>::spec_ser(m.index_anchor_block).len() as int;
        let l1 = spec_ser_vec::<StacksMicroblock>(m.microblocks).len() as int;
        <StacksBlockId as StacksMessageCodec>::lemma_parse_ser(m.index_anchor_block, b.skip(l0));
        assert(b =~= <StacksBlockId as StacksMessageCodec>::spec_ser(m.index_anchor_block) + b.skip(l0));
        lemma_parse_ser_vec_at_most::<StacksMicroblock>(m.microblocks, b.skip(l0 + l1), u32::MAX as int);
        assert(b.skip(l0) =~= spec_ser_vec::<StacksMicroblock>(m.microblocks) + b.skip(l0 + l1));
        match Self::spec_parse(b) {
            Ok((m2, n)) => {
                assert(m2 =~= m);
            },
            Err(_) => {
                assert(false);
            },
        }
    }

    fn consensus_serialize(&self, out: &mut Vec<u8>) {
        let ghost m = self.deep_view();
        self.index_anchor_block.consensus_serialize(out);
        write_next_vec::<StacksMicroblock>(out, &self.microblocks);
        assert(out@ =~= old(out)@ + Self::spec_ser(m));
    }

    fn consensus_deserialize(buf: &Vec<u8>, pos: usize, end: usize) -> (r: Result<
        (MicroblocksData, usize),
        CodecError,
    >) {
        let ghost w = buf@.subrange(pos as int, end as int);
        let (index_anchor_block, c0) = match StacksBlockId::consensus_deserialize(buf, pos, end) {
            Ok(x) => x,
            Err(e) => {
                return Err(e);
            },
        };
        assert(buf@.subrange(c0 as int, end as int) =~= w.skip(c0 - pos));
        let (microblocks, c1) = match read_next_at_most::<StacksMicroblock>(buf, c0, end, u32::MAX) {
            Ok(x) => x,
            Err(e) => {
                return Err(e);
            },
        };
        let v = MicroblocksData { index_anchor_block, microblocks };
        assert(Self::spec_parse(w) == Ok::<_, CodecError>((v.deep_view(), c1 - pos))) by {
            assert(v.deep_view() =~= (match Self::spec_parse(w) {
                Ok((m, _)) => m,
                Err(_) => v.deep_view(),
            }));
        }
        Ok((v, c1))
    }
}
/// The model of `NackData`: every field as a plain value.
#[verifier::ext_equal]
pub struct NackDataV {
    pub error_code: u32,
}

/// The body of a `Nack`: the rejection code.
#[derive(Clone, Debug, PartialEq, Eq)]
pub struct NackData {
    pub error_code: u32,
}

impl DeepView for NackData {
    type V = NackDataV;

    open spec fn deep_view(&self) -> NackDataV {
        NackDataV {
            error_code: self.error_code.deep_view(),
        }
    }
}

impl StacksMessageCodec for NackData {
    open spec fn spec_wf(m: NackDataV) -> bool {
        true
    }

    open spec fn spec_ser(m: NackDataV) -> Seq<u8> {
        <u32 as StacksMessageCodec>::spec_ser(m.error_code)
    }

    open spec fn spec_parse(b: Seq<u8>) -> Result<(NackDataV, int), CodecError> {
        match <u32 as StacksMessageCodec>::spec_parse(b) {
            Err(e) => Err(e),
            Ok((error_code, n0)) => {
                Ok((NackDataV { error_code }, n0))
            },
        }
    }

    proof fn lemma_parse_sound(b: Seq<u8>) {
        <u32 as StacksMessageCodec>::lemma_parse_sound(b);
        match <u32 as StacksMessageCodec>::spec_parse(b) {
            Err(_) => {},
            Ok((error_code, n0)) => {
                let m = NackDataV { error_code };
                assert(Self::spec_ser(m) =~= b.subrange(0, n0));
            },
        }
    }

    proof fn lemma_parse_ser(m: NackDataV, rest: Seq<u8>) {
        let b = Self::spec_ser(m) + rest;
        let l0 = <u32 as StacksMessageCodec>::spec_ser(m.error_code).len() as int;
        <u32 as StacksMessageCodec>::lemma_parse_ser(m.error_code, b.skip(l0));
        assert(b =~= <u32 as StacksMessageCodec>::spec_ser(m.error_code) + b.skip(l0));
        match Self::spec_parse(b) {
            Ok((m2, n)) => {
                assert(m2 =~= m);
            },
            Err(_) => {
                assert(false);
            },
        }
    }

    fn consensus_serialize(&self, out: &mut Vec<u8>) {
        let ghost m = self.deep_view();
        self.error_code.consensus_serialize(out);
        assert(out@ =~= old(out)@ + Self::spec_ser(m));
    }

    fn consensus_deserialize(buf: &Vec<u8>, pos: usize, end: usize) -> (r: Result<
        (NackData, usize),
        CodecError,
    >) {
        let ghost w = buf@.subrange(pos as int, end as int);
        let (error_code, c0) = match u32::consensus_deserialize(buf, pos, end) {
            Ok(x) => x,
            Err(e) => {
                return Err(e);
            },
        };
        let v = NackData { error_code };
        assert(Self::spec_parse(w) == Ok::<_, CodecError>((v.deep_view(), c0 - pos))) by {
            assert(v.deep_view() =~= (match Self::spec_parse(w) {
                Ok((m, _)) => m,
                Err(_) => v.deep_view(),
            }));
        }
        Ok((v, c0))
    }
}
/// The model of `PingData`: every field as a plain value.
#[verifier::ext_equal]
pub struct PingDataV {
    pub nonce: u32,
}

/// The body of a `Ping`: an arbitrary nonce the peer must echo.
#[derive(Clone, Debug, PartialEq, Eq)]
pub struct PingData {
    pub nonce: u32,
}

impl DeepView for PingData {
    type V = PingDataV;

    open spec fn deep_view(&self) -> PingDataV {
        PingDataV {
            nonce: self.nonce.deep_view(),
        }
    }
}

impl StacksMessageCodec for PingData {
    open spec fn spec_wf(m: PingDataV) -> bool {
        true
    }

    open spec fn spec_ser(m: PingDataV) -> Seq<u8> {
        <u32 as StacksMessageCodec>::spec_ser(m.nonce)
    }

    open spec fn spec_parse(b: Seq<u8>) -> Result<(PingDataV, int), CodecError> {
        match <u32 as StacksMessageCodec>::spec_parse(b) {
            Err(e) => Err(e),
            Ok((nonce, n0)) => {
                Ok((PingDataV { nonce }, n0))
            },
        }
    }

    proof fn lemma_parse_sound(b: Seq<u8>) {
        <u32 as StacksMessageCodec>::lemma_parse_sound(b);
        match <u32 as StacksMessageCodec>::spec_parse(b) {
            Err(_) => {},
            Ok((nonce, n0)) => {
                let m = PingDataV { nonce };
                assert(Self::spec_ser(m) =~= b.subrange(0, n0));
            },
        }
    }

    proof fn lemma_parse_ser(m: PingDataV, rest: Seq<u8>) {
        let b = Self::spec_ser(m) + rest;
        let l0 = <u32 as StacksMessageCodec>::spec_ser(m.nonce).len() as int;
        <u32 as StacksMessageCodec>::lemma_parse_ser(m.nonce, b.skip(l0));
        assert(b =~= <u32 as StacksMessageCodec>::spec_ser(m.nonce) + b.skip(l0));
        match Self::spec_parse(b) {
            Ok((m2, n)) => {
                assert(m2 =~= m);
            },
            Err(_) => {
                assert(false);
            },
        }
    }

    fn consensus_serialize(&self, out: &mut Vec<u8>) {
        let ghost m = self.deep_view();
        self.nonce.consensus_serialize(out);
        assert(out@ =~= old(out)@ + Self::spec_ser(m));
    }

    fn consensus_deserialize(buf: &Vec<u8>, pos: usize, end: usize) -> (r: Result<
        (PingData, usize),
        CodecError,
    >) {
        let ghost w = buf@.subrange(pos as int, end as int);
        let (nonce, c0) = match u32::consensus_deserialize(buf, pos, end) {
            Ok(x) => x,
            Err(e) => {
                return Err(e);
            },
        };
        let v = PingData { nonce };
        assert(Self::spec_parse(w) == Ok::<_, CodecError>((v.deep_view(), c0 - pos))) by {
            assert(v.deep_view() =~= (match Self::spec_parse(w) {
                Ok((m, _)) => m,
                Err(_) => v.deep_view(),
            }));
        }
        Ok((v, c0))
    }
}
/// The model of `PongData`: every field as a plain value.
#[verifier::ext_equal]
pub struct PongDataV {
    pub nonce: u32,
}

/// The body of a `Pong`: the nonce of the ping it answers.
#[derive(Clone, Debug, PartialEq, Eq)]
pub struct PongData {
    pub nonce: u32,
}

impl DeepView for PongData {
    type V = PongDataV;

    open spec fn deep_view(&self) -> PongDataV {
        PongDataV {
            nonce: self.nonce.deep_view(),
        }
    }
}

impl StacksMessageCodec for PongData {
    open spec fn spec_wf(m: PongDataV) -> bool {
        true
    }

    open spec fn spec_ser(m: PongDataV) -> Seq<u8> {
        <u32 as StacksMessageCodec>::spec_ser(m.nonce)
    }

    open spec fn spec_parse(b: Seq<u8>) -> Result<(PongDataV, int), CodecError> {
        match <u32 as StacksMessageCodec>::spec_parse(b) {
            Err(e) => Err(e),
            Ok((nonce, n0)) => {
                Ok((PongDataV { nonce }, n0))
            },
        }
    }

    proof fn lemma_parse_sound(b: Seq<u8>) {
        <u32 as StacksMessageCodec>::lemma_parse_sound(b);
        match <u32 as StacksMessageCodec>::spec_parse(b) {
            Err(_) => {},
            Ok((nonce, n0)) => {
                let m = PongDataV { nonce };
                assert(Self::spec_ser(m) =~= b.subrange(0, n0));
            },
        }
    }

    proof fn lemma_parse_ser(m: PongDataV, rest: Seq<u8>) {
        let b = Self::spec_ser(m) + rest;
        let l0 = <u32 as StacksMessageCodec>::spec_ser(m.nonce).len() as int;
        <u32 as StacksMessageCodec>::lemma_parse_ser(m.nonce, b.skip(l0));
        assert(b =~= <u32 as StacksMessageCodec>::spec_ser(m.nonce) + b.skip(l0));
        match Self::spec_parse(b) {
            Ok((m2, n)) => {
                assert(m2 =~= m);
            },
            Err(_) => {
                assert(false);
            },
        }
    }

    fn consensus_serialize(&self, out: &mut Vec<u8>) {
        let ghost m = self.deep_view();
        self.nonce.consensus_serialize(out);
        assert(out@ =~= old(out)@ + Self::spec_ser(m));
    }

    fn consensus_deserialize(buf: &Vec<u8>, pos: usize, end: usize) -> (r: Result<
        (PongData, usize),
        CodecError,
    >) {
        let ghost w = buf@.subrange(pos as int, end as int);
        let (nonce, c0) = match u32::consensus_deserialize(buf, pos, end) {
            Ok(x) => x,
            Err(e) => {
                return Err(e);
            },
        };
        let v = PongData { nonce };
        assert(Self::spec_parse(w) == Ok::<_, CodecError>((v.deep_view(), c0 - pos))) by {
            assert(v.deep_view() =~= (match Self::spec_parse(w) {
                Ok((m, _)) => m,
                Err(_) => v.deep_view(),
            }));
        }
        Ok((v, c0))
    }
}
/// The model of `NatPunchData`: every field as a plain value.
#[verifier::ext_equal]
pub struct NatPunchDataV {
    pub addrbytes: Seq<u8>,
    pub port: u16,
    pub nonce: u32,
}

/// The body of a `NatPunchReply`: the address and port the sender saw, and
/// the nonce of the request.
#[derive(Clone, Debug, PartialEq, Eq)]
pub struct NatPunchData {
    pub addrbytes: PeerAddress,
    pub port: u16,
    pub nonce: u32,
}

impl DeepView for NatPunchData {
    type V = NatPunchDataV;

    open spec fn deep_view(&self) -> NatPunchDataV {
        NatPunchDataV {
            addrbytes: self.addrbytes.deep_view(),
            port: self.port.deep_view(),
            nonce: self.nonce.deep_view(),
        }
    }
}

impl StacksMessageCodec for NatPunchData {
    open spec fn spec_wf(m: NatPunchDataV) -> bool {
        m.addrbytes.len() == 16
    }

    open spec fn spec_ser(m: NatPunchDataV) -> Seq<u8> {
        <PeerAddress as StacksMessageCodec>::spec_ser(m.addrbytes)
            + <u16 as StacksMessageCodec>::spec_ser(m.port)
            + <u32 as StacksMessageCodec>::spec_ser(m.nonce)
    }

    open spec fn spec_parse(b: Seq<u8>) -> Result<(NatPunchDataV, int), CodecError> {
        match <PeerAddress as StacksMessageCodec>::spec_parse(b) {
            Err(e) => Err(e),
            Ok((addrbytes, n0)) => {
                match <u16 as StacksMessageCodec>::spec_parse(b.skip(n0)) {
                    Err(e) => Err(e),
                    Ok((port, n1)) => {
                        match <u32 as StacksMessageCodec>::spec_parse(b.skip(n0 + n1)) {
                            Err(e) => Err(e),
                            Ok((nonce, n2)) => {
                                Ok((NatPunchDataV { addrbytes, port, nonce }, n0 + n1 + n2))
                            },
                        }
                    },
                }
            },
        }
    }

    proof fn lemma_parse_sound(b: Seq<u8>) {
        <PeerAddress as StacksMessageCodec>::lemma_parse_sound(b);
        match <PeerAddress as StacksMessageCodec>::spec_parse(b) {
            Err(_) => {},
            Ok((addrbytes, n0)) => {
                <u16 as StacksMessageCodec>::lemma_parse_sound(b.skip(n0));
                match <u16 as StacksMessageCodec>::spec_parse(b.skip(n0)) {
                    Err(_) => {},
                    Ok((port, n1)) => {
                        <u32 as StacksMessageCodec>::lemma_parse_sound(b.skip(n0 + n1));
                        match <u32 as StacksMessageCodec>::spec_parse(b.skip(n0 + n1)) {
                            Err(_) => {},
                            Ok((nonce, n2)) => {
                                assert(b.skip(n0).subrange(0, n1) =~= b.subrange(n0, n0 + n1));
                                assert(b.skip(n0 + n1).subrange(0, n2) =~= b.subrange(n0 + n1, n0 + n1 + n2));
                                let m = NatPunchDataV { addrbytes, port, nonce };
                                assert(Self::spec_ser(m) =~= b.subrange(0, n0 + n1 + n2));
                            },
                        }
                    },
                }
            },
        }
    }

    proof fn lemma_parse_ser(m: NatPunchDataV, rest: Seq<u8>) {
        let b = Self::spec_ser(m) + rest;
        let l0 = <PeerAddress as StacksMessageCodec>::spec_ser(m.addrbytes).len() as int;
        let l1 = <u16 as StacksMessageCodec>::spec_ser(m.port).len() as int;
        let l2 = <u32 as StacksMessageCodec>::spec_ser(m.nonce).len() as int;
        <PeerAddress as StacksMessageCodec>::lemma_parse_ser(m.addrbytes, b.skip(l0));
        assert(b =~= <PeerAddress as StacksMessageCodec>::spec_ser(m.addrbytes) + b.skip(l0));
        <u16 as StacksMessageCodec>::lemma_parse_ser(m.port, b.skip(l0 + l1));
        assert(b.skip(l0) =~= <u16 as StacksMessageCodec>::spec_ser(m.port) + b.skip(l0 + l1));
        <u32 as StacksMessageCodec>::lemma_parse_ser(m.nonce, b.skip(l0 + l1 + l2));
        assert(b.skip(l0 + l1) =~= <u32 as StacksMessageCodec>::spec_ser(m.nonce) + b.skip(l0 + l1 + l2));
        match Self::spec_parse(b) {
            Ok((m2, n)) => {
                assert(m2 =~= m);
            },
            Err(_) => {
                assert(false);
            },
        }
    }

    fn consensus_serialize(&self, out: &mut Vec<u8>) {
        let ghost m = self.deep_view();
        self.addrbytes.consensus_serialize(out);
        self.port.consensus_serialize(out);
        self.nonce.consensus_serialize(out);
        assert(out@ =~= old(out)@ + Self::spec_ser(m));
    }

    fn consensus_deserialize(buf: &Vec<u8>, pos: usize, end: usize) -> (r: Result<
        (NatPunchData, usize),
        CodecError,
    >) {
        let ghost w = buf@.subrange(pos as int, end as int);
        let (addrbytes, c0) = match PeerAddress::consensus_deserialize(buf, pos, end) {
            Ok(x) => x,
            Err(e) => {
                return Err(e);
            },
        };
        assert(buf@.subrange(c0 as int, end as int) =~= w.skip(c0 - pos));
        let (port, c1) = match u16::consensus_deserialize(buf, c0, end) {
            Ok(x) => x,
            Err(e) => {
                return Err(e);
            },
        };
        assert(buf@.subrange(c1 as int, end as int) =~= w.skip(c1 - pos));
        let (nonce, c2) = match u32::consensus_deserialize(buf, c1, end) {
            Ok(x) => x,
            Err(e) => {
                return Err(e);
            },
        };
        let v = NatPunchData { addrbytes, port, nonce };
        assert(Self::spec_parse(w) == Ok::<_, CodecError>((v.deep_view(), c2 - pos))) by {
            assert(v.deep_view() =~= (match Self::spec_parse(w) {
                Ok((m, _)) => m,
                Err(_) => v.deep_view(),
            }));
        }
        Ok((v, c2))
    }
}

impl NackData {
    /// Wrap a rejection code.
    pub fn new(error_code: u32) -> (r: NackData)
        ensures
            r.error_code == error_code,
    {
        NackData { error_code }
    }
}

impl PingData {
    /// A ping with a nonce drawn from the process-local generator.  The nonce
    /// only correlates a pong to its ping; nothing relies on it being
    /// unpredictable.
    pub fn new() -> PingData {
        PingData { nonce: random_u32() }
    }
}

impl PongData {
    /// The pong that answers a ping: it echoes the nonce.
    pub fn from_ping(p: &PingData) -> (r: PongData)
        ensures
            r.nonce == p.nonce,
    {
        PongData { nonce: p.nonce }
    }
}

/// Whether two entries of a block push share a consensus hash.
pub open spec fn spec_blocks_have_dup(ms: Seq<(Seq<u8>, Seq<u8>)>) -> bool {
    exists|i: int, j: int| 0 <= i < j < ms.len() && ms[i].0 == ms[j].0
}

/// Report whether two entries of a block push share a consensus hash.
pub fn blocks_have_dup(blocks: &Vec<(ConsensusHash, StacksBlock)>) -> (r: bool)
    ensures
        r == spec_blocks_have_dup(blocks.deep_view()),
{
    let ghost ms = blocks.deep_view();
    let mut j: usize = 0;
    while j < blocks.len()
        invariant
            j <= blocks@.len(),
            ms == blocks.deep_view(),
            forall|ii: int, jj: int| 0 <= ii < jj < j ==> ms[ii].0 != ms[jj].0,
        decreases blocks@.len() - j,
    {
        let mut i: usize = 0;
        while i < j
            invariant
                i <= j < blocks@.len(),
                ms == blocks.deep_view(),
                forall|ii: int, jj: int| 0 <= ii < jj < j ==> ms[ii].0 != ms[jj].0,
                forall|ii: int| 0 <= ii < i ==> ms[ii].0 != ms[j as int].0,
            decreases j - i,
        {
            assert(ms[i as int].0 == blocks@[i as int].0.0@);
            assert(ms[j as int].0 == blocks@[j as int].0.0@);
            if bytes_eq(&blocks[i].0.0, &blocks[j].0.0) {
                assert(spec_blocks_have_dup(ms));
                return true;
            }
            i = i + 1;
        }
        j = j + 1;
    }
    assert(!spec_blocks_have_dup(ms));
    false
}

/// The model of `BlocksData`.
#[verifier::ext_equal]
pub struct BlocksDataV {
    pub blocks: Seq<(Seq<u8>, Seq<u8>)>,
}

/// The body of a `Blocks` push: up to `BLOCKS_PUSHED_MAX` anchored blocks,
/// each under the sortition that selected it; no two entries may share a
/// consensus hash.
#[derive(Clone, Debug, PartialEq, Eq)]
pub struct BlocksData {
    pub blocks: Vec<(ConsensusHash, StacksBlock)>,
}

impl DeepView for BlocksData {
    type V = BlocksDataV;

    open spec fn deep_view(&self) -> BlocksDataV {
        BlocksDataV { blocks: self.blocks.deep_view() }
    }
}

impl StacksMessageCodec for BlocksData {
    open spec fn spec_wf(m: BlocksDataV) -> bool {
        m.blocks.len() <= BLOCKS_PUSHED_MAX && spec_wf_elems::<(ConsensusHash, StacksBlock)>(
            m.blocks,
        ) && !spec_blocks_have_dup(m.blocks)
    }

    open spec fn spec_ser(m: BlocksDataV) -> Seq<u8> {
        spec_ser_vec::<(ConsensusHash, StacksBlock)>(m.blocks)
    }

    open spec fn spec_parse(b: Seq<u8>) -> Result<(BlocksDataV, int), CodecError> {
        match spec_parse_vec_at_most::<(ConsensusHash, StacksBlock)>(b, BLOCKS_PUSHED_MAX as int) {
            Ok((ms, n)) => {
                if spec_blocks_have_dup(ms) {
                    Err(CodecError::Deserialize)
                } else {
                    Ok((BlocksDataV { blocks: ms }, n))
                }
            },
            Err(e) => Err(e),
        }
    }

    proof fn lemma_parse_sound(b: Seq<u8>) {
        lemma_parse_vec_at_most_sound::<(ConsensusHash, StacksBlock)>(b, BLOCKS_PUSHED_MAX as int);
    }

    proof fn lemma_parse_ser(m: BlocksDataV, rest: Seq<u8>) {
        lemma_parse_ser_vec_at_most::<(ConsensusHash, StacksBlock)>(
            m.blocks,
            rest,
            BLOCKS_PUSHED_MAX as int,
        );
        match Self::spec_parse(Self::spec_ser(m) + rest) {
            Ok((m2, n)) => {
                assert(m2 =~= m);
            },
            Err(_) => {
                assert(false);
            },
        }
    }

    fn consensus_serialize(&self, out: &mut Vec<u8>) {
        write_next_vec::<(ConsensusHash, StacksBlock)>(out, &self.blocks);
    }

    fn consensus_deserialize(buf: &Vec<u8>, pos: usize, end: usize) -> (r: Result<
        (BlocksData, usize),
        CodecError,
    >) {
        let (blocks, n) = match read_next_at_most::<(ConsensusHash, StacksBlock)>(
            buf,
            pos,
            end,
            BLOCKS_PUSHED_MAX,
        ) {
            Ok(x) => x,
            Err(e) => {
                return Err(e);
            },
        };
        if blocks_have_dup(&blocks) {
            return Err(CodecError::Deserialize);
        }
        Ok((BlocksData { blocks }, n))
    }
}

impl BlocksData {
    /// An empty block push.
    pub fn new() -> (r: BlocksData)
        ensures
            r.deep_view().blocks.len() == 0,
    {
        let blocks: Vec<(ConsensusHash, StacksBlock)> = Vec::new();
        assert(blocks.deep_view() =~= Seq::<(Seq<u8>, Seq<u8>)>::empty());
        BlocksData { blocks }
    }

    /// Append one anchored block under its sortition.
    pub fn push(&mut self, ch: ConsensusHash, block: StacksBlock)
        ensures
            final(self).deep_view().blocks == old(self).deep_view().blocks.push(
                (ch.deep_view(), block.deep_view()),
            ),
    {
        let ghost m0 = self.blocks.deep_view();
        let ghost entry = (ch.deep_view(), block.deep_view());
        let e = (ch, block);
        assert(e.deep_view() == entry);
        self.blocks.push(e);
        assert(self.blocks.deep_view() =~= m0.push(entry));
    }
}

impl BlocksInvData {
    /// The empty inventory: no bits at all.  It does not satisfy the wire
    /// format's rule that an encoded inventory reports at least one bit, so
    /// it cannot be serialized; it is the starting point inventories are
    /// built from.
    pub fn empty() -> (r: BlocksInvData)
        ensures
            r.bitlen == 0,
            r.block_bitvec@.len() == 0,
            r.microblocks_bitvec@.len() == 0,
    {
        BlocksInvData { bitlen: 0, block_bitvec: Vec::new(), microblocks_bitvec: Vec::new() }
    }
}

impl BlocksAvailableData {
    /// An empty availability report.
    pub fn new() -> (r: BlocksAvailableData)
        ensures
            r.deep_view().available.len() == 0,
    {
        let available: Vec<(ConsensusHash, BurnchainHeaderHash)> = Vec::new();
        assert(available.deep_view() =~= Seq::<(Seq<u8>, Seq<u8>)>::empty());
        BlocksAvailableData { available }
    }

    /// Append one sortition to the report; fails exactly when the report is
    /// already at `BLOCKS_AVAILABLE_MAX_LEN` entries.
    pub fn try_push(&mut self, ch: ConsensusHash, bhh: BurnchainHeaderHash) -> (r: Result<
        (),
        crate::codec::NetError,
    >)
        ensures
            old(self).deep_view().available.len() < BLOCKS_AVAILABLE_MAX_LEN ==> r == Ok::<
                (),
                crate::codec::NetError,
            >(()) && final(self).deep_view().available == old(self).deep_view().available.push(
                (ch.deep_view(), bhh.deep_view()),
            ),
            old(self).deep_view().available.len() >= BLOCKS_AVAILABLE_MAX_LEN ==> r == Err::<
                (),
                _,
            >(crate::codec::NetError::InvalidMessage) && *final(self) == *old(self),
    {
        if self.available.len() < 32 {
            let ghost m0 = self.available.deep_view();
            let ghost entry = (ch.deep_view(), bhh.deep_view());
            let e = (ch, bhh);
            assert(e.deep_view() == entry);
            self.available.push(e);
            assert(self.available.deep_view() =~= m0.push(entry));
            Ok(())
        } else {
            Err(crate::codec::NetError::InvalidMessage)
        }
    }
}

} // verus!

verus! {

/// One where a bit is set: 1 when position `j` of the run holds true, else 0.
pub open spec fn spec_bit_at(bits: Seq<bool>, j: int) -> u8 {
    if 0 <= j < bits.len() && bits[j] {
        1u8
    } else {
        0u8
    }
}

/// The first `j` bits of the byte packed from `bits[base..base + 8]`.
pub open spec fn spec_pack_partial(bits: Seq<bool>, base: int, j: int) -> u8
    decreases j,
{
    if j <= 0 {
        0u8
    } else {
        spec_pack_partial(bits, base, j - 1) | (spec_bit_at(bits, base + (j - 1)) << (((j
            - 1) as u8) as u8))
    }
}

/// The little-endian-within-byte packing of a run of booleans: bit `j` of
/// byte `i` holds `bits[8 * i + j]`; a trailing partial byte is appended
/// exactly when the run's length is not a multiple of eight.
pub open spec fn spec_compress_bools(bits: Seq<bool>) -> Seq<u8> {
    Seq::new(((bits.len() + 7) / 8) as nat, |i: int| spec_pack_partial(bits, 8 * i, 8))
}

/// Bit `i` of a packed bit vector: bit `i % 8` of byte `i / 8`.
pub open spec fn spec_nth_bit(bv: Seq<u8>, i: int) -> bool {
    (bv[i / 8] >> ((i % 8) as u8)) & 1 == 1
}

/// Bit `i` of a packed bit vector of `bitlen` bits: false past the end.
pub open spec fn spec_has_ith_bit(bv: Seq<u8>, bitlen: u16, i: u16) -> bool {
    if i >= bitlen {
        false
    } else {
        spec_nth_bit(bv, i as int)
    }
}

/// A partial pack only occupies its low `j` bits.
proof fn lemma_pack_partial_bound(bits: Seq<bool>, base: int, j: int)
    requires
        0 <= j <= 8,
    ensures
        spec_pack_partial(bits, base, j) < (1u16 << (j as u16)),
    decreases j,
{
    if j <= 0 {
        assert(0u8 < (1u16 << 0u16)) by (bit_vector);
    } else {
        lemma_pack_partial_bound(bits, base, j - 1);
        let x = spec_pack_partial(bits, base, j - 1);
        let b = spec_bit_at(bits, base + (j - 1));
        let t = (j - 1) as u8;
        assert(b <= 1);
        assert(x < (1u16 << (t as u16)) && b <= 1 && t < 8 ==> ((x | (b << t)) as u16) < (1u16 << (
        (t + 1) as u16))) by (bit_vector);
    }
}

/// Bit `t` of a partial pack of at least `t + 1` bits is the packed boolean.
proof fn lemma_pack_partial_bit(bits: Seq<bool>, base: int, j: int, t: int)
    requires
        0 <= t < j <= 8,
    ensures
        ((spec_pack_partial(bits, base, j) >> ((t as u8) as u8)) & 1) == spec_bit_at(
            bits,
            base + t,
        ),
    decreases j,
{
    let x = spec_pack_partial(bits, base, j - 1);
    let b = spec_bit_at(bits, base + (j - 1));
    let tj = (j - 1) as u8;
    if t == j - 1 {
        lemma_pack_partial_bound(bits, base, j - 1);
        assert(x < (1u16 << (tj as u16)) && b <= 1 && tj < 8 ==> ((x | (b << tj)) >> tj) & 1
            == b) by (bit_vector);
    } else {
        lemma_pack_partial_bit(bits, base, j - 1, t);
        let tu = t as u8;
        assert(tu < tj && tj < 8 && b <= 1 ==> ((x | (b << tj)) >> tu) & 1 == (x >> tu) & 1)
            by (bit_vector);
    }
}

/// The bit-vector law: packing a run of booleans stores each bit faithfully,
/// and every query past the declared bit length reads false.
pub proof fn lemma_bit_vector_law(bits: Seq<bool>, bitlen: u16, i: u16)
    requires
        bits.len() == bitlen,
    ensures
        i < bitlen ==> spec_has_ith_bit(spec_compress_bools(bits), bitlen, i) == bits[i as int],
        i >= bitlen ==> !spec_has_ith_bit(spec_compress_bools(bits), bitlen, i),
{
    if i < bitlen {
        let ii = i as int;
        lemma_pack_partial_bit(bits, 8 * (ii / 8), 8, ii % 8);
        assert(8 * (ii / 8) + ii % 8 == ii);
        assert(spec_compress_bools(bits)[ii / 8] == spec_pack_partial(bits, 8 * (ii / 8), 8));
        assert(spec_bit_at(bits, ii) == (if bits[ii] {
            1u8
        } else {
            0u8
        }));
    }
}

impl BlocksInvData {
    /// Pack a run of booleans, eight to a byte, low bit first; a trailing
    /// partial byte is appended exactly when the count is not a multiple of
    /// eight.
    pub fn compress_bools(bits: &Vec<bool>) -> (r: Vec<u8>)
        requires
            bits@.len() + 8 <= usize::MAX,
        ensures
            r@ == spec_compress_bools(bits@),
            r@.len() == (bits@.len() + 7) / 8,
    {
        let ghost bs = bits@;
        let n_bytes: usize = bits.len() / 8 + if bits.len() % 8 > 0 {
            1
        } else {
            0
        };
        assert(n_bytes == (bs.len() + 7) / 8);
        let mut bitvec: Vec<u8> = Vec::new();
        let mut i: usize = 0;
        while i < n_bytes
            invariant
                i <= n_bytes,
                bits@ == bs,
                bs.len() + 8 <= usize::MAX,
                n_bytes == (bs.len() + 7) / 8,
                bitvec@.len() == i,
                forall|k: int| 0 <= k < i ==> bitvec@[k] == spec_pack_partial(bs, 8 * k, 8),
            decreases n_bytes - i,
        {
            let mut octet: u8 = 0;
            let mut j: usize = 0;
            assert(octet == spec_pack_partial(bs, 8 * (i as int), 0));
            while j < 8
                invariant
                    j <= 8,
                    i < n_bytes,
                    bits@ == bs,
                    bs.len() + 8 <= usize::MAX,
                    n_bytes == (bs.len() + 7) / 8,
                    octet == spec_pack_partial(bs, 8 * (i as int), j as int),
                decreases 8 - j,
            {
                proof {
                    assert(8 * (i as int) <= 8 * ((bs.len() + 7) / 8) - 8);
                    assert(8 * ((bs.len() + 7) / 8) <= bs.len() + 7);
                }
                let idx = 8 * i + j;
                let bit: u8 = if idx < bits.len() {
                    if bits[idx] {
                        1
                    } else {
                        0
                    }
                } else {
                    0
                };
                assert(bit == spec_bit_at(bs, 8 * (i as int) + (j as int)));
                octet = octet | (bit << (j as u8));
                j = j + 1;
            }
            bitvec.push(octet);
            i = i + 1;
        }
        assert(bitvec@ =~= spec_compress_bools(bs));
        bitvec
    }

    /// Whether the inventory reports the block at the given index; false at
    /// and past the declared bit length.
    pub fn has_ith_block(&self, block_index: u16) -> (r: bool)
        requires
            self.block_bitvec@.len() == spec_bitvec_len(self.bitlen),
        ensures
            r == spec_has_ith_bit(self.block_bitvec@, self.bitlen, block_index),
    {
        if block_index >= self.bitlen {
            return false;
        }
        let idx = block_index / 8;
        let bit = block_index % 8;
        assert(idx < spec_bitvec_len(self.bitlen));
        (self.block_bitvec[idx as usize] >> (bit as u8)) & 1 == 1
    }

    /// Whether the inventory reports the microblock stream at the given
    /// index; false at and past the declared bit length.
    pub fn has_ith_microblock_stream(&self, block_index: u16) -> (r: bool)
        requires
            self.microblocks_bitvec@.len() == spec_bitvec_len(self.bitlen),
        ensures
            r == spec_has_ith_bit(self.microblocks_bitvec@, self.bitlen, block_index),
    {
        if block_index >= self.bitlen {
            return false;
        }
        let idx = block_index / 8;
        let bit = block_index % 8;
        assert(idx < spec_bitvec_len(self.bitlen));
        (self.microblocks_bitvec[idx as usize] >> (bit as u8)) & 1 == 1
    }
}

impl PoxInvData {
    /// Whether the inventory reports the reward cycle at the given index;
    /// false at and past the declared bit length.
    pub fn has_ith_reward_cycle(&self, index: u16) -> (r: bool)
        requires
            self.pox_bitvec@.len() == spec_bitvec_len(self.bitlen),
        ensures
            r == spec_has_ith_bit(self.pox_bitvec@, self.bitlen, index),
    {
        if index >= self.bitlen {
            return false;
        }
        let idx = index / 8;
        let bit = index % 8;
        assert(idx < spec_bitvec_len(self.bitlen));
        (self.pox_bitvec[idx as usize] >> (bit as u8)) & 1 == 1
    }
}

} // verus!

verus! {

/// Truncation of an embedded block is detected: any strict prefix of its
/// length-prefixed encoding fails to parse with an underflow.
pub proof fn lemma_block_truncation(m: Seq<u8>, k: int)
    requires
        <StacksBlock as StacksMessageCodec>::spec_wf(m),
        0 <= k < <StacksBlock as StacksMessageCodec>::spec_ser(m).len(),
    ensures
        <StacksBlock as StacksMessageCodec>::spec_parse(
            <StacksBlock as StacksMessageCodec>::spec_ser(m).take(k),
        ) == Err::<(Seq<u8>, int), _>(CodecError::Underflow),
{
    let s = <StacksBlock as StacksMessageCodec>::spec_ser(m);
    let b = s.take(k);
    if k >= 4 {
        let b0 = b[0];
        let b1 = b[1];
        let b2 = b[2];
        let b3 = b[3];
        let s0 = s[0];
        let s1 = s[1];
        let s2 = s[2];
        let s3 = s[3];
        assert(b0 == s0 && b1 == s1 && b2 == s2 && b3 == s3);
        <u32 as StacksMessageCodec>::lemma_parse_ser(m.len() as u32, m);
        assert(s =~= <u32 as StacksMessageCodec>::spec_ser(m.len() as u32) + m);
        assert(be_u32(b) == be_u32(s));
        assert(be_u32(s) == m.len() as u32);
        assert(b.skip(4).len() == k - 4 < m.len());
    }
}

/// Truncation of an embedded microblock is detected: any strict prefix of its
/// length-prefixed encoding fails to parse with an underflow.
pub proof fn lemma_microblock_truncation(m: Seq<u8>, k: int)
    requires
        <StacksMicroblock as StacksMessageCodec>::spec_wf(m),
        0 <= k < <StacksMicroblock as StacksMessageCodec>::spec_ser(m).len(),
    ensures
        <StacksMicroblock as StacksMessageCodec>::spec_parse(
            <StacksMicroblock as StacksMessageCodec>::spec_ser(m).take(k),
        ) == Err::<(Seq<u8>, int), _>(CodecError::Underflow),
{
    let s = <StacksMicroblock as StacksMessageCodec>::spec_ser(m);
    let b = s.take(k);
    if k >= 4 {
        let b0 = b[0];
        let b1 = b[1];
        let b2 = b[2];
        let b3 = b[3];
        let s0 = s[0];
        let s1 = s[1];
        let s2 = s[2];
        let s3 = s[3];
        assert(b0 == s0 && b1 == s1 && b2 == s2 && b3 == s3);
        <u32 as StacksMessageCodec>::lemma_parse_ser(m.len() as u32, m);
        assert(s =~= <u32 as StacksMessageCodec>::spec_ser(m.len() as u32) + m);
        assert(be_u32(b) == be_u32(s));
        assert(be_u32(s) == m.len() as u32);
        assert(b.skip(4).len() == k - 4 < m.len());
    }
}

/// Truncation of an embedded transaction is detected: any strict prefix of its
/// length-prefixed encoding fails to parse with an underflow.
pub proof fn lemma_transaction_truncation(m: Seq<u8>, k: int)
    requires
        <StacksTransaction as StacksMessageCodec>::spec_wf(m),
        0 <= k < <StacksTransaction as StacksMessageCodec>::spec_ser(m).len(),
    ensures
        <StacksTransaction as StacksMessageCodec>::spec_parse(
            <StacksTransaction as StacksMessageCodec>::spec_ser(m).take(k),
        ) == Err::<(Seq<u8>, int), _>(CodecError::Underflow),
{
    let s = <StacksTransaction as StacksMessageCodec>::spec_ser(m);
    let b = s.take(k);
    if k >= 4 {
        let b0 = b[0];
        let b1 = b[1];
        let b2 = b[2];
        let b3 = b[3];
        let s0 = s[0];
        let s1 = s[1];
        let s2 = s[2];
        let s3 = s[3];
        assert(b0 == s0 && b1 == s1 && b2 == s2 && b3 == s3);
        <u32 as StacksMessageCodec>::lemma_parse_ser(m.len() as u32, m);
        assert(s =~= <u32 as StacksMessageCodec>::spec_ser(m.len() as u32) + m);
        assert(be_u32(b) == be_u32(s));
        assert(be_u32(s) == m.len() as u32);
        assert(b.skip(4).len() == k - 4 < m.len());
    }
}

} // verus!
