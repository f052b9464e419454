//! Neighbor addressing: the fixed-size address record that names a peer on
//! the wire, the relay record that a forwarding peer appends to a message,
//! and the bounded neighbor list payload.
use vstd::prelude::*;

use crate::codec::{
    lemma_parse_ser_vec_at_most, lemma_parse_vec_at_most_sound, read_next_at_most, spec_ser_vec,
    spec_parse_vec_at_most, spec_wf_elems, write_next_vec, CodecError, StacksMessageCodec,
};
use crate::types::{Hash160, PeerAddress};
use crate::MAX_NEIGHBORS_DATA_LEN;

verus! {

/// The model of `NeighborAddress`: every field as a plain value.
#[verifier::ext_equal]
pub struct NeighborAddressV {
    pub addrbytes: Seq<u8>,
    pub port: u16,
    pub public_key_hash: Seq<u8>,
}

/// Where a peer may be reached, and the fingerprint of its public key.
#[derive(Clone, Debug, PartialEq, Eq)]
pub struct NeighborAddress {
    pub addrbytes: PeerAddress,
    pub port: u16,
    pub public_key_hash: Hash160,
}

impl DeepView for NeighborAddress {
    type V = NeighborAddressV;

    open spec fn deep_view(&self) -> NeighborAddressV {
        NeighborAddressV {
            addrbytes: self.addrbytes.deep_view(),
            port: self.port.deep_view(),
            public_key_hash: self.public_key_hash.deep_view(),
        }
    }
}

impl StacksMessageCodec for NeighborAddress {
    open spec fn spec_wf(m: NeighborAddressV) -> bool {
        m.addrbytes.len() == 16 && m.public_key_hash.len() == 20
    }

    open spec fn spec_ser(m: NeighborAddressV) -> Seq<u8> {
        <PeerAddress as StacksMessageCodec>::spec_ser(m.addrbytes)
            + <u16 as StacksMessageCodec>::spec_ser(m.port)
            + <Hash160 as StacksMessageCodec>::spec_ser(m.public_key_hash)
    }

    open spec fn spec_parse(b: Seq<u8>) -> Result<(NeighborAddressV, int), CodecError> {
        match <PeerAddress as StacksMessageCodec>::spec_parse(b) {
            Err(e) => Err(e),
            Ok((addrbytes, n0)) => {
                match <u16 as StacksMessageCodec>::spec_parse(b.skip(n0)) {
                    Err(e) => Err(e),
                    Ok((port, n1)) => {
                        match <Hash160 as StacksMessageCodec>::spec_parse(b.skip(n0 + n1)) {
                            Err(e) => Err(e),
                            Ok((public_key_hash, n2)) => {
                                Ok((NeighborAddressV { addrbytes, port, public_key_hash }, n0 + n1 + n2))
                            },
                        }
                    },
                }
            },
        }
    }

    proof fn lemma_parse_sound(b: Seq<u8>) {
        <PeerAddress as StacksMessageCodec>::lemma_parse_sound(b);
        match <PeerAddress as StacksMessageCodec>::spec_parse(b) {
            Err(_) => {},
            Ok((addrbytes, n0)) => {
                <u16 as StacksMessageCodec>::lemma_parse_sound(b.skip(n0));
                match <u16 as StacksMessageCodec>::spec_parse(b.skip(n0)) {
                    Err(_) => {},
                    Ok((port, n1)) => {
                        <Hash160 as StacksMessageCodec>::lemma_parse_sound(b.skip(n0 + n1));
                        match <Hash160 as StacksMessageCodec>::spec_parse(b.skip(n0 + n1)) {
                            Err(_) => {},
                            Ok((public_key_hash, n2)) => {
                                assert(b.skip(n0).subrange(0, n1) =~= b.subrange(n0, n0 + n1));
                                assert(b.skip(n0 + n1).subrange(0, n2) =~= b.subrange(n0 + n1, n0 + n1 + n2));
                                let m = NeighborAddressV { addrbytes, port, public_key_hash };
                                assert(Self::spec_ser(m) =~= b.subrange(0, n0 + n1 + n2));
                            },
                        }
                    },
                }
            },
        }
    }

    proof fn lemma_parse_ser(m: NeighborAddressV, rest: Seq<u8>) {
        let b = Self::spec_ser(m) + rest;
        let l0 = <PeerAddress as StacksMessageCodec>::spec_ser(m.addrbytes).len() as int;
        let l1 = <u16 as StacksMessageCodec>::spec_ser(m.port).len() as int;
        let l2 = <Hash160 as StacksMessageCodec>::spec_ser(m.public_key_hash).len() as int;
        <PeerAddress as StacksMessageCodec>::lemma_parse_ser(m.addrbytes, b.skip(l0));
        assert(b =~= <PeerAddress as StacksMessageCodec>::spec_ser(m.addrbytes) + b.skip(l0));
        <u16 as StacksMessageCodec>::lemma_parse_ser(m.port, b.skip(l0 + l1));
        assert(b.skip(l0) =~= <u16 as StacksMessageCodec>::spec_ser(m.port) + b.skip(l0 + l1));
        <Hash160 as StacksMessageCodec>::lemma_parse_ser(m.public_key_hash, b.skip(l0 + l1 + l2));
        assert(b.skip(l0 + l1) =~= <Hash160 as StacksMessageCodec>::spec_ser(m.public_key_hash) + b.skip(l0 + l1 + l2));
        match Self::spec_parse(b) {
            Ok((m2, n)) => {
                assert(m2 =~= m);
            },
            Err(_) => {
                assert(false);
            },
        }
    }

    fn consensus_serialize(&self, out: &mut Vec<u8>) {
        let ghost m = self.deep_view();
        self.addrbytes.consensus_serialize(out);
        self.port.consensus_serialize(out);
        self.public_key_hash.consensus_serialize(out);
        assert(out@ =~= old(out)@ + Self::spec_ser(m));
    }

    fn consensus_deserialize(buf: &Vec<u8>, pos: usize, end: usize) -> (r: Result<
        (NeighborAddress, usize),
        CodecError,
    >) {
        let ghost w = buf@.subrange(pos as int, end as int);
        let (addrbytes, c0) = match PeerAddress::consensus_deserialize(buf, pos, end) {
            Ok(x) => x,
            Err(e) => {
                return Err(e);
            },
        };
        assert(buf@.subrange(c0 as int, end as int) =~= w.skip(c0 - pos));
        let (port, c1) = match u16::consensus_deserialize(buf, c0, end) {
            Ok(x) => x,
            Err(e) => {
                return Err(e);
            },
        };
        assert(buf@.subrange(c1 as int, end as int) =~= w.skip(c1 - pos));
        let (public_key_hash, c2) = match Hash160::consensus_deserialize(buf, c1, end) {
            Ok(x) => x,
            Err(e) => {
                return Err(e);
            },
        };
        let v = NeighborAddress { addrbytes, port, public_key_hash };
        assert(Self::spec_parse(w) == Ok::<_, CodecError>((v.deep_view(), c2 - pos))) by {
            assert(v.deep_view() =~= (match Self::spec_parse(w) {
                Ok((m, _)) => m,
                Err(_) => v.deep_view(),
            }));
        }
        Ok((v, c2))
    }
}
/// The model of `RelayData`: every field as a plain value.
#[verifier::ext_equal]
pub struct RelayDataV {
    pub peer: NeighborAddressV,
    pub seq: u32,
}

/// One hop of a message's relay chain: the relaying peer and the sequence
/// number the message bore when it passed through.
#[derive(Clone, Debug, PartialEq, Eq)]
pub struct RelayData {
    pub peer: NeighborAddress,
    pub seq: u32,
}

impl DeepView for RelayData {
    type V = RelayDataV;

    open spec fn deep_view(&self) -> RelayDataV {
        RelayDataV {
            peer: self.peer.deep_view(),
            seq: self.seq.deep_view(),
        }
    }
}

impl StacksMessageCodec for RelayData {
    open spec fn spec_wf(m: RelayDataV) -> bool {
        <NeighborAddress as StacksMessageCodec>::spec_wf(m.peer)
    }

    open spec fn spec_ser(m: RelayDataV) -> Seq<u8> {
        <NeighborAddress as StacksMessageCodec>::spec_ser(m.peer)
            + <u32 as StacksMessageCodec>::spec_ser(m.seq)
    }

    open spec fn spec_parse(b: Seq<u8>) -> Result<(RelayDataV, int), CodecError> {
        match <NeighborAddress as StacksMessageCodec>::spec_parse(b) {
            Err(e) => Err(e),
            Ok((peer, n0)) => {
                match <u32 as StacksMessageCodec>::spec_parse(b.skip(n0)) {
                    Err(e) => Err(e),
                    Ok((seq, n1)) => {
                        Ok((RelayDataV { peer, seq }, n0 + n1))
                    },
                }
            },
        }
    }

    proof fn lemma_parse_sound(b: Seq<u8>) {
        <NeighborAddress as StacksMessageCodec>::lemma_parse_sound(b);
        match <NeighborAddress as StacksMessageCodec>::spec_parse(b) {
            Err(_) => {},
            Ok((peer, n0)) => {
                <u32 as StacksMessageCodec>::lemma_parse_sound(b.skip(n0));
                match <u32 as StacksMessageCodec>::spec_parse(b.skip(n0)) {
                    Err(_) => {},
                    Ok((seq, n1)) => {
                        assert(b.skip(n0).subrange(0, n1) =~= b.subrange(n0, n0 + n1));
                        let m = RelayDataV { peer, seq };
                        assert(Self::spec_ser(m) =~= b.subrange(0, n0 + n1));
                    },
                }
            },
        }
    }

    proof fn lemma_parse_ser(m: RelayDataV, rest: Seq<u8>) {
        let b = Self::spec_ser(m) + rest;
        let l0 = <NeighborAddress as StacksMessageCodec>::spec_ser(m.peer).len() as int;
        let l1 = <u32 as StacksMessageCodec>::spec_ser(m.seq).len() as int;
        <NeighborAddress as StacksMessageCodec>::lemma_parse_ser(m.peer, b.skip(l0));
        assert(b =~= <NeighborAddress as StacksMessageCodec>::spec_ser(m.peer) + b.skip(l0));
        <u32 as StacksMessageCodec>::lemma_parse_ser(m.seq, b.skip(l0 + l1));
        assert(b.skip(l0) =~= <u32 as StacksMessageCodec>::spec_ser(m.seq) + b.skip(l0 + l1));
        match Self::spec_parse(b) {
            Ok((m2, n)) => {
                assert(m2 =~= m);
            },
            Err(_) => {
                assert(false);
            },
        }
    }

    fn consensus_serialize(&self, out: &mut Vec<u8>) {
        let ghost m = self.deep_view();
        self.peer.consensus_serialize(out);
        self.seq.consensus_serialize(out);
        assert(out@ =~= old(out)@ + Self::spec_ser(m));
    }

    fn consensus_deserialize(buf: &Vec<u8>, pos: usize, end: usize) -> (r: Result<
        (RelayData, usize),
        CodecError,
    >) {
        let ghost w = buf@.subrange(pos as int, end as int);
        let (peer, c0) = match NeighborAddress::consensus_deserialize(buf, pos, end) {
            Ok(x) => x,
            Err(e) => {
                return Err(e);
            },
        };
        assert(buf@.subrange(c0 as int, end as int) =~= w.skip(c0 - pos));
        let (seq, c1) = match u32::consensus_deserialize(buf, c0, end) {
            Ok(x) => x,
            Err(e) => {
                return Err(e);
            },
        };
        let v = RelayData { peer, seq };
        assert(Self::spec_parse(w) == Ok::<_, CodecError>((v.deep_view(), c1 - pos))) by {
            assert(v.deep_view() =~= (match Self::spec_parse(w) {
                Ok((m, _)) => m,
                Err(_) => v.deep_view(),
            }));
        }
        Ok((v, c1))
    }
}
/// The model of `NeighborsData`: every field as a plain value.
#[verifier::ext_equal]
pub struct NeighborsDataV {
    pub neighbors: Seq<NeighborAddressV>,
}

/// The body of a `Neighbors` reply: at most `MAX_NEIGHBORS_DATA_LEN`
/// neighbor addresses.
#[derive(Clone, Debug, PartialEq, Eq)]
pub struct NeighborsData {
    pub neighbors: Vec<NeighborAddress>,
}

impl DeepView for NeighborsData {
    type V = NeighborsDataV;

    open spec fn deep_view(&self) -> NeighborsDataV {
        NeighborsDataV {
            neighbors: self.neighbors.deep_view(),
        }
    }
}

impl StacksMessageCodec for NeighborsData {
    open spec fn spec_wf(m: NeighborsDataV) -> bool {
        m.neighbors.len() <= MAX_NEIGHBORS_DATA_LEN && spec_wf_elems::<NeighborAddress>(m.neighbors)
    }

    open spec fn spec_ser(m: NeighborsDataV) -> Seq<u8> {
        spec_ser_vec::<NeighborAddress>(m.neighbors)
    }

    open spec fn spec_parse(b: Seq<u8>) -> Result<(NeighborsDataV, int), CodecError> {
        match spec_parse_vec_at_most::<NeighborAddress>(b, MAX_NEIGHBORS_DATA_LEN as int) {
            Err(e) => Err(e),
            Ok((neighbors, n0)) => {
                Ok((NeighborsDataV { neighbors }, n0))
            },
        }
    }

    proof fn lemma_parse_sound(b: Seq<u8>) {
        lemma_parse_vec_at_most_sound::<NeighborAddress>(b, MAX_NEIGHBORS_DATA_LEN as int);
        match spec_parse_vec_at_most::<NeighborAddress>(b, MAX_NEIGHBORS_DATA_LEN as int) {
            Err(_) => {},
            Ok((neighbors, n0)) => {
                let m = NeighborsDataV { neighbors };
                assert(Self::spec_ser(m) =~= b.subrange(0, n0));
            },
        }
    }

    proof fn lemma_parse_ser(m: NeighborsDataV, rest: Seq<u8>) {
        let b = Self::spec_ser(m) + rest;
        let l0 = spec_ser_vec::<NeighborAddress>(m.neighbors).len() as int;
        lemma_parse_ser_vec_at_most::<NeighborAddress>(m.neighbors, b.skip(l0), MAX_NEIGHBORS_DATA_LEN as int);
        assert(b =~= spec_ser_vec::<NeighborAddress>(m.neighbors) + b.skip(l0));
        match Self::spec_parse(b) {
            Ok((m2, n)) => {
                assert(m2 =~= m);
            },
            Err(_) => {
                assert(false);
            },
        }
    }

    fn consensus_serialize(&self, out: &mut Vec<u8>) {
        let ghost m = self.deep_view();
        write_next_vec::<NeighborAddress>(out, &self.neighbors);
        assert(out@ =~= old(out)@ + Self::spec_ser(m));
    }

    fn consensus_deserialize(buf: &Vec<u8>, pos: usize, end: usize) -> (r: Result<
        (NeighborsData, usize),
        CodecError,
    >) {
        let ghost w = buf@.subrange(pos as int, end as int);
        let (neighbors, c0) = match read_next_at_most::<NeighborAddress>(buf, pos, end, MAX_NEIGHBORS_DATA_LEN) {
            Ok(x) => x,
            Err(e) => {
                return Err(e);
            },
        };
        let v = NeighborsData { neighbors };
        assert(Self::spec_parse(w) == Ok::<_, CodecError>((v.deep_view(), c0 - pos))) by {
            assert(v.deep_view() =~= (match Self::spec_parse(w) {
                Ok((m, _)) => m,
                Err(_) => v.deep_view(),
            }));
        }
        Ok((v, c0))
    }
}

} // verus!
