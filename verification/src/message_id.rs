//! The payload registry: the one-byte message identifiers and the tagged
//! union of payload bodies.  The `Reserved` identifier may never be encoded
//! and is rejected on decode, as is every unassigned tag value.
use vstd::prelude::*;

use crate::codec::{CodecError, StacksMessageCodec};
use crate::payload::{
    BlocksAvailableData, BlocksAvailableDataV, BlocksData, BlocksDataV, BlocksInvData,
    BlocksInvDataV, GetBlocksInv, GetBlocksInvV, GetPoxInv, GetPoxInvV, HandshakeAcceptData,
    HandshakeAcceptDataV, HandshakeData, HandshakeDataV, MicroblocksData, MicroblocksDataV,
    NackData, NackDataV, NatPunchData, NatPunchDataV, PingData, PingDataV, PongData, PongDataV,
    PoxInvData, PoxInvDataV, StacksTransaction,
};
use crate::neighbor::{NeighborsData, NeighborsDataV};

verus! {

/// The identifier byte of each message kind.  `Reserved` is held back: it is
/// never written and always rejected.
#[derive(Clone, Copy, Debug, PartialEq, Eq, Structural)]
pub enum StacksMessageID {
    Handshake,
    HandshakeAccept,
    HandshakeReject,
    GetNeighbors,
    Neighbors,
    GetBlocksInv,
    BlocksInv,
    GetPoxInv,
    PoxInv,
    BlocksAvailable,
    MicroblocksAvailable,
    Blocks,
    Microblocks,
    Transaction,
    Nack,
    Ping,
    Pong,
    NatPunchRequest,
    NatPunchReply,
    Reserved,
}

/// The tag byte each message identifier encodes to.
pub open spec fn spec_message_id_code(id: StacksMessageID) -> u8 {
    match id {
        StacksMessageID::Handshake => 0,
        StacksMessageID::HandshakeAccept => 1,
        StacksMessageID::HandshakeReject => 2,
        StacksMessageID::GetNeighbors => 3,
        StacksMessageID::Neighbors => 4,
        StacksMessageID::GetBlocksInv => 5,
        StacksMessageID::BlocksInv => 6,
        StacksMessageID::GetPoxInv => 7,
        StacksMessageID::PoxInv => 8,
        StacksMessageID::BlocksAvailable => 9,
        StacksMessageID::MicroblocksAvailable => 10,
        StacksMessageID::Blocks => 11,
        StacksMessageID::Microblocks => 12,
        StacksMessageID::Transaction => 13,
        StacksMessageID::Nack => 14,
        StacksMessageID::Ping => 15,
        StacksMessageID::Pong => 16,
        StacksMessageID::NatPunchRequest => 17,
        StacksMessageID::NatPunchReply => 18,
        StacksMessageID::Reserved => 255,
    }
}

/// Which message identifier a tag byte decodes to; unassigned values and
/// the reserved value decode to none.
pub open spec fn spec_message_id_of_code(code: u8) -> Option<StacksMessageID> {
    if code == 0 {
        Some(StacksMessageID::Handshake)
    } else if code == 1 {
        Some(StacksMessageID::HandshakeAccept)
    } else if code == 2 {
        Some(StacksMessageID::HandshakeReject)
    } else if code == 3 {
        Some(StacksMessageID::GetNeighbors)
    } else if code == 4 {
        Some(StacksMessageID::Neighbors)
    } else if code == 5 {
        Some(StacksMessageID::GetBlocksInv)
    } else if code == 6 {
        Some(StacksMessageID::BlocksInv)
    } else if code == 7 {
        Some(StacksMessageID::GetPoxInv)
    } else if code == 8 {
        Some(StacksMessageID::PoxInv)
    } else if code == 9 {
        Some(StacksMessageID::BlocksAvailable)
    } else if code == 10 {
        Some(StacksMessageID::MicroblocksAvailable)
    } else if code == 11 {
        Some(StacksMessageID::Blocks)
    } else if code == 12 {
        Some(StacksMessageID::Microblocks)
    } else if code == 13 {
        Some(StacksMessageID::Transaction)
    } else if code == 14 {
        Some(StacksMessageID::Nack)
    } else if code == 15 {
        Some(StacksMessageID::Ping)
    } else if code == 16 {
        Some(StacksMessageID::Pong)
    } else if code == 17 {
        Some(StacksMessageID::NatPunchRequest)
    } else if code == 18 {
        Some(StacksMessageID::NatPunchReply)
    } else {
        None
    }
}

impl DeepView for StacksMessageID {
    type V = StacksMessageID;

    open spec fn deep_view(&self) -> StacksMessageID {
        *self
    }
}

impl StacksMessageID {
    /// The tag byte this identifier encodes to.
    pub fn to_u8(&self) -> (r: u8)
        ensures
            r == spec_message_id_code(*self),
    {
        match *self {
            StacksMessageID::Handshake => 0,
            StacksMessageID::HandshakeAccept => 1,
            StacksMessageID::HandshakeReject => 2,
            StacksMessageID::GetNeighbors => 3,
            StacksMessageID::Neighbors => 4,
            StacksMessageID::GetBlocksInv => 5,
            StacksMessageID::BlocksInv => 6,
            StacksMessageID::GetPoxInv => 7,
            StacksMessageID::PoxInv => 8,
            StacksMessageID::BlocksAvailable => 9,
            StacksMessageID::MicroblocksAvailable => 10,
            StacksMessageID::Blocks => 11,
            StacksMessageID::Microblocks => 12,
            StacksMessageID::Transaction => 13,
            StacksMessageID::Nack => 14,
            StacksMessageID::Ping => 15,
            StacksMessageID::Pong => 16,
            StacksMessageID::NatPunchRequest => 17,
            StacksMessageID::NatPunchReply => 18,
            StacksMessageID::Reserved => 255,
        }
    }
}

impl StacksMessageCodec for StacksMessageID {
    open spec fn spec_wf(m: StacksMessageID) -> bool {
        m != StacksMessageID::Reserved
    }

    open spec fn spec_ser(m: StacksMessageID) -> Seq<u8> {
        seq![spec_message_id_code(m)]
    }

    open spec fn spec_parse(b: Seq<u8>) -> Result<(StacksMessageID, int), CodecError> {
        if b.len() < 1 {
            Err(CodecError::Underflow)
        } else {
            match spec_message_id_of_code(b[0]) {
                Some(id) => Ok((id, 1)),
                None => Err(CodecError::Deserialize),
            }
        }
    }

    proof fn lemma_parse_sound(b: Seq<u8>) {
        if b.len() >= 1 {
            match spec_message_id_of_code(b[0]) {
                Some(id) => {
                    assert(Self::spec_ser(id) =~= b.subrange(0, 1));
                },
                None => {},
            }
        }
    }

    proof fn lemma_parse_ser(m: StacksMessageID, rest: Seq<u8>) {
        let b = Self::spec_ser(m) + rest;
        assert(b[0] == spec_message_id_code(m));
    }

    fn consensus_serialize(&self, out: &mut Vec<u8>) {
        out.push(self.to_u8());
        assert(out@ =~= old(out)@ + Self::spec_ser(*self));
    }

    fn consensus_deserialize(buf: &Vec<u8>, pos: usize, end: usize) -> (r: Result<
        (StacksMessageID, usize),
        CodecError,
    >) {
        let ghost w = buf@.subrange(pos as int, end as int);
        if pos >= end {
            return Err(CodecError::Underflow);
        }
        let code = buf[pos];
        assert(w[0] == code);
        if code == 0 {
            Ok((StacksMessageID::Handshake, pos + 1))
        } else if code == 1 {
            Ok((StacksMessageID::HandshakeAccept, pos + 1))
        } else if code == 2 {
            Ok((StacksMessageID::HandshakeReject, pos + 1))
        } else if code == 3 {
            Ok((StacksMessageID::GetNeighbors, pos + 1))
        } else if code == 4 {
            Ok((StacksMessageID::Neighbors, pos + 1))
        } else if code == 5 {
            Ok((StacksMessageID::GetBlocksInv, pos + 1))
        } else if code == 6 {
            Ok((StacksMessageID::BlocksInv, pos + 1))
        } else if code == 7 {
            Ok((StacksMessageID::GetPoxInv, pos + 1))
        } else if code == 8 {
            Ok((StacksMessageID::PoxInv, pos + 1))
        } else if code == 9 {
            Ok((StacksMessageID::BlocksAvailable, pos + 1))
        } else if code == 10 {
            Ok((StacksMessageID::MicroblocksAvailable, pos + 1))
        } else if code == 11 {
            Ok((StacksMessageID::Blocks, pos + 1))
        } else if code == 12 {
            Ok((StacksMessageID::Microblocks, pos + 1))
        } else if code == 13 {
            Ok((StacksMessageID::Transaction, pos + 1))
        } else if code == 14 {
            Ok((StacksMessageID::Nack, pos + 1))
        } else if code == 15 {
            Ok((StacksMessageID::Ping, pos + 1))
        } else if code == 16 {
            Ok((StacksMessageID::Pong, pos + 1))
        } else if code == 17 {
            Ok((StacksMessageID::NatPunchRequest, pos + 1))
        } else if code == 18 {
            Ok((StacksMessageID::NatPunchReply, pos + 1))
        } else {
            Err(CodecError::Deserialize)
        }
    }
}

} // verus!
