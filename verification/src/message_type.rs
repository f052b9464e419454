//! The tagged payload union: one byte of message identifier, then the
//! variant's body.  Unassigned and reserved identifiers are rejected.
//!
//! The union's parser and serializer are kept opaque, and each variant gets
//! its own characterization lemmas, round-trip lemma, and decoder, so that
//! every proof here involves a single variant's definitions.
use vstd::prelude::*;

use crate::codec::{CodecError, StacksMessageCodec};
use crate::message_id::{spec_message_id_of_code, StacksMessageID};
use crate::payload::{
    BlocksAvailableData, BlocksAvailableDataV, BlocksData, BlocksDataV, BlocksInvData,
    BlocksInvDataV, GetBlocksInv, GetBlocksInvV, GetPoxInv, GetPoxInvV, HandshakeAcceptData,
    HandshakeAcceptDataV, HandshakeData, HandshakeDataV, MicroblocksData, MicroblocksDataV,
    NackData, NackDataV, NatPunchData, NatPunchDataV, PingData, PingDataV, PongData, PongDataV,
    PoxInvData, PoxInvDataV, StacksTransaction,
};
use crate::neighbor::{NeighborsData, NeighborsDataV};

verus! {

/// The model of a payload: the variant with its body's model.
#[verifier::ext_equal]
pub enum StacksMessageTypeV {
    Handshake(HandshakeDataV),
    HandshakeAccept(HandshakeAcceptDataV),
    HandshakeReject,
    GetNeighbors,
    Neighbors(NeighborsDataV),
    GetBlocksInv(GetBlocksInvV),
    BlocksInv(BlocksInvDataV),
    GetPoxInv(GetPoxInvV),
    PoxInv(PoxInvDataV),
    BlocksAvailable(BlocksAvailableDataV),
    MicroblocksAvailable(BlocksAvailableDataV),
    Blocks(BlocksDataV),
    Microblocks(MicroblocksDataV),
    Transaction(Seq<u8>),
    Nack(NackDataV),
    Ping(PingDataV),
    Pong(PongDataV),
    NatPunchRequest(u32),
    NatPunchReply(NatPunchDataV),
}

/// A message payload: one of the protocol's typed bodies.
#[derive(Clone, Debug, PartialEq, Eq)]
pub enum StacksMessageType {
    Handshake(HandshakeData),
    HandshakeAccept(HandshakeAcceptData),
    HandshakeReject,
    GetNeighbors,
    Neighbors(NeighborsData),
    GetBlocksInv(GetBlocksInv),
    BlocksInv(BlocksInvData),
    GetPoxInv(GetPoxInv),
    PoxInv(PoxInvData),
    BlocksAvailable(BlocksAvailableData),
    MicroblocksAvailable(BlocksAvailableData),
    Blocks(BlocksData),
    Microblocks(MicroblocksData),
    Transaction(StacksTransaction),
    Nack(NackData),
    Ping(PingData),
    Pong(PongData),
    NatPunchRequest(u32),
    NatPunchReply(NatPunchData),
}

impl DeepView for StacksMessageType {
    type V = StacksMessageTypeV;

    open spec fn deep_view(&self) -> StacksMessageTypeV {
        match self {
            StacksMessageType::Handshake(d) => StacksMessageTypeV::Handshake(d.deep_view()),
            StacksMessageType::HandshakeAccept(d) => StacksMessageTypeV::HandshakeAccept(d.deep_view()),
            StacksMessageType::HandshakeReject => StacksMessageTypeV::HandshakeReject,
            StacksMessageType::GetNeighbors => StacksMessageTypeV::GetNeighbors,
            StacksMessageType::Neighbors(d) => StacksMessageTypeV::Neighbors(d.deep_view()),
            StacksMessageType::GetBlocksInv(d) => StacksMessageTypeV::GetBlocksInv(d.deep_view()),
            StacksMessageType::BlocksInv(d) => StacksMessageTypeV::BlocksInv(d.deep_view()),
            StacksMessageType::GetPoxInv(d) => StacksMessageTypeV::GetPoxInv(d.deep_view()),
            StacksMessageType::PoxInv(d) => StacksMessageTypeV::PoxInv(d.deep_view()),
            StacksMessageType::BlocksAvailable(d) => StacksMessageTypeV::BlocksAvailable(d.deep_view()),
            StacksMessageType::MicroblocksAvailable(d) => StacksMessageTypeV::MicroblocksAvailable(d.deep_view()),
            StacksMessageType::Blocks(d) => StacksMessageTypeV::Blocks(d.deep_view()),
            StacksMessageType::Microblocks(d) => StacksMessageTypeV::Microblocks(d.deep_view()),
            StacksMessageType::Transaction(d) => StacksMessageTypeV::Transaction(d.deep_view()),
            StacksMessageType::Nack(d) => StacksMessageTypeV::Nack(d.deep_view()),
            StacksMessageType::Ping(d) => StacksMessageTypeV::Ping(d.deep_view()),
            StacksMessageType::Pong(d) => StacksMessageTypeV::Pong(d.deep_view()),
            StacksMessageType::NatPunchRequest(d) => StacksMessageTypeV::NatPunchRequest(d.deep_view()),
            StacksMessageType::NatPunchReply(d) => StacksMessageTypeV::NatPunchReply(d.deep_view()),
        }
    }
}

/// The identifier of a payload's variant, at the model level.
pub open spec fn spec_get_message_id(m: StacksMessageTypeV) -> StacksMessageID {
    match m {
        StacksMessageTypeV::Handshake(_) => StacksMessageID::Handshake,
        StacksMessageTypeV::HandshakeAccept(_) => StacksMessageID::HandshakeAccept,
        StacksMessageTypeV::HandshakeReject => StacksMessageID::HandshakeReject,
        StacksMessageTypeV::GetNeighbors => StacksMessageID::GetNeighbors,
        StacksMessageTypeV::Neighbors(_) => StacksMessageID::Neighbors,
        StacksMessageTypeV::GetBlocksInv(_) => StacksMessageID::GetBlocksInv,
        StacksMessageTypeV::BlocksInv(_) => StacksMessageID::BlocksInv,
        StacksMessageTypeV::GetPoxInv(_) => StacksMessageID::GetPoxInv,
        StacksMessageTypeV::PoxInv(_) => StacksMessageID::PoxInv,
        StacksMessageTypeV::BlocksAvailable(_) => StacksMessageID::BlocksAvailable,
        StacksMessageTypeV::MicroblocksAvailable(_) => StacksMessageID::MicroblocksAvailable,
        StacksMessageTypeV::Blocks(_) => StacksMessageID::Blocks,
        StacksMessageTypeV::Microblocks(_) => StacksMessageID::Microblocks,
        StacksMessageTypeV::Transaction(_) => StacksMessageID::Transaction,
        StacksMessageTypeV::Nack(_) => StacksMessageID::Nack,
        StacksMessageTypeV::Ping(_) => StacksMessageID::Ping,
        StacksMessageTypeV::Pong(_) => StacksMessageID::Pong,
        StacksMessageTypeV::NatPunchRequest(_) => StacksMessageID::NatPunchRequest,
        StacksMessageTypeV::NatPunchReply(_) => StacksMessageID::NatPunchReply,
    }
}

/// The short stable name of a payload's variant, at the model level.
pub open spec fn spec_get_message_name(m: StacksMessageTypeV) -> Seq<char> {
    match m {
        StacksMessageTypeV::Handshake(_) => "Handshake"@,
        StacksMessageTypeV::HandshakeAccept(_) => "HandshakeAccept"@,
        StacksMessageTypeV::HandshakeReject => "HandshakeReject"@,
        StacksMessageTypeV::GetNeighbors => "GetNeighbors"@,
        StacksMessageTypeV::Neighbors(_) => "Neighbors"@,
        StacksMessageTypeV::GetBlocksInv(_) => "GetBlocksInv"@,
        StacksMessageTypeV::BlocksInv(_) => "BlocksInv"@,
        StacksMessageTypeV::GetPoxInv(_) => "GetPoxInv"@,
        StacksMessageTypeV::PoxInv(_) => "PoxInv"@,
        StacksMessageTypeV::BlocksAvailable(_) => "BlocksAvailable"@,
        StacksMessageTypeV::MicroblocksAvailable(_) => "MicroblocksAvailable"@,
        StacksMessageTypeV::Blocks(_) => "Blocks"@,
        StacksMessageTypeV::Microblocks(_) => "Microblocks"@,
        StacksMessageTypeV::Transaction(_) => "Transaction"@,
        StacksMessageTypeV::Nack(_) => "Nack"@,
        StacksMessageTypeV::Ping(_) => "Ping"@,
        StacksMessageTypeV::Pong(_) => "Pong"@,
        StacksMessageTypeV::NatPunchRequest(_) => "NatPunchRequest"@,
        StacksMessageTypeV::NatPunchReply(_) => "NatPunchReply"@,
    }
}

/// Whether a payload model is legal to serialize: its body must be.
pub open spec fn spec_wf_message_type(m: StacksMessageTypeV) -> bool {
    match m {
        StacksMessageTypeV::Handshake(d) => <HandshakeData as StacksMessageCodec>::spec_wf(d),
        StacksMessageTypeV::HandshakeAccept(d) => <HandshakeAcceptData as StacksMessageCodec>::spec_wf(d),
        StacksMessageTypeV::HandshakeReject => true,
        StacksMessageTypeV::GetNeighbors => true,
        StacksMessageTypeV::Neighbors(d) => <NeighborsData as StacksMessageCodec>::spec_wf(d),
        StacksMessageTypeV::GetBlocksInv(d) => <GetBlocksInv as StacksMessageCodec>::spec_wf(d),
        StacksMessageTypeV::BlocksInv(d) => <BlocksInvData as StacksMessageCodec>::spec_wf(d),
        StacksMessageTypeV::GetPoxInv(d) => <GetPoxInv as StacksMessageCodec>::spec_wf(d),
        StacksMessageTypeV::PoxInv(d) => <PoxInvData as StacksMessageCodec>::spec_wf(d),
        StacksMessageTypeV::BlocksAvailable(d) => <BlocksAvailableData as StacksMessageCodec>::spec_wf(d),
        StacksMessageTypeV::MicroblocksAvailable(d) => <BlocksAvailableData as StacksMessageCodec>::spec_wf(d),
        StacksMessageTypeV::Blocks(d) => <BlocksData as StacksMessageCodec>::spec_wf(d),
        StacksMessageTypeV::Microblocks(d) => <MicroblocksData as StacksMessageCodec>::spec_wf(d),
        StacksMessageTypeV::Transaction(d) => <StacksTransaction as StacksMessageCodec>::spec_wf(d),
        StacksMessageTypeV::Nack(d) => <NackData as StacksMessageCodec>::spec_wf(d),
        StacksMessageTypeV::Ping(d) => <PingData as StacksMessageCodec>::spec_wf(d),
        StacksMessageTypeV::Pong(d) => <PongData as StacksMessageCodec>::spec_wf(d),
        StacksMessageTypeV::NatPunchRequest(d) => <u32 as StacksMessageCodec>::spec_wf(d),
        StacksMessageTypeV::NatPunchReply(d) => <NatPunchData as StacksMessageCodec>::spec_wf(d),
    }
}

/// The exact serialization of a payload: the identifier byte, then the
/// variant body's encoding.  Kept opaque; `lemma_ser_at_*` give one
/// variant's equation each.
#[verifier::opaque]
pub open spec fn spec_ser_message_type(m: StacksMessageTypeV) -> Seq<u8> {
    match m {
        StacksMessageTypeV::Handshake(d) => seq![0u8] + <HandshakeData as StacksMessageCodec>::spec_ser(d),
        StacksMessageTypeV::HandshakeAccept(d) => seq![1u8] + <HandshakeAcceptData as StacksMessageCodec>::spec_ser(d),
        StacksMessageTypeV::HandshakeReject => seq![2u8],
        StacksMessageTypeV::GetNeighbors => seq![3u8],
        StacksMessageTypeV::Neighbors(d) => seq![4u8] + <NeighborsData as StacksMessageCodec>::spec_ser(d),
        StacksMessageTypeV::GetBlocksInv(d) => seq![5u8] + <GetBlocksInv as StacksMessageCodec>::spec_ser(d),
        StacksMessageTypeV::BlocksInv(d) => seq![6u8] + <BlocksInvData as StacksMessageCodec>::spec_ser(d),
        StacksMessageTypeV::GetPoxInv(d) => seq![7u8] + <GetPoxInv as StacksMessageCodec>::spec_ser(d),
        StacksMessageTypeV::PoxInv(d) => seq![8u8] + <PoxInvData as StacksMessageCodec>::spec_ser(d),
        StacksMessageTypeV::BlocksAvailable(d) => seq![9u8] + <BlocksAvailableData as StacksMessageCodec>::spec_ser(d),
        StacksMessageTypeV::MicroblocksAvailable(d) => seq![10u8] + <BlocksAvailableData as StacksMessageCodec>::spec_ser(d),
        StacksMessageTypeV::Blocks(d) => seq![11u8] + <BlocksData as StacksMessageCodec>::spec_ser(d),
        StacksMessageTypeV::Microblocks(d) => seq![12u8] + <MicroblocksData as StacksMessageCodec>::spec_ser(d),
        StacksMessageTypeV::Transaction(d) => seq![13u8] + <StacksTransaction as StacksMessageCodec>::spec_ser(d),
        StacksMessageTypeV::Nack(d) => seq![14u8] + <NackData as StacksMessageCodec>::spec_ser(d),
        StacksMessageTypeV::Ping(d) => seq![15u8] + <PingData as StacksMessageCodec>::spec_ser(d),
        StacksMessageTypeV::Pong(d) => seq![16u8] + <PongData as StacksMessageCodec>::spec_ser(d),
        StacksMessageTypeV::NatPunchRequest(d) => seq![17u8] + <u32 as StacksMessageCodec>::spec_ser(d),
        StacksMessageTypeV::NatPunchReply(d) => seq![18u8] + <NatPunchData as StacksMessageCodec>::spec_ser(d),
    }
}

/// The exact parse of a payload: the identifier byte selects the variant
/// whose body is then parsed.  Kept opaque; `lemma_parse_at_*` give one
/// identifier's equation each.
#[verifier::opaque]
pub open spec fn spec_parse_message_type(b: Seq<u8>) -> Result<(StacksMessageTypeV, int), CodecError> {
    if b.len() < 1 {
        Err(CodecError::Underflow)
    } else {
        match spec_message_id_of_code(b[0]) {
            None => Err(CodecError::Deserialize),
            Some(id) => match id {
                StacksMessageID::Handshake => match <HandshakeData as StacksMessageCodec>::spec_parse(
                    b.skip(1),
                ) {
                    Ok((d, n)) => Ok((StacksMessageTypeV::Handshake(d), 1 + n)),
                    Err(e) => Err(e),
                },
                StacksMessageID::HandshakeAccept => match <HandshakeAcceptData as StacksMessageCodec>::spec_parse(
                    b.skip(1),
                ) {
                    Ok((d, n)) => Ok((StacksMessageTypeV::HandshakeAccept(d), 1 + n)),
                    Err(e) => Err(e),
                },
                StacksMessageID::HandshakeReject => Ok((StacksMessageTypeV::HandshakeReject, 1)),
                StacksMessageID::GetNeighbors => Ok((StacksMessageTypeV::GetNeighbors, 1)),
                StacksMessageID::Neighbors => match <NeighborsData as StacksMessageCodec>::spec_parse(
                    b.skip(1),
                ) {
                    Ok((d, n)) => Ok((StacksMessageTypeV::Neighbors(d), 1 + n)),
                    Err(e) => Err(e),
                },
                StacksMessageID::GetBlocksInv => match <GetBlocksInv as StacksMessageCodec>::spec_parse(
                    b.skip(1),
                ) {
                    Ok((d, n)) => Ok((StacksMessageTypeV::GetBlocksInv(d), 1 + n)),
                    Err(e) => Err(e),
                },
                StacksMessageID::BlocksInv => match <BlocksInvData as StacksMessageCodec>::spec_parse(
                    b.skip(1),
                ) {
                    Ok((d, n)) => Ok((StacksMessageTypeV::BlocksInv(d), 1 + n)),
                    Err(e) => Err(e),
                },
                StacksMessageID::GetPoxInv => match <GetPoxInv as StacksMessageCodec>::spec_parse(
                    b.skip(1),
                ) {
                    Ok((d, n)) => Ok((StacksMessageTypeV::GetPoxInv(d), 1 + n)),
                    Err(e) => Err(e),
                },
                StacksMessageID::PoxInv => match <PoxInvData as StacksMessageCodec>::spec_parse(
                    b.skip(1),
                ) {
                    Ok((d, n)) => Ok((StacksMessageTypeV::PoxInv(d), 1 + n)),
                    Err(e) => Err(e),
                },
                StacksMessageID::BlocksAvailable => match <BlocksAvailableData as StacksMessageCodec>::spec_parse(
                    b.skip(1),
                ) {
                    Ok((d, n)) => Ok((StacksMessageTypeV::BlocksAvailable(d), 1 + n)),
                    Err(e) => Err(e),
                },
                StacksMessageID::MicroblocksAvailable => match <BlocksAvailableData as StacksMessageCodec>::spec_parse(
                    b.skip(1),
                ) {
                    Ok((d, n)) => Ok((StacksMessageTypeV::MicroblocksAvailable(d), 1 + n)),
                    Err(e) => Err(e),
                },
                StacksMessageID::Blocks => match <BlocksData as StacksMessageCodec>::spec_parse(
                    b.skip(1),
                ) {
                    Ok((d, n)) => Ok((StacksMessageTypeV::Blocks(d), 1 + n)),
                    Err(e) => Err(e),
                },
                StacksMessageID::Microblocks => match <MicroblocksData as StacksMessageCodec>::spec_parse(
                    b.skip(1),
                ) {
                    Ok((d, n)) => Ok((StacksMessageTypeV::Microblocks(d), 1 + n)),
                    Err(e) => Err(e),
                },
                StacksMessageID::Transaction => match <StacksTransaction as StacksMessageCodec>::spec_parse(
                    b.skip(1),
                ) {
                    Ok((d, n)) => Ok((StacksMessageTypeV::Transaction(d), 1 + n)),
                    Err(e) => Err(e),
                },
                StacksMessageID::Nack => match <NackData as StacksMessageCodec>::spec_parse(
                    b.skip(1),
                ) {
                    Ok((d, n)) => Ok((StacksMessageTypeV::Nack(d), 1 + n)),
                    Err(e) => Err(e),
                },
                StacksMessageID::Ping => match <PingData as StacksMessageCodec>::spec_parse(
                    b.skip(1),
                ) {
                    Ok((d, n)) => Ok((StacksMessageTypeV::Ping(d), 1 + n)),
                    Err(e) => Err(e),
                },
                StacksMessageID::Pong => match <PongData as StacksMessageCodec>::spec_parse(
                    b.skip(1),
                ) {
                    Ok((d, n)) => Ok((StacksMessageTypeV::Pong(d), 1 + n)),
                    Err(e) => Err(e),
                },
                StacksMessageID::NatPunchRequest => match <u32 as StacksMessageCodec>::spec_parse(
                    b.skip(1),
                ) {
                    Ok((d, n)) => Ok((StacksMessageTypeV::NatPunchRequest(d), 1 + n)),
                    Err(e) => Err(e),
                },
                StacksMessageID::NatPunchReply => match <NatPunchData as StacksMessageCodec>::spec_parse(
                    b.skip(1),
                ) {
                    Ok((d, n)) => Ok((StacksMessageTypeV::NatPunchReply(d), 1 + n)),
                    Err(e) => Err(e),
                },
                StacksMessageID::Reserved => Err(CodecError::Deserialize),
            },
        }
    }
}

/// A payload cannot parse from an empty byte string.
pub proof fn lemma_parse_empty(b: Seq<u8>)
    requires
        b.len() < 1,
    ensures
        spec_parse_message_type(b) == Err::<(StacksMessageTypeV, int), _>(CodecError::Underflow),
{
    reveal(spec_parse_message_type);
}

/// A payload does not parse from an identifier byte that names no message kind.
pub proof fn lemma_parse_at_unknown(b: Seq<u8>)
    requires
        b.len() >= 1,
        spec_message_id_of_code(b[0]) is None,
    ensures
        spec_parse_message_type(b) == Err::<(StacksMessageTypeV, int), _>(CodecError::Deserialize),
{
    reveal(spec_parse_message_type);
}

/// How the payload parses when the identifier byte is `Handshake`'s.
pub proof fn lemma_parse_at_handshake(b: Seq<u8>)
    requires
        b.len() >= 1,
        b[0] == 0u8,
    ensures
        spec_parse_message_type(b) == (match <HandshakeData as StacksMessageCodec>::spec_parse(
            b.skip(1),
        ) {
            Ok((d, n)) => Ok::<_, CodecError>((StacksMessageTypeV::Handshake(d), 1 + n)),
            Err(e) => Err(e),
        }),
{
    reveal(spec_parse_message_type);
}

/// The serialization equation of the `Handshake` variant.
pub proof fn lemma_ser_at_handshake(d: HandshakeDataV)
    ensures
        spec_ser_message_type(StacksMessageTypeV::Handshake(d)) == seq![0u8]
            + <HandshakeData as StacksMessageCodec>::spec_ser(d),
{
    reveal(spec_ser_message_type);
}

/// How the payload parses when the identifier byte is `HandshakeAccept`'s.
pub proof fn lemma_parse_at_handshakeaccept(b: Seq<u8>)
    requires
        b.len() >= 1,
        b[0] == 1u8,
    ensures
        spec_parse_message_type(b) == (match <HandshakeAcceptData as StacksMessageCodec>::spec_parse(
            b.skip(1),
        ) {
            Ok((d, n)) => Ok::<_, CodecError>((StacksMessageTypeV::HandshakeAccept(d), 1 + n)),
            Err(e) => Err(e),
        }),
{
    reveal(spec_parse_message_type);
}

/// The serialization equation of the `HandshakeAccept` variant.
pub proof fn lemma_ser_at_handshakeaccept(d: HandshakeAcceptDataV)
    ensures
        spec_ser_message_type(StacksMessageTypeV::HandshakeAccept(d)) == seq![1u8]
            + <HandshakeAcceptData as StacksMessageCodec>::spec_ser(d),
{
    reveal(spec_ser_message_type);
}

/// How the payload parses when the identifier byte is `HandshakeReject`'s.
pub proof fn lemma_parse_at_handshakereject(b: Seq<u8>)
    requires
        b.len() >= 1,
        b[0] == 2u8,
    ensures
        spec_parse_message_type(b) == Ok::<_, CodecError>((StacksMessageTypeV::HandshakeReject, 1int)),
{
    reveal(spec_parse_message_type);
}

/// The serialization equation of the `HandshakeReject` variant.
pub proof fn lemma_ser_at_handshakereject()
    ensures
        spec_ser_message_type(StacksMessageTypeV::HandshakeReject) == seq![2u8],
{
    reveal(spec_ser_message_type);
}

/// How the payload parses when the identifier byte is `GetNeighbors`'s.
pub proof fn lemma_parse_at_getneighbors(b: Seq<u8>)
    requires
        b.len() >= 1,
        b[0] == 3u8,
    ensures
        spec_parse_message_type(b) == Ok::<_, CodecError>((StacksMessageTypeV::GetNeighbors, 1int)),
{
    reveal(spec_parse_message_type);
}

/// The serialization equation of the `GetNeighbors` variant.
pub proof fn lemma_ser_at_getneighbors()
    ensures
        spec_ser_message_type(StacksMessageTypeV::GetNeighbors) == seq![3u8],
{
    reveal(spec_ser_message_type);
}

/// How the payload parses when the identifier byte is `Neighbors`'s.
pub proof fn lemma_parse_at_neighbors(b: Seq<u8>)
    requires
        b.len() >= 1,
        b[0] == 4u8,
    ensures
        spec_parse_message_type(b) == (match <NeighborsData as StacksMessageCodec>::spec_parse(
            b.skip(1),
        ) {
            Ok((d, n)) => Ok::<_, CodecError>((StacksMessageTypeV::Neighbors(d), 1 + n)),
            Err(e) => Err(e),
        }),
{
    reveal(spec_parse_message_type);
}

/// The serialization equation of the `Neighbors` variant.
pub proof fn lemma_ser_at_neighbors(d: NeighborsDataV)
    ensures
        spec_ser_message_type(StacksMessageTypeV::Neighbors(d)) == seq![4u8]
            + <NeighborsData as StacksMessageCodec>::spec_ser(d),
{
    reveal(spec_ser_message_type);
}

/// How the payload parses when the identifier byte is `GetBlocksInv`'s.
pub proof fn lemma_parse_at_getblocksinv(b: Seq<u8>)
    requires
        b.len() >= 1,
        b[0] == 5u8,
    ensures
        spec_parse_message_type(b) == (match <GetBlocksInv as StacksMessageCodec>::spec_parse(
            b.skip(1),
        ) {
            Ok((d, n)) => Ok::<_, CodecError>((StacksMessageTypeV::GetBlocksInv(d), 1 + n)),
            Err(e) => Err(e),
        }),
{
    reveal(spec_parse_message_type);
}

/// The serialization equation of the `GetBlocksInv` variant.
pub proof fn lemma_ser_at_getblocksinv(d: GetBlocksInvV)
    ensures
        spec_ser_message_type(StacksMessageTypeV::GetBlocksInv(d)) == seq![5u8]
            + <GetBlocksInv as StacksMessageCodec>::spec_ser(d),
{
    reveal(spec_ser_message_type);
}

/// How the payload parses when the identifier byte is `BlocksInv`'s.
pub proof fn lemma_parse_at_blocksinv(b: Seq<u8>)
    requires
        b.len() >= 1,
        b[0] == 6u8,
    ensures
        spec_parse_message_type(b) == (match <BlocksInvData as StacksMessageCodec>::spec_parse(
            b.skip(1),
        ) {
            Ok((d, n)) => Ok::<_, CodecError>((StacksMessageTypeV::BlocksInv(d), 1 + n)),
            Err(e) => Err(e),
        }),
{
    reveal(spec_parse_message_type);
}

/// The serialization equation of the `BlocksInv` variant.
pub proof fn lemma_ser_at_blocksinv(d: BlocksInvDataV)
    ensures
        spec_ser_message_type(StacksMessageTypeV::BlocksInv(d)) == seq![6u8]
            + <BlocksInvData as StacksMessageCodec>::spec_ser(d),
{
    reveal(spec_ser_message_type);
}

/// How the payload parses when the identifier byte is `GetPoxInv`'s.
pub proof fn lemma_parse_at_getpoxinv(b: Seq<u8>)
    requires
        b.len() >= 1,
        b[0] == 7u8,
    ensures
        spec_parse_message_type(b) == (match <GetPoxInv as StacksMessageCodec>::spec_parse(
            b.skip(1),
        ) {
            Ok((d, n)) => Ok::<_, CodecError>((StacksMessageTypeV::GetPoxInv(d), 1 + n)),
            Err(e) => Err(e),
        }),
{
    reveal(spec_parse_message_type);
}

/// The serialization equation of the `GetPoxInv` variant.
pub proof fn lemma_ser_at_getpoxinv(d: GetPoxInvV)
    ensures
        spec_ser_message_type(StacksMessageTypeV::GetPoxInv(d)) == seq![7u8]
            + <GetPoxInv as StacksMessageCodec>::spec_ser(d),
{
    reveal(spec_ser_message_type);
}

/// How the payload parses when the identifier byte is `PoxInv`'s.
pub proof fn lemma_parse_at_poxinv(b: Seq<u8>)
    requires
        b.len() >= 1,
        b[0] == 8u8,
    ensures
        spec_parse_message_type(b) == (match <PoxInvData as StacksMessageCodec>::spec_parse(
            b.skip(1),
        ) {
            Ok((d, n)) => Ok::<_, CodecError>((StacksMessageTypeV::PoxInv(d), 1 + n)),
            Err(e) => Err(e),
        }),
{
    reveal(spec_parse_message_type);
}

/// The serialization equation of the `PoxInv` variant.
pub proof fn lemma_ser_at_poxinv(d: PoxInvDataV)
    ensures
        spec_ser_message_type(StacksMessageTypeV::PoxInv(d)) == seq![8u8]
            + <PoxInvData as StacksMessageCodec>::spec_ser(d),
{
    reveal(spec_ser_message_type);
}

/// How the payload parses when the identifier byte is `BlocksAvailable`'s.
pub proof fn lemma_parse_at_blocksavailable(b: Seq<u8>)
    requires
        b.len() >= 1,
        b[0] == 9u8,
    ensures
        spec_parse_message_type(b) == (match <BlocksAvailableData as StacksMessageCodec>::spec_parse(
            b.skip(1),
        ) {
            Ok((d, n)) => Ok::<_, CodecError>((StacksMessageTypeV::BlocksAvailable(d), 1 + n)),
            Err(e) => Err(e),
        }),
{
    reveal(spec_parse_message_type);
}

/// The serialization equation of the `BlocksAvailable` variant.
pub proof fn lemma_ser_at_blocksavailable(d: BlocksAvailableDataV)
    ensures
        spec_ser_message_type(StacksMessageTypeV::BlocksAvailable(d)) == seq![9u8]
            + <BlocksAvailableData as StacksMessageCodec>::spec_ser(d),
{
    reveal(spec_ser_message_type);
}

/// How the payload parses when the identifier byte is `MicroblocksAvailable`'s.
pub proof fn lemma_parse_at_microblocksavailable(b: Seq<u8>)
    requires
        b.len() >= 1,
        b[0] == 10u8,
    ensures
        spec_parse_message_type(b) == (match <BlocksAvailableData as StacksMessageCodec>::spec_parse(
            b.skip(1),
        ) {
            Ok((d, n)) => Ok::<_, CodecError>((StacksMessageTypeV::MicroblocksAvailable(d), 1 + n)),
            Err(e) => Err(e),
        }),
{
    reveal(spec_parse_message_type);
}

/// The serialization equation of the `MicroblocksAvailable` variant.
pub proof fn lemma_ser_at_microblocksavailable(d: BlocksAvailableDataV)
    ensures
        spec_ser_message_type(StacksMessageTypeV::MicroblocksAvailable(d)) == seq![10u8]
            + <BlocksAvailableData as StacksMessageCodec>::spec_ser(d),
{
    reveal(spec_ser_message_type);
}

/// How the payload parses when the identifier byte is `Blocks`'s.
pub proof fn lemma_parse_at_blocks(b: Seq<u8>)
    requires
        b.len() >= 1,
        b[0] == 11u8,
    ensures
        spec_parse_message_type(b) == (match <BlocksData as StacksMessageCodec>::spec_parse(
            b.skip(1),
        ) {
            Ok((d, n)) => Ok::<_, CodecError>((StacksMessageTypeV::Blocks(d), 1 + n)),
            Err(e) => Err(e),
        }),
{
    reveal(spec_parse_message_type);
}

/// The serialization equation of the `Blocks` variant.
pub proof fn lemma_ser_at_blocks(d: BlocksDataV)
    ensures
        spec_ser_message_type(StacksMessageTypeV::Blocks(d)) == seq![11u8]
            + <BlocksData as StacksMessageCodec>::spec_ser(d),
{
    reveal(spec_ser_message_type);
}

/// How the payload parses when the identifier byte is `Microblocks`'s.
pub proof fn lemma_parse_at_microblocks(b: Seq<u8>)
    requires
        b.len() >= 1,
        b[0] == 12u8,
    ensures
        spec_parse_message_type(b) == (match <MicroblocksData as StacksMessageCodec>::spec_parse(
            b.skip(1),
        ) {
            Ok((d, n)) => Ok::<_, CodecError>((StacksMessageTypeV::Microblocks(d), 1 + n)),
            Err(e) => Err(e),
        }),
{
    reveal(spec_parse_message_type);
}

/// The serialization equation of the `Microblocks` variant.
pub proof fn lemma_ser_at_microblocks(d: MicroblocksDataV)
    ensures
        spec_ser_message_type(StacksMessageTypeV::Microblocks(d)) == seq![12u8]
            + <MicroblocksData as StacksMessageCodec>::spec_ser(d),
{
    reveal(spec_ser_message_type);
}

/// How the payload parses when the identifier byte is `Transaction`'s.
pub proof fn lemma_parse_at_transaction(b: Seq<u8>)
    requires
        b.len() >= 1,
        b[0] == 13u8,
    ensures
        spec_parse_message_type(b) == (match <StacksTransaction as StacksMessageCodec>::spec_parse(
            b.skip(1),
        ) {
            Ok((d, n)) => Ok::<_, CodecError>((StacksMessageTypeV::Transaction(d), 1 + n)),
            Err(e) => Err(e),
        }),
{
    reveal(spec_parse_message_type);
}

/// The serialization equation of the `Transaction` variant.
pub proof fn lemma_ser_at_transaction(d: Seq<u8>)
    ensures
        spec_ser_message_type(StacksMessageTypeV::Transaction(d)) == seq![13u8]
            + <StacksTransaction as StacksMessageCodec>::spec_ser(d),
{
    reveal(spec_ser_message_type);
}

/// How the payload parses when the identifier byte is `Nack`'s.
pub proof fn lemma_parse_at_nack(b: Seq<u8>)
    requires
        b.len() >= 1,
        b[0] == 14u8,
    ensures
        spec_parse_message_type(b) == (match <NackData as StacksMessageCodec>::spec_parse(
            b.skip(1),
        ) {
            Ok((d, n)) => Ok::<_, CodecError>((StacksMessageTypeV::Nack(d), 1 + n)),
            Err(e) => Err(e),
        }),
{
    reveal(spec_parse_message_type);
}

/// The serialization equation of the `Nack` variant.
pub proof fn lemma_ser_at_nack(d: NackDataV)
    ensures
        spec_ser_message_type(StacksMessageTypeV::Nack(d)) == seq![14u8]
            + <NackData as StacksMessageCodec>::spec_ser(d),
{
    reveal(spec_ser_message_type);
}

/// How the payload parses when the identifier byte is `Ping`'s.
pub proof fn lemma_parse_at_ping(b: Seq<u8>)
    requires
        b.len() >= 1,
        b[0] == 15u8,
    ensures
        spec_parse_message_type(b) == (match <PingData as StacksMessageCodec>::spec_parse(
            b.skip(1),
        ) {
            Ok((d, n)) => Ok::<_, CodecError>((StacksMessageTypeV::Ping(d), 1 + n)),
            Err(e) => Err(e),
        }),
{
    reveal(spec_parse_message_type);
}

/// The serialization equation of the `Ping` variant.
pub proof fn lemma_ser_at_ping(d: PingDataV)
    ensures
        spec_ser_message_type(StacksMessageTypeV::Ping(d)) == seq![15u8]
            + <PingData as StacksMessageCodec>::spec_ser(d),
{
    reveal(spec_ser_message_type);
}

/// How the payload parses when the identifier byte is `Pong`'s.
pub proof fn lemma_parse_at_pong(b: Seq<u8>)
    requires
        b.len() >= 1,
        b[0] == 16u8,
    ensures
        spec_parse_message_type(b) == (match <PongData as StacksMessageCodec>::spec_parse(
            b.skip(1),
        ) {
            Ok((d, n)) => Ok::<_, CodecError>((StacksMessageTypeV::Pong(d), 1 + n)),
            Err(e) => Err(e),
        }),
{
    reveal(spec_parse_message_type);
}

/// The serialization equation of the `Pong` variant.
pub proof fn lemma_ser_at_pong(d: PongDataV)
    ensures
        spec_ser_message_type(StacksMessageTypeV::Pong(d)) == seq![16u8]
            + <PongData as StacksMessageCodec>::spec_ser(d),
{
    reveal(spec_ser_message_type);
}

/// How the payload parses when the identifier byte is `NatPunchRequest`'s.
pub proof fn lemma_parse_at_natpunchrequest(b: Seq<u8>)
    requires
        b.len() >= 1,
        b[0] == 17u8,
    ensures
        spec_parse_message_type(b) == (match <u32 as StacksMessageCodec>::spec_parse(
            b.skip(1),
        ) {
            Ok((d, n)) => Ok::<_, CodecError>((StacksMessageTypeV::NatPunchRequest(d), 1 + n)),
            Err(e) => Err(e),
        }),
{
    reveal(spec_parse_message_type);
}

/// The serialization equation of the `NatPunchRequest` variant.
pub proof fn lemma_ser_at_natpunchrequest(d: u32)
    ensures
        spec_ser_message_type(StacksMessageTypeV::NatPunchRequest(d)) == seq![17u8]
            + <u32 as StacksMessageCodec>::spec_ser(d),
{
    reveal(spec_ser_message_type);
}

/// How the payload parses when the identifier byte is `NatPunchReply`'s.
pub proof fn lemma_parse_at_natpunchreply(b: Seq<u8>)
    requires
        b.len() >= 1,
        b[0] == 18u8,
    ensures
        spec_parse_message_type(b) == (match <NatPunchData as StacksMessageCodec>::spec_parse(
            b.skip(1),
        ) {
            Ok((d, n)) => Ok::<_, CodecError>((StacksMessageTypeV::NatPunchReply(d), 1 + n)),
            Err(e) => Err(e),
        }),
{
    reveal(spec_parse_message_type);
}

/// The serialization equation of the `NatPunchReply` variant.
pub proof fn lemma_ser_at_natpunchreply(d: NatPunchDataV)
    ensures
        spec_ser_message_type(StacksMessageTypeV::NatPunchReply(d)) == seq![18u8]
            + <NatPunchData as StacksMessageCodec>::spec_ser(d),
{
    reveal(spec_ser_message_type);
}

proof fn lemma_sound_handshake(b: Seq<u8>)
    requires
        b.len() >= 1,
        b[0] == 0u8,
    ensures
        match spec_parse_message_type(b) {
            Ok((m, n)) => spec_wf_message_type(m) && 0 <= n <= b.len()
                && spec_ser_message_type(m) == b.subrange(0, n),
            Err(_) => true,
        },
{
    lemma_parse_at_handshake(b);
    <HandshakeData as StacksMessageCodec>::lemma_parse_sound(b.skip(1));
    match <HandshakeData as StacksMessageCodec>::spec_parse(b.skip(1)) {
        Ok((d, n)) => {
            lemma_ser_at_handshake(d);
            assert(seq![0u8] + b.skip(1).subrange(0, n) =~= b.subrange(0, 1 + n));
        },
        Err(_) => {},
    }
}

proof fn lemma_sound_handshakeaccept(b: Seq<u8>)
    requires
        b.len() >= 1,
        b[0] == 1u8,
    ensures
        match spec_parse_message_type(b) {
            Ok((m, n)) => spec_wf_message_type(m) && 0 <= n <= b.len()
                && spec_ser_message_type(m) == b.subrange(0, n),
            Err(_) => true,
        },
{
    lemma_parse_at_handshakeaccept(b);
    <HandshakeAcceptData as StacksMessageCodec>::lemma_parse_sound(b.skip(1));
    match <HandshakeAcceptData as StacksMessageCodec>::spec_parse(b.skip(1)) {
        Ok((d, n)) => {
            lemma_ser_at_handshakeaccept(d);
            assert(seq![1u8] + b.skip(1).subrange(0, n) =~= b.subrange(0, 1 + n));
        },
        Err(_) => {},
    }
}

proof fn lemma_sound_handshakereject(b: Seq<u8>)
    requires
        b.len() >= 1,
        b[0] == 2u8,
    ensures
        match spec_parse_message_type(b) {
            Ok((m, n)) => spec_wf_message_type(m) && 0 <= n <= b.len()
                && spec_ser_message_type(m) == b.subrange(0, n),
            Err(_) => true,
        },
{
    lemma_parse_at_handshakereject(b);
    lemma_ser_at_handshakereject();
    assert(seq![2u8] =~= b.subrange(0, 1));
}

proof fn lemma_sound_getneighbors(b: Seq<u8>)
    requires
        b.len() >= 1,
        b[0] == 3u8,
    ensures
        match spec_parse_message_type(b) {
            Ok((m, n)) => spec_wf_message_type(m) && 0 <= n <= b.len()
                && spec_ser_message_type(m) == b.subrange(0, n),
            Err(_) => true,
        },
{
    lemma_parse_at_getneighbors(b);
    lemma_ser_at_getneighbors();
    assert(seq![3u8] =~= b.subrange(0, 1));
}

proof fn lemma_sound_neighbors(b: Seq<u8>)
    requires
        b.len() >= 1,
        b[0] == 4u8,
    ensures
        match spec_parse_message_type(b) {
            Ok((m, n)) => spec_wf_message_type(m) && 0 <= n <= b.len()
                && spec_ser_message_type(m) == b.subrange(0, n),
            Err(_) => true,
        },
{
    lemma_parse_at_neighbors(b);
    <NeighborsData as StacksMessageCodec>::lemma_parse_sound(b.skip(1));
    match <NeighborsData as StacksMessageCodec>::spec_parse(b.skip(1)) {
        Ok((d, n)) => {
            lemma_ser_at_neighbors(d);
            assert(seq![4u8] + b.skip(1).subrange(0, n) =~= b.subrange(0, 1 + n));
        },
        Err(_) => {},
    }
}

proof fn lemma_sound_getblocksinv(b: Seq<u8>)
    requires
        b.len() >= 1,
        b[0] == 5u8,
    ensures
        match spec_parse_message_type(b) {
            Ok((m, n)) => spec_wf_message_type(m) && 0 <= n <= b.len()
                && spec_ser_message_type(m) == b.subrange(0, n),
            Err(_) => true,
        },
{
    lemma_parse_at_getblocksinv(b);
    <GetBlocksInv as StacksMessageCodec>::lemma_parse_sound(b.skip(1));
    match <GetBlocksInv as StacksMessageCodec>::spec_parse(b.skip(1)) {
        Ok((d, n)) => {
            lemma_ser_at_getblocksinv(d);
            assert(seq![5u8] + b.skip(1).subrange(0, n) =~= b.subrange(0, 1 + n));
        },
        Err(_) => {},
    }
}

proof fn lemma_sound_blocksinv(b: Seq<u8>)
    requires
        b.len() >= 1,
        b[0] == 6u8,
    ensures
        match spec_parse_message_type(b) {
            Ok((m, n)) => spec_wf_message_type(m) && 0 <= n <= b.len()
                && spec_ser_message_type(m) == b.subrange(0, n),
            Err(_) => true,
        },
{
    lemma_parse_at_blocksinv(b);
    <BlocksInvData as StacksMessageCodec>::lemma_parse_sound(b.skip(1));
    match <BlocksInvData as StacksMessageCodec>::spec_parse(b.skip(1)) {
        Ok((d, n)) => {
            lemma_ser_at_blocksinv(d);
            assert(seq![6u8] + b.skip(1).subrange(0, n) =~= b.subrange(0, 1 + n));
        },
        Err(_) => {},
    }
}

proof fn lemma_sound_getpoxinv(b: Seq<u8>)
    requires
        b.len() >= 1,
        b[0] == 7u8,
    ensures
        match spec_parse_message_type(b) {
            Ok((m, n)) => spec_wf_message_type(m) && 0 <= n <= b.len()
                && spec_ser_message_type(m) == b.subrange(0, n),
            Err(_) => true,
        },
{
    lemma_parse_at_getpoxinv(b);
    <GetPoxInv as StacksMessageCodec>::lemma_parse_sound(b.skip(1));
    match <GetPoxInv as StacksMessageCodec>::spec_parse(b.skip(1)) {
        Ok((d, n)) => {
            lemma_ser_at_getpoxinv(d);
            assert(seq![7u8] + b.skip(1).subrange(0, n) =~= b.subrange(0, 1 + n));
        },
        Err(_) => {},
    }
}

proof fn lemma_sound_poxinv(b: Seq<u8>)
    requires
        b.len() >= 1,
        b[0] == 8u8,
    ensures
        match spec_parse_message_type(b) {
            Ok((m, n)) => spec_wf_message_type(m) && 0 <= n <= b.len()
                && spec_ser_message_type(m) == b.subrange(0, n),
            Err(_) => true,
        },
{
    lemma_parse_at_poxinv(b);
    <PoxInvData as StacksMessageCodec>::lemma_parse_sound(b.skip(1));
    match <PoxInvData as StacksMessageCodec>::spec_parse(b.skip(1)) {
        Ok((d, n)) => {
            lemma_ser_at_poxinv(d);
            assert(seq![8u8] + b.skip(1).subrange(0, n) =~= b.subrange(0, 1 + n));
        },
        Err(_) => {},
    }
}

proof fn lemma_sound_blocksavailable(b: Seq<u8>)
    requires
        b.len() >= 1,
        b[0] == 9u8,
    ensures
        match spec_parse_message_type(b) {
            Ok((m, n)) => spec_wf_message_type(m) && 0 <= n <= b.len()
                && spec_ser_message_type(m) == b.subrange(0, n),
            Err(_) => true,
        },
{
    lemma_parse_at_blocksavailable(b);
    <BlocksAvailableData as StacksMessageCodec>::lemma_parse_sound(b.skip(1));
    match <BlocksAvailableData as StacksMessageCodec>::spec_parse(b.skip(1)) {
        Ok((d, n)) => {
            lemma_ser_at_blocksavailable(d);
            assert(seq![9u8] + b.skip(1).subrange(0, n) =~= b.subrange(0, 1 + n));
        },
        Err(_) => {},
    }
}

proof fn lemma_sound_microblocksavailable(b: Seq<u8>)
    requires
        b.len() >= 1,
        b[0] == 10u8,
    ensures
        match spec_parse_message_type(b) {
            Ok((m, n)) => spec_wf_message_type(m) && 0 <= n <= b.len()
                && spec_ser_message_type(m) == b.subrange(0, n),
            Err(_) => true,
        },
{
    lemma_parse_at_microblocksavailable(b);
    <BlocksAvailableData as StacksMessageCodec>::lemma_parse_sound(b.skip(1));
    match <BlocksAvailableData as StacksMessageCodec>::spec_parse(b.skip(1)) {
        Ok((d, n)) => {
            lemma_ser_at_microblocksavailable(d);
            assert(seq![10u8] + b.skip(1).subrange(0, n) =~= b.subrange(0, 1 + n));
        },
        Err(_) => {},
    }
}

proof fn lemma_sound_blocks(b: Seq<u8>)
    requires
        b.len() >= 1,
        b[0] == 11u8,
    ensures
        match spec_parse_message_type(b) {
            Ok((m, n)) => spec_wf_message_type(m) && 0 <= n <= b.len()
                && spec_ser_message_type(m) == b.subrange(0, n),
            Err(_) => true,
        },
{
    lemma_parse_at_blocks(b);
    <BlocksData as StacksMessageCodec>::lemma_parse_sound(b.skip(1));
    match <BlocksData as StacksMessageCodec>::spec_parse(b.skip(1)) {
        Ok((d, n)) => {
            lemma_ser_at_blocks(d);
            assert(seq![11u8] + b.skip(1).subrange(0, n) =~= b.subrange(0, 1 + n));
        },
        Err(_) => {},
    }
}

proof fn lemma_sound_microblocks(b: Seq<u8>)
    requires
        b.len() >= 1,
        b[0] == 12u8,
    ensures
        match spec_parse_message_type(b) {
            Ok((m, n)) => spec_wf_message_type(m) && 0 <= n <= b.len()
                && spec_ser_message_type(m) == b.subrange(0, n),
            Err(_) => true,
        },
{
    lemma_parse_at_microblocks(b);
    <MicroblocksData as StacksMessageCodec>::lemma_parse_sound(b.skip(1));
    match <MicroblocksData as StacksMessageCodec>::spec_parse(b.skip(1)) {
        Ok((d, n)) => {
            lemma_ser_at_microblocks(d);
            assert(seq![12u8] + b.skip(1).subrange(0, n) =~= b.subrange(0, 1 + n));
        },
        Err(_) => {},
    }
}

proof fn lemma_sound_transaction(b: Seq<u8>)
    requires
        b.len() >= 1,
        b[0] == 13u8,
    ensures
        match spec_parse_message_type(b) {
            Ok((m, n)) => spec_wf_message_type(m) && 0 <= n <= b.len()
                && spec_ser_message_type(m) == b.subrange(0, n),
            Err(_) => true,
        },
{
    lemma_parse_at_transaction(b);
    <StacksTransaction as StacksMessageCodec>::lemma_parse_sound(b.skip(1));
    match <StacksTransaction as StacksMessageCodec>::spec_parse(b.skip(1)) {
        Ok((d, n)) => {
            lemma_ser_at_transaction(d);
            assert(seq![13u8] + b.skip(1).subrange(0, n) =~= b.subrange(0, 1 + n));
        },
        Err(_) => {},
    }
}

proof fn lemma_sound_nack(b: Seq<u8>)
    requires
        b.len() >= 1,
        b[0] == 14u8,
    ensures
        match spec_parse_message_type(b) {
            Ok((m, n)) => spec_wf_message_type(m) && 0 <= n <= b.len()
                && spec_ser_message_type(m) == b.subrange(0, n),
            Err(_) => true,
        },
{
    lemma_parse_at_nack(b);
    <NackData as StacksMessageCodec>::lemma_parse_sound(b.skip(1));
    match <NackData as StacksMessageCodec>::spec_parse(b.skip(1)) {
        Ok((d, n)) => {
            lemma_ser_at_nack(d);
            assert(seq![14u8] + b.skip(1).subrange(0, n) =~= b.subrange(0, 1 + n));
        },
        Err(_) => {},
    }
}

proof fn lemma_sound_ping(b: Seq<u8>)
    requires
        b.len() >= 1,
        b[0] == 15u8,
    ensures
        match spec_parse_message_type(b) {
            Ok((m, n)) => spec_wf_message_type(m) && 0 <= n <= b.len()
                && spec_ser_message_type(m) == b.subrange(0, n),
            Err(_) => true,
        },
{
    lemma_parse_at_ping(b);
    <PingData as StacksMessageCodec>::lemma_parse_sound(b.skip(1));
    match <PingData as StacksMessageCodec>::spec_parse(b.skip(1)) {
        Ok((d, n)) => {
            lemma_ser_at_ping(d);
            assert(seq![15u8] + b.skip(1).subrange(0, n) =~= b.subrange(0, 1 + n));
        },
        Err(_) => {},
    }
}

proof fn lemma_sound_pong(b: Seq<u8>)
    requires
        b.len() >= 1,
        b[0] == 16u8,
    ensures
        match spec_parse_message_type(b) {
            Ok((m, n)) => spec_wf_message_type(m) && 0 <= n <= b.len()
                && spec_ser_message_type(m) == b.subrange(0, n),
            Err(_) => true,
        },
{
    lemma_parse_at_pong(b);
    <PongData as StacksMessageCodec>::lemma_parse_sound(b.skip(1));
    match <PongData as StacksMessageCodec>::spec_parse(b.skip(1)) {
        Ok((d, n)) => {
            lemma_ser_at_pong(d);
            assert(seq![16u8] + b.skip(1).subrange(0, n) =~= b.subrange(0, 1 + n));
        },
        Err(_) => {},
    }
}

proof fn lemma_sound_natpunchrequest(b: Seq<u8>)
    requires
        b.len() >= 1,
        b[0] == 17u8,
    ensures
        match spec_parse_message_type(b) {
            Ok((m, n)) => spec_wf_message_type(m) && 0 <= n <= b.len()
                && spec_ser_message_type(m) == b.subrange(0, n),
            Err(_) => true,
        },
{
    lemma_parse_at_natpunchrequest(b);
    <u32 as StacksMessageCodec>::lemma_parse_sound(b.skip(1));
    match <u32 as StacksMessageCodec>::spec_parse(b.skip(1)) {
        Ok((d, n)) => {
            lemma_ser_at_natpunchrequest(d);
            assert(seq![17u8] + b.skip(1).subrange(0, n) =~= b.subrange(0, 1 + n));
        },
        Err(_) => {},
    }
}

proof fn lemma_sound_natpunchreply(b: Seq<u8>)
    requires
        b.len() >= 1,
        b[0] == 18u8,
    ensures
        match spec_parse_message_type(b) {
            Ok((m, n)) => spec_wf_message_type(m) && 0 <= n <= b.len()
                && spec_ser_message_type(m) == b.subrange(0, n),
            Err(_) => true,
        },
{
    lemma_parse_at_natpunchreply(b);
    <NatPunchData as StacksMessageCodec>::lemma_parse_sound(b.skip(1));
    match <NatPunchData as StacksMessageCodec>::spec_parse(b.skip(1)) {
        Ok((d, n)) => {
            lemma_ser_at_natpunchreply(d);
            assert(seq![18u8] + b.skip(1).subrange(0, n) =~= b.subrange(0, 1 + n));
        },
        Err(_) => {},
    }
}

proof fn lemma_rt_handshake(d: HandshakeDataV, rest: Seq<u8>)
    requires
        <HandshakeData as StacksMessageCodec>::spec_wf(d),
    ensures
        spec_parse_message_type(spec_ser_message_type(StacksMessageTypeV::Handshake(d)) + rest)
            == Ok::<_, CodecError>(
            (
                StacksMessageTypeV::Handshake(d),
                spec_ser_message_type(StacksMessageTypeV::Handshake(d)).len() as int,
            ),
        ),
{
    lemma_ser_at_handshake(d);
    let sd = <HandshakeData as StacksMessageCodec>::spec_ser(d);
    let b = spec_ser_message_type(StacksMessageTypeV::Handshake(d)) + rest;
    crate::codec::lemma_concat_assoc(seq![0u8], sd, rest);
    assert(b == seq![0u8] + (sd + rest));
    crate::codec::lemma_concat_skip(seq![0u8], sd + rest);
    assert(b[0] == (seq![0u8] + (sd + rest))[0]);
    lemma_parse_at_handshake(b);
    <HandshakeData as StacksMessageCodec>::lemma_parse_ser(d, rest);
}

proof fn lemma_rt_handshakeaccept(d: HandshakeAcceptDataV, rest: Seq<u8>)
    requires
        <HandshakeAcceptData as StacksMessageCodec>::spec_wf(d),
    ensures
        spec_parse_message_type(spec_ser_message_type(StacksMessageTypeV::HandshakeAccept(d)) + rest)
            == Ok::<_, CodecError>(
            (
                StacksMessageTypeV::HandshakeAccept(d),
                spec_ser_message_type(StacksMessageTypeV::HandshakeAccept(d)).len() as int,
            ),
        ),
{
    lemma_ser_at_handshakeaccept(d);
    let sd = <HandshakeAcceptData as StacksMessageCodec>::spec_ser(d);
    let b = spec_ser_message_type(StacksMessageTypeV::HandshakeAccept(d)) + rest;
    crate::codec::lemma_concat_assoc(seq![1u8], sd, rest);
    assert(b == seq![1u8] + (sd + rest));
    crate::codec::lemma_concat_skip(seq![1u8], sd + rest);
    assert(b[0] == (seq![1u8] + (sd + rest))[0]);
    lemma_parse_at_handshakeaccept(b);
    <HandshakeAcceptData as StacksMessageCodec>::lemma_parse_ser(d, rest);
}

proof fn lemma_rt_handshakereject(rest: Seq<u8>)
    ensures
        spec_parse_message_type(spec_ser_message_type(StacksMessageTypeV::HandshakeReject) + rest)
            == Ok::<_, CodecError>(
            (StacksMessageTypeV::HandshakeReject, spec_ser_message_type(StacksMessageTypeV::HandshakeReject).len() as int),
        ),
{
    lemma_ser_at_handshakereject();
    let b = spec_ser_message_type(StacksMessageTypeV::HandshakeReject) + rest;
    assert(b[0] == 2u8);
    lemma_parse_at_handshakereject(b);
}

proof fn lemma_rt_getneighbors(rest: Seq<u8>)
    ensures
        spec_parse_message_type(spec_ser_message_type(StacksMessageTypeV::GetNeighbors) + rest)
            == Ok::<_, CodecError>(
            (StacksMessageTypeV::GetNeighbors, spec_ser_message_type(StacksMessageTypeV::GetNeighbors).len() as int),
        ),
{
    lemma_ser_at_getneighbors();
    let b = spec_ser_message_type(StacksMessageTypeV::GetNeighbors) + rest;
    assert(b[0] == 3u8);
    lemma_parse_at_getneighbors(b);
}

proof fn lemma_rt_neighbors(d: NeighborsDataV, rest: Seq<u8>)
    requires
        <NeighborsData as StacksMessageCodec>::spec_wf(d),
    ensures
        spec_parse_message_type(spec_ser_message_type(StacksMessageTypeV::Neighbors(d)) + rest)
            == Ok::<_, CodecError>(
            (
                StacksMessageTypeV::Neighbors(d),
                spec_ser_message_type(StacksMessageTypeV::Neighbors(d)).len() as int,
            ),
        ),
{
    lemma_ser_at_neighbors(d);
    let sd = <NeighborsData as StacksMessageCodec>::spec_ser(d);
    let b = spec_ser_message_type(StacksMessageTypeV::Neighbors(d)) + rest;
    crate::codec::lemma_concat_assoc(seq![4u8], sd, rest);
    assert(b == seq![4u8] + (sd + rest));
    crate::codec::lemma_concat_skip(seq![4u8], sd + rest);
    assert(b[0] == (seq![4u8] + (sd + rest))[0]);
    lemma_parse_at_neighbors(b);
    <NeighborsData as StacksMessageCodec>::lemma_parse_ser(d, rest);
}

proof fn lemma_rt_getblocksinv(d: GetBlocksInvV, rest: Seq<u8>)
    requires
        <GetBlocksInv as StacksMessageCodec>::spec_wf(d),
    ensures
        spec_parse_message_type(spec_ser_message_type(StacksMessageTypeV::GetBlocksInv(d)) + rest)
            == Ok::<_, CodecError>(
            (
                StacksMessageTypeV::GetBlocksInv(d),
                spec_ser_message_type(StacksMessageTypeV::GetBlocksInv(d)).len() as int,
            ),
        ),
{
    lemma_ser_at_getblocksinv(d);
    let sd = <GetBlocksInv as StacksMessageCodec>::spec_ser(d);
    let b = spec_ser_message_type(StacksMessageTypeV::GetBlocksInv(d)) + rest;
    crate::codec::lemma_concat_assoc(seq![5u8], sd, rest);
    assert(b == seq![5u8] + (sd + rest));
    crate::codec::lemma_concat_skip(seq![5u8], sd + rest);
    assert(b[0] == (seq![5u8] + (sd + rest))[0]);
    lemma_parse_at_getblocksinv(b);
    <GetBlocksInv as StacksMessageCodec>::lemma_parse_ser(d, rest);
}

proof fn lemma_rt_blocksinv(d: BlocksInvDataV, rest: Seq<u8>)
    requires
        <BlocksInvData as StacksMessageCodec>::spec_wf(d),
    ensures
        spec_parse_message_type(spec_ser_message_type(StacksMessageTypeV::BlocksInv(d)) + rest)
            == Ok::<_, CodecError>(
            (
                StacksMessageTypeV::BlocksInv(d),
                spec_ser_message_type(StacksMessageTypeV::BlocksInv(d)).len() as int,
            ),
        ),
{
    lemma_ser_at_blocksinv(d);
    let sd = <BlocksInvData as StacksMessageCodec>::spec_ser(d);
    let b = spec_ser_message_type(StacksMessageTypeV::BlocksInv(d)) + rest;
    crate::codec::lemma_concat_assoc(seq![6u8], sd, rest);
    assert(b == seq![6u8] + (sd + rest));
    crate::codec::lemma_concat_skip(seq![6u8], sd + rest);
    assert(b[0] == (seq![6u8] + (sd + rest))[0]);
    lemma_parse_at_blocksinv(b);
    <BlocksInvData as StacksMessageCodec>::lemma_parse_ser(d, rest);
}

proof fn lemma_rt_getpoxinv(d: GetPoxInvV, rest: Seq<u8>)
    requires
        <GetPoxInv as StacksMessageCodec>::spec_wf(d),
    ensures
        spec_parse_message_type(spec_ser_message_type(StacksMessageTypeV::GetPoxInv(d)) + rest)
            == Ok::<_, CodecError>(
            (
                StacksMessageTypeV::GetPoxInv(d),
                spec_ser_message_type(StacksMessageTypeV::GetPoxInv(d)).len() as int,
            ),
        ),
{
    lemma_ser_at_getpoxinv(d);
    let sd = <GetPoxInv as StacksMessageCodec>::spec_ser(d);
    let b = spec_ser_message_type(StacksMessageTypeV::GetPoxInv(d)) + rest;
    crate::codec::lemma_concat_assoc(seq![7u8], sd, rest);
    assert(b == seq![7u8] + (sd + rest));
    crate::codec::lemma_concat_skip(seq![7u8], sd + rest);
    assert(b[0] == (seq![7u8] + (sd + rest))[0]);
    lemma_parse_at_getpoxinv(b);
    <GetPoxInv as StacksMessageCodec>::lemma_parse_ser(d, rest);
}

proof fn lemma_rt_poxinv(d: PoxInvDataV, rest: Seq<u8>)
    requires
        <PoxInvData as StacksMessageCodec>::spec_wf(d),
    ensures
        spec_parse_message_type(spec_ser_message_type(StacksMessageTypeV::PoxInv(d)) + rest)
            == Ok::<_, CodecError>(
            (
                StacksMessageTypeV::PoxInv(d),
                spec_ser_message_type(StacksMessageTypeV::PoxInv(d)).len() as int,
            ),
        ),
{
    lemma_ser_at_poxinv(d);
    let sd = <PoxInvData as StacksMessageCodec>::spec_ser(d);
    let b = spec_ser_message_type(StacksMessageTypeV::PoxInv(d)) + rest;
    crate::codec::lemma_concat_assoc(seq![8u8], sd, rest);
    assert(b == seq![8u8] + (sd + rest));
    crate::codec::lemma_concat_skip(seq![8u8], sd + rest);
    assert(b[0] == (seq![8u8] + (sd + rest))[0]);
    lemma_parse_at_poxinv(b);
    <PoxInvData as StacksMessageCodec>::lemma_parse_ser(d, rest);
}

proof fn lemma_rt_blocksavailable(d: BlocksAvailableDataV, rest: Seq<u8>)
    requires
        <BlocksAvailableData as StacksMessageCodec>::spec_wf(d),
    ensures
        spec_parse_message_type(spec_ser_message_type(StacksMessageTypeV::BlocksAvailable(d)) + rest)
            == Ok::<_, CodecError>(
            (
                StacksMessageTypeV::BlocksAvailable(d),
                spec_ser_message_type(StacksMessageTypeV::BlocksAvailable(d)).len() as int,
            ),
        ),
{
    lemma_ser_at_blocksavailable(d);
    let sd = <BlocksAvailableData as StacksMessageCodec>::spec_ser(d);
    let b = spec_ser_message_type(StacksMessageTypeV::BlocksAvailable(d)) + rest;
    crate::codec::lemma_concat_assoc(seq![9u8], sd, rest);
    assert(b == seq![9u8] + (sd + rest));
    crate::codec::lemma_concat_skip(seq![9u8], sd + rest);
    assert(b[0] == (seq![9u8] + (sd + rest))[0]);
    lemma_parse_at_blocksavailable(b);
    <BlocksAvailableData as StacksMessageCodec>::lemma_parse_ser(d, rest);
}

proof fn lemma_rt_microblocksavailable(d: BlocksAvailableDataV, rest: Seq<u8>)
    requires
        <BlocksAvailableData as StacksMessageCodec>::spec_wf(d),
    ensures
        spec_parse_message_type(spec_ser_message_type(StacksMessageTypeV::MicroblocksAvailable(d)) + rest)
            == Ok::<_, CodecError>(
            (
                StacksMessageTypeV::MicroblocksAvailable(d),
                spec_ser_message_type(StacksMessageTypeV::MicroblocksAvailable(d)).len() as int,
            ),
        ),
{
    lemma_ser_at_microblocksavailable(d);
    let sd = <BlocksAvailableData as StacksMessageCodec>::spec_ser(d);
    let b = spec_ser_message_type(StacksMessageTypeV::MicroblocksAvailable(d)) + rest;
    crate::codec::lemma_concat_assoc(seq![10u8], sd, rest);
    assert(b == seq![10u8] + (sd + rest));
    crate::codec::lemma_concat_skip(seq![10u8], sd + rest);
    assert(b[0] == (seq![10u8] + (sd + rest))[0]);
    lemma_parse_at_microblocksavailable(b);
    <BlocksAvailableData as StacksMessageCodec>::lemma_parse_ser(d, rest);
}

proof fn lemma_rt_blocks(d: BlocksDataV, rest: Seq<u8>)
    requires
        <BlocksData as StacksMessageCodec>::spec_wf(d),
    ensures
        spec_parse_message_type(spec_ser_message_type(StacksMessageTypeV::Blocks(d)) + rest)
            == Ok::<_, CodecError>(
            (
                StacksMessageTypeV::Blocks(d),
                spec_ser_message_type(StacksMessageTypeV::Blocks(d)).len() as int,
            ),
        ),
{
    lemma_ser_at_blocks(d);
    let sd = <BlocksData as StacksMessageCodec>::spec_ser(d);
    let b = spec_ser_message_type(StacksMessageTypeV::Blocks(d)) + rest;
    crate::codec::lemma_concat_assoc(seq![11u8], sd, rest);
    assert(b == seq![11u8] + (sd + rest));
    crate::codec::lemma_concat_skip(seq![11u8], sd + rest);
    assert(b[0] == (seq![11u8] + (sd + rest))[0]);
    lemma_parse_at_blocks(b);
    <BlocksData as StacksMessageCodec>::lemma_parse_ser(d, rest);
}

proof fn lemma_rt_microblocks(d: MicroblocksDataV, rest: Seq<u8>)
    requires
        <MicroblocksData as StacksMessageCodec>::spec_wf(d),
    ensures
        spec_parse_message_type(spec_ser_message_type(StacksMessageTypeV::Microblocks(d)) + rest)
            == Ok::<_, CodecError>(
            (
                StacksMessageTypeV::Microblocks(d),
                spec_ser_message_type(StacksMessageTypeV::Microblocks(d)).len() as int,
            ),
        ),
{
    lemma_ser_at_microblocks(d);
    let sd = <MicroblocksData as StacksMessageCodec>::spec_ser(d);
    let b = spec_ser_message_type(StacksMessageTypeV::Microblocks(d)) + rest;
    crate::codec::lemma_concat_assoc(seq![12u8], sd, rest);
    assert(b == seq![12u8] + (sd + rest));
    crate::codec::lemma_concat_skip(seq![12u8], sd + rest);
    assert(b[0] == (seq![12u8] + (sd + rest))[0]);
    lemma_parse_at_microblocks(b);
    <MicroblocksData as StacksMessageCodec>::lemma_parse_ser(d, rest);
}

proof fn lemma_rt_transaction(d: Seq<u8>, rest: Seq<u8>)
    requires
        <StacksTransaction as StacksMessageCodec>::spec_wf(d),
    ensures
        spec_parse_message_type(spec_ser_message_type(StacksMessageTypeV::Transaction(d)) + rest)
            == Ok::<_, CodecError>(
            (
                StacksMessageTypeV::Transaction(d),
                spec_ser_message_type(StacksMessageTypeV::Transaction(d)).len() as int,
            ),
        ),
{
    lemma_ser_at_transaction(d);
    let sd = <StacksTransaction as StacksMessageCodec>::spec_ser(d);
    let b = spec_ser_message_type(StacksMessageTypeV::Transaction(d)) + rest;
    crate::codec::lemma_concat_assoc(seq![13u8], sd, rest);
    assert(b == seq![13u8] + (sd + rest));
    crate::codec::lemma_concat_skip(seq![13u8], sd + rest);
    assert(b[0] == (seq![13u8] + (sd + rest))[0]);
    lemma_parse_at_transaction(b);
    <StacksTransaction as StacksMessageCodec>::lemma_parse_ser(d, rest);
}

proof fn lemma_rt_nack(d: NackDataV, rest: Seq<u8>)
    requires
        <NackData as StacksMessageCodec>::spec_wf(d),
    ensures
        spec_parse_message_type(spec_ser_message_type(StacksMessageTypeV::Nack(d)) + rest)
            == Ok::<_, CodecError>(
            (
                StacksMessageTypeV::Nack(d),
                spec_ser_message_type(StacksMessageTypeV::Nack(d)).len() as int,
            ),
        ),
{
    lemma_ser_at_nack(d);
    let sd = <NackData as StacksMessageCodec>::spec_ser(d);
    let b = spec_ser_message_type(StacksMessageTypeV::Nack(d)) + rest;
    crate::codec::lemma_concat_assoc(seq![14u8], sd, rest);
    assert(b == seq![14u8] + (sd + rest));
    crate::codec::lemma_concat_skip(seq![14u8], sd + rest);
    assert(b[0] == (seq![14u8] + (sd + rest))[0]);
    lemma_parse_at_nack(b);
    <NackData as StacksMessageCodec>::lemma_parse_ser(d, rest);
}

proof fn lemma_rt_ping(d: PingDataV, rest: Seq<u8>)
    requires
        <PingData as StacksMessageCodec>::spec_wf(d),
    ensures
        spec_parse_message_type(spec_ser_message_type(StacksMessageTypeV::Ping(d)) + rest)
            == Ok::<_, CodecError>(
            (
                StacksMessageTypeV::Ping(d),
                spec_ser_message_type(StacksMessageTypeV::Ping(d)).len() as int,
            ),
        ),
{
    lemma_ser_at_ping(d);
    let sd = <PingData as StacksMessageCodec>::spec_ser(d);
    let b = spec_ser_message_type(StacksMessageTypeV::Ping(d)) + rest;
    crate::codec::lemma_concat_assoc(seq![15u8], sd, rest);
    assert(b == seq![15u8] + (sd + rest));
    crate::codec::lemma_concat_skip(seq![15u8], sd + rest);
    assert(b[0] == (seq![15u8] + (sd + rest))[0]);
    lemma_parse_at_ping(b);
    <PingData as StacksMessageCodec>::lemma_parse_ser(d, rest);
}

proof fn lemma_rt_pong(d: PongDataV, rest: Seq<u8>)
    requires
        <PongData as StacksMessageCodec>::spec_wf(d),
    ensures
        spec_parse_message_type(spec_ser_message_type(StacksMessageTypeV::Pong(d)) + rest)
            == Ok::<_, CodecError>(
            (
                StacksMessageTypeV::Pong(d),
                spec_ser_message_type(StacksMessageTypeV::Pong(d)).len() as int,
            ),
        ),
{
    lemma_ser_at_pong(d);
    let sd = <PongData as StacksMessageCodec>::spec_ser(d);
    let b = spec_ser_message_type(StacksMessageTypeV::Pong(d)) + rest;
    crate::codec::lemma_concat_assoc(seq![16u8], sd, rest);
    assert(b == seq![16u8] + (sd + rest));
    crate::codec::lemma_concat_skip(seq![16u8], sd + rest);
    assert(b[0] == (seq![16u8] + (sd + rest))[0]);
    lemma_parse_at_pong(b);
    <PongData as StacksMessageCodec>::lemma_parse_ser(d, rest);
}

proof fn lemma_rt_natpunchrequest(d: u32, rest: Seq<u8>)
    requires
        <u32 as StacksMessageCodec>::spec_wf(d),
    ensures
        spec_parse_message_type(spec_ser_message_type(StacksMessageTypeV::NatPunchRequest(d)) + rest)
            == Ok::<_, CodecError>(
            (
                StacksMessageTypeV::NatPunchRequest(d),
                spec_ser_message_type(StacksMessageTypeV::NatPunchRequest(d)).len() as int,
            ),
        ),
{
    lemma_ser_at_natpunchrequest(d);
    let sd = <u32 as StacksMessageCodec>::spec_ser(d);
    let b = spec_ser_message_type(StacksMessageTypeV::NatPunchRequest(d)) + rest;
    crate::codec::lemma_concat_assoc(seq![17u8], sd, rest);
    assert(b == seq![17u8] + (sd + rest));
    crate::codec::lemma_concat_skip(seq![17u8], sd + rest);
    assert(b[0] == (seq![17u8] + (sd + rest))[0]);
    lemma_parse_at_natpunchrequest(b);
    <u32 as StacksMessageCodec>::lemma_parse_ser(d, rest);
}

proof fn lemma_rt_natpunchreply(d: NatPunchDataV, rest: Seq<u8>)
    requires
        <NatPunchData as StacksMessageCodec>::spec_wf(d),
    ensures
        spec_parse_message_type(spec_ser_message_type(StacksMessageTypeV::NatPunchReply(d)) + rest)
            == Ok::<_, CodecError>(
            (
                StacksMessageTypeV::NatPunchReply(d),
                spec_ser_message_type(StacksMessageTypeV::NatPunchReply(d)).len() as int,
            ),
        ),
{
    lemma_ser_at_natpunchreply(d);
    let sd = <NatPunchData as StacksMessageCodec>::spec_ser(d);
    let b = spec_ser_message_type(StacksMessageTypeV::NatPunchReply(d)) + rest;
    crate::codec::lemma_concat_assoc(seq![18u8], sd, rest);
    assert(b == seq![18u8] + (sd + rest));
    crate::codec::lemma_concat_skip(seq![18u8], sd + rest);
    assert(b[0] == (seq![18u8] + (sd + rest))[0]);
    lemma_parse_at_natpunchreply(b);
    <NatPunchData as StacksMessageCodec>::lemma_parse_ser(d, rest);
}

fn read_payload_handshake(buf: &Vec<u8>, pos: usize, end: usize) -> (r: Result<
    (StacksMessageType, usize),
    CodecError,
>)
    requires
        pos < end <= buf@.len(),
        buf@.subrange(pos as int, end as int)[0] == 0u8,
    ensures
        match r {
            Ok((v, n)) => pos <= n <= end && spec_parse_message_type(
                buf@.subrange(pos as int, end as int),
            ) == Ok::<_, CodecError>((v.deep_view(), n - pos)),
            Err(e) => spec_parse_message_type(buf@.subrange(pos as int, end as int))
                == Err::<(StacksMessageTypeV, int), _>(e),
        },
{
    let ghost w = buf@.subrange(pos as int, end as int);
    proof {
        lemma_parse_at_handshake(w);
    }
    let body = pos + 1;
    assert(buf@.subrange(body as int, end as int) =~= w.skip(1));
    match HandshakeData::consensus_deserialize(buf, body, end) {
        Ok((d, n)) => Ok((StacksMessageType::Handshake(d), n)),
        Err(e) => Err(e),
    }
}

fn read_payload_handshakeaccept(buf: &Vec<u8>, pos: usize, end: usize) -> (r: Result<
    (StacksMessageType, usize),
    CodecError,
>)
    requires
        pos < end <= buf@.len(),
        buf@.subrange(pos as int, end as int)[0] == 1u8,
    ensures
        match r {
            Ok((v, n)) => pos <= n <= end && spec_parse_message_type(
                buf@.subrange(pos as int, end as int),
            ) == Ok::<_, CodecError>((v.deep_view(), n - pos)),
            Err(e) => spec_parse_message_type(buf@.subrange(pos as int, end as int))
                == Err::<(StacksMessageTypeV, int), _>(e),
        },
{
    let ghost w = buf@.subrange(pos as int, end as int);
    proof {
        lemma_parse_at_handshakeaccept(w);
    }
    let body = pos + 1;
    assert(buf@.subrange(body as int, end as int) =~= w.skip(1));
    match HandshakeAcceptData::consensus_deserialize(buf, body, end) {
        Ok((d, n)) => Ok((StacksMessageType::HandshakeAccept(d), n)),
        Err(e) => Err(e),
    }
}

fn read_payload_handshakereject(buf: &Vec<u8>, pos: usize, end: usize) -> (r: Result<
    (StacksMessageType, usize),
    CodecError,
>)
    requires
        pos < end <= buf@.len(),
        buf@.subrange(pos as int, end as int)[0] == 2u8,
    ensures
        match r {
            Ok((v, n)) => pos <= n <= end && spec_parse_message_type(
                buf@.subrange(pos as int, end as int),
            ) == Ok::<_, CodecError>((v.deep_view(), n - pos)),
            Err(e) => spec_parse_message_type(buf@.subrange(pos as int, end as int))
                == Err::<(StacksMessageTypeV, int), _>(e),
        },
{
    let ghost w = buf@.subrange(pos as int, end as int);
    proof {
        lemma_parse_at_handshakereject(w);
    }
    Ok((StacksMessageType::HandshakeReject, pos + 1))
}

fn read_payload_getneighbors(buf: &Vec<u8>, pos: usize, end: usize) -> (r: Result<
    (StacksMessageType, usize),
    CodecError,
>)
    requires
        pos < end <= buf@.len(),
        buf@.subrange(pos as int, end as int)[0] == 3u8,
    ensures
        match r {
            Ok((v, n)) => pos <= n <= end && spec_parse_message_type(
                buf@.subrange(pos as int, end as int),
            ) == Ok::<_, CodecError>((v.deep_view(), n - pos)),
            Err(e) => spec_parse_message_type(buf@.subrange(pos as int, end as int))
                == Err::<(StacksMessageTypeV, int), _>(e),
        },
{
    let ghost w = buf@.subrange(pos as int, end as int);
    proof {
        lemma_parse_at_getneighbors(w);
    }
    Ok((StacksMessageType::GetNeighbors, pos + 1))
}

fn read_payload_neighbors(buf: &Vec<u8>, pos: usize, end: usize) -> (r: Result<
    (StacksMessageType, usize),
    CodecError,
>)
    requires
        pos < end <= buf@.len(),
        buf@.subrange(pos as int, end as int)[0] == 4u8,
    ensures
        match r {
            Ok((v, n)) => pos <= n <= end && spec_parse_message_type(
                buf@.subrange(pos as int, end as int),
            ) == Ok::<_, CodecError>((v.deep_view(), n - pos)),
            Err(e) => spec_parse_message_type(buf@.subrange(pos as int, end as int))
                == Err::<(StacksMessageTypeV, int), _>(e),
        },
{
    let ghost w = buf@.subrange(pos as int, end as int);
    proof {
        lemma_parse_at_neighbors(w);
    }
    let body = pos + 1;
    assert(buf@.subrange(body as int, end as int) =~= w.skip(1));
    match NeighborsData::consensus_deserialize(buf, body, end) {
        Ok((d, n)) => Ok((StacksMessageType::Neighbors(d), n)),
        Err(e) => Err(e),
    }
}

fn read_payload_getblocksinv(buf: &Vec<u8>, pos: usize, end: usize) -> (r: Result<
    (StacksMessageType, usize),
    CodecError,
>)
    requires
        pos < end <= buf@.len(),
        buf@.subrange(pos as int, end as int)[0] == 5u8,
    ensures
        match r {
            Ok((v, n)) => pos <= n <= end && spec_parse_message_type(
                buf@.subrange(pos as int, end as int),
            ) == Ok::<_, CodecError>((v.deep_view(), n - pos)),
            Err(e) => spec_parse_message_type(buf@.subrange(pos as int, end as int))
                == Err::<(StacksMessageTypeV, int), _>(e),
        },
{
    let ghost w = buf@.subrange(pos as int, end as int);
    proof {
        lemma_parse_at_getblocksinv(w);
    }
    let body = pos + 1;
    assert(buf@.subrange(body as int, end as int) =~= w.skip(1));
    match GetBlocksInv::consensus_deserialize(buf, body, end) {
        Ok((d, n)) => Ok((StacksMessageType::GetBlocksInv(d), n)),
        Err(e) => Err(e),
    }
}

fn read_payload_blocksinv(buf: &Vec<u8>, pos: usize, end: usize) -> (r: Result<
    (StacksMessageType, usize),
    CodecError,
>)
    requires
        pos < end <= buf@.len(),
        buf@.subrange(pos as int, end as int)[0] == 6u8,
    ensures
        match r {
            Ok((v, n)) => pos <= n <= end && spec_parse_message_type(
                buf@.subrange(pos as int, end as int),
            ) == Ok::<_, CodecError>((v.deep_view(), n - pos)),
            Err(e) => spec_parse_message_type(buf@.subrange(pos as int, end as int))
                == Err::<(StacksMessageTypeV, int), _>(e),
        },
{
    let ghost w = buf@.subrange(pos as int, end as int);
    proof {
        lemma_parse_at_blocksinv(w);
    }
    let body = pos + 1;
    assert(buf@.subrange(body as int, end as int) =~= w.skip(1));
    match BlocksInvData::consensus_deserialize(buf, body, end) {
        Ok((d, n)) => Ok((StacksMessageType::BlocksInv(d), n)),
        Err(e) => Err(e),
    }
}

fn read_payload_getpoxinv(buf: &Vec<u8>, pos: usize, end: usize) -> (r: Result<
    (StacksMessageType, usize),
    CodecError,
>)
    requires
        pos < end <= buf@.len(),
        buf@.subrange(pos as int, end as int)[0] == 7u8,
    ensures
        match r {
            Ok((v, n)) => pos <= n <= end && spec_parse_message_type(
                buf@.subrange(pos as int, end as int),
            ) == Ok::<_, CodecError>((v.deep_view(), n - pos)),
            Err(e) => spec_parse_message_type(buf@.subrange(pos as int, end as int))
                == Err::<(StacksMessageTypeV, int), _>(e),
        },
{
    let ghost w = buf@.subrange(pos as int, end as int);
    proof {
        lemma_parse_at_getpoxinv(w);
    }
    let body = pos + 1;
    assert(buf@.subrange(body as int, end as int) =~= w.skip(1));
    match GetPoxInv::consensus_deserialize(buf, body, end) {
        Ok((d, n)) => Ok((StacksMessageType::GetPoxInv(d), n)),
        Err(e) => Err(e),
    }
}

fn read_payload_poxinv(buf: &Vec<u8>, pos: usize, end: usize) -> (r: Result<
    (StacksMessageType, usize),
    CodecError,
>)
    requires
        pos < end <= buf@.len(),
        buf@.subrange(pos as int, end as int)[0] == 8u8,
    ensures
        match r {
            Ok((v, n)) => pos <= n <= end && spec_parse_message_type(
                buf@.subrange(pos as int, end as int),
            ) == Ok::<_, CodecError>((v.deep_view(), n - pos)),
            Err(e) => spec_parse_message_type(buf@.subrange(pos as int, end as int))
                == Err::<(StacksMessageTypeV, int), _>(e),
        },
{
    let ghost w = buf@.subrange(pos as int, end as int);
    proof {
        lemma_parse_at_poxinv(w);
    }
    let body = pos + 1;
    assert(buf@.subrange(body as int, end as int) =~= w.skip(1));
    match PoxInvData::consensus_deserialize(buf, body, end) {
        Ok((d, n)) => Ok((StacksMessageType::PoxInv(d), n)),
        Err(e) => Err(e),
    }
}

fn read_payload_blocksavailable(buf: &Vec<u8>, pos: usize, end: usize) -> (r: Result<
    (StacksMessageType, usize),
    CodecError,
>)
    requires
        pos < end <= buf@.len(),
        buf@.subrange(pos as int, end as int)[0] == 9u8,
    ensures
        match r {
            Ok((v, n)) => pos <= n <= end && spec_parse_message_type(
                buf@.subrange(pos as int, end as int),
            ) == Ok::<_, CodecError>((v.deep_view(), n - pos)),
            Err(e) => spec_parse_message_type(buf@.subrange(pos as int, end as int))
                == Err::<(StacksMessageTypeV, int), _>(e),
        },
{
    let ghost w = buf@.subrange(pos as int, end as int);
    proof {
        lemma_parse_at_blocksavailable(w);
    }
    let body = pos + 1;
    assert(buf@.subrange(body as int, end as int) =~= w.skip(1));
    match BlocksAvailableData::consensus_deserialize(buf, body, end) {
        Ok((d, n)) => Ok((StacksMessageType::BlocksAvailable(d), n)),
        Err(e) => Err(e),
    }
}

fn read_payload_microblocksavailable(buf: &Vec<u8>, pos: usize, end: usize) -> (r: Result<
    (StacksMessageType, usize),
    CodecError,
>)
    requires
        pos < end <= buf@.len(),
        buf@.subrange(pos as int, end as int)[0] == 10u8,
    ensures
        match r {
            Ok((v, n)) => pos <= n <= end && spec_parse_message_type(
                buf@.subrange(pos as int, end as int),
            ) == Ok::<_, CodecError>((v.deep_view(), n - pos)),
            Err(e) => spec_parse_message_type(buf@.subrange(pos as int, end as int))
                == Err::<(StacksMessageTypeV, int), _>(e),
        },
{
    let ghost w = buf@.subrange(pos as int, end as int);
    proof {
        lemma_parse_at_microblocksavailable(w);
    }
    let body = pos + 1;
    assert(buf@.subrange(body as int, end as int) =~= w.skip(1));
    match BlocksAvailableData::consensus_deserialize(buf, body, end) {
        Ok((d, n)) => Ok((StacksMessageType::MicroblocksAvailable(d), n)),
        Err(e) => Err(e),
    }
}

fn read_payload_blocks(buf: &Vec<u8>, pos: usize, end: usize) -> (r: Result<
    (StacksMessageType, usize),
    CodecError,
>)
    requires
        pos < end <= buf@.len(),
        buf@.subrange(pos as int, end as int)[0] == 11u8,
    ensures
        match r {
            Ok((v, n)) => pos <= n <= end && spec_parse_message_type(
                buf@.subrange(pos as int, end as int),
            ) == Ok::<_, CodecError>((v.deep_view(), n - pos)),
            Err(e) => spec_parse_message_type(buf@.subrange(pos as int, end as int))
                == Err::<(StacksMessageTypeV, int), _>(e),
        },
{
    let ghost w = buf@.subrange(pos as int, end as int);
    proof {
        lemma_parse_at_blocks(w);
    }
    let body = pos + 1;
    assert(buf@.subrange(body as int, end as int) =~= w.skip(1));
    match BlocksData::consensus_deserialize(buf, body, end) {
        Ok((d, n)) => Ok((StacksMessageType::Blocks(d), n)),
        Err(e) => Err(e),
    }
}

fn read_payload_microblocks(buf: &Vec<u8>, pos: usize, end: usize) -> (r: Result<
    (StacksMessageType, usize),
    CodecError,
>)
    requires
        pos < end <= buf@.len(),
        buf@.subrange(pos as int, end as int)[0] == 12u8,
    ensures
        match r {
            Ok((v, n)) => pos <= n <= end && spec_parse_message_type(
                buf@.subrange(pos as int, end as int),
            ) == Ok::<_, CodecError>((v.deep_view(), n - pos)),
            Err(e) => spec_parse_message_type(buf@.subrange(pos as int, end as int))
                == Err::<(StacksMessageTypeV, int), _>(e),
        },
{
    let ghost w = buf@.subrange(pos as int, end as int);
    proof {
        lemma_parse_at_microblocks(w);
    }
    let body = pos + 1;
    assert(buf@.subrange(body as int, end as int) =~= w.skip(1));
    match MicroblocksData::consensus_deserialize(buf, body, end) {
        Ok((d, n)) => Ok((StacksMessageType::Microblocks(d), n)),
        Err(e) => Err(e),
    }
}

fn read_payload_transaction(buf: &Vec<u8>, pos: usize, end: usize) -> (r: Result<
    (StacksMessageType, usize),
    CodecError,
>)
    requires
        pos < end <= buf@.len(),
        buf@.subrange(pos as int, end as int)[0] == 13u8,
    ensures
        match r {
            Ok((v, n)) => pos <= n <= end && spec_parse_message_type(
                buf@.subrange(pos as int, end as int),
            ) == Ok::<_, CodecError>((v.deep_view(), n - pos)),
            Err(e) => spec_parse_message_type(buf@.subrange(pos as int, end as int))
                == Err::<(StacksMessageTypeV, int), _>(e),
        },
{
    let ghost w = buf@.subrange(pos as int, end as int);
    proof {
        lemma_parse_at_transaction(w);
    }
    let body = pos + 1;
    assert(buf@.subrange(body as int, end as int) =~= w.skip(1));
    match StacksTransaction::consensus_deserialize(buf, body, end) {
        Ok((d, n)) => Ok((StacksMessageType::Transaction(d), n)),
        Err(e) => Err(e),
    }
}

fn read_payload_nack(buf: &Vec<u8>, pos: usize, end: usize) -> (r: Result<
    (StacksMessageType, usize),
    CodecError,
>)
    requires
        pos < end <= buf@.len(),
        buf@.subrange(pos as int, end as int)[0] == 14u8,
    ensures
        match r {
            Ok((v, n)) => pos <= n <= end && spec_parse_message_type(
                buf@.subrange(pos as int, end as int),
            ) == Ok::<_, CodecError>((v.deep_view(), n - pos)),
            Err(e) => spec_parse_message_type(buf@.subrange(pos as int, end as int))
                == Err::<(StacksMessageTypeV, int), _>(e),
        },
{
    let ghost w = buf@.subrange(pos as int, end as int);
    proof {
        lemma_parse_at_nack(w);
    }
    let body = pos + 1;
    assert(buf@.subrange(body as int, end as int) =~= w.skip(1));
    match NackData::consensus_deserialize(buf, body, end) {
        Ok((d, n)) => Ok((StacksMessageType::Nack(d), n)),
        Err(e) => Err(e),
    }
}

fn read_payload_ping(buf: &Vec<u8>, pos: usize, end: usize) -> (r: Result<
    (StacksMessageType, usize),
    CodecError,
>)
    requires
        pos < end <= buf@.len(),
        buf@.subrange(pos as int, end as int)[0] == 15u8,
    ensures
        match r {
            Ok((v, n)) => pos <= n <= end && spec_parse_message_type(
                buf@.subrange(pos as int, end as int),
            ) == Ok::<_, CodecError>((v.deep_view(), n - pos)),
            Err(e) => spec_parse_message_type(buf@.subrange(pos as int, end as int))
                == Err::<(StacksMessageTypeV, int), _>(e),
        },
{
    let ghost w = buf@.subrange(pos as int, end as int);
    proof {
        lemma_parse_at_ping(w);
    }
    let body = pos + 1;
    assert(buf@.subrange(body as int, end as int) =~= w.skip(1));
    match PingData::consensus_deserialize(buf, body, end) {
        Ok((d, n)) => Ok((StacksMessageType::Ping(d), n)),
        Err(e) => Err(e),
    }
}

fn read_payload_pong(buf: &Vec<u8>, pos: usize, end: usize) -> (r: Result<
    (StacksMessageType, usize),
    CodecError,
>)
    requires
        pos < end <= buf@.len(),
        buf@.subrange(pos as int, end as int)[0] == 16u8,
    ensures
        match r {
            Ok((v, n)) => pos <= n <= end && spec_parse_message_type(
                buf@.subrange(pos as int, end as int),
            ) == Ok::<_, CodecError>((v.deep_view(), n - pos)),
            Err(e) => spec_parse_message_type(buf@.subrange(pos as int, end as int))
                == Err::<(StacksMessageTypeV, int), _>(e),
        },
{
    let ghost w = buf@.subrange(pos as int, end as int);
    proof {
        lemma_parse_at_pong(w);
    }
    let body = pos + 1;
    assert(buf@.subrange(body as int, end as int) =~= w.skip(1));
    match PongData::consensus_deserialize(buf, body, end) {
        Ok((d, n)) => Ok((StacksMessageType::Pong(d), n)),
        Err(e) => Err(e),
    }
}

fn read_payload_natpunchrequest(buf: &Vec<u8>, pos: usize, end: usize) -> (r: Result<
    (StacksMessageType, usize),
    CodecError,
>)
    requires
        pos < end <= buf@.len(),
        buf@.subrange(pos as int, end as int)[0] == 17u8,
    ensures
        match r {
            Ok((v, n)) => pos <= n <= end && spec_parse_message_type(
                buf@.subrange(pos as int, end as int),
            ) == Ok::<_, CodecError>((v.deep_view(), n - pos)),
            Err(e) => spec_parse_message_type(buf@.subrange(pos as int, end as int))
                == Err::<(StacksMessageTypeV, int), _>(e),
        },
{
    let ghost w = buf@.subrange(pos as int, end as int);
    proof {
        lemma_parse_at_natpunchrequest(w);
    }
    let body = pos + 1;
    assert(buf@.subrange(body as int, end as int) =~= w.skip(1));
    match <u32>::consensus_deserialize(buf, body, end) {
        Ok((d, n)) => Ok((StacksMessageType::NatPunchRequest(d), n)),
        Err(e) => Err(e),
    }
}

fn read_payload_natpunchreply(buf: &Vec<u8>, pos: usize, end: usize) -> (r: Result<
    (StacksMessageType, usize),
    CodecError,
>)
    requires
        pos < end <= buf@.len(),
        buf@.subrange(pos as int, end as int)[0] == 18u8,
    ensures
        match r {
            Ok((v, n)) => pos <= n <= end && spec_parse_message_type(
                buf@.subrange(pos as int, end as int),
            ) == Ok::<_, CodecError>((v.deep_view(), n - pos)),
            Err(e) => spec_parse_message_type(buf@.subrange(pos as int, end as int))
                == Err::<(StacksMessageTypeV, int), _>(e),
        },
{
    let ghost w = buf@.subrange(pos as int, end as int);
    proof {
        lemma_parse_at_natpunchreply(w);
    }
    let body = pos + 1;
    assert(buf@.subrange(body as int, end as int) =~= w.skip(1));
    match NatPunchData::consensus_deserialize(buf, body, end) {
        Ok((d, n)) => Ok((StacksMessageType::NatPunchReply(d), n)),
        Err(e) => Err(e),
    }
}

impl StacksMessageType {
    /// The identifier of this payload's variant.
    pub fn get_message_id(&self) -> (r: StacksMessageID)
        ensures
            r == spec_get_message_id(self.deep_view()),
    {
        match self {
            StacksMessageType::Handshake(_m) => StacksMessageID::Handshake,
            StacksMessageType::HandshakeAccept(_m) => StacksMessageID::HandshakeAccept,
            StacksMessageType::HandshakeReject => StacksMessageID::HandshakeReject,
            StacksMessageType::GetNeighbors => StacksMessageID::GetNeighbors,
            StacksMessageType::Neighbors(_m) => StacksMessageID::Neighbors,
            StacksMessageType::GetBlocksInv(_m) => StacksMessageID::GetBlocksInv,
            StacksMessageType::BlocksInv(_m) => StacksMessageID::BlocksInv,
            StacksMessageType::GetPoxInv(_m) => StacksMessageID::GetPoxInv,
            StacksMessageType::PoxInv(_m) => StacksMessageID::PoxInv,
            StacksMessageType::BlocksAvailable(_m) => StacksMessageID::BlocksAvailable,
            StacksMessageType::MicroblocksAvailable(_m) => StacksMessageID::MicroblocksAvailable,
            StacksMessageType::Blocks(_m) => StacksMessageID::Blocks,
            StacksMessageType::Microblocks(_m) => StacksMessageID::Microblocks,
            StacksMessageType::Transaction(_m) => StacksMessageID::Transaction,
            StacksMessageType::Nack(_m) => StacksMessageID::Nack,
            StacksMessageType::Ping(_m) => StacksMessageID::Ping,
            StacksMessageType::Pong(_m) => StacksMessageID::Pong,
            StacksMessageType::NatPunchRequest(_m) => StacksMessageID::NatPunchRequest,
            StacksMessageType::NatPunchReply(_m) => StacksMessageID::NatPunchReply,
        }
    }

    /// The short stable name of this payload's variant.
    pub fn get_message_name(&self) -> (r: &'static str)
        ensures
            r@ == spec_get_message_name(self.deep_view()),
    {
        match self {
            StacksMessageType::Handshake(_m) => "Handshake",
            StacksMessageType::HandshakeAccept(_m) => "HandshakeAccept",
            StacksMessageType::HandshakeReject => "HandshakeReject",
            StacksMessageType::GetNeighbors => "GetNeighbors",
            StacksMessageType::Neighbors(_m) => "Neighbors",
            StacksMessageType::GetBlocksInv(_m) => "GetBlocksInv",
            StacksMessageType::BlocksInv(_m) => "BlocksInv",
            StacksMessageType::GetPoxInv(_m) => "GetPoxInv",
            StacksMessageType::PoxInv(_m) => "PoxInv",
            StacksMessageType::BlocksAvailable(_m) => "BlocksAvailable",
            StacksMessageType::MicroblocksAvailable(_m) => "MicroblocksAvailable",
            StacksMessageType::Blocks(_m) => "Blocks",
            StacksMessageType::Microblocks(_m) => "Microblocks",
            StacksMessageType::Transaction(_m) => "Transaction",
            StacksMessageType::Nack(_m) => "Nack",
            StacksMessageType::Ping(_m) => "Ping",
            StacksMessageType::Pong(_m) => "Pong",
            StacksMessageType::NatPunchRequest(_m) => "NatPunchRequest",
            StacksMessageType::NatPunchReply(_m) => "NatPunchReply",
        }
    }
}

impl StacksMessageCodec for StacksMessageType {
    open spec fn spec_wf(m: StacksMessageTypeV) -> bool {
        spec_wf_message_type(m)
    }

    open spec fn spec_ser(m: StacksMessageTypeV) -> Seq<u8> {
        spec_ser_message_type(m)
    }

    open spec fn spec_parse(b: Seq<u8>) -> Result<(StacksMessageTypeV, int), CodecError> {
        spec_parse_message_type(b)
    }

    proof fn lemma_parse_sound(b: Seq<u8>) {
        if b.len() >= 1 {
            if b[0] == 0u8 {
                lemma_sound_handshake(b);
            } else if b[0] == 1u8 {
                lemma_sound_handshakeaccept(b);
            } else if b[0] == 2u8 {
                lemma_sound_handshakereject(b);
            } else if b[0] == 3u8 {
                lemma_sound_getneighbors(b);
            } else if b[0] == 4u8 {
                lemma_sound_neighbors(b);
            } else if b[0] == 5u8 {
                lemma_sound_getblocksinv(b);
            } else if b[0] == 6u8 {
                lemma_sound_blocksinv(b);
            } else if b[0] == 7u8 {
                lemma_sound_getpoxinv(b);
            } else if b[0] == 8u8 {
                lemma_sound_poxinv(b);
            } else if b[0] == 9u8 {
                lemma_sound_blocksavailable(b);
            } else if b[0] == 10u8 {
                lemma_sound_microblocksavailable(b);
            } else if b[0] == 11u8 {
                lemma_sound_blocks(b);
            } else if b[0] == 12u8 {
                lemma_sound_microblocks(b);
            } else if b[0] == 13u8 {
                lemma_sound_transaction(b);
            } else if b[0] == 14u8 {
                lemma_sound_nack(b);
            } else if b[0] == 15u8 {
                lemma_sound_ping(b);
            } else if b[0] == 16u8 {
                lemma_sound_pong(b);
            } else if b[0] == 17u8 {
                lemma_sound_natpunchrequest(b);
            } else if b[0] == 18u8 {
                lemma_sound_natpunchreply(b);
            } else {
                lemma_parse_at_unknown(b);
            }
        } else {
            lemma_parse_empty(b);
        }
    }

    proof fn lemma_parse_ser(m: StacksMessageTypeV, rest: Seq<u8>) {
        match m {
            StacksMessageTypeV::Handshake(d) => lemma_rt_handshake(d, rest),
            StacksMessageTypeV::HandshakeAccept(d) => lemma_rt_handshakeaccept(d, rest),
            StacksMessageTypeV::HandshakeReject => lemma_rt_handshakereject(rest),
            StacksMessageTypeV::GetNeighbors => lemma_rt_getneighbors(rest),
            StacksMessageTypeV::Neighbors(d) => lemma_rt_neighbors(d, rest),
            StacksMessageTypeV::GetBlocksInv(d) => lemma_rt_getblocksinv(d, rest),
            StacksMessageTypeV::BlocksInv(d) => lemma_rt_blocksinv(d, rest),
            StacksMessageTypeV::GetPoxInv(d) => lemma_rt_getpoxinv(d, rest),
            StacksMessageTypeV::PoxInv(d) => lemma_rt_poxinv(d, rest),
            StacksMessageTypeV::BlocksAvailable(d) => lemma_rt_blocksavailable(d, rest),
            StacksMessageTypeV::MicroblocksAvailable(d) => lemma_rt_microblocksavailable(d, rest),
            StacksMessageTypeV::Blocks(d) => lemma_rt_blocks(d, rest),
            StacksMessageTypeV::Microblocks(d) => lemma_rt_microblocks(d, rest),
            StacksMessageTypeV::Transaction(d) => lemma_rt_transaction(d, rest),
            StacksMessageTypeV::Nack(d) => lemma_rt_nack(d, rest),
            StacksMessageTypeV::Ping(d) => lemma_rt_ping(d, rest),
            StacksMessageTypeV::Pong(d) => lemma_rt_pong(d, rest),
            StacksMessageTypeV::NatPunchRequest(d) => lemma_rt_natpunchrequest(d, rest),
            StacksMessageTypeV::NatPunchReply(d) => lemma_rt_natpunchreply(d, rest),
        }
    }

    fn consensus_serialize(&self, out: &mut Vec<u8>) {
        let ghost m = self.deep_view();
        match self {
            StacksMessageType::Handshake(d) => {
                proof {
                    lemma_ser_at_handshake(d.deep_view());
                }
                out.push(0u8);
                assert(out@ =~= old(out)@ + seq![0u8]);
                d.consensus_serialize(out);
                assert(out@ =~= old(out)@ + spec_ser_message_type(m));
            },
            StacksMessageType::HandshakeAccept(d) => {
                proof {
                    lemma_ser_at_handshakeaccept(d.deep_view());
                }
                out.push(1u8);
                assert(out@ =~= old(out)@ + seq![1u8]);
                d.consensus_serialize(out);
                assert(out@ =~= old(out)@ + spec_ser_message_type(m));
            },
            StacksMessageType::HandshakeReject => {
                proof {
                    lemma_ser_at_handshakereject();
                }
                out.push(2u8);
                assert(out@ =~= old(out)@ + spec_ser_message_type(m));
            },
            StacksMessageType::GetNeighbors => {
                proof {
                    lemma_ser_at_getneighbors();
                }
                out.push(3u8);
                assert(out@ =~= old(out)@ + spec_ser_message_type(m));
            },
            StacksMessageType::Neighbors(d) => {
                proof {
                    lemma_ser_at_neighbors(d.deep_view());
                }
                out.push(4u8);
                assert(out@ =~= old(out)@ + seq![4u8]);
                d.consensus_serialize(out);
                assert(out@ =~= old(out)@ + spec_ser_message_type(m));
            },
            StacksMessageType::GetBlocksInv(d) => {
                proof {
                    lemma_ser_at_getblocksinv(d.deep_view());
                }
                out.push(5u8);
                assert(out@ =~= old(out)@ + seq![5u8]);
                d.consensus_serialize(out);
                assert(out@ =~= old(out)@ + spec_ser_message_type(m));
            },
            StacksMessageType::BlocksInv(d) => {
                proof {
                    lemma_ser_at_blocksinv(d.deep_view());
                }
                out.push(6u8);
                assert(out@ =~= old(out)@ + seq![6u8]);
                d.consensus_serialize(out);
                assert(out@ =~= old(out)@ + spec_ser_message_type(m));
            },
            StacksMessageType::GetPoxInv(d) => {
                proof {
                    lemma_ser_at_getpoxinv(d.deep_view());
                }
                out.push(7u8);
                assert(out@ =~= old(out)@ + seq![7u8]);
                d.consensus_serialize(out);
                assert(out@ =~= old(out)@ + spec_ser_message_type(m));
            },
            StacksMessageType::PoxInv(d) => {
                proof {
                    lemma_ser_at_poxinv(d.deep_view());
                }
                out.push(8u8);
                assert(out@ =~= old(out)@ + seq![8u8]);
                d.consensus_serialize(out);
                assert(out@ =~= old(out)@ + spec_ser_message_type(m));
            },
            StacksMessageType::BlocksAvailable(d) => {
                proof {
                    lemma_ser_at_blocksavailable(d.deep_view());
                }
                out.push(9u8);
                assert(out@ =~= old(out)@ + seq![9u8]);
                d.consensus_serialize(out);
                assert(out@ =~= old(out)@ + spec_ser_message_type(m));
            },
            StacksMessageType::MicroblocksAvailable(d) => {
                proof {
                    lemma_ser_at_microblocksavailable(d.deep_view());
                }
                out.push(10u8);
                assert(out@ =~= old(out)@ + seq![10u8]);
                d.consensus_serialize(out);
                assert(out@ =~= old(out)@ + spec_ser_message_type(m));
            },
            StacksMessageType::Blocks(d) => {
                proof {
                    lemma_ser_at_blocks(d.deep_view());
                }
                out.push(11u8);
                assert(out@ =~= old(out)@ + seq![11u8]);
                d.consensus_serialize(out);
                assert(out@ =~= old(out)@ + spec_ser_message_type(m));
            },
            StacksMessageType::Microblocks(d) => {
                proof {
                    lemma_ser_at_microblocks(d.deep_view());
                }
                out.push(12u8);
                assert(out@ =~= old(out)@ + seq![12u8]);
                d.consensus_serialize(out);
                assert(out@ =~= old(out)@ + spec_ser_message_type(m));
            },
            StacksMessageType::Transaction(d) => {
                proof {
                    lemma_ser_at_transaction(d.deep_view());
                }
                out.push(13u8);
                assert(out@ =~= old(out)@ + seq![13u8]);
                d.consensus_serialize(out);
                assert(out@ =~= old(out)@ + spec_ser_message_type(m));
            },
            StacksMessageType::Nack(d) => {
                proof {
                    lemma_ser_at_nack(d.deep_view());
                }
                out.push(14u8);
                assert(out@ =~= old(out)@ + seq![14u8]);
                d.consensus_serialize(out);
                assert(out@ =~= old(out)@ + spec_ser_message_type(m));
            },
            StacksMessageType::Ping(d) => {
                proof {
                    lemma_ser_at_ping(d.deep_view());
                }
                out.push(15u8);
                assert(out@ =~= old(out)@ + seq![15u8]);
                d.consensus_serialize(out);
                assert(out@ =~= old(out)@ + spec_ser_message_type(m));
            },
            StacksMessageType::Pong(d) => {
                proof {
                    lemma_ser_at_pong(d.deep_view());
                }
                out.push(16u8);
                assert(out@ =~= old(out)@ + seq![16u8]);
                d.consensus_serialize(out);
                assert(out@ =~= old(out)@ + spec_ser_message_type(m));
            },
            StacksMessageType::NatPunchRequest(d) => {
                proof {
                    lemma_ser_at_natpunchrequest(d.deep_view());
                }
                out.push(17u8);
                assert(out@ =~= old(out)@ + seq![17u8]);
                d.consensus_serialize(out);
                assert(out@ =~= old(out)@ + spec_ser_message_type(m));
            },
            StacksMessageType::NatPunchReply(d) => {
                proof {
                    lemma_ser_at_natpunchreply(d.deep_view());
                }
                out.push(18u8);
                assert(out@ =~= old(out)@ + seq![18u8]);
                d.consensus_serialize(out);
                assert(out@ =~= old(out)@ + spec_ser_message_type(m));
            },
        }
    }

    fn consensus_deserialize(buf: &Vec<u8>, pos: usize, end: usize) -> (r: Result<
        (StacksMessageType, usize),
        CodecError,
    >) {
        let ghost w = buf@.subrange(pos as int, end as int);
        if pos >= end {
            proof {
                lemma_parse_empty(w);
            }
            return Err(CodecError::Underflow);
        }
        let code = buf[pos];
        assert(w[0] == code);
        if code == 0 {
            read_payload_handshake(buf, pos, end)
        } else if code == 1 {
            read_payload_handshakeaccept(buf, pos, end)
        } else if code == 2 {
            read_payload_handshakereject(buf, pos, end)
        } else if code == 3 {
            read_payload_getneighbors(buf, pos, end)
        } else if code == 4 {
            read_payload_neighbors(buf, pos, end)
        } else if code == 5 {
            read_payload_getblocksinv(buf, pos, end)
        } else if code == 6 {
            read_payload_blocksinv(buf, pos, end)
        } else if code == 7 {
            read_payload_getpoxinv(buf, pos, end)
        } else if code == 8 {
            read_payload_poxinv(buf, pos, end)
        } else if code == 9 {
            read_payload_blocksavailable(buf, pos, end)
        } else if code == 10 {
            read_payload_microblocksavailable(buf, pos, end)
        } else if code == 11 {
            read_payload_blocks(buf, pos, end)
        } else if code == 12 {
            read_payload_microblocks(buf, pos, end)
        } else if code == 13 {
            read_payload_transaction(buf, pos, end)
        } else if code == 14 {
            read_payload_nack(buf, pos, end)
        } else if code == 15 {
            read_payload_ping(buf, pos, end)
        } else if code == 16 {
            read_payload_pong(buf, pos, end)
        } else if code == 17 {
            read_payload_natpunchrequest(buf, pos, end)
        } else if code == 18 {
            read_payload_natpunchreply(buf, pos, end)
        } else {
            proof {
                lemma_parse_at_unknown(w);
            }
            Err(CodecError::Deserialize)
        }
    }
}

} // verus!

verus! {

/// Every payload serializes to at least its identifier byte.
pub proof fn lemma_ser_message_type_len(m: StacksMessageTypeV)
    ensures
        spec_ser_message_type(m).len() >= 1,
{
    reveal(spec_ser_message_type);
}

} // verus!

verus! {

/// The human-readable description of a payload, at the model level: the
/// variant's name with its key parameters rendered in decimal and lowercase
/// hexadecimal.  It is diagnostic text, not part of the wire format.
pub open spec fn spec_get_message_description(m: StacksMessageTypeV) -> Seq<char> {
    match m {
        StacksMessageTypeV::Handshake(d) => "Handshake("@
            + crate::render::spec_hex(d.node_public_key)
            + ")"@,
        StacksMessageTypeV::HandshakeAccept(d) => "HandshakeAccept("@
            + crate::render::spec_hex(d.handshake.node_public_key)
            + ","@
            + crate::render::spec_dec(d.heartbeat_interval as u64)
            + ")"@,
        StacksMessageTypeV::HandshakeReject => "HandshakeReject"@,
        StacksMessageTypeV::GetNeighbors => "GetNeighbors"@,
        StacksMessageTypeV::Neighbors(d) => "Neighbors("@
            + crate::render::spec_dec(d.neighbors.len() as u64)
            + ")"@,
        StacksMessageTypeV::GetBlocksInv(d) => "GetBlocksInv("@
            + crate::render::spec_hex(d.consensus_hash)
            + ","@
            + crate::render::spec_dec(d.num_blocks as u64)
            + ")"@,
        StacksMessageTypeV::BlocksInv(d) => "BlocksInv("@
            + crate::render::spec_dec(d.bitlen as u64)
            + ","@
            + crate::render::spec_hex(d.block_bitvec)
            + ","@
            + crate::render::spec_hex(d.microblocks_bitvec)
            + ")"@,
        StacksMessageTypeV::GetPoxInv(d) => "GetPoxInv("@
            + crate::render::spec_hex(d.consensus_hash)
            + ","@
            + crate::render::spec_dec(d.num_cycles as u64)
            + ")"@,
        StacksMessageTypeV::PoxInv(d) => "PoxInv("@
            + crate::render::spec_dec(d.bitlen as u64)
            + ","@
            + crate::render::spec_hex(d.pox_bitvec)
            + ")"@,
        StacksMessageTypeV::BlocksAvailable(d) => "BlocksAvailable("@
            + crate::render::spec_dec(d.available.len() as u64)
            + ")"@,
        StacksMessageTypeV::MicroblocksAvailable(d) => "MicroblocksAvailable("@
            + crate::render::spec_dec(d.available.len() as u64)
            + ")"@,
        StacksMessageTypeV::Blocks(d) => "Blocks("@
            + crate::render::spec_dec(d.blocks.len() as u64)
            + ")"@,
        StacksMessageTypeV::Microblocks(d) => "Microblocks("@
            + crate::render::spec_hex(d.index_anchor_block)
            + ","@
            + crate::render::spec_dec(d.microblocks.len() as u64)
            + ")"@,
        StacksMessageTypeV::Transaction(d) => "Transaction("@
            + crate::render::spec_dec(d.len() as u64)
            + ")"@,
        StacksMessageTypeV::Nack(d) => "Nack("@
            + crate::render::spec_dec(d.error_code as u64)
            + ")"@,
        StacksMessageTypeV::Ping(d) => "Ping("@
            + crate::render::spec_dec(d.nonce as u64)
            + ")"@,
        StacksMessageTypeV::Pong(d) => "Pong("@
            + crate::render::spec_dec(d.nonce as u64)
            + ")"@,
        StacksMessageTypeV::NatPunchRequest(d) => "NatPunchRequest("@
            + crate::render::spec_dec(d as u64)
            + ")"@,
        StacksMessageTypeV::NatPunchReply(d) => "NatPunchReply("@
            + crate::render::spec_dec(d.nonce as u64)
            + ","@
            + crate::render::spec_hex(d.addrbytes)
            + ":"@
            + crate::render::spec_dec(d.port as u64)
            + ")"@,
    }
}

impl StacksMessageType {
    /// Render a human-readable description of this payload: diagnostic text,
    /// not part of the wire format.
    pub fn get_message_description(&self) -> (r: String)
        ensures
            r@ == spec_get_message_description(self.deep_view()),
    {
        let mut out = String::new();
        proof {
            assert forall|t: Seq<char>| #![auto] Seq::<char>::empty() + t == t by {
                assert(Seq::<char>::empty() + t =~= t);
            }
        }
        match self {
            StacksMessageType::Handshake(d) => {
                out.append("Handshake(");
                crate::render::append_hex(&mut out, &d.node_public_key.0);
                out.append(")");
                assert(out@ == spec_get_message_description(self.deep_view()));
            },
            StacksMessageType::HandshakeAccept(d) => {
                out.append("HandshakeAccept(");
                crate::render::append_hex(&mut out, &d.handshake.node_public_key.0);
                out.append(",");
                crate::render::append_dec(&mut out, d.heartbeat_interval as u64);
                out.append(")");
                assert(out@ == spec_get_message_description(self.deep_view()));
            },
            StacksMessageType::HandshakeReject => {
                out.append("HandshakeReject");
                assert(out@ == spec_get_message_description(self.deep_view()));
            },
            StacksMessageType::GetNeighbors => {
                out.append("GetNeighbors");
                assert(out@ == spec_get_message_description(self.deep_view()));
            },
            StacksMessageType::Neighbors(d) => {
                out.append("Neighbors(");
                crate::render::append_dec(&mut out, d.neighbors.len() as u64);
                out.append(")");
                assert(out@ == spec_get_message_description(self.deep_view()));
            },
            StacksMessageType::GetBlocksInv(d) => {
                out.append("GetBlocksInv(");
                crate::render::append_hex(&mut out, &d.consensus_hash.0);
                out.append(",");
                crate::render::append_dec(&mut out, d.num_blocks as u64);
                out.append(")");
                assert(out@ == spec_get_message_description(self.deep_view()));
            },
            StacksMessageType::BlocksInv(d) => {
                assert(d.block_bitvec.deep_view() =~= d.block_bitvec@);
                assert(d.microblocks_bitvec.deep_view() =~= d.microblocks_bitvec@);
                out.append("BlocksInv(");
                crate::render::append_dec(&mut out, d.bitlen as u64);
                out.append(",");
                crate::render::append_hex(&mut out, &d.block_bitvec);
                out.append(",");
                crate::render::append_hex(&mut out, &d.microblocks_bitvec);
                out.append(")");
                assert(out@ == spec_get_message_description(self.deep_view()));
            },
            StacksMessageType::GetPoxInv(d) => {
                out.append("GetPoxInv(");
                crate::render::append_hex(&mut out, &d.consensus_hash.0);
                out.append(",");
                crate::render::append_dec(&mut out, d.num_cycles as u64);
                out.append(")");
                assert(out@ == spec_get_message_description(self.deep_view()));
            },
            StacksMessageType::PoxInv(d) => {
                assert(d.pox_bitvec.deep_view() =~= d.pox_bitvec@);
                out.append("PoxInv(");
                crate::render::append_dec(&mut out, d.bitlen as u64);
                out.append(",");
                crate::render::append_hex(&mut out, &d.pox_bitvec);
                out.append(")");
                assert(out@ == spec_get_message_description(self.deep_view()));
            },
            StacksMessageType::BlocksAvailable(d) => {
                out.append("BlocksAvailable(");
                crate::render::append_dec(&mut out, d.available.len() as u64);
                out.append(")");
                assert(out@ == spec_get_message_description(self.deep_view()));
            },
            StacksMessageType::MicroblocksAvailable(d) => {
                out.append("MicroblocksAvailable(");
                crate::render::append_dec(&mut out, d.available.len() as u64);
                out.append(")");
                assert(out@ == spec_get_message_description(self.deep_view()));
            },
            StacksMessageType::Blocks(d) => {
                out.append("Blocks(");
                crate::render::append_dec(&mut out, d.blocks.len() as u64);
                out.append(")");
                assert(out@ == spec_get_message_description(self.deep_view()));
            },
            StacksMessageType::Microblocks(d) => {
                out.append("Microblocks(");
                crate::render::append_hex(&mut out, &d.index_anchor_block.0);
                out.append(",");
                crate::render::append_dec(&mut out, d.microblocks.len() as u64);
                out.append(")");
                assert(out@ == spec_get_message_description(self.deep_view()));
            },
            StacksMessageType::Transaction(d) => {
                out.append("Transaction(");
                crate::render::append_dec(&mut out, d.0.len() as u64);
                out.append(")");
                assert(out@ == spec_get_message_description(self.deep_view()));
            },
            StacksMessageType::Nack(d) => {
                out.append("Nack(");
                crate::render::append_dec(&mut out, d.error_code as u64);
                out.append(")");
                assert(out@ == spec_get_message_description(self.deep_view()));
            },
            StacksMessageType::Ping(d) => {
                out.append("Ping(");
                crate::render::append_dec(&mut out, d.nonce as u64);
                out.append(")");
                assert(out@ == spec_get_message_description(self.deep_view()));
            },
            StacksMessageType::Pong(d) => {
                out.append("Pong(");
                crate::render::append_dec(&mut out, d.nonce as u64);
                out.append(")");
                assert(out@ == spec_get_message_description(self.deep_view()));
            },
            StacksMessageType::NatPunchRequest(d) => {
                out.append("NatPunchRequest(");
                crate::render::append_dec(&mut out, *d as u64);
                out.append(")");
                assert(out@ == spec_get_message_description(self.deep_view()));
            },
            StacksMessageType::NatPunchReply(d) => {
                out.append("NatPunchReply(");
                crate::render::append_dec(&mut out, d.nonce as u64);
                out.append(",");
                crate::render::append_hex(&mut out, &d.addrbytes.0);
                out.append(":");
                crate::render::append_dec(&mut out, d.port as u64);
                out.append(")");
                assert(out@ == spec_get_message_description(self.deep_view()));
            },
        }
        out
    }
}

} // verus!