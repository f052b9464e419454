//! Byte-exact fixtures for every codec type: serialization matches the known
//! wire bytes, the bytes decode back to the same value, and truncating any
//! encoding by one byte is detected as an underflow.
#![allow(non_snake_case)]

use stacks_codec::codec::{CodecError, StacksMessageCodec};
use stacks_codec::crypto::{Secp256k1PrivateKey, Secp256k1PublicKey};
use stacks_codec::message::StacksMessage;
use stacks_codec::message_type::StacksMessageType;
use stacks_codec::neighbor::{NeighborAddress, NeighborsData, RelayData};
use stacks_codec::payload::{
    BlocksAvailableData, BlocksInvData, GetBlocksInv, GetPoxInv, HandshakeAcceptData,
    HandshakeData, NackData, NatPunchData, PingData, PongData, PoxInvData,
};
use stacks_codec::preamble::Preamble;
use stacks_codec::types::{
    BurnchainHeaderHash, ConsensusHash, Hash160, MessageSignature, PeerAddress,
    StacksPublicKeyBuffer, UrlString,
};
use stacks_codec::{
    GETPOXINV_MAX_BITLEN, MAX_MESSAGE_LEN, MAX_RELAYERS_LEN, NEIGHBOR_ADDRESS_ENCODED_SIZE,
    PEER_VERSION_TESTNET, PREAMBLE_ENCODED_SIZE,
};

fn hex_bytes(s: &str) -> Vec<u8> {
    assert!(s.len() % 2 == 0);
    let chars: Vec<u8> = s.bytes().collect();
    let mut out = Vec::new();
    let nibble = |c: u8| -> u8 {
        match c {
            b'0'..=b'9' => c - b'0',
            b'a'..=b'f' => c - b'a' + 10,
            b'A'..=b'F' => c - b'A' + 10,
            _ => panic!("not a hex digit"),
        }
    };
    let mut i = 0;
    while i < chars.len() {
        out.push(nibble(chars[i]) * 16 + nibble(chars[i + 1]));
        i += 2;
    }
    out
}

fn check_codec_and_corruption<T>(obj: &T, bytes: &Vec<u8>)
where
    T: StacksMessageCodec + std::fmt::Debug + Clone + PartialEq,
{
    // obj should serialize to bytes
    let mut write_buf: Vec<u8> = Vec::new();
    obj.consensus_serialize(&mut write_buf);
    assert_eq!(write_buf, *bytes);

    // bytes should deserialize to obj, consuming them all
    match T::consensus_deserialize(&write_buf, 0, write_buf.len()) {
        Ok((out, n)) => {
            assert_eq!(out, *obj);
            assert_eq!(n, write_buf.len());
        }
        Err(e) => {
            panic!("failed to parse {:?} from {:?}: {:?}", obj, bytes, e);
        }
    }

    // a short message should be detected as an underflow
    if write_buf.len() > 0 {
        let mut short_buf = write_buf.clone();
        let short_len = short_buf.len() - 1;
        short_buf.truncate(short_len);
        match T::consensus_deserialize(&short_buf, 0, short_buf.len()) {
            Ok(oops) => {
                panic!("missing underflow: parsed {:?} from truncated bytes", oops);
            }
            Err(CodecError::Underflow) => {}
            Err(e) => {
                panic!("got unexpected error: {:?}", e);
            }
        }
    }
}

fn check_deserialize_failure<T>(obj: &T) -> bool
where
    T: StacksMessageCodec + std::fmt::Debug + Clone + PartialEq,
{
    let mut bytes: Vec<u8> = Vec::new();
    obj.consensus_serialize(&mut bytes);
    match T::consensus_deserialize(&bytes, 0, bytes.len()) {
        Ok(_) => false,
        Err(CodecError::Deserialize) => true,
        Err(_) => false,
    }
}

#[test]
fn codec_primitive_types() {
    check_codec_and_corruption::<u8>(&0x01, &vec![0x01]);
    check_codec_and_corruption::<u16>(&0x0203, &vec![0x02, 0x03]);
    check_codec_and_corruption::<u32>(&0x04050607, &vec![0x04, 0x05, 0x06, 0x07]);
    check_codec_and_corruption::<u64>(
        &0x08090a0b0c0d0e0f,
        &vec![0x08, 0x09, 0x0a, 0x0b, 0x0c, 0x0d, 0x0e, 0x0f],
    );
}

#[test]
fn codec_primitive_vector() {
    check_codec_and_corruption::<Vec<u8>>(&vec![], &vec![0x00, 0x00, 0x00, 0x00]);
    check_codec_and_corruption::<Vec<u8>>(
        &vec![0x00, 0x01, 0x02, 0x03, 0x04, 0x05, 0x06, 0x07, 0x08, 0x09],
        &vec![
            0x00, 0x00, 0x00, 0x0a, 0x00, 0x01, 0x02, 0x03, 0x04, 0x05, 0x06, 0x07, 0x08, 0x09,
        ],
    );

    check_codec_and_corruption::<Vec<u16>>(&vec![], &vec![0x00, 0x00, 0x00, 0x00]);
    check_codec_and_corruption::<Vec<u16>>(
        &vec![
            0xf000, 0xf101, 0xf202, 0xf303, 0xf404, 0xf505, 0xf606, 0xf707, 0xf808, 0xf909,
        ],
        &vec![
            0x00, 0x00, 0x00, 0x0a, 0xf0, 0x00, 0xf1, 0x01, 0xf2, 0x02, 0xf3, 0x03, 0xf4, 0x04,
            0xf5, 0x05, 0xf6, 0x06, 0xf7, 0x07, 0xf8, 0x08, 0xf9, 0x09,
        ],
    );

    check_codec_and_corruption::<Vec<u32>>(&vec![], &vec![0x00, 0x00, 0x00, 0x00]);
    check_codec_and_corruption::<Vec<u32>>(
        &vec![
            0xa0b0f000, 0xa1b1f101, 0xa2b2f202, 0xa3b3f303, 0xa4b4f404, 0xa5b5f505, 0xa6b6f606,
            0xa7b7f707, 0xa8b8f808, 0xa9b9f909,
        ],
        &vec![
            0x00, 0x00, 0x00, 0x0a, 0xa0, 0xb0, 0xf0, 0x00, 0xa1, 0xb1, 0xf1, 0x01, 0xa2, 0xb2,
            0xf2, 0x02, 0xa3, 0xb3, 0xf3, 0x03, 0xa4, 0xb4, 0xf4, 0x04, 0xa5, 0xb5, 0xf5, 0x05,
            0xa6, 0xb6, 0xf6, 0x06, 0xa7, 0xb7, 0xf7, 0x07, 0xa8, 0xb8, 0xf8, 0x08, 0xa9, 0xb9,
            0xf9, 0x09,
        ],
    );

    check_codec_and_corruption::<Vec<u64>>(&vec![], &vec![0x00, 0x00, 0x00, 0x00]);
    check_codec_and_corruption::<Vec<u64>>(
        &vec![
            0x1020304050607080,
            0x1121314151617181,
            0x1222324252627282,
            0x1323334353637383,
            0x1424344454647484,
            0x1525354555657585,
            0x1626364656667686,
            0x1727374757677787,
            0x1828384858687888,
        ],
        &vec![
            0x00, 0x00, 0x00, 0x09, 0x10, 0x20, 0x30, 0x40, 0x50, 0x60, 0x70, 0x80, 0x11, 0x21,
            0x31, 0x41, 0x51, 0x61, 0x71, 0x81, 0x12, 0x22, 0x32, 0x42, 0x52, 0x62, 0x72, 0x82,
            0x13, 0x23, 0x33, 0x43, 0x53, 0x63, 0x73, 0x83, 0x14, 0x24, 0x34, 0x44, 0x54, 0x64,
            0x74, 0x84, 0x15, 0x25, 0x35, 0x45, 0x55, 0x65, 0x75, 0x85, 0x16, 0x26, 0x36, 0x46,
            0x56, 0x66, 0x76, 0x86, 0x17, 0x27, 0x37, 0x47, 0x57, 0x67, 0x77, 0x87, 0x18, 0x28,
            0x38, 0x48, 0x58, 0x68, 0x78, 0x88,
        ],
    );
}

fn fixture_preamble() -> Preamble {
    Preamble {
        peer_version: 0x01020304,
        network_id: 0x05060708,
        seq: 0x090a0b0c,
        burn_block_height: 0x00001122,
        burn_block_hash: BurnchainHeaderHash(vec![0x11; 32]),
        burn_stable_block_height: 0x00001111,
        burn_stable_block_hash: BurnchainHeaderHash(vec![0x22; 32]),
        additional_data: 0x33333333,
        signature: MessageSignature(vec![0x44; 65]),
        payload_len: 0x000007ff,
    }
}

fn fixture_preamble_bytes() -> Vec<u8> {
    let mut preamble_bytes: Vec<u8> = vec![
        // peer_version
        0x01, 0x02, 0x03, 0x04, // network_id
        0x05, 0x06, 0x07, 0x08, // seq
        0x09, 0x0a, 0x0b, 0x0c, // burn_block_height
        0x00, 0x00, 0x00, 0x00, 0x00, 0x00, 0x11, 0x22,
    ];
    preamble_bytes.extend_from_slice(&[0x11; 32]); // burn_block_hash
    preamble_bytes.extend_from_slice(&[0x00, 0x00, 0x00, 0x00, 0x00, 0x00, 0x11, 0x11]);
    preamble_bytes.extend_from_slice(&[0x22; 32]); // burn_stable_block_hash
    preamble_bytes.extend_from_slice(&[0x33, 0x33, 0x33, 0x33]); // additional_data
    preamble_bytes.extend_from_slice(&[0x44; 65]); // signature
    preamble_bytes.extend_from_slice(&[0x00, 0x00, 0x07, 0xff]); // payload_len
    preamble_bytes
}

#[test]
fn codec_Preamble() {
    let preamble = fixture_preamble();
    let preamble_bytes = fixture_preamble_bytes();
    assert_eq!(preamble_bytes.len() as u32, PREAMBLE_ENCODED_SIZE);
    check_codec_and_corruption::<Preamble>(&preamble, &preamble_bytes);
}

#[test]
fn codec_GetPoxInv() {
    let getpoxinv = GetPoxInv {
        consensus_hash: ConsensusHash(vec![0x55; 20]),
        num_cycles: GETPOXINV_MAX_BITLEN as u16,
    };

    let mut getpoxinv_bytes: Vec<u8> = vec![0x55; 20];
    getpoxinv_bytes.push(0x00);
    getpoxinv_bytes.push(GETPOXINV_MAX_BITLEN as u8);

    check_codec_and_corruption::<GetPoxInv>(&getpoxinv, &getpoxinv_bytes);

    // should fail to decode if the cycle range is too big
    let getpoxinv_range_too_big = GetPoxInv {
        consensus_hash: ConsensusHash(vec![0x55; 20]),
        num_cycles: (GETPOXINV_MAX_BITLEN + 1) as u16,
    };

    assert!(check_deserialize_failure::<GetPoxInv>(&getpoxinv_range_too_big));
}

#[test]
fn codec_PoxInvData() {
    // maximally big PoxInvData
    let maximal_bitvec = vec![0xffu8; (GETPOXINV_MAX_BITLEN / 8) as usize];
    let mut too_big_bitvec: Vec<u8> = vec![];
    for _i in 0..GETPOXINV_MAX_BITLEN + 1 {
        too_big_bitvec.push(0xff);
    }

    let maximal_poxinvdata = PoxInvData {
        bitlen: GETPOXINV_MAX_BITLEN as u16,
        pox_bitvec: maximal_bitvec.clone(),
    };

    let mut maximal_poxinvdata_bytes: Vec<u8> = vec![];
    maximal_poxinvdata_bytes.extend_from_slice(&(GETPOXINV_MAX_BITLEN as u16).to_be_bytes());
    maximal_poxinvdata_bytes.extend_from_slice(&((GETPOXINV_MAX_BITLEN / 8) as u32).to_be_bytes());
    maximal_poxinvdata_bytes.extend_from_slice(&maximal_bitvec);

    assert!((maximal_poxinvdata_bytes.len() as u32) < MAX_MESSAGE_LEN);

    check_codec_and_corruption::<PoxInvData>(&maximal_poxinvdata, &maximal_poxinvdata_bytes);

    // should fail to decode if the bitlen is too big
    let too_big_poxinvdata = PoxInvData {
        bitlen: (GETPOXINV_MAX_BITLEN + 1) as u16,
        pox_bitvec: too_big_bitvec.clone(),
    };
    assert!(check_deserialize_failure::<PoxInvData>(&too_big_poxinvdata));

    // should fail to decode if the bitlen doesn't match the bitvec
    let long_bitlen = PoxInvData {
        bitlen: 1,
        pox_bitvec: vec![0xff, 0x01],
    };
    assert!(check_deserialize_failure::<PoxInvData>(&long_bitlen));

    let short_bitlen = PoxInvData {
        bitlen: 9,
        pox_bitvec: vec![0xff],
    };
    assert!(check_deserialize_failure::<PoxInvData>(&short_bitlen));

    check_codec_and_corruption::<PoxInvData>(&maximal_poxinvdata, &maximal_poxinvdata_bytes);
}

#[test]
fn codec_GetBlocksInv() {
    let getblocksdata = GetBlocksInv {
        consensus_hash: ConsensusHash(vec![0x55; 20]),
        num_blocks: 32,
    };

    let mut getblocksdata_bytes: Vec<u8> = vec![0x55; 20];
    getblocksdata_bytes.extend_from_slice(&[0x00, 0x20]);

    check_codec_and_corruption::<GetBlocksInv>(&getblocksdata, &getblocksdata_bytes);
}

#[test]
fn codec_BlocksInvData() {
    let blocks_bitlen: u32 = 32;

    let maximal_bitvec = vec![0xffu8; (blocks_bitlen / 8) as usize];
    let maximal_blocksinvdata = BlocksInvData {
        bitlen: blocks_bitlen as u16,
        block_bitvec: maximal_bitvec.clone(),
        microblocks_bitvec: maximal_bitvec.clone(),
    };

    let mut maximal_blocksinvdata_bytes: Vec<u8> = vec![];
    // bitlen
    maximal_blocksinvdata_bytes.extend_from_slice(&(blocks_bitlen as u16).to_be_bytes());
    // block bitvec
    maximal_blocksinvdata_bytes.extend_from_slice(&(blocks_bitlen / 8).to_be_bytes());
    maximal_blocksinvdata_bytes.extend_from_slice(&maximal_bitvec);
    // microblock bitvec
    maximal_blocksinvdata_bytes.extend_from_slice(&(blocks_bitlen / 8).to_be_bytes());
    maximal_blocksinvdata_bytes.extend_from_slice(&maximal_bitvec);

    assert!((maximal_blocksinvdata_bytes.len() as u32) < MAX_MESSAGE_LEN);

    check_codec_and_corruption::<BlocksInvData>(&maximal_blocksinvdata, &maximal_blocksinvdata_bytes);

    // should fail to decode if the bitlen doesn't match the bitvec
    let long_bitlen = BlocksInvData {
        bitlen: 1,
        block_bitvec: vec![0xff, 0x01],
        microblocks_bitvec: vec![0xff, 0x01],
    };
    assert!(check_deserialize_failure::<BlocksInvData>(&long_bitlen));

    let short_bitlen = BlocksInvData {
        bitlen: 9,
        block_bitvec: vec![0xff],
        microblocks_bitvec: vec![0xff],
    };
    assert!(check_deserialize_failure::<BlocksInvData>(&short_bitlen));

    check_codec_and_corruption::<BlocksInvData>(&maximal_blocksinvdata, &maximal_blocksinvdata_bytes);
}

#[test]
fn codec_NeighborAddress() {
    let data = NeighborAddress {
        addrbytes: PeerAddress(vec![
            0x00, 0x01, 0x02, 0x03, 0x04, 0x05, 0x06, 0x07, 0x08, 0x09, 0x0a, 0x0b, 0x0c, 0x0d,
            0x0e, 0x0f,
        ]),
        port: 12345,
        public_key_hash: Hash160(hex_bytes("1111111111111111111111111111111111111111")),
    };
    let mut bytes: Vec<u8> = vec![
        // addrbytes
        0x00, 0x01, 0x02, 0x03, 0x04, 0x05, 0x06, 0x07, 0x08, 0x09, 0x0a, 0x0b, 0x0c, 0x0d, 0x0e,
        0x0f, // port
        0x30, 0x39,
    ];
    bytes.extend_from_slice(&[0x11; 20]); // public key hash

    assert_eq!(bytes.len() as u32, NEIGHBOR_ADDRESS_ENCODED_SIZE);
    check_codec_and_corruption::<NeighborAddress>(&data, &bytes);
}

#[test]
fn codec_NeighborsData() {
    let data = NeighborsData {
        neighbors: vec![
            NeighborAddress {
                addrbytes: PeerAddress(vec![
                    0x00, 0x01, 0x02, 0x03, 0x04, 0x05, 0x06, 0x07, 0x08, 0x09, 0x0a, 0x0b, 0x0c,
                    0x0d, 0x0e, 0x0f,
                ]),
                port: 12345,
                public_key_hash: Hash160(hex_bytes("1111111111111111111111111111111111111111")),
            },
            NeighborAddress {
                addrbytes: PeerAddress(vec![
                    0x10, 0x11, 0x12, 0x13, 0x14, 0x15, 0x16, 0x17, 0x18, 0x19, 0x1a, 0x1b, 0x1c,
                    0x1d, 0x1e, 0x1f,
                ]),
                port: 23456,
                public_key_hash: Hash160(hex_bytes("2222222222222222222222222222222222222222")),
            },
        ],
    };
    let mut bytes: Vec<u8> = vec![
        // length
        0x00, 0x00, 0x00, 0x02, // addrbytes
        0x00, 0x01, 0x02, 0x03, 0x04, 0x05, 0x06, 0x07, 0x08, 0x09, 0x0a, 0x0b, 0x0c, 0x0d, 0x0e,
        0x0f, // port
        0x30, 0x39,
    ];
    bytes.extend_from_slice(&[0x11; 20]); // public key hash
    bytes.extend_from_slice(&[
        // addrbytes
        0x10, 0x11, 0x12, 0x13, 0x14, 0x15, 0x16, 0x17, 0x18, 0x19, 0x1a, 0x1b, 0x1c, 0x1d, 0x1e,
        0x1f, // port
        0x5b, 0xa0,
    ]);
    bytes.extend_from_slice(&[0x22; 20]); // public key hash

    check_codec_and_corruption::<NeighborsData>(&data, &bytes);
}

fn fixture_handshake_data() -> HandshakeData {
    HandshakeData {
        addrbytes: PeerAddress(vec![
            0x00, 0x01, 0x02, 0x03, 0x04, 0x05, 0x06, 0x07, 0x08, 0x09, 0x0a, 0x0b, 0x0c, 0x0d,
            0x0e, 0x0f,
        ]),
        port: 12345,
        services: 0x0001,
        node_public_key: StacksPublicKeyBuffer(hex_bytes(
            "034e316be04870cef1795fba64d581cf64bad0c894b01a068fb9edf85321dcd9bb",
        )),
        expire_block_height: 0x0102030405060708,
        data_url: UrlString("https://the-new-interwebs.com/data".as_bytes().to_vec()),
    }
}

fn fixture_handshake_bytes() -> Vec<u8> {
    let mut bytes = vec![
        // addrbytes
        0x00, 0x01, 0x02, 0x03, 0x04, 0x05, 0x06, 0x07, 0x08, 0x09, 0x0a, 0x0b, 0x0c, 0x0d, 0x0e,
        0x0f, // port
        0x30, 0x39, // services
        0x00, 0x01, // public key
        0x03, 0x4e, 0x31, 0x6b, 0xe0, 0x48, 0x70, 0xce, 0xf1, 0x79, 0x5f, 0xba, 0x64, 0xd5, 0x81,
        0xcf, 0x64, 0xba, 0xd0, 0xc8, 0x94, 0xb0, 0x1a, 0x06, 0x8f, 0xb9, 0xed, 0xf8, 0x53, 0x21,
        0xdc, 0xd9, 0xbb, // expire block height
        0x01, 0x02, 0x03, 0x04, 0x05, 0x06, 0x07, 0x08,
    ];
    let data_url = "https://the-new-interwebs.com/data".as_bytes();
    bytes.push(data_url.len() as u8);
    bytes.extend_from_slice(data_url);
    bytes
}

#[test]
fn codec_HandshakeData() {
    let data = fixture_handshake_data();
    let bytes = fixture_handshake_bytes();
    check_codec_and_corruption::<HandshakeData>(&data, &bytes);
}

#[test]
fn codec_HandshakeAcceptData() {
    let data = HandshakeAcceptData {
        handshake: fixture_handshake_data(),
        heartbeat_interval: 0x01020304,
    };
    let mut bytes = fixture_handshake_bytes();
    bytes.extend_from_slice(&[
        // heartbeat
        0x01, 0x02, 0x03, 0x04,
    ]);

    check_codec_and_corruption::<HandshakeAcceptData>(&data, &bytes);
}

#[test]
fn codec_NackData() {
    let data = NackData {
        error_code: 0x01020304,
    };
    let bytes = vec![
        // error code
        0x01, 0x02, 0x03, 0x04,
    ];

    check_codec_and_corruption::<NackData>(&data, &bytes);
}

#[test]
fn codec_RelayData() {
    let data = RelayData {
        peer: NeighborAddress {
            addrbytes: PeerAddress(vec![
                0x00, 0x01, 0x02, 0x03, 0x04, 0x05, 0x06, 0x07, 0x08, 0x09, 0x0a, 0x0b, 0x0c,
                0x0d, 0x0e, 0x0f,
            ]),
            port: 12345,
            public_key_hash: Hash160(hex_bytes("1111111111111111111111111111111111111111")),
        },
        seq: 0x01020304,
    };
    let mut bytes = vec![
        // peer.addrbytes
        0x00, 0x01, 0x02, 0x03, 0x04, 0x05, 0x06, 0x07, 0x08, 0x09, 0x0a, 0x0b, 0x0c, 0x0d, 0x0e,
        0x0f, // peer.port
        0x30, 0x39,
    ];
    bytes.extend_from_slice(&[0x11; 20]); // peer.public_key_hash
    bytes.extend_from_slice(&[0x01, 0x02, 0x03, 0x04]); // seq

    check_codec_and_corruption::<RelayData>(&data, &bytes);
}

#[test]
fn codec_BlocksAvailable() {
    let data = BlocksAvailableData {
        available: vec![
            (ConsensusHash(vec![0x11; 20]), BurnchainHeaderHash(vec![0x22; 32])),
            (ConsensusHash(vec![0x33; 20]), BurnchainHeaderHash(vec![0x44; 32])),
        ],
    };
    let mut bytes: Vec<u8> = vec![
        // length
        0x00, 0x00, 0x00, 0x02,
    ];
    bytes.extend_from_slice(&[0x11; 20]);
    bytes.extend_from_slice(&[0x22; 32]);
    bytes.extend_from_slice(&[0x33; 20]);
    bytes.extend_from_slice(&[0x44; 32]);

    check_codec_and_corruption::<BlocksAvailableData>(&data, &bytes);
}

#[test]
fn codec_NatPunch() {
    let data = NatPunchData {
        addrbytes: PeerAddress(vec![0x1; 16]),
        port: 0x1234,
        nonce: 0x56789abc,
    };
    let bytes = vec![
        // peer address
        0x01, 0x01, 0x01, 0x01, 0x01, 0x01, 0x01, 0x01, 0x01, 0x01, 0x01, 0x01, 0x01, 0x01, 0x01,
        0x01, // port
        0x12, 0x34, // nonce
        0x56, 0x78, 0x9a, 0xbc,
    ];

    check_codec_and_corruption::<NatPunchData>(&data, &bytes);
}

#[test]
fn codec_StacksMessage() {
    let payloads: Vec<StacksMessageType> = vec![
        StacksMessageType::Handshake(HandshakeData {
            addrbytes: PeerAddress(vec![
                0x00, 0x01, 0x02, 0x03, 0x04, 0x05, 0x06, 0x07, 0x08, 0x09, 0x0a, 0x0b, 0x0c,
                0x0d, 0x0e, 0x0f,
            ]),
            port: 12345,
            services: 0x0001,
            node_public_key: StacksPublicKeyBuffer(hex_bytes(
                "034e316be04870cef1795fba64d581cf64bad0c894b01a068fb9edf85321dcd9bb",
            )),
            expire_block_height: 0x0102030405060708,
            data_url: UrlString("https://the-new-interwebs.com:4008/the-data".as_bytes().to_vec()),
        }),
        StacksMessageType::HandshakeAccept(HandshakeAcceptData {
            heartbeat_interval: 0x01020304,
            handshake: HandshakeData {
                addrbytes: PeerAddress(vec![
                    0x00, 0x01, 0x02, 0x03, 0x04, 0x05, 0x06, 0x07, 0x08, 0x09, 0x0a, 0x0b, 0x0c,
                    0x0d, 0x0e, 0x0f,
                ]),
                port: 12345,
                services: 0x0001,
                node_public_key: StacksPublicKeyBuffer(hex_bytes(
                    "034e316be04870cef1795fba64d581cf64bad0c894b01a068fb9edf85321dcd9bb",
                )),
                expire_block_height: 0x0102030405060708,
                data_url: UrlString(
                    "https://the-new-interwebs.com:4008/the-data".as_bytes().to_vec(),
                ),
            },
        }),
        StacksMessageType::HandshakeReject,
        StacksMessageType::GetNeighbors,
        StacksMessageType::Neighbors(NeighborsData {
            neighbors: vec![
                NeighborAddress {
                    addrbytes: PeerAddress(vec![
                        0x00, 0x01, 0x02, 0x03, 0x04, 0x05, 0x06, 0x07, 0x08, 0x09, 0x0a, 0x0b,
                        0x0c, 0x0d, 0x0e, 0x0f,
                    ]),
                    port: 12345,
                    public_key_hash: Hash160(hex_bytes(
                        "1111111111111111111111111111111111111111",
                    )),
                },
                NeighborAddress {
                    addrbytes: PeerAddress(vec![
                        0x10, 0x11, 0x12, 0x13, 0x14, 0x15, 0x16, 0x17, 0x18, 0x19, 0x1a, 0x1b,
                        0x1c, 0x1d, 0x1e, 0x1f,
                    ]),
                    port: 23456,
                    public_key_hash: Hash160(hex_bytes(
                        "2222222222222222222222222222222222222222",
                    )),
                },
            ],
        }),
        StacksMessageType::GetPoxInv(GetPoxInv {
            consensus_hash: ConsensusHash(vec![0x55; 20]),
            num_cycles: GETPOXINV_MAX_BITLEN as u16,
        }),
        StacksMessageType::PoxInv(PoxInvData {
            bitlen: 2,
            pox_bitvec: vec![0x03],
        }),
        StacksMessageType::GetBlocksInv(GetBlocksInv {
            consensus_hash: ConsensusHash(vec![0x55; 20]),
            num_blocks: 32,
        }),
        StacksMessageType::BlocksInv(BlocksInvData {
            bitlen: 2,
            block_bitvec: vec![0x03],
            microblocks_bitvec: vec![0x03],
        }),
        StacksMessageType::BlocksAvailable(BlocksAvailableData {
            available: vec![
                (ConsensusHash(vec![0x11; 20]), BurnchainHeaderHash(vec![0x22; 32])),
                (ConsensusHash(vec![0x33; 20]), BurnchainHeaderHash(vec![0x44; 32])),
            ],
        }),
        StacksMessageType::MicroblocksAvailable(BlocksAvailableData {
            available: vec![
                (ConsensusHash(vec![0x11; 20]), BurnchainHeaderHash(vec![0x22; 32])),
                (ConsensusHash(vec![0x33; 20]), BurnchainHeaderHash(vec![0x44; 32])),
            ],
        }),
        StacksMessageType::Nack(NackData {
            error_code: 0x01020304,
        }),
        StacksMessageType::Ping(PingData { nonce: 0x01020304 }),
        StacksMessageType::Pong(PongData { nonce: 0x01020304 }),
        StacksMessageType::NatPunchRequest(0x12345678),
        StacksMessageType::NatPunchReply(NatPunchData {
            addrbytes: PeerAddress(vec![
                0x00, 0x01, 0x02, 0x03, 0x04, 0x05, 0x06, 0x07, 0x08, 0x09, 0x0a, 0x0b, 0x0c,
                0x0d, 0x0e, 0x0f,
            ]),
            port: 12345,
            nonce: 0x12345678,
        }),
    ];

    let mut maximal_relayers: Vec<RelayData> = vec![];
    let mut too_many_relayers: Vec<RelayData> = vec![];
    for i in 0..MAX_RELAYERS_LEN {
        let next_relayer = RelayData {
            peer: NeighborAddress {
                addrbytes: PeerAddress(vec![
                    i as u8, 0x01, 0x02, 0x03, 0x04, 0x05, 0x06, 0x07, 0x08, 0x09, 0x0a, 0x0b,
                    0x0c, 0x0d, 0x0e, 0x0f,
                ]),
                port: 12345 + (i as u16),
                public_key_hash: Hash160(hex_bytes("1111111111111111111111111111111111111111")),
            },
            seq: 0x01020304 + i,
        };
        too_many_relayers.push(next_relayer.clone());
        maximal_relayers.push(next_relayer);
    }
    too_many_relayers.push(RelayData {
        peer: NeighborAddress {
            addrbytes: PeerAddress(vec![
                0xff, 0x01, 0x02, 0x03, 0x04, 0x05, 0x06, 0x07, 0x08, 0x09, 0x0a, 0x0b, 0x0c,
                0x0d, 0x0e, 0x0f,
            ]),
            port: 65535,
            public_key_hash: Hash160(hex_bytes("1111111111111111111111111111111111111111")),
        },
        seq: 0x010203ff,
    });

    let mut relayers_bytes: Vec<u8> = vec![];
    maximal_relayers.consensus_serialize(&mut relayers_bytes);

    let mut too_many_relayer_bytes: Vec<u8> = vec![];
    too_many_relayers.consensus_serialize(&mut too_many_relayer_bytes);

    for payload in &payloads {
        // just testing the codec; only payload_len must be valid
        let mut payload_bytes: Vec<u8> = vec![];
        payload.consensus_serialize(&mut payload_bytes);

        let preamble = Preamble {
            peer_version: 0x01020304,
            network_id: 0x05060708,
            seq: 0x090a0b0c,
            burn_block_height: 0x00001122,
            burn_block_hash: BurnchainHeaderHash(vec![0x11; 32]),
            burn_stable_block_height: 0x00001111,
            burn_stable_block_hash: BurnchainHeaderHash(vec![0x22; 32]),
            additional_data: 0x33333333,
            signature: MessageSignature(vec![0x44; 65]),
            payload_len: (relayers_bytes.len() + payload_bytes.len()) as u32,
        };

        let stacks_message = StacksMessage {
            preamble: preamble.clone(),
            relayers: maximal_relayers.clone(),
            payload: payload.clone(),
        };

        let mut stacks_message_bytes: Vec<u8> = vec![];
        preamble.consensus_serialize(&mut stacks_message_bytes);
        stacks_message_bytes.extend_from_slice(&relayers_bytes);
        stacks_message_bytes.extend_from_slice(&payload_bytes);

        println!(
            "Test {}-byte relayer, {}-byte payload {:?}",
            relayers_bytes.len(),
            payload_bytes.len(),
            &payload
        );
        check_codec_and_corruption::<StacksMessage>(&stacks_message, &stacks_message_bytes);

        // can't have too many relayers
        let mut preamble_too_many_relayers = preamble.clone();
        preamble_too_many_relayers.payload_len =
            (too_many_relayer_bytes.len() + payload_bytes.len() + 1) as u32;

        let stacks_message_too_many_relayers = StacksMessage {
            preamble: preamble_too_many_relayers.clone(),
            relayers: too_many_relayers.clone(),
            payload: payload.clone(),
        };
        assert!(check_deserialize_failure(&stacks_message_too_many_relayers));
    }
}

#[test]
fn codec_sign_and_verify() {
    let privkey = Secp256k1PrivateKey::new().unwrap();
    let pubkey_buf =
        StacksPublicKeyBuffer::from_public_key(&Secp256k1PublicKey::from_private(&privkey));

    let mut ping = StacksMessage::new(
        PEER_VERSION_TESTNET,
        0x9abcdef0,
        12345,
        &BurnchainHeaderHash(vec![0x11; 32]),
        12339,
        &BurnchainHeaderHash(vec![0x22; 32]),
        StacksMessageType::Ping(PingData { nonce: 0x01020304 }),
    );

    ping.sign(444, &privkey).unwrap();
    ping.verify_secp256k1(&pubkey_buf).unwrap();
}

#[test]
fn codec_stacks_public_key_roundtrip() {
    for _i in 0..100 {
        let privkey = Secp256k1PrivateKey::new().unwrap();
        let pubkey = Secp256k1PublicKey::from_private(&privkey);

        let pubkey_buf = StacksPublicKeyBuffer::from_public_key(&pubkey);
        let pubkey_2 = pubkey_buf.to_public_key().unwrap();

        assert_eq!(pubkey, pubkey_2);
    }
}

#[test]
fn blocks_inv_compress_bools() {
    let block_flags = vec![
        true, true, true, false, false, false, false, true, true, false, true,
    ];
    let block_bitvec = BlocksInvData::compress_bools(&block_flags);
    assert_eq!(block_bitvec, vec![0x87, 0x05]);

    let short_block_flags = vec![true, false, true];
    let short_block_bitvec = BlocksInvData::compress_bools(&short_block_flags);
    assert_eq!(short_block_bitvec, vec![0x05]);
}
