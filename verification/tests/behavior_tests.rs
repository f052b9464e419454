//! Behavior tests: signing and verification under mutation, relaying rules,
//! preamble invariants, duplicate rejection, bit-vector queries, attachment
//! request grouping, handshake construction, and the protocol-family hooks.
use stacks_codec::atlas::{AttachmentInstance, AttachmentsInvRequest};
use stacks_codec::codec::{CodecError, NetError, StacksMessageCodec};
use stacks_codec::crypto::{Secp256k1PrivateKey, Secp256k1PublicKey};
use stacks_codec::message::{BurnchainView, StacksMessage, StacksP2P};
use stacks_codec::message_id::StacksMessageID;
use stacks_codec::message_type::StacksMessageType;
use stacks_codec::neighbor::NeighborAddress;
use stacks_codec::payload::{
    BlocksData, BlocksInvData, HandshakeData, MicroblocksData, NackData, PingData, PongData,
    PoxInvData, StacksBlock, StacksMicroblock, StacksTransaction,
};
use stacks_codec::peer::LocalPeer;
use stacks_codec::preamble::Preamble;
use stacks_codec::types::{
    BlockHeaderHash, BurnchainHeaderHash, ConsensusHash, Hash160, PeerAddress, StacksBlockId,
    StacksPublicKeyBuffer, UrlString,
};
use stacks_codec::{MAX_RELAYERS_LEN, PEER_VERSION_TESTNET, PREAMBLE_ENCODED_SIZE};

fn fresh_key() -> Secp256k1PrivateKey {
    Secp256k1PrivateKey::new().unwrap()
}

fn ping_message() -> StacksMessage {
    StacksMessage::new(
        PEER_VERSION_TESTNET,
        0x9abcdef0,
        12345,
        &BurnchainHeaderHash(vec![0x11; 32]),
        12339,
        &BurnchainHeaderHash(vec![0x22; 32]),
        StacksMessageType::Ping(PingData { nonce: 0x01020304 }),
    )
}

fn relayer(tag: u8) -> NeighborAddress {
    NeighborAddress {
        addrbytes: PeerAddress(vec![tag; 16]),
        port: 1000 + tag as u16,
        public_key_hash: Hash160(vec![tag; 20]),
    }
}

#[test]
fn sign_verify_detects_mutation() {
    let privkey = fresh_key();
    let pubkey_buf =
        StacksPublicKeyBuffer::from_public_key(&Secp256k1PublicKey::from_private(&privkey));

    let mut ping = ping_message();
    ping.sign(444, &privkey).unwrap();
    assert!(ping.verify_secp256k1(&pubkey_buf).is_ok());

    // flipping any byte of the signed envelope (outside the signature field)
    // must break verification
    let mut bytes: Vec<u8> = Vec::new();
    ping.consensus_serialize(&mut bytes);
    let sig_start = 96;
    let sig_end = 161;
    for i in 0..bytes.len() {
        if i >= sig_start && i < sig_end {
            continue;
        }
        let mut corrupt = bytes.clone();
        corrupt[i] ^= 0x80;
        match StacksMessage::consensus_deserialize(&corrupt, 0, corrupt.len()) {
            Ok((msg, _)) => {
                assert!(
                    msg.verify_secp256k1(&pubkey_buf).is_err(),
                    "byte {} flip went unnoticed",
                    i
                );
            }
            Err(_) => {}
        }
    }

    // a different key must not verify the message
    let other = fresh_key();
    let other_buf =
        StacksPublicKeyBuffer::from_public_key(&Secp256k1PublicKey::from_private(&other));
    assert_eq!(ping.verify_secp256k1(&other_buf), Err(NetError::VerifyingError));

    // a buffer that is no curve point is rejected as malformed
    let junk = StacksPublicKeyBuffer(vec![0x02; 33]);
    match junk.to_public_key() {
        Ok(_) => {}
        Err(_) => {
            assert_eq!(ping.verify_secp256k1(&junk), Err(NetError::Deserialize));
        }
    }
}

#[test]
fn sign_rejects_populated_relayers() {
    let privkey = fresh_key();
    let mut msg = ping_message();
    msg.relayers.push(stacks_codec::neighbor::RelayData {
        peer: relayer(7),
        seq: 11,
    });
    assert_eq!(msg.sign(444, &privkey), Err(NetError::InvalidMessage));
}

#[test]
fn sign_relay_cap_and_anti_loop() {
    let privkey = fresh_key();
    let pubkey_buf =
        StacksPublicKeyBuffer::from_public_key(&Secp256k1PublicKey::from_private(&privkey));

    // an originated message can be relayed up to the cap
    let mut msg = ping_message();
    msg.sign(1, &privkey).unwrap();
    for i in 0..MAX_RELAYERS_LEN {
        msg.sign_relay(&privkey, 100 + i, &relayer(i as u8)).unwrap();
        assert!(msg.verify_secp256k1(&pubkey_buf).is_ok());
    }
    assert_eq!(msg.relayers.len(), MAX_RELAYERS_LEN as usize);

    // the cap turns the next relayer away
    assert_eq!(
        msg.sign_relay(&privkey, 999, &relayer(0xee)),
        Err(NetError::InvalidMessage)
    );

    // a relayer whose key fingerprint is already on the chain is turned away
    let mut msg2 = ping_message();
    msg2.sign(1, &privkey).unwrap();
    msg2.sign_relay(&privkey, 2, &relayer(5)).unwrap();
    assert_eq!(
        msg2.sign_relay(&privkey, 3, &relayer(5)),
        Err(NetError::InvalidMessage)
    );

    // relaying stores the prior sequence number and the new one
    let mut msg3 = ping_message();
    msg3.sign(41, &privkey).unwrap();
    msg3.sign_relay(&privkey, 42, &relayer(9)).unwrap();
    assert_eq!(msg3.relayers.len(), 1);
    assert_eq!(msg3.relayers[0].seq, 41);
    assert_eq!(msg3.preamble.seq, 42);
}

#[test]
fn preamble_decode_invariants() {
    let template = Preamble {
        peer_version: 1,
        network_id: 2,
        seq: 3,
        burn_block_height: 100,
        burn_block_hash: BurnchainHeaderHash(vec![0x11; 32]),
        burn_stable_block_height: 90,
        burn_stable_block_hash: BurnchainHeaderHash(vec![0x22; 32]),
        additional_data: 0,
        signature: stacks_codec::types::MessageSignature(vec![0; 65]),
        payload_len: 5,
    };

    // the template itself round-trips
    let mut good: Vec<u8> = Vec::new();
    template.consensus_serialize(&mut good);
    assert_eq!(good.len(), PREAMBLE_ENCODED_SIZE as usize);
    assert!(Preamble::consensus_deserialize(&good, 0, good.len()).is_ok());

    // payload_len below five is rejected
    let mut too_small = template.clone();
    too_small.payload_len = 4;
    let mut bytes: Vec<u8> = Vec::new();
    too_small.consensus_serialize(&mut bytes);
    assert_eq!(
        Preamble::consensus_deserialize(&bytes, 0, bytes.len()),
        Err(CodecError::Deserialize)
    );

    // payload_len at the message cap is rejected
    let mut too_big = template.clone();
    too_big.payload_len = stacks_codec::MAX_MESSAGE_LEN;
    let mut bytes: Vec<u8> = Vec::new();
    too_big.consensus_serialize(&mut bytes);
    assert_eq!(
        Preamble::consensus_deserialize(&bytes, 0, bytes.len()),
        Err(CodecError::Deserialize)
    );

    // the burn block must sit strictly above the stable one
    let mut inverted = template.clone();
    inverted.burn_stable_block_height = 100;
    let mut bytes: Vec<u8> = Vec::new();
    inverted.consensus_serialize(&mut bytes);
    assert_eq!(
        Preamble::consensus_deserialize(&bytes, 0, bytes.len()),
        Err(CodecError::Deserialize)
    );
}

#[test]
fn blocks_duplicate_consensus_hash_rejected() {
    let block = |b: u8| StacksBlock(vec![b; 10]);
    let dup = BlocksData {
        blocks: vec![
            (ConsensusHash(vec![0x11; 20]), block(1)),
            (ConsensusHash(vec![0x22; 20]), block(2)),
            (ConsensusHash(vec![0x11; 20]), block(3)),
        ],
    };
    let mut bytes: Vec<u8> = Vec::new();
    dup.consensus_serialize(&mut bytes);
    assert_eq!(
        BlocksData::consensus_deserialize(&bytes, 0, bytes.len()),
        Err(CodecError::Deserialize)
    );

    let ok = BlocksData {
        blocks: vec![
            (ConsensusHash(vec![0x11; 20]), block(1)),
            (ConsensusHash(vec![0x22; 20]), block(2)),
        ],
    };
    let mut bytes: Vec<u8> = Vec::new();
    ok.consensus_serialize(&mut bytes);
    let (decoded, n) = BlocksData::consensus_deserialize(&bytes, 0, bytes.len()).unwrap();
    assert_eq!(decoded, ok);
    assert_eq!(n, bytes.len());
}

#[test]
fn embedded_objects_round_trip() {
    // the opaque embedded objects ride length-prefixed inside their payloads
    let microblocks = MicroblocksData {
        index_anchor_block: StacksBlockId(vec![0x77; 32]),
        microblocks: vec![StacksMicroblock(vec![1, 2, 3]), StacksMicroblock(vec![])],
    };
    let mut bytes: Vec<u8> = Vec::new();
    microblocks.consensus_serialize(&mut bytes);
    let (decoded, n) = MicroblocksData::consensus_deserialize(&bytes, 0, bytes.len()).unwrap();
    assert_eq!(decoded, microblocks);
    assert_eq!(n, bytes.len());

    let tx = StacksTransaction(vec![0xde, 0xad, 0xbe, 0xef]);
    let payload = StacksMessageType::Transaction(tx);
    let mut bytes: Vec<u8> = Vec::new();
    payload.consensus_serialize(&mut bytes);
    let (decoded, _) = StacksMessageType::consensus_deserialize(&bytes, 0, bytes.len()).unwrap();
    assert_eq!(decoded, payload);
}

#[test]
fn bitvec_queries_match_bits() {
    let bits = vec![
        true, true, true, false, false, false, false, true, true, false, true,
    ];
    let bv = BlocksInvData::compress_bools(&bits);
    let inv = BlocksInvData {
        bitlen: bits.len() as u16,
        block_bitvec: bv.clone(),
        microblocks_bitvec: bv.clone(),
    };
    for (i, bit) in bits.iter().enumerate() {
        assert_eq!(inv.has_ith_block(i as u16), *bit);
        assert_eq!(inv.has_ith_microblock_stream(i as u16), *bit);
    }
    // past the declared bit length every query reads false
    assert!(!inv.has_ith_block(bits.len() as u16));
    assert!(!inv.has_ith_block(u16::MAX));

    let pox = PoxInvData {
        bitlen: bits.len() as u16,
        pox_bitvec: bv.clone(),
    };
    for (i, bit) in bits.iter().enumerate() {
        assert_eq!(pox.has_ith_reward_cycle(i as u16), *bit);
    }
    assert!(!pox.has_ith_reward_cycle(bits.len() as u16));
}

fn attachment(page: u32, pos: u32, height: u64, anchor: u8) -> AttachmentInstance {
    AttachmentInstance {
        content_hash: Hash160(vec![pos as u8; 20]),
        page_index: page,
        position_in_page: pos,
        block_height: height,
        consensus_hash: ConsensusHash(vec![anchor; 20]),
        block_header_hash: BlockHeaderHash(vec![anchor; 32]),
    }
}

#[test]
fn attachments_inv_request_grouping() {
    let mut req = AttachmentsInvRequest::new();
    assert_eq!(req.block_height, 0);
    assert!(req.missing_attachments.is_empty());

    // the first attachment is always accepted and adopts the anchor
    assert!(req.add_request(&attachment(0, 1, 10, 0xaa)));
    assert_eq!(req.block_height, 10);
    assert_eq!(req.consensus_hash, ConsensusHash(vec![0xaa; 20]));

    // an attachment naming another anchor is turned away, unchanged
    assert!(!req.add_request(&attachment(0, 2, 50, 0xbb)));
    assert_eq!(req.block_height, 10);
    assert_eq!(req.missing_attachments.len(), 1);

    // a lower block on the same anchor is stored without adopting its height
    assert!(req.add_request(&attachment(1, 7, 5, 0xaa)));
    assert_eq!(req.block_height, 10);
    assert_eq!(req.missing_attachments.len(), 2);

    // a higher block on the same anchor raises the stored height
    assert!(req.add_request(&attachment(2, 9, 30, 0xaa)));
    assert_eq!(req.block_height, 30);

    // an entry at the same page coordinates is overwritten, not duplicated
    assert!(req.add_request(&attachment(1, 7, 30, 0xaa)));
    assert_eq!(req.missing_attachments.len(), 3);

    // the distinct pages
    let mut pages = req.get_pages_indexes();
    pages.sort();
    assert_eq!(pages, vec![0, 1, 2]);

    // the anchor's index block hash is a 32-byte digest bound to the pair
    let id1 = req.get_stacks_block_id();
    assert_eq!(id1.0.len(), 32);
    let mut other = AttachmentsInvRequest::new();
    assert!(other.add_request(&attachment(0, 1, 10, 0xcc)));
    let id2 = other.get_stacks_block_id();
    assert_ne!(id1, id2);
    assert_eq!(id1, req.get_stacks_block_id());
}

#[test]
fn attachments_same_block_check() {
    let mut req = AttachmentsInvRequest::new();
    assert!(req.add_request(&attachment(0, 0, 3, 0x11)));
    assert!(req.is_attachment_in_same_block(&attachment(9, 9, 9, 0x11)));
    assert!(!req.is_attachment_in_same_block(&attachment(9, 9, 9, 0x12)));
}

#[test]
fn handshake_from_local_peer() {
    let key = fresh_key();
    // an IPv4-mapped address: ::ffff:1.2.3.4
    let mut mapped = vec![0u8; 10];
    mapped.extend_from_slice(&[0xff, 0xff, 1, 2, 3, 4]);

    // a routable data URL is advertised as it stands
    let lp = LocalPeer {
        addrbytes: PeerAddress(mapped.clone()),
        port: 8080,
        public_ip_address: None,
        services: 3,
        private_key: key.clone(),
        private_key_expire: 12345,
        data_url: UrlString("http://example.com:8080/data".as_bytes().to_vec()),
    };
    let hs = HandshakeData::from_local_peer(&lp);
    assert_eq!(hs.data_url.0, "http://example.com:8080/data".as_bytes().to_vec());
    assert_eq!(hs.port, 8080);
    assert_eq!(hs.services, 3);
    assert_eq!(hs.expire_block_height, 12345);
    assert_eq!(hs.node_public_key.0.len(), 33);

    // an unroutable host with a port is replaced by the advertised address
    let lp2 = LocalPeer {
        addrbytes: PeerAddress(mapped.clone()),
        port: 8080,
        public_ip_address: None,
        services: 3,
        private_key: key.clone(),
        private_key_expire: 12345,
        data_url: UrlString("http://0.0.0.0:9999/data".as_bytes().to_vec()),
    };
    let hs2 = HandshakeData::from_local_peer(&lp2);
    assert_eq!(hs2.data_url.0, "http://1.2.3.4:9999".as_bytes().to_vec());

    // an unroutable host without a port yields the empty URL
    let lp3 = LocalPeer {
        addrbytes: PeerAddress(mapped.clone()),
        port: 8080,
        public_ip_address: None,
        services: 3,
        private_key: key.clone(),
        private_key_expire: 12345,
        data_url: UrlString("http://0.0.0.0/data".as_bytes().to_vec()),
    };
    let hs3 = HandshakeData::from_local_peer(&lp3);
    assert_eq!(hs3.data_url.0, Vec::<u8>::new());

    // a public address override wins over the bound address
    let lp4 = LocalPeer {
        addrbytes: PeerAddress(vec![0u8; 16]),
        port: 1,
        public_ip_address: Some((PeerAddress(mapped.clone()), 4444)),
        services: 3,
        private_key: key.clone(),
        private_key_expire: 12345,
        data_url: UrlString("http://0.0.0.0:7777".as_bytes().to_vec()),
    };
    let hs4 = HandshakeData::from_local_peer(&lp4);
    assert_eq!(hs4.port, 4444);
    assert_eq!(hs4.data_url.0, "http://1.2.3.4:7777".as_bytes().to_vec());
}

#[test]
fn protocol_family_hooks() {
    let p2p = StacksP2P::new();
    assert_eq!(p2p.preamble_size_hint(), PREAMBLE_ENCODED_SIZE as usize);

    let privkey = fresh_key();
    let pubkey = Secp256k1PublicKey::from_private(&privkey);
    let mut msg = ping_message();
    msg.sign(7, &privkey).unwrap();

    let mut bytes: Vec<u8> = Vec::new();
    p2p.write_message(&mut bytes, &msg).unwrap();

    let (preamble, off) = p2p.read_preamble(&bytes).unwrap();
    assert_eq!(off, PREAMBLE_ENCODED_SIZE as usize);
    assert_eq!(p2p.payload_len(&preamble), Some(preamble.payload_len as usize));

    let body: Vec<u8> = bytes[off..].to_vec();
    let (message, consumed) = p2p.read_payload(&preamble, &body).unwrap();
    assert_eq!(consumed, preamble.payload_len as usize);
    assert_eq!(message, msg);

    assert!(p2p.verify_payload_bytes(&pubkey, &preamble, &body).is_ok());

    // a short buffer underflows
    let short: Vec<u8> = bytes[0..10].to_vec();
    assert_eq!(p2p.read_preamble(&short), Err(NetError::Underflow));
    let short_body: Vec<u8> = body[0..body.len() - 1].to_vec();
    assert_eq!(
        p2p.read_payload(&preamble, &short_body),
        Err(NetError::Underflow)
    );
}

#[test]
fn message_ids_names_descriptions() {
    let ping = StacksMessageType::Ping(PingData { nonce: 0x01020304 });
    assert_eq!(ping.get_message_id(), StacksMessageID::Ping);
    assert_eq!(ping.get_message_name(), "Ping");
    assert_eq!(ping.get_message_description(), "Ping(16909060)");

    let nack = StacksMessageType::Nack(NackData::new(0));
    assert_eq!(nack.get_message_description(), "Nack(0)");

    assert_eq!(
        StacksMessageType::HandshakeReject.get_message_description(),
        "HandshakeReject"
    );

    let pox = StacksMessageType::PoxInv(PoxInvData {
        bitlen: 2,
        pox_bitvec: vec![0x03],
    });
    assert_eq!(pox.get_message_description(), "PoxInv(2,03)");

    let msg = ping_message();
    assert_eq!(msg.get_message_name(), "Ping");
    assert_eq!(msg.request_id(), 0);

    let key = msg.to_neighbor_key(&PeerAddress(vec![9; 16]), 777);
    assert_eq!(key.peer_version, PEER_VERSION_TESTNET);
    assert_eq!(key.port, 777);
}

#[test]
fn ping_pong_nonces() {
    let ping = PingData::new();
    let pong = PongData::from_ping(&ping);
    assert_eq!(ping.nonce, pong.nonce);

    // an unknown tag byte is rejected
    let bytes = vec![0xfeu8, 0, 0, 0, 0];
    assert_eq!(
        StacksMessageType::consensus_deserialize(&bytes, 0, bytes.len()),
        Err(CodecError::Deserialize)
    );
    // the reserved tag byte is rejected
    let bytes = vec![0xffu8, 0, 0, 0, 0];
    assert_eq!(
        StacksMessageType::consensus_deserialize(&bytes, 0, bytes.len()),
        Err(CodecError::Deserialize)
    );
}

#[test]
fn url_and_availability_limits() {
    // a URL longer than its one-byte length prefix is refused
    assert!(UrlString::from_bytes(vec![b'a'; 256]).is_err());
    assert!(UrlString::from_bytes(vec![b'a'; 255]).is_ok());

    // the availability report stops at its cap
    let mut avail = stacks_codec::payload::BlocksAvailableData::new();
    for i in 0..stacks_codec::BLOCKS_AVAILABLE_MAX_LEN {
        avail
            .try_push(
                ConsensusHash(vec![i as u8; 20]),
                BurnchainHeaderHash(vec![i as u8; 32]),
            )
            .unwrap();
    }
    assert_eq!(
        avail.try_push(ConsensusHash(vec![0xcc; 20]), BurnchainHeaderHash(vec![0xcc; 32])),
        Err(NetError::InvalidMessage)
    );
}

#[test]
fn from_chain_view_snapshot() {
    let view = BurnchainView {
        burn_block_height: 500,
        burn_block_hash: BurnchainHeaderHash(vec![5; 32]),
        burn_stable_block_height: 493,
        burn_stable_block_hash: BurnchainHeaderHash(vec![4; 32]),
    };
    let msg = StacksMessage::from_chain_view(
        PEER_VERSION_TESTNET,
        7,
        &view,
        StacksMessageType::GetNeighbors,
    );
    assert_eq!(msg.preamble.burn_block_height, 500);
    assert_eq!(msg.preamble.burn_stable_block_height, 493);
    assert_eq!(msg.preamble.seq, 0);
    assert!(msg.relayers.is_empty());
}
