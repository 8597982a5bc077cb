use bytes::Bytes;
use cid::Cid;
use iroh_bitswap::pb;
use iroh_bitswap::{
    BitswapMessage, Block, BlockPresence, BlockPresenceType, ContentId, Entry, Error, Prefix,
    Version, WantType,
};
use multihash_codetable::{Code, MultihashDigest};

const RAW: u64 = 0x55;

fn v1_id(data: &[u8]) -> ContentId {
    let cid = Cid::new_v1(RAW, Code::Sha2_256.digest(data));
    ContentId::from_bytes(&cid.to_bytes()).unwrap()
}

fn v0_id(data: &[u8]) -> ContentId {
    let cid = Cid::new_v0(Code::Sha2_256.digest(data)).unwrap();
    ContentId::from_bytes(&cid.to_bytes()).unwrap()
}

fn block_of(data: &'static [u8]) -> Block {
    Block::new(Bytes::from_static(data), v1_id(data))
}

fn entry_of<'a>(m: &'a BitswapMessage, id: &ContentId) -> &'a Entry {
    let all = m.wantlist();
    let found: Vec<&&Entry> = all.iter().filter(|e| &e.cid == id).collect();
    assert_eq!(found.len(), 1);
    *found[0]
}

#[test]
fn empty_message_then_one_entry() {
    let mut m = BitswapMessage::new(false);
    assert!(m.is_empty());
    assert!(!m.full());
    m.add_entry(v1_id(b"id1"), 1, WantType::Block, false);
    assert!(!m.is_empty());
    assert_eq!(m.wantlist().len(), 1);
}

#[test]
fn pending_bytes_alone_leave_the_message_empty() {
    let mut m = BitswapMessage::new(true);
    m.set_pending_bytes(77);
    assert_eq!(m.pending_bytes(), 77);
    assert!(m.is_empty());
    assert!(m.full());
}

#[test]
fn want_twice_is_want_once() {
    let id = v1_id(b"twice");
    let mut once = BitswapMessage::new(false);
    once.add_entry(id.clone(), 7, WantType::Have, false);
    let mut twice = BitswapMessage::new(false);
    twice.add_entry(id.clone(), 7, WantType::Have, false);
    twice.add_entry(id.clone(), 7, WantType::Have, false);
    assert_eq!(twice.wantlist().len(), 1);
    assert_eq!(entry_of(&twice, &id), entry_of(&once, &id));
    assert_eq!(twice, once);
}

#[test]
fn a_want_of_the_block_replaces_a_want_of_word() {
    let id = v1_id(b"upgrade");
    let mut m = BitswapMessage::new(false);
    m.add_entry(id.clone(), 5, WantType::Have, false);
    m.add_entry(id.clone(), 9, WantType::Block, true);
    {
        let e = entry_of(&m, &id);
        // the second want was of another type than the entry, so its priority is dropped
        assert_eq!(e.priority, 5);
        assert_eq!(e.want_type, WantType::Block);
        assert!(e.send_dont_have);
        assert!(!e.cancel);
    }
    m.add_entry(id.clone(), 1, WantType::Have, false);
    {
        let e = entry_of(&m, &id);
        assert_eq!(e.priority, 5);
        assert_eq!(e.want_type, WantType::Block);
        assert!(e.send_dont_have);
    }
    m.add_entry(id.clone(), 9, WantType::Block, false);
    assert_eq!(entry_of(&m, &id).priority, 9);
}

#[test]
fn a_want_of_the_same_type_sets_the_priority() {
    let id = v1_id(b"same type");
    let mut m = BitswapMessage::new(false);
    m.add_entry(id.clone(), 5, WantType::Have, true);
    m.add_entry(id.clone(), 2, WantType::Have, false);
    let e = entry_of(&m, &id);
    assert_eq!(e.priority, 2);
    assert_eq!(e.want_type, WantType::Have);
    assert!(e.send_dont_have);
}

#[test]
fn cancel_is_never_taken_back() {
    let id = v1_id(b"cancel");
    let mut m = BitswapMessage::new(false);
    m.cancel(id.clone());
    {
        let e = entry_of(&m, &id);
        assert!(e.cancel);
        assert_eq!(e.priority, 0);
        assert_eq!(e.want_type, WantType::Block);
        assert!(!e.send_dont_have);
    }
    m.add_entry(id.clone(), 3, WantType::Block, false);
    let e = entry_of(&m, &id);
    assert!(e.cancel);
    assert_eq!(e.priority, 3);
}

#[test]
fn remove_takes_the_entry_out() {
    let id = v1_id(b"remove");
    let other = v1_id(b"stays");
    let mut m = BitswapMessage::new(false);
    m.add_entry(id.clone(), 1, WantType::Block, false);
    m.add_entry(other.clone(), 2, WantType::Have, false);
    m.remove(&id);
    assert_eq!(m.wantlist().len(), 1);
    assert_eq!(entry_of(&m, &other).priority, 2);
    m.remove(&id);
    assert_eq!(m.wantlist().len(), 1);
}

#[test]
fn add_full_entry_gives_the_bytes_it_added() {
    let id = v0_id(b"cid");
    let mut m = BitswapMessage::new(false);
    let first = m.add_full_entry(id.clone(), i32::MAX, true, WantType::Have, true);
    assert_eq!(first, 48);
    let second = m.add_full_entry(id.clone(), 1, false, WantType::Have, false);
    assert_eq!(second, 0);
}

#[test]
fn a_block_takes_the_place_of_a_presence() {
    let block = block_of(b"data");
    let id = block.cid.clone();
    let mut m = BitswapMessage::new(false);
    m.add_have(id.clone());
    assert_eq!(m.haves(), vec![&id]);
    m.add_block(block.clone());
    assert!(m.haves().is_empty());
    assert!(m.block_presences().is_empty());
    assert_eq!(m.blocks(), vec![&block]);
    m.add_have(id.clone());
    m.add_dont_have(id.clone());
    assert!(m.block_presences().is_empty());
    assert!(m.haves().is_empty());
    assert!(m.dont_haves().is_empty());
}

#[test]
fn haves_and_dont_haves_are_told_apart() {
    let a = v1_id(b"a");
    let b = v1_id(b"b");
    let mut m = BitswapMessage::new(false);
    m.add_have(a.clone());
    m.add_dont_have(b.clone());
    assert_eq!(m.haves(), vec![&a]);
    assert_eq!(m.dont_haves(), vec![&b]);
    let mut all = m.block_presences();
    all.sort_by_key(|p| p.typ == BlockPresenceType::DontHave);
    assert_eq!(
        all,
        vec![
            BlockPresence { cid: a.clone(), typ: BlockPresenceType::Have },
            BlockPresence { cid: b.clone(), typ: BlockPresenceType::DontHave },
        ]
    );
    // a later presence for the same identifier takes the place of the earlier one
    m.add_dont_have(a.clone());
    assert!(m.haves().is_empty());
    assert_eq!(m.dont_haves().len(), 2);
}

#[test]
fn clear_empties_and_restamps() {
    let mut m = BitswapMessage::new(false);
    m.add_entry(v1_id(b"x"), 1, WantType::Block, false);
    m.add_block(block_of(b"y"));
    m.add_have(v1_id(b"z"));
    m.set_pending_bytes(9);
    m.clear(true);
    assert!(m.is_empty());
    assert!(m.full());
    assert_eq!(m.pending_bytes(), 0);
    assert_eq!(m, BitswapMessage::new(true));
}

fn sample() -> BitswapMessage {
    let mut m = BitswapMessage::new(true);
    m.add_entry(v1_id(b"one"), 1, WantType::Block, false);
    m.add_entry(v0_id(b"two"), -7, WantType::Have, true);
    m.cancel(v1_id(b"three"));
    m.add_block(block_of(b"first block"));
    m.add_block(block_of(b"second block"));
    m.add_block(Block::from_v0_data(Bytes::from_static(b"legacy block")).unwrap());
    m.add_have(v1_id(b"have"));
    m.add_dont_have(v0_id(b"dont have"));
    m.set_pending_bytes(-3);
    m
}

#[test]
fn v1_bytes_read_back_as_the_message() {
    let m = sample();
    let bytes = m.encode_v1();
    let back = BitswapMessage::decode(&bytes).unwrap();
    assert_eq!(back, m);
    assert_eq!(back.pending_bytes(), -3);
    assert!(back.full());
    assert_eq!(back.wantlist().len(), 3);
    assert_eq!(back.blocks().len(), 3);
    assert_eq!(back.haves().len(), 1);
    assert_eq!(back.dont_haves().len(), 1);
}

#[test]
fn v1_wire_message_reads_back_as_the_message() {
    let m = sample();
    let back = BitswapMessage::try_from(m.encode_as_proto_v1()).unwrap();
    assert_eq!(back, m);
}

#[test]
fn v0_bytes_keep_wantlist_and_block_data_only() {
    let m = sample();
    let bytes = m.encode_v0();
    let back = BitswapMessage::decode(&bytes).unwrap();
    assert!(back.full());
    assert_eq!(back.pending_bytes(), 0);
    assert!(back.block_presences().is_empty());
    let mut want_before: Vec<Entry> = m.wantlist().into_iter().cloned().collect();
    let mut want_after: Vec<Entry> = back.wantlist().into_iter().cloned().collect();
    want_before.sort_by_key(|e| e.priority);
    want_after.sort_by_key(|e| e.priority);
    assert_eq!(want_after, want_before);
    let mut data_before: Vec<Vec<u8>> = m.blocks().iter().map(|b| b.data.to_vec()).collect();
    let mut data_after: Vec<Vec<u8>> = back.blocks().iter().map(|b| b.data.to_vec()).collect();
    data_before.sort();
    data_after.sort();
    assert_eq!(data_after, data_before);
    for block in back.blocks() {
        assert_eq!(block.cid.version(), Version::V0);
        assert_eq!(block.cid.digest(), Code::Sha2_256.digest(&block.data).digest());
    }
}

#[test]
fn a_block_under_a_foreign_identifier_comes_back_under_its_own() {
    let mut m = BitswapMessage::new(false);
    m.add_block(Block::new(Bytes::from_static(b"the data"), v1_id(b"something else")));
    let back = BitswapMessage::decode(&m.encode_v1()).unwrap();
    assert_eq!(back.blocks(), vec![&block_of(b"the data")]);
}

#[test]
fn an_entry_with_a_bad_identifier_rejects_the_whole_message() {
    let good = pb::Entry {
        block: v1_id(b"good").to_bytes(),
        priority: 1,
        cancel: false,
        want_type: 0,
        send_dont_have: false,
    };
    let bad = pb::Entry {
        block: vec![0xff, 0xff, 0xff],
        priority: 1,
        cancel: false,
        want_type: 0,
        send_dont_have: false,
    };
    let mut message = pb::Message::default();
    message.wantlist = Some(pb::Wantlist { entries: vec![good, bad], full: false });
    assert_eq!(BitswapMessage::try_from(message).err(), Some(Error::InvalidIdentifier));

    let mut message = pb::Message::default();
    let empty_id = pb::Entry {
        block: vec![],
        priority: 0,
        cancel: false,
        want_type: 0,
        send_dont_have: false,
    };
    message.wantlist = Some(pb::Wantlist { entries: vec![empty_id], full: false });
    let bytes = message.encode();
    assert_eq!(BitswapMessage::decode(&bytes).err(), Some(Error::InvalidIdentifier));
}

#[test]
fn the_identifier_is_looked_at_before_the_want_type() {
    let mut message = pb::Message::default();
    let entry = pb::Entry {
        block: vec![0xff],
        priority: 0,
        cancel: false,
        want_type: 9,
        send_dont_have: false,
    };
    message.wantlist = Some(pb::Wantlist { entries: vec![entry], full: false });
    assert_eq!(BitswapMessage::try_from(message).err(), Some(Error::InvalidIdentifier));
}

#[test]
fn a_want_type_out_of_range_is_rejected() {
    let mut message = pb::Message::default();
    let entry = pb::Entry {
        block: v1_id(b"x").to_bytes(),
        priority: 0,
        cancel: false,
        want_type: 2,
        send_dont_have: false,
    };
    message.wantlist = Some(pb::Wantlist { entries: vec![entry], full: false });
    assert_eq!(BitswapMessage::try_from(message).err(), Some(Error::InvalidEnumValue));
}

#[test]
fn a_presence_kind_out_of_range_is_rejected() {
    let mut message = pb::Message::default();
    message.block_presences.push(pb::BlockPresence { cid: v1_id(b"x").to_bytes(), kind: -1 });
    assert_eq!(BitswapMessage::try_from(message).err(), Some(Error::InvalidEnumValue));
    let mut message = pb::Message::default();
    message.block_presences.push(pb::BlockPresence { cid: vec![1, 2], kind: 0 });
    assert_eq!(BitswapMessage::try_from(message).err(), Some(Error::InvalidIdentifier));
}

#[test]
fn a_payload_block_is_identified_by_the_digest_of_its_data() {
    let prefix = Prefix { version: Version::V1, codec: RAW, mh_type: 0x12, mh_len: 32 };
    assert_eq!(prefix.to_bytes(), vec![0x01, 0x55, 0x12, 0x20]);
    let mut message = pb::Message::default();
    message.payload.push(pb::Block {
        prefix: prefix.to_bytes(),
        data: Bytes::from_static(b"hello"),
    });
    let m = BitswapMessage::try_from(message).unwrap();
    let blocks = m.blocks();
    assert_eq!(blocks.len(), 1);
    let sha256_hello: [u8; 32] = [
        0x2c, 0xf2, 0x4d, 0xba, 0x5f, 0xb0, 0xa3, 0x0e, 0x26, 0xe8, 0x3b, 0x2a, 0xc5, 0xb9, 0xe2,
        0x9e, 0x1b, 0x16, 0x1e, 0x5c, 0x1f, 0xa7, 0x42, 0x5e, 0x73, 0x04, 0x33, 0x62, 0x93, 0x8b,
        0x98, 0x24,
    ];
    assert_eq!(blocks[0].cid.digest(), &sha256_hello[..]);
    assert_eq!(blocks[0].cid.version(), Version::V1);
    assert_eq!(blocks[0].cid.codec(), RAW);
    assert_eq!(blocks[0].cid.hash_code(), 0x12);
    assert_eq!(&blocks[0].data[..], b"hello");
}

#[test]
fn a_prefix_that_cannot_be_read_is_rejected() {
    let mut message = pb::Message::default();
    message.payload.push(pb::Block { prefix: vec![0x01, 0x55], data: Bytes::from_static(b"x") });
    assert_eq!(BitswapMessage::try_from(message).err(), Some(Error::InvalidPrefix));
    let mut message = pb::Message::default();
    message.payload.push(pb::Block {
        prefix: vec![0x02, 0x55, 0x12, 0x20],
        data: Bytes::from_static(b"x"),
    });
    assert_eq!(BitswapMessage::try_from(message).err(), Some(Error::InvalidPrefix));
}

#[test]
fn a_prefix_that_gives_no_identifier_is_rejected() {
    // a hash function that the table does not hold
    let mut message = pb::Message::default();
    message.payload.push(pb::Block {
        prefix: vec![0x01, 0x55, 0x7f, 0x20],
        data: Bytes::from_static(b"x"),
    });
    assert_eq!(BitswapMessage::try_from(message).err(), Some(Error::InvalidIdentifier));
    // version 0 with another codec than its own
    let mut message = pb::Message::default();
    message.payload.push(pb::Block {
        prefix: vec![0x00, 0x55, 0x12, 0x20],
        data: Bytes::from_static(b"x"),
    });
    assert_eq!(BitswapMessage::try_from(message).err(), Some(Error::InvalidIdentifier));
}

#[test]
fn malformed_bytes_are_rejected() {
    assert_eq!(BitswapMessage::decode(&[0x0a]).err(), Some(Error::MalformedWire));
    assert_eq!(BitswapMessage::decode(&[0x0a, 0x05, 0x00]).err(), Some(Error::MalformedWire));
    let mut bytes = sample().encode_v1();
    bytes.pop();
    assert_eq!(BitswapMessage::decode(&bytes).err(), Some(Error::MalformedWire));
    assert!(BitswapMessage::decode(&[]).unwrap().is_empty());
}

#[test]
fn a_legacy_block_is_identified_by_sha256() {
    let block = Block::from_v0_data(Bytes::from_static(b"legacy")).unwrap();
    let expected = Cid::new_v0(Code::Sha2_256.digest(b"legacy")).unwrap();
    assert_eq!(block.cid().to_bytes(), expected.to_bytes());
    assert_eq!(block.cid().version(), Version::V0);
    assert_eq!(block.cid().codec(), 0x70);
    assert_eq!(&block.data()[..], b"legacy");
    let mut message = pb::Message::default();
    message.blocks.push(Bytes::from_static(b"legacy"));
    let m = BitswapMessage::try_from(message).unwrap();
    assert_eq!(m.blocks(), vec![&block]);
}

#[test]
fn encoded_lengths_are_those_of_the_wire() {
    let entry = Entry {
        cid: v0_id(b"cid"),
        priority: i32::MAX,
        want_type: WantType::Have,
        cancel: true,
        send_dont_have: true,
    };
    assert_eq!(entry.encoded_len(), 48);
    assert_eq!(entry.to_proto().encode().len(), 48);
    let small = Entry {
        cid: v0_id(b"cid"),
        priority: 0,
        want_type: WantType::Block,
        cancel: false,
        send_dont_have: false,
    };
    assert_eq!(small.encoded_len(), 36);
    let negative = Entry { priority: -1, ..small.clone() };
    assert_eq!(negative.encoded_len(), 36 + 11);
    let have = BlockPresence { cid: v0_id(b"cid"), typ: BlockPresenceType::Have };
    assert_eq!(have.encoded_len(), 36);
    assert_eq!(BlockPresence::encoded_len_for_cid(v0_id(b"cid")), 36);
    let dont = BlockPresence { cid: v1_id(b"cid"), typ: BlockPresenceType::DontHave };
    assert_eq!(dont.encoded_len(), 2 + 36 + 2);
}

#[test]
fn error_messages_differ() {
    let all = [
        Error::InvalidIdentifier,
        Error::InvalidPrefix,
        Error::InvalidEnumValue,
        Error::MalformedWire,
    ];
    for (i, a) in all.iter().enumerate() {
        for (j, b) in all.iter().enumerate() {
            assert_eq!(a.message() == b.message(), i == j);
        }
    }
}

#[test]
fn the_cost_of_a_message_is_the_sum_of_its_parts() {
    let mut m = BitswapMessage::new(false);
    assert_eq!(m.encoded_len(), 0);
    m.set_pending_bytes(1_000);
    assert_eq!(m.encoded_len(), 0);
    m.add_block(block_of(b"12345"));
    assert_eq!(m.encoded_len(), 5);
    m.add_block(block_of(b"123456789"));
    assert_eq!(m.encoded_len(), 14);
    m.add_have(v0_id(b"have"));
    assert_eq!(m.encoded_len(), 14 + 36);
    m.add_dont_have(v1_id(b"dont"));
    assert_eq!(m.encoded_len(), 14 + 36 + 40);
    let added = m.add_full_entry(v0_id(b"want"), 1, false, WantType::Have, false);
    assert_eq!(added, 36 + 2 + 2);
    assert_eq!(m.encoded_len(), 14 + 36 + 40 + 40);
    // the cancel sets one flag and turns the want into one of the block, whose
    // type takes no bytes on the wire
    m.cancel(v0_id(b"want"));
    assert_eq!(m.encoded_len(), 14 + 36 + 40 + 36 + 2 + 2);
    let total: usize = m.blocks().iter().map(|b| b.data.len()).sum::<usize>()
        + m.block_presences().iter().map(|p| p.encoded_len()).sum::<usize>()
        + m.wantlist().iter().map(|e| e.encoded_len()).sum::<usize>();
    assert_eq!(m.encoded_len(), total);
}

#[test]
fn the_largest_entry_is_measured() {
    assert_eq!(iroh_bitswap::message::max_entry_size(), 48);
}

#[test]
fn a_copy_of_a_message_is_the_message() {
    let m = sample();
    let copy = m.clone();
    assert_eq!(copy, m);
    assert_eq!(BitswapMessage::default(), BitswapMessage::new(false));
    let proto = m.encode_as_proto_v1();
    assert_eq!(proto.clone(), proto);
    assert_eq!(proto.blocks.len(), 0);
    assert_eq!(proto.payload.len(), 3);
    assert_eq!(proto.block_presences.len(), 2);
    assert_eq!(proto.pending_bytes, -3);
    let proto = m.encode_as_proto_v0();
    assert_eq!(proto.blocks.len(), 3);
    assert_eq!(proto.payload.len(), 0);
    assert_eq!(proto.block_presences.len(), 0);
    assert_eq!(proto.pending_bytes, 0);
    assert_eq!(proto.wantlist.as_ref().map(|w| (w.entries.len(), w.full)), Some((3, true)));
}
