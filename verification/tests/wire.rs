use bytes::Bytes;
use iroh_bitswap::pb;
use iroh_bitswap::varint::{get_varint, put_varint, varint_len};
use iroh_bitswap::Error;
use prost::encoding;

fn prost_entry(e: &pb::Entry) -> Vec<u8> {
    let mut buf = Vec::new();
    if !e.block.is_empty() {
        encoding::bytes::encode(1, &e.block, &mut buf);
    }
    if e.priority != 0 {
        encoding::int32::encode(2, &e.priority, &mut buf);
    }
    if e.cancel {
        encoding::bool::encode(3, &e.cancel, &mut buf);
    }
    if e.want_type != 0 {
        encoding::int32::encode(4, &e.want_type, &mut buf);
    }
    if e.send_dont_have {
        encoding::bool::encode(5, &e.send_dont_have, &mut buf);
    }
    buf
}

fn sample() -> pb::Message {
    pb::Message {
        wantlist: Some(pb::Wantlist {
            entries: vec![
                pb::Entry {
                    block: vec![1, 2, 3],
                    priority: 300,
                    cancel: true,
                    want_type: 1,
                    send_dont_have: true,
                },
                pb::Entry {
                    block: vec![],
                    priority: -5,
                    cancel: false,
                    want_type: 0,
                    send_dont_have: false,
                },
                pb::Entry {
                    block: vec![9; 200],
                    priority: i32::MIN,
                    cancel: false,
                    want_type: i32::MAX,
                    send_dont_have: false,
                },
            ],
            full: true,
        }),
        blocks: vec![Bytes::from_static(b"raw one"), Bytes::new(), Bytes::from_static(b"raw two")],
        payload: vec![
            pb::Block { prefix: vec![1, 0x55, 0x12, 0x20], data: Bytes::from_static(b"data") },
            pb::Block { prefix: vec![], data: Bytes::new() },
        ],
        block_presences: vec![
            pb::BlockPresence { cid: vec![4, 5, 6], kind: 1 },
            pb::BlockPresence { cid: vec![7], kind: 0 },
        ],
        pending_bytes: 150,
    }
}

#[test]
fn varints_are_those_of_prost() {
    for v in [0u64, 1, 127, 128, 300, 16383, 16384, u32::MAX as u64, 1 << 62, u64::MAX] {
        let mut ours = vec![0xee];
        put_varint(v, &mut ours);
        let mut theirs = vec![0xee];
        encoding::encode_varint(v, &mut theirs);
        assert_eq!(ours, theirs);
        assert_eq!(varint_len(v), encoding::encoded_len_varint(v));
        assert_eq!(get_varint(&ours, 1), Some((v, ours.len() - 1)));
    }
    let mut out = Vec::new();
    put_varint(300, &mut out);
    assert_eq!(out, vec![0xac, 0x02]);
}

#[test]
fn varints_are_read_as_prost_reads_them() {
    let cases: Vec<Vec<u8>> = vec![
        vec![],
        vec![0x00],
        vec![0x80],
        vec![0x80, 0x00],
        vec![0xff, 0xff, 0xff, 0xff, 0xff, 0xff, 0xff, 0xff, 0xff, 0x01],
        vec![0xff, 0xff, 0xff, 0xff, 0xff, 0xff, 0xff, 0xff, 0xff, 0x02],
        vec![0xff, 0xff, 0xff, 0xff, 0xff, 0xff, 0xff, 0xff, 0xff, 0x7f],
        vec![0x80, 0x80, 0x80, 0x80, 0x80, 0x80, 0x80, 0x80, 0x80, 0x80, 0x01],
        vec![0x80, 0x80, 0x80, 0x80, 0x80, 0x80, 0x80, 0x80, 0x80, 0x00, 0x55],
        vec![0x81, 0x01, 0xff, 0xff],
    ];
    for case in cases {
        let mut slice = &case[..];
        let theirs = encoding::decode_varint(&mut slice).ok().map(|v| (v, case.len() - slice.len()));
        assert_eq!(get_varint(&case, 0), theirs, "{:?}", case);
    }
    assert_eq!(get_varint(&[0x80, 0x00], 0), Some((0, 2)));
    assert_eq!(get_varint(&[0x55, 0xac, 0x02], 1), Some((300, 2)));
}

#[test]
fn entry_bytes_are_those_of_prost() {
    for e in sample().wantlist.unwrap().entries {
        assert_eq!(e.encode(), prost_entry(&e));
        assert_eq!(pb::Entry::decode(&e.encode(), 98), Some(e));
    }
    let one = pb::Entry {
        block: vec![0xab],
        priority: 1,
        cancel: true,
        want_type: 1,
        send_dont_have: true,
    };
    assert_eq!(one.encode(), vec![0x0a, 0x01, 0xab, 0x10, 0x01, 0x18, 0x01, 0x20, 0x01, 0x28, 0x01]);
}

#[test]
fn message_bytes_are_those_of_prost() {
    let m = sample();
    let mut expected = Vec::new();
    let wl = m.wantlist.as_ref().unwrap();
    let mut body = Vec::new();
    for e in &wl.entries {
        encoding::bytes::encode(1, &prost_entry(e), &mut body);
    }
    encoding::bool::encode(2, &wl.full, &mut body);
    encoding::bytes::encode(1, &body, &mut expected);
    for b in &m.blocks {
        encoding::bytes::encode(2, b, &mut expected);
    }
    for b in &m.payload {
        let mut body = Vec::new();
        if !b.prefix.is_empty() {
            encoding::bytes::encode(1, &b.prefix, &mut body);
        }
        if !b.data.is_empty() {
            encoding::bytes::encode(2, &b.data, &mut body);
        }
        encoding::bytes::encode(3, &body, &mut expected);
    }
    for p in &m.block_presences {
        let mut body = Vec::new();
        encoding::bytes::encode(1, &p.cid, &mut body);
        if p.kind != 0 {
            encoding::int32::encode(2, &p.kind, &mut body);
        }
        encoding::bytes::encode(4, &body, &mut expected);
    }
    encoding::int32::encode(5, &m.pending_bytes, &mut expected);
    assert_eq!(m.encode(), expected);
}

#[test]
fn a_wire_message_reads_back_from_its_bytes() {
    let m = sample();
    assert_eq!(pb::Message::decode(&m.encode()), Ok(m));
    let empty = pb::Message::default();
    assert_eq!(empty.encode(), Vec::<u8>::new());
    assert_eq!(pb::Message::decode(&[]), Ok(empty));
    let only_pending = pb::Message { pending_bytes: 150, ..pb::Message::default() };
    assert_eq!(only_pending.encode(), vec![0x28, 0x96, 0x01]);
    let empty_wantlist = pb::Message {
        wantlist: Some(pb::Wantlist { entries: vec![], full: false }),
        ..pb::Message::default()
    };
    assert_eq!(empty_wantlist.encode(), vec![0x0a, 0x00]);
    assert_eq!(pb::Message::decode(&[0x0a, 0x00]), Ok(empty_wantlist));
}

#[test]
fn fields_may_come_in_any_order_and_again() {
    // pending bytes twice: the later one stays; a wantlist in two parts: both are read
    let bytes = vec![
        0x28, 0x01, // pendingBytes = 1
        0x0a, 0x02, 0x10, 0x07, // wantlist { full = 7 }
        0x28, 0x02, // pendingBytes = 2
    ];
    // inside the wantlist, field 2 with value 7 is `full`, any value but zero being true
    let m = pb::Message::decode(&bytes).unwrap();
    assert_eq!(m.pending_bytes, 2);
    assert_eq!(m.wantlist, Some(pb::Wantlist { entries: vec![], full: true }));

    let bytes = vec![
        0x0a, 0x04, 0x0a, 0x02, 0x10, 0x05, // wantlist { entries: [ { priority: 5 } ] }
        0x0a, 0x06, 0x0a, 0x02, 0x18, 0x01, 0x10, 0x01, // wantlist { entries: [ { cancel } ], full }
    ];
    let m = pb::Message::decode(&bytes).unwrap();
    let wl = m.wantlist.unwrap();
    assert!(wl.full);
    assert_eq!(wl.entries.len(), 2);
    assert_eq!(wl.entries[0].priority, 5);
    assert!(wl.entries[1].cancel);
}

#[test]
fn unknown_fields_are_passed_over() {
    let bytes = vec![
        0x30, 0x96, 0x01, // field 6, varint
        0x39, 1, 2, 3, 4, 5, 6, 7, 8, // field 7, 64 bits
        0x42, 0x02, 0xaa, 0xbb, // field 8, two bytes
        0x4d, 1, 2, 3, 4, // field 9, 32 bits
        0x53, 0x30, 0x01, 0x5b, 0x5c, 0x54, // field 10: a group holding a varint and a group
        0x28, 0x03, // pendingBytes = 3
    ];
    let m = pb::Message::decode(&bytes).unwrap();
    assert_eq!(m, pb::Message { pending_bytes: 3, ..pb::Message::default() });
}

#[test]
fn broken_framing_is_malformed() {
    let cases: Vec<Vec<u8>> = vec![
        vec![0x28],                   // a key without a value
        vec![0x00, 0x01],             // field number zero
        vec![0x2e, 0x01],             // wire type 6
        vec![0x2a, 0x00],             // pendingBytes as bytes
        vec![0x08, 0x01],             // wantlist as a varint
        vec![0x12, 0x05, 0x01],       // raw block longer than the message
        vec![0x0a, 0x01, 0x0a],       // a wantlist whose entry has no length
        vec![0x0a, 0x03, 0x0a, 0x05, 0x01], // an entry longer than its wantlist
        vec![0x53, 0x5c],             // a group closed by another field's key
        vec![0x54],                   // a group closed that was not opened
        vec![0x53],                   // a group never closed
        vec![0x3d, 1, 2, 3],          // four bytes cut short
        vec![0xff, 0xff, 0xff, 0xff, 0x7f, 0x00], // a key beyond 32 bits
    ];
    for case in cases {
        assert_eq!(pb::Message::decode(&case), Err(Error::MalformedWire), "{:?}", case);
    }
}

#[test]
fn groups_nest_only_so_deep() {
    // field 6 opens a group, again and again, then each is closed
    let depth_ok = 100;
    let mut bytes = Vec::new();
    for _ in 0..depth_ok {
        bytes.push(0x33);
    }
    for _ in 0..depth_ok {
        bytes.push(0x34);
    }
    assert!(pb::Message::decode(&bytes).is_ok());
    let mut bytes = Vec::new();
    for _ in 0..depth_ok + 1 {
        bytes.push(0x33);
    }
    for _ in 0..depth_ok + 1 {
        bytes.push(0x34);
    }
    assert_eq!(pb::Message::decode(&bytes), Err(Error::MalformedWire));
}

fn prost_skips(bytes: &[u8]) -> bool {
    let mut buf = bytes;
    while !buf.is_empty() {
        let (tag, wire_type) = match encoding::decode_key(&mut buf) {
            Ok(k) => k,
            Err(_) => return false,
        };
        if encoding::skip_field(wire_type, tag, &mut buf, encoding::DecodeContext::default())
            .is_err()
        {
            return false;
        }
    }
    true
}

#[test]
fn unknown_fields_are_judged_as_prost_judges_them() {
    // runs of bytes over a small alphabet of keys of unknown fields, lengths and
    // group marks, from a fixed sequence of numbers
    let alphabet: [u8; 12] =
        [0x30, 0x31, 0x32, 0x33, 0x34, 0x35, 0x3b, 0x3c, 0x00, 0x01, 0x02, 0x80];
    let mut state: u32 = 12345;
    let mut accepted = 0;
    for _ in 0..20_000 {
        state = state.wrapping_mul(1_103_515_245).wrapping_add(12_345);
        let len = ((state >> 16) % 9) as usize;
        let mut bytes = Vec::new();
        for _ in 0..len {
            state = state.wrapping_mul(1_103_515_245).wrapping_add(12_345);
            bytes.push(alphabet[((state >> 16) % 12) as usize]);
        }
        // the alphabet holds no key of a known field, so a message that is read is empty
        let ours = pb::Message::decode(&bytes);
        assert_eq!(ours.is_ok(), prost_skips(&bytes), "{:?}", bytes);
        if let Ok(m) = ours {
            assert_eq!(m, pb::Message::default());
            accepted += 1;
        }
    }
    assert!(accepted > 100);
    for depth in [1usize, 2, 99, 100, 101, 150] {
        let mut bytes = vec![0x33; depth];
        bytes.extend(vec![0x34; depth]);
        assert_eq!(pb::Message::decode(&bytes).is_ok(), prost_skips(&bytes), "depth {}", depth);
    }
}
