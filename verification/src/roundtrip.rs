//! Reading the bytes of a wire message gives the message back.

use crate::pb::{
    blocks_bytes, entries_bytes, payload_bytes, presences_bytes, WireBlock, WireEntry,
    WireMessage, WirePresence, WireWantlist,
};
use crate::wire::{
    bytes_field, lemma_bool_field, lemma_bytes_field, lemma_int_field, opt_bool_field,
    opt_bytes_field, opt_int_field, varint_field, wide, RECURSION_LIMIT,
};
use vstd::prelude::*;

verus! {

proof fn lemma_entry_block(acc: WireEntry, v: Seq<u8>, rest: Seq<u8>, room: nat)
    requires
        v.len() <= u64::MAX,
        acc.block.len() == 0,
    ensures
        acc.read(opt_bytes_field(1, v) + rest, room) == (WireEntry { block: v, ..acc }).read(
            rest,
            room,
        ),
{
    if v.len() > 0 {
        lemma_bytes_field(1, v, rest);
    } else {
        assert(opt_bytes_field(1, v) + rest =~= rest);
        assert(v =~= acc.block);
    }
}

proof fn lemma_entry_priority(acc: WireEntry, v: i32, rest: Seq<u8>, room: nat)
    requires
        acc.priority == 0,
    ensures
        acc.read(opt_int_field(2, v) + rest, room) == (WireEntry { priority: v, ..acc }).read(
            rest,
            room,
        ),
{
    if v != 0 {
        lemma_int_field(2, v, rest);
    } else {
        assert(opt_int_field(2, v) + rest =~= rest);
    }
}

proof fn lemma_entry_cancel(acc: WireEntry, v: bool, rest: Seq<u8>, room: nat)
    requires
        !acc.cancel,
    ensures
        acc.read(opt_bool_field(3, v) + rest, room) == (WireEntry { cancel: v, ..acc }).read(
            rest,
            room,
        ),
{
    if v {
        lemma_bool_field(3, rest);
    } else {
        assert(opt_bool_field(3, v) + rest =~= rest);
    }
}

proof fn lemma_entry_want_type(acc: WireEntry, v: i32, rest: Seq<u8>, room: nat)
    requires
        acc.want_type == 0,
    ensures
        acc.read(opt_int_field(4, v) + rest, room) == (WireEntry { want_type: v, ..acc }).read(
            rest,
            room,
        ),
{
    if v != 0 {
        lemma_int_field(4, v, rest);
    } else {
        assert(opt_int_field(4, v) + rest =~= rest);
    }
}

proof fn lemma_entry_send_dont_have(acc: WireEntry, v: bool, rest: Seq<u8>, room: nat)
    requires
        !acc.send_dont_have,
    ensures
        acc.read(opt_bool_field(5, v) + rest, room) == (WireEntry {
            send_dont_have: v,
            ..acc
        }).read(rest, room),
{
    if v {
        lemma_bool_field(5, rest);
    } else {
        assert(opt_bool_field(5, v) + rest =~= rest);
    }
}

/// Reading the bytes of a wantlist entry gives the entry back.
pub proof fn lemma_entry_round_trip(e: WireEntry, room: nat)
    requires
        e.bytes().len() <= u64::MAX,
    ensures
        WireEntry::empty().read(e.bytes(), room) == Some(e),
{
    let f1 = opt_bytes_field(1, e.block);
    let f2 = opt_int_field(2, e.priority);
    let f3 = opt_bool_field(3, e.cancel);
    let f4 = opt_int_field(4, e.want_type);
    let f5 = opt_bool_field(5, e.send_dont_have);
    let nothing = Seq::<u8>::empty();
    assert(e.bytes() =~= f1 + (f2 + (f3 + (f4 + (f5 + nothing)))));
    if e.block.len() > 0 {
        assert(f1.len() >= e.block.len());
    }
    let a0 = WireEntry::empty();
    let a1 = WireEntry { block: e.block, ..a0 };
    let a2 = WireEntry { priority: e.priority, ..a1 };
    let a3 = WireEntry { cancel: e.cancel, ..a2 };
    let a4 = WireEntry { want_type: e.want_type, ..a3 };
    let a5 = WireEntry { send_dont_have: e.send_dont_have, ..a4 };
    lemma_entry_block(a0, e.block, f2 + (f3 + (f4 + (f5 + nothing))), room);
    lemma_entry_priority(a1, e.priority, f3 + (f4 + (f5 + nothing)), room);
    lemma_entry_cancel(a2, e.cancel, f4 + (f5 + nothing), room);
    lemma_entry_want_type(a3, e.want_type, f5 + nothing, room);
    lemma_entry_send_dont_have(a4, e.send_dont_have, nothing, room);
    assert(a5 == e);
}

proof fn lemma_block_prefix(acc: WireBlock, v: Seq<u8>, rest: Seq<u8>, room: nat)
    requires
        v.len() <= u64::MAX,
        acc.prefix.len() == 0,
    ensures
        acc.read(opt_bytes_field(1, v) + rest, room) == (WireBlock { prefix: v, ..acc }).read(
            rest,
            room,
        ),
{
    if v.len() > 0 {
        lemma_bytes_field(1, v, rest);
    } else {
        assert(opt_bytes_field(1, v) + rest =~= rest);
        assert(v =~= acc.prefix);
    }
}

proof fn lemma_block_data(acc: WireBlock, v: Seq<u8>, rest: Seq<u8>, room: nat)
    requires
        v.len() <= u64::MAX,
        acc.data.len() == 0,
    ensures
        acc.read(opt_bytes_field(2, v) + rest, room) == (WireBlock { data: v, ..acc }).read(
            rest,
            room,
        ),
{
    if v.len() > 0 {
        lemma_bytes_field(2, v, rest);
    } else {
        assert(opt_bytes_field(2, v) + rest =~= rest);
        assert(v =~= acc.data);
    }
}

/// Reading the bytes of a payload block gives the block back.
pub proof fn lemma_block_round_trip(b: WireBlock, room: nat)
    requires
        b.bytes().len() <= u64::MAX,
    ensures
        WireBlock::empty().read(b.bytes(), room) == Some(b),
{
    let f1 = opt_bytes_field(1, b.prefix);
    let f2 = opt_bytes_field(2, b.data);
    let nothing = Seq::<u8>::empty();
    assert(b.bytes() =~= f1 + (f2 + nothing));
    if b.prefix.len() > 0 {
        assert(f1.len() >= b.prefix.len());
    }
    if b.data.len() > 0 {
        assert(f2.len() >= b.data.len());
    }
    let a0 = WireBlock::empty();
    let a1 = WireBlock { prefix: b.prefix, ..a0 };
    let a2 = WireBlock { data: b.data, ..a1 };
    lemma_block_prefix(a0, b.prefix, f2 + nothing, room);
    lemma_block_data(a1, b.data, nothing, room);
    assert(a2 == b);
}

proof fn lemma_presence_cid(acc: WirePresence, v: Seq<u8>, rest: Seq<u8>, room: nat)
    requires
        v.len() <= u64::MAX,
        acc.cid.len() == 0,
    ensures
        acc.read(opt_bytes_field(1, v) + rest, room) == (WirePresence { cid: v, ..acc }).read(
            rest,
            room,
        ),
{
    if v.len() > 0 {
        lemma_bytes_field(1, v, rest);
    } else {
        assert(opt_bytes_field(1, v) + rest =~= rest);
        assert(v =~= acc.cid);
    }
}

proof fn lemma_presence_kind(acc: WirePresence, v: i32, rest: Seq<u8>, room: nat)
    requires
        acc.kind == 0,
    ensures
        acc.read(opt_int_field(2, v) + rest, room) == (WirePresence { kind: v, ..acc }).read(
            rest,
            room,
        ),
{
    if v != 0 {
        lemma_int_field(2, v, rest);
    } else {
        assert(opt_int_field(2, v) + rest =~= rest);
    }
}

/// Reading the bytes of a block presence gives the presence back.
pub proof fn lemma_presence_round_trip(p: WirePresence, room: nat)
    requires
        p.bytes().len() <= u64::MAX,
    ensures
        WirePresence::empty().read(p.bytes(), room) == Some(p),
{
    let f1 = opt_bytes_field(1, p.cid);
    let f2 = opt_int_field(2, p.kind);
    let nothing = Seq::<u8>::empty();
    assert(p.bytes() =~= f1 + (f2 + nothing));
    if p.cid.len() > 0 {
        assert(f1.len() >= p.cid.len());
    }
    let a0 = WirePresence::empty();
    let a1 = WirePresence { cid: p.cid, ..a0 };
    let a2 = WirePresence { kind: p.kind, ..a1 };
    lemma_presence_cid(a0, p.cid, f2 + nothing, room);
    lemma_presence_kind(a1, p.kind, nothing, room);
    assert(a2 == p);
}

proof fn lemma_wantlist_entries(
    acc: WireWantlist,
    entries: Seq<WireEntry>,
    rest: Seq<u8>,
    room: nat,
)
    requires
        room >= 1,
        entries_bytes(entries).len() <= u64::MAX,
    ensures
        acc.read(entries_bytes(entries) + rest, room) == (WireWantlist {
            entries: acc.entries + entries,
            ..acc
        }).read(rest, room),
    decreases entries.len(),
{
    if entries.len() == 0 {
        assert(entries_bytes(entries) + rest =~= rest);
        assert(acc.entries + entries =~= acc.entries);
    } else {
        let init = entries.drop_last();
        let last = entries.last();
        let f = bytes_field(1, last.bytes());
        assert(entries_bytes(entries) + rest =~= entries_bytes(init) + (f + rest));
        lemma_wantlist_entries(acc, init, f + rest, room);
        let mid = WireWantlist { entries: acc.entries + init, ..acc };
        lemma_bytes_field(1, last.bytes(), rest);
        lemma_entry_round_trip(last, (room - 1) as nat);
        assert(mid.entries.push(last) =~= acc.entries + entries);
    }
}

proof fn lemma_wantlist_full(acc: WireWantlist, v: bool, rest: Seq<u8>, room: nat)
    requires
        !acc.full,
    ensures
        acc.read(opt_bool_field(2, v) + rest, room) == (WireWantlist { full: v, ..acc }).read(
            rest,
            room,
        ),
{
    if v {
        lemma_bool_field(2, rest);
    } else {
        assert(opt_bool_field(2, v) + rest =~= rest);
    }
}

/// Reading the bytes of a wantlist gives the wantlist back.
pub proof fn lemma_wantlist_round_trip(w: WireWantlist, room: nat)
    requires
        room >= 1,
        w.bytes().len() <= u64::MAX,
    ensures
        WireWantlist::empty().read(w.bytes(), room) == Some(w),
{
    let f2 = opt_bool_field(2, w.full);
    let nothing = Seq::<u8>::empty();
    assert(w.bytes() =~= entries_bytes(w.entries) + (f2 + nothing));
    let a0 = WireWantlist::empty();
    let a1 = WireWantlist { entries: a0.entries + w.entries, ..a0 };
    lemma_wantlist_entries(a0, w.entries, f2 + nothing, room);
    lemma_wantlist_full(a1, w.full, nothing, room);
    assert(a1.entries =~= w.entries);
}

proof fn lemma_message_wantlist(acc: WireMessage, w: Option<WireWantlist>, rest: Seq<u8>, room: nat)
    requires
        room >= 2,
        acc.wantlist is None,
        w matches Some(x) ==> x.bytes().len() <= u64::MAX,
    ensures
        acc.read((WireMessage { wantlist: w, ..acc }).wantlist_bytes() + rest, room) == (WireMessage {
            wantlist: w,
            ..acc
        }).read(rest, room),
{
    match w {
        None => {
            assert((WireMessage { wantlist: w, ..acc }).wantlist_bytes() + rest =~= rest);
        },
        Some(x) => {
            lemma_bytes_field(1, x.bytes(), rest);
            lemma_wantlist_round_trip(x, (room - 1) as nat);
        },
    }
}

proof fn lemma_message_blocks(acc: WireMessage, blocks: Seq<Seq<u8>>, rest: Seq<u8>, room: nat)
    requires
        blocks_bytes(blocks).len() <= u64::MAX,
    ensures
        acc.read(blocks_bytes(blocks) + rest, room) == (WireMessage {
            blocks: acc.blocks + blocks,
            ..acc
        }).read(rest, room),
    decreases blocks.len(),
{
    if blocks.len() == 0 {
        assert(blocks_bytes(blocks) + rest =~= rest);
        assert(acc.blocks + blocks =~= acc.blocks);
    } else {
        let init = blocks.drop_last();
        let last = blocks.last();
        let f = bytes_field(2, last);
        assert(blocks_bytes(blocks) + rest =~= blocks_bytes(init) + (f + rest));
        lemma_message_blocks(acc, init, f + rest, room);
        let mid = WireMessage { blocks: acc.blocks + init, ..acc };
        lemma_bytes_field(2, last, rest);
        assert(mid.blocks.push(last) =~= acc.blocks + blocks);
    }
}

proof fn lemma_message_payload(acc: WireMessage, payload: Seq<WireBlock>, rest: Seq<u8>, room: nat)
    requires
        room >= 1,
        payload_bytes(payload).len() <= u64::MAX,
    ensures
        acc.read(payload_bytes(payload) + rest, room) == (WireMessage {
            payload: acc.payload + payload,
            ..acc
        }).read(rest, room),
    decreases payload.len(),
{
    if payload.len() == 0 {
        assert(payload_bytes(payload) + rest =~= rest);
        assert(acc.payload + payload =~= acc.payload);
    } else {
        let init = payload.drop_last();
        let last = payload.last();
        let f = bytes_field(3, last.bytes());
        assert(payload_bytes(payload) + rest =~= payload_bytes(init) + (f + rest));
        lemma_message_payload(acc, init, f + rest, room);
        let mid = WireMessage { payload: acc.payload + init, ..acc };
        lemma_bytes_field(3, last.bytes(), rest);
        lemma_block_round_trip(last, (room - 1) as nat);
        assert(mid.payload.push(last) =~= acc.payload + payload);
    }
}

proof fn lemma_message_presences(
    acc: WireMessage,
    presences: Seq<WirePresence>,
    rest: Seq<u8>,
    room: nat,
)
    requires
        room >= 1,
        presences_bytes(presences).len() <= u64::MAX,
    ensures
        acc.read(presences_bytes(presences) + rest, room) == (WireMessage {
            block_presences: acc.block_presences + presences,
            ..acc
        }).read(rest, room),
    decreases presences.len(),
{
    if presences.len() == 0 {
        assert(presences_bytes(presences) + rest =~= rest);
        assert(acc.block_presences + presences =~= acc.block_presences);
    } else {
        let init = presences.drop_last();
        let last = presences.last();
        let f = bytes_field(4, last.bytes());
        assert(presences_bytes(presences) + rest =~= presences_bytes(init) + (f + rest));
        lemma_message_presences(acc, init, f + rest, room);
        let mid = WireMessage { block_presences: acc.block_presences + init, ..acc };
        lemma_bytes_field(4, last.bytes(), rest);
        lemma_presence_round_trip(last, (room - 1) as nat);
        assert(mid.block_presences.push(last) =~= acc.block_presences + presences);
    }
}

proof fn lemma_message_pending(acc: WireMessage, v: i32, rest: Seq<u8>, room: nat)
    requires
        acc.pending_bytes == 0,
    ensures
        acc.read(opt_int_field(5, v) + rest, room) == (WireMessage { pending_bytes: v, ..acc }).read(
            rest,
            room,
        ),
{
    if v != 0 {
        lemma_int_field(5, v, rest);
    } else {
        assert(opt_int_field(5, v) + rest =~= rest);
    }
}

/// Reading the bytes of a wire message gives the message back, whatever it holds.
pub proof fn lemma_message_round_trip(m: WireMessage)
    requires
        m.bytes().len() <= u64::MAX,
    ensures
        WireMessage::parse(m.bytes()) == Some(m),
{
    let room = RECURSION_LIMIT as nat;
    let f1 = m.wantlist_bytes();
    let f2 = blocks_bytes(m.blocks);
    let f3 = payload_bytes(m.payload);
    let f4 = presences_bytes(m.block_presences);
    let f5 = opt_int_field(5, m.pending_bytes);
    let nothing = Seq::<u8>::empty();
    assert(m.bytes() =~= f1 + (f2 + (f3 + (f4 + (f5 + nothing)))));
    let a0 = WireMessage::empty();
    let a1 = WireMessage { wantlist: m.wantlist, ..a0 };
    let a2 = WireMessage { blocks: a1.blocks + m.blocks, ..a1 };
    let a3 = WireMessage { payload: a2.payload + m.payload, ..a2 };
    let a4 = WireMessage { block_presences: a3.block_presences + m.block_presences, ..a3 };
    let a5 = WireMessage { pending_bytes: m.pending_bytes, ..a4 };
    assert(a1.wantlist_bytes() == f1);
    match m.wantlist {
        Some(x) => {
            assert(f1.len() >= x.bytes().len());
        },
        None => {},
    }
    lemma_message_wantlist(a0, m.wantlist, f2 + (f3 + (f4 + (f5 + nothing))), room);
    lemma_message_blocks(a1, m.blocks, f3 + (f4 + (f5 + nothing)), room);
    lemma_message_payload(a2, m.payload, f4 + (f5 + nothing), room);
    lemma_message_presences(a3, m.block_presences, f5 + nothing, room);
    lemma_message_pending(a4, m.pending_bytes, nothing, room);
    assert(a2.blocks =~= m.blocks);
    assert(a3.payload =~= m.payload);
    assert(a4.block_presences =~= m.block_presences);
    assert(a5 == m);
}

} // verus!
