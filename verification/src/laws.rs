//! What holds of messages and their wire forms: reading what was written gives the
//! message back, merged wants never lose what they had, and a block and a presence
//! never stand under one identifier.

use crate::block::{legacy_id, BlockView};
use crate::codec::{raw_blocks, wire_block, wire_blocks, wire_entries, wire_presences};
use crate::content_id::{cid_from_bytes, ContentIdView, Prefix};
use crate::error::Error;
use crate::maps::lists;
use crate::message::{BlockPresenceType, EntryView, MessageView, Priority, WantType};
use crate::pb::{WireBlock, WireEntry, WireMessage, WirePresence};
use vstd::prelude::*;

verus! {

/// The first `i` of `keys`, as a set.
pub open spec fn first_keys(keys: Seq<ContentIdView>, i: int) -> Set<ContentIdView> {
    Set::new(|k: ContentIdView| exists|j: int| 0 <= j < i && keys[j] == k)
}

/// The key at `i` is not among the first `i` keys, and joins them to make the
/// first `i + 1`.
pub proof fn lemma_first_keys_step(keys: Seq<ContentIdView>, i: int)
    requires
        0 <= i < keys.len(),
        keys.no_duplicates(),
    ensures
        !first_keys(keys, i).contains(keys[i]),
        first_keys(keys, i + 1) == first_keys(keys, i).insert(keys[i]),
{
    if first_keys(keys, i).contains(keys[i]) {
        let j = choose|j: int| 0 <= j < i && keys[j] == keys[i];
        assert(false);
    }
    assert forall|k: ContentIdView|
        first_keys(keys, i + 1).contains(k) <==> first_keys(keys, i).insert(keys[i]).contains(
            k,
        ) by {
        if first_keys(keys, i + 1).contains(k) {
            let j = choose|j: int| 0 <= j < i + 1 && keys[j] == k;
            if j < i {
                assert(first_keys(keys, i).contains(k));
            }
        }
        if first_keys(keys, i).contains(k) {
            let j = choose|j: int| 0 <= j < i && keys[j] == k;
            assert(0 <= j < i + 1 && keys[j] == k);
        }
        if k == keys[i] {
            assert(0 <= i < i + 1 && keys[i] == k);
        }
    }
    assert(first_keys(keys, i + 1) =~= first_keys(keys, i).insert(keys[i]));
}

proof fn lemma_first_keys_all<V>(
    keys: Seq<ContentIdView>,
    values: Seq<V>,
    m: Map<ContentIdView, V>,
)
    requires
        lists(keys, values, m),
    ensures
        m.restrict(first_keys(keys, keys.len() as int)) == m,
        m.restrict(first_keys(keys, 0)) == Map::<ContentIdView, V>::empty(),
{
    assert forall|k: ContentIdView| #[trigger] m.contains_key(k) implies first_keys(
        keys,
        keys.len() as int,
    ).contains(k) by {
        assert(keys.contains(k));
        let j = choose|j: int| 0 <= j < keys.len() && keys[j] == k;
        assert(0 <= j < keys.len() && keys[j] == k);
    }
    assert(m.restrict(first_keys(keys, keys.len() as int)) =~= m);
    assert(m.restrict(first_keys(keys, 0)) =~= Map::<ContentIdView, V>::empty());
}

proof fn lemma_entries_fold(
    m: MessageView,
    acc: MessageView,
    keys: Seq<ContentIdView>,
    values: Seq<EntryView>,
    i: int,
)
    requires
        m.wf(),
        m.reads_back_wants(),
        lists(keys, values, m.wantlist),
        0 <= i <= keys.len(),
        acc.wantlist == m.wantlist.restrict(first_keys(keys, i)),
    ensures
        acc.add_wire_entries(wire_entries(values).skip(i)) == Ok::<MessageView, Error>(
            MessageView { wantlist: m.wantlist, ..acc },
        ),
    decreases keys.len() - i,
{
    let rest = wire_entries(values).skip(i);
    if i == keys.len() {
        lemma_first_keys_all(keys, values, m.wantlist);
    } else {
        let v = values[i];
        let k = keys[i];
        assert(m.wantlist.contains_key(keys[i]));
        assert(rest[0] == v.wire());
        lemma_first_keys_step(keys, i);
        let next = acc.upsert(k, v.priority, v.cancel, v.want_type, v.send_dont_have);
        assert(WantType::from_code(v.want_type.code()) == Some(v.want_type));
        assert(acc.add_wire_entry(rest[0]) == Ok::<MessageView, Error>(next));
        assert(next.wantlist =~= m.wantlist.restrict(first_keys(keys, i + 1)));
        assert(rest.skip(1) =~= wire_entries(values).skip(i + 1));
        lemma_entries_fold(m, next, keys, values, i + 1);
    }
}

proof fn lemma_blocks_fold(
    m: MessageView,
    acc: MessageView,
    keys: Seq<ContentIdView>,
    values: Seq<BlockView>,
    i: int,
)
    requires
        m.wf(),
        m.content_addressed(),
        lists(keys, values, m.blocks),
        0 <= i <= keys.len(),
        acc.blocks == m.blocks.restrict(first_keys(keys, i)),
        acc.presences == Map::<ContentIdView, BlockPresenceType>::empty(),
    ensures
        acc.add_wire_blocks(wire_blocks(values).skip(i)) == Ok::<MessageView, Error>(
            MessageView { blocks: m.blocks, ..acc },
        ),
    decreases keys.len() - i,
{
    let rest = wire_blocks(values).skip(i);
    if i == keys.len() {
        lemma_first_keys_all(keys, values, m.blocks);
    } else {
        let v = values[i];
        let k = keys[i];
        assert(m.blocks.contains_key(keys[i]));
        assert(rest[0] == wire_block(v));
        lemma_first_keys_step(keys, i);
        let prefix = v.cid.prefix();
        prefix.lemma_parse_bytes(Seq::empty());
        assert(prefix.bytes() + Seq::<u8>::empty() =~= prefix.bytes());
        assert(v.content_addressed());
        assert(prefix.identify(v.data) == Some(v.cid));
        let next = acc.add_block(v);
        assert(acc.add_wire_block(rest[0]) == Ok::<MessageView, Error>(next));
        assert(next.blocks =~= m.blocks.restrict(first_keys(keys, i + 1)));
        assert(next.presences =~= acc.presences);
        assert(rest.skip(1) =~= wire_blocks(values).skip(i + 1));
        lemma_blocks_fold(m, next, keys, values, i + 1);
    }
}

proof fn lemma_presences_fold(
    m: MessageView,
    acc: MessageView,
    keys: Seq<ContentIdView>,
    kinds: Seq<BlockPresenceType>,
    i: int,
)
    requires
        m.wf(),
        m.reads_back_presences(),
        lists(keys, kinds, m.presences),
        0 <= i <= keys.len(),
        acc.presences == m.presences.restrict(first_keys(keys, i)),
        acc.blocks == m.blocks,
    ensures
        acc.add_wire_presences(wire_presences(keys, kinds).skip(i)) == Ok::<MessageView, Error>(
            MessageView { presences: m.presences, ..acc },
        ),
    decreases keys.len() - i,
{
    let rest = wire_presences(keys, kinds).skip(i);
    if i == keys.len() {
        lemma_first_keys_all(keys, kinds, m.presences);
    } else {
        let v = kinds[i];
        let k = keys[i];
        assert(m.presences.contains_key(keys[i]));
        assert(rest[0] == WirePresence { cid: k.bytes(), kind: v.code() });
        lemma_first_keys_step(keys, i);
        assert(BlockPresenceType::from_code(v.code()) == Some(v));
        let next = acc.add_block_presence(k, v);
        assert(acc.add_wire_presence(rest[0]) == Ok::<MessageView, Error>(next));
        assert(next.presences =~= m.presences.restrict(first_keys(keys, i + 1)));
        assert(rest.skip(1) =~= wire_presences(keys, kinds).skip(i + 1));
        lemma_presences_fold(m, next, keys, kinds, i + 1);
    }
}

/// Reading a wire form of the current protocol version gives the message back: the
/// same wantlist, blocks, presences, pending bytes and flag. This holds of a valid
/// message whose blocks stand under the identifiers of their data, given that the
/// byte forms of its identifiers read back as themselves.
#[verifier::rlimit(50)]
pub proof fn lemma_v1_round_trip(m: MessageView, w: WireMessage)
    requires
        m.wf(),
        m.encodes_v1(w),
        m.content_addressed(),
        m.reads_back_wants(),
        m.reads_back_presences(),
    ensures
        MessageView::from_wire(w) == Ok::<MessageView, Error>(m),
{
    let wl = w.wantlist.unwrap();
    let (k1, v1) = choose|keys: Seq<ContentIdView>, values: Seq<EntryView>| #[trigger]
        lists(keys, values, m.wantlist) && wl.entries == wire_entries(values);
    let (k2, v2) = choose|keys: Seq<ContentIdView>, values: Seq<BlockView>| #[trigger]
        lists(keys, values, m.blocks) && w.payload == wire_blocks(values);
    let (k3, v3) = choose|keys: Seq<ContentIdView>, kinds: Seq<BlockPresenceType>| #[trigger]
        lists(keys, kinds, m.presences) && w.block_presences == wire_presences(keys, kinds);
    let m0 = MessageView::empty(m.full);
    lemma_first_keys_all(k1, v1, m.wantlist);
    assert(wire_entries(v1).skip(0) =~= wire_entries(v1));
    lemma_entries_fold(m, m0, k1, v1, 0);
    let m1 = MessageView { wantlist: m.wantlist, ..m0 };
    assert(m1.add_raw_blocks(w.blocks) == Ok::<MessageView, Error>(m1));
    lemma_first_keys_all(k2, v2, m.blocks);
    assert(wire_blocks(v2).skip(0) =~= wire_blocks(v2));
    lemma_blocks_fold(m, m1, k2, v2, 0);
    let m2 = MessageView { blocks: m.blocks, ..m1 };
    lemma_first_keys_all(k3, v3, m.presences);
    assert(wire_presences(k3, v3).skip(0) =~= wire_presences(k3, v3));
    lemma_presences_fold(m, m2, k3, v3, 0);
}

/// The data of the blocks of a message, whatever identifiers they stand under.
pub open spec fn block_data(blocks: Map<ContentIdView, BlockView>) -> Set<Seq<u8>> {
    Set::new(|d: Seq<u8>| exists|k: ContentIdView| #[trigger] blocks.contains_key(k) && blocks[k].data == d)
}

impl MessageView {
    /// The data of every block has an identifier of the first protocol version, and
    /// no two blocks of different data have the same one.
    pub open spec fn legacy_distinct(self) -> bool {
        &&& forall|k: ContentIdView| #[trigger]
            self.blocks.contains_key(k) ==> legacy_id(self.blocks[k].data) is Some
        &&& forall|j: ContentIdView, k: ContentIdView|
            #![trigger self.blocks.contains_key(j), self.blocks.contains_key(k)]
            self.blocks.contains_key(j) && self.blocks.contains_key(k) && legacy_id(
                self.blocks[j].data,
            ) == legacy_id(self.blocks[k].data) ==> self.blocks[j].data == self.blocks[k].data
    }
}

/// The blocks in `blocks` are those of the first `i` of `values`, each under the
/// identifier of the first protocol version that its data has.
spec fn raw_partial(blocks: Map<ContentIdView, BlockView>, values: Seq<BlockView>, i: int) -> bool {
    &&& forall|k: ContentIdView| #[trigger]
        blocks.contains_key(k) ==> exists|j: int|
            0 <= j < i && #[trigger] legacy_id(values[j].data) == Some(k) && blocks[k].data
                == values[j].data
    &&& forall|j: int|
        0 <= j < i ==> {
            let id = (#[trigger] legacy_id(values[j].data)).unwrap();
            blocks.contains_key(id) && blocks[id].data == values[j].data
        }
}

proof fn lemma_raw_fold(
    m: MessageView,
    acc: MessageView,
    keys: Seq<ContentIdView>,
    values: Seq<BlockView>,
    i: int,
)
    requires
        m.legacy_distinct(),
        lists(keys, values, m.blocks),
        0 <= i <= keys.len(),
        raw_partial(acc.blocks, values, i),
        acc.presences == Map::<ContentIdView, BlockPresenceType>::empty(),
    ensures
        acc.add_raw_blocks(raw_blocks(values).skip(i)) matches Ok(r) && r == (MessageView {
            blocks: r.blocks,
            ..acc
        }) && raw_partial(r.blocks, values, keys.len() as int),
    decreases keys.len() - i,
{
    let rest = raw_blocks(values).skip(i);
    if i < keys.len() {
        let v = values[i];
        assert(m.blocks.contains_key(keys[i]));
        assert(rest[0] == v.data);
        let id = legacy_id(v.data).unwrap();
        let next = acc.add_block(BlockView { cid: id, data: v.data });
        assert(acc.add_raw_block(rest[0]) == Ok::<MessageView, Error>(next));
        assert(next.presences =~= acc.presences);
        assert forall|k: ContentIdView| #[trigger] next.blocks.contains_key(k) implies exists|
            j: int,
        |
            0 <= j < i + 1 && #[trigger] legacy_id(values[j].data) == Some(k)
                && next.blocks[k].data == values[j].data by {
            if k == id {
                assert(legacy_id(values[i].data) == Some(k));
            } else {
                assert(acc.blocks.contains_key(k));
                let j = choose|j: int|
                    0 <= j < i && #[trigger] legacy_id(values[j].data) == Some(k)
                        && acc.blocks[k].data == values[j].data;
                assert(legacy_id(values[j].data) == Some(k));
            }
        }
        assert forall|j: int| 0 <= j < i + 1 implies {
            let idj = (#[trigger] legacy_id(values[j].data)).unwrap();
            next.blocks.contains_key(idj) && next.blocks[idj].data == values[j].data
        } by {
            let idj = legacy_id(values[j].data).unwrap();
            if j < i {
                assert(acc.blocks.contains_key(idj));
                if idj == id {
                    assert(m.blocks.contains_key(keys[j]));
                    assert(m.blocks.contains_key(keys[i]));
                }
            }
        }
        assert(rest.skip(1) =~= raw_blocks(values).skip(i + 1));
        lemma_raw_fold(m, next, keys, values, i + 1);
    }
}

/// Reading a wire form of the first protocol version gives back the wantlist, the
/// flag and the data of the blocks, and nothing of presences or pending bytes. This
/// holds of a valid message whose blocks differ in the identifiers of the first
/// protocol version where they differ in data, given that the byte forms of the
/// wantlist's identifiers read back as themselves.
#[verifier::rlimit(50)]
pub proof fn lemma_v0_round_trip(m: MessageView, w: WireMessage)
    requires
        m.wf(),
        m.encodes_v0(w),
        m.legacy_distinct(),
        m.reads_back_wants(),
    ensures
        MessageView::from_wire(w) matches Ok(r) && r.wantlist == m.wantlist && r.full == m.full
            && block_data(r.blocks) == block_data(m.blocks) && r.presences == Map::<
            ContentIdView,
            BlockPresenceType,
        >::empty() && r.pending_bytes == 0,
{
    let wl = w.wantlist.unwrap();
    let (k1, v1) = choose|keys: Seq<ContentIdView>, values: Seq<EntryView>| #[trigger]
        lists(keys, values, m.wantlist) && wl.entries == wire_entries(values);
    let (k2, v2) = choose|keys: Seq<ContentIdView>, values: Seq<BlockView>| #[trigger]
        lists(keys, values, m.blocks) && w.blocks == raw_blocks(values);
    let m0 = MessageView::empty(m.full);
    lemma_first_keys_all(k1, v1, m.wantlist);
    assert(wire_entries(v1).skip(0) =~= wire_entries(v1));
    lemma_entries_fold(m, m0, k1, v1, 0);
    let m1 = MessageView { wantlist: m.wantlist, ..m0 };
    assert(raw_blocks(v2).skip(0) =~= raw_blocks(v2));
    lemma_raw_fold(m, m1, k2, v2, 0);
    let m2 = m1.add_raw_blocks(w.blocks).unwrap();
    assert(m2.add_wire_blocks(w.payload) == Ok::<MessageView, Error>(m2));
    assert(m2.add_wire_presences(w.block_presences) == Ok::<MessageView, Error>(m2));
    assert forall|d: Seq<u8>| block_data(m2.blocks).contains(d) <==> block_data(m.blocks).contains(
        d,
    ) by {
        if block_data(m2.blocks).contains(d) {
            let k = choose|k: ContentIdView| #[trigger]
                m2.blocks.contains_key(k) && m2.blocks[k].data == d;
            let j = choose|j: int|
                0 <= j < k2.len() && #[trigger] legacy_id(v2[j].data) == Some(k)
                    && m2.blocks[k].data == v2[j].data;
            assert(m.blocks.contains_key(k2[j]));
        }
        if block_data(m.blocks).contains(d) {
            let k = choose|k: ContentIdView| #[trigger]
                m.blocks.contains_key(k) && m.blocks[k].data == d;
            assert(k2.contains(k));
            let j = choose|j: int| 0 <= j < k2.len() && k2[j] == k;
            assert(m.blocks.contains_key(k2[j]));
            let id = legacy_id(v2[j].data).unwrap();
            assert(m2.blocks.contains_key(id) && m2.blocks[id].data == d);
        }
    }
    assert(block_data(m2.blocks) =~= block_data(m.blocks));
}

/// A want of word only, made twice, leaves what it left when made once: one entry
/// for the identifier, the same both times.
pub proof fn lemma_want_idempotent(
    m: MessageView,
    cid: ContentIdView,
    priority: Priority,
    send_dont_have: bool,
)
    ensures
        m.want(cid, priority, WantType::Have, send_dont_have).want(
            cid,
            priority,
            WantType::Have,
            send_dont_have,
        ) == m.want(cid, priority, WantType::Have, send_dont_have),
        m.want(cid, priority, WantType::Have, send_dont_have).wantlist.contains_key(cid),
{
    let once = m.want(cid, priority, WantType::Have, send_dont_have);
    let twice = once.want(cid, priority, WantType::Have, send_dont_have);
    assert(twice.wantlist =~= once.wantlist);
}

/// A want or a cancel never turns a want of the block into a want of word only, and
/// a want of the block always leaves a want of the block. The priority follows the
/// new want where that is of the entry's type, and stays where it is not.
pub proof fn lemma_upgrade_monotonic(
    m: MessageView,
    cid: ContentIdView,
    priority: Priority,
    cancel: bool,
    want_type: WantType,
    send_dont_have: bool,
)
    requires
        m.wantlist.contains_key(cid),
    ensures
        ({
            let before = m.wantlist[cid];
            let after = m.upsert(cid, priority, cancel, want_type, send_dont_have).wantlist[cid];
            &&& before.want_type == WantType::Block ==> after.want_type == WantType::Block
            &&& want_type == WantType::Block ==> after.want_type == WantType::Block
            &&& after.priority == if before.want_type == want_type {
                priority
            } else {
                before.priority
            }
            &&& before.send_dont_have || send_dont_have <==> after.send_dont_have
            &&& after.cid == before.cid
        }),
{
}

/// Once an entry is cancelled it stays cancelled, whatever is wanted of its
/// identifier afterwards; and a cancel leaves a cancelled entry.
pub proof fn lemma_cancel_latch(
    m: MessageView,
    cid: ContentIdView,
    priority: Priority,
    cancel: bool,
    want_type: WantType,
    send_dont_have: bool,
)
    ensures
        m.wantlist.contains_key(cid) && m.wantlist[cid].cancel ==> m.upsert(
            cid,
            priority,
            cancel,
            want_type,
            send_dont_have,
        ).wantlist[cid].cancel,
        m.cancel(cid).wantlist[cid].cancel,
        m.cancel(cid).want(cid, priority, want_type, send_dont_have).wantlist[cid].cancel,
{
}

/// A block takes the place of a presence for its identifier, and a presence is not
/// taken where the identifier has a block.
pub proof fn lemma_block_excludes_presence(
    m: MessageView,
    block: BlockView,
    typ: BlockPresenceType,
)
    ensures
        !m.add_block_presence(block.cid, typ).add_block(block).presences.contains_key(block.cid),
        m.add_block_presence(block.cid, typ).add_block(block).blocks.contains_key(block.cid),
        m.add_block(block).add_block_presence(block.cid, typ) == m.add_block(block),
{
}

/// A wire message is turned down as a whole, with `InvalidIdentifier`, where the
/// identifier bytes of one of its wantlist entries read as no identifier and all
/// entries before that one can be read.
pub proof fn lemma_invalid_entry_rejected(w: WireMessage, i: int)
    requires
        w.wantlist is Some,
        0 <= i < w.wantlist.unwrap().entries.len(),
    ensures
        ({
            let entries = w.wantlist.unwrap().entries;
            cid_from_bytes(entries[i].block) is None && (forall|j: int|
                0 <= j < i ==> cid_from_bytes((#[trigger] entries[j]).block) is Some
                    && WantType::from_code(entries[j].want_type) is Some)
                ==> MessageView::from_wire(w) == Err::<MessageView, Error>(
                Error::InvalidIdentifier,
            )
        }),
{
    let entries = w.wantlist.unwrap().entries;
    if cid_from_bytes(entries[i].block) is None && (forall|j: int|
        0 <= j < i ==> cid_from_bytes((#[trigger] entries[j]).block) is Some
            && WantType::from_code(entries[j].want_type) is Some) {
        assert(entries.skip(0) =~= entries);
        lemma_rejected_from(MessageView::empty(w.wantlist.unwrap().full), entries, i, 0);
    }
}

proof fn lemma_rejected_from(acc: MessageView, entries: Seq<WireEntry>, i: int, from: int)
    requires
        0 <= from <= i < entries.len(),
        cid_from_bytes(entries[i].block) is None,
        forall|j: int|
            0 <= j < i ==> cid_from_bytes((#[trigger] entries[j]).block) is Some
                && WantType::from_code(entries[j].want_type) is Some,
    ensures
        acc.add_wire_entries(entries.skip(from)) == Err::<MessageView, Error>(
            Error::InvalidIdentifier,
        ),
    decreases i - from,
{
    let rest = entries.skip(from);
    assert(rest[0] == entries[from]);
    if from < i {
        let next = acc.add_wire_entry(rest[0]).unwrap();
        assert(rest.skip(1) =~= entries.skip(from + 1));
        lemma_rejected_from(next, entries, i, from + 1);
    }
}

} // verus!
