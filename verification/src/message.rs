//! A message of the exchange: a wantlist, blocks, block presences, a count of pending
//! bytes and the flag that says whether the wantlist is complete.

use crate::block::{bytes_clone, bytes_len, Block, BlockView};
use crate::codec::{raw_blocks, wire_block, wire_blocks, wire_entries, wire_presences};
use crate::content_id::{
    cid_from_bytes, ContentId, ContentIdView, Prefix, Version, DAG_PB, SHA2_256,
};
use crate::laws::first_keys;
use crate::maps::{
    block_keys, block_values, blocks_clear, blocks_clone, blocks_contains_key, blocks_insert,
    blocks_is_empty, blocks_new, blocks_of, blocks_pairs, lists, presence_keys, presence_values,
    presences_clear, presences_clone, presences_insert, presences_is_empty, presences_new,
    presences_of, presences_pairs, presences_remove, want_keys, want_values, wants_clear,
    wants_clone, wants_get_mut, wants_insert, wants_is_empty, wants_new, wants_of, wants_pairs,
    wants_remove,
};
use crate::pb::{WireBlock, WireEntry, WirePresence};
use crate::size::{
    add_capped, add_len, block_lens, capped, lemma_total_end, lemma_total_start, lemma_total_step,
    map_total, presence_lens, want_lens,
};
use crate::varint::{lemma_varint_len, varint};
use crate::wire::{opt_bool_field, opt_bytes_field, opt_int_field};
use ::ahash::AHashMap;
use vstd::prelude::*;

verus! {

/// The priority of a want: a ranking hint of the requester.
pub type Priority = i32;

/// What a peer says of a block in place of sending it.
#[derive(Clone, Copy, Debug, PartialEq, Eq, Structural)]
pub enum BlockPresenceType {
    Have,
    DontHave,
}

/// What a requester asks for: the block itself, or only word of whether the peer has it.
#[derive(Clone, Copy, Debug, PartialEq, Eq, Structural)]
pub enum WantType {
    Block,
    Have,
}

/// What a wantlist entry is, as mathematical values.
pub struct EntryView {
    pub cid: ContentIdView,
    pub priority: Priority,
    pub want_type: WantType,
    pub cancel: bool,
    pub send_dont_have: bool,
}

/// One entry of a wantlist: what the peer wants of one identifier.
#[derive(Debug, PartialEq, Eq)]
pub struct Entry {
    pub cid: ContentId,
    pub priority: Priority,
    pub want_type: WantType,
    pub cancel: bool,
    pub send_dont_have: bool,
}

impl View for Entry {
    type V = EntryView;

    open spec fn view(&self) -> EntryView {
        EntryView {
            cid: self.cid@,
            priority: self.priority,
            want_type: self.want_type,
            cancel: self.cancel,
            send_dont_have: self.send_dont_have,
        }
    }
}

impl Clone for Entry {
    fn clone(&self) -> (r: Self)
        ensures
            r@ == self@,
            self@.cid.wf(),
    {
        Entry {
            cid: self.cid.clone(),
            priority: self.priority,
            want_type: self.want_type,
            cancel: self.cancel,
            send_dont_have: self.send_dont_have,
        }
    }
}



impl WantType {
    /// The number that stands for the want type on the wire.
    pub open spec fn code(self) -> i32 {
        match self {
            WantType::Block => 0,
            WantType::Have => 1,
        }
    }

    /// The want type that a number stands for on the wire.
    pub open spec fn from_code(code: i32) -> Option<WantType> {
        if code == 0 {
            Some(WantType::Block)
        } else if code == 1 {
            Some(WantType::Have)
        } else {
            None
        }
    }

    /// The number that stands for the want type on the wire.
    pub fn to_i32(self) -> (code: i32)
        ensures
            code == self.code(),
    {
        match self {
            WantType::Block => 0,
            WantType::Have => 1,
        }
    }

    /// The want type that `code` stands for, where it stands for one.
    pub fn try_from_i32(code: i32) -> (r: Option<WantType>)
        ensures
            r == WantType::from_code(code),
    {
        if code == 0 {
            Some(WantType::Block)
        } else if code == 1 {
            Some(WantType::Have)
        } else {
            None
        }
    }
}

impl BlockPresenceType {
    /// The number that stands for the presence kind on the wire.
    pub open spec fn code(self) -> i32 {
        match self {
            BlockPresenceType::Have => 0,
            BlockPresenceType::DontHave => 1,
        }
    }

    /// The presence kind that a number stands for on the wire.
    pub open spec fn from_code(code: i32) -> Option<BlockPresenceType> {
        if code == 0 {
            Some(BlockPresenceType::Have)
        } else if code == 1 {
            Some(BlockPresenceType::DontHave)
        } else {
            None
        }
    }

    /// The number that stands for the presence kind on the wire.
    pub fn to_i32(self) -> (code: i32)
        ensures
            code == self.code(),
    {
        match self {
            BlockPresenceType::Have => 0,
            BlockPresenceType::DontHave => 1,
        }
    }

    /// The presence kind that `code` stands for, where it stands for one.
    pub fn try_from_i32(code: i32) -> (r: Option<BlockPresenceType>)
        ensures
            r == BlockPresenceType::from_code(code),
    {
        if code == 0 {
            Some(BlockPresenceType::Have)
        } else if code == 1 {
            Some(BlockPresenceType::DontHave)
        } else {
            None
        }
    }
}

impl EntryView {
    /// The entry after one more want or cancel for its identifier. The priority
    /// follows a want of the entry's own type only; cancel and the wish for a
    /// negative answer, once set, stay set; a want of the block itself replaces a
    /// want of word only, never the other way round.
    pub open spec fn merge(
        self,
        priority: Priority,
        cancel: bool,
        want_type: WantType,
        send_dont_have: bool,
    ) -> EntryView {
        EntryView {
            cid: self.cid,
            priority: if self.want_type == want_type {
                priority
            } else {
                self.priority
            },
            want_type: if want_type == WantType::Block {
                WantType::Block
            } else {
                self.want_type
            },
            cancel: self.cancel || cancel,
            send_dont_have: self.send_dont_have || send_dont_have,
        }
    }

    /// The entry as it stands on the wire.
    pub open spec fn wire(self) -> WireEntry {
        WireEntry {
            block: self.cid.bytes(),
            priority: self.priority,
            cancel: self.cancel,
            want_type: self.want_type.code(),
            send_dont_have: self.send_dont_have,
        }
    }

    /// The number of bytes that the entry takes on the wire.
    pub open spec fn encoded_len(self) -> nat {
        self.wire().bytes().len()
    }
}

impl Entry {
    /// The entry as it stands on the wire. Its identifier bytes read back as the
    /// entry's identifier.
    pub fn to_proto(&self) -> (e: crate::pb::Entry)
        ensures
            e@ == self@.wire(),
            cid_from_bytes(e@.block) == Some(self@.cid),
            self@.cid.wf(),
    {
        crate::pb::Entry {
            block: self.cid.to_bytes(),
            priority: self.priority,
            cancel: self.cancel,
            want_type: self.want_type.to_i32(),
            send_dont_have: self.send_dont_have,
        }
    }

    /// The number of bytes that the entry takes on the wire.
    pub fn encoded_len(&self) -> (n: usize)
        ensures
            n == self@.encoded_len(),
    {
        self.to_proto().encode().len()
    }
}

/// What a block presence is, as mathematical values.
pub struct BlockPresenceView {
    pub cid: ContentIdView,
    pub typ: BlockPresenceType,
}

impl BlockPresenceView {
    /// The presence as it stands on the wire.
    pub open spec fn wire(self) -> WirePresence {
        WirePresence { cid: self.cid.bytes(), kind: self.typ.code() }
    }

    /// The number of bytes that the presence takes on the wire.
    pub open spec fn encoded_len(self) -> nat {
        self.wire().bytes().len()
    }
}

/// Word of one identifier: that the peer has its block, or that it has not.
#[derive(Debug, PartialEq, Eq)]
pub struct BlockPresence {
    pub cid: ContentId,
    pub typ: BlockPresenceType,
}

impl View for BlockPresence {
    type V = BlockPresenceView;

    open spec fn view(&self) -> BlockPresenceView {
        BlockPresenceView { cid: self.cid@, typ: self.typ }
    }
}

impl Clone for BlockPresence {
    fn clone(&self) -> (r: Self)
        ensures
            r@ == self@,
    {
        BlockPresence { cid: self.cid.clone(), typ: self.typ }
    }
}

impl BlockPresence {
    /// The presence as it stands on the wire. Its identifier bytes read back as the
    /// presence's identifier.
    pub fn to_proto(&self) -> (p: crate::pb::BlockPresence)
        ensures
            p@ == self@.wire(),
            cid_from_bytes(p@.cid) == Some(self@.cid),
            self@.cid.wf(),
    {
        crate::pb::BlockPresence { cid: self.cid.to_bytes(), kind: self.typ.to_i32() }
    }

    /// The number of bytes that the presence takes on the wire.
    pub fn encoded_len(&self) -> (n: usize)
        ensures
            n == self@.encoded_len(),
    {
        self.to_proto().encode().len()
    }

    /// The number of bytes that a presence of kind `Have` takes on the wire for `cid`.
    pub fn encoded_len_for_cid(cid: ContentId) -> (n: usize)
        ensures
            n == (BlockPresenceView { cid: cid@, typ: BlockPresenceType::Have }).encoded_len(),
    {
        let presence = BlockPresence { cid, typ: BlockPresenceType::Have };
        presence.encoded_len()
    }
}

/// What a message is, as mathematical values: three keyed collections, the flag of
/// a complete wantlist, and the count of pending bytes.
pub struct MessageView {
    pub full: bool,
    pub wantlist: Map<ContentIdView, EntryView>,
    pub blocks: Map<ContentIdView, BlockView>,
    pub presences: Map<ContentIdView, BlockPresenceType>,
    pub pending_bytes: i32,
}

impl MessageView {
    /// A message with nothing in it.
    pub open spec fn empty(full: bool) -> MessageView {
        MessageView {
            full,
            wantlist: Map::empty(),
            blocks: Map::empty(),
            presences: Map::empty(),
            pending_bytes: 0,
        }
    }

    /// What holds of every message: each entry and each block stands under its own
    /// identifier, every identifier is valid, and no identifier has both a block and
    /// a presence.
    pub open spec fn wf(self) -> bool {
        &&& forall|k: ContentIdView| #[trigger]
            self.wantlist.contains_key(k) ==> self.wantlist[k].cid == k && k.wf()
        &&& forall|k: ContentIdView| #[trigger]
            self.blocks.contains_key(k) ==> self.blocks[k].cid == k && k.wf()
        &&& forall|k: ContentIdView| #[trigger]
            self.presences.contains_key(k) ==> k.wf() && !self.blocks.contains_key(k)
    }

    /// Whether the message holds no entry, no block and no presence; the count of
    /// pending bytes is not looked at.
    pub open spec fn is_empty(self) -> bool {
        &&& self.wantlist.dom() == Set::<ContentIdView>::empty()
        &&& self.blocks.dom() == Set::<ContentIdView>::empty()
        &&& self.presences.dom() == Set::<ContentIdView>::empty()
    }

    /// The message after a want or a cancel: a first one for an identifier makes its
    /// entry as given; a later one is merged into the entry that is there.
    pub open spec fn upsert(
        self,
        cid: ContentIdView,
        priority: Priority,
        cancel: bool,
        want_type: WantType,
        send_dont_have: bool,
    ) -> MessageView {
        let entry = if self.wantlist.contains_key(cid) {
            self.wantlist[cid].merge(priority, cancel, want_type, send_dont_have)
        } else {
            EntryView { cid, priority, want_type, cancel, send_dont_have }
        };
        MessageView { wantlist: self.wantlist.insert(cid, entry), ..self }
    }

    /// The bytes that a want or a cancel adds to the wire form: those of the new
    /// entry, or none where the identifier had an entry.
    pub open spec fn upsert_cost(
        self,
        cid: ContentIdView,
        priority: Priority,
        cancel: bool,
        want_type: WantType,
        send_dont_have: bool,
    ) -> nat {
        if self.wantlist.contains_key(cid) {
            0
        } else {
            (EntryView { cid, priority, want_type, cancel, send_dont_have }).encoded_len()
        }
    }

    /// The message after a want.
    pub open spec fn want(
        self,
        cid: ContentIdView,
        priority: Priority,
        want_type: WantType,
        send_dont_have: bool,
    ) -> MessageView {
        self.upsert(cid, priority, false, want_type, send_dont_have)
    }

    /// The message after a cancel.
    pub open spec fn cancel(self, cid: ContentIdView) -> MessageView {
        self.upsert(cid, 0, true, WantType::Block, false)
    }

    /// The message without the entry of `cid`.
    pub open spec fn remove(self, cid: ContentIdView) -> MessageView {
        MessageView { wantlist: self.wantlist.remove(cid), ..self }
    }

    /// The message after a block was added: the block stands under its identifier,
    /// and a presence for that identifier is gone.
    pub open spec fn add_block(self, block: BlockView) -> MessageView {
        MessageView {
            blocks: self.blocks.insert(block.cid, block),
            presences: self.presences.remove(block.cid),
            ..self
        }
    }

    /// The message after a presence was added: nothing changes where the identifier
    /// has a block.
    pub open spec fn add_block_presence(
        self,
        cid: ContentIdView,
        typ: BlockPresenceType,
    ) -> MessageView {
        if self.blocks.contains_key(cid) {
            self
        } else {
            MessageView { presences: self.presences.insert(cid, typ), ..self }
        }
    }
}

impl MessageView {
    /// A want or a cancel keeps a message valid.
    pub proof fn lemma_upsert_wf(
        self,
        cid: ContentIdView,
        priority: Priority,
        cancel: bool,
        want_type: WantType,
        send_dont_have: bool,
    )
        requires
            self.wf(),
            cid.wf(),
        ensures
            self.upsert(cid, priority, cancel, want_type, send_dont_have).wf(),
    {
        let after = self.upsert(cid, priority, cancel, want_type, send_dont_have);
        assert forall|k: ContentIdView| #[trigger] after.wantlist.contains_key(k) implies after.wantlist[k].cid
            == k && k.wf() by {
            if k != cid {
                assert(self.wantlist.contains_key(k));
            } else if self.wantlist.contains_key(cid) {
            }
        }
    }

    /// Taking an entry out keeps a message valid.
    pub proof fn lemma_remove_wf(self, cid: ContentIdView)
        requires
            self.wf(),
        ensures
            self.remove(cid).wf(),
    {
        let after = self.remove(cid);
        assert forall|k: ContentIdView| #[trigger] after.wantlist.contains_key(k) implies after.wantlist[k].cid
            == k && k.wf() by {
            assert(self.wantlist.contains_key(k));
        }
    }

    /// Adding a block keeps a message valid: no identifier has both a block and a
    /// presence afterwards either.
    pub proof fn lemma_add_block_wf(self, block: BlockView)
        requires
            self.wf(),
            block.cid.wf(),
        ensures
            self.add_block(block).wf(),
    {
        let after = self.add_block(block);
        assert forall|k: ContentIdView| #[trigger] after.blocks.contains_key(k) implies after.blocks[k].cid
            == k && k.wf() by {
            if k != block.cid {
                assert(self.blocks.contains_key(k));
            }
        }
        assert forall|k: ContentIdView| #[trigger] after.presences.contains_key(k) implies k.wf()
            && !after.blocks.contains_key(k) by {
            assert(self.presences.contains_key(k));
        }
    }

    /// Adding a presence keeps a message valid: no identifier has both a block and a
    /// presence afterwards either.
    pub proof fn lemma_add_block_presence_wf(self, cid: ContentIdView, typ: BlockPresenceType)
        requires
            self.wf(),
            cid.wf(),
        ensures
            self.add_block_presence(cid, typ).wf(),
    {
        let after = self.add_block_presence(cid, typ);
        assert forall|k: ContentIdView| #[trigger] after.presences.contains_key(k) implies k.wf()
            && !after.blocks.contains_key(k) by {
            if k != cid {
                assert(self.presences.contains_key(k));
            }
        }
    }
}

/// A message of the exchange.
#[derive(Debug, PartialEq, Eq)]
pub struct BitswapMessage {
    full: bool,
    wantlist: AHashMap<ContentId, Entry>,
    blocks: AHashMap<ContentId, Block>,
    block_presences: AHashMap<ContentId, BlockPresenceType>,
    pending_bytes: i32,
}

impl View for BitswapMessage {
    type V = MessageView;

    closed spec fn view(&self) -> MessageView {
        MessageView {
            full: self.full,
            wantlist: wants_of(self.wantlist),
            blocks: blocks_of(self.blocks),
            presences: presences_of(self.block_presences),
            pending_bytes: self.pending_bytes,
        }
    }
}

impl Clone for BitswapMessage {
    fn clone(&self) -> (m: BitswapMessage)
        ensures
            m@ == self@,
    {
        BitswapMessage {
            full: self.full,
            wantlist: wants_clone(&self.wantlist),
            blocks: blocks_clone(&self.blocks),
            block_presences: presences_clone(&self.block_presences),
            pending_bytes: self.pending_bytes,
        }
    }
}

impl Default for BitswapMessage {
    fn default() -> (m: BitswapMessage)
        ensures
            m@ == MessageView::empty(false),
            m@.wf(),
    {
        BitswapMessage::new(false)
    }
}

impl BitswapMessage {
    /// A message with nothing in it.
    pub fn new(full: bool) -> (m: BitswapMessage)
        ensures
            m@ == MessageView::empty(full),
            m@.wf(),
    {
        let m = BitswapMessage {
            full,
            wantlist: wants_new(),
            blocks: blocks_new(),
            block_presences: presences_new(),
            pending_bytes: 0,
        };
        assert(m@.wantlist =~= Map::empty());
        assert(m@.blocks =~= Map::empty());
        assert(m@.presences =~= Map::empty());
        m
    }

    /// Empties the message, to be used again.
    pub fn clear(&mut self, full: bool)
        ensures
            final(self)@ == MessageView::empty(full),
            old(self)@.wf() ==> final(self)@.wf(),
    {
        self.full = full;
        wants_clear(&mut self.wantlist);
        blocks_clear(&mut self.blocks);
        presences_clear(&mut self.block_presences);
        self.pending_bytes = 0;
        assert(self@.wantlist =~= Map::empty());
        assert(self@.blocks =~= Map::empty());
        assert(self@.presences =~= Map::empty());
    }

    /// Whether the wantlist is complete.
    pub fn full(&self) -> (b: bool)
        ensures
            b == self@.full,
    {
        self.full
    }

    /// Whether the message holds no entry, no block and no presence.
    pub fn is_empty(&self) -> (b: bool)
        ensures
            b == self@.is_empty(),
    {
        blocks_is_empty(&self.blocks) && wants_is_empty(&self.wantlist) && presences_is_empty(
            &self.block_presences,
        )
    }

    /// The count of bytes that wait for later messages.
    pub fn pending_bytes(&self) -> (n: i32)
        ensures
            n == self@.pending_bytes,
    {
        self.pending_bytes
    }

    /// Sets the count of bytes that wait for later messages.
    pub fn set_pending_bytes(&mut self, bytes: i32)
        ensures
            final(self)@ == (MessageView { pending_bytes: bytes, ..old(self)@ }),
            old(self)@.wf() ==> final(self)@.wf(),
    {
        self.pending_bytes = bytes;
    }

    /// Takes the entry of `cid` out of the wantlist.
    pub fn remove(&mut self, cid: &ContentId)
        ensures
            final(self)@ == old(self)@.remove(cid@),
            old(self)@.wf() ==> final(self)@.wf(),
    {
        proof {
            if self@.wf() {
                self@.lemma_remove_wf(cid@);
            }
        }
        wants_remove(&mut self.wantlist, cid);
    }

    /// Withdraws the want of `cid`: its entry is marked as cancelled.
    pub fn cancel(&mut self, cid: ContentId)
        ensures
            final(self)@ == old(self)@.cancel(cid@),
            old(self)@.wf() ==> final(self)@.wf(),
    {
        self.add_full_entry(cid, 0, true, WantType::Block, false);
    }

    /// Wants `cid`.
    pub fn add_entry(
        &mut self,
        cid: ContentId,
        priority: Priority,
        want_type: WantType,
        send_dont_have: bool,
    )
        ensures
            final(self)@ == old(self)@.want(cid@, priority, want_type, send_dont_have),
            old(self)@.wf() ==> final(self)@.wf(),
    {
        self.add_full_entry(cid, priority, false, want_type, send_dont_have);
    }

    /// Makes or merges the entry of `cid`; gives the bytes that this adds to the wire
    /// form of the message.
    pub fn add_full_entry(
        &mut self,
        cid: ContentId,
        priority: Priority,
        cancel: bool,
        want_type: WantType,
        send_dont_have: bool,
    ) -> (size: usize)
        ensures
            final(self)@ == old(self)@.upsert(cid@, priority, cancel, want_type, send_dont_have),
            size == old(self)@.upsert_cost(cid@, priority, cancel, want_type, send_dont_have),
            old(self)@.wf() ==> final(self)@.wf(),
    {
        cid.note_valid();
        proof {
            if self@.wf() {
                self@.lemma_upsert_wf(cid@, priority, cancel, want_type, send_dont_have);
            }
        }
        match wants_get_mut(&mut self.wantlist, &cid) {
            Some(entry) => {
                // only a want of the same type changes the priority
                if entry.want_type == want_type {
                    entry.priority = priority;
                }
                // cancel is set, never taken back
                if cancel {
                    entry.cancel = cancel;
                }
                // the wish for a negative answer is set, never taken back
                if send_dont_have {
                    entry.send_dont_have = send_dont_have;
                }
                // a want of the block replaces a want of word only
                if want_type == WantType::Block && entry.want_type == WantType::Have {
                    entry.want_type = want_type;
                }
                return 0;
            },
            None => {},
        }
        let key = cid.clone();
        let entry = Entry { cid, priority, want_type, send_dont_have, cancel };
        let size = entry.encoded_len();
        wants_insert(&mut self.wantlist, key, entry);
        size
    }

    /// Adds a block, in place of a presence for its identifier.
    pub fn add_block(&mut self, block: Block)
        ensures
            final(self)@ == old(self)@.add_block(block@),
            old(self)@.wf() ==> final(self)@.wf(),
    {
        let key = block.cid().clone();
        proof {
            if self@.wf() {
                self@.lemma_add_block_wf(block@);
            }
        }
        presences_remove(&mut self.block_presences, &key);
        blocks_insert(&mut self.blocks, key, block);
    }

    /// Adds a presence, unless the identifier has a block.
    pub fn add_block_presence(&mut self, cid: ContentId, typ: BlockPresenceType)
        ensures
            final(self)@ == old(self)@.add_block_presence(cid@, typ),
            old(self)@.wf() ==> final(self)@.wf(),
    {
        cid.note_valid();
        proof {
            if self@.wf() {
                self@.lemma_add_block_presence_wf(cid@, typ);
            }
        }
        if blocks_contains_key(&self.blocks, &cid) {
            return ;
        }
        presences_insert(&mut self.block_presences, cid, typ);
    }

    /// Says that the peer has the block of `cid`.
    pub fn add_have(&mut self, cid: ContentId)
        ensures
            final(self)@ == old(self)@.add_block_presence(cid@, BlockPresenceType::Have),
            old(self)@.wf() ==> final(self)@.wf(),
    {
        self.add_block_presence(cid, BlockPresenceType::Have);
    }

    /// Says that the peer does not have the block of `cid`.
    pub fn add_dont_have(&mut self, cid: ContentId)
        ensures
            final(self)@ == old(self)@.add_block_presence(cid@, BlockPresenceType::DontHave),
            old(self)@.wf() ==> final(self)@.wf(),
    {
        self.add_block_presence(cid, BlockPresenceType::DontHave);
    }

    /// The wantlist as it stands on the wire: its entries, each once, in an order of
    /// the map's choosing, and the flag. The identifier bytes of every entry read
    /// back as the entry's identifier.
    pub(crate) fn wire_wantlist(&self) -> (w: crate::pb::Wantlist)
        ensures
            w@.full == self@.full,
            self@.wantlist_listed(w@.entries),
            forall|k: ContentIdView| #[trigger]
                self@.wantlist.contains_key(k) ==> cid_from_bytes(self@.wantlist[k].cid.bytes())
                    == Some(self@.wantlist[k].cid),
    {
        let mut wantlist = crate::pb::Wantlist::new();
        let pairs = wants_pairs(&self.wantlist);
        let ghost keys = want_keys(pairs@);
        let ghost values = want_values(pairs@);
        let mut i: usize = 0;
        while i < pairs.len()
            invariant
                i <= pairs@.len(),
                keys == want_keys(pairs@),
                values == want_values(pairs@),
                !wantlist.full,
                wantlist@.entries == wire_entries(values.take(i as int)),
                forall|j: int|
                    0 <= j < i ==> cid_from_bytes((#[trigger] values[j]).cid.bytes()) == Some(
                        values[j].cid,
                    ),
            decreases pairs@.len() - i,
        {
            let ghost before = wantlist@.entries;
            let entry = pairs[i].1.to_proto();
            wantlist.entries.push(entry);
            proof {
                assert(values[i as int] == pairs@[i as int].1@);
                assert(wantlist@.entries =~= before.push(values[i as int].wire()));
                assert(wire_entries(values.take(i + 1)) =~= wire_entries(
                    values.take(i as int),
                ).push(values[i as int].wire()));
            }
            i = i + 1;
        }
        wantlist.full = self.full;
        proof {
            assert(values.take(i as int) =~= values);
            assert(lists(keys, values, self@.wantlist));
            assert forall|k: ContentIdView| #[trigger]
                self@.wantlist.contains_key(k) implies cid_from_bytes(
                self@.wantlist[k].cid.bytes(),
            ) == Some(self@.wantlist[k].cid) by {
                assert(keys.contains(k));
                let j = choose|j: int| 0 <= j < keys.len() && keys[j] == k;
                assert(self@.wantlist.contains_key(keys[j]));
                assert(values[j] == self@.wantlist[k]);
            }
        }
        wantlist
    }

    /// The wire form of the message in the first protocol version: the wantlist and
    /// the raw data of the blocks. Presences and pending bytes have no place in it.
    /// The identifier bytes of its entries read back as the entries' identifiers.
    pub fn encode_as_proto_v0(&self) -> (message: crate::pb::Message)
        ensures
            self@.encodes_v0(message@),
            self@.reads_back_wants(),
    {
        let mut message = crate::pb::Message::default();
        message.wantlist = Some(self.wire_wantlist());
        let pairs = blocks_pairs(&self.blocks);
        let ghost keys = block_keys(pairs@);
        let ghost values = block_values(pairs@);
        let mut i: usize = 0;
        while i < pairs.len()
            invariant
                i <= pairs@.len(),
                values == block_values(pairs@),
                message@.blocks == raw_blocks(values.take(i as int)),
                message@.payload == Seq::<WireBlock>::empty(),
                message@.block_presences == Seq::<WirePresence>::empty(),
                message@.pending_bytes == 0,
                message@.wantlist matches Some(wl) && wl.full == self@.full
                    && self@.wantlist_listed(wl.entries),
            decreases pairs@.len() - i,
        {
            let ghost before = message@.blocks;
            let data = bytes_clone(pairs[i].1.data());
            message.blocks.push(data);
            proof {
                assert(values[i as int] == pairs@[i as int].1@);
                assert(message@.blocks =~= before.push(values[i as int].data));
                assert(raw_blocks(values.take(i + 1)) =~= raw_blocks(values.take(i as int)).push(
                    values[i as int].data,
                ));
            }
            i = i + 1;
        }
        proof {
            assert(values.take(i as int) =~= values);
            assert(lists(keys, values, self@.blocks));
        }
        message
    }

    /// The wire form of the message in the current protocol version: the wantlist,
    /// the blocks as payload blocks, the presences and the pending bytes. The
    /// identifier bytes of its entries and presences read back as their identifiers.
    #[verifier::rlimit(50)]
    pub fn encode_as_proto_v1(&self) -> (message: crate::pb::Message)
        ensures
            self@.encodes_v1(message@),
            self@.reads_back_wants(),
            self@.reads_back_presences(),
    {
        let mut message = crate::pb::Message::default();
        message.wantlist = Some(self.wire_wantlist());
        let pairs = blocks_pairs(&self.blocks);
        let ghost keys = block_keys(pairs@);
        let ghost values = block_values(pairs@);
        let mut i: usize = 0;
        while i < pairs.len()
            invariant
                i <= pairs@.len(),
                values == block_values(pairs@),
                message@.blocks == Seq::<Seq<u8>>::empty(),
                message@.payload == wire_blocks(values.take(i as int)),
                message@.block_presences == Seq::<WirePresence>::empty(),
                message@.pending_bytes == 0,
                message@.wantlist matches Some(wl) && wl.full == self@.full
                    && self@.wantlist_listed(wl.entries),
            decreases pairs@.len() - i,
        {
            let ghost before = message@.payload;
            let block = pairs[i].1;
            let wire = crate::pb::Block {
                prefix: block.cid().prefix().to_bytes(),
                data: bytes_clone(block.data()),
            };
            message.payload.push(wire);
            proof {
                assert(values[i as int] == pairs@[i as int].1@);
                assert(message@.payload =~= before.push(wire_block(values[i as int])));
                assert(wire_blocks(values.take(i + 1)) =~= wire_blocks(
                    values.take(i as int),
                ).push(wire_block(values[i as int])));
            }
            i = i + 1;
        }
        proof {
            assert(values.take(i as int) =~= values);
            assert(lists(keys, values, self@.blocks));
        }
        let pairs = presences_pairs(&self.block_presences);
        let ghost keys = presence_keys(pairs@);
        let ghost kinds = presence_values(pairs@);
        let mut i: usize = 0;
        while i < pairs.len()
            invariant
                i <= pairs@.len(),
                keys == presence_keys(pairs@),
                kinds == presence_values(pairs@),
                message@.blocks == Seq::<Seq<u8>>::empty(),
                self@.blocks_listed(message@.payload),
                message@.block_presences == wire_presences(
                    keys.take(i as int),
                    kinds.take(i as int),
                ),
                message@.pending_bytes == 0,
                message@.wantlist matches Some(wl) && wl.full == self@.full
                    && self@.wantlist_listed(wl.entries),
                forall|j: int|
                    0 <= j < i ==> cid_from_bytes((#[trigger] keys[j]).bytes()) == Some(keys[j]),
            decreases pairs@.len() - i,
        {
            let ghost before = message@.block_presences;
            let wire = crate::pb::BlockPresence {
                cid: pairs[i].0.to_bytes(),
                kind: pairs[i].1.to_i32(),
            };
            message.block_presences.push(wire);
            proof {
                assert(keys[i as int] == pairs@[i as int].0@);
                assert(kinds[i as int] == *pairs@[i as int].1);
                assert(message@.block_presences =~= before.push(wire@));
                assert(wire_presences(keys.take(i + 1), kinds.take(i + 1)) =~= wire_presences(
                    keys.take(i as int),
                    kinds.take(i as int),
                ).push(wire@));
            }
            i = i + 1;
        }
        proof {
            assert(keys.take(i as int) =~= keys);
            assert(kinds.take(i as int) =~= kinds);
            assert(lists(keys, kinds, self@.presences));
            assert forall|k: ContentIdView| #[trigger]
                self@.presences.contains_key(k) implies cid_from_bytes(k.bytes()) == Some(k) by {
                assert(keys.contains(k));
            }
        }
        message.pending_bytes = self.pending_bytes;
        message
    }

    /// The identifiers of the presences of kind `typ`, each once.
    #[verifier::rlimit(50)]
    fn get_block_presence_by_type(&self, typ: BlockPresenceType) -> (r: Vec<&ContentId>)
        ensures
            ids_of(r@).no_duplicates(),
            forall|k: ContentIdView|
                #![trigger ids_of(r@).contains(k)]
                #![trigger self@.presences.contains_key(k)]
                ids_of(r@).contains(k) <==> self@.presences.contains_key(k)
                    && self@.presences[k] == typ,
    {
        let pairs = presences_pairs(&self.block_presences);
        let ghost keys = presence_keys(pairs@);
        let ghost kinds = presence_values(pairs@);
        let mut out: Vec<&ContentId> = Vec::new();
        let mut i: usize = 0;
        while i < pairs.len()
            invariant
                i <= pairs@.len(),
                keys == presence_keys(pairs@),
                kinds == presence_values(pairs@),
                lists(keys, kinds, self@.presences),
                ids_of(out@).no_duplicates(),
                forall|k: ContentIdView|
                    ids_of(out@).contains(k) <==> exists|j: int|
                        0 <= j < i && #[trigger] keys[j] == k && kinds[j] == typ,
            decreases pairs@.len() - i,
        {
            let ghost before = ids_of(out@);
            if *pairs[i].1 == typ {
                out.push(pairs[i].0);
                proof {
                    assert(ids_of(out@) =~= before.push(keys[i as int]));
                    if before.contains(keys[i as int]) {
                        let j = choose|j: int|
                            0 <= j < i && #[trigger] keys[j] == keys[i as int] && kinds[j] == typ;
                        assert(false);
                    }
                    assert forall|k: ContentIdView|
                        ids_of(out@).contains(k) <==> exists|j: int|
                            0 <= j < i + 1 && #[trigger] keys[j] == k && kinds[j] == typ by {
                        if ids_of(out@).contains(k) {
                            let n = choose|n: int| 0 <= n < ids_of(out@).len() && ids_of(out@)[n] == k;
                            if n < before.len() {
                                assert(before[n] == k);
                                assert(before.contains(k));
                                let j = choose|j: int|
                                    0 <= j < i && #[trigger] keys[j] == k && kinds[j] == typ;
                                assert(0 <= j < i + 1 && keys[j] == k && kinds[j] == typ);
                            } else {
                                assert(keys[i as int] == k && kinds[i as int] == typ);
                            }
                        }
                        if exists|j: int| 0 <= j < i + 1 && #[trigger] keys[j] == k && kinds[j] == typ {
                            let j = choose|j: int|
                                0 <= j < i + 1 && #[trigger] keys[j] == k && kinds[j] == typ;
                            if j < i {
                                assert(before.contains(k));
                                let n = choose|n: int| 0 <= n < before.len() && before[n] == k;
                                assert(ids_of(out@)[n] == k);
                            } else {
                                assert(ids_of(out@)[before.len() as int] == k);
                            }
                        }
                    }
                }
            } else {
                proof {
                    assert forall|k: ContentIdView|
                        ids_of(out@).contains(k) <==> exists|j: int|
                            0 <= j < i + 1 && #[trigger] keys[j] == k && kinds[j] == typ by {
                        if ids_of(out@).contains(k) {
                            let j = choose|j: int|
                                0 <= j < i && #[trigger] keys[j] == k && kinds[j] == typ;
                            assert(0 <= j < i + 1 && keys[j] == k && kinds[j] == typ);
                        }
                        if exists|j: int| 0 <= j < i + 1 && #[trigger] keys[j] == k && kinds[j] == typ {
                            let j = choose|j: int|
                                0 <= j < i + 1 && #[trigger] keys[j] == k && kinds[j] == typ;
                            assert(j < i);
                        }
                    }
                }
            }
            i = i + 1;
        }
        proof {
            assert forall|k: ContentIdView|
                #![trigger ids_of(out@).contains(k)]
                #![trigger self@.presences.contains_key(k)]
                ids_of(out@).contains(k) <==> self@.presences.contains_key(k)
                    && self@.presences[k] == typ by {
                if ids_of(out@).contains(k) {
                    let j = choose|j: int| 0 <= j < i && #[trigger] keys[j] == k && kinds[j] == typ;
                    assert(self@.presences.contains_key(keys[j]));
                }
                if self@.presences.contains_key(k) && self@.presences[k] == typ {
                    assert(keys.contains(k));
                    let j = choose|j: int| 0 <= j < keys.len() && keys[j] == k;
                    assert(self@.presences.contains_key(keys[j]));
                    assert(0 <= j < i && keys[j] == k && kinds[j] == typ);
                }
            }
        }
        out
    }

    /// The identifiers of which the message says that the peer has their blocks.
    pub fn haves(&self) -> (r: Vec<&ContentId>)
        ensures
            ids_of(r@).no_duplicates(),
            forall|k: ContentIdView|
                #![trigger ids_of(r@).contains(k)]
                #![trigger self@.presences.contains_key(k)]
                ids_of(r@).contains(k) <==> self@.presences.contains_key(k)
                    && self@.presences[k] == BlockPresenceType::Have,
    {
        self.get_block_presence_by_type(BlockPresenceType::Have)
    }

    /// The identifiers of which the message says that the peer lacks their blocks.
    pub fn dont_haves(&self) -> (r: Vec<&ContentId>)
        ensures
            ids_of(r@).no_duplicates(),
            forall|k: ContentIdView|
                #![trigger ids_of(r@).contains(k)]
                #![trigger self@.presences.contains_key(k)]
                ids_of(r@).contains(k) <==> self@.presences.contains_key(k)
                    && self@.presences[k] == BlockPresenceType::DontHave,
    {
        self.get_block_presence_by_type(BlockPresenceType::DontHave)
    }

    /// The entries of the wantlist, each once, in an order of the map's choosing.
    pub fn wantlist(&self) -> (r: Vec<&Entry>)
        ensures
            exists|keys: Seq<ContentIdView>| #[trigger] lists(keys, entries_of(r@), self@.wantlist),
            self@.wf() ==> lists(entry_ids(entries_of(r@)), entries_of(r@), self@.wantlist),
    {
        let pairs = wants_pairs(&self.wantlist);
        let mut out: Vec<&Entry> = Vec::new();
        let mut i: usize = 0;
        while i < pairs.len()
            invariant
                i <= pairs@.len(),
                entries_of(out@) == want_values(pairs@).take(i as int),
            decreases pairs@.len() - i,
        {
            let ghost before = out@;
            out.push(pairs[i].1);
            proof {
                assert(out@ == before.push(pairs@[i as int].1));
                assert(want_values(pairs@)[i as int] == pairs@[i as int].1@);
                assert(entries_of(out@) =~= entries_of(before).push(pairs@[i as int].1@));
                assert(want_values(pairs@).take(i + 1) =~= want_values(pairs@).take(i as int).push(
                    pairs@[i as int].1@,
                ));
            }
            i = i + 1;
        }
        proof {
            assert(want_values(pairs@).take(i as int) =~= want_values(pairs@));
            assert(lists(want_keys(pairs@), entries_of(out@), self@.wantlist));
            if self@.wf() {
                assert forall|j: int| 0 <= j < pairs@.len() implies want_keys(pairs@)[j]
                    == entries_of(out@)[j].cid by {
                    assert(self@.wantlist.contains_key(want_keys(pairs@)[j]));
                }
                assert(want_keys(pairs@) =~= entry_ids(entries_of(out@)));
            }
        }
        out
    }

    /// The blocks, each once, in an order of the map's choosing.
    pub fn blocks(&self) -> (r: Vec<&Block>)
        ensures
            exists|keys: Seq<ContentIdView>| #[trigger] lists(keys, blocks_in(r@), self@.blocks),
            self@.wf() ==> lists(block_ids(blocks_in(r@)), blocks_in(r@), self@.blocks),
    {
        let pairs = blocks_pairs(&self.blocks);
        let mut out: Vec<&Block> = Vec::new();
        let mut i: usize = 0;
        while i < pairs.len()
            invariant
                i <= pairs@.len(),
                blocks_in(out@) == block_values(pairs@).take(i as int),
            decreases pairs@.len() - i,
        {
            let ghost before = out@;
            out.push(pairs[i].1);
            proof {
                assert(out@ == before.push(pairs@[i as int].1));
                assert(block_values(pairs@)[i as int] == pairs@[i as int].1@);
                assert(blocks_in(out@) =~= blocks_in(before).push(pairs@[i as int].1@));
                assert(block_values(pairs@).take(i + 1) =~= block_values(pairs@).take(
                    i as int,
                ).push(pairs@[i as int].1@));
            }
            i = i + 1;
        }
        proof {
            assert(block_values(pairs@).take(i as int) =~= block_values(pairs@));
            assert(lists(block_keys(pairs@), blocks_in(out@), self@.blocks));
            if self@.wf() {
                assert forall|j: int| 0 <= j < pairs@.len() implies block_keys(pairs@)[j]
                    == blocks_in(out@)[j].cid by {
                    assert(self@.blocks.contains_key(block_keys(pairs@)[j]));
                }
                assert(block_keys(pairs@) =~= block_ids(blocks_in(out@)));
            }
        }
        out
    }

    /// The presences, each once, in an order of the map's choosing.
    pub fn block_presences(&self) -> (r: Vec<BlockPresence>)
        ensures
            lists(presence_ids(r@), presence_kinds(r@), self@.presences),
    {
        let pairs = presences_pairs(&self.block_presences);
        let mut out: Vec<BlockPresence> = Vec::new();
        let mut i: usize = 0;
        while i < pairs.len()
            invariant
                i <= pairs@.len(),
                presence_ids(out@) == presence_keys(pairs@).take(i as int),
                presence_kinds(out@) == presence_values(pairs@).take(i as int),
            decreases pairs@.len() - i,
        {
            let ghost before = out@;
            let presence = BlockPresence { cid: pairs[i].0.clone(), typ: *pairs[i].1 };
            out.push(presence);
            proof {
                assert(out@ == before.push(presence));
                assert(presence_keys(pairs@)[i as int] == presence.cid@);
                assert(presence_values(pairs@)[i as int] == presence.typ);
                assert(presence_ids(out@) =~= presence_ids(before).push(presence.cid@));
                assert(presence_kinds(out@) =~= presence_kinds(before).push(presence.typ));
                assert(presence_keys(pairs@).take(i + 1) =~= presence_keys(pairs@).take(
                    i as int,
                ).push(presence.cid@));
                assert(presence_values(pairs@).take(i + 1) =~= presence_values(pairs@).take(
                    i as int,
                ).push(presence.typ));
            }
            i = i + 1;
        }
        proof {
            assert(presence_keys(pairs@).take(i as int) =~= presence_keys(pairs@));
            assert(presence_values(pairs@).take(i as int) =~= presence_values(pairs@));
        }
        out
    }
}

/// The identifiers that a run of references names.
pub open spec fn ids_of(ids: Seq<&ContentId>) -> Seq<ContentIdView> {
    ids.map_values(|c: &ContentId| c@)
}

/// What a run of references to entries holds.
pub open spec fn entries_of(entries: Seq<&Entry>) -> Seq<EntryView> {
    entries.map_values(|e: &Entry| e@)
}

/// What a run of references to blocks holds.
pub open spec fn blocks_in(blocks: Seq<&Block>) -> Seq<BlockView> {
    blocks.map_values(|b: &Block| b@)
}

/// The identifiers of a run of entries.
pub open spec fn entry_ids(entries: Seq<EntryView>) -> Seq<ContentIdView> {
    entries.map_values(|e: EntryView| e.cid)
}

/// The identifiers of a run of blocks.
pub open spec fn block_ids(blocks: Seq<BlockView>) -> Seq<ContentIdView> {
    blocks.map_values(|b: BlockView| b.cid)
}

/// The identifiers of a run of presences.
pub open spec fn presence_ids(presences: Seq<BlockPresence>) -> Seq<ContentIdView> {
    presences.map_values(|p: BlockPresence| p.cid@)
}

/// The kinds of a run of presences.
pub open spec fn presence_kinds(presences: Seq<BlockPresence>) -> Seq<BlockPresenceType> {
    presences.map_values(|p: BlockPresence| p.typ)
}

impl BitswapMessage {
    /// The byte cost of the message, or the largest number where the cost is more
    /// than a number can hold.
    #[verifier::rlimit(50)]
    pub fn encoded_len(&self) -> (n: usize)
        ensures
            n == capped(self@.encoded_len()),
    {
        let mut total: usize = 0;
        let pairs = blocks_pairs(&self.blocks);
        let ghost keys = block_keys(pairs@);
        let ghost lens = block_lens(self@.blocks);
        proof {
            lemma_total_start::<BlockView>(keys, lens);
            assert(lens.dom() =~= self@.blocks.dom());
        }
        let mut i: usize = 0;
        while i < pairs.len()
            invariant
                i <= pairs@.len(),
                keys == block_keys(pairs@),
                lens == block_lens(self@.blocks),
                lists(keys, block_values(pairs@), self@.blocks),
                first_keys(keys, i as int).finite(),
                total == capped(first_keys(keys, i as int).fold(0nat, add_len(lens))),
            decreases pairs@.len() - i,
        {
            proof {
                lemma_total_step(keys, lens, i as int);
                assert(self@.blocks.contains_key(keys[i as int]));
                assert(block_values(pairs@)[i as int] == pairs@[i as int].1@);
            }
            total = add_capped(total, bytes_len(pairs[i].1.data()));
            i = i + 1;
        }
        proof {
            lemma_total_end(keys, block_values(pairs@), self@.blocks, lens);
        }
        let ghost base1 = map_total(lens);
        let pairs = presences_pairs(&self.block_presences);
        let ghost keys = presence_keys(pairs@);
        let ghost lens = presence_lens(self@.presences);
        proof {
            lemma_total_start::<BlockPresenceType>(keys, lens);
            assert(lens.dom() =~= self@.presences.dom());
        }
        let mut i: usize = 0;
        while i < pairs.len()
            invariant
                i <= pairs@.len(),
                keys == presence_keys(pairs@),
                lens == presence_lens(self@.presences),
                lists(keys, presence_values(pairs@), self@.presences),
                first_keys(keys, i as int).finite(),
                total == capped(base1 + first_keys(keys, i as int).fold(0nat, add_len(lens))),
            decreases pairs@.len() - i,
        {
            proof {
                lemma_total_step(keys, lens, i as int);
                assert(self@.presences.contains_key(keys[i as int]));
                assert(presence_values(pairs@)[i as int] == *pairs@[i as int].1);
                assert(keys[i as int] == pairs@[i as int].0@);
            }
            let presence = BlockPresence { cid: pairs[i].0.clone(), typ: *pairs[i].1 };
            total = add_capped(total, presence.encoded_len());
            i = i + 1;
        }
        proof {
            lemma_total_end(keys, presence_values(pairs@), self@.presences, lens);
        }
        let ghost base2 = base1 + map_total(lens);
        let pairs = wants_pairs(&self.wantlist);
        let ghost keys = want_keys(pairs@);
        let ghost lens = want_lens(self@.wantlist);
        proof {
            lemma_total_start::<EntryView>(keys, lens);
            assert(lens.dom() =~= self@.wantlist.dom());
        }
        let mut i: usize = 0;
        while i < pairs.len()
            invariant
                i <= pairs@.len(),
                keys == want_keys(pairs@),
                lens == want_lens(self@.wantlist),
                lists(keys, want_values(pairs@), self@.wantlist),
                first_keys(keys, i as int).finite(),
                total == capped(base2 + first_keys(keys, i as int).fold(0nat, add_len(lens))),
            decreases pairs@.len() - i,
        {
            proof {
                lemma_total_step(keys, lens, i as int);
                assert(self@.wantlist.contains_key(keys[i as int]));
                assert(want_values(pairs@)[i as int] == pairs@[i as int].1@);
            }
            total = add_capped(total, pairs[i].1.encoded_len());
            i = i + 1;
        }
        proof {
            lemma_total_end(keys, want_values(pairs@), self@.wantlist, lens);
        }
        total
    }
}

/// The bytes that the largest entry for an identifier of version 0 takes on the wire.
/// It is found by measuring such an entry.
pub fn max_entry_size() -> (n: usize)
    ensures
        n == 48,
{
    let prefix = Prefix { version: Version::V0, codec: DAG_PB, mh_type: SHA2_256, mh_len: 32 };
    let mut name: Vec<u8> = Vec::new();
    name.push(0x63);
    name.push(0x69);
    name.push(0x64);
    match prefix.to_cid(name.as_slice()) {
        Ok(cid) => {
            let entry = Entry {
                cid,
                priority: i32::MAX,
                want_type: WantType::Have,
                send_dont_have: true,
                cancel: true,
            };
            proof {
                let e = entry@.wire();
                reveal_with_fuel(varint, 6);
                lemma_varint_len(0x12);
                lemma_varint_len(32);
                lemma_varint_len(34);
                lemma_varint_len(10);
                lemma_varint_len(16);
                lemma_varint_len(24);
                lemma_varint_len(32);
                lemma_varint_len(40);
                lemma_varint_len(1);
                assert(e.block.len() == 34);
                assert(opt_bytes_field(1, e.block).len() == 36);
                assert(varint(0x7FFF_FFFF).len() == 5);
                assert(opt_int_field(2, e.priority).len() == 6);
                assert(opt_bool_field(3, e.cancel).len() == 2);
                assert(opt_int_field(4, e.want_type).len() == 2);
                assert(opt_bool_field(5, e.send_dont_have).len() == 2);
            }
            entry.encoded_len()
        },
        Err(_) => 48,
    }
}

} // verus!
