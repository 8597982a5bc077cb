//! Between a message and its wire form: how a wire message is read into a message,
//! and how a message is written in each of the two protocol versions.

use crate::block::{bytes_as_slice, bytes_clone, bytes_of, legacy_id, Block, BlockView};
use crate::content_id::{cid_from_bytes, ContentId, ContentIdView, Prefix};
use crate::error::Error;
use crate::laws::{block_data, lemma_v0_round_trip, lemma_v1_round_trip};
use crate::maps::lists;
use crate::message::{
    BitswapMessage, BlockPresenceType, EntryView, MessageView, WantType,
};
use crate::pb::{
    block_views, entry_views, presence_views, raw_views, WireBlock, WireEntry, WireMessage,
    WirePresence,
};
use ::bytes::Bytes;
use vstd::prelude::*;

verus! {

impl MessageView {
    /// The message after one wire entry was read into it: its identifier must read
    /// as one, then its want type must be one; the entry is then merged as a want
    /// or a cancel made here would be.
    pub open spec fn add_wire_entry(self, e: WireEntry) -> Result<MessageView, Error> {
        match cid_from_bytes(e.block) {
            None => Err(Error::InvalidIdentifier),
            Some(cid) => match WantType::from_code(e.want_type) {
                None => Err(Error::InvalidEnumValue),
                Some(t) => Ok(self.upsert(cid, e.priority, e.cancel, t, e.send_dont_have)),
            },
        }
    }

    /// The message after the wire entries were read into it in their order; the
    /// first that cannot be read decides the error.
    pub open spec fn add_wire_entries(self, entries: Seq<WireEntry>) -> Result<MessageView, Error>
        decreases entries.len(),
    {
        if entries.len() == 0 {
            Ok(self)
        } else {
            match self.add_wire_entry(entries[0]) {
                Err(e) => Err(e),
                Ok(next) => next.add_wire_entries(entries.skip(1)),
            }
        }
    }

    /// The message after a raw block of the first protocol version was read into it.
    pub open spec fn add_raw_block(self, data: Seq<u8>) -> Result<MessageView, Error> {
        match legacy_id(data) {
            None => Err(Error::InvalidIdentifier),
            Some(cid) => Ok(self.add_block(BlockView { cid, data })),
        }
    }

    /// The message after the raw blocks were read into it in their order.
    pub open spec fn add_raw_blocks(self, blocks: Seq<Seq<u8>>) -> Result<MessageView, Error>
        decreases blocks.len(),
    {
        if blocks.len() == 0 {
            Ok(self)
        } else {
            match self.add_raw_block(blocks[0]) {
                Err(e) => Err(e),
                Ok(next) => next.add_raw_blocks(blocks.skip(1)),
            }
        }
    }

    /// The message after a payload block was read into it: its prefix must read as
    /// one, and must give an identifier for the data.
    pub open spec fn add_wire_block(self, b: WireBlock) -> Result<MessageView, Error> {
        match Prefix::parse(b.prefix) {
            None => Err(Error::InvalidPrefix),
            Some(prefix) => match prefix.identify(b.data) {
                None => Err(Error::InvalidIdentifier),
                Some(cid) => Ok(self.add_block(BlockView { cid, data: b.data })),
            },
        }
    }

    /// The message after the payload blocks were read into it in their order.
    pub open spec fn add_wire_blocks(self, payload: Seq<WireBlock>) -> Result<MessageView, Error>
        decreases payload.len(),
    {
        if payload.len() == 0 {
            Ok(self)
        } else {
            match self.add_wire_block(payload[0]) {
                Err(e) => Err(e),
                Ok(next) => next.add_wire_blocks(payload.skip(1)),
            }
        }
    }

    /// The message after a wire presence was read into it: its identifier must read
    /// as one, then its kind must be one.
    pub open spec fn add_wire_presence(self, p: WirePresence) -> Result<MessageView, Error> {
        match cid_from_bytes(p.cid) {
            None => Err(Error::InvalidIdentifier),
            Some(cid) => match BlockPresenceType::from_code(p.kind) {
                None => Err(Error::InvalidEnumValue),
                Some(t) => Ok(self.add_block_presence(cid, t)),
            },
        }
    }

    /// The message after the wire presences were read into it in their order.
    pub open spec fn add_wire_presences(self, presences: Seq<WirePresence>) -> Result<
        MessageView,
        Error,
    >
        decreases presences.len(),
    {
        if presences.len() == 0 {
            Ok(self)
        } else {
            match self.add_wire_presence(presences[0]) {
                Err(e) => Err(e),
                Ok(next) => next.add_wire_presences(presences.skip(1)),
            }
        }
    }

    /// The message that a wire message stands for, or the error of the first part of
    /// it that cannot be read: wantlist entries first, then raw blocks, payload
    /// blocks, presences.
    pub open spec fn from_wire(w: WireMessage) -> Result<MessageView, Error> {
        let (full, entries) = match w.wantlist {
            Some(wl) => (wl.full, wl.entries),
            None => (false, Seq::empty()),
        };
        match MessageView::empty(full).add_wire_entries(entries) {
            Err(e) => Err(e),
            Ok(m1) => match m1.add_raw_blocks(w.blocks) {
                Err(e) => Err(e),
                Ok(m2) => match m2.add_wire_blocks(w.payload) {
                    Err(e) => Err(e),
                    Ok(m3) => match m3.add_wire_presences(w.block_presences) {
                        Err(e) => Err(e),
                        Ok(m4) => Ok(MessageView { pending_bytes: w.pending_bytes, ..m4 }),
                    },
                },
            },
        }
    }

    /// The message that the bytes `s` stand for, or why they stand for none.
    pub open spec fn decode(s: Seq<u8>) -> Result<MessageView, Error> {
        match WireMessage::parse(s) {
            None => Err(Error::MalformedWire),
            Some(w) => MessageView::from_wire(w),
        }
    }
}

impl BitswapMessage {
    /// Reads wire entries into the message, in their order.
    fn read_entries(&mut self, entries: &Vec<crate::pb::Entry>) -> (r: Result<(), Error>)
        requires
            old(self)@.wf(),
            old(self)@.content_addressed(),
        ensures
            match r {
                Ok(_) => old(self)@.add_wire_entries(entry_views(entries@))
                    == Ok::<MessageView, Error>(final(self)@) && final(self)@.wf()
                    && final(self)@.content_addressed(),
                Err(e) => old(self)@.add_wire_entries(
                    entry_views(entries@),
                ) == Err::<MessageView, Error>(e),
            },
    {
        let ghost all = entry_views(entries@);
        let ghost start = self@;
        let mut i: usize = 0;
        assert(all.skip(0) =~= all);
        while i < entries.len()
            invariant
                i <= entries@.len(),
                all == entry_views(entries@),
                self@.wf(),
                self@.content_addressed(),
                start == old(self)@,
                start.add_wire_entries(all) == self@.add_wire_entries(all.skip(i as int)),
            decreases entries@.len() - i,
        {
            let entry = &entries[i];
            assert(all.skip(i as int)[0] == entry@);
            assert(all.skip(i as int).skip(1) =~= all.skip(i + 1));
            let cid = match ContentId::from_bytes(entry.block.as_slice()) {
                Ok(c) => c,
                Err(e) => { return Err(e); },
            };
            let want_type = match WantType::try_from_i32(entry.want_type) {
                Some(t) => t,
                None => { return Err(Error::InvalidEnumValue); },
            };
            self.add_full_entry(cid, entry.priority, entry.cancel, want_type, entry.send_dont_have);
            i = i + 1;
        }
        Ok(())
    }

    /// Reads raw blocks of the first protocol version into the message.
    fn read_raw_blocks(&mut self, blocks: &Vec<Bytes>) -> (r: Result<(), Error>)
        requires
            old(self)@.wf(),
            old(self)@.content_addressed(),
        ensures
            match r {
                Ok(_) => old(self)@.add_raw_blocks(raw_views(blocks@))
                    == Ok::<MessageView, Error>(final(self)@) && final(self)@.wf()
                    && final(self)@.content_addressed(),
                Err(e) => old(self)@.add_raw_blocks(raw_views(blocks@))
                    == Err::<MessageView, Error>(e),
            },
    {
        let ghost all = raw_views(blocks@);
        let ghost start = self@;
        let mut i: usize = 0;
        assert(all.skip(0) =~= all);
        while i < blocks.len()
            invariant
                i <= blocks@.len(),
                all == raw_views(blocks@),
                self@.wf(),
                self@.content_addressed(),
                start == old(self)@,
                start.add_raw_blocks(all) == self@.add_raw_blocks(all.skip(i as int)),
            decreases blocks@.len() - i,
        {
            assert(all.skip(i as int)[0] == bytes_of(blocks@[i as int]));
            assert(all.skip(i as int).skip(1) =~= all.skip(i + 1));
            let block = match Block::from_v0_data(bytes_clone(&blocks[i])) {
                Ok(b) => b,
                Err(e) => { return Err(e); },
            };
            block.cid().note_valid();
            proof {
                self@.lemma_add_block_content_addressed(block@);
            }
            self.add_block(block);
            i = i + 1;
        }
        Ok(())
    }

    /// Reads payload blocks into the message.
    fn read_payload(&mut self, payload: &Vec<crate::pb::Block>) -> (r: Result<(), Error>)
        requires
            old(self)@.wf(),
            old(self)@.content_addressed(),
        ensures
            match r {
                Ok(_) => old(self)@.add_wire_blocks(block_views(payload@))
                    == Ok::<MessageView, Error>(final(self)@) && final(self)@.wf()
                    && final(self)@.content_addressed(),
                Err(e) => old(self)@.add_wire_blocks(
                    block_views(payload@),
                ) == Err::<MessageView, Error>(e),
            },
    {
        let ghost all = block_views(payload@);
        let ghost start = self@;
        let mut i: usize = 0;
        assert(all.skip(0) =~= all);
        while i < payload.len()
            invariant
                i <= payload@.len(),
                all == block_views(payload@),
                self@.wf(),
                self@.content_addressed(),
                start == old(self)@,
                start.add_wire_blocks(all) == self@.add_wire_blocks(all.skip(i as int)),
            decreases payload@.len() - i,
        {
            let block = &payload[i];
            assert(all.skip(i as int)[0] == block@);
            assert(all.skip(i as int).skip(1) =~= all.skip(i + 1));
            let prefix = match Prefix::new(block.prefix.as_slice()) {
                Ok(p) => p,
                Err(e) => { return Err(e); },
            };
            let cid = match prefix.to_cid(bytes_as_slice(&block.data)) {
                Ok(c) => c,
                Err(e) => { return Err(e); },
            };
            let block = Block::new(bytes_clone(&block.data), cid);
            proof {
                self@.lemma_add_block_content_addressed(block@);
            }
            self.add_block(block);
            i = i + 1;
        }
        Ok(())
    }

    /// Reads wire presences into the message.
    fn read_presences(&mut self, presences: &Vec<crate::pb::BlockPresence>) -> (r: Result<
        (),
        Error,
    >)
        requires
            old(self)@.wf(),
            old(self)@.content_addressed(),
        ensures
            match r {
                Ok(_) => old(self)@.add_wire_presences(
                    presence_views(presences@),
                ) == Ok::<MessageView, Error>(final(self)@) && final(self)@.wf()
                    && final(self)@.content_addressed(),
                Err(e) => old(self)@.add_wire_presences(
                    presence_views(presences@),
                ) == Err::<MessageView, Error>(e),
            },
    {
        let ghost all = presence_views(presences@);
        let ghost start = self@;
        let mut i: usize = 0;
        assert(all.skip(0) =~= all);
        while i < presences.len()
            invariant
                i <= presences@.len(),
                all == presence_views(presences@),
                self@.wf(),
                self@.content_addressed(),
                start == old(self)@,
                start.add_wire_presences(all) == self@.add_wire_presences(all.skip(i as int)),
            decreases presences@.len() - i,
        {
            let presence = &presences[i];
            assert(all.skip(i as int)[0] == presence@);
            assert(all.skip(i as int).skip(1) =~= all.skip(i + 1));
            let cid = match ContentId::from_bytes(presence.cid.as_slice()) {
                Ok(c) => c,
                Err(e) => { return Err(e); },
            };
            let kind = match BlockPresenceType::try_from_i32(presence.kind) {
                Some(t) => t,
                None => { return Err(Error::InvalidEnumValue); },
            };
            self.add_block_presence(cid, kind);
            i = i + 1;
        }
        Ok(())
    }

    /// Reads a wire message into a message. All of it is read or none: the first
    /// part that cannot be read decides the error. Every block of a message that was
    /// read stands under the identifier of its data.
    pub fn try_from(pbm: crate::pb::Message) -> (r: Result<BitswapMessage, Error>)
        ensures
            match r {
                Ok(m) => MessageView::from_wire(pbm@) == Ok::<MessageView, Error>(m@) && m@.wf()
                    && m@.content_addressed(),
                Err(e) => MessageView::from_wire(pbm@) == Err::<MessageView, Error>(e),
            },
    {
        let full = match &pbm.wantlist {
            Some(w) => w.full,
            None => false,
        };
        let mut message = BitswapMessage::new(full);
        match &pbm.wantlist {
            Some(wantlist) => {
                match message.read_entries(&wantlist.entries) {
                    Err(e) => { return Err(e); },
                    Ok(_) => {},
                }
            },
            None => {},
        }
        match message.read_raw_blocks(&pbm.blocks) {
            Err(e) => { return Err(e); },
            Ok(_) => {},
        }
        match message.read_payload(&pbm.payload) {
            Err(e) => { return Err(e); },
            Ok(_) => {},
        }
        match message.read_presences(&pbm.block_presences) {
            Err(e) => { return Err(e); },
            Ok(_) => {},
        }
        message.set_pending_bytes(pbm.pending_bytes);
        Ok(message)
    }

    /// The bytes of the message in the first protocol version. They read back as a
    /// message with the same wantlist and the same block data, without presences or
    /// pending bytes.
    pub fn encode_v0(&self) -> (bytes: Vec<u8>)
        ensures
            exists|w: WireMessage| #[trigger] self@.encodes_v0(w) && bytes@ == w.bytes(),
            self@.wf() && self@.legacy_distinct() ==> (MessageView::decode(bytes@) matches Ok(r)
                && r.wantlist == self@.wantlist && r.full == self@.full && block_data(r.blocks)
                == block_data(self@.blocks) && r.presences == Map::<
                ContentIdView,
                BlockPresenceType,
            >::empty() && r.pending_bytes == 0),
    {
        let pbm = self.encode_as_proto_v0();
        let bytes = pbm.encode();
        proof {
            assert(self@.encodes_v0(pbm@) && bytes@ == pbm@.bytes());
            if self@.wf() && self@.legacy_distinct() {
                lemma_v0_round_trip(self@, pbm@);
            }
        }
        bytes
    }

    /// The bytes of the message in the current protocol version. Where every block
    /// stands under the identifier of its data, they read back as the same message.
    pub fn encode_v1(&self) -> (bytes: Vec<u8>)
        ensures
            exists|w: WireMessage| #[trigger] self@.encodes_v1(w) && bytes@ == w.bytes(),
            self@.wf() && self@.content_addressed() ==> MessageView::decode(bytes@) == Ok::<
                MessageView,
                Error,
            >(self@),
    {
        let pbm = self.encode_as_proto_v1();
        let bytes = pbm.encode();
        proof {
            assert(self@.encodes_v1(pbm@) && bytes@ == pbm@.bytes());
            if self@.wf() && self@.content_addressed() {
                lemma_v1_round_trip(self@, pbm@);
            }
        }
        bytes
    }

    /// Reads a message from its bytes.
    pub fn decode(bytes: &[u8]) -> (r: Result<BitswapMessage, Error>)
        ensures
            match r {
                Ok(m) => MessageView::decode(bytes@) == Ok::<MessageView, Error>(m@) && m@.wf()
                    && m@.content_addressed(),
                Err(e) => MessageView::decode(bytes@) == Err::<MessageView, Error>(e),
            },
    {
        match crate::pb::Message::decode(bytes) {
            Err(e) => Err(e),
            Ok(pbm) => BitswapMessage::try_from(pbm),
        }
    }
}

/// The wire entries of a run of entries.
pub open spec fn wire_entries(values: Seq<EntryView>) -> Seq<WireEntry> {
    values.map_values(|e: EntryView| e.wire())
}

/// The data of a run of blocks.
pub open spec fn raw_blocks(values: Seq<BlockView>) -> Seq<Seq<u8>> {
    values.map_values(|b: BlockView| b.data)
}

/// A block as the payload block that stands for it: the prefix of its identifier in
/// place of the identifier, and the data.
pub open spec fn wire_block(b: BlockView) -> WireBlock {
    WireBlock { prefix: b.cid.prefix().bytes(), data: b.data }
}

/// The payload blocks of a run of blocks.
pub open spec fn wire_blocks(values: Seq<BlockView>) -> Seq<WireBlock> {
    values.map_values(|b: BlockView| wire_block(b))
}

/// The wire presences of a run of identifiers, each with its kind.
pub open spec fn wire_presences(keys: Seq<ContentIdView>, kinds: Seq<BlockPresenceType>) -> Seq<
    WirePresence,
> {
    Seq::new(keys.len(), |i: int| WirePresence { cid: keys[i].bytes(), kind: kinds[i].code() })
}

impl MessageView {
    /// `entries` are the wire entries of the wantlist, each once, in some order.
    pub open spec fn wantlist_listed(self, entries: Seq<WireEntry>) -> bool {
        exists|keys: Seq<ContentIdView>, values: Seq<EntryView>| #[trigger]
            lists(keys, values, self.wantlist) && entries == wire_entries(values)
    }

    /// `blocks` are the data of the blocks, each once, in some order.
    pub open spec fn blocks_listed_raw(self, blocks: Seq<Seq<u8>>) -> bool {
        exists|keys: Seq<ContentIdView>, values: Seq<BlockView>| #[trigger]
            lists(keys, values, self.blocks) && blocks == raw_blocks(values)
    }

    /// `payload` are the payload blocks of the blocks, each once, in some order.
    pub open spec fn blocks_listed(self, payload: Seq<WireBlock>) -> bool {
        exists|keys: Seq<ContentIdView>, values: Seq<BlockView>| #[trigger]
            lists(keys, values, self.blocks) && payload == wire_blocks(values)
    }

    /// `presences` are the wire presences of the presences, each once, in some order.
    pub open spec fn presences_listed(self, presences: Seq<WirePresence>) -> bool {
        exists|keys: Seq<ContentIdView>, kinds: Seq<BlockPresenceType>| #[trigger]
            lists(keys, kinds, self.presences) && presences == wire_presences(keys, kinds)
    }

    /// `w` is a wire form of the message in the first protocol version: the wantlist
    /// and the raw data of the blocks, and nothing of presences or pending bytes.
    pub open spec fn encodes_v0(self, w: WireMessage) -> bool {
        &&& w.wantlist matches Some(wl) && wl.full == self.full && self.wantlist_listed(wl.entries)
        &&& self.blocks_listed_raw(w.blocks)
        &&& w.payload == Seq::<WireBlock>::empty()
        &&& w.block_presences == Seq::<WirePresence>::empty()
        &&& w.pending_bytes == 0
    }

    /// `w` is a wire form of the message in the current protocol version: the
    /// wantlist, the blocks as payload blocks, the presences and the pending bytes.
    pub open spec fn encodes_v1(self, w: WireMessage) -> bool {
        &&& w.wantlist matches Some(wl) && wl.full == self.full && self.wantlist_listed(wl.entries)
        &&& w.blocks == Seq::<Seq<u8>>::empty()
        &&& self.blocks_listed(w.payload)
        &&& self.presences_listed(w.block_presences)
        &&& w.pending_bytes == self.pending_bytes
    }

    /// The byte form of the identifier of every wantlist entry reads back as that
    /// identifier.
    pub open spec fn reads_back_wants(self) -> bool {
        forall|k: ContentIdView| #[trigger]
            self.wantlist.contains_key(k) ==> cid_from_bytes(self.wantlist[k].cid.bytes()) == Some(
                self.wantlist[k].cid,
            )
    }

    /// The byte form of the identifier of every presence reads back as that
    /// identifier.
    pub open spec fn reads_back_presences(self) -> bool {
        forall|k: ContentIdView| #[trigger]
            self.presences.contains_key(k) ==> cid_from_bytes(k.bytes()) == Some(k)
    }

    /// Every block stands under the identifier of its data.
    pub open spec fn content_addressed(self) -> bool {
        forall|k: ContentIdView| #[trigger]
            self.blocks.contains_key(k) ==> self.blocks[k].content_addressed()
    }

    /// A block that stands under the identifier of its data keeps a message one
    /// whose blocks all do.
    pub proof fn lemma_add_block_content_addressed(self, block: BlockView)
        requires
            self.content_addressed(),
            block.content_addressed(),
        ensures
            self.add_block(block).content_addressed(),
    {
        let after = self.add_block(block);
        assert forall|k: ContentIdView| #[trigger] after.blocks.contains_key(k) implies after.blocks[k].content_addressed() by {
            if k != block.cid {
                assert(self.blocks.contains_key(k));
            }
        }
    }
}

} // verus!
