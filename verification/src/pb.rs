//! The wire message: what stands on the wire, field by field, before any of it is
//! read as an identifier.

use crate::block::{bytes_as_slice, bytes_clone, bytes_from_slice, bytes_of};
use crate::error::Error;
use crate::roundtrip::lemma_message_round_trip;
use crate::wire::{
    bytes_field, get_bool_value, get_bytes_value, get_int_value, get_key, opt_bool_field,
    opt_bytes_field, opt_int_field, put_bytes_field, put_opt_bool_field, put_opt_bytes_field,
    put_opt_int_field, read_key, skip_field, skip_value, take_bool, take_bytes, take_int,
    DELIMITED, RECURSION_LIMIT,
};
use ::bytes::Bytes;
use vstd::prelude::*;
use vstd::slice::{slice_subrange, slice_to_vec};

verus! {

/// One wantlist entry as it stands on the wire.
pub struct WireEntry {
    pub block: Seq<u8>,
    pub priority: i32,
    pub cancel: bool,
    pub want_type: i32,
    pub send_dont_have: bool,
}

/// A wantlist as it stands on the wire.
pub struct WireWantlist {
    pub entries: Seq<WireEntry>,
    pub full: bool,
}

/// A payload block as it stands on the wire: the prefix of its identifier, and its data.
pub struct WireBlock {
    pub prefix: Seq<u8>,
    pub data: Seq<u8>,
}

/// A block presence as it stands on the wire.
pub struct WirePresence {
    pub cid: Seq<u8>,
    pub kind: i32,
}

/// A message as it stands on the wire.
pub struct WireMessage {
    pub wantlist: Option<WireWantlist>,
    pub blocks: Seq<Seq<u8>>,
    pub payload: Seq<WireBlock>,
    pub block_presences: Seq<WirePresence>,
    pub pending_bytes: i32,
}

impl WireEntry {
    /// A entry with nothing in it: what reading starts from.
    pub open spec fn empty() -> WireEntry {
        WireEntry {
            block: Seq::empty(),
            priority: 0,
            cancel: false,
            want_type: 0,
            send_dont_have: false,
        }
    }

    /// The fields of the entry in the order of their numbers; a field that holds
    /// nothing, zero or false is left out.
    pub open spec fn bytes(self) -> Seq<u8> {
        opt_bytes_field(1, self.block) + opt_int_field(2, self.priority) + opt_bool_field(
            3,
            self.cancel,
        ) + opt_int_field(4, self.want_type) + opt_bool_field(5, self.send_dont_have)
    }

    /// The entry with one more field read into it, and the bytes that the field's
    /// value took. A known field has the wire type of its kind; another is passed over.
    pub open spec fn put(self, tag: u32, wire_type: u8, s: Seq<u8>, room: nat) -> Option<
        (WireEntry, nat),
    > {
        if tag == 1 {
            match take_bytes(wire_type, s) {
                None => None,
                Some((v, n)) => Some((WireEntry { block: v, ..self }, n)),
            }
        } else if tag == 2 {
            match take_int(wire_type, s) {
                None => None,
                Some((v, n)) => Some((WireEntry { priority: v, ..self }, n)),
            }
        } else if tag == 3 {
            match take_bool(wire_type, s) {
                None => None,
                Some((v, n)) => Some((WireEntry { cancel: v, ..self }, n)),
            }
        } else if tag == 4 {
            match take_int(wire_type, s) {
                None => None,
                Some((v, n)) => Some((WireEntry { want_type: v, ..self }, n)),
            }
        } else if tag == 5 {
            match take_bool(wire_type, s) {
                None => None,
                Some((v, n)) => Some((WireEntry { send_dont_have: v, ..self }, n)),
            }
        } else {
            match skip_field(s, tag, wire_type, room) {
                None => None,
                Some(n) => Some((self, n)),
            }
        }
    }

    /// The entry with all fields of `s` read into it, one after the other; a field
    /// that comes again takes the place of the earlier one.
    pub open spec fn read(self, s: Seq<u8>, room: nat) -> Option<WireEntry>
        decreases s.len(),
    {
        if s.len() == 0 {
            Some(self)
        } else {
            match read_key(s) {
                None => None,
                Some((tag, wire_type, n)) => if n == 0 || n > s.len() {
                    None
                } else {
                    match self.put(tag, wire_type, s.skip(n as int), room) {
                        None => None,
                        Some((next, m)) => if n + m > s.len() {
                            None
                        } else {
                            next.read(s.skip((n + m) as int), room)
                        },
                    }
                },
            }
        }
    }
}

/// The entries of a wantlist, each a field of its own.
pub open spec fn entries_bytes(entries: Seq<WireEntry>) -> Seq<u8>
    decreases entries.len(),
{
    if entries.len() == 0 {
        Seq::empty()
    } else {
        entries_bytes(entries.drop_last()) + bytes_field(1, entries.last().bytes())
    }
}

impl WireWantlist {
    /// A wantlist with nothing in it: what reading starts from.
    pub open spec fn empty() -> WireWantlist {
        WireWantlist { entries: Seq::empty(), full: false }
    }

    /// The fields of the wantlist in the order of their numbers; a field that holds
    /// nothing, zero or false is left out.
    pub open spec fn bytes(self) -> Seq<u8> {
        entries_bytes(self.entries) + opt_bool_field(2, self.full)
    }

    /// The wantlist with one more field read into it, and the bytes that the field's
    /// value took.
    pub open spec fn put(self, tag: u32, wire_type: u8, s: Seq<u8>, room: nat) -> Option<
        (WireWantlist, nat),
    > {
        if tag == 1 {
            if room == 0 {
                None
            } else {
                match take_bytes(wire_type, s) {
                    None => None,
                    Some((v, n)) => match WireEntry::empty().read(v, (room - 1) as nat) {
                        None => None,
                        Some(e) => Some((WireWantlist { entries: self.entries.push(e), ..self }, n)),
                    },
                }
            }
        } else if tag == 2 {
            match take_bool(wire_type, s) {
                None => None,
                Some((v, n)) => Some((WireWantlist { full: v, ..self }, n)),
            }
        } else {
            match skip_field(s, tag, wire_type, room) {
                None => None,
                Some(n) => Some((self, n)),
            }
        }
    }

    /// The wantlist with all fields of `s` read into it, one after the other.
    pub open spec fn read(self, s: Seq<u8>, room: nat) -> Option<WireWantlist>
        decreases s.len(),
    {
        if s.len() == 0 {
            Some(self)
        } else {
            match read_key(s) {
                None => None,
                Some((tag, wire_type, n)) => if n == 0 || n > s.len() {
                    None
                } else {
                    match self.put(tag, wire_type, s.skip(n as int), room) {
                        None => None,
                        Some((next, m)) => if n + m > s.len() {
                            None
                        } else {
                            next.read(s.skip((n + m) as int), room)
                        },
                    }
                },
            }
        }
    }
}

impl WireBlock {
    /// A payload block with nothing in it: what reading starts from.
    pub open spec fn empty() -> WireBlock {
        WireBlock { prefix: Seq::empty(), data: Seq::empty() }
    }

    /// The fields of the payload block in the order of their numbers; a field that holds
    /// nothing, zero or false is left out.
    pub open spec fn bytes(self) -> Seq<u8> {
        opt_bytes_field(1, self.prefix) + opt_bytes_field(2, self.data)
    }

    /// The payload block with one more field read into it, and the bytes that the field's
    /// value took.
    pub open spec fn put(self, tag: u32, wire_type: u8, s: Seq<u8>, room: nat) -> Option<
        (WireBlock, nat),
    > {
        if tag == 1 {
            match take_bytes(wire_type, s) {
                None => None,
                Some((v, n)) => Some((WireBlock { prefix: v, ..self }, n)),
            }
        } else if tag == 2 {
            match take_bytes(wire_type, s) {
                None => None,
                Some((v, n)) => Some((WireBlock { data: v, ..self }, n)),
            }
        } else {
            match skip_field(s, tag, wire_type, room) {
                None => None,
                Some(n) => Some((self, n)),
            }
        }
    }

    /// The payload block with all fields of `s` read into it, one after the other.
    pub open spec fn read(self, s: Seq<u8>, room: nat) -> Option<WireBlock>
        decreases s.len(),
    {
        if s.len() == 0 {
            Some(self)
        } else {
            match read_key(s) {
                None => None,
                Some((tag, wire_type, n)) => if n == 0 || n > s.len() {
                    None
                } else {
                    match self.put(tag, wire_type, s.skip(n as int), room) {
                        None => None,
                        Some((next, m)) => if n + m > s.len() {
                            None
                        } else {
                            next.read(s.skip((n + m) as int), room)
                        },
                    }
                },
            }
        }
    }
}

impl WirePresence {
    /// A block presence with nothing in it: what reading starts from.
    pub open spec fn empty() -> WirePresence {
        WirePresence { cid: Seq::empty(), kind: 0 }
    }

    /// The fields of the block presence in the order of their numbers; a field that holds
    /// nothing, zero or false is left out.
    pub open spec fn bytes(self) -> Seq<u8> {
        opt_bytes_field(1, self.cid) + opt_int_field(2, self.kind)
    }

    /// The block presence with one more field read into it, and the bytes that the field's
    /// value took.
    pub open spec fn put(self, tag: u32, wire_type: u8, s: Seq<u8>, room: nat) -> Option<
        (WirePresence, nat),
    > {
        if tag == 1 {
            match take_bytes(wire_type, s) {
                None => None,
                Some((v, n)) => Some((WirePresence { cid: v, ..self }, n)),
            }
        } else if tag == 2 {
            match take_int(wire_type, s) {
                None => None,
                Some((v, n)) => Some((WirePresence { kind: v, ..self }, n)),
            }
        } else {
            match skip_field(s, tag, wire_type, room) {
                None => None,
                Some(n) => Some((self, n)),
            }
        }
    }

    /// The block presence with all fields of `s` read into it, one after the other.
    pub open spec fn read(self, s: Seq<u8>, room: nat) -> Option<WirePresence>
        decreases s.len(),
    {
        if s.len() == 0 {
            Some(self)
        } else {
            match read_key(s) {
                None => None,
                Some((tag, wire_type, n)) => if n == 0 || n > s.len() {
                    None
                } else {
                    match self.put(tag, wire_type, s.skip(n as int), room) {
                        None => None,
                        Some((next, m)) => if n + m > s.len() {
                            None
                        } else {
                            next.read(s.skip((n + m) as int), room)
                        },
                    }
                },
            }
        }
    }
}

/// The raw blocks of a message of the first protocol version, each a field of its own.
pub open spec fn blocks_bytes(blocks: Seq<Seq<u8>>) -> Seq<u8>
    decreases blocks.len(),
{
    if blocks.len() == 0 {
        Seq::empty()
    } else {
        blocks_bytes(blocks.drop_last()) + bytes_field(2, blocks.last())
    }
}

/// The payload blocks of a message, each a field of its own.
pub open spec fn payload_bytes(payload: Seq<WireBlock>) -> Seq<u8>
    decreases payload.len(),
{
    if payload.len() == 0 {
        Seq::empty()
    } else {
        payload_bytes(payload.drop_last()) + bytes_field(3, payload.last().bytes())
    }
}

/// The block presences of a message, each a field of its own.
pub open spec fn presences_bytes(presences: Seq<WirePresence>) -> Seq<u8>
    decreases presences.len(),
{
    if presences.len() == 0 {
        Seq::empty()
    } else {
        presences_bytes(presences.drop_last()) + bytes_field(4, presences.last().bytes())
    }
}

impl WireMessage {
    /// A message with nothing in it: what reading starts from.
    pub open spec fn empty() -> WireMessage {
        WireMessage {
            wantlist: None,
            blocks: Seq::empty(),
            payload: Seq::empty(),
            block_presences: Seq::empty(),
            pending_bytes: 0,
        }
    }

    /// The wantlist as a field, where the message has one.
    pub open spec fn wantlist_bytes(self) -> Seq<u8> {
        match self.wantlist {
            None => Seq::empty(),
            Some(w) => bytes_field(1, w.bytes()),
        }
    }

    /// The bytes of the message: its fields in the order of their numbers.
    pub open spec fn bytes(self) -> Seq<u8> {
        self.wantlist_bytes() + blocks_bytes(self.blocks) + payload_bytes(self.payload)
            + presences_bytes(self.block_presences) + opt_int_field(5, self.pending_bytes)
    }

    /// The message with one more field read into it. A second wantlist is read into
    /// the first; raw blocks, payload blocks and presences gather in their order.
    pub open spec fn put(self, tag: u32, wire_type: u8, s: Seq<u8>, room: nat) -> Option<
        (WireMessage, nat),
    > {
        if tag == 1 {
            if room == 0 {
                None
            } else {
                match take_bytes(wire_type, s) {
                    None => None,
                    Some((v, n)) => {
                        let start = match self.wantlist {
                            None => WireWantlist::empty(),
                            Some(w) => w,
                        };
                        match start.read(v, (room - 1) as nat) {
                            None => None,
                            Some(w) => Some((WireMessage { wantlist: Some(w), ..self }, n)),
                        }
                    },
                }
            }
        } else if tag == 2 {
            match take_bytes(wire_type, s) {
                None => None,
                Some((v, n)) => Some((WireMessage { blocks: self.blocks.push(v), ..self }, n)),
            }
        } else if tag == 3 {
            if room == 0 {
                None
            } else {
                match take_bytes(wire_type, s) {
                    None => None,
                    Some((v, n)) => match WireBlock::empty().read(v, (room - 1) as nat) {
                        None => None,
                        Some(b) => Some(
                            (WireMessage { payload: self.payload.push(b), ..self }, n),
                        ),
                    },
                }
            }
        } else if tag == 4 {
            if room == 0 {
                None
            } else {
                match take_bytes(wire_type, s) {
                    None => None,
                    Some((v, n)) => match WirePresence::empty().read(v, (room - 1) as nat) {
                        None => None,
                        Some(p) => Some(
                            (
                                WireMessage {
                                    block_presences: self.block_presences.push(p),
                                    ..self
                                },
                                n,
                            ),
                        ),
                    },
                }
            }
        } else if tag == 5 {
            match take_int(wire_type, s) {
                None => None,
                Some((v, n)) => Some((WireMessage { pending_bytes: v, ..self }, n)),
            }
        } else {
            match skip_field(s, tag, wire_type, room) {
                None => None,
                Some(n) => Some((self, n)),
            }
        }
    }

    /// The message with all fields of `s` read into it, one after the other.
    pub open spec fn read(self, s: Seq<u8>, room: nat) -> Option<WireMessage>
        decreases s.len(),
    {
        if s.len() == 0 {
            Some(self)
        } else {
            match read_key(s) {
                None => None,
                Some((tag, wire_type, n)) => if n == 0 || n > s.len() {
                    None
                } else {
                    match self.put(tag, wire_type, s.skip(n as int), room) {
                        None => None,
                        Some((next, m)) => if n + m > s.len() {
                            None
                        } else {
                            next.read(s.skip((n + m) as int), room)
                        },
                    }
                },
            }
        }
    }

    /// The message that the bytes `s` hold, or `None` where they hold none.
    pub open spec fn parse(s: Seq<u8>) -> Option<WireMessage> {
        WireMessage::empty().read(s, RECURSION_LIMIT as nat)
    }
}


/// One wantlist entry of a wire message.
#[derive(Debug, PartialEq, Eq)]
pub struct Entry {
    pub block: Vec<u8>,
    pub priority: i32,
    pub cancel: bool,
    pub want_type: i32,
    pub send_dont_have: bool,
}

/// The wantlist of a wire message.
#[derive(Debug, PartialEq, Eq)]
pub struct Wantlist {
    pub entries: Vec<Entry>,
    pub full: bool,
}

/// A payload block of a wire message.
#[derive(Debug, PartialEq, Eq)]
pub struct Block {
    pub prefix: Vec<u8>,
    pub data: Bytes,
}

/// A block presence of a wire message.
#[derive(Debug, PartialEq, Eq)]
pub struct BlockPresence {
    pub cid: Vec<u8>,
    pub kind: i32,
}

/// A wire message.
#[derive(Debug, PartialEq, Eq)]
pub struct Message {
    pub wantlist: Option<Wantlist>,
    pub blocks: Vec<Bytes>,
    pub payload: Vec<Block>,
    pub block_presences: Vec<BlockPresence>,
    pub pending_bytes: i32,
}

impl View for Entry {
    type V = WireEntry;

    open spec fn view(&self) -> WireEntry {
        WireEntry {
            block: self.block@,
            priority: self.priority,
            cancel: self.cancel,
            want_type: self.want_type,
            send_dont_have: self.send_dont_have,
        }
    }
}

/// The wire entries that a run of entries holds.
pub open spec fn entry_views(entries: Seq<Entry>) -> Seq<WireEntry> {
    entries.map_values(|e: Entry| e@)
}

/// The bytes that a run of raw blocks holds.
pub open spec fn raw_views(blocks: Seq<Bytes>) -> Seq<Seq<u8>> {
    blocks.map_values(|b: Bytes| bytes_of(b))
}

/// The wire blocks that a run of payload blocks holds.
pub open spec fn block_views(payload: Seq<Block>) -> Seq<WireBlock> {
    payload.map_values(|b: Block| b@)
}

/// The wire presences that a run of presences holds.
pub open spec fn presence_views(presences: Seq<BlockPresence>) -> Seq<WirePresence> {
    presences.map_values(|p: BlockPresence| p@)
}

impl View for Wantlist {
    type V = WireWantlist;

    open spec fn view(&self) -> WireWantlist {
        WireWantlist { entries: entry_views(self.entries@), full: self.full }
    }
}

impl View for Block {
    type V = WireBlock;

    open spec fn view(&self) -> WireBlock {
        WireBlock { prefix: self.prefix@, data: bytes_of(self.data) }
    }
}

impl View for BlockPresence {
    type V = WirePresence;

    open spec fn view(&self) -> WirePresence {
        WirePresence { cid: self.cid@, kind: self.kind }
    }
}

impl View for Message {
    type V = WireMessage;

    open spec fn view(&self) -> WireMessage {
        WireMessage {
            wantlist: match self.wantlist {
                Some(w) => Some(w@),
                None => None,
            },
            blocks: raw_views(self.blocks@),
            payload: block_views(self.payload@),
            block_presences: presence_views(self.block_presences@),
            pending_bytes: self.pending_bytes,
        }
    }
}

impl Entry {
    /// An entry with nothing in it.
    pub fn new() -> (e: Entry)
        ensures
            e@ == WireEntry::empty(),
    {
        Entry {
            block: Vec::new(),
            priority: 0,
            cancel: false,
            want_type: 0,
            send_dont_have: false,
        }
    }

    /// The bytes of the entry.
    pub fn encode(&self) -> (out: Vec<u8>)
        ensures
            out@ == self@.bytes(),
    {
        let mut out: Vec<u8> = Vec::new();
        put_opt_bytes_field(1, self.block.as_slice(), &mut out);
        put_opt_int_field(2, self.priority, &mut out);
        put_opt_bool_field(3, self.cancel, &mut out);
        put_opt_int_field(4, self.want_type, &mut out);
        put_opt_bool_field(5, self.send_dont_have, &mut out);
        assert(out@ =~= self@.bytes());
        out
    }

    /// Reads an entry from the bytes of its fields.
    #[verifier::rlimit(50)]
    pub fn decode(s: &[u8], room: u32) -> (r: Option<Entry>)
        ensures
            match r {
                Some(e) => WireEntry::empty().read(s@, room as nat) == Some(e@),
                None => WireEntry::empty().read(s@, room as nat).is_none(),
            },
    {
        let mut acc = Entry::new();
        let mut pos: usize = 0;
        assert(s@.skip(0) =~= s@);
        while pos < s.len()
            invariant
                pos <= s@.len(),
                WireEntry::empty().read(s@, room as nat) == acc@.read(
                    s@.skip(pos as int),
                    room as nat,
                ),
            decreases s@.len() - pos,
        {
            let ghost tail = s@.skip(pos as int);
            let ghost before = acc@;
            let (tag, wire_type, n) = match get_key(s, pos) {
                Some(k) => k,
                None => { return None; },
            };
            let at = pos + n;
            assert(tail.skip(n as int) =~= s@.skip(at as int));
            let next: usize;
            if tag == 1 {
                match get_bytes_value(s, at, wire_type) {
                    None => { return None; },
                    Some((from, to)) => {
                        acc.block = slice_to_vec(slice_subrange(s, from, to));
                        next = to;
                    },
                }
            } else if tag == 2 {
                match get_int_value(s, at, wire_type) {
                    None => { return None; },
                    Some((v, m)) => {
                        acc.priority = v;
                        next = at + m;
                    },
                }
            } else if tag == 3 {
                match get_bool_value(s, at, wire_type) {
                    None => { return None; },
                    Some((v, m)) => {
                        acc.cancel = v;
                        next = at + m;
                    },
                }
            } else if tag == 4 {
                match get_int_value(s, at, wire_type) {
                    None => { return None; },
                    Some((v, m)) => {
                        acc.want_type = v;
                        next = at + m;
                    },
                }
            } else if tag == 5 {
                match get_bool_value(s, at, wire_type) {
                    None => { return None; },
                    Some((v, m)) => {
                        acc.send_dont_have = v;
                        next = at + m;
                    },
                }
            } else {
                match skip_value(s, at, tag, wire_type, room) {
                    None => { return None; },
                    Some(m) => {
                        next = at + m;
                    },
                }
            }
            assert(tail.skip((next - pos) as int) =~= s@.skip(next as int));
            assert(before.put(tag, wire_type, tail.skip(n as int), room as nat) == Some(
                (acc@, (next - at) as nat),
            ));
            pos = next;
        }
        Some(acc)
    }
}


impl Block {
    /// A payload block with nothing in it.
    pub fn new() -> (b: Block)
        ensures
            b@ == WireBlock::empty(),
    {
        let data = bytes_from_slice(Vec::<u8>::new().as_slice());
        let b = Block { prefix: Vec::new(), data };
        assert(b@.data =~= Seq::<u8>::empty());
        b
    }

    /// The bytes of the payload block.
    pub fn encode(&self) -> (out: Vec<u8>)
        ensures
            out@ == self@.bytes(),
    {
        let mut out: Vec<u8> = Vec::new();
        put_opt_bytes_field(1, self.prefix.as_slice(), &mut out);
        put_opt_bytes_field(2, bytes_as_slice(&self.data), &mut out);
        assert(out@ =~= self@.bytes());
        out
    }

    /// Reads a payload block from the bytes of its fields.
    #[verifier::rlimit(50)]
    pub fn decode(s: &[u8], room: u32) -> (r: Option<Block>)
        ensures
            match r {
                Some(b) => WireBlock::empty().read(s@, room as nat) == Some(b@),
                None => WireBlock::empty().read(s@, room as nat).is_none(),
            },
    {
        let mut acc = Block::new();
        let mut pos: usize = 0;
        assert(s@.skip(0) =~= s@);
        while pos < s.len()
            invariant
                pos <= s@.len(),
                WireBlock::empty().read(s@, room as nat) == acc@.read(
                    s@.skip(pos as int),
                    room as nat,
                ),
            decreases s@.len() - pos,
        {
            let ghost tail = s@.skip(pos as int);
            let ghost before = acc@;
            let (tag, wire_type, n) = match get_key(s, pos) {
                Some(k) => k,
                None => { return None; },
            };
            let at = pos + n;
            assert(tail.skip(n as int) =~= s@.skip(at as int));
            let next: usize;
            if tag == 1 {
                match get_bytes_value(s, at, wire_type) {
                    None => { return None; },
                    Some((from, to)) => {
                        acc.prefix = slice_to_vec(slice_subrange(s, from, to));
                        next = to;
                    },
                }
            } else if tag == 2 {
                match get_bytes_value(s, at, wire_type) {
                    None => { return None; },
                    Some((from, to)) => {
                        acc.data = bytes_from_slice(slice_subrange(s, from, to));
                        next = to;
                    },
                }
            } else {
                match skip_value(s, at, tag, wire_type, room) {
                    None => { return None; },
                    Some(m) => {
                        next = at + m;
                    },
                }
            }
            assert(tail.skip((next - pos) as int) =~= s@.skip(next as int));
            assert(before.put(tag, wire_type, tail.skip(n as int), room as nat) == Some(
                (acc@, (next - at) as nat),
            ));
            pos = next;
        }
        Some(acc)
    }
}

impl BlockPresence {
    /// A block presence with nothing in it.
    pub fn new() -> (p: BlockPresence)
        ensures
            p@ == WirePresence::empty(),
    {
        BlockPresence { cid: Vec::new(), kind: 0 }
    }

    /// The bytes of the block presence.
    pub fn encode(&self) -> (out: Vec<u8>)
        ensures
            out@ == self@.bytes(),
    {
        let mut out: Vec<u8> = Vec::new();
        put_opt_bytes_field(1, self.cid.as_slice(), &mut out);
        put_opt_int_field(2, self.kind, &mut out);
        assert(out@ =~= self@.bytes());
        out
    }

    /// Reads a block presence from the bytes of its fields.
    #[verifier::rlimit(50)]
    pub fn decode(s: &[u8], room: u32) -> (r: Option<BlockPresence>)
        ensures
            match r {
                Some(p) => WirePresence::empty().read(s@, room as nat) == Some(p@),
                None => WirePresence::empty().read(s@, room as nat).is_none(),
            },
    {
        let mut acc = BlockPresence::new();
        let mut pos: usize = 0;
        assert(s@.skip(0) =~= s@);
        while pos < s.len()
            invariant
                pos <= s@.len(),
                WirePresence::empty().read(s@, room as nat) == acc@.read(
                    s@.skip(pos as int),
                    room as nat,
                ),
            decreases s@.len() - pos,
        {
            let ghost tail = s@.skip(pos as int);
            let ghost before = acc@;
            let (tag, wire_type, n) = match get_key(s, pos) {
                Some(k) => k,
                None => { return None; },
            };
            let at = pos + n;
            assert(tail.skip(n as int) =~= s@.skip(at as int));
            let next: usize;
            if tag == 1 {
                match get_bytes_value(s, at, wire_type) {
                    None => { return None; },
                    Some((from, to)) => {
                        acc.cid = slice_to_vec(slice_subrange(s, from, to));
                        next = to;
                    },
                }
            } else if tag == 2 {
                match get_int_value(s, at, wire_type) {
                    None => { return None; },
                    Some((v, m)) => {
                        acc.kind = v;
                        next = at + m;
                    },
                }
            } else {
                match skip_value(s, at, tag, wire_type, room) {
                    None => { return None; },
                    Some(m) => {
                        next = at + m;
                    },
                }
            }
            assert(tail.skip((next - pos) as int) =~= s@.skip(next as int));
            assert(before.put(tag, wire_type, tail.skip(n as int), room as nat) == Some(
                (acc@, (next - at) as nat),
            ));
            pos = next;
        }
        Some(acc)
    }
}

impl Wantlist {
    /// A wantlist with nothing in it.
    pub fn new() -> (w: Wantlist)
        ensures
            w@ == WireWantlist::empty(),
    {
        let w = Wantlist { entries: Vec::new(), full: false };
        assert(w@.entries =~= Seq::<WireEntry>::empty());
        w
    }

    /// The bytes of the wantlist.
    pub fn encode(&self) -> (out: Vec<u8>)
        ensures
            out@ == self@.bytes(),
    {
        let mut out: Vec<u8> = Vec::new();
        let mut i: usize = 0;
        while i < self.entries.len()
            invariant
                i <= self.entries@.len(),
                out@ == entries_bytes(self@.entries.take(i as int)),
            decreases self.entries@.len() - i,
        {
            let body = self.entries[i].encode();
            put_bytes_field(1, body.as_slice(), &mut out);
            proof {
                let now = self@.entries.take(i + 1);
                assert(now.drop_last() =~= self@.entries.take(i as int));
                assert(now.last() == self.entries@[i as int]@);
            }
            i = i + 1;
        }
        assert(self@.entries.take(i as int) =~= self@.entries);
        put_opt_bool_field(2, self.full, &mut out);
        out
    }

    /// Reads the value of one field into the wantlist; gives the wantlist and the
    /// number of bytes that the value took.
    fn take_field(self, s: &[u8], at: usize, tag: u32, wire_type: u8, room: u32) -> (r: Option<
        (Wantlist, usize),
    >)
        requires
            at <= s@.len(),
        ensures
            match r {
                Some((w, n)) => self@.put(tag, wire_type, s@.skip(at as int), room as nat) == Some(
                    (w@, n as nat),
                ) && at + n <= s@.len() <= usize::MAX,
                None => self@.put(tag, wire_type, s@.skip(at as int), room as nat).is_none(),
            },
    {
        let mut acc = self;
        if tag == 1 {
            if room == 0 {
                return None;
            }
            match get_bytes_value(s, at, wire_type) {
                None => None,
                Some((from, to)) => match Entry::decode(slice_subrange(s, from, to), room - 1) {
                    None => None,
                    Some(e) => {
                        acc.entries.push(e);
                        assert(acc@.entries =~= self@.entries.push(e@));
                        Some((acc, to - at))
                    },
                },
            }
        } else if tag == 2 {
            match get_bool_value(s, at, wire_type) {
                None => None,
                Some((v, m)) => {
                    acc.full = v;
                    Some((acc, m))
                },
            }
        } else {
            match skip_value(s, at, tag, wire_type, room) {
                None => None,
                Some(m) => Some((acc, m)),
            }
        }
    }

    /// Reads the fields in `s` into the wantlist.
    #[verifier::rlimit(50)]
    pub fn merge(self, s: &[u8], room: u32) -> (r: Option<Wantlist>)
        ensures
            match r {
                Some(w) => self@.read(s@, room as nat) == Some(w@),
                None => self@.read(s@, room as nat).is_none(),
            },
    {
        let ghost start = self@;
        let mut acc = self;
        let mut pos: usize = 0;
        assert(s@.skip(0) =~= s@);
        while pos < s.len()
            invariant
                pos <= s@.len(),
                start == self@,
                start.read(s@, room as nat) == acc@.read(s@.skip(pos as int), room as nat),
            decreases s@.len() - pos,
        {
            let ghost tail = s@.skip(pos as int);
            let (tag, wire_type, n) = match get_key(s, pos) {
                Some(k) => k,
                None => { return None; },
            };
            let at = pos + n;
            assert(tail.skip(n as int) =~= s@.skip(at as int));
            match acc.take_field(s, at, tag, wire_type, room) {
                None => { return None; },
                Some((next, m)) => {
                    assert(tail.skip((n + m) as int) =~= s@.skip(at + m));
                    acc = next;
                    pos = at + m;
                },
            }
        }
        Some(acc)
    }
}

impl Default for Message {
    fn default() -> (m: Message)
        ensures
            m@ == WireMessage::empty(),
    {
        let m = Message {
            wantlist: None,
            blocks: Vec::new(),
            payload: Vec::new(),
            block_presences: Vec::new(),
            pending_bytes: 0,
        };
        assert(m@.blocks =~= Seq::<Seq<u8>>::empty());
        assert(m@.payload =~= Seq::<WireBlock>::empty());
        assert(m@.block_presences =~= Seq::<WirePresence>::empty());
        m
    }
}

impl Message {
    /// The bytes of the message, which read back as the same message.
    pub fn encode(&self) -> (out: Vec<u8>)
        ensures
            out@ == self@.bytes(),
            WireMessage::parse(out@) == Some(self@),
    {
        let mut out: Vec<u8> = Vec::new();
        match &self.wantlist {
            Some(w) => {
                let body = w.encode();
                put_bytes_field(1, body.as_slice(), &mut out);
            },
            None => {},
        }
        assert(out@ =~= self@.wantlist_bytes());
        let ghost head = out@;
        let mut i: usize = 0;
        while i < self.blocks.len()
            invariant
                i <= self.blocks@.len(),
                out@ == head + blocks_bytes(self@.blocks.take(i as int)),
            decreases self.blocks@.len() - i,
        {
            put_bytes_field(2, bytes_as_slice(&self.blocks[i]), &mut out);
            proof {
                let now = self@.blocks.take(i + 1);
                assert(now.drop_last() =~= self@.blocks.take(i as int));
                assert(now.last() == bytes_of(self.blocks@[i as int]));
                assert(out@ =~= head + blocks_bytes(now));
            }
            i = i + 1;
        }
        assert(self@.blocks.take(i as int) =~= self@.blocks);
        let ghost head = out@;
        let mut i: usize = 0;
        while i < self.payload.len()
            invariant
                i <= self.payload@.len(),
                out@ == head + payload_bytes(self@.payload.take(i as int)),
            decreases self.payload@.len() - i,
        {
            let body = self.payload[i].encode();
            put_bytes_field(3, body.as_slice(), &mut out);
            proof {
                let now = self@.payload.take(i + 1);
                assert(now.drop_last() =~= self@.payload.take(i as int));
                assert(now.last() == self.payload@[i as int]@);
                assert(out@ =~= head + payload_bytes(now));
            }
            i = i + 1;
        }
        assert(self@.payload.take(i as int) =~= self@.payload);
        let ghost head = out@;
        let mut i: usize = 0;
        while i < self.block_presences.len()
            invariant
                i <= self.block_presences@.len(),
                out@ == head + presences_bytes(self@.block_presences.take(i as int)),
            decreases self.block_presences@.len() - i,
        {
            let body = self.block_presences[i].encode();
            put_bytes_field(4, body.as_slice(), &mut out);
            proof {
                let now = self@.block_presences.take(i + 1);
                assert(now.drop_last() =~= self@.block_presences.take(i as int));
                assert(now.last() == self.block_presences@[i as int]@);
                assert(out@ =~= head + presences_bytes(now));
            }
            i = i + 1;
        }
        assert(self@.block_presences.take(i as int) =~= self@.block_presences);
        put_opt_int_field(5, self.pending_bytes, &mut out);
        let _ = out.len();
        proof {
            lemma_message_round_trip(self@);
        }
        out
    }

    /// Reads the value of one field into the message; gives the message and the
    /// number of bytes that the value took.
    fn take_field(self, s: &[u8], at: usize, tag: u32, wire_type: u8, room: u32) -> (r: Option<
        (Message, usize),
    >)
        requires
            at <= s@.len(),
        ensures
            match r {
                Some((m, n)) => self@.put(tag, wire_type, s@.skip(at as int), room as nat) == Some(
                    (m@, n as nat),
                ) && at + n <= s@.len() <= usize::MAX,
                None => self@.put(tag, wire_type, s@.skip(at as int), room as nat).is_none(),
            },
    {
        let mut acc = self;
        if tag == 1 {
            if room == 0 {
                return None;
            }
            match get_bytes_value(s, at, wire_type) {
                None => None,
                Some((from, to)) => {
                    let start = match acc.wantlist.take() {
                        Some(w) => w,
                        None => Wantlist::new(),
                    };
                    match start.merge(slice_subrange(s, from, to), room - 1) {
                        None => None,
                        Some(w) => {
                            acc.wantlist = Some(w);
                            Some((acc, to - at))
                        },
                    }
                },
            }
        } else if tag == 2 {
            match get_bytes_value(s, at, wire_type) {
                None => None,
                Some((from, to)) => {
                    let data = bytes_from_slice(slice_subrange(s, from, to));
                    acc.blocks.push(data);
                    assert(acc@.blocks =~= self@.blocks.push(bytes_of(data)));
                    Some((acc, to - at))
                },
            }
        } else if tag == 3 {
            if room == 0 {
                return None;
            }
            match get_bytes_value(s, at, wire_type) {
                None => None,
                Some((from, to)) => match Block::decode(slice_subrange(s, from, to), room - 1) {
                    None => None,
                    Some(b) => {
                        acc.payload.push(b);
                        assert(acc@.payload =~= self@.payload.push(b@));
                        Some((acc, to - at))
                    },
                },
            }
        } else if tag == 4 {
            if room == 0 {
                return None;
            }
            match get_bytes_value(s, at, wire_type) {
                None => None,
                Some((from, to)) => match BlockPresence::decode(
                    slice_subrange(s, from, to),
                    room - 1,
                ) {
                    None => None,
                    Some(p) => {
                        acc.block_presences.push(p);
                        assert(acc@.block_presences =~= self@.block_presences.push(p@));
                        Some((acc, to - at))
                    },
                },
            }
        } else if tag == 5 {
            match get_int_value(s, at, wire_type) {
                None => None,
                Some((v, m)) => {
                    acc.pending_bytes = v;
                    Some((acc, m))
                },
            }
        } else {
            match skip_value(s, at, tag, wire_type, room) {
                None => None,
                Some(m) => Some((acc, m)),
            }
        }
    }

    /// Reads a message from its bytes. The bytes are turned down where a key or a
    /// length cannot be read, where a value ends after the bytes do, where a known
    /// field has another wire type than its own, or where groups nest too deep.
    #[verifier::rlimit(50)]
    pub fn decode(s: &[u8]) -> (r: Result<Message, Error>)
        ensures
            match r {
                Ok(m) => WireMessage::parse(s@) == Some(m@),
                Err(e) => e == Error::MalformedWire && WireMessage::parse(s@).is_none(),
            },
    {
        let mut acc = Message::default();
        let mut pos: usize = 0;
        assert(s@.skip(0) =~= s@);
        while pos < s.len()
            invariant
                pos <= s@.len(),
                WireMessage::parse(s@) == acc@.read(s@.skip(pos as int), RECURSION_LIMIT as nat),
            decreases s@.len() - pos,
        {
            let ghost tail = s@.skip(pos as int);
            let (tag, wire_type, n) = match get_key(s, pos) {
                Some(k) => k,
                None => { return Err(Error::MalformedWire); },
            };
            let at = pos + n;
            assert(tail.skip(n as int) =~= s@.skip(at as int));
            match acc.take_field(s, at, tag, wire_type, RECURSION_LIMIT) {
                None => { return Err(Error::MalformedWire); },
                Some((next, m)) => {
                    assert(tail.skip((n + m) as int) =~= s@.skip(at + m));
                    acc = next;
                    pos = at + m;
                },
            }
        }
        Ok(acc)
    }
}

impl Clone for Entry {
    fn clone(&self) -> (r: Self)
        ensures
            r@ == self@,
    {
        let block = self.block.clone();
        assert(block@ =~= self.block@);
        Entry {
            block,
            priority: self.priority,
            cancel: self.cancel,
            want_type: self.want_type,
            send_dont_have: self.send_dont_have,
        }
    }
}

impl Clone for Wantlist {
    fn clone(&self) -> (r: Self)
        ensures
            r@ == self@,
    {
        let mut entries: Vec<Entry> = Vec::new();
        let mut i: usize = 0;
        while i < self.entries.len()
            invariant
                i <= self.entries@.len(),
                entry_views(entries@) == entry_views(self.entries@).take(i as int),
            decreases self.entries@.len() - i,
        {
            let ghost before = entries@;
            let e = self.entries[i].clone();
            entries.push(e);
            proof {
                assert(entries@ == before.push(e));
                assert(entry_views(entries@) =~= entry_views(before).push(e@));
                assert(entry_views(self.entries@).take(i + 1) =~= entry_views(self.entries@).take(
                    i as int,
                ).push(e@));
            }
            i = i + 1;
        }
        assert(entry_views(self.entries@).take(i as int) =~= entry_views(self.entries@));
        Wantlist { entries, full: self.full }
    }
}

impl Clone for Block {
    fn clone(&self) -> (r: Self)
        ensures
            r@ == self@,
    {
        let prefix = self.prefix.clone();
        assert(prefix@ =~= self.prefix@);
        Block { prefix, data: bytes_clone(&self.data) }
    }
}

impl Clone for BlockPresence {
    fn clone(&self) -> (r: Self)
        ensures
            r@ == self@,
    {
        let cid = self.cid.clone();
        assert(cid@ =~= self.cid@);
        BlockPresence { cid, kind: self.kind }
    }
}

impl Clone for Message {
    fn clone(&self) -> (r: Self)
        ensures
            r@ == self@,
    {
        let wantlist = match &self.wantlist {
            Some(w) => Some(w.clone()),
            None => None,
        };
        let mut blocks: Vec<Bytes> = Vec::new();
        let mut i: usize = 0;
        while i < self.blocks.len()
            invariant
                i <= self.blocks@.len(),
                raw_views(blocks@) == raw_views(self.blocks@).take(i as int),
            decreases self.blocks@.len() - i,
        {
            let ghost before = blocks@;
            let b = bytes_clone(&self.blocks[i]);
            blocks.push(b);
            proof {
                assert(blocks@ == before.push(b));
                assert(raw_views(blocks@) =~= raw_views(before).push(bytes_of(b)));
                assert(raw_views(self.blocks@).take(i + 1) =~= raw_views(self.blocks@).take(
                    i as int,
                ).push(bytes_of(b)));
            }
            i = i + 1;
        }
        assert(raw_views(self.blocks@).take(i as int) =~= raw_views(self.blocks@));
        let mut payload: Vec<Block> = Vec::new();
        let mut i: usize = 0;
        while i < self.payload.len()
            invariant
                i <= self.payload@.len(),
                block_views(payload@) == block_views(self.payload@).take(i as int),
            decreases self.payload@.len() - i,
        {
            let ghost before = payload@;
            let b = self.payload[i].clone();
            payload.push(b);
            proof {
                assert(payload@ == before.push(b));
                assert(block_views(payload@) =~= block_views(before).push(b@));
                assert(block_views(self.payload@).take(i + 1) =~= block_views(self.payload@).take(
                    i as int,
                ).push(b@));
            }
            i = i + 1;
        }
        assert(block_views(self.payload@).take(i as int) =~= block_views(self.payload@));
        let mut block_presences: Vec<BlockPresence> = Vec::new();
        let mut i: usize = 0;
        while i < self.block_presences.len()
            invariant
                i <= self.block_presences@.len(),
                presence_views(block_presences@) == presence_views(self.block_presences@).take(
                    i as int,
                ),
            decreases self.block_presences@.len() - i,
        {
            let ghost before = block_presences@;
            let p = self.block_presences[i].clone();
            block_presences.push(p);
            proof {
                assert(block_presences@ == before.push(p));
                assert(presence_views(block_presences@) =~= presence_views(before).push(p@));
                assert(presence_views(self.block_presences@).take(i + 1) =~= presence_views(
                    self.block_presences@,
                ).take(i as int).push(p@));
            }
            i = i + 1;
        }
        assert(presence_views(self.block_presences@).take(i as int) =~= presence_views(
            self.block_presences@,
        ));
        Message { wantlist, blocks, payload, block_presences, pending_bytes: self.pending_bytes }
    }
}

} // verus!
