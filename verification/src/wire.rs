//! The building blocks of the wire format: a message is a run of fields, each a key
//! (a field number and a wire type) and a value whose shape the wire type gives.

use crate::varint::{
    get_varint, lemma_read_varint, lemma_read_varint_bounds, lemma_varint_len, put_varint,
    read_varint, varint,
};
use vstd::prelude::*;
use vstd::slice::slice_subrange;

verus! {

/// Wire type of a value that is one variable-length integer.
pub const VARINT: u8 = 0;

/// Wire type of a value of eight bytes.
pub const FIXED64: u8 = 1;

/// Wire type of a value that is a length and then that many bytes.
pub const DELIMITED: u8 = 2;

/// Wire type that opens a group of fields.
pub const START_GROUP: u8 = 3;

/// Wire type that closes a group of fields.
pub const END_GROUP: u8 = 4;

/// Wire type of a value of four bytes.
pub const FIXED32: u8 = 5;

/// How deep messages and groups may nest.
pub const RECURSION_LIMIT: u32 = 100;

/// The largest field number.
pub const MAX_TAG: u32 = 0x1FFF_FFFF;

/// The key of a field: field number and wire type in one integer.
pub open spec fn key(tag: u32, wire_type: u8) -> Seq<u8> {
    varint((tag * 8 + wire_type) as nat)
}

/// A field whose value is one integer.
pub open spec fn varint_field(tag: u32, v: u64) -> Seq<u8> {
    key(tag, VARINT) + varint(v as nat)
}

/// A field whose value is a run of bytes.
pub open spec fn bytes_field(tag: u32, payload: Seq<u8>) -> Seq<u8> {
    key(tag, DELIMITED) + varint(payload.len()) + payload
}

/// A signed 32-bit number as the 64-bit integer that stands for it on the wire: a
/// negative one is extended by its sign.
pub open spec fn wide(v: i32) -> u64 {
    if v < 0 {
        (v + 0x1_0000_0000_0000_0000) as u64
    } else {
        v as u64
    }
}

/// The signed 32-bit number in the low 32 bits of a wire integer.
pub open spec fn narrow(v: u64) -> i32 {
    let low = v % 0x1_0000_0000;
    if low >= 0x8000_0000 {
        (low - 0x1_0000_0000) as i32
    } else {
        low as i32
    }
}

/// Reads a key from the front of `s`: field number, wire type, bytes taken. The key
/// fits 32 bits, the wire type is one of the six, and the field number is not zero.
pub open spec fn read_key(s: Seq<u8>) -> Option<(u32, u8, nat)> {
    match read_varint(s) {
        None => None,
        Some((k, n)) => if k > u32::MAX || k % 8 > 5 || k / 8 == 0 {
            None
        } else {
            Some(((k / 8) as u32, (k % 8) as u8, n))
        },
    }
}

/// Reads a length and then that many bytes from the front of `s`: the bytes, and how
/// many bytes both took.
pub open spec fn read_delimited(s: Seq<u8>) -> Option<(Seq<u8>, nat)> {
    match read_varint(s) {
        None => None,
        Some((len, n)) => if len > s.len() - n {
            None
        } else {
            Some((s.subrange(n as int, n + len), (n + len) as nat))
        },
    }
}

/// The number of bytes that the value of a field takes which the reader has no use
/// for. A group takes all fields up to the key that closes it, which names the same
/// field number; `room` bounds how deep groups may nest.
pub open spec fn skip_field(s: Seq<u8>, tag: u32, wire_type: u8, room: nat) -> Option<nat>
    decreases s.len(), 1nat,
{
    if room == 0 {
        None
    } else if wire_type == VARINT {
        match read_varint(s) {
            None => None,
            Some((_, n)) => Some(n),
        }
    } else if wire_type == FIXED64 {
        if s.len() >= 8 {
            Some(8)
        } else {
            None
        }
    } else if wire_type == DELIMITED {
        match read_delimited(s) {
            None => None,
            Some((_, n)) => Some(n),
        }
    } else if wire_type == START_GROUP {
        skip_group(s, tag, room)
    } else if wire_type == FIXED32 {
        if s.len() >= 4 {
            Some(4)
        } else {
            None
        }
    } else {
        None
    }
}

/// The number of bytes up to and with the key that closes the group of field `tag`.
pub open spec fn skip_group(s: Seq<u8>, tag: u32, room: nat) -> Option<nat>
    decreases s.len(), 0nat,
{
    match read_key(s) {
        None => None,
        Some((inner, wire_type, n)) => if wire_type == END_GROUP {
            if inner == tag {
                Some(n)
            } else {
                None
            }
        } else if room == 0 || n == 0 || n > s.len() {
            None
        } else {
            match skip_field(s.skip(n as int), inner, wire_type, (room - 1) as nat) {
                None => None,
                Some(m) => if n + m > s.len() {
                    None
                } else {
                    match skip_group(s.skip((n + m) as int), tag, room) {
                        None => None,
                        Some(k) => Some(n + m + k),
                    }
                },
            }
        },
    }
}

/// Narrowing undoes widening.
pub proof fn lemma_narrow_wide(v: i32)
    ensures
        narrow(wide(v)) == v,
{
}

/// A key is read back as its field number and wire type.
pub proof fn lemma_read_key(tag: u32, wire_type: u8, rest: Seq<u8>)
    requires
        1 <= tag <= MAX_TAG,
        wire_type <= 5,
    ensures
        read_key(key(tag, wire_type) + rest) == Some((tag, wire_type, key(tag, wire_type).len())),
{
    let k: u64 = (tag * 8 + wire_type) as u64;
    lemma_read_varint(k, rest);
}

/// A field of bytes is read back as its key and then its bytes.
pub proof fn lemma_read_delimited(payload: Seq<u8>, rest: Seq<u8>)
    requires
        payload.len() <= u64::MAX,
    ensures
        read_delimited(varint(payload.len()) + payload + rest) == Some(
            (payload, varint(payload.len()).len() + payload.len()),
        ),
{
    let s = varint(payload.len()) + payload + rest;
    assert(s =~= varint(payload.len()) + (payload + rest));
    lemma_read_varint(payload.len() as u64, payload + rest);
    let n = varint(payload.len()).len();
    assert(s.subrange(n as int, (n + payload.len()) as int) =~= payload);
}

/// What is read from the front of `s` lies within `s`.
pub proof fn lemma_read_bounds(s: Seq<u8>)
    ensures
        read_key(s) matches Some((tag, w, n)) ==> 1 <= n <= s.len() && n <= 10 && tag >= 1 && w <= 5,
        read_delimited(s) matches Some((p, n)) ==> 1 <= n <= s.len() && p.len() < n,
{
    lemma_read_varint_bounds(s);
}

/// Appends the key of a field.
pub fn put_key(tag: u32, wire_type: u8, out: &mut Vec<u8>)
    requires
        tag <= MAX_TAG,
        wire_type <= 5,
    ensures
        final(out)@ == old(out)@ + key(tag, wire_type),
{
    put_varint(tag as u64 * 8 + wire_type as u64, out);
}

/// Appends a field whose value is one integer.
pub fn put_varint_field(tag: u32, v: u64, out: &mut Vec<u8>)
    requires
        tag <= MAX_TAG,
    ensures
        final(out)@ == old(out)@ + varint_field(tag, v),
{
    put_key(tag, VARINT, out);
    put_varint(v, out);
    assert(out@ =~= old(out)@ + varint_field(tag, v));
}

/// Appends every byte of `bytes`.
pub fn put_slice(bytes: &[u8], out: &mut Vec<u8>)
    ensures
        final(out)@ == old(out)@ + bytes@,
{
    out.extend_from_slice(bytes);
    assert(out@ =~= old(out)@ + bytes@);
}

/// Appends a field whose value is a run of bytes.
pub fn put_bytes_field(tag: u32, payload: &[u8], out: &mut Vec<u8>)
    requires
        tag <= MAX_TAG,
    ensures
        final(out)@ == old(out)@ + bytes_field(tag, payload@),
{
    put_key(tag, DELIMITED, out);
    put_varint(payload.len() as u64, out);
    put_slice(payload, out);
    assert(out@ =~= old(out)@ + bytes_field(tag, payload@));
}

/// The wire integer of a signed 32-bit number.
pub fn widen(v: i32) -> (w: u64)
    ensures
        w == wide(v),
{
    if v < 0 {
        u64::MAX - ((-(v as i64)) as u64 - 1)
    } else {
        v as u64
    }
}

/// The signed 32-bit number in the low 32 bits of a wire integer.
pub fn narrowed(v: u64) -> (n: i32)
    ensures
        n == narrow(v),
{
    let low: u64 = v % 0x1_0000_0000;
    if low >= 0x8000_0000 {
        (low as i64 - 0x1_0000_0000) as i32
    } else {
        low as i32
    }
}

/// Reads a key from `s` at `pos`.
pub fn get_key(s: &[u8], pos: usize) -> (r: Option<(u32, u8, usize)>)
    requires
        pos <= s@.len(),
    ensures
        match r {
            Some((tag, w, n)) => read_key(s@.skip(pos as int)) == Some((tag, w, n as nat)) && 1
                <= n && pos + n <= s@.len() <= usize::MAX && tag >= 1 && w <= 5,
            None => read_key(s@.skip(pos as int)).is_none(),
        },
{
    proof {
        lemma_read_bounds(s@.skip(pos as int));
    }
    match get_varint(s, pos) {
        None => None,
        Some((k, n)) => {
            if k > 0xFFFF_FFFF || k % 8 > 5 || k / 8 == 0 {
                None
            } else {
                Some(((k / 8) as u32, (k % 8) as u8, n))
            }
        },
    }
}

/// Reads a length from `s` at `pos` and finds the bytes that follow it: where they
/// start and where they end.
pub fn get_delimited(s: &[u8], pos: usize) -> (r: Option<(usize, usize)>)
    requires
        pos <= s@.len(),
    ensures
        match r {
            Some((from, to)) => pos < from <= to <= s@.len() <= usize::MAX && read_delimited(
                s@.skip(pos as int),
            ) == Some((s@.subrange(from as int, to as int), (to - pos) as nat)),
            None => read_delimited(s@.skip(pos as int)).is_none(),
        },
{
    proof {
        lemma_read_bounds(s@.skip(pos as int));
        lemma_read_varint_bounds(s@.skip(pos as int));
    }
    match get_varint(s, pos) {
        None => None,
        Some((len, n)) => {
            let from = pos + n;
            if len > (s.len() - from) as u64 {
                None
            } else {
                let to = from + len as usize;
                assert(s@.skip(pos as int).subrange(n as int, n + len) =~= s@.subrange(
                    from as int,
                    to as int,
                ));
                Some((from, to))
            }
        },
    }
}

/// Passes over the value of a field that the reader has no use for; gives the number
/// of bytes that it takes.
pub fn skip_value(s: &[u8], pos: usize, tag: u32, wire_type: u8, room: u32) -> (r: Option<usize>)
    requires
        pos <= s@.len(),
    ensures
        match r {
            Some(n) => skip_field(s@.skip(pos as int), tag, wire_type, room as nat) == Some(
                n as nat,
            ) && pos + n <= s@.len() <= usize::MAX,
            None => skip_field(s@.skip(pos as int), tag, wire_type, room as nat).is_none(),
        },
    decreases s@.len() - pos, 1nat,
{
    let total = s.len();
    if room == 0 {
        None
    } else if wire_type == VARINT {
        match get_varint(s, pos) {
            None => None,
            Some((_, n)) => Some(n),
        }
    } else if wire_type == FIXED64 {
        if total - pos >= 8 {
            Some(8)
        } else {
            None
        }
    } else if wire_type == DELIMITED {
        match get_delimited(s, pos) {
            None => None,
            Some((_, to)) => Some(to - pos),
        }
    } else if wire_type == START_GROUP {
        skip_to_end(s, pos, tag, room)
    } else if wire_type == FIXED32 {
        if total - pos >= 4 {
            Some(4)
        } else {
            None
        }
    } else {
        None
    }
}

/// Passes over the fields of a group up to and with the key that closes it.
pub fn skip_to_end(s: &[u8], pos: usize, tag: u32, room: u32) -> (r: Option<usize>)
    requires
        pos <= s@.len(),
    ensures
        match r {
            Some(n) => skip_group(s@.skip(pos as int), tag, room as nat) == Some(n as nat) && pos
                + n <= s@.len() <= usize::MAX,
            None => skip_group(s@.skip(pos as int), tag, room as nat).is_none(),
        },
    decreases s@.len() - pos, 0nat,
{
    let ghost tail = s@.skip(pos as int);
    match get_key(s, pos) {
        None => None,
        Some((inner, wire_type, n)) => {
            if wire_type == END_GROUP {
                if inner == tag {
                    Some(n)
                } else {
                    None
                }
            } else if room == 0 {
                None
            } else {
                assert(tail.skip(n as int) =~= s@.skip(pos + n));
                match skip_value(s, pos + n, inner, wire_type, room - 1) {
                    None => None,
                    Some(m) => {
                        assert(tail.skip((n + m) as int) =~= s@.skip(pos + n + m));
                        match skip_to_end(s, pos + n + m, tag, room) {
                            None => None,
                            Some(k) => Some(n + m + k),
                        }
                    },
                }
            }
        },
    }
}


/// The value of a field of bytes: the wire type must say so.
pub open spec fn take_bytes(wire_type: u8, s: Seq<u8>) -> Option<(Seq<u8>, nat)> {
    if wire_type != DELIMITED {
        None
    } else {
        read_delimited(s)
    }
}

/// The value of a field that holds a signed 32-bit number.
pub open spec fn take_int(wire_type: u8, s: Seq<u8>) -> Option<(i32, nat)> {
    if wire_type != VARINT {
        None
    } else {
        match read_varint(s) {
            None => None,
            Some((v, n)) => Some((narrow(v), n)),
        }
    }
}

/// The value of a field that holds a truth value: any integer but zero is true.
pub open spec fn take_bool(wire_type: u8, s: Seq<u8>) -> Option<(bool, nat)> {
    if wire_type != VARINT {
        None
    } else {
        match read_varint(s) {
            None => None,
            Some((v, n)) => Some((v != 0, n)),
        }
    }
}

/// A field of bytes, left out where there are none.
pub open spec fn opt_bytes_field(tag: u32, b: Seq<u8>) -> Seq<u8> {
    if b.len() > 0 {
        bytes_field(tag, b)
    } else {
        Seq::empty()
    }
}

/// A field that holds a signed 32-bit number, left out where that is zero.
pub open spec fn opt_int_field(tag: u32, v: i32) -> Seq<u8> {
    if v != 0 {
        varint_field(tag, wide(v))
    } else {
        Seq::empty()
    }
}

/// A field that holds a truth value, left out where that is false.
pub open spec fn opt_bool_field(tag: u32, b: bool) -> Seq<u8> {
    if b {
        varint_field(tag, 1)
    } else {
        Seq::empty()
    }
}

/// Finds the value of a field of bytes in `s` at `pos`: where it starts and ends.
pub fn get_bytes_value(s: &[u8], pos: usize, wire_type: u8) -> (r: Option<(usize, usize)>)
    requires
        pos <= s@.len(),
    ensures
        match r {
            Some((from, to)) => pos < from <= to <= s@.len() <= usize::MAX && take_bytes(
                wire_type,
                s@.skip(pos as int),
            ) == Some((s@.subrange(from as int, to as int), (to - pos) as nat)),
            None => take_bytes(wire_type, s@.skip(pos as int)).is_none(),
        },
{
    if wire_type != DELIMITED {
        None
    } else {
        get_delimited(s, pos)
    }
}

/// Reads the value of a field that holds a signed 32-bit number.
pub fn get_int_value(s: &[u8], pos: usize, wire_type: u8) -> (r: Option<(i32, usize)>)
    requires
        pos <= s@.len(),
    ensures
        match r {
            Some((v, n)) => pos + n <= s@.len() <= usize::MAX && take_int(
                wire_type,
                s@.skip(pos as int),
            ) == Some((v, n as nat)),
            None => take_int(wire_type, s@.skip(pos as int)).is_none(),
        },
{
    if wire_type != VARINT {
        None
    } else {
        match get_varint(s, pos) {
            None => None,
            Some((v, n)) => Some((narrowed(v), n)),
        }
    }
}

/// Reads the value of a field that holds a truth value.
pub fn get_bool_value(s: &[u8], pos: usize, wire_type: u8) -> (r: Option<(bool, usize)>)
    requires
        pos <= s@.len(),
    ensures
        match r {
            Some((v, n)) => pos + n <= s@.len() <= usize::MAX && take_bool(
                wire_type,
                s@.skip(pos as int),
            ) == Some((v, n as nat)),
            None => take_bool(wire_type, s@.skip(pos as int)).is_none(),
        },
{
    if wire_type != VARINT {
        None
    } else {
        match get_varint(s, pos) {
            None => None,
            Some((v, n)) => Some((v != 0, n)),
        }
    }
}

/// Appends a field of bytes, unless there are none.
pub fn put_opt_bytes_field(tag: u32, payload: &[u8], out: &mut Vec<u8>)
    requires
        tag <= MAX_TAG,
    ensures
        final(out)@ == old(out)@ + opt_bytes_field(tag, payload@),
{
    if payload.len() > 0 {
        put_bytes_field(tag, payload, out);
    } else {
        assert(out@ =~= old(out)@ + opt_bytes_field(tag, payload@));
    }
}

/// Appends a field that holds a signed 32-bit number, unless that is zero.
pub fn put_opt_int_field(tag: u32, v: i32, out: &mut Vec<u8>)
    requires
        tag <= MAX_TAG,
    ensures
        final(out)@ == old(out)@ + opt_int_field(tag, v),
{
    if v != 0 {
        put_varint_field(tag, widen(v), out);
    } else {
        assert(out@ =~= old(out)@ + opt_int_field(tag, v));
    }
}

/// Appends a field that holds a truth value, unless that is false.
pub fn put_opt_bool_field(tag: u32, b: bool, out: &mut Vec<u8>)
    requires
        tag <= MAX_TAG,
    ensures
        final(out)@ == old(out)@ + opt_bool_field(tag, b),
{
    if b {
        put_varint_field(tag, 1, out);
    } else {
        assert(out@ =~= old(out)@ + opt_bool_field(tag, b));
    }
}


/// How a field of bytes at the front of a run of fields is read: its key, then its
/// value, and what follows is what is left.
pub proof fn lemma_bytes_field(tag: u32, payload: Seq<u8>, rest: Seq<u8>)
    requires
        1 <= tag <= MAX_TAG,
        payload.len() <= u64::MAX,
    ensures
        ({
            let f = bytes_field(tag, payload);
            let s = f + rest;
            let n = key(tag, DELIMITED).len();
            &&& 0 < n < f.len() <= s.len()
            &&& payload.len() < f.len()
            &&& read_key(s) == Some((tag, DELIMITED, n))
            &&& take_bytes(DELIMITED, s.skip(n as int)) == Some((payload, (f.len() - n) as nat))
            &&& s.skip(f.len() as int) == rest
        }),
{
    let f = bytes_field(tag, payload);
    let s = f + rest;
    let k = key(tag, DELIMITED);
    let body = varint(payload.len()) + payload;
    lemma_varint_len((tag * 8 + DELIMITED) as nat);
    lemma_varint_len(payload.len());
    assert(s =~= k + (body + rest));
    lemma_read_key(tag, DELIMITED, body + rest);
    assert(s.skip(k.len() as int) =~= varint(payload.len()) + payload + rest);
    lemma_read_delimited(payload, rest);
    assert(s.skip(f.len() as int) =~= rest);
    assert(f.len() == k.len() + varint(payload.len()).len() + payload.len());
}

/// How a field that holds a signed 32-bit number is read.
pub proof fn lemma_int_field(tag: u32, v: i32, rest: Seq<u8>)
    requires
        1 <= tag <= MAX_TAG,
    ensures
        ({
            let f = varint_field(tag, wide(v));
            let s = f + rest;
            let n = key(tag, VARINT).len();
            &&& 0 < n < f.len() <= s.len()
            &&& read_key(s) == Some((tag, VARINT, n))
            &&& take_int(VARINT, s.skip(n as int)) == Some((v, (f.len() - n) as nat))
            &&& s.skip(f.len() as int) == rest
        }),
{
    let f = varint_field(tag, wide(v));
    let s = f + rest;
    let k = key(tag, VARINT);
    let body = varint(wide(v) as nat);
    lemma_varint_len((tag * 8 + VARINT) as nat);
    lemma_varint_len(wide(v) as nat);
    assert(s =~= k + (body + rest));
    lemma_read_key(tag, VARINT, body + rest);
    assert(s.skip(k.len() as int) =~= body + rest);
    lemma_read_varint(wide(v), rest);
    lemma_narrow_wide(v);
    assert(s.skip(f.len() as int) =~= rest);
}

/// How a field that holds `true` is read.
pub proof fn lemma_bool_field(tag: u32, rest: Seq<u8>)
    requires
        1 <= tag <= MAX_TAG,
    ensures
        ({
            let f = varint_field(tag, 1);
            let s = f + rest;
            let n = key(tag, VARINT).len();
            &&& 0 < n < f.len() <= s.len()
            &&& read_key(s) == Some((tag, VARINT, n))
            &&& take_bool(VARINT, s.skip(n as int)) == Some((true, (f.len() - n) as nat))
            &&& s.skip(f.len() as int) == rest
        }),
{
    let f = varint_field(tag, 1);
    let s = f + rest;
    let k = key(tag, VARINT);
    let body = varint(1);
    lemma_varint_len((tag * 8 + VARINT) as nat);
    lemma_varint_len(1);
    assert(s =~= k + (body + rest));
    lemma_read_key(tag, VARINT, body + rest);
    assert(s.skip(k.len() as int) =~= body + rest);
    lemma_read_varint(1, rest);
    assert(s.skip(f.len() as int) =~= rest);
}

} // verus!
