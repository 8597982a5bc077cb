//! Base-128 variable-length integers: seven bits to a byte, lowest group first, the
//! high bit of a byte saying that another byte follows.

use vstd::prelude::*;

verus! {

/// The shortest byte form of `v`.
pub open spec fn varint(v: nat) -> Seq<u8>
    decreases v,
{
    if v < 128 {
        seq![v as u8]
    } else {
        seq![(v % 128 + 128) as u8] + varint(v / 128)
    }
}

/// One more than the largest value that a form of at most `room` bytes may hold, where
/// a full ten bytes hold 64 bits: the tenth byte carries a single bit.
pub open spec fn capacity(room: nat) -> nat
    decreases room,
{
    if room <= 1 {
        2
    } else {
        128 * capacity((room - 1) as nat)
    }
}

/// Reads one integer from the front of `s`, looking at no more than `room` bytes.
/// Gives the value and the number of bytes it took, or `None` where `s` ends early,
/// where no byte among the first `room` closes the integer, or where the last byte
/// allowed holds more than its one bit. A form longer than the shortest is read too.
pub open spec fn scan(s: Seq<u8>, room: nat) -> Option<(nat, nat)>
    decreases room,
{
    if room == 0 || s.len() == 0 {
        None
    } else if s[0] < 128 {
        if room == 1 && s[0] >= 2 {
            None
        } else {
            Some((s[0] as nat, 1))
        }
    } else {
        match scan(s.skip(1), (room - 1) as nat) {
            None => None,
            Some((high, n)) => Some(((s[0] - 128) as nat + 128 * high, n + 1)),
        }
    }
}

/// Reads one 64-bit integer from the front of `s`: at most ten bytes.
pub closed spec fn read_varint(s: Seq<u8>) -> Option<(u64, nat)> {
    match scan(s, 10) {
        None => None,
        Some((v, n)) => Some((v as u64, n)),
    }
}

/// The ten-byte limit is the 64-bit limit.
pub proof fn lemma_capacity_values()
    ensures
        capacity(10) == 0x1_0000_0000_0000_0000,
        forall|room: nat| 1 <= room <= 10 ==> #[trigger] capacity(room) <= 0x1_0000_0000_0000_0000,
{
    reveal_with_fuel(capacity, 11);
    assert forall|room: nat| 1 <= room <= 10 implies #[trigger] capacity(room)
        <= 0x1_0000_0000_0000_0000 by {
        if room == 1 {
        } else if room == 2 {
        } else if room == 3 {
        } else if room == 4 {
        } else if room == 5 {
        } else if room == 6 {
        } else if room == 7 {
        } else if room == 8 {
        } else if room == 9 {
        } else {
        }
    }
}

/// What `scan` reads fits its room, and lies within the bytes given.
pub proof fn lemma_scan_bounds(s: Seq<u8>, room: nat)
    ensures
        scan(s, room) matches Some((v, n)) ==> v < capacity(room) && 1 <= n <= room && n
            <= s.len(),
    decreases room,
{
    if room == 0 || s.len() == 0 {
    } else if s[0] < 128 {
        if room >= 2 {
            lemma_capacity_at_least(room);
        }
    } else {
        lemma_scan_bounds(s.skip(1), (room - 1) as nat);
    }
}

proof fn lemma_capacity_at_least(room: nat)
    requires
        room >= 2,
    ensures
        capacity(room) >= 256,
    decreases room,
{
    reveal_with_fuel(capacity, 3);
    if room > 2 {
        lemma_capacity_at_least((room - 1) as nat);
    }
}

/// What `read_varint` reads is the value that the bytes hold, within 64 bits.
pub proof fn lemma_read_varint_bounds(s: Seq<u8>)
    ensures
        read_varint(s) matches Some((v, n)) ==> 1 <= n <= 10 && n <= s.len(),
{
    lemma_scan_bounds(s, 10);
    lemma_capacity_values();
}

/// The number of values that `k` groups of seven bits can hold.
pub open spec fn span(k: nat) -> nat
    decreases k,
{
    if k == 0 {
        1
    } else {
        128 * span((k - 1) as nat)
    }
}

proof fn lemma_varint_len_within(v: nat, k: nat)
    requires
        k >= 1,
        v < span(k),
    ensures
        1 <= varint(v).len() <= k,
    decreases k,
{
    reveal_with_fuel(span, 2);
    if v >= 128 {
        assert(k >= 2);
        lemma_varint_len_within(v / 128, (k - 1) as nat);
    }
}

/// The shortest form has between one and ten bytes for a 64-bit value.
pub proof fn lemma_varint_len(v: nat)
    ensures
        varint(v).len() >= 1,
        v < 128 ==> varint(v).len() == 1,
        v < 0x1_0000_0000 ==> varint(v).len() <= 5,
        v < 0x1_0000_0000_0000_0000 ==> varint(v).len() <= 10,
{
    reveal_with_fuel(span, 11);
    if v < 0x1_0000_0000 {
        lemma_varint_len_within(v, 5);
    }
    if v < 0x1_0000_0000_0000_0000 {
        lemma_varint_len_within(v, 10);
    }
}

/// Reading the shortest form of `v`, whatever follows it, gives `v` back.
pub proof fn lemma_scan_varint(v: nat, rest: Seq<u8>, room: nat)
    requires
        v < capacity(room),
        room >= 1,
    ensures
        scan(varint(v) + rest, room) == Some((v, varint(v).len())),
    decreases v,
{
    let s = varint(v) + rest;
    if v < 128 {
        assert(s[0] == v as u8);
    } else {
        let low = (v % 128 + 128) as u8;
        assert(s[0] == low);
        assert(room >= 2);
        assert(v / 128 < capacity((room - 1) as nat));
        lemma_scan_varint(v / 128, rest, (room - 1) as nat);
        assert(s.skip(1) =~= varint(v / 128) + rest);
        assert((low - 128) as nat + 128 * (v / 128) == v);
    }
}

/// Reading the shortest form of a 64-bit value, whatever follows it, gives it back.
pub proof fn lemma_read_varint(v: u64, rest: Seq<u8>)
    ensures
        read_varint(varint(v as nat) + rest) == Some((v, varint(v as nat).len())),
{
    lemma_capacity_values();
    lemma_scan_varint(v as nat, rest, 10);
}

/// Appends the shortest form of `v` to `out`.
pub fn put_varint(v: u64, out: &mut Vec<u8>)
    ensures
        final(out)@ == old(out)@ + varint(v as nat),
{
    let mut rest: u64 = v;
    while rest >= 128
        invariant
            out@ + varint(rest as nat) == old(out)@ + varint(v as nat),
        decreases rest,
    {
        let ghost before = out@;
        out.push((rest % 128 + 128) as u8);
        proof {
            assert(varint(rest as nat) == seq![(rest % 128 + 128) as u8] + varint(
                (rest / 128) as nat,
            ));
            assert(out@ + varint((rest / 128) as nat) =~= before + varint(rest as nat));
        }
        rest = rest / 128;
    }
    let ghost before = out@;
    out.push(rest as u8);
    proof {
        assert(out@ =~= before + varint(rest as nat));
    }
}

/// The number of bytes in the shortest form of `v`: between one and ten.
pub fn varint_len(v: u64) -> (n: usize)
    ensures
        n == varint(v as nat).len(),
        1 <= n <= 10,
{
    let mut rest: u64 = v;
    let mut n: usize = 1;
    proof {
        lemma_varint_len(v as nat);
    }
    while rest >= 128
        invariant
            n + varint(rest as nat).len() == 1 + varint(v as nat).len(),
            varint(v as nat).len() <= 10,
            n >= 1,
        decreases rest,
    {
        proof {
            assert(varint(rest as nat) == seq![(rest % 128 + 128) as u8] + varint(
                (rest / 128) as nat,
            ));
            lemma_varint_len((rest / 128) as nat);
        }
        rest = rest / 128;
        n = n + 1;
    }
    proof {
        lemma_varint_len(rest as nat);
    }
    n
}

/// Reads one integer from `s` at `pos`, looking at no more than `room` bytes.
fn scan_at(s: &[u8], pos: usize, room: u8) -> (r: Option<(u64, usize)>)
    requires
        pos <= s@.len(),
        room <= 10,
    ensures
        match r {
            Some((v, n)) => scan(s@.skip(pos as int), room as nat) == Some((v as nat, n as nat)),
            None => scan(s@.skip(pos as int), room as nat).is_none(),
        },
    decreases room,
{
    let ghost tail = s@.skip(pos as int);
    if room == 0 || pos >= s.len() {
        return None;
    }
    let b: u8 = s[pos];
    assert(tail[0] == b);
    if b < 128 {
        if room == 1 && b >= 2 {
            None
        } else {
            Some((b as u64, 1))
        }
    } else {
        proof {
            assert(tail.skip(1) =~= s@.skip(pos + 1));
            lemma_scan_bounds(tail.skip(1), (room - 1) as nat);
            lemma_capacity_values();
        }
        match scan_at(s, pos + 1, room - 1) {
            None => None,
            Some((high, n)) => {
                assert(high < capacity((room - 1) as nat));
                assert(128 * capacity((room - 1) as nat) == capacity(room as nat));
                Some(((b - 128) as u64 + 128 * high, n + 1))
            },
        }
    }
}

/// Reads one 64-bit integer from `s` at `pos`; gives the value and the number of bytes
/// that it took.
pub fn get_varint(s: &[u8], pos: usize) -> (r: Option<(u64, usize)>)
    requires
        pos <= s@.len(),
    ensures
        match r {
            Some((v, n)) => read_varint(s@.skip(pos as int)) == Some((v, n as nat)) && pos + n
                <= s@.len() <= usize::MAX,
            None => read_varint(s@.skip(pos as int)).is_none(),
        },
{
    let _ = s.len();
    proof {
        lemma_scan_bounds(s@.skip(pos as int), 10);
        lemma_capacity_values();
    }
    scan_at(s, pos, 10)
}

} // verus!
