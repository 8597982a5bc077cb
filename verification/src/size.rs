//! The byte cost of a message, for callers that keep to a budget.

use crate::block::BlockView;
use crate::content_id::ContentIdView;
use crate::laws::first_keys;
use crate::maps::lists;
use crate::message::{BlockPresenceType, BlockPresenceView, EntryView, MessageView};
use vstd::prelude::*;

verus! {

/// Adding to a running total the number that `lens` holds for an identifier.
pub open spec fn add_len(lens: Map<ContentIdView, nat>) -> spec_fn(nat, ContentIdView) -> nat {
    |total: nat, k: ContentIdView| total + lens[k]
}

/// The sum of the numbers that `lens` holds.
pub open spec fn map_total(lens: Map<ContentIdView, nat>) -> nat {
    lens.dom().fold(0nat, add_len(lens))
}

/// For each block, the number of bytes of its data.
pub open spec fn block_lens(blocks: Map<ContentIdView, BlockView>) -> Map<ContentIdView, nat> {
    Map::new(|k: ContentIdView| blocks.contains_key(k), |k: ContentIdView| blocks[k].data.len())
}

/// For each presence, the number of bytes that it takes on the wire.
pub open spec fn presence_lens(presences: Map<ContentIdView, BlockPresenceType>) -> Map<
    ContentIdView,
    nat,
> {
    Map::new(
        |k: ContentIdView| presences.contains_key(k),
        |k: ContentIdView| (BlockPresenceView { cid: k, typ: presences[k] }).encoded_len(),
    )
}

/// For each wantlist entry, the number of bytes that it takes on the wire.
pub open spec fn want_lens(wantlist: Map<ContentIdView, EntryView>) -> Map<ContentIdView, nat> {
    Map::new(
        |k: ContentIdView| wantlist.contains_key(k),
        |k: ContentIdView| wantlist[k].encoded_len(),
    )
}

impl MessageView {
    /// The byte cost of the message: the data of its blocks, and its presences and
    /// wantlist entries as they stand on the wire. The framing around them is not
    /// counted.
    pub open spec fn encoded_len(self) -> nat {
        map_total(block_lens(self.blocks)) + map_total(presence_lens(self.presences)) + map_total(
            want_lens(self.wantlist),
        )
    }
}

/// `total` as a machine number, or the largest such number where `total` is more.
pub open spec fn capped(total: nat) -> usize {
    if total <= usize::MAX {
        total as usize
    } else {
        usize::MAX
    }
}

/// `a` and `b` added, or the largest number where the sum is more.
pub(crate) fn add_capped(a: usize, b: usize) -> (r: usize)
    ensures
        r == capped((a + b) as nat),
{
    if b > usize::MAX - a {
        usize::MAX
    } else {
        a + b
    }
}

/// No keys add up to nothing.
pub(crate) proof fn lemma_total_start<V>(keys: Seq<ContentIdView>, lens: Map<ContentIdView, nat>)
    ensures
        first_keys(keys, 0).fold(0nat, add_len(lens)) == 0,
        first_keys(keys, 0).finite(),
{
    assert(first_keys(keys, 0) =~= Set::<ContentIdView>::empty());
    vstd::set::fold::lemma_fold_empty(0nat, add_len(lens));
}

/// One more key adds its number to the sum.
pub(crate) proof fn lemma_total_step(keys: Seq<ContentIdView>, lens: Map<ContentIdView, nat>, i: int)
    requires
        0 <= i < keys.len(),
        keys.no_duplicates(),
        first_keys(keys, i).finite(),
    ensures
        first_keys(keys, i + 1).fold(0nat, add_len(lens)) == first_keys(keys, i).fold(
            0nat,
            add_len(lens),
        ) + lens[keys[i]],
        first_keys(keys, i + 1).finite(),
{
    crate::laws::lemma_first_keys_step(keys, i);
    assert(vstd::set::fold::is_fun_commutative(add_len(lens)));
    vstd::set::fold::lemma_fold_insert(first_keys(keys, i), 0nat, add_len(lens), keys[i]);
}

/// All keys of a listing add up to the sum over the map.
pub(crate) proof fn lemma_total_end<V>(
    keys: Seq<ContentIdView>,
    values: Seq<V>,
    m: Map<ContentIdView, V>,
    lens: Map<ContentIdView, nat>,
)
    requires
        lists(keys, values, m),
        lens.dom() == m.dom(),
    ensures
        first_keys(keys, keys.len() as int).fold(0nat, add_len(lens)) == map_total(lens),
{
    assert forall|k: ContentIdView| first_keys(keys, keys.len() as int).contains(k) <==> m.dom().contains(
        k,
    ) by {
        if first_keys(keys, keys.len() as int).contains(k) {
            let j = choose|j: int| 0 <= j < keys.len() && keys[j] == k;
            assert(m.contains_key(keys[j]));
        }
        if m.contains_key(k) {
            assert(keys.contains(k));
            let j = choose|j: int| 0 <= j < keys.len() && keys[j] == k;
            assert(0 <= j < keys.len() && keys[j] == k);
        }
    }
    assert(first_keys(keys, keys.len() as int) =~= lens.dom());
}

} // verus!
