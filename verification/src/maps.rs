//! The keyed collections of a message: hash maps from identifiers, with what Verus is
//! told of them.

use crate::block::{Block, BlockView};
use crate::content_id::{ContentId, ContentIdView};
use crate::message::{BlockPresenceType, Entry, EntryView};
use ::ahash::AHashMap;
use ::ahash::RandomState;
use vstd::prelude::*;

verus! {

/// `RandomState` of the `ahash` crate: the seed of a map's hasher. Verus sees nothing
/// inside it.
#[verifier::external_type_specification]
#[verifier::external_body]
pub struct ExRandomState(RandomState);

/// `AHashMap` of the `ahash` crate: a hash map. Verus sees nothing inside it; what a
/// map holds is named below, for each of the three kinds of map that a message has.
#[verifier::external_type_specification]
#[verifier::external_body]
#[verifier::reject_recursive_types(K)]
#[verifier::reject_recursive_types(V)]
#[verifier::reject_recursive_types(S)]
pub struct ExAHashMap<K, V, S>(AHashMap<K, V, S>);

/// `keys` and `values` list the map: every key of the map once, in any order, and
/// beside each key the value that the map holds under it.
pub open spec fn lists<V>(keys: Seq<ContentIdView>, values: Seq<V>, m: Map<ContentIdView, V>) -> bool {
    &&& keys.len() == values.len()
    &&& keys.no_duplicates()
    &&& forall|i: int| 0 <= i < keys.len() ==> #[trigger] m.contains_key(keys[i]) && m[keys[i]] == values[i]
    &&& forall|k: ContentIdView| #[trigger] m.contains_key(k) ==> keys.contains(k)
}

/// The wantlist entries that a map holds, each under its key.
pub uninterp spec fn wants_of(m: AHashMap<ContentId, Entry>) -> Map<ContentIdView, EntryView>;

/// The blocks that a map holds, each under its key.
pub uninterp spec fn blocks_of(m: AHashMap<ContentId, Block>) -> Map<ContentIdView, BlockView>;

/// The presence kinds that a map holds, each under its key.
pub uninterp spec fn presences_of(m: AHashMap<ContentId, BlockPresenceType>) -> Map<
    ContentIdView,
    BlockPresenceType,
>;

/// The keys of the pairs that a walk through a map of wants gave.
pub open spec fn want_keys(pairs: Seq<(&ContentId, &Entry)>) -> Seq<ContentIdView> {
    pairs.map_values(|p: (&ContentId, &Entry)| p.0@)
}

/// The values of the pairs that a walk through a map of wants gave.
pub open spec fn want_values(pairs: Seq<(&ContentId, &Entry)>) -> Seq<EntryView> {
    pairs.map_values(|p: (&ContentId, &Entry)| p.1@)
}

/// The keys of the pairs that a walk through a map of blocks gave.
pub open spec fn block_keys(pairs: Seq<(&ContentId, &Block)>) -> Seq<ContentIdView> {
    pairs.map_values(|p: (&ContentId, &Block)| p.0@)
}

/// The values of the pairs that a walk through a map of blocks gave.
pub open spec fn block_values(pairs: Seq<(&ContentId, &Block)>) -> Seq<BlockView> {
    pairs.map_values(|p: (&ContentId, &Block)| p.1@)
}

/// The keys of the pairs that a walk through a map of presences gave.
pub open spec fn presence_keys(pairs: Seq<(&ContentId, &BlockPresenceType)>) -> Seq<
    ContentIdView,
> {
    pairs.map_values(|p: (&ContentId, &BlockPresenceType)| p.0@)
}

/// The values of the pairs that a walk through a map of presences gave.
pub open spec fn presence_values(pairs: Seq<(&ContentId, &BlockPresenceType)>) -> Seq<
    BlockPresenceType,
> {
    pairs.map_values(|p: (&ContentId, &BlockPresenceType)| *p.1)
}

/// `AHashMap::new`: a map that holds nothing.
#[verifier::external_body]
pub(crate) fn wants_new() -> (m: AHashMap<ContentId, Entry>)
    ensures
        wants_of(m).dom() == Set::<ContentIdView>::empty(),
{
    AHashMap::new()
}

/// `HashMap::clear`: the map holds nothing afterwards.
#[verifier::external_body]
pub(crate) fn wants_clear(m: &mut AHashMap<ContentId, Entry>)
    ensures
        wants_of(*final(m)).dom() == Set::<ContentIdView>::empty(),
{
    m.clear()
}

/// `HashMap::is_empty`: whether the map holds no entry.
#[verifier::external_body]
pub(crate) fn wants_is_empty(m: &AHashMap<ContentId, Entry>) -> (b: bool)
    ensures
        b <==> wants_of(*m).dom() == Set::<ContentIdView>::empty(),
{
    m.is_empty()
}

/// `AHashMap::insert`: the map holds `v` under `k` afterwards, in place of what it held
/// under an equal key, and everything else as before.
#[verifier::external_body]
pub(crate) fn wants_insert(m: &mut AHashMap<ContentId, Entry>, k: ContentId, v: Entry)
    ensures
        wants_of(*final(m)) == wants_of(*old(m)).insert(k@, v@),
{
    m.insert(k, v);
}

/// `AHashMap::remove`: the map holds nothing under `k` afterwards, and everything else
/// as before.
#[verifier::external_body]
pub(crate) fn wants_remove(m: &mut AHashMap<ContentId, Entry>, k: &ContentId)
    ensures
        wants_of(*final(m)) == wants_of(*old(m)).remove(k@),
{
    m.remove(k);
}

/// `AHashMap::get_mut`: the entry under `k`, to be changed in place, or `None` where
/// the map holds none. What the entry is changed to is what the map then holds under
/// `k`; nothing else changes.
#[verifier::external_body]
pub(crate) fn wants_get_mut<'a>(m: &'a mut AHashMap<ContentId, Entry>, k: &ContentId) -> (r:
    Option<&'a mut Entry>)
    ensures
        match r {
            Some(e) => wants_of(*old(m)).contains_key(k@) && (*e)@ == wants_of(*old(m))[k@]
                && wants_of(*final(m)) == wants_of(*old(m)).insert(k@, (*final(e))@),
            None => !wants_of(*old(m)).contains_key(k@) && wants_of(*final(m)) == wants_of(
                *old(m),
            ),
        },
{
    m.get_mut(k)
}

/// `HashMap::iter`, gathered: every pair of the map once, in an order of the map's
/// own choosing.
#[verifier::external_body]
pub(crate) fn wants_pairs(m: &AHashMap<ContentId, Entry>) -> (r: Vec<(&ContentId, &Entry)>)
    ensures
        lists(want_keys(r@), want_values(r@), wants_of(*m)),
{
    m.iter().collect()
}

/// `AHashMap::new`: a map that holds nothing.
#[verifier::external_body]
pub(crate) fn blocks_new() -> (m: AHashMap<ContentId, Block>)
    ensures
        blocks_of(m).dom() == Set::<ContentIdView>::empty(),
{
    AHashMap::new()
}

/// `HashMap::clear`: the map holds nothing afterwards.
#[verifier::external_body]
pub(crate) fn blocks_clear(m: &mut AHashMap<ContentId, Block>)
    ensures
        blocks_of(*final(m)).dom() == Set::<ContentIdView>::empty(),
{
    m.clear()
}

/// `HashMap::is_empty`: whether the map holds no block.
#[verifier::external_body]
pub(crate) fn blocks_is_empty(m: &AHashMap<ContentId, Block>) -> (b: bool)
    ensures
        b <==> blocks_of(*m).dom() == Set::<ContentIdView>::empty(),
{
    m.is_empty()
}

/// `AHashMap::insert`: the map holds `v` under `k` afterwards, in place of what it held
/// under an equal key, and everything else as before.
#[verifier::external_body]
pub(crate) fn blocks_insert(m: &mut AHashMap<ContentId, Block>, k: ContentId, v: Block)
    ensures
        blocks_of(*final(m)) == blocks_of(*old(m)).insert(k@, v@),
{
    m.insert(k, v);
}

/// `HashMap::contains_key`: whether the map holds a block under `k`.
#[verifier::external_body]
pub(crate) fn blocks_contains_key(m: &AHashMap<ContentId, Block>, k: &ContentId) -> (b: bool)
    ensures
        b == blocks_of(*m).contains_key(k@),
{
    m.contains_key(k)
}

/// `HashMap::iter`, gathered: every pair of the map once, in an order of the map's
/// own choosing.
#[verifier::external_body]
pub(crate) fn blocks_pairs(m: &AHashMap<ContentId, Block>) -> (r: Vec<(&ContentId, &Block)>)
    ensures
        lists(block_keys(r@), block_values(r@), blocks_of(*m)),
{
    m.iter().collect()
}

/// `AHashMap::new`: a map that holds nothing.
#[verifier::external_body]
pub(crate) fn presences_new() -> (m: AHashMap<ContentId, BlockPresenceType>)
    ensures
        presences_of(m).dom() == Set::<ContentIdView>::empty(),
{
    AHashMap::new()
}

/// `HashMap::clear`: the map holds nothing afterwards.
#[verifier::external_body]
pub(crate) fn presences_clear(m: &mut AHashMap<ContentId, BlockPresenceType>)
    ensures
        presences_of(*final(m)).dom() == Set::<ContentIdView>::empty(),
{
    m.clear()
}

/// `HashMap::is_empty`: whether the map holds no presence.
#[verifier::external_body]
pub(crate) fn presences_is_empty(m: &AHashMap<ContentId, BlockPresenceType>) -> (b: bool)
    ensures
        b <==> presences_of(*m).dom() == Set::<ContentIdView>::empty(),
{
    m.is_empty()
}

/// `AHashMap::insert`: the map holds `v` under `k` afterwards, in place of what it held
/// under an equal key, and everything else as before.
#[verifier::external_body]
pub(crate) fn presences_insert(
    m: &mut AHashMap<ContentId, BlockPresenceType>,
    k: ContentId,
    v: BlockPresenceType,
)
    ensures
        presences_of(*final(m)) == presences_of(*old(m)).insert(k@, v),
{
    m.insert(k, v);
}

/// `AHashMap::remove`: the map holds nothing under `k` afterwards, and everything else
/// as before.
#[verifier::external_body]
pub(crate) fn presences_remove(m: &mut AHashMap<ContentId, BlockPresenceType>, k: &ContentId)
    ensures
        presences_of(*final(m)) == presences_of(*old(m)).remove(k@),
{
    m.remove(k);
}

/// `HashMap::iter`, gathered: every pair of the map once, in an order of the map's
/// own choosing.
#[verifier::external_body]
pub(crate) fn presences_pairs(m: &AHashMap<ContentId, BlockPresenceType>) -> (r: Vec<
    (&ContentId, &BlockPresenceType),
>)
    ensures
        lists(presence_keys(r@), presence_values(r@), presences_of(*m)),
{
    m.iter().collect()
}

/// `AHashMap::clone`: a map that holds what `m` holds.
#[verifier::external_body]
pub(crate) fn wants_clone(m: &AHashMap<ContentId, Entry>) -> (r: AHashMap<ContentId, Entry>)
    ensures
        wants_of(r) == wants_of(*m),
{
    m.clone()
}

/// `AHashMap::clone`: a map that holds what `m` holds.
#[verifier::external_body]
pub(crate) fn blocks_clone(m: &AHashMap<ContentId, Block>) -> (r: AHashMap<ContentId, Block>)
    ensures
        blocks_of(r) == blocks_of(*m),
{
    m.clone()
}

/// `AHashMap::clone`: a map that holds what `m` holds.
#[verifier::external_body]
pub(crate) fn presences_clone(m: &AHashMap<ContentId, BlockPresenceType>) -> (r: AHashMap<
    ContentId,
    BlockPresenceType,
>)
    ensures
        presences_of(r) == presences_of(*m),
{
    m.clone()
}

} // verus!
