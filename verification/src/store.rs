//! The map that holds the chunks of a world.
//!
//! The chunks live in a `dashmap::DashMap`, keyed by the pair `(x, z)` of
//! their position. Verus does not look into that crate: the items of this
//! module state what the world relies on, and nothing here is proved.

use std::collections::hash_map::RandomState;
use dashmap::DashMap;
use vstd::prelude::*;

use crate::chunk::ChunkState;
use crate::coords::ChunkCoords;

verus! {

/// `dashmap::DashMap`, a hash map split into independently locked shards.
#[verifier::external_type_specification]
#[verifier::external_body]
#[verifier::reject_recursive_types(K)]
#[verifier::reject_recursive_types(V)]
#[verifier::reject_recursive_types(S)]
pub struct ExDashMap<K, V, S>(DashMap<K, V, S>);

/// The map from chunk positions to chunks.
pub type ChunkStore = DashMap<(i32, i32), ChunkState, RandomState>;

/// The entries of a store: the chunk held for each position `(x, z)`.
pub uninterp spec fn store_view(store: DashMap<(i32, i32), ChunkState, RandomState>) -> Map<
    (i32, i32),
    ChunkState,
>;

/// `DashMap::new`: the map it returns has no entries.
#[verifier::external_body]
pub(crate) fn store_new() -> (store: ChunkStore)
    ensures
        store_view(store) == (Map::<(i32, i32), ChunkState>::empty()),
{
    DashMap::new()
}

/// `DashMap::insert`: afterwards the map holds `state` for the position
/// of `cc`, in place of what it may have held there, and every other entry
/// is as before.
#[verifier::external_body]
pub(crate) fn store_insert(store: &mut ChunkStore, cc: ChunkCoords, state: ChunkState)
    ensures
        store_view(*final(store)) == store_view(*old(store)).insert((cc.x, cc.z), state),
{
    store.insert((cc.x, cc.z), state);
}

/// `DashMap::view`: where the map holds a chunk for the position of `cc`,
/// `read` is called once, on that chunk, and what it returns is handed
/// back; where it holds none, `read` is not called and the result is
/// `None`.
#[verifier::external_body]
pub(crate) fn store_read<R, F: FnOnce(&ChunkState) -> R>(
    store: &ChunkStore,
    cc: ChunkCoords,
    read: F,
) -> (r: Option<R>)
    requires
        store_view(*store).contains_key((cc.x, cc.z)) ==> call_requires(
            read,
            (&store_view(*store)[(cc.x, cc.z)],),
        ),
    ensures
        r is Some == store_view(*store).contains_key((cc.x, cc.z)),
        r is Some ==> call_ensures(read, (&store_view(*store)[(cc.x, cc.z)],), r.unwrap()),
{
    store.view(&(cc.x, cc.z), |_, state| read(state))
}

/// `DashMap::alter`: where the map holds a chunk for the position of `cc`,
/// `change` is called once, on that chunk, and what it returns takes the
/// chunk's place; every other entry is as before. Where the map holds
/// none, `change` is not called and the map stays as it is.
#[verifier::external_body]
pub(crate) fn store_alter<F: FnOnce(ChunkState) -> ChunkState>(
    store: &mut ChunkStore,
    cc: ChunkCoords,
    change: F,
)
    requires
        store_view(*old(store)).contains_key((cc.x, cc.z)) ==> call_requires(
            change,
            (store_view(*old(store))[(cc.x, cc.z)],),
        ),
    ensures
        !store_view(*old(store)).contains_key((cc.x, cc.z)) ==> store_view(*final(store))
            == store_view(*old(store)),
        store_view(*old(store)).contains_key((cc.x, cc.z)) ==> exists|state: ChunkState|
            call_ensures(change, (store_view(*old(store))[(cc.x, cc.z)],), state) && store_view(
                *final(store),
            ) == store_view(*old(store)).insert((cc.x, cc.z), state),
{
    store.alter(&(cc.x, cc.z), |_, state| change(state))
}

} // verus!
