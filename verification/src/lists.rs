//! The short lists that an edit of the world works through.
//!
//! An edit touches at most seven voxels, and so at most seven chunks. Both
//! lists are `arrayvec::ArrayVec`s of that capacity, which keep their items
//! in place without allocating. Verus does not look into that crate: the
//! items of this module state what the world relies on, and nothing here is
//! proved.

use arrayvec::ArrayVec;
use vstd::prelude::*;

use crate::coords::{BlockCoords, ChunkCoords};

verus! {

/// `arrayvec::ArrayVec`, a vector of bounded length stored inline.
#[verifier::external_type_specification]
#[verifier::external_body]
#[verifier::reject_recursive_types(T)]
pub struct ExArrayVec<T, const CAP: usize>(ArrayVec<T, CAP>);

/// A list of up to seven voxels.
pub type BlockList = ArrayVec<BlockCoords, 7>;

/// A list of up to seven chunks.
pub type ChunkList = ArrayVec<ChunkCoords, 7>;

/// The voxels of a list, from the first pushed to the last.
pub uninterp spec fn block_list_view(list: ArrayVec<BlockCoords, 7>) -> Seq<BlockCoords>;

/// The chunks of a list, from the first pushed to the last.
pub uninterp spec fn chunk_list_view(list: ArrayVec<ChunkCoords, 7>) -> Seq<ChunkCoords>;

/// `ArrayVec::new`: the list it returns is empty.
#[verifier::external_body]
pub(crate) fn block_list_new() -> (list: BlockList)
    ensures
        block_list_view(list) == Seq::<BlockCoords>::empty(),
{
    ArrayVec::new()
}

/// `ArrayVec::push`: the item is added at the end. The call panics on a
/// full list, which the precondition rules out.
#[verifier::external_body]
pub(crate) fn block_list_push(list: &mut BlockList, item: BlockCoords)
    requires
        block_list_view(*old(list)).len() < 7,
    ensures
        block_list_view(*final(list)) == block_list_view(*old(list)).push(item),
{
    list.push(item)
}

/// `ArrayVec::len`: the number of items in the list.
#[verifier::external_body]
pub(crate) fn block_list_len(list: &BlockList) -> (n: usize)
    ensures
        n == block_list_view(*list).len(),
        n <= 7,
{
    list.len()
}

/// Indexing an `ArrayVec` as a slice: the item at position `i`. The call
/// panics past the end, which the precondition rules out.
#[verifier::external_body]
pub(crate) fn block_list_get(list: &BlockList, i: usize) -> (item: BlockCoords)
    requires
        i < block_list_view(*list).len(),
    ensures
        item == block_list_view(*list)[i as int],
{
    list[i]
}

/// `ArrayVec::new`: the list it returns is empty.
#[verifier::external_body]
pub(crate) fn chunk_list_new() -> (list: ChunkList)
    ensures
        chunk_list_view(list) == Seq::<ChunkCoords>::empty(),
{
    ArrayVec::new()
}

/// `ArrayVec::push`: the item is added at the end. The call panics on a
/// full list, which the precondition rules out.
#[verifier::external_body]
pub(crate) fn chunk_list_push(list: &mut ChunkList, item: ChunkCoords)
    requires
        chunk_list_view(*old(list)).len() < 7,
    ensures
        chunk_list_view(*final(list)) == chunk_list_view(*old(list)).push(item),
{
    list.push(item)
}

/// `ArrayVec::len`: the number of items in the list.
#[verifier::external_body]
pub(crate) fn chunk_list_len(list: &ChunkList) -> (n: usize)
    ensures
        n == chunk_list_view(*list).len(),
        n <= 7,
{
    list.len()
}

/// Indexing an `ArrayVec` as a slice: the item at position `i`. The call
/// panics past the end, which the precondition rules out.
#[verifier::external_body]
pub(crate) fn chunk_list_get(list: &ChunkList, i: usize) -> (item: ChunkCoords)
    requires
        i < chunk_list_view(*list).len(),
    ensures
        item == chunk_list_view(*list)[i as int],
{
    list[i]
}

} // verus!
