//! The generational arena that owns the blocks, seen through the map from
//! handle to block that it holds.
use vstd::prelude::*;
use generational_arena::{Arena, Index};
use crate::block::{BasicBlock, BlockId};

verus! {

#[verifier::external_type_specification]
#[verifier::external_body]
#[verifier::reject_recursive_types(T)]
pub struct ExArena<T>(Arena<T>);

/// The blocks that an arena holds, by handle.
pub uninterp spec fn arena_blocks(a: Arena<BasicBlock>) -> Map<BlockId, BasicBlock>;

/// Relies on `Arena::new`: the new arena holds nothing.
#[verifier::external_body]
pub(crate) fn new_block_arena() -> (r: Arena<BasicBlock>)
    ensures
        arena_blocks(r).dom().len() == 0,
        arena_blocks(r).dom().finite(),
{
    Arena::new()
}

/// Relies on `Arena::insert`: the value goes into a free slot, under a
/// handle that no live value has, and nothing else changes.
#[verifier::external_body]
pub(crate) fn arena_insert(a: &mut Arena<BasicBlock>, b: BasicBlock) -> (r: BlockId)
    ensures
        !arena_blocks(*old(a)).contains_key(r),
        arena_blocks(*final(a)) == arena_blocks(*old(a)).insert(r, b),
{
    let (index, generation) = a.insert(b).into_raw_parts();
    BlockId { index, generation }
}

/// Relies on `Arena::contains`: whether a live value has this handle.
#[verifier::external_body]
pub(crate) fn arena_contains(a: &Arena<BasicBlock>, id: BlockId) -> (r: bool)
    ensures
        r == arena_blocks(*a).contains_key(id),
{
    a.contains(Index::from_raw_parts(id.index, id.generation))
}

/// Relies on `Arena`'s `Index` impl: the value under a live handle.
#[verifier::external_body]
pub(crate) fn arena_get(a: &Arena<BasicBlock>, id: BlockId) -> (r: &BasicBlock)
    requires
        arena_blocks(*a).contains_key(id),
    ensures
        *r == arena_blocks(*a)[id],
{
    &a[Index::from_raw_parts(id.index, id.generation)]
}

/// Relies on `Arena`'s `IndexMut` impl: a borrow of the value under a live
/// handle; what is written through it is what the arena then holds there.
#[verifier::external_body]
pub(crate) fn arena_get_mut(a: &mut Arena<BasicBlock>, id: BlockId) -> (r: &mut BasicBlock)
    requires
        arena_blocks(*old(a)).contains_key(id),
    ensures
        *r == arena_blocks(*old(a))[id],
        arena_blocks(*final(a)) == arena_blocks(*old(a)).insert(id, *final(r)),
{
    &mut a[Index::from_raw_parts(id.index, id.generation)]
}

/// Relies on `Arena::iter`: each live handle once, with its value, here
/// reduced to the value's dominator field. The order is the arena's own.
#[verifier::external_body]
pub(crate) fn arena_dominators(a: &Arena<BasicBlock>) -> (r: Vec<(BlockId, Option<BlockId>)>)
    ensures
        forall|i: int|
            0 <= i < r@.len() ==> #[trigger] arena_blocks(*a).contains_key(r@[i].0)
                && r@[i].1 == arena_blocks(*a)[r@[i].0].dominator,
        forall|i: int, j: int| 0 <= i < j < r@.len() ==> r@[i].0 != r@[j].0,
        forall|k: BlockId|
            #[trigger] arena_blocks(*a).contains_key(k) ==> exists|i: int|
                0 <= i < r@.len() && r@[i].0 == k,
{
    a.iter().map(|(i, b)| {
        let (index, generation) = i.into_raw_parts();
        (BlockId { index, generation }, b.dominator)
    }).collect()
}

} // verus!
