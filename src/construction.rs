//! Making blocks (entry, sealed, unsealed, bare) and relinking the
//! successor edges of a block.
use vstd::prelude::*;
use crate::block::{BasicBlock, BlockId, BlockType};
use crate::context::{IRGenerator, Instruction, Operation};
use crate::value_map::NodeId;

verus! {

/// `b` is a block as the standard constructors leave it: stored under `id`,
/// with dominator `dom`, the single predecessor `pred`, no edges, no
/// dominator-tree children, an empty renaming table and the one opening
/// instruction `first`.
pub open spec fn opened_block(
    b: BasicBlock,
    id: BlockId,
    kind: BlockType,
    dom: Option<BlockId>,
    pred: BlockId,
    first: NodeId,
) -> bool {
    &&& b.id == id
    &&& b.kind == kind
    &&& b.dominator == dom
    &&& b.dominated@ == Seq::<BlockId>::empty()
    &&& b.predecessor@ == seq![pred]
    &&& b.left.is_none()
    &&& b.right.is_none()
    &&& b.instructions@ == seq![first]
    &&& b.value_map@ == Map::<NodeId, NodeId>::empty()
}

/// `after` holds the blocks of `before` unchanged, except those named in `changed`.
pub open spec fn unchanged_except(
    before: Map<BlockId, BasicBlock>,
    after: Map<BlockId, BasicBlock>,
    changed: Set<BlockId>,
) -> bool {
    forall|k: BlockId|
        #[trigger] before.contains_key(k) && !changed.contains(k) ==> after.contains_key(k)
            && after[k] == before[k]
}

/// The graph after `target`'s successors are set to `left` and `right`, and
/// each present successor's dominator to `target`; `g` itself when `target`
/// names no block.
pub open spec fn relinked(
    g: Map<BlockId, BasicBlock>,
    target: BlockId,
    left: Option<BlockId>,
    right: Option<BlockId>,
) -> Map<BlockId, BasicBlock> {
    if g.contains_key(target) {
        let g1 = g.insert(target, BasicBlock { left: left, right: right, ..g[target] });
        let g2 = match right {
            Some(s) => g1.insert(s, BasicBlock { dominator: Some(target), ..g1[s] }),
            None => g1,
        };
        match left {
            Some(s) => g2.insert(s, BasicBlock { dominator: Some(target), ..g2[s] }),
            None => g2,
        }
    } else {
        g
    }
}

/// Makes the entry block, with no dominator and the placeholder handle as
/// its predecessor, and points both cursors at it.
pub fn create_first_block(igen: &mut IRGenerator)
    requires
        old(igen).wf(),
        old(igen).nodes@.len() < usize::MAX,
    ensures
        final(igen).wf(),
        !old(igen).graph().contains_key(final(igen).first_block),
        final(igen).current_block == final(igen).first_block,
        final(igen).graph().dom() == old(igen).graph().dom().insert(final(igen).first_block),
        unchanged_except(old(igen).graph(), final(igen).graph(), set![final(igen).first_block]),
        opened_block(
            final(igen).graph()[final(igen).first_block],
            final(igen).first_block,
            BlockType::Normal,
            None,
            BlockId::spec_dummy(),
            NodeId(old(igen).nodes@.len() as usize),
        ),
        final(igen).nodes@ == old(igen).nodes@.push(
            Instruction { operation: Operation::Nop, block: final(igen).first_block },
        ),
        final(igen).sealed_blocks == old(igen).sealed_blocks,
{
    let first_block = BasicBlock::new(BlockId::dummy(), BlockType::Normal);
    let first_id = igen.insert_block(first_block);
    igen.first_block = first_id;
    igen.current_block = first_id;
    igen.new_instruction(Operation::Nop);
    proof {
        assert(final(igen).graph().dom() =~= old(igen).graph().dom().insert(first_id));
    }
}

/// Makes a sealed block: all its predecessors are known, the current block
/// being the only one. The current block falls through to it and dominates
/// it; it is added to the sealed set and becomes the current block.
pub fn new_sealed_block(igen: &mut IRGenerator, kind: BlockType) -> (r: BlockId)
    requires
        old(igen).wf(),
        old(igen).graph().contains_key(old(igen).current_block),
        old(igen).nodes@.len() < usize::MAX,
    ensures
        final(igen).wf(),
        !old(igen).graph().contains_key(r),
        final(igen).graph().dom() == old(igen).graph().dom().insert(r),
        unchanged_except(old(igen).graph(), final(igen).graph(), set![old(igen).current_block]),
        final(igen).graph()[old(igen).current_block] == (BasicBlock {
            left: Some(r),
            ..old(igen).graph()[old(igen).current_block]
        }),
        opened_block(
            final(igen).graph()[r],
            r,
            kind,
            Some(old(igen).current_block),
            old(igen).current_block,
            NodeId(old(igen).nodes@.len() as usize),
        ),
        final(igen).current_block == r,
        final(igen).first_block == old(igen).first_block,
        final(igen).sealed_blocks@ == old(igen).sealed_blocks@.push(r),
        final(igen).nodes@ == old(igen).nodes@.push(
            Instruction { operation: Operation::Nop, block: r },
        ),
{
    let current_block = igen.current_block;
    let new_block = BasicBlock::new(igen.current_block, kind);
    let new_id = igen.insert_block(new_block);
    let stored = igen.get_block_mut(new_id);
    stored.dominator = Some(current_block);
    igen.sealed_blocks.push(new_id);

    let cb = igen.get_block_mut(current_block);
    cb.left = Some(new_id);
    let ghost linked = igen.graph();
    assert(linked[current_block] == (BasicBlock { left: Some(new_id), ..old(igen).graph()[current_block] }));
    igen.current_block = new_id;
    igen.new_instruction(Operation::Nop);
    proof {
        assert(final(igen).graph().contains_key(current_block));
        assert(final(igen).graph().dom() =~= old(igen).graph().dom().insert(new_id));
    }
    new_id
}

/// Makes an unsealed block: its predecessors are not all known yet, so it
/// stays out of the sealed set. The current block dominates it and reaches
/// it by its `left` edge when `left` holds, else by its `right` edge; it
/// becomes the current block.
pub fn new_unsealed_block(igen: &mut IRGenerator, kind: BlockType, left: bool) -> (r: BlockId)
    requires
        old(igen).wf(),
        old(igen).graph().contains_key(old(igen).current_block),
        old(igen).nodes@.len() < usize::MAX,
    ensures
        final(igen).wf(),
        !old(igen).graph().contains_key(r),
        final(igen).graph().dom() == old(igen).graph().dom().insert(r),
        unchanged_except(old(igen).graph(), final(igen).graph(), set![old(igen).current_block]),
        final(igen).graph()[old(igen).current_block] == (if left {
            BasicBlock { left: Some(r), ..old(igen).graph()[old(igen).current_block] }
        } else {
            BasicBlock { right: Some(r), ..old(igen).graph()[old(igen).current_block] }
        }),
        opened_block(
            final(igen).graph()[r],
            r,
            kind,
            Some(old(igen).current_block),
            old(igen).current_block,
            NodeId(old(igen).nodes@.len() as usize),
        ),
        final(igen).current_block == r,
        final(igen).first_block == old(igen).first_block,
        final(igen).sealed_blocks == old(igen).sealed_blocks,
        final(igen).nodes@ == old(igen).nodes@.push(
            Instruction { operation: Operation::Nop, block: r },
        ),
{
    let current_block = igen.current_block;
    let new_block = create_block(igen, kind);
    new_block.dominator = Some(current_block);
    let new_idx = new_block.id;

    let cb = igen.get_block_mut(current_block);
    if left {
        cb.left = Some(new_idx);
    } else {
        cb.right = Some(new_idx);
    }
    let ghost linked = igen.graph();
    assert(linked[current_block] == (if left {
        BasicBlock { left: Some(new_idx), ..old(igen).graph()[current_block] }
    } else {
        BasicBlock { right: Some(new_idx), ..old(igen).graph()[current_block] }
    }));
    igen.current_block = new_idx;
    igen.new_instruction(Operation::Nop);
    proof {
        assert(final(igen).graph().contains_key(current_block));
        assert(final(igen).graph().dom() =~= old(igen).graph().dom().insert(new_idx));
    }
    new_idx
}

/// Makes a bare block: stored, with the current block as its predecessor,
/// and nothing else. The current block is not changed and no instruction is
/// emitted; the caller wires the block through the returned borrow.
pub fn create_block<'a>(igen: &'a mut IRGenerator, kind: BlockType) -> (r: &'a mut BasicBlock)
    ensures
        !old(igen).graph().contains_key(r.id),
        final(igen).graph() == old(igen).graph().insert(r.id, *final(r)),
        r.kind == kind,
        r.dominator.is_none(),
        r.dominated@ == Seq::<BlockId>::empty(),
        r.predecessor@ == seq![old(igen).current_block],
        r.left.is_none(),
        r.right.is_none(),
        r.instructions@ == Seq::<NodeId>::empty(),
        r.value_map@ == Map::<NodeId, NodeId>::empty(),
        final(igen).nodes == old(igen).nodes,
        final(igen).first_block == old(igen).first_block,
        final(igen).current_block == old(igen).current_block,
        final(igen).sealed_blocks == old(igen).sealed_blocks,
{
    let new_block = BasicBlock::new(igen.current_block, kind);
    let id = igen.insert_block(new_block);
    igen.get_block_mut(id)
}

/// Sets `target`'s successors to `left` and `right` and makes `target` the
/// dominator of each present one; does nothing when `target` names no block.
pub fn link_with_target(
    igen: &mut IRGenerator,
    target: BlockId,
    left: Option<BlockId>,
    right: Option<BlockId>,
)
    requires
        old(igen).wf(),
        old(igen).graph().contains_key(target) && left.is_some() ==> old(
            igen,
        ).graph().contains_key(left.unwrap()),
        old(igen).graph().contains_key(target) && right.is_some() ==> old(
            igen,
        ).graph().contains_key(right.unwrap()),
    ensures
        final(igen).wf(),
        final(igen).graph() == relinked(old(igen).graph(), target, left, right),
        final(igen).nodes == old(igen).nodes,
        final(igen).first_block == old(igen).first_block,
        final(igen).current_block == old(igen).current_block,
        final(igen).sealed_blocks == old(igen).sealed_blocks,
{
    if igen.contains_block(target) {
        let target_block = igen.get_block_mut(target);
        target_block.right = right;
        target_block.left = left;
        if let Some(right_uw) = right {
            igen.get_block_mut(right_uw).dominator = Some(target);
        }
        if let Some(left_uw) = left {
            igen.get_block_mut(left_uw).dominator = Some(target);
        }
    }
}

} // verus!
