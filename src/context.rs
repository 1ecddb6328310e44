//! The construction context: the block arena, the instruction store, the
//! entry and current block cursors and the set of sealed blocks.
use vstd::prelude::*;
use generational_arena::Arena;
use crate::block::{same_but_instructions, BasicBlock, BlockId};
use crate::store::{arena_blocks, arena_contains, arena_get, arena_get_mut, arena_insert, new_block_arena};
use crate::value_map::NodeId;

verus! {

/// Operations that this module itself emits.
#[derive(Debug, Clone, Copy, PartialEq, Eq, Structural)]
pub enum Operation {
    /// The marker that opens every block made by the standard constructors.
    Nop,
}

/// An instruction as the graph sees it: its operation and the block that
/// holds it.
#[derive(Debug, Clone, Copy, PartialEq, Eq, Structural)]
pub struct Instruction {
    pub operation: Operation,
    pub block: BlockId,
}

pub struct IRGenerator {
    pub blocks: Arena<BasicBlock>,
    /// Instruction store; a `NodeId` is a position in it.
    pub nodes: Vec<Instruction>,
    pub first_block: BlockId,
    pub current_block: BlockId,
    pub sealed_blocks: Vec<BlockId>,
}

/// `s` is a successor of `b` in the graph `g`.
pub open spec fn successor(g: Map<BlockId, BasicBlock>, b: BlockId, s: BlockId) -> bool {
    g[b].left == Some(s) || g[b].right == Some(s)
}

/// The well-formedness of a graph: finitely many blocks, each stored under
/// its own handle, and every dominator and successor edge pointing at a
/// stored block.
pub open spec fn graph_wf(g: Map<BlockId, BasicBlock>) -> bool {
    &&& g.dom().finite()
    &&& forall|k: BlockId| #[trigger] g.contains_key(k) ==> g[k].id == k
    &&& forall|k: BlockId|
        #[trigger] g.contains_key(k) && g[k].dominator.is_some() ==> g.contains_key(
            g[k].dominator.unwrap(),
        )
    &&& forall|k: BlockId|
        #[trigger] g.contains_key(k) && g[k].left.is_some() ==> g.contains_key(g[k].left.unwrap())
    &&& forall|k: BlockId|
        #[trigger] g.contains_key(k) && g[k].right.is_some() ==> g.contains_key(
            g[k].right.unwrap(),
        )
}

impl IRGenerator {
    /// The blocks of the graph, by handle.
    pub open spec fn graph(&self) -> Map<BlockId, BasicBlock> {
        arena_blocks(self.blocks)
    }

    pub open spec fn wf(&self) -> bool {
        graph_wf(self.graph())
    }

    /// An empty context: no blocks, no instructions, cursors on the
    /// placeholder handle.
    pub fn new() -> (r: IRGenerator)
        ensures
            r.wf(),
            r.graph() == Map::<BlockId, BasicBlock>::empty(),
            r.nodes@ == Seq::<Instruction>::empty(),
            r.first_block == BlockId::spec_dummy(),
            r.current_block == BlockId::spec_dummy(),
            r.sealed_blocks@ == Seq::<BlockId>::empty(),
    {
        let blocks = new_block_arena();
        proof {
            arena_blocks(blocks).dom().lemma_len0_is_empty();
            assert(arena_blocks(blocks) =~= Map::<BlockId, BasicBlock>::empty());
        }
        IRGenerator {
            blocks,
            nodes: Vec::new(),
            first_block: BlockId::dummy(),
            current_block: BlockId::dummy(),
            sealed_blocks: Vec::new(),
        }
    }

    /// Stores `block` under a fresh handle and records the handle in the
    /// block's `id`.
    pub fn insert_block(&mut self, block: BasicBlock) -> (r: BlockId)
        ensures
            !old(self).graph().contains_key(r),
            final(self).graph() == old(self).graph().insert(r, BasicBlock { id: r, ..block }),
            final(self).nodes == old(self).nodes,
            final(self).first_block == old(self).first_block,
            final(self).current_block == old(self).current_block,
            final(self).sealed_blocks == old(self).sealed_blocks,
    {
        let id = arena_insert(&mut self.blocks, block);
        let stored = arena_get_mut(&mut self.blocks, id);
        stored.id = id;
        id
    }

    /// Whether `id` names a stored block.
    pub fn contains_block(&self, id: BlockId) -> (r: bool)
        ensures
            r == self.graph().contains_key(id),
    {
        arena_contains(&self.blocks, id)
    }

    /// The block named `id`.
    pub fn get_block(&self, id: BlockId) -> (r: &BasicBlock)
        requires
            self.graph().contains_key(id),
        ensures
            *r == self.graph()[id],
    {
        arena_get(&self.blocks, id)
    }

    /// The block named `id`, if one is stored under it.
    pub fn try_get_block(&self, id: BlockId) -> (r: Option<&BasicBlock>)
        ensures
            r == (if self.graph().contains_key(id) {
                Some(&self.graph()[id])
            } else {
                None::<&BasicBlock>
            }),
    {
        if arena_contains(&self.blocks, id) {
            Some(arena_get(&self.blocks, id))
        } else {
            None
        }
    }

    /// A mutable borrow of the block named `id`.
    pub fn get_block_mut(&mut self, id: BlockId) -> (r: &mut BasicBlock)
        requires
            old(self).graph().contains_key(id),
        ensures
            *r == old(self).graph()[id],
            final(self).graph() == old(self).graph().insert(id, *final(r)),
            final(self).nodes == old(self).nodes,
            final(self).first_block == old(self).first_block,
            final(self).current_block == old(self).current_block,
            final(self).sealed_blocks == old(self).sealed_blocks,
    {
        arena_get_mut(&mut self.blocks, id)
    }

    /// Whether block `id` is sealed, that is, its predecessors are all known.
    pub fn is_sealed(&self, id: BlockId) -> (r: bool)
        ensures
            r == self.sealed_blocks@.contains(id),
    {
        let mut i: usize = 0;
        while i < self.sealed_blocks.len()
            invariant
                i <= self.sealed_blocks@.len(),
                forall|j: int| 0 <= j < i ==> self.sealed_blocks@[j] != id,
            decreases self.sealed_blocks@.len() - i,
        {
            if self.sealed_blocks[i] == id {
                return true;
            }
            i = i + 1;
        }
        false
    }

    /// Emits an instruction into the current block: it is stored and its
    /// identifier is appended to the block's instruction list.
    pub fn new_instruction(&mut self, operation: Operation) -> (r: NodeId)
        requires
            old(self).graph().contains_key(old(self).current_block),
            old(self).nodes@.len() < usize::MAX,
        ensures
            r == NodeId(old(self).nodes@.len() as usize),
            final(self).nodes@ == old(self).nodes@.push(
                Instruction { operation, block: old(self).current_block },
            ),
            final(self).graph().dom() == old(self).graph().dom(),
            forall|k: BlockId|
                #[trigger] final(self).graph().contains_key(k) && k != old(self).current_block
                    ==> final(self).graph()[k] == old(self).graph()[k],
            final(self).graph()[old(self).current_block].instructions@ == old(
                self,
            ).graph()[old(self).current_block].instructions@.push(r),
            same_but_instructions(
                final(self).graph()[old(self).current_block],
                old(self).graph()[old(self).current_block],
            ),
            final(self).first_block == old(self).first_block,
            final(self).current_block == old(self).current_block,
            final(self).sealed_blocks == old(self).sealed_blocks,
    {
        let id = NodeId(self.nodes.len());
        self.nodes.push(Instruction { operation, block: self.current_block });
        let cb = arena_get_mut(&mut self.blocks, self.current_block);
        cb.instructions.push(id);
        id
    }
}

} // verus!
