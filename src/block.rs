use vstd::prelude::*;
use crate::value_map::{NodeId, ValueMap};

verus! {

/// What a block stands for in the control flow.
#[derive(Debug, Clone, Copy, PartialEq, Eq, Structural)]
pub enum BlockType {
    Normal,
    /// Convergence point of a loop's iterations.
    ForJoin,
}

/// Handle of a block in its generator's arena: the slot and the slot's
/// generation.
#[derive(Debug, Clone, Copy, PartialEq, Eq, Hash, Structural)]
pub struct BlockId {
    pub index: usize,
    pub generation: u64,
}

impl BlockId {
    /// The placeholder handle, which names no block that an arena hands out
    /// in practice.
    pub open spec fn spec_dummy() -> BlockId {
        BlockId { index: usize::MAX, generation: 0 }
    }

    pub fn dummy() -> (r: BlockId)
        ensures
            r == BlockId::spec_dummy(),
    {
        BlockId { index: usize::MAX, generation: 0 }
    }
}

/// Reading a variable right after writing it gives the value written, and
/// leaves every other variable as it was.
pub proof fn lemma_update_then_get(
    before: BasicBlock,
    after: BasicBlock,
    var: NodeId,
    value: NodeId,
)
    requires
        after.value_map@ == before.value_map@.insert(var, value),
    ensures
        after.value_map@.contains_key(var),
        after.value_map@[var] == value,
        forall|other: NodeId|
            other != var ==> (#[trigger] after.value_map@.contains_key(other)
                == before.value_map@.contains_key(other) && after.value_map@[other]
                == before.value_map@[other]),
{
}

/// `a` and `b` agree on everything but their instruction lists.
pub open spec fn same_but_instructions(a: BasicBlock, b: BasicBlock) -> bool {
    &&& a.id == b.id
    &&& a.kind == b.kind
    &&& a.dominator == b.dominator
    &&& a.dominated == b.dominated
    &&& a.predecessor == b.predecessor
    &&& a.left == b.left
    &&& a.right == b.right
    &&& a.value_map == b.value_map
}

/// A basic block: its edges in the graph, its instructions and its
/// renaming table.
pub struct BasicBlock {
    pub id: BlockId,
    pub kind: BlockType,
    /// Immediate dominator; `None` only for the entry block.
    pub dominator: Option<BlockId>,
    /// Children in the dominator tree, filled by `compute_dom`.
    pub dominated: Vec<BlockId>,
    pub predecessor: Vec<BlockId>,
    /// Sequential successor.
    pub left: Option<BlockId>,
    /// Jump successor.
    pub right: Option<BlockId>,
    pub instructions: Vec<NodeId>,
    pub value_map: ValueMap,
}

impl BasicBlock {
    /// A block with `prev` as its one predecessor, no edges, no instructions
    /// and an empty renaming table; its `id` is a placeholder until the
    /// block is stored.
    pub fn new(prev: BlockId, kind: BlockType) -> (r: BasicBlock)
        ensures
            r.id == BlockId::spec_dummy(),
            r.kind == kind,
            r.dominator.is_none(),
            r.dominated@ == Seq::<BlockId>::empty(),
            r.predecessor@ == seq![prev],
            r.left.is_none(),
            r.right.is_none(),
            r.instructions@ == Seq::<NodeId>::empty(),
            r.value_map@ == Map::<NodeId, NodeId>::empty(),
    {
        BasicBlock {
            id: BlockId::dummy(),
            predecessor: vec![prev],
            left: None,
            right: None,
            instructions: Vec::new(),
            value_map: ValueMap::new(),
            dominator: None,
            dominated: Vec::new(),
            kind,
        }
    }

    /// The SSA value that currently stands for variable `id` in this block.
    pub fn get_current_value(&self, id: NodeId) -> (r: Option<NodeId>)
        ensures
            r == (if self.value_map@.contains_key(id) {
                Some(self.value_map@[id])
            } else {
                None::<NodeId>
            }),
    {
        self.value_map.get(id)
    }

    /// Records that `new_value` now stands for variable `old_value`.
    pub fn update_variable(&mut self, old_value: NodeId, new_value: NodeId)
        ensures
            final(self).value_map@ == old(self).value_map@.insert(old_value, new_value),
            final(self).id == old(self).id,
            final(self).kind == old(self).kind,
            final(self).dominator == old(self).dominator,
            final(self).dominated == old(self).dominated,
            final(self).predecessor == old(self).predecessor,
            final(self).left == old(self).left,
            final(self).right == old(self).right,
            final(self).instructions == old(self).instructions,
    {
        self.value_map.insert(old_value, new_value);
    }

    /// The block's first instruction.
    pub fn get_first_instruction(&self) -> (r: NodeId)
        requires
            self.instructions@.len() > 0,
        ensures
            r == self.instructions@[0],
    {
        self.instructions[0]
    }

    pub fn is_join(&self) -> (r: bool)
        ensures
            r == (self.kind == BlockType::ForJoin),
    {
        self.kind == BlockType::ForJoin
    }
}

} // verus!
