//! The dominator tree's child lists, derived from each block's recorded
//! immediate dominator.
use vstd::prelude::*;
use crate::block::{BasicBlock, BlockId};
use crate::context::IRGenerator;
use crate::store::arena_dominators;

verus! {

/// The handles of `links` whose dominator is `d`, in the order of `links`.
pub open spec fn children_in(links: Seq<(BlockId, Option<BlockId>)>, d: BlockId) -> Seq<BlockId>
    decreases links.len(),
{
    if links.len() == 0 {
        Seq::empty()
    } else {
        let rest = children_in(links.drop_last(), d);
        if links.last().1 == Some(d) {
            rest.push(links.last().0)
        } else {
            rest
        }
    }
}

/// Some entry of `links` pairs `x` with dominator `d`.
pub open spec fn linked_to(links: Seq<(BlockId, Option<BlockId>)>, x: BlockId, d: BlockId) -> bool {
    exists|i: int| 0 <= i < links.len() && links[i].0 == x && links[i].1 == Some(d)
}

proof fn lemma_children_in(links: Seq<(BlockId, Option<BlockId>)>, d: BlockId)
    requires
        forall|i: int, j: int| 0 <= i < j < links.len() ==> links[i].0 != links[j].0,
    ensures
        children_in(links, d).no_duplicates(),
        forall|x: BlockId| children_in(links, d).contains(x) <==> #[trigger] linked_to(links, x, d),
    decreases links.len(),
{
    if links.len() > 0 {
        let rest = links.drop_last();
        let last = links.last();
        let rc = children_in(rest, d);
        lemma_children_in(rest, d);
        assert forall|x: BlockId| #[trigger] linked_to(links, x, d) <==> (linked_to(rest, x, d) || (
        last.0 == x && last.1 == Some(d))) by {
            if exists|i: int| 0 <= i < links.len() && links[i].0 == x && links[i].1 == Some(d) {
                let i = choose|i: int|
                    0 <= i < links.len() && links[i].0 == x && links[i].1 == Some(d);
                if i < links.len() - 1 {
                    assert(rest[i].0 == x && rest[i].1 == Some(d));
                }
            }
            if exists|i: int| 0 <= i < rest.len() && rest[i].0 == x && rest[i].1 == Some(d) {
                let i = choose|i: int| 0 <= i < rest.len() && rest[i].0 == x && rest[i].1 == Some(d);
                assert(links[i].0 == x && links[i].1 == Some(d));
            }
        }
        if last.1 == Some(d) {
            let c = rc.push(last.0);
            assert(children_in(links, d) == c);
            assert forall|x: BlockId| c.contains(x) <==> rc.contains(x) || x == last.0 by {
                if rc.contains(x) {
                    let k = choose|k: int| 0 <= k < rc.len() && rc[k] == x;
                    assert(c[k] == x);
                }
                if x == last.0 {
                    assert(c[rc.len() as int] == x);
                }
            }
            if rc.contains(last.0) {
                assert(linked_to(rest, last.0, d));
                let i = choose|i: int|
                    0 <= i < rest.len() && rest[i].0 == last.0 && rest[i].1 == Some(d);
                assert(links[i].0 != links[links.len() - 1].0);
            }
            assert forall|i: int, j: int| 0 <= i < c.len() && 0 <= j < c.len() && i != j implies c[i]
                != c[j] by {
                if i < rc.len() && j < rc.len() {
                    assert(c[i] == rc[i] && c[j] == rc[j]);
                }
                if i < rc.len() && j == rc.len() {
                    assert(rc.contains(rc[i]));
                }
                if j < rc.len() && i == rc.len() {
                    assert(rc.contains(rc[j]));
                }
            }
        }
    }
}

/// `after[k]` is `before[k]` with the handles in `added` appended to its
/// `dominated` list.
pub open spec fn with_children(before: BasicBlock, after: BasicBlock, added: Seq<BlockId>) -> bool {
    &&& after.dominated@ == before.dominated@ + added
    &&& after.id == before.id
    &&& after.kind == before.kind
    &&& after.dominator == before.dominator
    &&& after.predecessor == before.predecessor
    &&& after.left == before.left
    &&& after.right == before.right
    &&& after.instructions == before.instructions
    &&& after.value_map == before.value_map
}

/// `after` is `before` once each block's handle has been appended, once, to
/// the `dominated` list of its dominator; the order of the appended handles
/// is open.
pub open spec fn dom_computed(before: Map<BlockId, BasicBlock>, after: Map<BlockId, BasicBlock>) -> bool {
    &&& after.dom() == before.dom()
    &&& forall|d: BlockId|
        #[trigger] before.contains_key(d) ==> {
            let added = after[d].dominated@.skip(before[d].dominated@.len() as int);
            &&& with_children(before[d], after[d], added)
            &&& added.no_duplicates()
            &&& forall|b: BlockId|
                #[trigger] added.contains(b) <==> before.contains_key(b) && before[b].dominator
                    == Some(d)
        }
}

/// Appends each block's handle to the `dominated` list of its dominator.
/// Meant to run once, on lists that are still empty: a second run appends
/// every handle again.
pub fn compute_dom(igen: &mut IRGenerator)
    requires
        old(igen).wf(),
    ensures
        final(igen).wf(),
        dom_computed(old(igen).graph(), final(igen).graph()),
        final(igen).nodes == old(igen).nodes,
        final(igen).first_block == old(igen).first_block,
        final(igen).current_block == old(igen).current_block,
        final(igen).sealed_blocks == old(igen).sealed_blocks,
{
    let ghost g0 = igen.graph();
    let links = arena_dominators(&igen.blocks);
    let mut i: usize = 0;
    while i < links.len()
        invariant
            igen.wf(),
            i <= links@.len(),
            igen.graph().dom() == g0.dom(),
            forall|j: int|
                0 <= j < links@.len() ==> #[trigger] g0.contains_key(links@[j].0)
                    && links@[j].1 == g0[links@[j].0].dominator,
            forall|d: BlockId|
                #[trigger] g0.contains_key(d) ==> with_children(
                    g0[d],
                    igen.graph()[d],
                    children_in(links@.take(i as int), d),
                ),
            igen.nodes == old(igen).nodes,
            igen.first_block == old(igen).first_block,
            igen.current_block == old(igen).current_block,
            igen.sealed_blocks == old(igen).sealed_blocks,
        decreases links@.len() - i,
    {
        let (b, dom) = links[i];
        proof {
            assert(links@.take(i + 1).drop_last() =~= links@.take(i as int));
            assert(g0.contains_key(links@[i as int].0));
        }
        if let Some(d) = dom {
            let ghost g1 = igen.graph();
            let dom_b = igen.get_block_mut(d);
            dom_b.dominated.push(b);
            proof {
                assert forall|k: BlockId| #[trigger] g0.contains_key(k) implies with_children(
                    g0[k],
                    igen.graph()[k],
                    children_in(links@.take(i + 1), k),
                ) by {
                    if k == d {
                        assert(igen.graph()[k].dominated@ =~= g0[k].dominated@ + children_in(
                            links@.take(i + 1),
                            k,
                        ));
                    } else {
                        assert(g1.contains_key(k));
                    }
                }
            }
        } else {
        }
        i = i + 1;
    }
    proof {
        assert(links@.take(links@.len() as int) =~= links@);
        assert(igen.graph().dom() =~= g0.dom());
        assert forall|d: BlockId| #[trigger] g0.contains_key(d) implies {
            let added = igen.graph()[d].dominated@.skip(g0[d].dominated@.len() as int);
            &&& with_children(g0[d], igen.graph()[d], added)
            &&& added.no_duplicates()
            &&& forall|b: BlockId|
                #[trigger] added.contains(b) <==> g0.contains_key(b) && g0[b].dominator == Some(d)
        } by {
            lemma_children_in(links@, d);
            let added = igen.graph()[d].dominated@.skip(g0[d].dominated@.len() as int);
            assert(added =~= children_in(links@, d));
            assert forall|b: BlockId| #[trigger] added.contains(b) <==> g0.contains_key(b)
                && g0[b].dominator == Some(d) by {
                assert(added.contains(b) == linked_to(links@, b, d));
                if g0.contains_key(b) && g0[b].dominator == Some(d) {
                    let j = choose|j: int| 0 <= j < links@.len() && links@[j].0 == b;
                    assert(links@[j].1 == Some(d));
                }
            }
        }
    }
}

/// After a first run of `compute_dom`, when no block had children yet, the
/// `dominated` lists are the exact inverse of the `dominator` fields: every
/// block appears, once, in the list of its dominator and in no other list.
pub proof fn lemma_dominated_inverse(
    before: Map<BlockId, BasicBlock>,
    after: Map<BlockId, BasicBlock>,
)
    requires
        forall|k: BlockId| #[trigger] before.contains_key(k) ==> before[k].dominated@.len() == 0,
        dom_computed(before, after),
    ensures
        forall|d: BlockId| #[trigger] after.contains_key(d) ==> after[d].dominated@.no_duplicates(),
        forall|d: BlockId, b: BlockId|
            after.contains_key(d) ==> (#[trigger] after[d].dominated@.contains(b) <==> (
            after.contains_key(b) && after[b].dominator == Some(d))),
{
    assert forall|d: BlockId| #[trigger] after.contains_key(d) implies after[d].dominated@.skip(0)
        == after[d].dominated@ by {
        assert(after[d].dominated@.skip(0) =~= after[d].dominated@);
    }
    assert forall|d: BlockId, b: BlockId| after.contains_key(d) implies (
    #[trigger] after[d].dominated@.contains(b) <==> (after.contains_key(b) && after[b].dominator
        == Some(d))) by {
        assert(before.contains_key(d));
        assert(after[d].dominated@.skip(0) =~= after[d].dominated@);
        if after.contains_key(b) {
            assert(before.contains_key(b));
        }
    }
}

} // verus!
