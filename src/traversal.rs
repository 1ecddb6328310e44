//! Breadth-first traversal of a region of the graph, up to a stop block.
use vstd::prelude::*;
use crate::block::{BasicBlock, BlockId};
use crate::context::{graph_wf, successor, IRGenerator};

verus! {

/// `r` is the region of `g` from `start` to `stop`: it begins with `start`,
/// holds each block once and `stop` at no later position, is closed under
/// successors other than `stop`, and reaches each block after the first from
/// an earlier one.
pub open spec fn is_region(g: Map<BlockId, BasicBlock>, start: BlockId, stop: BlockId, r: Seq<BlockId>) -> bool {
    &&& r.len() > 0
    &&& r[0] == start
    &&& r.no_duplicates()
    &&& forall|i: int| 0 <= i < r.len() ==> #[trigger] g.contains_key(r[i])
    &&& forall|i: int| 1 <= i < r.len() ==> #[trigger] r[i] != stop
    &&& forall|i: int, s: BlockId|
        0 <= i < r.len() && #[trigger] successor(g, r[i], s) && s != stop ==> r.contains(s)
    &&& forall|i: int| 1 <= i < r.len() ==> #[trigger] reached_earlier(g, r, i)
}

/// Block `r[i]` is a successor of some block before it in `r`.
pub open spec fn reached_earlier(g: Map<BlockId, BasicBlock>, r: Seq<BlockId>, i: int) -> bool {
    exists|j: int| 0 <= j < i && #[trigger] successor(g, r[j], r[i])
}

/// A region from `start` to a different block `stop` begins with `start`,
/// never holds `stop`, holds each block once, and has at most as many
/// blocks as the graph, whatever cycles the graph has.
pub proof fn lemma_region_bounds(
    g: Map<BlockId, BasicBlock>,
    start: BlockId,
    stop: BlockId,
    r: Seq<BlockId>,
)
    requires
        graph_wf(g),
        is_region(g, start, stop, r),
        start != stop,
    ensures
        r[0] == start,
        !r.contains(stop),
        r.no_duplicates(),
        r.len() <= g.dom().len(),
{
    lemma_distinct_blocks_len(g, r);
    if r.contains(stop) {
        let i = choose|i: int| 0 <= i < r.len() && r[i] == stop;
        if i >= 1 {
            assert(r[i] != stop);
        }
    }
}

/// Whether `x` is among `v`.
fn holds(v: &Vec<BlockId>, x: BlockId) -> (r: bool)
    ensures
        r == v@.contains(x),
{
    let mut i: usize = 0;
    while i < v.len()
        invariant
            i <= v@.len(),
            forall|j: int| 0 <= j < i ==> v@[j] != x,
        decreases v@.len() - i,
    {
        if v[i] == x {
            return true;
        }
        i = i + 1;
    }
    false
}

/// A sequence of distinct blocks of `g` is no longer than `g` has blocks.
proof fn lemma_distinct_blocks_len(g: Map<BlockId, BasicBlock>, r: Seq<BlockId>)
    requires
        g.dom().finite(),
        r.no_duplicates(),
        forall|i: int| 0 <= i < r.len() ==> #[trigger] g.contains_key(r[i]),
    ensures
        r.len() <= g.dom().len(),
{
    r.unique_seq_to_set();
    vstd::set_lib::lemma_len_subset(r.to_set(), g.dom());
}

/// The blocks reachable from `start` along successor edges without going
/// through `stop`, in breadth-first order, `start` first. Each block is
/// visited once, so cycles end the walk.
pub fn bfs(start: BlockId, stop: BlockId, igen: &IRGenerator) -> (r: Vec<BlockId>)
    requires
        igen.wf(),
        igen.graph().contains_key(start),
    ensures
        is_region(igen.graph(), start, stop, r@),
        r@.len() <= igen.graph().dom().len(),
{
    let ghost g = igen.graph();
    let mut result: Vec<BlockId> = vec![start];
    let mut head: usize = 0;
    proof {
        lemma_distinct_blocks_len(g, result@);
    }
    while head < result.len()
        invariant
            g == igen.graph(),
            igen.wf(),
            head <= result@.len() <= g.dom().len(),
            result@.len() > 0,
            result@[0] == start,
            result@.no_duplicates(),
            forall|i: int| 0 <= i < result@.len() ==> #[trigger] g.contains_key(result@[i]),
            forall|i: int| 1 <= i < result@.len() ==> #[trigger] result@[i] != stop,
            forall|i: int, s: BlockId|
                0 <= i < head && #[trigger] successor(g, result@[i], s) && s != stop
                    ==> result@.contains(s),
            forall|i: int| 1 <= i < result@.len() ==> #[trigger] reached_earlier(g, result@, i),
        decreases 3 * g.dom().len() - 2 * result@.len() - head,
    {
        let block = igen.get_block(result[head]);
        let next = [block.left, block.right];
        let mut k: usize = 0;
        let ghost len0 = result@.len();
        while k < 2
            invariant
                g == igen.graph(),
                igen.wf(),
                *block == g[result@[head as int]],
                next@ == seq![block.left, block.right],
                k <= 2,
                head < result@.len() <= g.dom().len(),
                result@.len() >= len0,
                result@[0] == start,
                result@.no_duplicates(),
                forall|i: int| 0 <= i < result@.len() ==> #[trigger] g.contains_key(result@[i]),
                forall|i: int| 1 <= i < result@.len() ==> #[trigger] result@[i] != stop,
                forall|i: int, s: BlockId|
                    0 <= i < head && #[trigger] successor(g, result@[i], s) && s != stop
                        ==> result@.contains(s),
                forall|j: int|
                    0 <= j < k && next@[j].is_some() && next@[j].unwrap() != stop
                        ==> result@.contains(#[trigger] next@[j].unwrap()),
                forall|i: int| 1 <= i < result@.len() ==> #[trigger] reached_earlier(g, result@, i),
            decreases 2 - k,
        {
            if let Some(block_id) = next[k] {
                if block_id != stop && !holds(&result, block_id) {
                    let ghost before = result@;
                    proof {
                        assert(g.contains_key(result@[head as int]));
                        assert(next@[k as int] == g[result@[head as int]].left || next@[k as int]
                            == g[result@[head as int]].right);
                        assert(g.contains_key(block_id));
                        assert(successor(g, before[head as int], block_id));
                    }
                    result.push(block_id);
                    proof {
                        assert forall|i: int| 0 <= i < result@.len() implies #[trigger] g.contains_key(
                            result@[i],
                        ) by {
                            if i < before.len() {
                                assert(result@[i] == before[i]);
                            }
                        }
                        lemma_distinct_blocks_len(g, result@);
                        assert forall|x: BlockId| #[trigger] before.contains(x) implies result@.contains(
                            x,
                        ) by {
                            let w = choose|w: int| 0 <= w < before.len() && before[w] == x;
                            assert(result@[w] == x);
                        }
                        assert(result@[before.len() as int] == block_id);
                        assert(result@.contains(block_id));
                        assert forall|i: int, s: BlockId|
                            0 <= i < head && #[trigger] successor(g, result@[i], s) && s != stop
                                implies result@.contains(s) by {
                            assert(result@[i] == before[i]);
                            assert(before.contains(s));
                        }
                        assert forall|i: int| 1 <= i < result@.len() implies #[trigger] reached_earlier(
                            g,
                            result@,
                            i,
                        ) by {
                            if i < before.len() {
                                assert(reached_earlier(g, before, i));
                                let j = choose|j: int|
                                    0 <= j < i && #[trigger] successor(g, before[j], before[i]);
                                assert(result@[j] == before[j]);
                                assert(successor(g, result@[j], result@[i]));
                            } else {
                                assert(result@[head as int] == before[head as int]);
                                assert(successor(g, result@[head as int], result@[i]));
                            }
                        }
                    }
                }
            }
            k = k + 1;
        }
        proof {
            assert forall|i: int, s: BlockId|
                0 <= i < head + 1 && #[trigger] successor(g, result@[i], s) && s != stop
                    implies result@.contains(s) by {
                if i == head {
                    if g[result@[i]].left == Some(s) {
                        assert(next@[0].unwrap() == s);
                    } else {
                        assert(next@[1].unwrap() == s);
                    }
                }
            }
        }
        head = head + 1;
    }
    result
}

} // verus!
