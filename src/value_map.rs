use vstd::prelude::*;

verus! {

/// Identifier of an instruction (an SSA value) in its generator's store.
#[derive(Debug, Clone, Copy, PartialEq, Eq, Hash, Structural)]
pub struct NodeId(pub usize);

impl NodeId {
    /// Placeholder identifier, used before a real one is known.
    pub fn dummy() -> (r: NodeId)
        ensures
            r == NodeId(usize::MAX),
    {
        NodeId(usize::MAX)
    }
}

/// The map that a list of bindings denotes, a later binding of a key
/// overriding every earlier one.
pub open spec fn bindings_map(s: Seq<(NodeId, NodeId)>) -> Map<NodeId, NodeId>
    decreases s.len(),
{
    if s.len() == 0 {
        Map::empty()
    } else {
        bindings_map(s.drop_last()).insert(s.last().0, s.last().1)
    }
}

/// On a table that starts empty, a variable is found after the writes
/// `writes` exactly when one of them named it: a variable never written
/// reads as not found.
pub proof fn lemma_found_iff_written(writes: Seq<(NodeId, NodeId)>, var: NodeId)
    ensures
        bindings_map(writes).contains_key(var) <==> exists|i: int|
            0 <= i < writes.len() && #[trigger] writes[i].0 == var,
    decreases writes.len(),
{
    if writes.len() > 0 {
        let rest = writes.drop_last();
        lemma_found_iff_written(rest, var);
        if exists|i: int| 0 <= i < rest.len() && #[trigger] rest[i].0 == var {
            let i = choose|i: int| 0 <= i < rest.len() && #[trigger] rest[i].0 == var;
            assert(writes[i].0 == var);
        }
        if exists|i: int| 0 <= i < writes.len() && #[trigger] writes[i].0 == var {
            let i = choose|i: int| 0 <= i < writes.len() && #[trigger] writes[i].0 == var;
            if i < rest.len() {
                assert(rest[i].0 == var);
            }
        }
    }
}

/// Keys not bound in the suffix `s[n..]` map as in the prefix `s[..n]`.
proof fn lemma_bindings_prefix(s: Seq<(NodeId, NodeId)>, n: int, k: NodeId)
    requires
        0 <= n <= s.len(),
        forall|j: int| n <= j < s.len() ==> s[j].0 != k,
    ensures
        bindings_map(s).contains_key(k) == bindings_map(s.take(n)).contains_key(k),
        bindings_map(s)[k] == bindings_map(s.take(n))[k],
    decreases s.len() - n,
{
    if n < s.len() {
        lemma_bindings_prefix(s.drop_last(), n, k);
        assert(s.drop_last().take(n) =~= s.take(n));
    } else {
        assert(s.take(n) =~= s);
    }
}

/// Renaming table of a block: for each source variable, the SSA value that
/// currently stands for it.
pub struct ValueMap {
    entries: Vec<(NodeId, NodeId)>,
}

impl View for ValueMap {
    type V = Map<NodeId, NodeId>;

    closed spec fn view(&self) -> Map<NodeId, NodeId> {
        bindings_map(self.entries@)
    }
}

impl ValueMap {
    /// An empty table.
    pub fn new() -> (r: ValueMap)
        ensures
            r@ == Map::<NodeId, NodeId>::empty(),
    {
        ValueMap { entries: Vec::new() }
    }

    /// The value bound to `key`, if any.
    pub fn get(&self, key: NodeId) -> (r: Option<NodeId>)
        ensures
            r == (if self@.contains_key(key) {
                Some(self@[key])
            } else {
                None::<NodeId>
            }),
    {
        let mut i: usize = self.entries.len();
        while i > 0
            invariant
                i <= self.entries@.len(),
                forall|j: int| i <= j < self.entries@.len() ==> self.entries@[j].0 != key,
            decreases i,
        {
            if self.entries[i - 1].0 == key {
                proof {
                    let s = self.entries@;
                    lemma_bindings_prefix(s, i as int, key);
                    assert(s.take(i as int).drop_last() =~= s.take(i - 1));
                }
                return Some(self.entries[i - 1].1);
            }
            i = i - 1;
        }
        proof {
            lemma_bindings_prefix(self.entries@, 0, key);
        }
        None
    }

    /// Binds `key` to `value`, replacing an earlier binding of `key`.
    pub fn insert(&mut self, key: NodeId, value: NodeId)
        ensures
            final(self)@ == old(self)@.insert(key, value),
    {
        let ghost before = self.entries@;
        self.entries.push((key, value));
        assert(self.entries@.drop_last() =~= before);
    }
}

} // verus!
