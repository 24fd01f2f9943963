use crate::error::ConvertError;
use crate::foreign::{spec_array_copy, ForeignMemory, NULL};
use vstd::prelude::*;

verus! {

broadcast use vstd::std_specs::hash::group_hash_axioms;

/// The shape of a foreign tree: the address of a node's record and, in the
/// order of its child array, the shapes beneath it.
pub struct Outline {
    pub address: u64,
    pub children: Seq<Outline>,
}

/// The tree that the walk finds at `address`, or the first fault that it
/// meets on its way down, depth first and in array order.
///
/// `expected_parent` is the address of the node under which `address` was
/// found (`NULL` at the root) and `visited` holds the addresses between the
/// root and that node, both included. A record that does not name
/// `expected_parent` as its parent is a fault, and so is one that is met
/// again beneath itself: no walk goes round in circles.
pub open spec fn trace(
    memory: &ForeignMemory,
    address: u64,
    expected_parent: u64,
    visited: Set<u64>,
) -> Result<Outline, ConvertError>
    decreases memory.nodes@.dom().difference(visited).len(), 0nat,
{
    if address == NULL || !memory.nodes@.contains_key(address) {
        Err(ConvertError::DanglingAddress)
    } else if memory.nodes@[address].parent != expected_parent || visited.contains(address) {
        Err(ConvertError::ParentMismatch)
    } else {
        let record = memory.nodes@[address];
        match spec_array_copy(memory.node_arrays@, record.children, record.num_children) {
            Err(e) => Err(e),
            Ok(below) => {
                proof {
                    lemma_one_more_visited(memory, address, visited);
                }
                match trace_each(memory, below, below.len(), address, visited.insert(address)) {
                    Err(e) => Err(e),
                    Ok(children) => match spec_array_copy(
                        memory.index_arrays@,
                        record.meshes,
                        record.num_meshes,
                    ) {
                        Err(e) => Err(e),
                        Ok(_) => Ok(Outline { address, children }),
                    },
                }
            },
        }
    }
}

/// The trees at the first `n` of the addresses `below`, all children of
/// `parent`, or the first fault among them.
pub open spec fn trace_each(
    memory: &ForeignMemory,
    below: Seq<u64>,
    n: nat,
    parent: u64,
    visited: Set<u64>,
) -> Result<Seq<Outline>, ConvertError>
    decreases memory.nodes@.dom().difference(visited).len(), n + 1,
{
    if n == 0 {
        Ok(Seq::empty())
    } else {
        match trace_each(memory, below, (n - 1) as nat, parent, visited) {
            Err(e) => Err(e),
            Ok(done) => match trace(memory, below[n - 1], parent, visited) {
                Err(e) => Err(e),
                Ok(next) => Ok(done.push(next)),
            },
        }
    }
}

/// Visiting a resident address that was not visited before leaves fewer
/// addresses to visit.
pub proof fn lemma_one_more_visited(memory: &ForeignMemory, address: u64, visited: Set<u64>)
    requires
        memory.nodes@.contains_key(address),
        !visited.contains(address),
    ensures
        memory.nodes@.dom().difference(visited.insert(address)).len()
            < memory.nodes@.dom().difference(visited).len(),
{
    let before = memory.nodes@.dom().difference(visited);
    let after = memory.nodes@.dom().difference(visited.insert(address));
    assert(after =~= before.remove(address));
    assert(before.contains(address));
}

impl Outline {
    /// The shape that `path` leads to from this one, if it leads anywhere.
    pub open spec fn descend(self, path: Seq<usize>) -> Option<Outline>
        decreases path.len(),
    {
        if path.len() == 0 {
            Some(self)
        } else if path[0] < self.children.len() {
            self.children[path[0] as int].descend(path.drop_first())
        } else {
            None
        }
    }
}

/// Where the first `n` children all have a tree, the result holds the tree
/// of each, in the order of `below`.
pub proof fn lemma_trace_each_in_order(
    memory: &ForeignMemory,
    below: Seq<u64>,
    n: nat,
    parent: u64,
    visited: Set<u64>,
)
    requires
        trace_each(memory, below, n, parent, visited) is Ok,
    ensures
        trace_each(memory, below, n, parent, visited).unwrap().len() == n,
        forall|k: int|
            0 <= k < n ==> trace(memory, #[trigger] below[k], parent, visited) == Ok::<
                Outline,
                ConvertError,
            >(trace_each(memory, below, n, parent, visited).unwrap()[k]),
    decreases n,
{
    if n > 0 {
        lemma_trace_each_in_order(memory, below, (n - 1) as nat, parent, visited);
    }
}

/// A fault among the first `m` children is the fault of every longer run.
pub proof fn lemma_fault_stays(
    memory: &ForeignMemory,
    below: Seq<u64>,
    m: nat,
    n: nat,
    parent: u64,
    visited: Set<u64>,
)
    requires
        m <= n,
        trace_each(memory, below, m, parent, visited) is Err,
    ensures
        trace_each(memory, below, n, parent, visited) == trace_each(
            memory,
            below,
            m,
            parent,
            visited,
        ),
    decreases n,
{
    if m < n {
        lemma_fault_stays(memory, below, m, (n - 1) as nat, parent, visited);
    }
}

} // verus!
