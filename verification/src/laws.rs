use crate::error::ConvertError;
use crate::foreign::{spec_array_copy, ForeignMemory, NULL};
use crate::node::{link_of, position, Node, ParentLink};
use crate::outline::{lemma_trace_each_in_order, trace, Outline};
use vstd::prelude::*;

verus! {

broadcast use vstd::std_specs::hash::group_hash_axioms;

/// A count of zero yields the empty sequence whatever the address is, be it
/// null, resident or neither.
pub proof fn lemma_zero_count_is_empty<E>(arrays: Map<u64, Vec<E>>, address: u64)
    ensures
        spec_array_copy(arrays, address, 0) == Ok::<Seq<E>, ConvertError>(Seq::empty()),
{
}

/// A record with no children and no meshes needs no array: whatever its two
/// array addresses are, a resident node that names the expected parent and
/// was not met before is found as a tree of its own.
pub proof fn lemma_zero_counts_need_no_arrays(
    memory: &ForeignMemory,
    address: u64,
    expected_parent: u64,
    visited: Set<u64>,
)
    requires
        address != NULL,
        memory.nodes@.contains_key(address),
        memory.nodes@[address].parent == expected_parent,
        !visited.contains(address),
        memory.nodes@[address].num_children == 0,
        memory.nodes@[address].num_meshes == 0,
    ensures
        trace(memory, address, expected_parent, visited) == Ok::<Outline, ConvertError>(
            Outline { address, children: Seq::empty() },
        ),
{
}

/// A copy that succeeds holds exactly `count` elements, the `i`-th of them
/// the `i`-th element resident at `address`.
pub proof fn lemma_copy_keeps_order<E>(arrays: Map<u64, Vec<E>>, address: u64, count: u32, i: int)
    requires
        spec_array_copy(arrays, address, count) is Ok,
        0 <= i < count,
    ensures
        spec_array_copy(arrays, address, count).unwrap().len() == count,
        arrays.contains_key(address),
        spec_array_copy(arrays, address, count).unwrap()[i] == arrays[address]@[i],
{
}

/// The tree found at an address has that address at its top and one child
/// for each element of the record's child array; the `i`-th child is the
/// tree found at the `i`-th element, with the node itself as its parent.
pub proof fn lemma_outline_follows_arrays(
    memory: &ForeignMemory,
    address: u64,
    expected_parent: u64,
    visited: Set<u64>,
    i: int,
)
    requires
        trace(memory, address, expected_parent, visited) is Ok,
        0 <= i < memory.nodes@[address].num_children,
    ensures
        ({
            let record = memory.nodes@[address];
            let outline = trace(memory, address, expected_parent, visited).unwrap();
            &&& memory.nodes@.contains_key(address)
            &&& record.parent == expected_parent
            &&& outline.address == address
            &&& outline.children.len() == record.num_children
            &&& memory.node_arrays@.contains_key(record.children)
            &&& outline.children[i].address == memory.node_arrays@[record.children]@[i]
            &&& trace(
                memory,
                memory.node_arrays@[record.children]@[i],
                address,
                visited.insert(address),
            ) == Ok::<Outline, ConvertError>(outline.children[i])
        }),
{
    let record = memory.nodes@[address];
    let below = spec_array_copy(
        memory.node_arrays@,
        record.children,
        record.num_children,
    ).unwrap();
    lemma_trace_each_in_order(memory, below, below.len(), address, visited.insert(address));
    assert(below[i] == memory.node_arrays@[record.children]@[i]);
}

/// Order is preserved. In the owned copy of the tree found at `address`,
/// the `i`-th child is the owned copy of the tree found at the `i`-th
/// element of the record's child array and bears that record's name, and
/// the mesh indices are the first `num_meshes` elements of the record's mesh
/// array, in order.
pub proof fn lemma_order_preserved<M, T>(
    node: Node<M, T>,
    memory: &ForeignMemory,
    address: u64,
    expected_parent: u64,
    visited: Set<u64>,
    metadata_is: spec_fn(u64, M) -> bool,
    transform_is: spec_fn([u32; 16], T) -> bool,
)
    requires
        trace(memory, address, expected_parent, visited) is Ok,
        node.matches(
            trace(memory, address, expected_parent, visited).unwrap(),
            memory,
            metadata_is,
            transform_is,
        ),
    ensures
        ({
            let record = memory.nodes@[address];
            &&& node.name@ == record.name@
            &&& node.children@.len() == record.num_children
            &&& forall|i: int|
                0 <= i < record.num_children ==> {
                    let element = memory.node_arrays@[record.children]@[i];
                    &&& trace(memory, element, address, visited.insert(address)) is Ok
                    &&& (#[trigger] node.children@[i]).matches(
                        trace(memory, element, address, visited.insert(address)).unwrap(),
                        memory,
                        metadata_is,
                        transform_is,
                    )
                    &&& node.children@[i].name@ == memory.nodes@[element].name@
                }
            &&& node.meshes@.len() == record.num_meshes
            &&& forall|j: int|
                0 <= j < record.num_meshes ==> #[trigger] node.meshes@[j]
                    == memory.index_arrays@[record.meshes]@[j]
        }),
{
    let record = memory.nodes@[address];
    let outline = trace(memory, address, expected_parent, visited).unwrap();
    assert forall|i: int| 0 <= i < record.num_children implies {
        let element = memory.node_arrays@[record.children]@[i];
        &&& trace(memory, element, address, visited.insert(address)) is Ok
        &&& (#[trigger] node.children@[i]).matches(
            trace(memory, element, address, visited.insert(address)).unwrap(),
            memory,
            metadata_is,
            transform_is,
        )
        &&& node.children@[i].name@ == memory.nodes@[element].name@
    } by {
        lemma_outline_follows_arrays(memory, address, expected_parent, visited, i);
        assert(node.children@[i].matches(
            outline.children[i],
            memory,
            metadata_is,
            transform_is,
        ));
    }
    if record.num_children > 0 {
        lemma_outline_follows_arrays(memory, address, expected_parent, visited, 0);
    }
}

/// Metadata is absent exactly where the record's metadata address is null;
/// where it is present it is related to that address as `metadata_is` says:
/// it is what the metadata conversion returned for the address.
pub proof fn lemma_metadata_follows_address<M, T>(
    node: Node<M, T>,
    outline: Outline,
    memory: &ForeignMemory,
    metadata_is: spec_fn(u64, M) -> bool,
    transform_is: spec_fn([u32; 16], T) -> bool,
)
    requires
        node.matches(outline, memory, metadata_is, transform_is),
    ensures
        node.metadata is None <==> memory.nodes@[outline.address].metadata == NULL,
        node.metadata is Some ==> metadata_is(
            memory.nodes@[outline.address].metadata,
            node.metadata.unwrap(),
        ),
{
}

/// Every node of an owned copy is the owned copy of the foreign tree at the
/// same place.
pub proof fn lemma_matches_everywhere<M, T>(
    node: Node<M, T>,
    outline: Outline,
    memory: &ForeignMemory,
    metadata_is: spec_fn(u64, M) -> bool,
    transform_is: spec_fn([u32; 16], T) -> bool,
    path: Seq<usize>,
)
    requires
        node.matches(outline, memory, metadata_is, transform_is),
    ensures
        node.descend(path) is Some <==> outline.descend(path) is Some,
        node.descend(path) is Some ==> node.descend(path).unwrap().matches(
            outline.descend(path).unwrap(),
            memory,
            metadata_is,
            transform_is,
        ),
    decreases path.len(),
{
    if path.len() > 0 && path[0] < node.children@.len() {
        lemma_matches_everywhere(
            node.children@[path[0] as int],
            outline.children[path[0] as int],
            memory,
            metadata_is,
            transform_is,
            path.drop_first(),
        );
    }
}

/// In a linked tree, the node that `path` leads to sits at its holder's
/// place followed by `path`, and is itself linked.
pub proof fn lemma_linked_everywhere<M, T>(
    node: Node<M, T>,
    link: Option<ParentLink>,
    path: Seq<usize>,
)
    requires
        node.linked(link),
        node.descend(path) is Some,
    ensures
        ({
            let found = node.descend(path).unwrap();
            &&& found.linked(link_of(found.parent))
            &&& position(link_of(found.parent)) == position(link) + path
        }),
    decreases path.len(),
{
    if path.len() == 0 {
        assert(position(link) + path =~= position(link));
    } else {
        let slot = path[0];
        let child = node.children@[slot as int];
        let below = Some(ParentLink { path: position(link), slot });
        assert(child.linked(Some(ParentLink { path: position(link), slot: (slot as int) as usize })));
        lemma_linked_everywhere(child, below, path.drop_first());
        assert(position(below) + path.drop_first() =~= position(link) + path);
    }
}

/// Parent linkage. In a tree whose root holds no handle, let `path` lead
/// from the root to a node: the handle of that node's `i`-th child names
/// `path` and slot `i`, and looked up from the root it finds that very
/// node. Only the root holds no handle.
pub proof fn lemma_parent_resolves<M, T>(root: Node<M, T>, path: Seq<usize>, i: usize)
    requires
        root.linked(None),
        root.descend(path) is Some,
        i < root.descend(path).unwrap().children@.len(),
    ensures
        ({
            let found = root.descend(path).unwrap();
            let child = found.children@[i as int];
            &&& root.parent is None
            &&& link_of(child.parent) == Some(ParentLink { path, slot: i })
            &&& root.descend(child.parent.unwrap()@.path) == Some(found)
            &&& root.descend(path.push(i)) == Some(child)
        }),
{
    let found = root.descend(path).unwrap();
    let child = found.children@[i as int];
    lemma_linked_everywhere(root, None, path);
    assert(position(None) + path =~= path);
    assert(child.linked(
        Some(ParentLink { path: position(link_of(found.parent)), slot: (i as int) as usize }),
    ));
    assert(link_of(child.parent) == Some(ParentLink { path, slot: i }));
    lemma_descend_one_more(root, path, i);
    assert(seq![i].drop_first() =~= Seq::<usize>::empty());
    assert(child.descend(Seq::<usize>::empty()) == Some(child));
    assert(found.descend(seq![i]) == Some(child));
}

/// Following `path` and then one more slot is following the longer path.
pub proof fn lemma_descend_one_more<M, T>(node: Node<M, T>, path: Seq<usize>, slot: usize)
    requires
        node.descend(path) is Some,
    ensures
        node.descend(path.push(slot)) == node.descend(path).unwrap().descend(seq![slot]),
    decreases path.len(),
{
    if path.len() == 0 {
        assert(path.push(slot) =~= seq![slot]);
    } else {
        assert(path.push(slot).drop_first() =~= path.drop_first().push(slot));
        lemma_descend_one_more(node.children@[path[0] as int], path.drop_first(), slot);
    }
}

} // verus!
