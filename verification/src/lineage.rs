use crate::foreign::{ForeignMemory, NULL};
use vstd::prelude::*;

verus! {

broadcast use vstd::std_specs::hash::group_hash_axioms;

/// `ancestors` is a line of descent that the walk has checked: resident
/// records from the root down, each naming the one before it as its parent,
/// the first naming none, and `expected_parent` the last of them (`NULL`
/// where the line is empty).
pub(crate) closed spec fn lineage(memory: &ForeignMemory, ancestors: Seq<u64>, expected_parent: u64) -> bool {
    &&& forall|k: int|
        0 <= k < ancestors.len() ==> {
            &&& #[trigger] ancestors[k] != NULL
            &&& memory.nodes@.contains_key(ancestors[k])
            &&& memory.nodes@[ancestors[k]].parent == if k == 0 {
                NULL
            } else {
                ancestors[k - 1]
            }
        }
    &&& forall|j: int, k: int|
        0 <= j < k < ancestors.len() ==> #[trigger] ancestors[j] != #[trigger] ancestors[k]
    &&& expected_parent == if ancestors.len() == 0 {
        NULL
    } else {
        ancestors.last()
    }
}

/// The walk starts with nothing above it.
pub(crate) proof fn lemma_lineage_starts(memory: &ForeignMemory)
    ensures
        lineage(memory, Seq::empty(), NULL),
        Seq::<u64>::empty().to_set() == Set::<u64>::empty(),
{
    assert(Seq::<u64>::empty().to_set() =~= Set::<u64>::empty());
}

/// A record that names the end of a checked line as its parent is not
/// itself on that line.
pub(crate) proof fn lemma_not_on_lineage(
    memory: &ForeignMemory,
    ancestors: Seq<u64>,
    expected_parent: u64,
    address: u64,
)
    requires
        lineage(memory, ancestors, expected_parent),
        address != NULL,
        memory.nodes@.contains_key(address),
        memory.nodes@[address].parent == expected_parent,
    ensures
        !ancestors.to_set().contains(address),
        lineage(memory, ancestors.push(address), address),
        ancestors.push(address).to_set() == ancestors.to_set().insert(address),
{
    let longer = ancestors.push(address);
    assert forall|k: int| 0 <= k < ancestors.len() implies ancestors[k] != address by {
        if ancestors[k] == address {
            if k == 0 {
                assert(ancestors.last() != NULL);
            } else {
                assert(ancestors[k - 1] == ancestors[ancestors.len() - 1]);
            }
        }
    }
    assert(!ancestors.to_set().contains(address)) by {
        if ancestors.to_set().contains(address) {
            let k = choose|k: int| 0 <= k < ancestors.len() && ancestors[k] == address;
            assert(ancestors[k] != address);
        }
    }
    assert(longer.to_set() =~= ancestors.to_set().insert(address)) by {
        assert forall|a: u64| longer.to_set().contains(a) <==> ancestors.to_set().insert(
            address,
        ).contains(a) by {
            if longer.to_set().contains(a) {
                let k = choose|k: int| 0 <= k < longer.len() && longer[k] == a;
                if k < ancestors.len() {
                    assert(ancestors[k] == a);
                }
            }
            if ancestors.to_set().contains(a) {
                let k = choose|k: int| 0 <= k < ancestors.len() && ancestors[k] == a;
                assert(longer[k] == a);
            }
            if a == address {
                assert(longer[ancestors.len() as int] == a);
            }
        }
    }
    assert forall|k: int| 0 <= k < longer.len() implies {
        &&& #[trigger] longer[k] != NULL
        &&& memory.nodes@.contains_key(longer[k])
        &&& memory.nodes@[longer[k]].parent == if k == 0 {
            NULL
        } else {
            longer[k - 1]
        }
    } by {
        if k < ancestors.len() {
            assert(longer[k] == ancestors[k]);
        }
    }
}

/// A checked line is no longer than the number of resident records.
pub(crate) proof fn lemma_lineage_fits(memory: &ForeignMemory, ancestors: Seq<u64>, expected_parent: u64)
    requires
        lineage(memory, ancestors, expected_parent),
    ensures
        ancestors.len() <= memory.nodes@.dom().len(),
{
    assert(ancestors.no_duplicates());
    ancestors.unique_seq_to_set();
    assert(ancestors.to_set().subset_of(memory.nodes@.dom())) by {
        assert forall|a: u64| ancestors.to_set().contains(a) implies memory.nodes@.dom().contains(
            a,
        ) by {
            let k = choose|k: int| 0 <= k < ancestors.len() && ancestors[k] == a;
            assert(memory.nodes@.contains_key(ancestors[k]));
        }
    }
    vstd::set_lib::lemma_len_subset(ancestors.to_set(), memory.nodes@.dom());
}

} // verus!
