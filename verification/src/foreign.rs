use crate::error::ConvertError;
use std::collections::HashMap;
use vstd::prelude::*;

verus! {

broadcast use vstd::std_specs::hash::group_hash_axioms;

/// The address that stands for "nothing here".
pub const NULL: u64 = 0;

/// One node record as the foreign producer lays it out: every link to
/// another record or to an array is an address, every array a pair of an
/// address and an element count.
#[derive(Debug)]
pub struct ForeignNode {
    pub name: String,
    /// Address of the array that holds the addresses of the children.
    pub children: u64,
    pub num_children: u32,
    /// Address of the array of mesh indices.
    pub meshes: u64,
    pub num_meshes: u32,
    /// Address of the metadata record, or `NULL`.
    pub metadata: u64,
    /// The sixteen scalars of the transform, row by row, each as the bit
    /// pattern of its single-precision value.
    pub transformation: [u32; 16],
    /// Address of the parent's record, or `NULL` for the root.
    pub parent: u64,
}

/// What is resident in the foreign address space, by address.
#[derive(Debug)]
pub struct ForeignMemory {
    pub nodes: HashMap<u64, ForeignNode>,
    /// Arrays of node addresses, keyed by the address of their first element.
    pub node_arrays: HashMap<u64, Vec<u64>>,
    /// Arrays of mesh indices, keyed by the address of their first element.
    pub index_arrays: HashMap<u64, Vec<u32>>,
}

/// The elements that a bounded copy of `count` elements from `address`
/// yields, or the reason why there is no such copy. A count of zero is
/// authoritative: the address is then not looked at.
pub open spec fn spec_array_copy<E>(arrays: Map<u64, Vec<E>>, address: u64, count: u32) -> Result<
    Seq<E>,
    ConvertError,
> {
    if count == 0 {
        Ok(Seq::empty())
    } else if address == NULL {
        Err(ConvertError::MalformedArray)
    } else if !arrays.contains_key(address) {
        Err(ConvertError::DanglingAddress)
    } else if arrays[address]@.len() < count {
        Err(ConvertError::MalformedArray)
    } else {
        Ok(arrays[address]@.take(count as int))
    }
}

/// Copies exactly `count` elements from the array at `address`, in order.
pub fn array_copy<E: Copy>(arrays: &HashMap<u64, Vec<E>>, address: u64, count: u32) -> (r: Result<
    Vec<E>,
    ConvertError,
>)
    ensures
        match spec_array_copy(arrays@, address, count) {
            Ok(items) => r is Ok && r.unwrap()@ == items,
            Err(e) => r == Err::<Vec<E>, ConvertError>(e),
        },
        count == 0 ==> r is Ok && r.unwrap()@.len() == 0,
{
    if count == 0 {
        return Ok(Vec::new());
    }
    if address == NULL {
        return Err(ConvertError::MalformedArray);
    }
    match arrays.get(&address) {
        None => Err(ConvertError::DanglingAddress),
        Some(resident) => {
            let wanted: usize = count as usize;
            if resident.len() < wanted {
                return Err(ConvertError::MalformedArray);
            }
            let mut copy: Vec<E> = Vec::new();
            let mut i: usize = 0;
            while i < wanted
                invariant
                    i <= wanted <= resident@.len(),
                    copy@ == resident@.take(i as int),
                decreases wanted - i,
            {
                copy.push(resident[i]);
                i += 1;
                assert(copy@ =~= resident@.take(i as int));
            }
            Ok(copy)
        },
    }
}

/// Converts what is at `address`, or reports that nothing is there: the
/// null address gives `None` and the conversion is not called.
pub fn optional_copy<V, F: Fn(u64) -> V>(address: u64, convert: &F) -> (r: Option<V>)
    requires
        address != NULL ==> call_requires(convert, (address,)),
    ensures
        address == NULL ==> r is None,
        address != NULL ==> r is Some && call_ensures(convert, (address,), r.unwrap()),
{
    if address == NULL {
        None
    } else {
        Some(convert(address))
    }
}

} // verus!
