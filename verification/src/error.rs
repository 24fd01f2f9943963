use vstd::prelude::*;

verus! {

/// Why a conversion was abandoned. No partial tree is ever handed out.
#[derive(Clone, Copy, Debug, PartialEq, Eq, Structural)]
pub enum ConvertError {
    /// A positive element count came with the null address, or claims more
    /// elements than are resident at the array's address.
    MalformedArray,
    /// A record or an array was needed at an address where nothing is
    /// resident.
    DanglingAddress,
    /// A node's stored parent address is not the address of the node under
    /// which the walk reached it.
    ParentMismatch,
}

} // verus!
