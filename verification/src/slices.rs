//! Facts about slices that hold of every one of them.
use vstd::prelude::*;

verus! {

/// The length of a slice is a machine integer.
pub broadcast proof fn slice_len_bound(data: &[u8])
    ensures
        #[trigger] data@.len() <= usize::MAX,
{
    assert(data@.len() == data.len());
}

} // verus!
