use vstd::prelude::*;

verus! {

/// Identifies one inference request.
pub type RequestId = u128;

/// Identifies one physical block of the key/value cache.
pub type BlockId = usize;

} // verus!
