//! Size calculation for key-value parameter maps.

use std::collections::HashMap;

use vstd::prelude::*;

use crate::kvformat::size_of_map;

verus! {

/// The exact size of the serialized form of a parameter map, in bytes,
/// including the terminating empty line; 0 for an empty map.
pub fn calc_buf_size(params: &HashMap<String, String>) -> (r: usize)
    requires
        size_of_map(params.deep_view()) <= usize::MAX,
    ensures
        r == size_of_map(params.deep_view()),
{
    crate::kvparam::calc_buf_size(params)
}

} // verus!
