//! KDL specification version selection.

use vstd::prelude::*;

verus! {

/// Which KDL specification version the formatter should target.
#[derive(Debug, Clone, Copy, PartialEq, Eq, Structural, Hash)]
pub enum KdlVersion {
    /// KDL v1 (legacy).
    V1,
    /// KDL v2 (current).
    V2,
}

impl Default for KdlVersion {
    /// The current specification, v2, is the default.
    fn default() -> (v: Self)
        ensures
            v == KdlVersion::V2,
    {
        KdlVersion::V2
    }
}

} // verus!
