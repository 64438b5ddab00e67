//! Shared rendering limits.

use vstd::prelude::*;

verus! {

/// Default bound on the reflection/refraction recursion, balancing realism
/// against cost.
pub const MAX_RECURSIVE_DEPTH: i32 = 5;

} // verus!
