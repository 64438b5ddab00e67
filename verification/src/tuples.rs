//! The tuple type (points and vectors) carried through the scene graph.

use vstd::prelude::*;

verus! {

/// glam's double-precision 4-component vector.  It carries points (w = 1) and
/// vectors (w = 0) through the verified core; all arithmetic on it happens in
/// unverified code outside this crate's logic.
#[verifier::external_type_specification]
#[verifier::external_body]
pub struct ExDVec4(glam::DVec4);

/// A position in space, with w = 1.
pub type Point = glam::DVec4;

/// A direction in space, with w = 0.
pub type Vector = glam::DVec4;

} // verus!
