//! Groups: container shapes that hold child shapes by arena index.

use vstd::prelude::*;

use crate::world::ObjectIndex;

verus! {

/// A container of child shapes.  It has no surface of its own: intersecting a
/// group means intersecting every member, and the members are named by index
/// into the owning world's arena rather than owned directly.
pub struct Group {
    pub members: Vec<ObjectIndex>,
}

impl Group {
    pub fn new() -> (g: Group)
        ensures
            g.members@.len() == 0,
    {
        Group { members: Vec::new() }
    }

    pub fn members(&self) -> (r: &Vec<ObjectIndex>)
        ensures
            r@ == self.members@,
    {
        &self.members
    }
}

impl Default for Group {
    fn default() -> (g: Group)
        ensures
            g.members@.len() == 0,
    {
        Group::new()
    }
}

pub fn group() -> (g: Group)
    ensures
        g.members@.len() == 0,
{
    Group::new()
}

} // verus!
