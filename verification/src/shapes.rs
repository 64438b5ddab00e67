//! The shape wrapper stored in the world's arena.
//!
//! A shape pairs its numeric description `S` (primitive parameters, transform
//! and material, opaque to this structural layer) with what the scene graph
//! itself tracks: whether the shape is a group, which children a group lists,
//! and the parent back-reference maintained by `World::add_child`.

use vstd::prelude::*;

use crate::groups::Group;
use crate::world::ObjectIndex;

verus! {

/// The primitive kind a shape wraps: a leaf surface, or a group of child
/// indices.  Both carry the shape's numeric description (a group still has a
/// transform of its own).
pub enum ShapeEnum<S> {
    Surface(S),
    Group(S, Group),
}

/// An arena entry: a primitive plus the parent back-reference maintained by
/// `World::add_child`.
pub struct Shape<S> {
    pub shape: ShapeEnum<S>,
    pub parent: Option<ObjectIndex>,
}

impl<S> Shape<S> {
    /// The numeric description, common to leaves and groups.
    pub open spec fn data(&self) -> S {
        match self.shape {
            ShapeEnum::Surface(s) => s,
            ShapeEnum::Group(s, _) => s,
        }
    }

    /// The member list, for a shape whose primitive is a group.
    pub open spec fn group_members(&self) -> Seq<ObjectIndex>
        recommends
            self.shape is Group,
    {
        (self.shape->Group_1).members@
    }

    /// Wrap a leaf surface; it joins the arena unparented.
    pub fn surface(s: S) -> (r: Shape<S>)
        ensures
            r.shape == ShapeEnum::Surface(s),
            r.parent is None,
    {
        Shape { shape: ShapeEnum::Surface(s), parent: None }
    }

    /// Wrap an empty group around its numeric description.
    pub fn group_shape(s: S) -> (r: Shape<S>)
        ensures
            r.shape is Group,
            r.data() == s,
            r.group_members().len() == 0,
            r.parent is None,
    {
        Shape { shape: ShapeEnum::Group(s, Group::new()), parent: None }
    }
}

} // verus!
