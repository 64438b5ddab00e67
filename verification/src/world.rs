//! The scene graph: an append-only arena of shapes plus the scene's lights.
//!
//! Shapes are cross-referenced by stable indices rather than pointers: a group
//! lists its children's indices and a child records its parent group's index.
//! The well-formedness invariant [`World::wf`] keeps both kinds of reference
//! inside the arena and consistent with each other.

use vstd::prelude::*;

use crate::groups::Group;
use crate::shapes::{Shape, ShapeEnum};

verus! {

/// Stable, opaque handle to a light in a world.
#[derive(Debug, Clone, Copy, PartialEq, Eq, Structural)]
pub struct LightIndex(usize);

/// Stable, opaque handle to a shape in a world's arena.  Indices stay valid
/// for the world's whole lifetime because the arena is append-only.
#[derive(Debug, Clone, Copy, PartialEq, Eq, Structural)]
pub struct ObjectIndex(usize);

impl ObjectIndex {
    /// The arena position this handle names.
    pub closed spec fn idx(&self) -> int {
        self.0 as int
    }
}

impl LightIndex {
    /// The light-list position this handle names.
    pub closed spec fn idx(&self) -> int {
        self.0 as int
    }
}

/// A failure while editing the scene graph; the renderer's hot path never
/// produces these.
#[derive(Debug, Clone, Copy, PartialEq, Eq, Structural)]
pub enum WorldError {
    /// An index does not name an arena entry.
    IndexOutOfBounds,
    /// `add_child` was directed at a shape that is not a group.
    NotAGroup,
}

/// A shape arena entry satisfies the cross-reference invariant with respect to
/// the whole arena: its member indices (if it is a group) stay in bounds, and
/// its parent (if set) names a group that lists this entry among its members.
pub open spec fn wf_entry<S>(objs: Seq<Shape<S>>, i: int) -> bool {
    &&& (objs[i].shape is Group ==> forall|j: int|
        0 <= j < objs[i].group_members().len() ==> 0 <= (
        #[trigger] objs[i].group_members()[j]).idx() < objs.len())
    &&& (objs[i].parent is Some ==> {
        let p = objs[i].parent->0.idx();
        &&& 0 <= p < objs.len()
        &&& objs[p].shape is Group
        &&& exists|j: int|
            0 <= j < objs[p].group_members().len() && (#[trigger] objs[p].group_members()[j]).idx()
                == i
    })
}

/// The positions of the arena entries with no parent, oldest first: the
/// scene's top-level shapes.  A world-level ray query walks exactly these, so
/// a grouped child is reached once, through its group, never a second time
/// directly.
pub open spec fn root_indices<S>(objs: Seq<Shape<S>>) -> Seq<int>
    decreases objs.len(),
{
    if objs.len() == 0 {
        Seq::empty()
    } else if objs.last().parent is None {
        root_indices(objs.drop_last()).push(objs.len() - 1)
    } else {
        root_indices(objs.drop_last())
    }
}

/// The top-level entries are exactly the parentless ones, listed in
/// increasing arena order.
pub proof fn lemma_root_indices<S>(objs: Seq<Shape<S>>)
    ensures
        forall|k: int|
            0 <= k < root_indices(objs).len() ==> 0 <= #[trigger] root_indices(objs)[k]
                < objs.len() && objs[root_indices(objs)[k]].parent is None,
        forall|i: int|
            0 <= i < objs.len() && objs[i].parent is None ==> root_indices(objs).contains(i),
        forall|k1: int, k2: int|
            0 <= k1 < k2 < root_indices(objs).len() ==> root_indices(objs)[k1] < root_indices(
                objs,
            )[k2],
    decreases objs.len(),
{
    if objs.len() > 0 {
        lemma_root_indices(objs.drop_last());
        let prev = root_indices(objs.drop_last());
        assert forall|i: int|
            0 <= i < objs.len() && objs[i].parent is None implies root_indices(objs).contains(
            i,
        ) by {
            if i < objs.len() - 1 {
                assert(objs.drop_last()[i] == objs[i]);
                assert(prev.contains(i));
                let k = choose|k: int| 0 <= k < prev.len() && prev[k] == i;
                assert(root_indices(objs)[k] == i);
            } else {
                assert(root_indices(objs).last() == i);
            }
        }
    }
}

/// The scene graph.  `S` is the surface description of a leaf shape (its
/// primitive parameters, transform and material) and `L` a point light; both
/// are opaque to the structural logic verified here.
pub struct World<S, L> {
    lights: Vec<L>,
    objects: Vec<Shape<S>>,
}

impl<S, L> World<S, L> {
    /// The shape arena, in insertion order.
    pub closed spec fn objects(&self) -> Seq<Shape<S>> {
        self.objects@
    }

    /// The lights, in insertion order.
    pub closed spec fn lights(&self) -> Seq<L> {
        self.lights@
    }

    pub open spec fn object_in_bounds(&self, i: int) -> bool {
        0 <= i < self.objects().len()
    }

    /// The scene-graph invariant: every arena entry's cross-references are in
    /// bounds and parent links agree with group member lists.
    pub open spec fn wf(&self) -> bool {
        forall|i: int| 0 <= i < self.objects().len() ==> #[trigger] wf_entry(self.objects(), i)
    }

    pub fn new_empty() -> (w: World<S, L>)
        ensures
            w.objects().len() == 0,
            w.lights().len() == 0,
            w.wf(),
    {
        World { lights: Vec::new(), objects: Vec::new() }
    }

    pub fn num_objects(&self) -> (n: usize)
        ensures
            n == self.objects().len(),
    {
        self.objects.len()
    }

    pub fn num_lights(&self) -> (n: usize)
        ensures
            n == self.lights().len(),
    {
        self.lights.len()
    }

    /// Whether a handle names an entry of this arena.
    pub fn has_object(&self, idx: &ObjectIndex) -> (r: bool)
        ensures
            r == self.object_in_bounds(idx.idx()),
    {
        idx.0 < self.objects.len()
    }

    pub fn add_light(&mut self, light: L) -> (r: LightIndex)
        ensures
            final(self).lights() == old(self).lights().push(light),
            final(self).objects() == old(self).objects(),
            r.idx() == old(self).lights().len(),
            old(self).wf() ==> final(self).wf(),
    {
        self.lights.push(light);
        LightIndex(self.lights.len() - 1)
    }

    /// Appends a shape to the arena and returns its stable handle.  A freshly
    /// built shape has no parent yet, and a group joins the arena with no
    /// members; children are attached afterwards through `add_child`.
    pub fn add_object(&mut self, object: Shape<S>) -> (r: ObjectIndex)
        requires
            old(self).wf(),
            object.parent is None,
            object.shape is Group ==> object.group_members().len() == 0,
        ensures
            final(self).wf(),
            final(self).objects() == old(self).objects().push(object),
            final(self).lights() == old(self).lights(),
            r.idx() == old(self).objects().len(),
    {
        self.objects.push(object);
        proof {
            let objs = old(self).objects();
            let objs2 = self.objects@;
            assert forall|i: int| 0 <= i < objs2.len() implies #[trigger] wf_entry(objs2, i) by {
                if i < objs.len() {
                    assert(wf_entry(objs, i));
                    assert(objs2[i] == objs[i]);
                    if objs[i].parent is Some {
                        let p = objs[i].parent->0.idx();
                        assert(objs2[p] == objs[p]);
                        let j = choose|j: int|
                            0 <= j < objs[p].group_members().len() && (
                            #[trigger] objs[p].group_members()[j]).idx() == i;
                        assert(objs2[p].group_members()[j].idx() == i);
                    }
                } else {
                    assert(objs2[i] == object);
                }
            }
        }
        ObjectIndex(self.objects.len() - 1)
    }

    /// Borrow the shape a handle names.  Handles obtained from this world's
    /// `add_object` are always in bounds.
    pub fn get_object_ref(&self, idx: &ObjectIndex) -> (r: &Shape<S>)
        requires
            self.object_in_bounds(idx.idx()),
        ensures
            *r == self.objects()[idx.idx()],
    {
        &self.objects[idx.0]
    }

    pub fn get_light(&self, i: usize) -> (r: &L)
        requires
            i < self.lights().len(),
        ensures
            *r == self.lights()[i as int],
    {
        &self.lights[i]
    }

    /// Attaches an arena entry as a child of a group: the child's index is
    /// appended to the group's member list and the child's parent
    /// back-reference is set to the group.  Both indices are validated first
    /// (the group one before the child one, as the error reports the first
    /// failure); no cycle check is performed.
    pub fn add_child(&mut self, group_index: &ObjectIndex, object_index: &ObjectIndex) -> (r:
        Result<(), WorldError>)
        requires
            old(self).wf(),
        ensures
            final(self).wf(),
            final(self).lights() == old(self).lights(),
            final(self).objects().len() == old(self).objects().len(),
            r == Err::<(), WorldError>(WorldError::IndexOutOfBounds) <==> (!old(
                self).object_in_bounds(group_index.idx()) || !old(self).object_in_bounds(
                object_index.idx())),
            r == Err::<(), WorldError>(WorldError::NotAGroup) <==> (old(self).object_in_bounds(
                group_index.idx()) && old(self).object_in_bounds(object_index.idx()) && !(old(
                self).objects()[group_index.idx()].shape is Group)),
            r is Ok <==> (old(self).object_in_bounds(group_index.idx()) && old(
                self).object_in_bounds(object_index.idx()) && old(
                self).objects()[group_index.idx()].shape is Group),
            r is Err ==> final(self).objects() == old(self).objects(),
            r is Ok ==> {
                let g = group_index.idx();
                let o = object_index.idx();
                &&& final(self).objects()[g].shape is Group
                &&& final(self).objects()[g].group_members() == old(
                self).objects()[g].group_members().push(*object_index)
                &&& final(self).objects()[o].parent == Some(*group_index)
                &&& (o != g ==> final(self).objects()[o].shape == old(self).objects()[o].shape)
                &&& final(self).objects()[g].parent == (if o == g {
                    Some(*group_index)
                } else {
                    old(self).objects()[g].parent
                })
                &&& forall|k: int|
                    0 <= k < old(self).objects().len() && k != g && k != o ==> final(
                    self).objects()[k] == old(self).objects()[k]
            },
    {
        let ghost objs0 = self.objects@;
        if group_index.0 >= self.objects.len() || object_index.0 >= self.objects.len() {
            return Err(WorldError::IndexOutOfBounds);
        }
        let g = group_index.0;
        let o = object_index.0;
        let is_group = match &self.objects[g].shape {
            ShapeEnum::Group(..) => true,
            _ => false,
        };
        if !is_group {
            return Err(WorldError::NotAGroup);
        }
        let entry = &mut self.objects[g];
        match &mut entry.shape {
            ShapeEnum::Group(_, grp) => {
                grp.members.push(*object_index);
            },
            _ => {
                proof {
                    assert(false);
                }
            },
        }
        let ghost objs1 = self.objects@;
        let child = &mut self.objects[o];
        child.parent = Some(*group_index);
        proof {
            let objs2 = self.objects@;
            let gi = g as int;
            let oi = o as int;
            assert(objs1 =~= objs0.update(
                gi,
                Shape {
                    shape: ShapeEnum::Group(
                        objs0[gi].shape->Group_0,
                        Group { members: objs1[gi].shape->Group_1.members },
                    ),
                    parent: objs0[gi].parent,
                },
            ));
            assert(objs1[gi].group_members() =~= objs0[gi].group_members().push(*object_index));
            assert(objs2 =~= objs1.update(
                oi,
                Shape { shape: objs1[oi].shape, parent: Some(*group_index) },
            ));
            assert forall|i: int| 0 <= i < objs2.len() implies #[trigger] wf_entry(objs2, i) by {
                assert(wf_entry(objs0, i));
                // Member lists: only the group's list changed, by appending an
                // in-bounds index.
                if objs2[i].shape is Group {
                    let ms0 = objs0[i].group_members();
                    let ms2 = objs2[i].group_members();
                    if i == gi {
                        assert(forall|j: int|
                            0 <= j < ms0.len() ==> 0 <= (#[trigger] ms0[j]).idx() < objs2.len());
                        assert(forall|j: int| 0 <= j < ms0.len() ==> ms2[j] == ms0[j]);
                        assert(ms2[ms2.len() - 1] == *object_index);
                        assert(forall|j: int|
                            0 <= j < ms2.len() ==> 0 <= (#[trigger] ms2[j]).idx() < objs2.len());
                    } else {
                        assert(ms2 == ms0);
                    }
                }
                // Parent links: the child's new parent is the group, which now
                // lists it last; every other parent link is unchanged and its
                // group's member list only grew.
                if objs2[i].parent is Some {
                    let p = objs2[i].parent->0.idx();
                    if i == oi {
                        assert(p == gi);
                        let ms2 = objs2[gi].group_members();
                        assert(ms2[ms2.len() - 1].idx() == oi);
                    } else {
                        assert(objs2[i].parent == objs0[i].parent);
                        let j = choose|j: int|
                            0 <= j < objs0[p].group_members().len() && (
                            #[trigger] objs0[p].group_members()[j]).idx() == i;
                        assert(objs2[p].group_members()[j].idx() == i);
                    }
                }
            }
        }
        Ok(())
    }

    /// Handles of the scene's top-level (parentless) shapes, oldest first.
    /// Intersecting the world means intersecting exactly these; a group's own
    /// intersection then fans out to its children by index.
    pub fn root_objects(&self) -> (r: Vec<ObjectIndex>)
        ensures
            r@.len() == root_indices(self.objects()).len(),
            forall|k: int|
                0 <= k < r@.len() ==> (#[trigger] r@[k]).idx() == root_indices(self.objects())[k],
    {
        let mut r: Vec<ObjectIndex> = Vec::new();
        let n = self.objects.len();
        let mut i: usize = 0;
        while i < n
            invariant
                i <= n,
                n == self.objects().len(),
                r@.len() == root_indices(self.objects().take(i as int)).len(),
                forall|k: int|
                    0 <= k < r@.len() ==> (#[trigger] r@[k]).idx() == root_indices(
                        self.objects().take(i as int),
                    )[k],
            decreases n - i,
        {
            proof {
                assert(self.objects().take(i + 1).drop_last() =~= self.objects().take(i as int));
                assert(self.objects().take(i + 1).last() == self.objects()[i as int]);
            }
            if self.objects[i].parent.is_none() {
                r.push(ObjectIndex(i));
            }
            i = i + 1;
        }
        proof {
            assert(self.objects().take(n as int) =~= self.objects());
        }
        r
    }
}

/// One candidate along a shadow ray, with the numeric comparisons already
/// made: whether its material casts shadows, whether it lies ahead of the
/// shaded point (`t > 0`), and whether it lies strictly nearer than the light
/// (`t < distance`).  Candidates come in ascending order of `t`.
#[derive(Debug, Clone, Copy, PartialEq, Eq, Structural)]
pub struct ShadowCandidate {
    pub casts_shadow: bool,
    pub ahead: bool,
    pub nearer_than_light: bool,
}

impl ShadowCandidate {
    /// A candidate that can block the light: it casts shadows and lies ahead
    /// of the shaded point.
    pub open spec fn blocking(&self) -> bool {
        self.casts_shadow && self.ahead
    }
}

/// Whether a point is shadowed, given its shadow ray's candidates in
/// ascending order: the first candidate that casts shadows and lies ahead of
/// the point decides, and it shadows exactly when it is nearer than the
/// light.  Without such a candidate nothing blocks the light.
pub open spec fn shadow_verdict(xs: Seq<ShadowCandidate>) -> bool
    decreases xs.len(),
{
    if xs.len() == 0 {
        false
    } else if xs.first().blocking() {
        xs.first().nearer_than_light
    } else {
        shadow_verdict(xs.drop_first())
    }
}

/// The shadow test's decision rule, on the comparisons alone: candidates
/// whose material casts no shadow are passed over, and the nearest remaining
/// one ahead of the point shadows it exactly when it lies nearer than the
/// light.
pub fn is_shadowed_verdict(xs: &Vec<ShadowCandidate>) -> (r: bool)
    ensures
        r == shadow_verdict(xs@),
{
    let n = xs.len();
    let mut i: usize = 0;
    proof {
        assert(xs@.skip(0) =~= xs@);
    }
    while i < n
        invariant
            i <= n,
            n == xs@.len(),
            shadow_verdict(xs@) == shadow_verdict(xs@.skip(i as int)),
        decreases n - i,
    {
        proof {
            assert(xs@.skip(i as int).first() == xs@[i as int]);
            assert(xs@.skip(i as int).drop_first() =~= xs@.skip(i as int + 1));
        }
        let c = xs[i];
        if c.casts_shadow && c.ahead {
            return c.nearer_than_light;
        }
        i = i + 1;
    }
    proof {
        assert(xs@.skip(n as int).len() == 0);
    }
    false
}

/// An entry whose material casts no shadow is invisible to the shadow test:
/// removing it from the list does not alter the verdict.
pub proof fn lemma_shadow_ignores_non_casting(xs: Seq<ShadowCandidate>, i: int)
    requires
        0 <= i < xs.len(),
        !xs[i].casts_shadow,
    ensures
        shadow_verdict(xs.remove(i)) == shadow_verdict(xs),
    decreases xs.len(),
{
    if i == 0 {
        assert(xs.remove(0) =~= xs.drop_first());
    } else {
        lemma_shadow_ignores_non_casting(xs.drop_first(), i - 1);
        assert(xs.remove(i).drop_first() =~= xs.drop_first().remove(i - 1));
        assert(xs.remove(i).first() == xs.first());
    }
}

/// An empty world.
pub fn world<S, L>() -> (w: World<S, L>)
    ensures
        w.objects().len() == 0,
        w.lights().len() == 0,
        w.wf(),
{
    World::new_empty()
}

impl<S, L> Default for World<S, L> {
    fn default() -> (w: World<S, L>)
        ensures
            w.objects().len() == 0,
            w.lights().len() == 0,
            w.wf(),
    {
        World::new_empty()
    }
}

} // verus!
