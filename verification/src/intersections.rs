//! Refractive-media bookkeeping for the shading engine.
//!
//! When a ray pierces nested or overlapping transparent volumes, the indices
//! of refraction on the two sides of the hit (`n1`: the medium being exited,
//! `n2`: the medium being entered) are found by walking the ray's sorted
//! intersection list while maintaining a stack of the volumes the ray is
//! currently inside.  That walk is pure index bookkeeping and is verified
//! here; the numeric layer then maps each reported handle (or `None`, the
//! surrounding vacuum) to its material's index of refraction.

use vstd::prelude::*;

use crate::world::ObjectIndex;

verus! {

/// One step of the containers walk: an object already on the stack is being
/// exited (its first occurrence is removed), any other object is being
/// entered (it is pushed).
pub open spec fn process_container(stack: Seq<ObjectIndex>, x: ObjectIndex) -> Seq<ObjectIndex> {
    if stack.contains(x) {
        stack.remove(stack.index_of_first(x)->0)
    } else {
        stack.push(x)
    }
}

/// The containers stack after the first `k` intersections of the list have
/// been processed.
pub open spec fn containers_after(xs: Seq<ObjectIndex>, k: int) -> Seq<ObjectIndex>
    decreases k,
{
    if k <= 0 {
        Seq::empty()
    } else {
        process_container(containers_after(xs, k - 1), xs[k - 1])
    }
}

/// The innermost volume of a containers stack, or `None` for the surrounding
/// vacuum.
pub open spec fn top_container(stack: Seq<ObjectIndex>) -> Option<ObjectIndex> {
    if stack.len() == 0 {
        None
    } else {
        Some(stack.last())
    }
}

/// The medium a hit at list position `h` is exiting: the innermost volume
/// just before that intersection is processed.
pub open spec fn exited_medium(xs: Seq<ObjectIndex>, h: int) -> Option<ObjectIndex> {
    top_container(containers_after(xs, h))
}

/// The medium a hit at list position `h` is entering: the innermost volume
/// just after that intersection is processed.
pub open spec fn entered_medium(xs: Seq<ObjectIndex>, h: int) -> Option<ObjectIndex> {
    top_container(containers_after(xs, h + 1))
}

/// One exec step of the containers walk.
fn process_container_exec(stack: Vec<ObjectIndex>, x: ObjectIndex) -> (r: Vec<ObjectIndex>)
    ensures
        r@ == process_container(stack@, x),
{
    let ghost s0 = stack@;
    let mut st = stack;
    let n = st.len();
    let mut j: usize = 0;
    while j < n
        invariant
            j <= n,
            n == s0.len(),
            s0 == stack@,
            st@ == s0,
            forall|k: int| 0 <= k < j ==> s0[k] != x,
        decreases n - j,
    {
        if st[j] == x {
            proof {
                assert(s0[j as int] == x);
                assert(s0.contains(x));
                s0.index_of_first_ensures(x);
                let idx = s0.index_of_first(x)->0;
                if idx < j as int {
                    assert(s0[idx] != x);
                    assert(false);
                }
                if (j as int) < idx {
                    assert(s0[j as int] != x);
                    assert(false);
                }
                assert(idx == j as int);
            }
            st.remove(j);
            return st;
        }
        j = j + 1;
    }
    proof {
        assert(!s0.contains(x));
    }
    st.push(x);
    st
}

/// Given the objects of a ray's sorted intersection list and the position of
/// the hit within it, reports which volume the ray is exiting and which it is
/// entering at that hit (`None` is the surrounding vacuum).  This is the
/// containers walk used when preparing a hit's refraction data.
pub fn refraction_media(objects: &Vec<ObjectIndex>, hit: usize) -> (r: (
    Option<ObjectIndex>,
    Option<ObjectIndex>,
))
    requires
        hit < objects@.len(),
    ensures
        r.0 == exited_medium(objects@, hit as int),
        r.1 == entered_medium(objects@, hit as int),
{
    let mut stack: Vec<ObjectIndex> = Vec::new();
    let mut i: usize = 0;
    while i < hit
        invariant
            i <= hit,
            hit < objects@.len(),
            stack@ == containers_after(objects@, i as int),
        decreases hit - i,
    {
        stack = process_container_exec(stack, objects[i]);
        i = i + 1;
    }
    let n1 = if stack.len() == 0 {
        None
    } else {
        Some(stack[stack.len() - 1])
    };
    stack = process_container_exec(stack, objects[hit]);
    let n2 = if stack.len() == 0 {
        None
    } else {
        Some(stack[stack.len() - 1])
    };
    (n1, n2)
}

/// The hit-selection rule used throughout the engine: among a ray's
/// intersections, sorted ascending by distance and reduced to whether each
/// lies strictly ahead of the ray's origin (`t > 0`), the hit is the first
/// one ahead.  Intersections at or behind the origin never hit, and a ray
/// with nothing ahead misses.
pub fn hit_index(ahead: &Vec<bool>) -> (r: Option<usize>)
    ensures
        match r {
            Some(i) => i < ahead@.len() && ahead@[i as int] && forall|j: int|
                0 <= j < i ==> !ahead@[j],
            None => forall|j: int| 0 <= j < ahead@.len() ==> !ahead@[j],
        },
{
    let n = ahead.len();
    let mut i: usize = 0;
    while i < n
        invariant
            i <= n,
            n == ahead@.len(),
            forall|j: int| 0 <= j < i ==> !ahead@[j],
        decreases n - i,
    {
        if ahead[i] {
            return Some(i);
        }
        i = i + 1;
    }
    None
}

/// Entering a volume and immediately exiting it again restores the stack: an
/// enter/exit pair is a no-op for the media bookkeeping.
pub proof fn lemma_enter_then_exit(stack: Seq<ObjectIndex>, x: ObjectIndex)
    requires
        !stack.contains(x),
    ensures
        process_container(process_container(stack, x), x) == stack,
{
    let pushed = stack.push(x);
    assert(pushed[stack.len() as int] == x);
    assert(pushed.contains(x));
    pushed.index_of_first_ensures(x);
    let idx = pushed.index_of_first(x)->0;
    if idx < stack.len() {
        assert(pushed[idx] == stack[idx]);
        assert(stack.contains(x));
    }
    assert(idx == stack.len());
    assert(pushed.remove(idx) =~= stack);
}

/// The medium entered at one intersection is the medium exited at the next:
/// consecutive hits along a ray see a continuous chain of media.
pub proof fn lemma_media_continuity(xs: Seq<ObjectIndex>, k: int)
    requires
        0 <= k,
        k + 1 < xs.len(),
    ensures
        entered_medium(xs, k) == exited_medium(xs, k + 1),
{
}

/// The media at a hit depend only on the intersections up to and including
/// it: whatever follows the hit in the list is irrelevant, so the walk may
/// stop there.
pub proof fn lemma_media_ignore_beyond_hit(xs1: Seq<ObjectIndex>, xs2: Seq<ObjectIndex>, h: int)
    requires
        0 <= h,
        h + 1 <= xs1.len(),
        h + 1 <= xs2.len(),
        xs1.take(h + 1) == xs2.take(h + 1),
    ensures
        exited_medium(xs1, h) == exited_medium(xs2, h),
        entered_medium(xs1, h) == entered_medium(xs2, h),
{
    assert forall|j: int| 0 <= j < h + 1 implies xs1[j] == xs2[j] by {
        assert(xs1.take(h + 1)[j] == xs1[j]);
        assert(xs2.take(h + 1)[j] == xs2[j]);
    }
    lemma_containers_depend_on_prefix(xs1, xs2, h + 1);
    lemma_containers_depend_on_prefix(xs1, xs2, h);
}

/// The containers stack after `k` steps reads only the first `k` entries.
proof fn lemma_containers_depend_on_prefix(xs1: Seq<ObjectIndex>, xs2: Seq<ObjectIndex>, k: int)
    requires
        k <= xs1.len(),
        k <= xs2.len(),
        forall|j: int| 0 <= j < k ==> xs1[j] == xs2[j],
    ensures
        containers_after(xs1, k) == containers_after(xs2, k),
    decreases k,
{
    if k > 0 {
        lemma_containers_depend_on_prefix(xs1, xs2, k - 1);
    }
}

} // verus!
