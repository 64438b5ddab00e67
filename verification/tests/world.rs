use rust_rtc::shapes::{Shape, ShapeEnum};
use rust_rtc::world::{is_shadowed_verdict, world, ShadowCandidate, World, WorldError};

// Creating an empty world
#[test]
fn creating_an_empty_world() {
    let w: World<u8, u8> = world();
    assert_eq!(w.num_lights(), 0);
    assert_eq!(w.num_objects(), 0);
}

#[test]
fn adding_objects_returns_consecutive_handles() {
    let mut w: World<u8, u8> = world();
    let a = w.add_object(Shape::surface(1));
    let b = w.add_object(Shape::surface(2));
    assert_ne!(a, b);
    assert_eq!(w.num_objects(), 2);
    assert!(w.has_object(&a));
    assert!(w.has_object(&b));
    assert!(matches!(w.get_object_ref(&a).shape, ShapeEnum::Surface(1)));
    assert!(matches!(w.get_object_ref(&b).shape, ShapeEnum::Surface(2)));
}

#[test]
fn add_child_attaches_member_and_parent() {
    let mut w: World<u8, u8> = world();
    let g = w.add_object(Shape::group_shape(0));
    let s = w.add_object(Shape::surface(7));
    assert!(w.add_child(&g, &s).is_ok());

    let child = w.get_object_ref(&s);
    assert_eq!(child.parent, Some(g));

    let group_entry = w.get_object_ref(&g);
    match &group_entry.shape {
        ShapeEnum::Group(_, grp) => assert_eq!(grp.members(), &vec![s]),
        ShapeEnum::Surface(_) => panic!("expected a group"),
    }
}

#[test]
fn add_child_rejects_non_group_target() {
    let mut w: World<u8, u8> = world();
    let a = w.add_object(Shape::surface(1));
    let b = w.add_object(Shape::surface(2));
    assert_eq!(w.add_child(&a, &b), Err(WorldError::NotAGroup));
    assert_eq!(w.get_object_ref(&b).parent, None);
}

#[test]
fn add_child_rejects_out_of_bounds_index() {
    let mut big: World<u8, u8> = world();
    big.add_object(Shape::surface(1));
    big.add_object(Shape::surface(2));
    let stray = big.add_object(Shape::surface(3));

    let mut w: World<u8, u8> = world();
    let g = w.add_object(Shape::group_shape(0));
    assert_eq!(w.add_child(&g, &stray), Err(WorldError::IndexOutOfBounds));
    assert_eq!(w.add_child(&stray, &g), Err(WorldError::IndexOutOfBounds));
}

#[test]
fn root_objects_skips_grouped_children() {
    let mut w: World<u8, u8> = world();
    let g = w.add_object(Shape::group_shape(0));
    let s1 = w.add_object(Shape::surface(1));
    let s2 = w.add_object(Shape::surface(2));
    assert!(w.add_child(&g, &s1).is_ok());

    let roots = w.root_objects();
    assert_eq!(roots, vec![g, s2]);
}

#[test]
fn add_light_returns_handles_in_order() {
    let mut w: World<u8, u8> = world();
    w.add_light(10);
    w.add_light(20);
    assert_eq!(w.num_lights(), 2);
    assert_eq!(*w.get_light(0), 10);
    assert_eq!(*w.get_light(1), 20);
}

fn cand(casts_shadow: bool, ahead: bool, nearer_than_light: bool) -> ShadowCandidate {
    ShadowCandidate { casts_shadow, ahead, nearer_than_light }
}

// An opaque object strictly between the point and the light shadows the
// point; the identical configuration with casts_shadow off does not.
#[test]
fn shadow_flips_with_casts_shadow() {
    assert!(is_shadowed_verdict(&vec![cand(true, true, true)]));
    assert!(!is_shadowed_verdict(&vec![cand(false, true, true)]));
}

#[test]
fn no_shadow_without_a_nearer_blocker_ahead() {
    assert!(!is_shadowed_verdict(&vec![]));
    // blocker beyond the light
    assert!(!is_shadowed_verdict(&vec![cand(true, true, false)]));
    // blocker behind the shaded point
    assert!(!is_shadowed_verdict(&vec![cand(true, false, true)]));
    // a non-casting object in front does not mask a casting one behind it
    assert!(is_shadowed_verdict(&vec![
        cand(false, true, true),
        cand(true, true, true)
    ]));
}
