use rust_rtc::intersections::{hit_index, refraction_media};
use rust_rtc::shapes::Shape;
use rust_rtc::world::{world, ObjectIndex, World};

// A ray through three nested glass spheres (outer, a second overlapping it
// from below, a third from above) produces six intersections whose
// exited/entered media walk the nesting exactly.
#[test]
fn refraction_media_through_nested_volumes() {
    let mut w: World<u8, u8> = world();
    let a = w.add_object(Shape::surface(1));
    let b = w.add_object(Shape::surface(2));
    let c = w.add_object(Shape::surface(3));

    let xs: Vec<ObjectIndex> = vec![a, b, c, b, c, a];
    let expected: Vec<(Option<ObjectIndex>, Option<ObjectIndex>)> = vec![
        (None, Some(a)),
        (Some(a), Some(b)),
        (Some(b), Some(c)),
        (Some(c), Some(c)),
        (Some(c), Some(a)),
        (Some(a), None),
    ];
    for (hit, want) in expected.iter().enumerate() {
        assert_eq!(refraction_media(&xs, hit), *want);
    }
}

// Entering and leaving a single volume: vacuum on both outer sides, the
// volume itself in between.
#[test]
fn refraction_media_single_volume() {
    let mut w: World<u8, u8> = world();
    let a = w.add_object(Shape::surface(1));

    let xs: Vec<ObjectIndex> = vec![a, a];
    assert_eq!(refraction_media(&xs, 0), (None, Some(a)));
    assert_eq!(refraction_media(&xs, 1), (Some(a), None));
}

// The medium entered at one intersection is the one exited at the next.
#[test]
fn refraction_media_chain_is_continuous() {
    let mut w: World<u8, u8> = world();
    let a = w.add_object(Shape::surface(1));
    let b = w.add_object(Shape::surface(2));
    let c = w.add_object(Shape::surface(3));

    let xs: Vec<ObjectIndex> = vec![a, b, a, c, b, c];
    for hit in 0..xs.len() - 1 {
        let (_, entered) = refraction_media(&xs, hit);
        let (exited, _) = refraction_media(&xs, hit + 1);
        assert_eq!(entered, exited);
    }
}

// The hit is the first intersection strictly ahead of the ray origin, in
// ascending-distance order; rays with nothing ahead miss.
#[test]
fn hit_index_selects_first_ahead() {
    assert_eq!(hit_index(&vec![true, true]), Some(0));
    assert_eq!(hit_index(&vec![false, true]), Some(1));
    assert_eq!(hit_index(&vec![false, false]), None);
    assert_eq!(hit_index(&vec![]), None);
    assert_eq!(hit_index(&vec![false, true, true, false]), Some(1));
}
