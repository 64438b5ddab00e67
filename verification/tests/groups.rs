use rust_rtc::groups::group;

// Creating a new group
#[test]
fn creating_a_new_group() {
    let g = group();
    assert!(g.members().is_empty());
}
