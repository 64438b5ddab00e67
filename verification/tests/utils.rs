use rust_rtc::camera::Resolution;
use rust_rtc::utils::{get_resolution, parse_filename, CommonArgs, RenderArgs, Resolutions};

fn args(resolution: Option<Resolutions>, hsize: Option<u32>, vsize: Option<u32>, draft: bool) -> CommonArgs {
    CommonArgs {
        render: RenderArgs {
            output: String::from("image.ppm"),
            resolution,
            draft,
            hsize,
            vsize,
            max_recursive_depth: 5,
            hdiv: 8,
            vdiv: 8,
        },
    }
}

#[test]
fn resolution_defaults_to_caller_default() {
    let r = get_resolution(&args(None, None, None, false), Resolution::new(123, 45));
    assert_eq!(r, Resolution::new(123, 45));
}

#[test]
fn named_resolutions_are_selected() {
    let d = Resolution::new(1, 1);
    assert_eq!(get_resolution(&args(Some(Resolutions::VGA), None, None, false), d), Resolution::new(640, 480));
    assert_eq!(get_resolution(&args(Some(Resolutions::FHD), None, None, false), d), Resolution::new(1920, 1080));
    assert_eq!(get_resolution(&args(Some(Resolutions::UHD), None, None, false), d), Resolution::new(3840, 2160));
    assert_eq!(get_resolution(&args(Some(Resolutions::_4K), None, None, false), d), Resolution::new(3840, 2160));
}

#[test]
fn explicit_sizes_override_named_resolution() {
    let d = Resolution::new(1, 1);
    let r = get_resolution(&args(Some(Resolutions::SVGA), Some(320), None, false), d);
    assert_eq!(r, Resolution::new(320, 600));
    let r = get_resolution(&args(Some(Resolutions::SVGA), None, Some(200), false), d);
    assert_eq!(r, Resolution::new(800, 200));
}

#[test]
fn draft_renders_at_quarter_scale() {
    let d = Resolution::new(1, 1);
    let r = get_resolution(&args(Some(Resolutions::VGA), None, None, true), d);
    assert_eq!(r, Resolution::new(160, 120));
    let r = get_resolution(&args(None, Some(10), Some(7), true), d);
    assert_eq!(r, Resolution::new(2, 1));
}

#[test]
fn parse_filename_accepts_plain_names() {
    assert_eq!(parse_filename("image.ppm"), Ok(String::from("image.ppm")));
    assert_eq!(parse_filename("-"), Ok(String::from("-")));
}

#[test]
fn parse_filename_rejects_empty_string() {
    assert_eq!(
        parse_filename(""),
        Err(String::from("filename cannot be an empty string"))
    );
}

#[test]
fn parse_filename_rejects_surrounding_whitespace() {
    assert_eq!(
        parse_filename(" image.ppm"),
        Err(String::from("filename cannot have leading and trailing space"))
    );
    assert_eq!(
        parse_filename("image.ppm\t"),
        Err(String::from("filename cannot have leading and trailing space"))
    );
    assert!(parse_filename("spaced name.ppm").is_ok());
}
