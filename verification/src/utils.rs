//! Render-invocation options and the rules that turn them into a resolution.
//!
//! The types mirror the renderer's command line.  Parsing the actual process
//! arguments happens outside the verified core; what is verified here is the
//! selection logic: which resolution a set of options denotes, and which
//! output filenames are acceptable.

use vstd::prelude::*;

use crate::camera::Resolution;

verus! {

/// The render options of one invocation.
#[derive(Debug)]
pub struct RenderArgs {
    /// Output filename (`-` means standard output).
    pub output: String,
    /// Pre-defined resolution to start from.
    pub resolution: Option<Resolutions>,
    /// Render a quarter-scale draft.
    pub draft: bool,
    /// Custom width in pixels, overriding the pre-defined one.
    pub hsize: Option<u32>,
    /// Custom height in pixels, overriding the pre-defined one.
    pub vsize: Option<u32>,
    /// Bound on the reflection/refraction recursion.
    pub max_recursive_depth: i32,
    /// Horizontal tile count for the parallel render.
    pub hdiv: u32,
    /// Vertical tile count for the parallel render.
    pub vdiv: u32,
}

/// The pre-defined resolutions offered on the command line.
#[derive(Debug, Clone, Copy, PartialEq, Eq, Structural)]
pub enum Resolutions {
    VGA,
    SVGA,
    XGA,
    SXGA,
    FHD,
    QHD,
    UHD,
    _4K,
}

#[derive(Debug)]
pub struct CommonArgs {
    pub render: RenderArgs,
}

#[derive(Debug)]
pub struct Cli {
    pub common: CommonArgs,
}

/// The pixel dimensions each pre-defined resolution stands for.
pub open spec fn named_resolution(r: Resolutions) -> Resolution {
    match r {
        Resolutions::VGA => Resolution { hsize: 640, vsize: 480 },
        Resolutions::SVGA => Resolution { hsize: 800, vsize: 600 },
        Resolutions::XGA => Resolution { hsize: 1024, vsize: 768 },
        Resolutions::SXGA => Resolution { hsize: 1280, vsize: 1024 },
        Resolutions::FHD => Resolution { hsize: 1920, vsize: 1080 },
        Resolutions::QHD => Resolution { hsize: 2560, vsize: 1440 },
        Resolutions::UHD => Resolution { hsize: 3840, vsize: 2160 },
        Resolutions::_4K => Resolution { hsize: 3840, vsize: 2160 },
    }
}

/// The resolution a set of options denotes: the pre-defined one (or the
/// caller's default), each dimension overridden by an explicit size if given,
/// the whole quartered in draft mode.
pub open spec fn chosen_resolution(
    resolution: Option<Resolutions>,
    hsize: Option<u32>,
    vsize: Option<u32>,
    draft: bool,
    default: Resolution,
) -> Resolution {
    let base = match resolution {
        Some(r) => named_resolution(r),
        None => default,
    };
    let sized = Resolution {
        hsize: if hsize is Some {
            hsize->0
        } else {
            base.hsize
        },
        vsize: if vsize is Some {
            vsize->0
        } else {
            base.vsize
        },
    };
    if draft {
        Resolution { hsize: sized.hsize / 4, vsize: sized.vsize / 4 }
    } else {
        sized
    }
}

pub fn get_resolution(common_args: &CommonArgs, default: Resolution) -> (r: Resolution)
    ensures
        r == chosen_resolution(
            common_args.render.resolution,
            common_args.render.hsize,
            common_args.render.vsize,
            common_args.render.draft,
            default,
        ),
{
    let base = match &common_args.render.resolution {
        Some(Resolutions::VGA) => Resolution { hsize: 640, vsize: 480 },
        Some(Resolutions::SVGA) => Resolution { hsize: 800, vsize: 600 },
        Some(Resolutions::XGA) => Resolution { hsize: 1024, vsize: 768 },
        Some(Resolutions::SXGA) => Resolution { hsize: 1280, vsize: 1024 },
        Some(Resolutions::FHD) => Resolution { hsize: 1920, vsize: 1080 },
        Some(Resolutions::QHD) => Resolution { hsize: 2560, vsize: 1440 },
        Some(Resolutions::UHD) => Resolution { hsize: 3840, vsize: 2160 },
        Some(Resolutions::_4K) => Resolution { hsize: 3840, vsize: 2160 },
        None => default,
    };

    let base = match common_args.render.hsize {
        Some(h) => Resolution { hsize: h, ..base },
        None => base,
    };

    let base = match common_args.render.vsize {
        Some(v) => Resolution { vsize: v, ..base },
        None => base,
    };

    if common_args.render.draft {
        Resolution { hsize: base.hsize / 4, vsize: base.vsize / 4 }
    } else {
        base
    }
}

/// What `str::trim` leaves of a string: its characters without the leading
/// and trailing whitespace.
pub uninterp spec fn trim_of(s: Seq<char>) -> Seq<char>;

/// Relies on str::trim: the returned slice is the input without leading and
/// trailing whitespace, a function of the characters alone, never longer than
/// the input.
#[verifier::external_body]
fn trim(name: &str) -> (r: &str)
    ensures
        r@ == trim_of(name@),
        r@.len() <= name@.len(),
{
    name.trim()
}

/// An output filename is acceptable when it is non-empty and carries no
/// leading or trailing whitespace; the accepted name is returned unchanged.
pub fn parse_filename(name: &str) -> (r: Result<String, String>)
    ensures
        r is Err <==> (name@.len() == 0 || trim_of(name@).len() != name@.len()),
        r is Ok ==> r->Ok_0@ == name@,
{
    if name.is_empty() {
        Err("filename cannot be an empty string".to_owned())
    } else if trim(name).unicode_len() != name.unicode_len() {
        Err("filename cannot have leading and trailing space".to_owned())
    } else {
        Ok(name.to_owned())
    }
}

} // verus!
