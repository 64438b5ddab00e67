//! Verified core of a CPU ray tracer.
//!
//! The library holds the parts of the renderer that can be stated and proved
//! exactly: the scene-graph arena with its group/parent invariants, the
//! refractive-media bookkeeping used by the shading engine, the tiled render
//! partition, the output raster, and the camera resolution and argument
//! handling.  The floating-point geometry itself (intersection formulas,
//! shading arithmetic) lives outside the verified core and consumes these
//! pieces through their contracts.

pub mod camera;
pub mod canvas;
pub mod groups;
pub mod intersections;
pub mod math;
pub mod rays;
pub mod shapes;
pub mod tuples;
pub mod utils;
pub mod world;
