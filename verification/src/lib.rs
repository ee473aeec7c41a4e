//! Rendering core of an offline Monte Carlo path tracer.
//!
//! This crate holds the parts of the renderer whose behaviour is exact and
//! machine-checked: the in-place partitioning that reorders shapes, the
//! material table with stable integer identifiers, the bounding-volume
//! hierarchy's arena tree and its construction, the integrator's
//! depth-and-event decision step, and the tile grid that splits the image
//! into independent blocks of work.
//!
//! The floating-point kernels that surround these parts (slab tests,
//! quadratic roots, shading arithmetic) live with the renderer binary, which
//! drives this crate and hands it plain values.

pub mod bvh;
pub mod integrator;
pub mod material;
pub mod scene;
pub mod tile;
pub mod utils;
