//! Signed-distance-field atlas generation library.
//!
//! Renders a glyph set (or a single raster symbol) into a packed texture
//! atlas of signed-distance-field images.  The library holds the verified
//! core: the raster buffer, the CPU compute pipeline (grayscale conversion,
//! edge classification, bounded-radius distance-field generation), the
//! shelf-packing atlas assembler, and the worker-scheduling state machine.
//! Device dispatch, font rasterization, and file handling live outside.

pub mod atlas_generator;
pub mod charset;
pub mod mono_image;
pub mod program_cpu;
pub mod worker;
