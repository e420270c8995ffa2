//! A verified core for a Mandelbrot-set renderer.
//!
//! The library owns the integer-side logic of the renderer: the raster
//! dimensions and their invariants, the partition of the raster into
//! horizontal bands for parallel work, the mapping from escape-time results
//! to pixel intensities, the textual parsing of coordinate pairs, and the
//! assembly of the encoded image into a data URL. The floating-point orbit
//! iteration itself lives with the unverified front end, which drives it
//! through the contracts stated here.

pub mod bands;
pub mod bounds;
pub mod encode;
pub mod escape;
pub mod page;
pub mod parse;
pub mod render;

pub use bands::Band;
pub use bounds::PixelBounds;
