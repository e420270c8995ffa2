//! Raster dimensions and the buffer-size invariant.

use vstd::prelude::*;

verus! {

/// The width and height of the output raster, in pixels.
///
/// A well-formed value has both components positive and a total pixel count
/// that fits in `usize`, so every row-major index of the buffer is
/// representable.
#[derive(Clone, Copy, Debug, PartialEq, Eq, Structural)]
pub struct PixelBounds {
    pub width: usize,
    pub height: usize,
}

impl PixelBounds {
    /// The invariant every raster handed to the renderer must satisfy:
    /// both dimensions positive, and `width * height` representable.
    pub open spec fn wf(self) -> bool {
        &&& 0 < self.width
        &&& 0 < self.height
        &&& self.width * self.height <= usize::MAX
    }

    /// Total number of pixels, row-major.
    pub open spec fn spec_area(self) -> int {
        self.width * self.height
    }

    /// Builds the bounds, rejecting a zero dimension or an unrepresentable
    /// pixel count.
    pub fn new(width: usize, height: usize) -> (r: Option<PixelBounds>)
        ensures
            match r {
                Some(b) => b.width == width && b.height == height && b.wf(),
                None => width == 0 || height == 0 || width * height > usize::MAX,
            },
    {
        if width == 0 || height == 0 {
            return None;
        }
        match width.checked_mul(height) {
            Some(_) => Some(PixelBounds { width, height }),
            None => None,
        }
    }

    /// Total number of pixels, row-major.
    pub fn area(&self) -> (r: usize)
        requires
            self.wf(),
        ensures
            r == self.spec_area(),
    {
        self.width * self.height
    }
}

} // verus!
