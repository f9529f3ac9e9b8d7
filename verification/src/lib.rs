use vstd::prelude::*;

pub mod buffer;
pub mod config;
pub mod tracer;

verus! {

/// Size of the image in pixels.
#[derive(Debug, Copy, Clone, PartialEq, Eq, Structural)]
pub struct Resolution {
    pub width: u16,
    pub height: u16,
}

impl Resolution {
    /// Number of pixels of an image of this size.
    pub open spec fn pixels(self) -> int {
        self.width * self.height
    }

    /// Number of bytes of an image of this size, four to the pixel.
    pub open spec fn bytes(self) -> int {
        4 * self.pixels()
    }
}

} // verus!
