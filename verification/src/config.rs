use vstd::prelude::*;
use crate::Resolution;

verus! {

/// What a run of the renderer is asked to do.
pub struct Config {
    /// Scene description to load.
    pub filename: String,
    /// Worker threads to use.
    pub threads: u8,
    /// Size of the image.
    pub resolution: Resolution,
    /// Rays to cast through each pixel.
    pub samples: u8,
}

} // verus!
