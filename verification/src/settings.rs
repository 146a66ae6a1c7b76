//! What a render is asked for: the size of the raster, the number of samples
//! for each pixel and the field of view.

use crate::scalar::Scalar;
use vstd::prelude::*;

verus! {

/// The pattern of thirty, the field of view in degrees where none is asked for.
pub const DEFAULT_FOV_BITS: u64 = 0x403e_0000_0000_0000;

/// The parameters of a render.
#[derive(Clone, Copy, Debug, PartialEq, Eq, Structural)]
pub struct Settings {
    /// The number of columns of the raster.
    pub width: u32,
    /// The number of rows of the raster.
    pub height: u32,
    /// How many rays are averaged into one pixel.
    pub samples: u32,
    /// The vertical field of view in degrees.
    pub fov_degrees: Scalar,
}

impl Settings {
    /// The raster has at least one pixel, each pixel takes at least one sample,
    /// and the field of view is a number above zero.
    pub open spec fn spec_is_valid(&self) -> bool {
        &&& self.width > 0
        &&& self.height > 0
        &&& self.samples >= 1
        &&& (Scalar { bits: 0 }).spec_less_than(self.fov_degrees)
    }

    /// Whether these settings can be rendered.
    #[verifier::when_used_as_spec(spec_is_valid)]
    pub fn is_valid(&self) -> (valid: bool)
        ensures
            valid == self.spec_is_valid(),
    {
        self.width > 0 && self.height > 0 && self.samples >= 1 && Scalar::zero().less_than(
            self.fov_degrees,
        )
    }
}

impl Default for Settings {
    /// A raster of 640 by 480 pixels, one sample for each, thirty degrees of view.
    fn default() -> (settings: Settings)
        ensures
            settings.width == 640,
            settings.height == 480,
            settings.samples == 1,
            settings.fov_degrees.bits == DEFAULT_FOV_BITS,
            settings.spec_is_valid(),
    {
        let settings = Settings {
            width: 640,
            height: 480,
            samples: 1,
            fov_degrees: Scalar::from_bits(DEFAULT_FOV_BITS),
        };
        assert(settings.spec_is_valid()) by {
            crate::scalar::lemma_magnitude_order(0, DEFAULT_FOV_BITS as int);
        }
        settings
    }
}

} // verus!
