//! Triples of binary64 numbers: points, directions and colours.

use crate::scalar::{lemma_zero_channel, Scalar};
use vstd::prelude::*;

verus! {

/// Three binary64 numbers. As a colour they are red, green and blue.
#[derive(Clone, Copy, Debug, PartialEq, Eq, Structural)]
pub struct Vector3f {
    pub x: Scalar,
    pub y: Scalar,
    pub z: Scalar,
}

impl Vector3f {
    /// The vector of three positive zeros: the origin, and black.
    pub open spec fn spec_zero() -> Vector3f {
        Vector3f { x: Scalar { bits: 0 }, y: Scalar { bits: 0 }, z: Scalar { bits: 0 } }
    }

    /// The three components cut down to eight-bit channels.
    pub open spec fn spec_quantize(self) -> (u8, u8, u8) {
        (self.x.spec_to_u8(), self.y.spec_to_u8(), self.z.spec_to_u8())
    }

    /// A vector of the three components.
    pub fn new(x: Scalar, y: Scalar, z: Scalar) -> (v: Vector3f)
        ensures
            v == (Vector3f { x, y, z }),
    {
        Vector3f { x, y, z }
    }

    /// A vector of the three bit patterns.
    pub fn from_bits(x: u64, y: u64, z: u64) -> (v: Vector3f)
        ensures
            v.x.bits == x,
            v.y.bits == y,
            v.z.bits == z,
    {
        Vector3f { x: Scalar { bits: x }, y: Scalar { bits: y }, z: Scalar { bits: z } }
    }

    /// The bit patterns of the three components.
    pub fn to_bits(self) -> (bits: (u64, u64, u64))
        ensures
            bits == (self.x.bits, self.y.bits, self.z.bits),
    {
        (self.x.bits, self.y.bits, self.z.bits)
    }

    /// The origin, and the colour black.
    #[verifier::when_used_as_spec(spec_zero)]
    pub fn zero() -> (v: Vector3f)
        ensures
            v == Vector3f::spec_zero(),
            v.spec_quantize() == (0u8, 0u8, 0u8),
    {
        proof {
            lemma_zero_channel();
        }
        Vector3f { x: Scalar { bits: 0 }, y: Scalar { bits: 0 }, z: Scalar { bits: 0 } }
    }

    /// The colour as eight-bit red, green and blue: each channel is the whole
    /// part of its component, held to the range from 0 to 255.
    #[verifier::when_used_as_spec(spec_quantize)]
    pub fn quantize(self) -> (rgb: (u8, u8, u8))
        ensures
            rgb == self.spec_quantize(),
    {
        (self.x.to_u8(), self.y.to_u8(), self.z.to_u8())
    }
}

} // verus!
