//! The discrete core of a sphere ray caster.
//!
//! Real numbers travel through this crate as IEEE 754 binary64 bit patterns.
//! Everything that is decided from them (which of two distances is nearer,
//! whether a ray reaches a sphere, which eight-bit value a colour channel
//! becomes, which pixel is written) is decided here and proved against the
//! numbers those patterns stand for.

pub mod intersection;
pub mod raster;
pub mod scalar;
pub mod settings;
pub mod tracer;
pub mod vector;
