//! What is decided when a ray meets a sphere.
//!
//! With `l` the vector from the ray's origin to the sphere's centre, the
//! caller computes `tca`, the length of `l` along the ray, `d2`, the squared
//! distance from the centre to the ray, and `radius2`, the squared radius.
//! `reaches` tells from them whether the ray meets the sphere at all. If it
//! does, the ray crosses the surface at the distances `tca - thc` and
//! `tca + thc`, where `thc` is the square root of `radius2 - d2`, and
//! `nearest_root` picks the one at which the hit lies.

use crate::scalar::Scalar;
use crate::vector::Vector3f;
use vstd::prelude::*;

verus! {

/// Where a ray meets a surface.
#[derive(Clone, Copy, Debug, PartialEq, Eq, Structural)]
pub struct Intersection {
    /// The point that was hit.
    pub pos: Vector3f,
    /// How far along the ray the point lies.
    pub distance: Scalar,
    /// The colour of the surface.
    pub color: Vector3f,
}

impl Intersection {
    /// A hit at `pos`, `distance` along the ray, on a surface of colour `color`.
    pub fn new(pos: Vector3f, distance: Scalar, color: Vector3f) -> (hit: Intersection)
        ensures
            hit == (Intersection { pos, distance, color }),
    {
        Intersection { pos, distance, color }
    }
}

/// The ray meets the sphere: the centre does not lie behind the origin
/// (`tca < 0`), and the ray does not pass the centre farther off than the
/// radius (`d2 > radius2`). A ray that touches the sphere, `d2` equal to
/// `radius2`, meets it.
pub open spec fn spec_reaches(tca: Scalar, d2: Scalar, radius2: Scalar) -> bool {
    !tca.spec_is_below_zero() && !radius2.spec_less_than(d2)
}

/// The smaller of two distances along a ray that is not below zero, if there
/// is one. The distances are put in order first, the second counting as the
/// smaller only where it is less than the first.
pub open spec fn spec_nearest_root(t0: Scalar, t1: Scalar) -> Option<Scalar> {
    let near = if t1.spec_less_than(t0) { t1 } else { t0 };
    let far = if t1.spec_less_than(t0) { t0 } else { t1 };
    if !near.spec_is_below_zero() {
        Some(near)
    } else if !far.spec_is_below_zero() {
        Some(far)
    } else {
        None
    }
}

/// Whether a ray meets a sphere, from the three numbers of the closest approach.
#[verifier::when_used_as_spec(spec_reaches)]
pub fn reaches(tca: Scalar, d2: Scalar, radius2: Scalar) -> (hit: bool)
    ensures
        hit == spec_reaches(tca, d2, radius2),
        tca.spec_is_below_zero() ==> !hit,
        radius2.spec_less_than(d2) ==> !hit,
        !tca.spec_is_nan() && tca.value() >= 0 && !d2.spec_is_nan() && !radius2.spec_is_nan()
            && d2.value() <= radius2.value() ==> hit,
{
    if tca.is_below_zero() {
        return false;
    }
    !radius2.less_than(d2)
}

/// The distance of the hit, from the two distances at which the ray crosses
/// the sphere: the nearer one, or the farther one where the nearer lies behind
/// the origin, or none where both do.
#[verifier::when_used_as_spec(spec_nearest_root)]
pub fn nearest_root(t0: Scalar, t1: Scalar) -> (root: Option<Scalar>)
    ensures
        root == spec_nearest_root(t0, t1),
        root is None <==> t0.spec_is_below_zero() && t1.spec_is_below_zero(),
        root matches Some(t) ==> (t == t0 || t == t1) && !t.spec_is_below_zero(),
{
    let mut near = t0;
    let mut far = t1;
    if far.less_than(near) {
        near = t1;
        far = t0;
    }
    if near.is_below_zero() {
        near = far;
        if near.is_below_zero() {
            return None;
        }
    }
    Some(near)
}

/// Of two crossings that both lie ahead of the origin, the hit is at the
/// nearer one, in whichever order they are given.
pub proof fn lemma_nearest_root_is_least(t0: Scalar, t1: Scalar)
    requires
        !t0.spec_is_nan(),
        !t1.spec_is_nan(),
        t0.value() >= 0,
        t1.value() >= 0,
    ensures
        spec_nearest_root(t0, t1) matches Some(t) && t.value() <= t0.value() && t.value()
            <= t1.value(),
        spec_nearest_root(t1, t0) matches Some(t) && t.value() <= t0.value() && t.value()
            <= t1.value(),
{
}

/// Where one crossing lies behind the origin and the other does not, the hit
/// is at the other: the ray starts inside the sphere.
pub proof fn lemma_nearest_root_from_inside(t0: Scalar, t1: Scalar)
    requires
        t0.spec_is_below_zero(),
        !t1.spec_is_nan(),
        t1.value() >= 0,
    ensures
        spec_nearest_root(t0, t1) == Some(t1),
        spec_nearest_root(t1, t0) == Some(t1),
{
}

} // verus!
