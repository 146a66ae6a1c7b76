use cgmath::{dot, vec3, InnerSpace, Vector3};
use raycast::intersection::{nearest_root, reaches, Intersection};
use raycast::scalar::Scalar;
use raycast::vector::Vector3f;

fn scalar(x: f64) -> Scalar {
    Scalar::from_bits(x.to_bits())
}

fn number(s: Scalar) -> f64 {
    f64::from_bits(s.to_bits())
}

/// The distance and the point at which the ray from `origin` along
/// `direction` hits the sphere: the arithmetic here, the decisions in the
/// library.
fn intersect(
    center: Vector3<f64>,
    radius: f64,
    origin: Vector3<f64>,
    direction: Vector3<f64>,
) -> Option<(f64, Vector3<f64>)> {
    let l = center - origin;
    let tca = dot(l, direction);
    let d2 = l.magnitude2() - tca * tca;
    let radius2 = radius * radius;
    if !reaches(scalar(tca), scalar(d2), scalar(radius2)) {
        return None;
    }
    let thc = (radius2 - d2).sqrt();
    let t = number(nearest_root(scalar(tca - thc), scalar(tca + thc))?);
    Some((t, origin + t * direction))
}

#[test]
fn ray_at_the_centre_hits_at_the_distance_less_the_radius() {
    let center = vec3(0.0, 0.0, -20.0);
    let origin = vec3(0.0, 0.0, 0.0);
    let (t, pos) = intersect(center, 4.0, origin, vec3(0.0, 0.0, -1.0)).unwrap();
    assert!((t - 16.0).abs() < 1e-9);
    assert!((pos - vec3(0.0, 0.0, -16.0)).magnitude() < 1e-9);

    let center = vec3(5.0, -1.0, -15.0);
    let origin = vec3(1.0, 2.0, 3.0);
    let direction = (center - origin).normalize();
    let (t, pos) = intersect(center, 2.0, origin, direction).unwrap();
    assert!((t - ((center - origin).magnitude() - 2.0)).abs() < 1e-9);
    assert!(((pos - center).magnitude() - 2.0).abs() < 1e-9);
}

#[test]
fn ray_pointing_away_misses() {
    let center = vec3(0.0, 0.0, -20.0);
    let origin = vec3(0.0, 0.0, 0.0);
    assert!(intersect(center, 4.0, origin, vec3(0.0, 0.0, 1.0)).is_none());
    assert!(intersect(center, 4.0, origin, vec3(0.6, 0.0, 0.8)).is_none());
}

#[test]
fn ray_touching_the_sphere_hits_on_the_surface() {
    let center = vec3(4.0, 0.0, -20.0);
    let origin = vec3(0.0, 0.0, 0.0);
    let (t, pos) = intersect(center, 4.0, origin, vec3(0.0, 0.0, -1.0)).unwrap();
    assert_eq!(t, 20.0);
    assert!(((pos - center).magnitude() - 4.0).abs() < 1e-12);
}

#[test]
fn ray_passing_wide_misses() {
    let center = vec3(4.5, 0.0, -20.0);
    let origin = vec3(0.0, 0.0, 0.0);
    assert!(intersect(center, 4.0, origin, vec3(0.0, 0.0, -1.0)).is_none());
}

#[test]
fn ray_from_inside_hits_the_far_side() {
    let center = vec3(0.0, 0.0, -1.0);
    let origin = vec3(0.0, 0.0, 0.0);
    let (t, pos) = intersect(center, 4.0, origin, vec3(0.0, 0.0, -1.0)).unwrap();
    assert_eq!(t, 5.0);
    assert_eq!(pos, vec3(0.0, 0.0, -5.0));
}

#[test]
fn ray_from_inside_with_the_centre_behind_misses() {
    let center = vec3(0.0, 0.0, 1.0);
    let origin = vec3(0.0, 0.0, 0.0);
    assert!(intersect(center, 4.0, origin, vec3(0.0, 0.0, -1.0)).is_none());
}

#[test]
fn reaches_turns_down_a_centre_behind_the_origin() {
    assert!(!reaches(scalar(-1.0), scalar(0.0), scalar(16.0)));
    assert!(!reaches(scalar(-1.0e-300), scalar(0.0), scalar(16.0)));
    assert!(!reaches(scalar(f64::NEG_INFINITY), scalar(0.0), scalar(16.0)));
}

#[test]
fn reaches_takes_a_centre_beside_the_origin() {
    assert!(reaches(scalar(0.0), scalar(1.0), scalar(16.0)));
    assert!(reaches(scalar(-0.0), scalar(1.0), scalar(16.0)));
}

#[test]
fn reaches_turns_down_a_pass_wider_than_the_radius() {
    assert!(!reaches(scalar(20.0), scalar(16.000_000_1), scalar(16.0)));
    assert!(!reaches(scalar(20.0), scalar(f64::INFINITY), scalar(16.0)));
}

#[test]
fn reaches_takes_a_pass_at_the_radius() {
    assert!(reaches(scalar(20.0), scalar(16.0), scalar(16.0)));
    assert!(reaches(scalar(20.0), scalar(15.999_999), scalar(16.0)));
    assert!(reaches(scalar(20.0), scalar(-1.0e-12), scalar(16.0)));
}

#[test]
fn reaches_lets_a_nan_through() {
    assert!(reaches(scalar(f64::NAN), scalar(1.0), scalar(16.0)));
    assert!(reaches(scalar(20.0), scalar(f64::NAN), scalar(16.0)));
    assert!(reaches(scalar(20.0), scalar(1.0), scalar(f64::NAN)));
}

#[test]
fn nearest_root_picks_the_smaller_of_two_ahead() {
    assert_eq!(nearest_root(scalar(16.0), scalar(24.0)), Some(scalar(16.0)));
    assert_eq!(nearest_root(scalar(24.0), scalar(16.0)), Some(scalar(16.0)));
    assert_eq!(nearest_root(scalar(20.0), scalar(20.0)), Some(scalar(20.0)));
    assert_eq!(nearest_root(scalar(0.0), scalar(8.0)), Some(scalar(0.0)));
}

#[test]
fn nearest_root_skips_a_root_behind_the_origin() {
    assert_eq!(nearest_root(scalar(-3.0), scalar(5.0)), Some(scalar(5.0)));
    assert_eq!(nearest_root(scalar(5.0), scalar(-3.0)), Some(scalar(5.0)));
}

#[test]
fn nearest_root_is_none_with_both_roots_behind() {
    assert_eq!(nearest_root(scalar(-3.0), scalar(-1.0)), None);
    assert_eq!(nearest_root(scalar(-1.0), scalar(-3.0)), None);
}

#[test]
fn nearest_root_keeps_a_negative_zero() {
    assert_eq!(nearest_root(scalar(-0.0), scalar(8.0)), Some(scalar(-0.0)));
}

#[test]
fn nearest_root_hands_a_nan_on() {
    let root = nearest_root(scalar(f64::NAN), scalar(f64::NAN)).unwrap();
    assert!(number(root).is_nan());
    let root = nearest_root(scalar(f64::NAN), scalar(5.0)).unwrap();
    assert!(number(root).is_nan());
    assert_eq!(nearest_root(scalar(-1.0), scalar(f64::NAN)).map(|t| t.is_nan()), Some(true));
}

#[test]
fn intersection_keeps_its_fields() {
    let pos = Vector3f::new(scalar(0.0), scalar(0.0), scalar(-16.0));
    let color = Vector3f::new(scalar(1.00), scalar(0.32), scalar(0.36));
    let hit = Intersection::new(pos, scalar(16.0), color);
    assert_eq!(hit.pos, pos);
    assert_eq!(hit.distance, scalar(16.0));
    assert_eq!(hit.color, color);
}
