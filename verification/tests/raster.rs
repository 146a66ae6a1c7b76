use raycast::raster::{fits, render};
use raycast::scalar::Scalar;
use raycast::vector::Vector3f;

fn scalar(x: f64) -> Scalar {
    Scalar::from_bits(x.to_bits())
}

/// A colour whose channels tell the pixel: the column in red, the row in
/// green, their sum in blue.
fn ramp(x: u32, y: u32) -> Vector3f {
    Vector3f::new(
        scalar(f64::from(x) + 0.75),
        scalar(f64::from(y) * 10.0 + 0.25),
        scalar(f64::from(x + y)),
    )
}

#[test]
fn render_gives_a_raster_of_the_size_asked_for() {
    let raster = render(7, 3, ramp);
    assert_eq!(raster.width(), 7);
    assert_eq!(raster.height(), 3);
    assert_eq!(raster.to_bytes().len(), 7 * 3 * 3);
}

#[test]
fn render_writes_each_pixel_from_its_own_colour() {
    let raster = render(7, 3, ramp);
    for y in 0..3u32 {
        for x in 0..7u32 {
            assert_eq!(raster.get_pixel(x, y), Some((x as u8, (y * 10) as u8, (x + y) as u8)));
        }
    }
}

#[test]
fn render_cuts_colours_down_to_channels() {
    let raster = render(2, 1, |x, _| {
        if x == 0 {
            Vector3f::new(scalar(255.9999), scalar(81.919_968), scalar(92.159_964))
        } else {
            Vector3f::new(scalar(300.0), scalar(-4.0), scalar(f64::NAN))
        }
    });
    assert_eq!(raster.get_pixel(0, 0), Some((255, 81, 92)));
    assert_eq!(raster.get_pixel(1, 0), Some((255, 0, 0)));
}

#[test]
fn render_goes_row_by_row_from_the_top() {
    let order = std::cell::RefCell::new(Vec::new());
    let raster = render(3, 2, |x, y| {
        order.borrow_mut().push((x, y));
        Vector3f::zero()
    });
    assert_eq!(raster.width(), 3);
    assert_eq!(order.into_inner(), vec![(0, 0), (1, 0), (2, 0), (0, 1), (1, 1), (2, 1)]);
}

#[test]
fn black_colour_gives_black_pixels() {
    let raster = render(4, 4, |_, _| Vector3f::zero());
    for y in 0..4u32 {
        for x in 0..4u32 {
            assert_eq!(raster.get_pixel(x, y), Some((0, 0, 0)));
        }
    }
    assert_eq!(raster.to_bytes(), vec![0u8; 48]);
}

#[test]
fn get_pixel_is_none_outside_the_raster() {
    let raster = render(7, 3, ramp);
    assert_eq!(raster.get_pixel(7, 0), None);
    assert_eq!(raster.get_pixel(0, 3), None);
    assert_eq!(raster.get_pixel(7, 3), None);
    assert_eq!(raster.get_pixel(u32::MAX, u32::MAX), None);
    assert_eq!(raster.get_pixel(6, 2), Some((6, 20, 8)));
}

#[test]
fn to_bytes_is_row_major() {
    let raster = render(3, 2, ramp);
    assert_eq!(
        raster.to_bytes(),
        vec![0, 0, 0, 1, 0, 1, 2, 0, 2, 0, 10, 1, 1, 10, 2, 2, 10, 3]
    );
}

#[test]
fn to_bytes_make_the_same_image() {
    let raster = render(5, 4, ramp);
    let img = image::RgbImage::from_raw(5, 4, raster.to_bytes()).unwrap();
    for (x, y, pixel) in img.enumerate_pixels() {
        let (r, g, b) = raster.get_pixel(x, y).unwrap();
        assert_eq!(pixel.0, [r, g, b]);
    }
}

#[test]
fn empty_rasters_have_no_bytes() {
    let raster = render(0, 5, ramp);
    assert_eq!((raster.width(), raster.height()), (0, 5));
    assert_eq!(raster.to_bytes(), Vec::<u8>::new());
    assert_eq!(raster.get_pixel(0, 0), None);
    let raster = render(5, 0, ramp);
    assert_eq!((raster.width(), raster.height()), (5, 0));
    assert_eq!(raster.to_bytes(), Vec::<u8>::new());
}

#[test]
fn fits_accepts_what_a_vector_can_hold() {
    assert!(fits(0, 0));
    assert!(fits(640, 480));
    assert!(fits(u32::MAX, 0));
    assert!(fits(65_536, 65_536));
    let limit = isize::MAX as u128;
    for (w, h) in [(u32::MAX, u32::MAX), (u32::MAX, 1 << 31), (1 << 31, 1 << 31), (1 << 30, 3)] {
        assert_eq!(fits(w, h), 3 * u128::from(w) * u128::from(h) <= limit);
    }
}

#[test]
fn fits_turns_down_the_largest_raster() {
    assert!(!fits(u32::MAX, u32::MAX));
}
