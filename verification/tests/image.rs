use nprs::image::pixel::{Rgba, ToLuma, ToRgba};
use nprs::image::{Image, ImageError};

fn sample() -> Image<u8> {
    Image::from_data(vec![1, 2, 3, 4, 5, 6], 3, 2).unwrap()
}

#[test]
fn from_data_creates_image_of_specified_dimensions() {
    let img = sample();
    assert_eq!(img.dimensions(), (3, 2));
    assert_eq!(img.width(), 3);
    assert_eq!(img.height(), 2);
    assert_eq!(img.data(), &[1, 2, 3, 4, 5, 6][..]);
}

#[test]
fn from_data_rejects_data_that_does_not_match_dimensions() {
    let r: Result<Image<u8>, ImageError> = Image::from_data(vec![1, 2, 3, 4, 5, 6], 3, 4);
    assert_eq!(r.err(), Some(ImageError::DimensionMismatch));
    let r: Result<Image<u8>, ImageError> = Image::from_data(vec![1, 2, 3, 4, 5, 6], 6, 0);
    assert_eq!(r.err(), Some(ImageError::DimensionMismatch));
    let r: Result<Image<u8>, ImageError> = Image::from_data(vec![], usize::MAX, 2);
    assert_eq!(r.err(), Some(ImageError::DimensionMismatch));
    let r: Result<Image<u8>, ImageError> = Image::from_data(vec![], 0, 7);
    assert!(r.is_ok());
}

#[test]
fn get_pixel_value_by_coords() {
    let img = sample();
    assert_eq!(img[(2, 1)], 6);
    assert_eq!(img[(0, 0)], 1);
    assert_eq!(img[(1, 1)], 5);
    assert_eq!(img[(2, 0)], 3);
    assert_eq!(img.pixel(2, 1), 6);
    assert_eq!(img.pixel(0, 1), 4);
    assert_eq!(img.get(1, 0), Ok(2));
}

#[test]
fn get_reports_coordinates_out_of_bounds() {
    let img = sample();
    assert_eq!(img.get(2, 2), Err(ImageError::OutOfBounds));
    assert_eq!(img.get(3, 0), Err(ImageError::OutOfBounds));
    assert_eq!(img.get(-1, 0), Err(ImageError::OutOfBounds));
    assert_eq!(img.get(0, -1), Err(ImageError::OutOfBounds));
}

#[test]
fn inside_is_true_in_bounds() {
    let img = sample();
    assert_eq!(img.inside(2, 1), true);
    assert_eq!(img.inside(0, 0), true);
    assert_eq!(img.inside(2, 0), true);
}

#[test]
fn inside_is_false_out_of_bounds() {
    let img = sample();
    assert_eq!(img.inside(-1, 0), false);
    assert_eq!(img.inside(3, 2), false);
    assert_eq!(img.inside(3, 0), false);
    assert_eq!(img.inside(0, 2), false);
    assert_eq!(img.inside(0, -1), false);
}

#[test]
fn set_pixel_changes_one_cell() {
    let mut img = sample();
    img.set_pixel(1, 1, 50);
    assert_eq!(img.data(), &[1, 2, 3, 4, 50, 6][..]);
    assert_eq!(img.set(0, 0, 9), Ok(()));
    assert_eq!(img.data(), &[9, 2, 3, 4, 50, 6][..]);
    assert_eq!(img.set(3, 0, 7), Err(ImageError::OutOfBounds));
    assert_eq!(img.set(0, 2, 7), Err(ImageError::OutOfBounds));
    assert_eq!(img.data(), &[9, 2, 3, 4, 50, 6][..]);
}

#[test]
fn map_transforms_every_cell() {
    let img = sample();
    let doubled: Image<u16> = img.map(|v| (*v as u16) * 2);
    assert_eq!(doubled.dimensions(), (3, 2));
    assert_eq!(doubled.data(), &[2u16, 4, 6, 8, 10, 12][..]);
    let blank: Image<Option<usize>> = img.map(|_| None);
    assert_eq!(blank.data(), &[None; 6][..]);
}

#[test]
fn clone_is_equal() {
    let img = sample();
    let copy = img.clone();
    assert_eq!(copy, img);
    assert_eq!(copy.data(), img.data());
}

#[test]
fn rgba_from_i32_takes_bytes_from_the_top() {
    assert_eq!(Rgba::from_i32(0x11223344), Rgba { r: 0x11, g: 0x22, b: 0x33, a: 0x44 });
    assert_eq!(Rgba::from_i32(0), Rgba { r: 0, g: 0, b: 0, a: 0 });
    assert_eq!(Rgba::from_i32(-1), Rgba { r: 255, g: 255, b: 255, a: 255 });
    assert_eq!(Rgba::from_i32(i32::MIN), Rgba { r: 0x80, g: 0, b: 0, a: 0 });
    assert_eq!(Rgba::from_i32(0x000000FF), Rgba { r: 0, g: 0, b: 0, a: 255 });
}

#[test]
fn intensities_convert_to_themselves() {
    assert_eq!(17u8.to_luma(), 17);
    assert_eq!(17u8.to_rgba(), Rgba { r: 17, g: 17, b: 17, a: 17 });
}

#[test]
fn owners_convert_to_marks() {
    let none: Option<usize> = None;
    assert_eq!(none.to_luma(), 0);
    assert_eq!(Some(4usize).to_luma(), 255);
    assert_eq!(none.to_rgba(), Rgba { r: 0, g: 0, b: 0, a: 0 });
    assert_eq!(Some(4usize).to_rgba(), Some(4usize).to_rgba());
}
