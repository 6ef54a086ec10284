use grid_tactics::pixels::Image;
use grid_tactics::pixels::Pixel;

const BLANK: Pixel = Pixel { red: 255, green: 255, blue: 255, alpha: 0 };
const BLACK: Pixel = Pixel { red: 0, green: 0, blue: 0, alpha: 0 };

fn solid(red: u8) -> Pixel {
    Pixel { red, green: 10, blue: 20, alpha: 255 }
}

fn clear(red: u8) -> Pixel {
    Pixel { red, green: 10, blue: 20, alpha: 0 }
}

#[test]
fn image_needs_one_pixel_per_coordinate() {
    assert!(Image::new(2, 2, vec![BLANK; 4]).is_some());
    assert!(Image::new(2, 2, vec![BLANK; 3]).is_none());
    assert!(Image::new(2, 2, vec![BLANK; 5]).is_none());
    assert!(Image::new(0, 5, Vec::new()).is_some());
    assert!(Image::new(u32::MAX, u32::MAX, vec![BLANK; 1]).is_none());
    let image = Image::new(3, 1, vec![solid(1), solid(2), solid(3)]).unwrap();
    assert_eq!(image.width(), 3);
    assert_eq!(image.height(), 1);
    assert_eq!(image.pixels(), &vec![solid(1), solid(2), solid(3)]);
}

#[test]
fn get_pixel_reads_row_major() {
    let image = Image::new(2, 3, (0..6).map(solid).collect()).unwrap();
    assert_eq!(image.get_pixel(0, 0), Some(solid(0)));
    assert_eq!(image.get_pixel(1, 0), Some(solid(1)));
    assert_eq!(image.get_pixel(0, 1), Some(solid(2)));
    assert_eq!(image.get_pixel(1, 2), Some(solid(5)));
    assert_eq!(image.get_pixel(2, 0), None);
    assert_eq!(image.get_pixel(0, 3), None);
    assert_eq!(image.get_pixel(u32::MAX, u32::MAX), None);
}

#[test]
fn nearest_opaque_pixel_is_taken_row_by_row() {
    // 3 x 3, only the corners below are opaque.
    let image = Image::new(
        3,
        3,
        vec![BLANK, BLANK, solid(3), BLANK, BLANK, BLANK, solid(7), BLANK, solid(9)],
    )
    .unwrap();
    assert_eq!(image.find_nearest_non_transparent_pixel((1, 1)), Some(solid(3)));
    assert_eq!(image.find_nearest_non_transparent_pixel((0, 1)), Some(solid(7)));
    assert_eq!(image.find_nearest_non_transparent_pixel((0, 0)), None);
    assert_eq!(image.find_nearest_non_transparent_pixel((2, 2)), Some(solid(9)));
    assert_eq!(image.find_nearest_non_transparent_pixel((1, 2)), Some(solid(7)));
    assert_eq!(image.find_nearest_non_transparent_pixel((3, 3)), Some(solid(9)));
    assert_eq!(image.find_nearest_non_transparent_pixel((9, 9)), None);
    assert_eq!(image.find_nearest_non_transparent_pixel((u32::MAX, u32::MAX)), None);
}

#[test]
fn repair_recolours_blank_pixels_only() {
    let image = Image::new(
        3,
        2,
        vec![BLANK, solid(5), clear(6), BLANK, BLANK, BLANK],
    )
    .unwrap();
    let (fixed, modified) = image.repair();
    assert!(modified);
    assert_eq!(fixed.width(), 3);
    assert_eq!(fixed.height(), 2);
    assert_eq!(
        fixed.pixels(),
        &vec![clear(5), solid(5), clear(6), clear(5), clear(5), clear(5)]
    );
}

#[test]
fn repair_marks_stranded_blank_pixels_black() {
    let image = Image::new(4, 1, vec![BLANK, BLANK, BLANK, solid(1)]).unwrap();
    let (fixed, modified) = image.repair();
    assert!(modified);
    assert_eq!(fixed.pixels(), &vec![BLACK, BLACK, clear(1), solid(1)]);
}

#[test]
fn repair_leaves_an_image_without_blank_pixels_alone() {
    let pixels = vec![solid(1), clear(2), BLACK, solid(4)];
    let image = Image::new(2, 2, pixels.clone()).unwrap();
    let (fixed, modified) = image.repair();
    assert!(!modified);
    assert_eq!(fixed.pixels(), &pixels);
    let empty = Image::new(0, 0, Vec::new()).unwrap();
    let (fixed, modified) = empty.repair();
    assert!(!modified);
    assert!(fixed.pixels().is_empty());
}
