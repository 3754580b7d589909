//! Images for the vision models.

use hipfire::image::{extract_patches, load_and_preprocess, to_planes};

fn picture(width: u32, height: u32) -> image::DynamicImage {
    let mut img = image::RgbImage::new(width, height);
    for y in 0..height {
        for x in 0..width {
            img.put_pixel(x, y, image::Rgb([(10 * x) as u8, (20 * y) as u8, 255]));
        }
    }
    image::DynamicImage::ImageRgb8(img)
}

#[test]
fn an_image_of_the_right_size_is_only_normalized() {
    let img = picture(4, 4);
    let v = load_and_preprocess(&img, 4);
    assert_eq!(v.len(), 48);
    for y in 0..4 {
        for x in 0..4 {
            let at = y * 4 + x;
            assert_eq!(f32::from_bits(v[at].bits), (10 * x) as f32 / 127.5 - 1.0);
            assert_eq!(f32::from_bits(v[16 + at].bits), (20 * y) as f32 / 127.5 - 1.0);
            assert_eq!(f32::from_bits(v[32 + at].bits), 1.0);
        }
    }
}

#[test]
fn images_are_resized() {
    let img = picture(8, 2);
    let v = load_and_preprocess(&img, 4);
    assert_eq!(v.len(), 48);
    let small =
        img.resize_exact(4, 4, image::imageops::FilterType::Triangle).to_rgb8().into_raw();
    for at in 0..16 {
        for ch in 0..3 {
            let expected = small[at * 3 + ch] as f32 / 127.5 - 1.0;
            assert_eq!(f32::from_bits(v[ch * 16 + at].bits), expected);
        }
    }
    // Not the bytes of the image as it came.
    let raw = to_planes(&img.to_rgb8().into_raw(), 16);
    assert!((0..48).any(|i| raw[i].bits != v[i].bits));
}

#[test]
fn patches_repeat_over_time() {
    // One channel, 4 by 4, patches of 2 by 2, two frames.
    let chw: Vec<u32> = (0..16).collect();
    let p = extract_patches(&chw, 1, 4, 4, 2, 2);
    assert_eq!(
        p,
        vec![
            0, 1, 4, 5, 0, 1, 4, 5, 2, 3, 6, 7, 2, 3, 6, 7, 8, 9, 12, 13, 8, 9, 12, 13, 10, 11, 14,
            15, 10, 11, 14, 15
        ]
    );
}

#[test]
fn every_byte_is_normalized_to_the_range() {
    let bytes: Vec<u8> = (0..=255).collect();
    for b in bytes {
        let v = to_planes(&vec![b, b, b], 1);
        let x = f32::from_bits(v[0].bits);
        assert_eq!(x, b as f32 / 127.5 - 1.0);
        assert!((-1.0..=1.0).contains(&x));
    }
}

#[test]
fn patches_leave_what_lies_beyond_the_planes() {
    let chw: Vec<u32> = (0..20).collect();
    assert_eq!(extract_patches(&chw, 1, 4, 4, 2, 2), extract_patches(&chw[..16], 1, 4, 4, 2, 2));
}
