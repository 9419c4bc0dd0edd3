use mdx::common::docx_image::{picture, sized_picture, ImageError};

fn png_bytes(width: u32, height: u32) -> Vec<u8> {
    let img = image::RgbImage::new(width, height);
    let mut out = std::io::Cursor::new(Vec::new());
    image::DynamicImage::ImageRgb8(img)
        .write_to(&mut out, image::ImageFormat::Png)
        .expect("encodes");
    out.into_inner()
}

#[test]
fn picture_decodes_and_measures_in_emu() {
    let p = picture(&png_bytes(4, 2), 1_000_000).expect("decodes");
    assert_eq!((p.width_px, p.height_px), (4, 2));
    assert_eq!((p.width_emu, p.height_emu), (4 * 9525, 2 * 9525));
    assert!(p.png.starts_with(&[0x89, b'P', b'N', b'G']));
}

#[test]
fn wide_picture_is_scaled_to_the_page() {
    let p = picture(&png_bytes(40, 10), 9525 * 20).expect("decodes");
    assert_eq!((p.width_emu, p.height_emu), (9525 * 20, 9525 * 5));
}

#[test]
fn unreadable_bytes_are_refused() {
    assert!(matches!(picture(b"not an image", 100), Err(ImageError::Unreadable)));
}

#[test]
fn decoding_results_become_errors_in_order() {
    assert!(matches!(sized_picture(None, 100), Err(ImageError::Unreadable)));
    assert!(matches!(sized_picture(Some((Some(vec![1]), 0, 5)), 100), Err(ImageError::EmptySize)));
    assert!(matches!(sized_picture(Some((None, 3, 5)), 100), Err(ImageError::NotEncoded)));
    assert!(matches!(sized_picture(Some((Some(vec![1]), 500_000, 5)), 100), Err(ImageError::TooLarge)));
    let p = sized_picture(Some((Some(vec![7]), 1, 3)), 9525).expect("fits");
    assert_eq!((p.png, p.width_emu, p.height_emu), (vec![7], 9525, 3 * 9525));
}
