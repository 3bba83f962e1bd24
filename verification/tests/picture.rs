use cliprail::picture::{decode_picture, picture_fits};

fn png_of(width: u32, height: u32, rgba: &[u8]) -> Vec<u8> {
    let img = image::RgbaImage::from_raw(width, height, rgba.to_vec()).unwrap();
    let mut out = std::io::Cursor::new(Vec::new());
    img.write_to(&mut out, image::ImageFormat::Png).unwrap();
    out.into_inner()
}

#[test]
fn stored_pictures_decode_to_their_pixels() {
    let pixels: Vec<u8> = (0..2 * 3 * 4).map(|k| (k * 7) as u8).collect();
    let bytes = png_of(2, 3, &pixels);
    assert_eq!(decode_picture(&bytes), Some((2, 3, pixels)));
    assert_eq!(decode_picture(b"not a picture"), None);
    assert_eq!(decode_picture(&[]), None);
}

#[test]
fn which_buffers_hold_a_picture() {
    assert!(picture_fits(2, 3, 24));
    assert!(picture_fits(2, 3, 30));
    assert!(!picture_fits(2, 3, 23));
    assert!(!picture_fits(0, 3, 100));
    assert!(!picture_fits(3, 0, 100));
    assert!(!picture_fits(u32::MAX, u32::MAX, usize::MAX));
    assert!(picture_fits(1, 1, 4));
}
