use std::io::Cursor;

use image::{ImageBuffer, ImageFormat, Luma};
use reading_steiner::images::{
    cache_file_name, check_download, compute_phash, content_type_or_default, hex,
    image_byte_limit, sha256_hex, ImageReject, DEFAULT_IMAGE_BYTES,
};

fn png(pixel: u8) -> Vec<u8> {
    let img: ImageBuffer<Luma<u8>, Vec<u8>> = ImageBuffer::from_pixel(8, 8, Luma([pixel]));
    let mut out = Cursor::new(Vec::new());
    img.write_to(&mut out, ImageFormat::Png).unwrap();
    out.into_inner()
}

#[test]
fn downloads_are_checked_in_order() {
    assert_eq!(image_byte_limit(0), DEFAULT_IMAGE_BYTES);
    assert_eq!(image_byte_limit(5), 5);
    assert_eq!(check_download("ftp", true, "image/png", 1, 10), Some(ImageReject::Scheme));
    assert_eq!(check_download("https", false, "image/png", 1, 10), Some(ImageReject::Status));
    assert_eq!(check_download("http", true, "text/html", 1, 10), Some(ImageReject::NotImage));
    assert_eq!(check_download("http", true, "image/png", 11, 10), Some(ImageReject::TooLarge));
    assert_eq!(check_download("http", true, "image/png", 10, 10), None);
    assert_eq!(content_type_or_default(None), "application/octet-stream");
    assert_eq!(content_type_or_default(Some("image/gif")), "image/gif");
}

#[test]
fn digests_and_file_names() {
    assert_eq!(hex(&[0x00, 0x0f, 0xa0, 0xff]), "000fa0ff");
    assert_eq!(
        sha256_hex(b"abc"),
        "ba7816bf8f01cfea414140de5dae2223b00361a396177a9cb410ff61f20015ad"
    );
    assert_eq!(cache_file_name("ab12", "image/gif"), "ab12.gif");
    assert_eq!(cache_file_name("ab12", "application/x-no-such-type"), "ab12.bin");
}

#[test]
fn perceptual_hash_of_a_flat_image() {
    let h = compute_phash(&png(255)).unwrap();
    assert_eq!(h, "11111111-11111111-11111111-11111111-11111111-11111111-11111111-11111111");
    assert_eq!(compute_phash(b"not an image"), None);
}
