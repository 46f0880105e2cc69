use macro_deck::codec::{
    decode_base64, decode_image, encode_base64, encode_jpeg, resize, MAX_SIDE,
};
use macro_deck::error::Error;
use macro_deck::raster::Image;

fn plain(width: u32, height: u32, rgba: [u8; 4]) -> Image {
    Image::filled(width, height, rgba[0], rgba[1], rgba[2], rgba[3]).unwrap()
}

fn png_of(image: &Image) -> Vec<u8> {
    let buffer = image::RgbaImage::from_raw(image.width(), image.height(), image.as_raw().clone()).unwrap();
    let mut file = Vec::new();
    image::DynamicImage::ImageRgba8(buffer)
        .write_to(&mut std::io::Cursor::new(&mut file), image::ImageFormat::Png)
        .unwrap();
    file
}

#[test]
fn base64_text_is_read() {
    assert_eq!(decode_base64(b"aGVsbG8gd29ybGQ="), Ok(b"hello world".to_vec()));
    assert_eq!(decode_base64(b"aGk="), Ok(b"hi".to_vec()));
    assert_eq!(decode_base64(b""), Ok(vec![]));
}

#[test]
fn text_that_is_no_base64_is_an_image_error() {
    assert_eq!(decode_base64(b"not base64!"), Err(Error::Image));
    assert_eq!(decode_base64(b"aGk"), Err(Error::Image));
}

#[test]
fn bytes_are_written_as_base64() {
    assert_eq!(encode_base64(b"hello world"), Some("aGVsbG8gd29ybGQ=".to_string()));
    assert_eq!(encode_base64(b""), Some(String::new()));
}

#[test]
fn base64_reads_what_it_wrote() {
    let data: Vec<u8> = (0u8..=255).collect();
    let text = encode_base64(&data).unwrap();
    assert_eq!(decode_base64(text.as_bytes()), Ok(data));
}

#[test]
fn a_jpeg_file_is_written_for_an_image() {
    let file = encode_jpeg(&plain(64, 64, [255, 0, 0, 255])).unwrap();
    assert!(file.len() > 4);
    assert_eq!(&file[..2], &[0xff, 0xd8]);
    assert_eq!(&file[file.len() - 2..], &[0xff, 0xd9]);
}

#[test]
fn the_same_image_gives_the_same_jpeg_file() {
    let image = plain(16, 8, [10, 200, 30, 255]);
    assert_eq!(encode_jpeg(&image), encode_jpeg(&image.duplicate()));
}

#[test]
fn an_image_without_pixels_has_no_jpeg_file() {
    assert_eq!(encode_jpeg(&Image::from_raw(0, 0, vec![]).unwrap()), Err(Error::Image));
    assert_eq!(encode_jpeg(&Image::from_raw(0, 5, vec![]).unwrap()), Err(Error::Image));
    assert_eq!(encode_jpeg(&Image::from_raw(5, 0, vec![]).unwrap()), Err(Error::Image));
}

#[test]
fn an_image_too_wide_for_jpeg_has_no_file() {
    assert_eq!(encode_jpeg(&plain(65536, 1, [0, 0, 0, 255])), Err(Error::Image));
    assert!(encode_jpeg(&plain(65535, 1, [0, 0, 0, 255])).is_ok());
}

#[test]
fn a_jpeg_file_decodes_to_an_image_of_its_size() {
    let file = encode_jpeg(&plain(64, 48, [255, 0, 0, 255])).unwrap();
    let image = decode_image(&file).unwrap();
    assert_eq!((image.width(), image.height()), (64, 48));
    let (r, g, b, a) = image.get_pixel(10, 10).unwrap();
    assert!(r > 240 && g < 15 && b < 15);
    assert_eq!(a, 255);
}

#[test]
fn a_png_file_decodes_to_its_pixels() {
    let mut data = plain(3, 2, [1, 2, 3, 255]).as_raw().clone();
    data[4..8].copy_from_slice(&[9, 8, 7, 100]);
    let image = Image::from_raw(3, 2, data).unwrap();
    let back = decode_image(&png_of(&image)).unwrap();
    assert_eq!((back.width(), back.height()), (3, 2));
    assert_eq!(back.as_raw(), image.as_raw());
}

#[test]
fn bytes_that_are_no_image_are_an_image_error() {
    assert!(matches!(decode_image(b"no image at all"), Err(Error::Image)));
    assert!(matches!(decode_image(b""), Err(Error::Image)));
}

#[test]
fn resize_to_the_same_size_gives_the_same_pixels() {
    let mut data = plain(4, 4, [1, 2, 3, 255]).as_raw().clone();
    data[20..24].copy_from_slice(&[200, 100, 50, 255]);
    let image = Image::from_raw(4, 4, data).unwrap();
    let same = resize(&image, 4, 4).unwrap();
    assert_eq!(same.as_raw(), image.as_raw());
}

#[test]
fn resize_gives_the_size_that_was_asked_for() {
    let image = plain(2, 2, [40, 50, 60, 255]);
    let larger = resize(&image, 4, 6).unwrap();
    assert_eq!((larger.width(), larger.height()), (4, 6));
    assert_eq!(larger.as_raw().len(), 96);
    assert_eq!(larger.get_pixel(1, 1), Some((40, 50, 60, 255)));
    let smaller = resize(&plain(64, 64, [40, 50, 60, 255]), 7, 3).unwrap();
    assert_eq!((smaller.width(), smaller.height()), (7, 3));
}

#[test]
fn a_side_too_long_for_the_filter_is_refused() {
    assert_eq!(MAX_SIDE, 16777216);
    let small = plain(2, 1, [1, 2, 3, 255]);
    assert!(resize(&small, MAX_SIDE, 1).is_none());
    assert!(resize(&small, 1, MAX_SIDE).is_none());
    assert!(resize(&small, MAX_SIDE - 1, 1).is_some());
    let long = plain(MAX_SIDE, 1, [1, 2, 3, 255]);
    assert!(resize(&long, 10, 1).is_none());
    let tall = plain(1, MAX_SIDE, [1, 2, 3, 255]);
    assert!(resize(&tall, 1, 10).is_none());
}

#[test]
fn a_long_image_of_the_size_asked_for_comes_back_as_it_is() {
    let long = plain(MAX_SIDE, 1, [1, 2, 3, 255]);
    let same = resize(&long, MAX_SIDE, 1).unwrap();
    assert_eq!(same.as_raw(), long.as_raw());
}

#[test]
fn resize_to_nothing_gives_an_image_without_pixels() {
    let none = resize(&plain(4, 4, [0, 0, 0, 255]), 0, 0).unwrap();
    assert_eq!((none.width(), none.height()), (0, 0));
}
