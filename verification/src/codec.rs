//! What the library has from its outside crates: base64 text and the coding
//! of images. The functions here that make the outside calls are believed,
//! not proved; what is done with their results is verified.

use vstd::prelude::*;
use crate::error::Error;
use crate::raster::{byte_count, Image, Pixels};

verus! {

#[verifier::external_type_specification]
#[verifier::external_body]
pub struct ExBase64DecodeError(base64::DecodeError);

#[verifier::external_type_specification]
#[verifier::external_body]
pub struct ExImageError(image::ImageError);

/// The bytes that a text in standard base64 with padding stands for, and
/// `None` where the text is none.
pub uninterp spec fn base64_decoding(text: Seq<u8>) -> Option<Seq<u8>>;

/// The JPEG file that the `image` crate writes for the picture of `width` by
/// `height` pixels with the bytes `rgba`, and `None` where it writes none.
pub uninterp spec fn jpeg_encoding(width: u32, height: u32, rgba: Seq<u8>) -> Option<Seq<u8>>;

/// The text in standard base64 with padding that stands for `data`.
pub uninterp spec fn base64_encoding(data: Seq<u8>) -> Seq<char>;

/// Calls `encode` of base64's `STANDARD` engine. Believed: the text depends
/// on the bytes alone. The engine gives up where four characters for every
/// three bytes, rounded up, are more than a buffer can hold.
#[verifier::external_body]
fn base64_encode(data: &[u8]) -> (text: String)
    requires
        data@.len() / 3 * 4 + 4 <= isize::MAX,
    ensures
        text@ == base64_encoding(data@),
{
    base64::Engine::encode(&base64::engine::general_purpose::STANDARD, data)
}

/// Calls `decode` of base64's `STANDARD` engine. Believed: the outcome
/// depends on the text alone.
#[verifier::external_body]
fn base64_decode(text: &[u8]) -> (r: Result<Vec<u8>, base64::DecodeError>)
    ensures
        match r {
            Ok(bytes) => base64_decoding(text@) == Some(bytes@),
            Err(_) => base64_decoding(text@) is None,
        },
{
    base64::Engine::decode(&base64::engine::general_purpose::STANDARD, text)
}

/// Calls `image::load_from_memory`, which guesses the format from the first
/// bytes, and hands the picture over as eight-bit RGBA. Nothing is claimed of
/// the outcome.
#[verifier::external_body]
fn load_from_memory(bytes: &[u8]) -> Result<(u32, u32, Vec<u8>), image::ImageError> {
    match image::load_from_memory(bytes) {
        Ok(picture) => {
            let rgba = picture.into_rgba8();
            Ok((rgba.width(), rgba.height(), rgba.into_raw()))
        },
        Err(e) => Err(e),
    }
}

/// Calls `DynamicImage::write_to` with the JPEG format on an RGBA picture.
/// Believed: the outcome depends on the picture alone, and a file is written
/// exactly where both sides have between 1 and 65535 pixels, which is what
/// the encoder of the `image` crate tests before it writes anything.
#[verifier::external_body]
fn write_jpeg(width: u32, height: u32, rgba: &Vec<u8>) -> (r: Result<Vec<u8>, image::ImageError>)
    requires
        rgba@.len() == 4 * width * height,
    ensures
        match r {
            Ok(bytes) => jpeg_encoding(width, height, rgba@) == Some(bytes@),
            Err(_) => jpeg_encoding(width, height, rgba@) is None,
        },
        (1 <= width <= 0xffff && 1 <= height <= 0xffff) <==> r is Ok,
{
    let picture = image::DynamicImage::ImageRgba8(
        image::RgbaImage::from_raw(width, height, rgba.clone()).unwrap(),
    );
    let mut file: Vec<u8> = Vec::new();
    match picture.write_to(&mut std::io::Cursor::new(&mut file), image::ImageFormat::Jpeg) {
        Ok(()) => Ok(file),
        Err(e) => Err(e),
    }
}

/// Calls `DynamicImage::resize_exact` with the Lanczos filter of window 3 on
/// an RGBA picture. Believed: the result has the size that was asked for,
/// and where that is the size of the picture itself, the result is a copy.
/// The sizes are bounded so that the buffers of the filter, sixteen bytes for
/// each pixel, can be allocated. Where the size changes, every side is
/// bounded by `MAX_SIDE` as well: the filter places its window by
/// single-precision arithmetic on the sides, and beyond that bound a window
/// can miss the picture, its weights then sum to nothing, and the filter
/// fails on the quotient.
#[verifier::external_body]
fn resize_exact(width: u32, height: u32, rgba: &Vec<u8>, new_width: u32, new_height: u32) -> (out:
    Vec<u8>)
    requires
        rgba@.len() == 4 * width * height,
        16 * width * new_height <= isize::MAX,
        16 * new_width * new_height <= isize::MAX,
        (new_width == width && new_height == height) || (width < MAX_SIDE && height < MAX_SIDE
            && new_width < MAX_SIDE && new_height < MAX_SIDE),
    ensures
        out@.len() == 4 * new_width * new_height,
        new_width == width && new_height == height ==> out@ == rgba@,
{
    image::DynamicImage::ImageRgba8(
        image::RgbaImage::from_raw(width, height, rgba.clone()).unwrap(),
    ).resize_exact(new_width, new_height, image::imageops::FilterType::Lanczos3).into_rgba8().into_raw()
}

/// Whether the base64 text of `data`, four characters for every three bytes,
/// rounded up, is no longer than a buffer can be.
pub open spec fn fits_as_base64(data: Seq<u8>) -> bool {
    data.len() / 3 * 4 + 4 <= isize::MAX
}

/// The JPEG file of a picture, as the `image` crate writes it.
pub open spec fn jpeg_of(p: Pixels) -> Option<Seq<u8>> {
    jpeg_encoding(p.width as u32, p.height as u32, p.data)
}

/// Whether the JPEG encoder takes a picture of this size.
pub open spec fn jpeg_takes(p: Pixels) -> bool {
    1 <= p.width <= 0xffff && 1 <= p.height <= 0xffff
}

/// Writes bytes as standard base64 text. `None` where the text would be too
/// long for a buffer.
pub fn encode_base64(data: &[u8]) -> (r: Option<String>)
    ensures
        r is Some <==> fits_as_base64(data@),
        r matches Some(text) ==> text@ == base64_encoding(data@),
{
    let len: usize = data.len();
    if len / 3 > (isize::MAX as usize - 4) / 4 {
        return None;
    }
    Some(base64_encode(data))
}

/// Reads standard base64 text.
pub fn decode_base64(text: &[u8]) -> (r: Result<Vec<u8>, Error>)
    ensures
        match r {
            Ok(bytes) => base64_decoding(text@) == Some(bytes@),
            Err(e) => e == Error::Image && base64_decoding(text@) is None,
        },
{
    match base64_decode(text) {
        Ok(bytes) => Ok(bytes),
        Err(_) => Err(Error::Image),
    }
}

/// Makes an image of what a decoder handed over: its size and its bytes,
/// which must be four for each pixel.
pub fn accept_decoded(outcome: Result<(u32, u32, Vec<u8>), image::ImageError>) -> (r: Result<
    Image,
    Error,
>)
    ensures
        match r {
            Ok(img) => outcome matches Ok((w, h, data)) && img@ == (Pixels {
                width: w as nat,
                height: h as nat,
                data: data@,
            }) && img@.wf(),
            Err(e) => e == Error::Image && !(outcome matches Ok((w, h, data)) && data@.len() == 4
                * w * h),
        },
{
    match outcome {
        Ok((width, height, data)) => match Image::from_raw(width, height, data) {
            Some(img) => Ok(img),
            None => Err(Error::Image),
        },
        Err(_) => Err(Error::Image),
    }
}

/// Decodes an image file, whatever format its first bytes show. Which files
/// decode, and to what, is the decoder's matter: all that is known of the
/// outcome is that an image that comes back is whole.
pub fn decode_image(bytes: &[u8]) -> (r: Result<Image, Error>)
    ensures
        match r {
            Ok(img) => img@.wf(),
            Err(e) => e == Error::Image,
        },
{
    accept_decoded(load_from_memory(bytes))
}

/// The image as a JPEG file.
pub fn encode_jpeg(img: &Image) -> (r: Result<Vec<u8>, Error>)
    ensures
        match r {
            Ok(file) => jpeg_of(img@) == Some(file@),
            Err(e) => e == Error::Image && jpeg_of(img@) is None,
        },
        r is Ok <==> jpeg_takes(img@),
{
    let width: u32 = img.width();
    let height: u32 = img.height();
    match write_jpeg(width, height, img.as_raw()) {
        Ok(file) => Ok(file),
        Err(_) => Err(Error::Image),
    }
}

/// The bound on the sides of a picture that changes its size: two to the
/// power of 24, below which a side is a single-precision number without
/// rounding.
pub const MAX_SIDE: u32 = 0x100_0000;

/// Whether the resampling filter can do this change of size: it can allocate
/// its buffers, and either the size stays as it is or every side, old and
/// new, is below `MAX_SIDE`.
pub open spec fn can_resize(p: Pixels, new_width: u32, new_height: u32) -> bool {
    &&& 16 * p.width * new_height <= isize::MAX
    &&& 16 * new_width * new_height <= isize::MAX
    &&& (p.width == new_width && p.height == new_height) || (p.width < MAX_SIDE && p.height
        < MAX_SIDE && new_width < MAX_SIDE && new_height < MAX_SIDE)
}

/// The image brought to `new_width` by `new_height` pixels by the Lanczos
/// filter, without regard to its proportions. `None` where the filter could
/// not allocate its buffers, or where the size changes and a side is too
/// long for the filter. An image that has that size already comes back as
/// it is.
pub fn resize(img: &Image, new_width: u32, new_height: u32) -> (r: Option<Image>)
    ensures
        r is Some <==> can_resize(img@, new_width, new_height),
        r matches Some(out) ==> out@.wf() && out@.width == new_width && out@.height == new_height,
        r matches Some(out) ==> (img@.width == new_width && img@.height == new_height ==> out@
            == img@),
{
    let width: u32 = img.width();
    let height: u32 = img.height();
    let first: u128 = 4 * byte_count(width, new_height);
    let second: u128 = 4 * byte_count(new_width, new_height);
    if first > isize::MAX as u128 || second > isize::MAX as u128 {
        return None;
    }
    let same: bool = new_width == width && new_height == height;
    if !same && (width >= MAX_SIDE || height >= MAX_SIDE || new_width >= MAX_SIDE || new_height
        >= MAX_SIDE) {
        return None;
    }
    let data: Vec<u8> = resize_exact(width, height, img.as_raw(), new_width, new_height);
    Image::from_raw(new_width, new_height, data)
}

} // verus!
