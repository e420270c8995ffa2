//! Packaging of the finished raster: PNG encoding and its base64 data URL.
//!
//! The compression itself is the business of outside crates; what is
//! verified here is everything around it — that the raster is handed over
//! only when its length matches its dimensions, and that the data URL is
//! assembled from exactly the encoder's output.

use vstd::prelude::*;
use vstd::string::StringExecFns;
use crate::bounds::PixelBounds;

verus! {

/// The one way packaging a raster can go wrong.
#[derive(Clone, Copy, Debug, PartialEq, Eq, Structural)]
pub enum EncodeError {
    /// The buffer length does not match the raster dimensions.
    BufferSizeMismatch,
}

/// The error type of the outside image crate.
#[verifier::external_type_specification]
#[verifier::external_body]
pub struct ExImageError(image::ImageError);

/// The PNG stream the outside encoder produces for a grayscale raster of
/// the given dimensions; it is determined by the samples and the
/// dimensions alone.
pub uninterp spec fn png_of(pixels: Seq<u8>, width: u32, height: u32) -> Seq<u8>;

/// The standard-alphabet, padded base64 rendering of a byte string; it is
/// determined by the bytes alone.
pub uninterp spec fn base64_of(bytes: Seq<u8>) -> Seq<char>;

/// Relies on image's `PngEncoder` through `ImageEncoder::write_image` with
/// 8-bit grayscale samples: it reads exactly `width * height` sample bytes
/// (it panics on any other buffer length, so that length is required
/// here) and writes one PNG stream determined by the samples and the
/// dimensions. For positive dimensions, a buffer of exactly that length
/// and a writer that is plain memory, the encoder has no failing path, so
/// the call is owed success.
#[verifier::external_body]
fn encode_png(pixels: &Vec<u8>, width: u32, height: u32) -> (r: Result<
    Vec<u8>,
    image::ImageError,
>)
    requires
        0 < width,
        0 < height,
        pixels@.len() == width * height,
    ensures
        r is Ok,
        r matches Ok(bytes) ==> bytes@ == png_of(pixels@, width, height),
{
    let mut out: Vec<u8> = Vec::new();
    let encoder = image::codecs::png::PngEncoder::new(&mut out);
    match image::ImageEncoder::write_image(
        encoder,
        pixels,
        width,
        height,
        image::ExtendedColorType::L8,
    ) {
        Ok(()) => Ok(out),
        Err(e) => Err(e),
    }
}

/// Relies on base64's standard-alphabet engine with padding: the encoding
/// is determined by the input bytes alone, and spends four characters on
/// every started block of three bytes.
#[verifier::external_body]
fn encode_base64(bytes: &Vec<u8>) -> (r: String)
    ensures
        r@ == base64_of(bytes@),
        r@.len() == 4 * ((bytes@.len() + 2) / 3),
{
    base64::Engine::encode(&base64::engine::general_purpose::STANDARD, bytes)
}

/// Encodes a finished raster as a PNG stream: success on exactly the
/// buffers whose length matches the dimensions, the mismatch error on
/// every other.
pub fn png_bytes(pixels: &Vec<u8>, bounds: PixelBounds) -> (r: Result<Vec<u8>, EncodeError>)
    requires
        bounds.wf(),
        bounds.width <= u32::MAX,
        bounds.height <= u32::MAX,
    ensures
        r is Ok <==> pixels@.len() == bounds.spec_area(),
        pixels@.len() != bounds.spec_area() ==> r == Result::<Vec<u8>, EncodeError>::Err(
            EncodeError::BufferSizeMismatch,
        ),
        r matches Ok(bytes) ==> bytes@ == png_of(
            pixels@,
            bounds.width as u32,
            bounds.height as u32,
        ),
{
    let n = bounds.area();
    if pixels.len() != n {
        return Err(EncodeError::BufferSizeMismatch);
    }
    match encode_png(pixels, bounds.width as u32, bounds.height as u32) {
        Ok(bytes) => Ok(bytes),
        Err(_) => vstd::pervasive::unreached(),
    }
}

/// Encodes a finished raster as a `data:` URL holding the base64 PNG,
/// ready to stand in an `img` element: success on exactly the buffers
/// whose length matches the dimensions, and one fixed URL for each raster.
pub fn fractal_data_url(pixels: &Vec<u8>, bounds: PixelBounds) -> (r: Result<String, EncodeError>)
    requires
        bounds.wf(),
        bounds.width <= u32::MAX,
        bounds.height <= u32::MAX,
    ensures
        r is Ok <==> pixels@.len() == bounds.spec_area(),
        pixels@.len() != bounds.spec_area() ==> r == Result::<String, EncodeError>::Err(
            EncodeError::BufferSizeMismatch,
        ),
        r matches Ok(url) ==> url@ == "data:image/png;base64,"@
            + base64_of(png_of(pixels@, bounds.width as u32, bounds.height as u32)),
{
    match png_bytes(pixels, bounds) {
        Err(e) => Err(e),
        Ok(bytes) => {
            let b64 = encode_base64(&bytes);
            let mut url = String::from_str("data:image/png;base64,");
            url.append(b64.as_str());
            Ok(url)
        },
    }
}

} // verus!
