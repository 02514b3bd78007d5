//! The derivation pipeline: turning an extracted embedded preview into a
//! tier's representation — decode, scale down to the tier bound (never
//! upscale), re-encode — and best-effort color-swatch extraction.

use vstd::prelude::*;

use crate::errors::CacheError;
use crate::swatch::{spec_gray_swatch, spec_swatch_of, swatch_of_pixels, ColorSwatch};
use crate::tier::ThumbnailTier;

verus! {

#[verifier::external_type_specification]
#[verifier::external_body]
pub struct ExDynamicImage(image::DynamicImage);

/// The dimensions of the image that a byte stream decodes to, or nothing
/// when the bytes are not a well-formed image: a function of the bytes
/// alone.
pub uninterp spec fn decoded_dims(bytes: Seq<u8>) -> Option<(u32, u32)>;

/// The JPEG bytes that decoding a byte stream, scaling it to fit the given
/// bounds without changing the aspect ratio, and re-encoding at the given
/// quality produce; nothing when the bytes do not decode or the encoder
/// rejects the image. A function of the arguments alone.
pub uninterp spec fn scaled_jpeg_of(bytes: Seq<u8>, width: u32, height: u32, quality: u8) -> Option<
    Seq<u8>,
>;

/// The row-major RGB buffer of the image a byte stream decodes to: a
/// function of the bytes alone.
pub uninterp spec fn decoded_rgb8_of(bytes: Seq<u8>) -> Seq<u8>;

/// Relies on image's ImageReader with a guessed format and its decode:
/// whether the bytes decode, and the decoded dimensions, depend on the bytes
/// alone — provided the process registers no format-guessing or decoding
/// hook with the image crate; nothing in this crate registers one.
#[verifier::external_body]
fn decode_image(bytes: &Vec<u8>) -> (r: Result<(image::DynamicImage, u32, u32), ()>)
    ensures
        r is Ok <==> decoded_dims(bytes@) is Some,
        r matches Ok(t) ==> decoded_dims(bytes@) == Some((t.1, t.2)),
{
    let cursor = std::io::Cursor::new(bytes.as_slice());
    let reader = image::ImageReader::new(cursor).with_guessed_format().map_err(|_| ())?;
    let img = reader.decode().map_err(|_| ())?;
    let (w, h) = image::GenericImageView::dimensions(&img);
    Ok((img, w, h))
}

/// Relies on image's decode, DynamicImage::resize (Lanczos3, scale to fit
/// within the bounds, aspect ratio preserved), and JpegEncoder at the given
/// quality: the produced bytes are a function of the arguments alone (the
/// same hook proviso as decoding), named `scaled_jpeg_of`; success is
/// decided by the decoder and the encoder.
#[verifier::external_body]
fn scale_and_encode(bytes: &Vec<u8>, width: u32, height: u32, quality: u8) -> (r: Result<
    Vec<u8>,
    (),
>)
    ensures
        r is Ok <==> scaled_jpeg_of(bytes@, width, height, quality) is Some,
        r matches Ok(data) ==> scaled_jpeg_of(bytes@, width, height, quality) == Some(data@),
{
    let cursor = std::io::Cursor::new(bytes.as_slice());
    let reader = image::ImageReader::new(cursor).with_guessed_format().map_err(|_| ())?;
    let img = reader.decode().map_err(|_| ())?;
    let resized = img.resize(width, height, image::imageops::FilterType::Lanczos3);
    let mut buffer: Vec<u8> = Vec::new();
    let sink = std::io::Cursor::new(&mut buffer);
    let encoder = image::codecs::jpeg::JpegEncoder::new_with_quality(sink, quality);
    resized.write_with_encoder(encoder).map_err(|_| ())?;
    Ok(buffer)
}

/// Relies on image's decode, DynamicImage::to_rgb8, and ImageBuffer's raw
/// container: the buffer is a function of the bytes alone (the same hook
/// proviso as decoding), named `decoded_rgb8_of`; it has the decoded
/// dimensions and holds at least width times height pixels of three bytes
/// each.
#[verifier::external_body]
fn decode_to_rgb8(bytes: &Vec<u8>) -> (r: Result<(u32, u32, Vec<u8>), ()>)
    ensures
        r is Ok <==> decoded_dims(bytes@) is Some,
        r matches Ok(t) ==> decoded_dims(bytes@) == Some((t.0, t.1)) && t.2@ == decoded_rgb8_of(
            bytes@,
        ) && t.2@.len() >= 3 * (t.0 as int) * (t.1 as int),
{
    let cursor = std::io::Cursor::new(bytes.as_slice());
    let reader = image::ImageReader::new(cursor).with_guessed_format().map_err(|_| ())?;
    let img = reader.decode().map_err(|_| ())?;
    let rgb = img.to_rgb8();
    let (w, h) = rgb.dimensions();
    Ok((w, h, rgb.into_raw()))
}

/// Target dimensions when fitting an image into a longest-edge bound: an
/// image already within the bound keeps its dimensions; otherwise both edges
/// are scaled by the bound over the long edge, rounded to the nearest
/// integer, which maps the long edge to the bound exactly.
pub open spec fn spec_scaled_dims(w: u32, h: u32, max_dim: u32) -> (u32, u32) {
    let long = if w >= h {
        w as int
    } else {
        h as int
    };
    if long <= max_dim as int {
        (w, h)
    } else {
        (
            (((w as int) * (max_dim as int) + long / 2) / long) as u32,
            (((h as int) * (max_dim as int) + long / 2) / long) as u32,
        )
    }
}

/// Computes the scaled dimensions for a longest-edge bound, never upscaling.
pub fn compute_scaled_dims(w: u32, h: u32, max_dim: u32) -> (r: (u32, u32))
    ensures
        r == spec_scaled_dims(w, h, max_dim),
        r.0 <= w && r.1 <= h,
        w >= h ==> r.0 <= max_dim || w <= max_dim,
        h >= w ==> r.1 <= max_dim || h <= max_dim,
{
    let long: u32 = if w >= h {
        w
    } else {
        h
    };
    if long <= max_dim {
        (w, h)
    } else {
        let lw: u128 = long as u128;
        proof {
            assert((w as u128) * (max_dim as u128) < 0x10000000000000000u128 && (h as u128) * (
            max_dim as u128) < 0x10000000000000000u128) by (nonlinear_arith)
                requires
                    w <= 0xffffffffu32,
                    h <= 0xffffffffu32,
                    max_dim <= 0xffffffffu32,
            ;
        }
        let nw: u128 = ((w as u128) * (max_dim as u128) + lw / 2) / lw;
        let nh: u128 = ((h as u128) * (max_dim as u128) + lw / 2) / lw;
        proof {
            assert((w as int) * (max_dim as int) <= (long as int) * (max_dim as int)
                && 0 <= (w as int) * (max_dim as int)) by (nonlinear_arith)
                requires
                    w <= long,
                    0 <= max_dim,
            ;
            assert((h as int) * (max_dim as int) <= (long as int) * (max_dim as int)
                && 0 <= (h as int) * (max_dim as int)) by (nonlinear_arith)
                requires
                    h <= long,
                    0 <= max_dim,
            ;
            assert(((w as int) * (max_dim as int) + (long as int) / 2) / (long as int) <= max_dim)
                by (nonlinear_arith)
                requires
                    (w as int) * (max_dim as int) <= (long as int) * (max_dim as int),
                    0 <= (w as int) * (max_dim as int),
                    long > max_dim,
            ;
            assert(((h as int) * (max_dim as int) + (long as int) / 2) / (long as int) <= max_dim)
                by (nonlinear_arith)
                requires
                    (h as int) * (max_dim as int) <= (long as int) * (max_dim as int),
                    0 <= (h as int) * (max_dim as int),
                    long > max_dim,
            ;
            assert(((w as int) * (max_dim as int) + (long as int) / 2) / (long as int) <= w)
                by (nonlinear_arith)
                requires
                    max_dim < long,
                    0 <= w,
            ;
            assert(((h as int) * (max_dim as int) + (long as int) / 2) / (long as int) <= h)
                by (nonlinear_arith)
                requires
                    max_dim < long,
                    0 <= h,
            ;
        }
        (nw as u32, nh as u32)
    }
}

/// The result of the pipeline on decodable bytes for a resizing tier: the
/// input re-encoded at the tier quality, scaled to the target dimensions the
/// never-upscale rule picks; nothing when the encoder rejects the image.
pub open spec fn spec_derived(bytes: Seq<u8>, tier: ThumbnailTier) -> Option<Seq<u8>>
    recommends
        decoded_dims(bytes) is Some,
        tier != ThumbnailTier::Loupe,
{
    let dims = decoded_dims(bytes)->0;
    let target = spec_scaled_dims(dims.0, dims.1, tier.spec_max_dimension()->0);
    scaled_jpeg_of(bytes, target.0, target.1, tier.spec_jpeg_quality())
}

/// Derives a tier's representation from extracted preview bytes. The
/// native-resolution tier returns the bytes unchanged. Other tiers decode
/// the bytes — failing with a decode error when they are not a well-formed
/// image — scale them down to the tier's longest-edge bound when they exceed
/// it (never upscaling), and re-encode at the tier's quality: on success the
/// result is exactly the re-encoding of the input at the target dimensions.
pub fn process_extracted(bytes: Vec<u8>, tier: ThumbnailTier) -> (r: Result<Vec<u8>, CacheError>)
    ensures
        tier == ThumbnailTier::Loupe ==> r == Ok::<Vec<u8>, CacheError>(bytes),
        tier != ThumbnailTier::Loupe && decoded_dims(bytes@) is None ==> r == Err::<
            Vec<u8>,
            CacheError,
        >(CacheError::Decode),
        tier != ThumbnailTier::Loupe && decoded_dims(bytes@) is Some ==> {
            &&& (r is Ok <==> spec_derived(bytes@, tier) is Some)
            &&& (r matches Ok(data) ==> Some(data@) == spec_derived(bytes@, tier))
            &&& (spec_derived(bytes@, tier) is None ==> r == Err::<Vec<u8>, CacheError>(
                CacheError::Decode,
            ))
        },
        r matches Err(e) ==> e == CacheError::Decode,
{
    let max_dim = match tier.max_dimension() {
        Some(d) => d,
        None => {
            return Ok(bytes);
        },
    };
    // the first decode serves only the dimension computation; the derived
    // bytes are produced in one trusted step from the input bytes
    let (_img, w, h) = match decode_image(&bytes) {
        Ok(t) => t,
        Err(_) => {
            return Err(CacheError::Decode);
        },
    };
    let (new_w, new_h) = compute_scaled_dims(w, h, max_dim);
    let quality = tier.jpeg_quality();
    match scale_and_encode(&bytes, new_w, new_h, quality) {
        Ok(data) => Ok(data),
        // an image the encoder rejects (for instance with a zero dimension)
        // is treated as undecodable
        Err(_) => Err(CacheError::Decode),
    }
}

/// Extracts the average color of the centered sample window from an encoded
/// image: exactly the window mean of the image's RGB buffer. Bytes that do
/// not decode yield the neutral gray rather than an error, since swatches
/// are a non-critical affordance.
pub fn swatch_from_image_bytes(bytes: &Vec<u8>) -> (r: ColorSwatch)
    ensures
        decoded_dims(bytes@) is None ==> r == spec_gray_swatch(),
        decoded_dims(bytes@) matches Some(dims) ==> r == spec_swatch_of(
            dims.0,
            dims.1,
            decoded_rgb8_of(bytes@),
        ),
{
    match decode_to_rgb8(bytes) {
        Err(_) => ColorSwatch { r: 128, g: 128, b: 128 },
        Ok((w, h, pixels)) => swatch_of_pixels(w, h, &pixels),
    }
}

} // verus!
