//! Raster codec work on in-memory bytes: decoding, re-encoding into the
//! target codec, and bounded, aspect-ratio-preserving thumbnail derivation.
//! The pixel work is done by the image crate behind trusted wrappers. Each
//! outcome is deterministic in the input bytes (and target dimensions), so
//! the wrappers name their results, the public functions' contracts are
//! exact over those names, and the dimension arithmetic that drives the
//! resampling is verified here.

use vstd::prelude::*;
use image::GenericImageView;

verus! {

#[verifier::external_type_specification]
#[verifier::external_body]
pub struct ExImageError(image::ImageError);

/// A per-file codec failure. Decode and encode failures are distinguished so
/// a caller can report which half of the conversion went wrong.
#[derive(Debug, PartialEq, Eq)]
pub enum CodecError {
    Decode,
    Encode,
}

/// Whether the bytes decode as a raster image of any supported codec:
/// a function of the bytes alone.
pub uninterp spec fn webp_decode_ok(bytes: Seq<u8>) -> bool;

/// The width and height of the decoded image: a function of the bytes alone.
pub uninterp spec fn decoded_dims_of(bytes: Seq<u8>) -> (u32, u32);

/// Whether decoding the bytes and re-encoding them as WebP succeeds:
/// a function of the bytes alone.
pub uninterp spec fn webp_recode_ok(bytes: Seq<u8>) -> bool;

/// The WebP re-encoding of the decoded bytes: a function of the bytes alone.
pub uninterp spec fn webp_recode_of(bytes: Seq<u8>) -> Seq<u8>;

/// Whether decoding the bytes, resampling to `w` by `h`, and encoding as
/// WebP succeeds: a function of the arguments alone.
pub uninterp spec fn resize_encode_ok(bytes: Seq<u8>, w: u32, h: u32) -> bool;

/// The WebP encoding of the decoded bytes resampled to `w` by `h`:
/// a function of the arguments alone.
pub uninterp spec fn resize_encode_of(bytes: Seq<u8>, w: u32, h: u32) -> Seq<u8>;

/// Relies on image::load_from_memory then DynamicImage::write_to with the
/// WebP format: both deterministic in the bytes alone; malformed input and
/// unsupported layouts come back as errors, never panics. The outer result
/// is the decode stage, the inner one the encode stage.
#[verifier::external_body]
fn recode_webp(bytes: &[u8]) -> (r: Result<Result<Vec<u8>, image::ImageError>, image::ImageError>)
    ensures
        (r is Ok) == webp_decode_ok(bytes@),
        r matches Ok(inner) ==> ((inner is Ok) == webp_recode_ok(bytes@) && (inner matches Ok(v)
            ==> v@ == webp_recode_of(bytes@))),
        r is Err ==> !webp_recode_ok(bytes@),
{
    match image::load_from_memory(bytes) {
        Ok(img) => {
            let mut cur = std::io::Cursor::new(Vec::new());
            match img.write_to(&mut cur, image::ImageFormat::WebP) {
                Ok(()) => Ok(Ok(cur.into_inner())),
                Err(e) => Ok(Err(e)),
            }
        },
        Err(e) => Err(e),
    }
}

/// Relies on image::load_from_memory then GenericImageView::dimensions:
/// deterministic in the bytes alone; no panic path.
#[verifier::external_body]
fn decode_dims(bytes: &[u8]) -> (r: Result<(u32, u32), image::ImageError>)
    ensures
        (r is Ok) == webp_decode_ok(bytes@),
        r matches Ok(d) ==> d == decoded_dims_of(bytes@),
{
    match image::load_from_memory(bytes) {
        Ok(img) => Ok(img.dimensions()),
        Err(e) => Err(e),
    }
}

/// Relies on image::load_from_memory, DynamicImage::resize (Lanczos filter)
/// and DynamicImage::write_to with the WebP format: deterministic in the
/// bytes and the target dimensions alone; total, errors come back as values.
#[verifier::external_body]
fn resize_encode(bytes: &[u8], w: u32, h: u32) -> (r: Result<Vec<u8>, image::ImageError>)
    ensures
        (r is Ok) == resize_encode_ok(bytes@, w, h),
        r matches Ok(v) ==> v@ == resize_encode_of(bytes@, w, h),
        r is Ok ==> webp_decode_ok(bytes@),
{
    let img = image::load_from_memory(bytes)?;
    let small = img.resize(w, h, image::imageops::FilterType::Lanczos3);
    let mut cur = std::io::Cursor::new(Vec::new());
    small.write_to(&mut cur, image::ImageFormat::WebP)?;
    Ok(cur.into_inner())
}

/// Target dimensions for a thumbnail of a `w` by `h` image under the bounds
/// `mw` by `mh`: a landscape image takes the width bound and scales its
/// height by the same ratio, truncated; anything else takes the height bound
/// and scales its width. A degenerate zero-by-zero image keeps zero width.
pub open spec fn scaled_dims_sp(w: int, h: int, mw: int, mh: int) -> (int, int) {
    if w > h {
        (mw, mw * h / w)
    } else if h > 0 {
        (mh * w / h, mh)
    } else {
        (0, mh)
    }
}

/// Compute the thumbnail dimensions for a `w` by `h` source bounded by
/// `max_w` by `max_h`, preserving the aspect ratio up to integer truncation.
pub fn scaled_dimensions(w: u32, h: u32, max_w: u32, max_h: u32) -> (r: (u32, u32))
    ensures
        (r.0 as int, r.1 as int) == scaled_dims_sp(w as int, h as int, max_w as int, max_h as int),
{
    if w > h {
        proof {
            assert(0 <= (max_w as int) * (h as int) <= u64::MAX && (max_w as int) * (h as int) / (
            w as int) <= max_w as int) by (nonlinear_arith)
                requires
                    0 <= h < w,
                    w <= u32::MAX,
                    0 <= max_w <= u32::MAX,
            ;
        }
        let sh64 = (max_w as u64) * (h as u64) / (w as u64);
        (max_w, sh64 as u32)
    } else if h > 0 {
        proof {
            assert(0 <= (max_h as int) * (w as int) <= u64::MAX && (max_h as int) * (w as int) / (
            h as int) <= max_h as int) by (nonlinear_arith)
                requires
                    0 <= w <= h,
                    0 < h <= u32::MAX,
                    0 <= max_h <= u32::MAX,
            ;
        }
        let sw64 = (max_h as u64) * (w as u64) / (h as u64);
        (sw64 as u32, max_h)
    } else {
        (0, max_h)
    }
}

/// Aspect-ratio preservation: for positive dimensions and bounds in which the
/// unconstrained axis's bound is no tighter than the constrained one, neither
/// target dimension exceeds its bound, and the target ratio equals `w`/`h`
/// up to integer truncation.
pub proof fn lemma_aspect_ratio(w: int, h: int, mw: int, mh: int)
    requires
        0 < w,
        0 < h,
        0 < mw,
        0 < mh,
        w > h ==> mw <= mh,
        w <= h ==> mh <= mw,
    ensures
        ({
            let (tw, th) = scaled_dims_sp(w, h, mw, mh);
            &&& tw <= mw
            &&& th <= mh
            &&& (w > h ==> th * w <= tw * h < (th + 1) * w)
            &&& (w <= h ==> tw * h <= th * w < (tw + 1) * h)
        }),
{
    if w > h {
        let th = mw * h / w;
        assert(th * w <= mw * h < (th + 1) * w && 0 <= th <= mw) by (nonlinear_arith)
            requires
                0 < h < w,
                0 < mw,
                th == mw * h / w,
        ;
    } else {
        let tw = mh * w / h;
        assert(tw * h <= mh * w < (tw + 1) * h && 0 <= tw <= mh) by (nonlinear_arith)
            requires
                0 < w <= h,
                0 < mh,
                tw == mh * w / h,
        ;
    }
}

/// The width a thumbnail of `bytes` is resampled to under the given bounds.
pub open spec fn thumb_scaled_w(bytes: Seq<u8>, mw: u32, mh: u32) -> u32 {
    let d = decoded_dims_of(bytes);
    scaled_dims_sp(d.0 as int, d.1 as int, mw as int, mh as int).0 as u32
}

/// The height a thumbnail of `bytes` is resampled to under the given bounds.
pub open spec fn thumb_scaled_h(bytes: Seq<u8>, mw: u32, mh: u32) -> u32 {
    let d = decoded_dims_of(bytes);
    scaled_dims_sp(d.0 as int, d.1 as int, mw as int, mh as int).1 as u32
}

/// Whether deriving a thumbnail of `bytes` under the given bounds succeeds:
/// the bytes decode, and the resample-and-encode at the computed dimensions
/// succeeds.
pub open spec fn thumb_ok_sp(bytes: Seq<u8>, mw: u32, mh: u32) -> bool {
    webp_decode_ok(bytes) && resize_encode_ok(
        bytes,
        thumb_scaled_w(bytes, mw, mh),
        thumb_scaled_h(bytes, mw, mh),
    )
}

/// The thumbnail bytes derived from `bytes` under the given bounds.
pub open spec fn thumb_bytes_sp(bytes: Seq<u8>, mw: u32, mh: u32) -> Seq<u8> {
    resize_encode_of(bytes, thumb_scaled_w(bytes, mw, mh), thumb_scaled_h(bytes, mw, mh))
}

/// Decode an in-memory image of any supported source codec and re-encode it
/// as the target codec. Pure byte-to-byte work; the caller owns all I/O.
/// Succeeds exactly when the recoding does; undecodable bytes are the decode
/// error, an unencodable layout the encode error.
pub fn convert_to_webp_bytes(bytes: &Vec<u8>) -> (r: Result<Vec<u8>, CodecError>)
    ensures
        (r is Ok) == webp_recode_ok(bytes@),
        r matches Ok(v) ==> v@ == webp_recode_of(bytes@),
        r matches Err(e) ==> ((e is Decode) == !webp_decode_ok(bytes@)),
{
    match recode_webp(bytes.as_slice()) {
        Ok(inner) => match inner {
            Ok(out) => Ok(out),
            Err(_) => Err(CodecError::Encode),
        },
        Err(_) => Err(CodecError::Decode),
    }
}

/// Decode an in-memory image, compute the bounded aspect-preserving target
/// dimensions, resample with a high-quality filter, and encode as the target
/// codec. The dimension arithmetic is `scaled_dimensions`; the codec work is
/// named, so the result is pinned to the input bytes and bounds. Undecodable
/// bytes are the decode error; a failure past decoding is the encode error.
pub fn thumbnail_from_bytes(bytes: &Vec<u8>, max_width: u32, max_height: u32) -> (r: Result<
    Vec<u8>,
    CodecError,
>)
    ensures
        (r is Ok) == thumb_ok_sp(bytes@, max_width, max_height),
        r matches Ok(v) ==> v@ == thumb_bytes_sp(bytes@, max_width, max_height),
        r matches Err(e) ==> ((e is Decode) == !webp_decode_ok(bytes@)),
{
    match decode_dims(bytes.as_slice()) {
        Ok(d) => {
            let (tw, th) = scaled_dimensions(d.0, d.1, max_width, max_height);
            match resize_encode(bytes.as_slice(), tw, th) {
                Ok(out) => Ok(out),
                Err(_) => Err(CodecError::Encode),
            }
        },
        Err(_) => Err(CodecError::Decode),
    }
}

} // verus!
