//! Bounded decoding of retained screencast frames to straight RGBA8.
//!
//! The declared dimensions are checked against the configured limits before any
//! pixel is decoded, and every supported 8-bit layout is expanded to exactly
//! four bytes per pixel.
use vstd::prelude::*;

use crate::epoch::{AdaptationLimits, EpochPlan, FrameMeta, ImageFormat, plan_context};
use image::{ColorType, DynamicImage, ImageDecoder, ImageReader, Limits};
use std::io::Cursor;
use crate::errors::{ErrorCode, ErrorContext, Failure};

verus! {

/// The identity of the decoding configuration, part of every cache key over
/// decoded frames.
pub const DECODER_PROFILE: &'static str = "image-0.25.9-forced-jpeg-png-rgba8-straight-no-orientation-v1";

/// The version of the decode algorithm, part of every decoded-frame key.
pub const DECODER_ALGORITHM_VERSION: &'static str = "krometrail-decode-v1";

/// Bounds one frame decode must stay within.
#[derive(Clone, Copy, Debug, PartialEq, Eq, Structural)]
pub struct DecodeLimits {
    pub max_dimension: u32,
    pub max_pixels: usize,
    pub max_rgba_bytes: usize,
    pub max_decoder_alloc: u64,
}

impl DecodeLimits {
    pub fn new(max_dimension: u32, max_pixels: usize, max_rgba_bytes: usize, max_decoder_alloc: u64) -> (r: DecodeLimits)
        ensures
            r == (DecodeLimits { max_dimension, max_pixels, max_rgba_bytes, max_decoder_alloc }),
    {
        DecodeLimits { max_dimension, max_pixels, max_rgba_bytes, max_decoder_alloc }
    }
}

impl AdaptationLimits {
    /// The decode bounds of an adaptation: its dimension and pixel limits, and its
    /// decoded-byte limit both as the RGBA bound and as the decoder's allocation bound.
    pub open spec fn decode_limits_spec(self) -> DecodeLimits {
        DecodeLimits {
            max_dimension: self.max_dimension,
            max_pixels: self.max_pixels_per_frame,
            max_rgba_bytes: self.max_decoded_bytes,
            max_decoder_alloc: self.max_decoded_bytes as u64,
        }
    }

    pub fn decode_limits(self) -> (r: DecodeLimits)
        ensures
            r == self.decode_limits_spec(),
    {
        DecodeLimits::new(self.max_dimension, self.max_pixels_per_frame, self.max_decoded_bytes, self.max_decoded_bytes as u64)
    }
}

/// The outcome of the pre-decode check: `Ok((pixels, rgba_bytes))`, or the
/// resource limit that the declared dimensions break.
pub open spec fn preflight_spec(width: u32, height: u32, limits: DecodeLimits) -> Option<(usize, usize)> {
    let pixels = width * height;
    if width > limits.max_dimension || height > limits.max_dimension {
        None
    } else if pixels > usize::MAX || pixels > limits.max_pixels {
        None
    } else if pixels * 4 > usize::MAX || pixels * 4 > limits.max_rgba_bytes || pixels * 4 > limits.max_decoder_alloc {
        None
    } else {
        Some((pixels as usize, (pixels * 4) as usize))
    }
}

fn limit_error(message: &str) -> (f: Failure)
    ensures
        f.code == ErrorCode::ResourceLimitExceeded,
{
    Failure::new(ErrorCode::ResourceLimitExceeded, message)
}

fn decode_error(message: &str) -> (f: Failure)
    ensures
        f.code == ErrorCode::ArtifactGenerationFailed,
{
    Failure::new(ErrorCode::ArtifactGenerationFailed, message)
}

/// Checks declared frame dimensions against the limits before decoding, and
/// returns the pixel count and the straight RGBA8 byte length.
pub fn preflight(width: u32, height: u32, limits: DecodeLimits) -> (r: Result<(usize, usize), Failure>)
    ensures
        match r {
            Ok(v) => preflight_spec(width, height, limits) == Some(v),
            Err(f) => preflight_spec(width, height, limits).is_none() && f.code == ErrorCode::ResourceLimitExceeded,
        },
{
    if width > limits.max_dimension || height > limits.max_dimension {
        return Err(limit_error("encoded frame dimensions exceed the configured limit"));
    }
    assert((width as u64) * (height as u64) <= 0xffff_ffffu64 * 0xffff_ffffu64) by (nonlinear_arith)
        requires
            width <= 0xffff_ffffu32,
            height <= 0xffff_ffffu32,
    ;
    let pixels_u64: u64 = (width as u64) * (height as u64);
    if pixels_u64 > usize::MAX as u64 {
        return Err(limit_error("encoded frame pixel count exceeds this platform"));
    }
    let pixels = pixels_u64 as usize;
    if pixels > limits.max_pixels {
        return Err(limit_error("encoded frame pixel count exceeds the configured limit"));
    }
    let rgba_len = match pixels.checked_mul(4) {
        Some(v) => v,
        None => {
            return Err(limit_error("decoded RGBA byte length overflows"));
        },
    };
    if rgba_len > limits.max_rgba_bytes || rgba_len as u64 > limits.max_decoder_alloc {
        return Err(limit_error("decoded RGBA bytes exceed the configured limit"));
    }
    Ok((pixels, rgba_len))
}

/// The pixel layouts a decoder may hand back.
#[derive(Clone, Copy, Debug, PartialEq, Eq, Structural)]
pub enum PixelLayout {
    /// 8-bit luminance.
    L8,
    /// 8-bit luminance with alpha.
    La8,
    /// 8-bit RGB.
    Rgb8,
    /// 8-bit RGBA.
    Rgba8,
    /// Any wider or other representation.
    Other,
}

/// The straight RGBA8 expansion of a decoded buffer: grey values are replicated,
/// missing alpha is opaque, and a trailing partial pixel is dropped.
pub open spec fn expand_spec(layout: PixelLayout, raw: Seq<u8>) -> Option<Seq<u8>> {
    match layout {
        PixelLayout::L8 => Some(Seq::new(raw.len() * 4, |j: int| if j % 4 == 3 { 255u8 } else { raw[j / 4] })),
        PixelLayout::La8 => Some(Seq::new((raw.len() / 2) * 4, |j: int| if j % 4 == 3 { raw[2 * (j / 4) + 1] } else { raw[2 * (j / 4)] })),
        PixelLayout::Rgb8 => Some(Seq::new((raw.len() / 3) * 4, |j: int| if j % 4 == 3 { 255u8 } else { raw[3 * (j / 4) + j % 4] })),
        PixelLayout::Rgba8 => Some(raw),
        PixelLayout::Other => None,
    }
}

proof fn lemma_quad(i: int, j: int)
    requires
        0 <= i,
        4 * i <= j < 4 * i + 4,
    ensures
        j / 4 == i,
        j % 4 == j - 4 * i,
{
    assert(j / 4 == i && j % 4 == j - 4 * i) by (nonlinear_arith)
        requires
            0 <= i,
            4 * i <= j < 4 * i + 4,
    ;
}

fn expand_luma(raw: &Vec<u8>) -> (r: Vec<u8>)
    requires
        raw.len() * 4 <= usize::MAX,
    ensures
        Some(r@) == expand_spec(PixelLayout::L8, raw@),
{
    let mut out: Vec<u8> = Vec::new();
    let mut i: usize = 0;
    while i < raw.len()
        invariant
            i <= raw.len(),
            raw.len() * 4 <= usize::MAX,
            out.len() == 4 * i,
            forall|j: int| 0 <= j < 4 * i ==> out@[j] == (if j % 4 == 3 { 255u8 } else { raw@[j / 4] }),
        decreases raw.len() - i,
    {
        let v = raw[i];
        out.push(v);
        out.push(v);
        out.push(v);
        out.push(255u8);
        assert forall|j: int| 0 <= j < 4 * i + 4 implies #[trigger] out@[j] == (if j % 4 == 3 { 255u8 } else { raw@[j / 4] }) by {
            if j >= 4 * i {
                lemma_quad(i as int, j);
            }
        }
        i = i + 1;
    }
    assert(out@ =~= Seq::new(raw@.len() * 4, |j: int| if j % 4 == 3 { 255u8 } else { raw@[j / 4] }));
    out
}

fn expand_luma_alpha(raw: &Vec<u8>) -> (r: Vec<u8>)
    requires
        raw.len() * 4 <= usize::MAX,
    ensures
        Some(r@) == expand_spec(PixelLayout::La8, raw@),
{
    let mut out: Vec<u8> = Vec::new();
    let pairs = raw.len() / 2;
    let mut i: usize = 0;
    while i < pairs
        invariant
            i <= pairs,
            pairs == raw.len() / 2,
            raw.len() * 4 <= usize::MAX,
            out.len() == 4 * i,
            forall|j: int| 0 <= j < 4 * i ==> out@[j] == (if j % 4 == 3 { raw@[2 * (j / 4) + 1] } else { raw@[2 * (j / 4)] }),
        decreases pairs - i,
    {
        let v = raw[2 * i];
        let a = raw[2 * i + 1];
        out.push(v);
        out.push(v);
        out.push(v);
        out.push(a);
        assert forall|j: int| 0 <= j < 4 * i + 4 implies #[trigger] out@[j] == (if j % 4 == 3 { raw@[2 * (j / 4) + 1] } else { raw@[2 * (j / 4)] }) by {
            if j >= 4 * i {
                lemma_quad(i as int, j);
            }
        }
        i = i + 1;
    }
    assert(out@ =~= Seq::new((raw@.len() / 2) * 4, |j: int| if j % 4 == 3 { raw@[2 * (j / 4) + 1] } else { raw@[2 * (j / 4)] }));
    out
}

fn expand_rgb(raw: &Vec<u8>) -> (r: Vec<u8>)
    requires
        raw.len() * 4 <= usize::MAX,
    ensures
        Some(r@) == expand_spec(PixelLayout::Rgb8, raw@),
{
    let mut out: Vec<u8> = Vec::new();
    let triples = raw.len() / 3;
    let mut i: usize = 0;
    while i < triples
        invariant
            i <= triples,
            triples == raw.len() / 3,
            raw.len() * 4 <= usize::MAX,
            out.len() == 4 * i,
            forall|j: int| 0 <= j < 4 * i ==> out@[j] == (if j % 4 == 3 { 255u8 } else { raw@[3 * (j / 4) + j % 4] }),
        decreases triples - i,
    {
        out.push(raw[3 * i]);
        out.push(raw[3 * i + 1]);
        out.push(raw[3 * i + 2]);
        out.push(255u8);
        assert forall|j: int| 0 <= j < 4 * i + 4 implies #[trigger] out@[j] == (if j % 4 == 3 { 255u8 } else { raw@[3 * (j / 4) + j % 4] }) by {
            if j >= 4 * i {
                lemma_quad(i as int, j);
            }
        }
        i = i + 1;
    }
    assert(out@ =~= Seq::new((raw@.len() / 3) * 4, |j: int| if j % 4 == 3 { 255u8 } else { raw@[3 * (j / 4) + j % 4] }));
    out
}

/// Expands a decoded buffer to straight RGBA8 and checks that it holds exactly
/// `pixel_count` pixels in `rgba_len` bytes.
pub fn expand_straight_rgba(layout: PixelLayout, raw: Vec<u8>, pixel_count: usize, rgba_len: usize) -> (r: Result<Vec<u8>, Failure>)
    requires
        raw.len() * 4 <= usize::MAX,
    ensures
        match r {
            Ok(rgba) => expand_spec(layout, raw@) == Some(rgba@) && rgba.len() == rgba_len && rgba.len() / 4 == pixel_count,
            Err(f) => f.code == ErrorCode::ArtifactGenerationFailed && match expand_spec(layout, raw@) {
                Some(e) => e.len() != rgba_len || e.len() / 4 != pixel_count,
                None => true,
            },
        },
{
    let rgba = match layout {
        PixelLayout::L8 => expand_luma(&raw),
        PixelLayout::La8 => expand_luma_alpha(&raw),
        PixelLayout::Rgb8 => expand_rgb(&raw),
        PixelLayout::Rgba8 => raw,
        PixelLayout::Other => {
            return Err(decode_error("decoder returned unsupported image precision"));
        },
    };
    if rgba.len() != rgba_len || rgba.len() / 4 != pixel_count {
        return Err(decode_error("decoder returned an unexpected pixel payload length"));
    }
    Ok(rgba)
}

/// A name for what the `image` crate reads from the header of an encoded image
/// of the given format under the given decoder limits: the declared width and
/// height and the pixel layout, or `None` when no decoder can be built.
pub uninterp spec fn image_header(bytes: Seq<u8>, format: ImageFormat, max_dimension: u32, max_alloc: u64) -> Option<(u32, u32, PixelLayout)>;

/// Layouts with an alpha channel (`ColorType::has_alpha` among the 8-bit ones).
pub open spec fn layout_has_alpha(layout: PixelLayout) -> bool {
    layout == PixelLayout::La8 || layout == PixelLayout::Rgba8
}

/// A name for the pixels the `image` crate decodes from an encoded image of the
/// given format under the given decoder limits: the layout and raw bytes of an
/// 8-bit image (an empty buffer for any other layout), or `None` when decoding
/// fails.
pub uninterp spec fn image_pixels(bytes: Seq<u8>, format: ImageFormat, max_dimension: u32, max_alloc: u64) -> Option<(PixelLayout, Seq<u8>)>;

/// Reads an encoded image's header with `image::ImageReader::with_format`, the
/// given dimension and allocation limits, and `into_decoder`; reports the
/// decoder's `dimensions` and its `color_type` among the 8-bit layouts. Nothing
/// beyond the name is claimed of the outcome.
#[verifier::external_body]
fn read_header(bytes: &[u8], format: ImageFormat, max_dimension: u32, max_alloc: u64) -> (r: Option<(u32, u32, PixelLayout)>)
    ensures
        r == image_header(bytes@, format, max_dimension, max_alloc),
{
    let mut limits = Limits::default();
    limits.max_image_width = Some(max_dimension);
    limits.max_image_height = Some(max_dimension);
    limits.max_alloc = Some(max_alloc);
    let mut reader = ImageReader::with_format(Cursor::new(bytes), match format { ImageFormat::Jpeg => image::ImageFormat::Jpeg, ImageFormat::Png => image::ImageFormat::Png });
    reader.limits(limits);
    let decoder = reader.into_decoder().ok()?;
    let (width, height) = decoder.dimensions();
    let layout = match decoder.color_type() { ColorType::L8 => PixelLayout::L8, ColorType::La8 => PixelLayout::La8, ColorType::Rgb8 => PixelLayout::Rgb8, ColorType::Rgba8 => PixelLayout::Rgba8, _ => PixelLayout::Other };
    Some((width, height, layout))
}

/// Decodes an encoded image with `image::ImageReader::with_format`, the given
/// limits, `into_decoder` and `DynamicImage::from_decoder`, handing back an
/// 8-bit image's raw buffer. Nothing beyond the name is claimed of the outcome.
#[verifier::external_body]
fn decode_pixels(bytes: &[u8], format: ImageFormat, max_dimension: u32, max_alloc: u64) -> (r: Option<(PixelLayout, Vec<u8>)>)
    ensures
        match r {
            Some((layout, raw)) => image_pixels(bytes@, format, max_dimension, max_alloc) == Some((layout, raw@)),
            None => image_pixels(bytes@, format, max_dimension, max_alloc).is_none(),
        },
{
    let mut limits = Limits::default();
    limits.max_image_width = Some(max_dimension);
    limits.max_image_height = Some(max_dimension);
    limits.max_alloc = Some(max_alloc);
    let mut reader = ImageReader::with_format(Cursor::new(bytes), match format { ImageFormat::Jpeg => image::ImageFormat::Jpeg, ImageFormat::Png => image::ImageFormat::Png });
    reader.limits(limits);
    Some(match DynamicImage::from_decoder(reader.into_decoder().ok()?).ok()? {
        DynamicImage::ImageLuma8(i) => (PixelLayout::L8, i.into_raw()),
        DynamicImage::ImageLumaA8(i) => (PixelLayout::La8, i.into_raw()),
        DynamicImage::ImageRgb8(i) => (PixelLayout::Rgb8, i.into_raw()),
        DynamicImage::ImageRgba8(i) => (PixelLayout::Rgba8, i.into_raw()),
        _ => (PixelLayout::Other, Vec::new()),
    })
}

/// A retained frame decoded to straight RGBA8.
#[derive(Debug)]
pub struct DecodedFrame {
    pub frame_id: u128,
    pub session_time: u64,
    pub width: u32,
    pub height: u32,
    pub rgba: Vec<u8>,
}

/// The straight RGBA8 pixels of a retained frame, or the class of the failure:
/// a resource limit before decoding, or a generation failure when the payload
/// contradicts its metadata or cannot be decoded.
pub open spec fn decode_spec(meta: FrameMeta, bytes: Seq<u8>, limits: DecodeLimits) -> Result<Seq<u8>, ErrorCode> {
    match preflight_spec(meta.image_width, meta.image_height, limits) {
        None => Err(ErrorCode::ResourceLimitExceeded),
        Some((pixels, rgba_len)) => match image_header(bytes, meta.format, limits.max_dimension, limits.max_decoder_alloc) {
            None => Err(ErrorCode::ArtifactGenerationFailed),
            Some((w, h, layout)) => if w != meta.image_width || h != meta.image_height || layout == PixelLayout::Other
                || (meta.format == ImageFormat::Jpeg && layout_has_alpha(layout)) {
                Err(ErrorCode::ArtifactGenerationFailed)
            } else {
                match image_pixels(bytes, meta.format, limits.max_dimension, limits.max_decoder_alloc) {
                    None => Err(ErrorCode::ArtifactGenerationFailed),
                    Some((l, raw)) => match expand_spec(l, raw) {
                        Some(e) => if e.len() == rgba_len && e.len() / 4 == pixels && raw.len() * 4 <= usize::MAX {
                            Ok(e)
                        } else {
                            Err(ErrorCode::ArtifactGenerationFailed)
                        },
                        None => Err(ErrorCode::ArtifactGenerationFailed),
                    },
                }
            },
        },
    }
}

/// Decodes a retained frame to straight RGBA8 within the limits: the declared
/// dimensions are checked first, then the header must agree with the metadata
/// and carry a supported 8-bit layout (opaque for JPEG), and the decoded pixels
/// must fill exactly the declared size.
pub fn decode_frame(meta: &FrameMeta, bytes: &[u8], limits: DecodeLimits) -> (r: Result<DecodedFrame, Failure>)
    ensures
        match r {
            Ok(f) => decode_spec(*meta, bytes@, limits) == Ok::<Seq<u8>, ErrorCode>(f.rgba@) && f.frame_id == meta.frame_id
                && f.session_time == meta.session_time && f.width == meta.image_width && f.height == meta.image_height,
            Err(e) => decode_spec(*meta, bytes@, limits) == Err::<Seq<u8>, ErrorCode>(e.code),
        },
{
    let (pixel_count, rgba_len) = preflight(meta.image_width, meta.image_height, limits)?;
    let (w, h, layout) = match read_header(bytes, meta.format, limits.max_dimension, limits.max_decoder_alloc) {
        Some(v) => v,
        None => {
            return Err(decode_error("encoded frame header is invalid for its declared format"));
        },
    };
    if w != meta.image_width || h != meta.image_height {
        return Err(decode_error("decoded image dimensions contradict persisted frame metadata"));
    }
    match layout {
        PixelLayout::Other => {
            return Err(decode_error("encoded frame precision or color representation is unsupported"));
        },
        _ => {},
    }
    match meta.format {
        ImageFormat::Jpeg => {
            let alpha = match layout {
                PixelLayout::La8 | PixelLayout::Rgba8 => true,
                _ => false,
            };
            if alpha {
                return Err(decode_error("JPEG screencast input must be opaque"));
            }
        },
        ImageFormat::Png => {},
    }
    let (decoded_layout, raw) = match decode_pixels(bytes, meta.format, limits.max_dimension, limits.max_decoder_alloc) {
        Some(v) => v,
        None => {
            return Err(decode_error("encoded frame payload is malformed or truncated"));
        },
    };
    if raw.len() > usize::MAX / 4 {
        return Err(decode_error("decoder returned an unexpected pixel payload length"));
    }
    let rgba = expand_straight_rgba(decoded_layout, raw, pixel_count, rgba_len)?;
    Ok(DecodedFrame {
        frame_id: meta.frame_id,
        session_time: meta.session_time,
        width: meta.image_width,
        height: meta.image_height,
        rgba,
    })
}


/// The code of the first frame, from `k` on, whose payload does not decode.
pub open spec fn first_decode_error(frames: Seq<FrameMeta>, payloads: Seq<Seq<u8>>, limits: DecodeLimits, k: int) -> Option<ErrorCode>
    decreases frames.len() - k,
{
    if k < 0 || k >= frames.len() {
        None
    } else {
        match decode_spec(frames[k], payloads[k], limits) {
            Err(code) => Some(code),
            Ok(_) => first_decode_error(frames, payloads, limits, k + 1),
        }
    }
}

/// Decodes every frame of an epoch plan from its payload, in order, under the
/// adaptation's decode bounds; the first failure ends the decode and carries the
/// plan's investigation scope.
pub fn decode_plan(plan: &EpochPlan, payloads: &Vec<Vec<u8>>, limits: AdaptationLimits) -> (r: Result<Vec<DecodedFrame>, Failure>)
    requires
        payloads.len() == plan.frames.len(),
    ensures
        match r {
            Ok(decoded) => first_decode_error(plan.frames@, payloads@.map_values(|p: Vec<u8>| p@), limits.decode_limits_spec(), 0).is_none()
                && decoded.len() == plan.frames.len()
                && forall|i: int| 0 <= i < decoded.len() ==> decode_spec(plan.frames@[i], #[trigger] payloads@[i]@, limits.decode_limits_spec())
                    == Ok::<Seq<u8>, ErrorCode>(decoded@[i].rgba@) && decoded@[i].frame_id == plan.frames@[i].frame_id,
            Err(f) => first_decode_error(plan.frames@, payloads@.map_values(|p: Vec<u8>| p@), limits.decode_limits_spec(), 0) == Some(f.code)
                && f.context == plan_context(plan.frames@, plan.source_span),
        },
{
    let context = plan.error_context();
    let decode_limits = limits.decode_limits();
    let ghost pv = payloads@.map_values(|p: Vec<u8>| p@);
    let mut decoded: Vec<DecodedFrame> = Vec::new();
    let mut i: usize = 0;
    while i < plan.frames.len()
        invariant
            i <= plan.frames.len(),
            payloads.len() == plan.frames.len(),
            pv == payloads@.map_values(|p: Vec<u8>| p@),
            decode_limits == limits.decode_limits_spec(),
            context == plan_context(plan.frames@, plan.source_span),
            first_decode_error(plan.frames@, pv, decode_limits, 0) == first_decode_error(plan.frames@, pv, decode_limits, i as int),
            decoded.len() == i,
            forall|j: int| 0 <= j < i ==> decode_spec(plan.frames@[j], #[trigger] payloads@[j]@, decode_limits)
                == Ok::<Seq<u8>, ErrorCode>(decoded@[j].rgba@) && decoded@[j].frame_id == plan.frames@[j].frame_id,
        decreases plan.frames.len() - i,
    {
        assert(pv[i as int] == payloads@[i as int]@);
        match decode_frame(&plan.frames[i], payloads[i].as_slice(), decode_limits) {
            Ok(frame) => {
                decoded.push(frame);
            },
            Err(e) => {
                return Err(e.with_context(context));
            },
        }
        i = i + 1;
    }
    Ok(decoded)
}

} // verus!
