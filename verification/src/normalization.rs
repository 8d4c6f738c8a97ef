//! Sizing of normalized analysis sequences and of generator outputs.
//!
//! A generator that analyses frames normalizes its epoch's (optionally cropped)
//! images at an exact integer downscale; the retained linear RGB16 sequence
//! must fit the pixel and byte limits. A "fit limits" scale picks the first of
//! 1, 2, 4 and 8 that fits.
use vstd::prelude::*;

use crate::errors::{ErrorCode, Failure};
use crate::scheduler::{ArtifactWorkLimits, limit_error};

verus! {

/// The requested analysis scale.
#[derive(Clone, Copy, Debug, PartialEq, Eq, Structural)]
pub enum AnalysisScale {
    Identity,
    /// Downscale by an exact integer factor.
    Down(u8),
    /// The first of 1, 2, 4 and 8 that fits the limits.
    FitLimits,
}

/// Size of a crop rectangle.
#[derive(Clone, Copy, Debug, PartialEq, Eq, Structural)]
pub struct CropSize {
    pub width: u32,
    pub height: u32,
}

/// What sizing reads of a normalization request: the crop's size, if any, and
/// the scale.
#[derive(Clone, Copy, Debug, PartialEq, Eq, Structural)]
pub struct NormalizationRequest {
    pub crop: Option<CropSize>,
    pub scale: AnalysisScale,
}

fn generation_error(message: &str) -> (f: Failure)
    ensures
        f.code == ErrorCode::ArtifactGenerationFailed,
{
    Failure::new(ErrorCode::ArtifactGenerationFailed, message)
}

/// Normalized dimensions: the crop (or the source) divided by an exact factor.
pub open spec fn normalized_dimensions_spec(request: NormalizationRequest, source_width: u32, source_height: u32) -> Option<(u32, u32)> {
    let (w, h) = match request.crop {
        Some(c) => (c.width, c.height),
        None => (source_width, source_height),
    };
    match request.scale {
        AnalysisScale::Identity => Some((w, h)),
        AnalysisScale::Down(f) => if w % (f as u32) == 0 && h % (f as u32) == 0 {
            Some(((w / (f as u32)) as u32, (h / (f as u32)) as u32))
        } else {
            None
        },
        AnalysisScale::FitLimits => None,
    }
}

pub open spec fn scale_factor_positive(request: NormalizationRequest) -> bool {
    request.scale matches AnalysisScale::Down(f) ==> f > 0
}

/// The dimensions of the normalized frames, or a generation failure when the
/// downscale does not divide both dimensions or the scale is still "fit limits".
pub fn normalized_dimensions(request: NormalizationRequest, source_width: u32, source_height: u32) -> (r: Result<(u32, u32), Failure>)
    requires
        scale_factor_positive(request),
    ensures
        match r {
            Ok(d) => normalized_dimensions_spec(request, source_width, source_height) == Some(d),
            Err(f) => normalized_dimensions_spec(request, source_width, source_height).is_none()
                && f.code == ErrorCode::ArtifactGenerationFailed,
        },
{
    let (w, h) = match request.crop {
        Some(c) => (c.width, c.height),
        None => (source_width, source_height),
    };
    match request.scale {
        AnalysisScale::Identity => Ok((w, h)),
        AnalysisScale::Down(f) => {
            let f = f as u32;
            if w % f == 0 && h % f == 0 {
                Ok((w / f, h / f))
            } else {
                Err(generation_error("analysis downscale must exactly divide both dimensions"))
            }
        },
        AnalysisScale::FitLimits => Err(generation_error("fit-limits scale was not materialized")),
    }
}

/// Whether a normalized sequence of `frames` frames fits the limits: its pixel
/// count per frame, and six bytes per pixel for every frame.
pub open spec fn fits_normalized_spec(request: NormalizationRequest, source_width: u32, source_height: u32, frames: usize, limits: ArtifactWorkLimits) -> bool {
    match normalized_dimensions_spec(request, source_width, source_height) {
        Some((w, h)) => {
            &&& w * h <= usize::MAX
            &&& w * h * 6 <= usize::MAX
            &&& w * h * 6 * frames <= usize::MAX
            &&& w * h <= limits.max_pixels_per_frame
            &&& w * h * 6 * frames <= limits.max_normalized_bytes
        },
        None => false,
    }
}

/// The code of a sizing failure: a generation failure when the scale cannot be
/// applied to the frame size, a resource-limit failure otherwise.
pub open spec fn sizing_error_code(request: NormalizationRequest, source_width: u32, source_height: u32) -> ErrorCode {
    if normalized_dimensions_spec(request, source_width, source_height).is_none() {
        ErrorCode::ArtifactGenerationFailed
    } else {
        ErrorCode::ResourceLimitExceeded
    }
}

/// Checks a normalized sequence against the pixel and byte limits.
pub fn validate_normalized_limit(request: NormalizationRequest, source_width: u32, source_height: u32, frames: usize, limits: ArtifactWorkLimits) -> (r: Result<(), Failure>)
    requires
        scale_factor_positive(request),
    ensures
        r is Ok <==> fits_normalized_spec(request, source_width, source_height, frames, limits),
        r matches Err(f) ==> f.code == sizing_error_code(request, source_width, source_height),
{
    let (w, h) = normalized_dimensions(request, source_width, source_height)?;
    assert((w as u64) * (h as u64) <= 0xffff_ffffu64 * 0xffff_ffffu64) by (nonlinear_arith)
        requires
            w <= 0xffff_ffffu32,
            h <= 0xffff_ffffu32,
    ;
    let pixels_u64: u64 = (w as u64) * (h as u64);
    if pixels_u64 > usize::MAX as u64 {
        return Err(limit_error("normalized pixel count exceeds this platform"));
    }
    let pixels = pixels_u64 as usize;
    let retained = match pixels.checked_mul(6) {
        Some(b) => match b.checked_mul(frames) {
            Some(v) => v,
            None => {
                assert(w * h * 6 * frames > usize::MAX) by (nonlinear_arith)
                    requires
                        b == w * h * 6,
                        b * frames > usize::MAX,
                ;
                return Err(limit_error("normalized retained bytes overflow"));
            },
        },
        None => {
            return Err(limit_error("normalized retained bytes overflow"));
        },
    };
    if pixels > limits.max_pixels_per_frame || retained > limits.max_normalized_bytes {
        return Err(limit_error("normalized sequence exceeds configured pixel or byte limits"));
    }
    Ok(())
}

/// The first of 1, 2, 4 and 8 at which the request fits, as a scale.
pub open spec fn fit_scale_spec(request: NormalizationRequest, source_width: u32, source_height: u32, frames: usize, limits: ArtifactWorkLimits) -> Option<AnalysisScale> {
    let at = |s: AnalysisScale| fits_normalized_spec(NormalizationRequest { scale: s, ..request }, source_width, source_height, frames, limits);
    if at(AnalysisScale::Identity) {
        Some(AnalysisScale::Identity)
    } else if at(AnalysisScale::Down(2)) {
        Some(AnalysisScale::Down(2))
    } else if at(AnalysisScale::Down(4)) {
        Some(AnalysisScale::Down(4))
    } else if at(AnalysisScale::Down(8)) {
        Some(AnalysisScale::Down(8))
    } else {
        None
    }
}

/// The fit-limits scale is the smallest of the factors 1, 2, 4 and 8 at which
/// the normalized sequence fits: full resolution whenever it fits, a factor only
/// when every smaller one does not, and no scale only when none fits.
pub proof fn lemma_fit_scale_is_smallest_fitting(
    request: NormalizationRequest,
    source_width: u32,
    source_height: u32,
    frames: usize,
    limits: ArtifactWorkLimits,
)
    ensures
        ({
            let at = |s: AnalysisScale| fits_normalized_spec(NormalizationRequest { scale: s, ..request }, source_width, source_height, frames, limits);
            let chosen = fit_scale_spec(request, source_width, source_height, frames, limits);
            &&& at(AnalysisScale::Identity) ==> chosen == Some(AnalysisScale::Identity)
            &&& chosen matches Some(s) ==> at(s) && (s == AnalysisScale::Identity || s == AnalysisScale::Down(2)
                || s == AnalysisScale::Down(4) || s == AnalysisScale::Down(8))
            &&& chosen == Some(AnalysisScale::Down(2)) ==> !at(AnalysisScale::Identity)
            &&& chosen == Some(AnalysisScale::Down(4)) ==> !at(AnalysisScale::Identity) && !at(AnalysisScale::Down(2))
            &&& chosen == Some(AnalysisScale::Down(8)) ==> !at(AnalysisScale::Identity) && !at(AnalysisScale::Down(2))
                && !at(AnalysisScale::Down(4))
            &&& chosen is None <==> !at(AnalysisScale::Identity) && !at(AnalysisScale::Down(2)) && !at(AnalysisScale::Down(4))
                && !at(AnalysisScale::Down(8))
        }),
{
}

/// Without a crop, an analysis of one or more frames whose full-resolution frames fit the pixel limit
/// and whose retained six bytes per pixel per frame fit the normalized-byte
/// limit runs at full resolution.
pub proof fn lemma_full_resolution_when_it_fits(
    request: NormalizationRequest,
    source_width: u32,
    source_height: u32,
    frames: usize,
    limits: ArtifactWorkLimits,
)
    requires
        request.crop is None,
        frames >= 1,
        source_width * source_height <= limits.max_pixels_per_frame,
        source_width * source_height * 6 * frames <= limits.max_normalized_bytes,
    ensures
        fit_scale_spec(request, source_width, source_height, frames, limits) == Some(AnalysisScale::Identity),
{
    let p: int = source_width * source_height;
    assert(p >= 0) by (nonlinear_arith)
        requires
            p == source_width * source_height,
    ;
    assert(p * 6 * frames >= p * 6) by (nonlinear_arith)
        requires
            frames >= 1,
            p >= 0,
    ;
}

/// The smallest exact downscale among 1, 2, 4 and 8 whose normalized sequence
/// fits the limits.
pub fn fit_scale(request: NormalizationRequest, source_width: u32, source_height: u32, frames: usize, limits: ArtifactWorkLimits) -> (r: Result<AnalysisScale, Failure>)
    ensures
        match r {
            Ok(s) => fit_scale_spec(request, source_width, source_height, frames, limits) == Some(s),
            Err(f) => fit_scale_spec(request, source_width, source_height, frames, limits).is_none()
                && f.code == ErrorCode::ResourceLimitExceeded,
        },
{
    let candidates: [AnalysisScale; 4] = [AnalysisScale::Identity, AnalysisScale::Down(2), AnalysisScale::Down(4), AnalysisScale::Down(8)];
    let mut i: usize = 0;
    while i < 4
        invariant
            i <= 4,
            candidates@ == seq![AnalysisScale::Identity, AnalysisScale::Down(2), AnalysisScale::Down(4), AnalysisScale::Down(8)],
            forall|k: int| 0 <= k < i ==> !fits_normalized_spec(NormalizationRequest { scale: #[trigger] candidates@[k], ..request }, source_width, source_height, frames, limits),
        decreases 4 - i,
    {
        let scale = candidates[i];
        let effective = NormalizationRequest { scale, ..request };
        if validate_normalized_limit(effective, source_width, source_height, frames, limits).is_ok() {
            return Ok(scale);
        }
        i = i + 1;
    }
    Err(limit_error("no exact integer analysis scale fits configured limits"))
}

/// The request with a "fit limits" scale replaced by the scale that fits,
/// checked against the limits.
pub fn materialize_scale(request: NormalizationRequest, source_width: u32, source_height: u32, frames: usize, limits: ArtifactWorkLimits) -> (r: Result<NormalizationRequest, Failure>)
    requires
        scale_factor_positive(request),
    ensures
        match r {
            Ok(m) => fits_normalized_spec(m, source_width, source_height, frames, limits) && m.crop == request.crop
                && (request.scale == AnalysisScale::FitLimits ==> fit_scale_spec(request, source_width, source_height, frames, limits) == Some(m.scale))
                && (request.scale != AnalysisScale::FitLimits ==> m == request),
            Err(f) => if request.scale == AnalysisScale::FitLimits {
                fit_scale_spec(request, source_width, source_height, frames, limits).is_none()
                    && f.code == ErrorCode::ResourceLimitExceeded
            } else {
                !fits_normalized_spec(request, source_width, source_height, frames, limits)
                    && f.code == sizing_error_code(request, source_width, source_height)
            },
        },
{
    let effective = if request.scale == AnalysisScale::FitLimits {
        let s = fit_scale(request, source_width, source_height, frames, limits)?;
        NormalizationRequest { scale: s, ..request }
    } else {
        request
    };
    validate_normalized_limit(effective, source_width, source_height, frames, limits)?;
    Ok(effective)
}

/// Bytes of the normalized sequence a generator retains: six per normalized
/// pixel per frame, or nothing for a generator without normalization.
pub open spec fn normalized_bytes_spec(request: Option<NormalizationRequest>, source_width: u32, source_height: u32, frames: usize) -> Option<usize> {
    match request {
        None => Some(0),
        Some(r) => match normalized_dimensions_spec(r, source_width, source_height) {
            Some((w, h)) => if w * h * 6 * frames <= usize::MAX && w * h * 6 <= usize::MAX {
                Some((w * h * 6 * frames) as usize)
            } else {
                None
            },
            None => None,
        },
    }
}

pub fn estimated_normalized_bytes(request: Option<NormalizationRequest>, source_width: u32, source_height: u32, frames: usize) -> (r: Result<usize, Failure>)
    requires
        request matches Some(q) ==> scale_factor_positive(q),
    ensures
        match r {
            Ok(v) => normalized_bytes_spec(request, source_width, source_height, frames) == Some(v),
            Err(f) => normalized_bytes_spec(request, source_width, source_height, frames).is_none()
                && request is Some && f.code == sizing_error_code(request.unwrap(), source_width, source_height),
        },
{
    let r = match request {
        None => {
            return Ok(0);
        },
        Some(r) => r,
    };
    let (w, h) = normalized_dimensions(r, source_width, source_height)?;
    assert((w as u64) * (h as u64) <= 0xffff_ffffu64 * 0xffff_ffffu64) by (nonlinear_arith)
        requires
            w <= 0xffff_ffffu32,
            h <= 0xffff_ffffu32,
    ;
    let pixels_u64: u64 = (w as u64) * (h as u64);
    if pixels_u64 > usize::MAX as u64 {
        return Err(limit_error("normalized sequence byte estimate overflows"));
    }
    let pixels = pixels_u64 as usize;
    match pixels.checked_mul(6) {
        Some(per_frame) => match per_frame.checked_mul(frames) {
            Some(v) => Ok(v),
            None => Err(limit_error("normalized sequence byte estimate overflows")),
        },
        None => Err(limit_error("normalized sequence byte estimate overflows")),
    }
}

/// Requested output bounds of one generator.
#[derive(Clone, Copy, Debug, PartialEq, Eq, Structural)]
pub struct OutputLimits {
    pub max_width: u32,
    pub max_height: u32,
    pub max_encoded_bytes: u64,
}

/// The requested output bounds stay within the runtime's caps.
pub fn validate_output_limits(output: OutputLimits, limits: ArtifactWorkLimits) -> (r: Result<(), Failure>)
    ensures
        r is Ok <==> (output.max_width <= limits.max_dimension && output.max_height <= limits.max_dimension
            && output.max_encoded_bytes <= limits.max_output_bytes_each),
        r matches Err(f) ==> f.code == ErrorCode::ResourceLimitExceeded,
{
    if output.max_width > limits.max_dimension || output.max_height > limits.max_dimension
        || output.max_encoded_bytes > limits.max_output_bytes_each as u64
    {
        return Err(limit_error("requested artifact output limits exceed runtime caps"));
    }
    Ok(())
}

/// The encoded-size bound handed to a renderer: the smaller of the requested
/// and the runtime bound, which must be positive.
pub fn encoded_limit(output: OutputLimits, limits: ArtifactWorkLimits) -> (r: Result<usize, Failure>)
    ensures
        match r {
            Ok(v) => output.max_encoded_bytes <= usize::MAX && v > 0
                && v == (if output.max_encoded_bytes < limits.max_output_bytes_each { output.max_encoded_bytes as int } else { limits.max_output_bytes_each as int }),
            Err(f) => (output.max_encoded_bytes > usize::MAX || output.max_encoded_bytes == 0 || limits.max_output_bytes_each == 0)
                && f.code == ErrorCode::ResourceLimitExceeded,
        },
{
    if output.max_encoded_bytes > usize::MAX as u64 {
        return Err(limit_error("requested output byte limit exceeds this platform"));
    }
    let requested = output.max_encoded_bytes as usize;
    let v = if requested < limits.max_output_bytes_each { requested } else { limits.max_output_bytes_each };
    if v == 0 {
        return Err(limit_error("effective output byte limit is zero"));
    }
    Ok(v)
}

/// Size of one generated output: encoded bytes and image dimensions.
#[derive(Clone, Copy, Debug, PartialEq, Eq, Structural)]
pub struct OutputSize {
    pub encoded_len: usize,
    pub width: u32,
    pub height: u32,
}

pub open spec fn output_within(o: OutputSize, requested: OutputLimits, limits: ArtifactWorkLimits) -> bool {
    &&& o.encoded_len <= requested.max_encoded_bytes
    &&& o.encoded_len <= limits.max_output_bytes_each
    &&& o.width <= requested.max_width
    &&& o.height <= requested.max_height
}

/// Every generated output stays within the requested and the runtime bounds.
pub fn validate_outputs(outputs: &Vec<OutputSize>, requested: OutputLimits, limits: ArtifactWorkLimits) -> (r: Result<(), Failure>)
    ensures
        r is Ok <==> forall|i: int| 0 <= i < outputs.len() ==> output_within(#[trigger] outputs@[i], requested, limits),
        r matches Err(f) ==> f.code == ErrorCode::ResourceLimitExceeded,
{
    let mut i: usize = 0;
    while i < outputs.len()
        invariant
            i <= outputs.len(),
            forall|k: int| 0 <= k < i ==> output_within(#[trigger] outputs@[k], requested, limits),
        decreases outputs.len() - i,
    {
        let o = outputs[i];
        if o.encoded_len as u64 > requested.max_encoded_bytes || o.encoded_len > limits.max_output_bytes_each
            || o.width > requested.max_width || o.height > requested.max_height
        {
            assert(!output_within(outputs@[i as int], requested, limits));
            return Err(limit_error("generated artifact exceeds requested output limits"));
        }
        i = i + 1;
    }
    Ok(())
}

/// How a generator names its reference frame.
#[derive(Clone, Copy, Debug, PartialEq, Eq, Structural)]
pub enum FrameSelector {
    First,
    Last,
    Frame(u128),
}

/// Position of the first frame with the identity.
pub open spec fn first_position(ids: Seq<u128>, id: u128, k: nat) -> Option<usize>
    decreases ids.len() - k,
{
    if k >= ids.len() {
        None
    } else if ids[k as int] == id {
        Some(k as usize)
    } else {
        first_position(ids, id, k + 1)
    }
}

pub proof fn lemma_first_position_bounds(ids: Seq<u128>, id: u128, k: nat)
    requires
        ids.len() <= usize::MAX,
    ensures
        first_position(ids, id, k) matches Some(p) ==> k <= p < ids.len() && ids[p as int] == id,
    decreases ids.len() - k,
{
    if k < ids.len() && ids[k as int] != id {
        lemma_first_position_bounds(ids, id, k + 1);
    }
}

/// The position of the reference frame among an epoch's frames.
pub fn resolve_reference(selector: FrameSelector, frame_ids: &Vec<u128>) -> (r: Result<usize, Failure>)
    requires
        frame_ids.len() > 0,
    ensures
        match selector {
            FrameSelector::First => r == Ok::<usize, Failure>(0),
            FrameSelector::Last => r == Ok::<usize, Failure>((frame_ids.len() - 1) as usize),
            FrameSelector::Frame(id) => match r {
                Ok(p) => first_position(frame_ids@, id, 0) == Some(p),
                Err(f) => first_position(frame_ids@, id, 0).is_none() && f.code == ErrorCode::ArtifactGenerationFailed,
            },
        },
{
    match selector {
        FrameSelector::First => Ok(0),
        FrameSelector::Last => Ok(frame_ids.len() - 1),
        FrameSelector::Frame(id) => {
            let mut k: usize = 0;
            while k < frame_ids.len()
                invariant
                    k <= frame_ids.len(),
                    selector == FrameSelector::Frame(id),
                    first_position(frame_ids@, id, 0) == first_position(frame_ids@, id, k as nat),
                decreases frame_ids.len() - k,
            {
                if frame_ids[k] == id {
                    return Ok(k);
                }
                k = k + 1;
            }
            Err(generation_error("reference frame is outside this visual epoch"))
        },
    }
}


/// The frame a selector names by identity, if it names one.
pub fn explicit_reference_frame(selector: FrameSelector) -> (r: Option<u128>)
    ensures
        r == (match selector {
            FrameSelector::Frame(id) => Some(id),
            _ => None::<u128>,
        }),
{
    match selector {
        FrameSelector::Frame(id) => Some(id),
        FrameSelector::First | FrameSelector::Last => None,
    }
}

} // verus!
