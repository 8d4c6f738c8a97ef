use krometrail::errors::ErrorCode;
use krometrail::normalization::{
    AnalysisScale, CropSize, FrameSelector, NormalizationRequest, OutputLimits, OutputSize,
    encoded_limit, estimated_normalized_bytes, fit_scale, materialize_scale, normalized_dimensions,
    resolve_reference, validate_normalized_limit, validate_output_limits, validate_outputs,
};
use krometrail::scheduler::ArtifactWorkLimits;

fn request(scale: AnalysisScale) -> NormalizationRequest {
    NormalizationRequest { crop: None, scale }
}

#[test]
fn reference_frames_resolve_to_epoch_positions() {
    let ids = vec![7, 8, 9];
    assert_eq!(resolve_reference(FrameSelector::First, &ids).unwrap(), 0);
    assert_eq!(resolve_reference(FrameSelector::Last, &ids).unwrap(), 2);
    assert_eq!(resolve_reference(FrameSelector::Frame(8), &ids).unwrap(), 1);
    assert_eq!(resolve_reference(FrameSelector::Frame(6), &ids).unwrap_err().code, ErrorCode::ArtifactGenerationFailed);
}

#[test]
fn generated_outputs_stay_within_requested_and_runtime_bounds() {
    let limits = ArtifactWorkLimits::default(8);
    let requested = OutputLimits { max_width: 100, max_height: 50, max_encoded_bytes: 1_000 };
    let fits = OutputSize { encoded_len: 1_000, width: 100, height: 50 };
    assert!(validate_outputs(&vec![fits, fits], requested, limits).is_ok());
    let too_tall = OutputSize { encoded_len: 10, width: 100, height: 51 };
    assert_eq!(validate_outputs(&vec![fits, too_tall], requested, limits).unwrap_err().code, ErrorCode::ResourceLimitExceeded);
    let too_large = OutputSize { encoded_len: 1_001, width: 1, height: 1 };
    assert!(validate_outputs(&vec![too_large], requested, limits).is_err());
    assert!(validate_output_limits(requested, limits).is_ok());
    let too_wide = OutputLimits { max_width: 8_193, max_height: 1, max_encoded_bytes: 1 };
    assert_eq!(validate_output_limits(too_wide, limits).unwrap_err().code, ErrorCode::ResourceLimitExceeded);
    assert_eq!(encoded_limit(requested, limits).unwrap(), 1_000);
    let unbounded = OutputLimits { max_width: 1, max_height: 1, max_encoded_bytes: u64::MAX };
    assert_eq!(encoded_limit(unbounded, limits).unwrap(), limits.max_output_bytes_each);
    let empty = OutputLimits { max_width: 1, max_height: 1, max_encoded_bytes: 0 };
    assert_eq!(encoded_limit(empty, limits).unwrap_err().code, ErrorCode::ResourceLimitExceeded);
}

#[test]
fn fit_limits_picks_the_smallest_exact_divisor_that_fits() {
    let mut limits = ArtifactWorkLimits::default(8);
    // Sixty bytes hold 4 x 2 normalized pixels of one frame at six bytes each,
    // but not 8 x 4.
    limits.max_normalized_bytes = 60;
    assert_eq!(fit_scale(request(AnalysisScale::FitLimits), 8, 4, 1, limits).unwrap(), AnalysisScale::Down(2));
    let materialized = materialize_scale(request(AnalysisScale::FitLimits), 8, 4, 1, limits).unwrap();
    assert_eq!(materialized.scale, AnalysisScale::Down(2));
    assert_eq!(normalized_dimensions(materialized, 8, 4).unwrap(), (4, 2));
    assert_eq!(estimated_normalized_bytes(Some(materialized), 8, 4, 1).unwrap(), 48);
    assert_eq!(estimated_normalized_bytes(None, 8, 4, 1).unwrap(), 0);
    limits.max_normalized_bytes = 5;
    assert_eq!(fit_scale(request(AnalysisScale::FitLimits), 8, 4, 1, limits).unwrap_err().code, ErrorCode::ResourceLimitExceeded);
}

#[test]
fn explicit_scales_must_divide_the_frame_and_fit() {
    let limits = ArtifactWorkLimits::default(8);
    let odd = NormalizationRequest { crop: Some(CropSize { width: 5, height: 4 }), scale: AnalysisScale::Down(2) };
    assert_eq!(normalized_dimensions(odd, 100, 100).unwrap_err().code, ErrorCode::ArtifactGenerationFailed);
    assert_eq!(validate_normalized_limit(odd, 100, 100, 1, limits).unwrap_err().code, ErrorCode::ArtifactGenerationFailed);
    assert_eq!(estimated_normalized_bytes(Some(odd), 100, 100, 1).unwrap_err().code, ErrorCode::ArtifactGenerationFailed);
    assert!(validate_normalized_limit(request(AnalysisScale::Identity), 100, 100, 1, limits).is_ok());
    let huge = request(AnalysisScale::Identity);
    assert_eq!(
        validate_normalized_limit(huge, 8_000, 8_000, 240, limits).unwrap_err().code,
        ErrorCode::ResourceLimitExceeded
    );
    assert_eq!(normalized_dimensions(request(AnalysisScale::FitLimits), 8, 8).unwrap_err().code, ErrorCode::ArtifactGenerationFailed);
}
