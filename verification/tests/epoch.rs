use krometrail::epoch::{
    AdaptationLimits, EpochPlan, FrameMeta, GapSpan, ImageFormat, ResolvedFrames, bounded_plan,
    bounded_selection, clamp_markers, partition_epochs, validate_and_plan, validate_frames,
};
use krometrail::errors::ErrorCode;
use krometrail::spans::SessionSpan;

const SESSION: u128 = 100;
const TARGET: u128 = 101;

fn metadata(
    id: u128,
    ordinal: u64,
    time: u64,
    format: ImageFormat,
    image: (u32, u32),
    viewport: (u32, u32),
    scale: f64,
) -> FrameMeta {
    FrameMeta {
        frame_id: id,
        session_id: SESSION,
        target_id: TARGET,
        capture_ordinal: ordinal,
        session_time: time,
        format,
        image_width: image.0,
        image_height: image.1,
        viewport_width: viewport.0,
        viewport_height: viewport.1,
        device_scale_bits: scale.to_bits(),
        encoded_len: 128,
    }
}

fn adaptation_limits() -> AdaptationLimits {
    AdaptationLimits {
        max_source_frames: 120,
        max_encoded_source_bytes: 512 * 1024 * 1024,
        max_dimension: 8192,
        max_pixels_per_frame: 16_777_216,
        max_decoded_bytes: 512 * 1024 * 1024,
        max_markers: 256,
    }
}

fn range(frames: &[FrameMeta], gaps: Vec<GapSpan>) -> ResolvedFrames {
    ResolvedFrames {
        session_id: frames[0].session_id,
        target_id: frames[0].target_id,
        resolved: SessionSpan { start: frames[0].session_time, end: frames[frames.len() - 1].session_time },
        frame_ids: frames.iter().map(|f| f.frame_id).collect(),
        gaps,
    }
}

#[test]
fn epochs_preserve_ties_formats_gaps_markers_and_exact_geometry_boundaries() {
    let mut next_scale = metadata(4, 4, 6, ImageFormat::Png, (2, 2), (3, 2), 1.0);
    next_scale.device_scale_bits = 1.0_f64.to_bits() + 1;
    let frames = vec![
        metadata(1, 1, 5, ImageFormat::Jpeg, (2, 2), (2, 2), 1.0),
        metadata(2, 2, 5, ImageFormat::Png, (2, 2), (2, 2), 1.0),
        metadata(3, 3, 5, ImageFormat::Png, (2, 2), (3, 2), 1.0),
        next_scale,
    ];
    let gap = GapSpan { gap_id: 200, start: 5, end: 6, estimated_missing_frames: Some(2) };
    let resolved = range(&frames, vec![gap]);
    // Two caller markers at the same time: "second" first, then "first".
    let marker_times = vec![5_u64, 5];
    let plans = validate_and_plan(&resolved, &frames, &marker_times, adaptation_limits(), false).unwrap();
    assert_eq!(partition_epochs(&frames), vec![(0, 2), (2, 3), (3, 4)]);
    assert_eq!(plans.len(), 3);
    assert_eq!(plans[0].frames.len(), 2);
    assert_eq!(plans[0].frames.iter().map(|f| f.frame_id).collect::<Vec<_>>(), vec![1, 2]);
    assert_eq!(plans[0].frames[0].session_time, plans[0].frames[1].session_time);
    assert_eq!(plans[0].frames[0].format, ImageFormat::Jpeg);
    assert_eq!(plans[0].frames[1].format, ImageFormat::Png);
    assert_eq!(plans[0].markers, vec![0, 1]);
    assert_eq!(plans[0].gaps.len(), 1);
    assert_eq!(plans[0].gaps[0].start, 5);
    assert_eq!(plans[0].gaps[0].end, 5);
    assert_eq!(plans[0].gaps[0].estimated_missing_frames, Some(2));
    assert_eq!(plans[1].frames[0].viewport_width, 3);
    assert_ne!(plans[1].frames[0].device_scale_bits, plans[2].frames[0].device_scale_bits);
    assert_eq!(plans.iter().filter(|plan| !plan.gaps.is_empty()).count(), 1);
    assert_eq!(plans.iter().map(|plan| plan.gaps.len()).collect::<Vec<_>>(), vec![1, 0, 0]);
    assert_eq!(plans[0].decoded_bytes, 2 * 2 * 2 * 4);
}

#[test]
fn source_order_disappearance_and_cancellation_are_explicit() {
    let frames = vec![
        metadata(1, 1, 1, ImageFormat::Png, (2, 2), (2, 2), 1.0),
        metadata(2, 2, 2, ImageFormat::Png, (2, 2), (2, 2), 1.0),
    ];
    let resolved = range(&frames, vec![]);
    assert!(validate_frames(&resolved, &vec![frames[0]], 0, adaptation_limits(), false).is_err());
    let mut reversed = frames.clone();
    reversed.reverse();
    assert!(validate_frames(&resolved, &reversed, 0, adaptation_limits(), false).is_err());
    assert_eq!(
        validate_frames(&resolved, &frames, 0, adaptation_limits(), true).unwrap_err().code,
        ErrorCode::Cancelled
    );
    assert!(validate_frames(&resolved, &frames, 0, adaptation_limits(), false).is_ok());
}

const RECORDED_FIRST_FRAME: u64 = 116_013_596_177;
const RECORDED_LAST_FRAME: u64 = 120_262_122_018;
const RECORDED_RESOLVED_END: u64 = 120_300_000_000;
const RECORDED_EFFECTIVE_ANCHOR: u64 = 118_150_000_000;
const RECORDED_IMAGE_WIDTH: u32 = 1_673;
const RECORDED_IMAGE_HEIGHT: u32 = 1_288;
const RECORDED_ENCODED_LEN: usize = 8_192;

fn recorded_frames() -> Vec<FrameMeta> {
    let span = u128::from(RECORDED_LAST_FRAME - RECORDED_FIRST_FRAME);
    (0..184_u64)
        .map(|index| {
            let time = RECORDED_FIRST_FRAME + u64::try_from(span * u128::from(index) / 183).unwrap();
            FrameMeta {
                frame_id: 100 + u128::from(index),
                session_id: 1,
                target_id: 2,
                capture_ordinal: index + 1,
                session_time: time,
                format: ImageFormat::Png,
                image_width: RECORDED_IMAGE_WIDTH,
                image_height: RECORDED_IMAGE_HEIGHT,
                viewport_width: RECORDED_IMAGE_WIDTH,
                viewport_height: RECORDED_IMAGE_HEIGHT,
                device_scale_bits: 1.0_f64.to_bits(),
                encoded_len: RECORDED_ENCODED_LEN,
            }
        })
        .collect()
}

fn recorded_gaps() -> Vec<GapSpan> {
    [(119_325_329_378, 119_325_329_378), (120_159_653_105, 120_159_653_105), (120_284_683_060, 120_350_681_771)]
        .into_iter()
        .enumerate()
        .map(|(index, (start, end))| GapSpan {
            gap_id: 1_000 + index as u128,
            start,
            end,
            estimated_missing_frames: if index == 2 { Some(7) } else { None },
        })
        .collect()
}

fn recorded_range(frames: &[FrameMeta], gaps: Vec<GapSpan>) -> ResolvedFrames {
    ResolvedFrames {
        session_id: 1,
        target_id: 2,
        resolved: SessionSpan { start: 116_000_000_000, end: RECORDED_RESOLVED_END },
        frame_ids: frames.iter().map(|f| f.frame_id).collect(),
        gaps,
    }
}

fn recorded_limits() -> AdaptationLimits {
    AdaptationLimits {
        max_source_frames: 184,
        max_encoded_source_bytes: 10_000_000,
        max_dimension: 8_192,
        max_pixels_per_frame: 16_777_216,
        max_decoded_bytes: 512 * 1024 * 1024,
        max_markers: 256,
    }
}

fn recorded_plan(frames: Vec<FrameMeta>, gaps: Vec<GapSpan>) -> EpochPlan {
    validate_and_plan(&recorded_range(&frames, gaps), &frames, &vec![], recorded_limits(), false)
        .unwrap()
        .pop()
        .unwrap()
}

/// Evenly spaced positions among `n` frames, first and last included.
fn uniform_selection(n: usize, k: usize) -> Vec<usize> {
    if k == 1 {
        vec![0]
    } else {
        (0..k).map(|i| i * (n - 1) / (k - 1)).collect()
    }
}

#[test]
fn recorded_region_locator_bounding_preserves_gap_span_for_tile_limits() {
    let plan = recorded_plan(recorded_frames(), recorded_gaps());
    // The trailing recorded gap is clamped to the epoch boundary, retaining its
    // loss estimate instead of disappearing.
    assert_eq!(plan.gaps.len(), 3);
    assert_eq!((plan.gaps[2].start, plan.gaps[2].end), (RECORDED_LAST_FRAME, RECORDED_LAST_FRAME));
    assert_eq!(plan.gaps[2].estimated_missing_frames, Some(7));
    let locator_index = plan
        .frames
        .iter()
        .enumerate()
        .min_by_key(|(_, frame)| frame.session_time.abs_diff(RECORDED_EFFECTIVE_ANCHOR))
        .map(|(index, _)| index)
        .unwrap();
    assert_eq!(plan.frames[locator_index].session_time, 118_149_467_091);
    let locator = plan.frames[locator_index].frame_id;

    for tile_limit in [3, 6] {
        let sel = uniform_selection(plan.frames.len(), tile_limit);
        let bounded = bounded_plan(&plan, tile_limit, &sel, Some(locator), &vec![]).unwrap();
        assert_eq!(bounded.frames.len(), tile_limit);
        assert_eq!(bounded.frames.first().unwrap().frame_id, plan.frames.first().unwrap().frame_id);
        assert_eq!(bounded.frames.last().unwrap().frame_id, plan.frames.last().unwrap().frame_id);
        assert!(bounded.frames.iter().any(|frame| frame.frame_id == locator));
        assert_eq!(bounded.gaps.len(), 3);
        assert_eq!(bounded.gaps[2].estimated_missing_frames, Some(7));
        assert_eq!((bounded.gaps[2].start, bounded.gaps[2].end), (RECORDED_LAST_FRAME, RECORDED_LAST_FRAME));
    }
}

#[test]
fn recorded_small_tile_limits_retain_locators_and_gaps_for_gapped_and_gap_free_ranges() {
    let gapped = recorded_plan(recorded_frames(), recorded_gaps());
    let gap_free = recorded_plan(recorded_frames(), vec![]);
    let locator = gapped.frames[92].frame_id;

    for (plan, expected_gaps) in [(&gapped, 3_usize), (&gap_free, 0_usize)] {
        for tile_limit in [1, 2] {
            let sel = uniform_selection(plan.frames.len(), tile_limit);
            let bounded = bounded_plan(plan, tile_limit, &sel, Some(locator), &vec![]).unwrap();
            assert_eq!(bounded.frames.len(), tile_limit);
            assert!(bounded.frames.iter().any(|frame| frame.frame_id == locator));
            assert_eq!(bounded.gaps.len(), expected_gaps);
            if expected_gaps != 0 {
                assert_eq!(bounded.gaps[2].estimated_missing_frames, Some(7));
            }
        }
    }
}

#[test]
fn bounded_selection_drops_markers_outside_the_selected_span() {
    let selected = clamp_markers(&vec![1], 10, 20);
    assert!(selected.is_empty());
}

#[test]
fn recorded_out_of_span_gap_is_retained_in_region_manifest_with_estimate() {
    let plan = recorded_plan(recorded_frames(), recorded_gaps());
    let locator = plan.frames[92].frame_id;
    let sel = uniform_selection(plan.frames.len(), 6);
    let bounded = bounded_plan(&plan, 6, &sel, Some(locator), &vec![]).unwrap();
    assert!(bounded.frames.iter().any(|frame| frame.frame_id == locator));
    assert_eq!(bounded.gaps.len(), 3);
    assert_eq!(bounded.gaps[2].estimated_missing_frames, Some(7));
    assert_eq!((bounded.gaps[2].start, bounded.gaps[2].end), (RECORDED_LAST_FRAME, RECORDED_LAST_FRAME));
}

#[test]
fn bounded_selection_swaps_the_greatest_interior_slot_for_the_required_frame() {
    // Ten frames, four slots: [0, 3, 6, 9]; frame 4 replaces 6, the greatest
    // interior position, and the result is sorted.
    let sel = vec![0, 3, 6, 9];
    assert_eq!(bounded_selection(10, 4, &sel, Some(4)), Some(vec![0, 3, 4, 9]));
    assert_eq!(bounded_selection(10, 4, &sel, Some(3)), Some(sel.clone()));
    assert_eq!(bounded_selection(10, 4, &sel, None), Some(sel.clone()));
    // With fewer than three slots any slot may go: the greatest index is replaced.
    assert_eq!(bounded_selection(10, 2, &vec![0, 9], Some(4)), Some(vec![0, 4]));
    // With three or more slots and only endpoints selected, nothing can be replaced.
    assert_eq!(bounded_selection(10, 3, &vec![0, 9, 9], Some(4)), None);
}

#[test]
fn bounded_plan_reports_an_unplaceable_required_frame() {
    let plan = recorded_plan(recorded_frames(), vec![]);
    let locator = plan.frames[92].frame_id;
    let err = bounded_plan(&plan, 3, &vec![0, 183, 183], Some(locator), &vec![]).unwrap_err();
    assert_eq!(err.code, ErrorCode::ArtifactGenerationFailed);
}

#[test]
fn too_many_markers_or_encoded_bytes_exceed_the_adaptation_limits() {
    let frames = vec![
        metadata(1, 1, 1, ImageFormat::Png, (2, 2), (2, 2), 1.0),
        metadata(2, 2, 2, ImageFormat::Png, (2, 2), (2, 2), 1.0),
    ];
    let resolved = range(&frames, vec![]);
    let mut limits = adaptation_limits();
    limits.max_markers = 1;
    assert_eq!(
        validate_frames(&resolved, &frames, 2, limits, false).unwrap_err().code,
        ErrorCode::ResourceLimitExceeded
    );
    let mut limits = adaptation_limits();
    limits.max_encoded_source_bytes = 255;
    assert_eq!(
        validate_frames(&resolved, &frames, 0, limits, false).unwrap_err().code,
        ErrorCode::ResourceLimitExceeded
    );
    limits.max_encoded_source_bytes = 256;
    assert!(validate_frames(&resolved, &frames, 0, limits, false).is_ok());
}
