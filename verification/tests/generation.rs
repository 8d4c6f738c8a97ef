use krometrail::bundle::default_generators;
use krometrail::epoch::{EpochPlan, FrameMeta, ImageFormat, ResolvedFrames, validate_and_plan};
use krometrail::errors::ErrorCode;
use krometrail::generation::{
    CacheDisposition, FrameBudget, FrequencyMode, GeneratorPlanRequest, GroupMemory, Sampling,
    admit_output, analysis_effective_max_frames, analysis_plan_identity, cohort_mask_estimate, check_generator_plan, disposition,
    estimated_change_mask_bytes, generator_frame_budget, plan_group_memory, potential_outputs,
    prepare_generator, select_epoch_plans,
};
use krometrail::normalization::{AnalysisScale, CropSize, NormalizationRequest, OutputLimits};
use krometrail::scheduler::ArtifactWorkLimits;
use krometrail::spans::SessionSpan;

fn high_dpi_frame(position: u64) -> FrameMeta {
    FrameMeta {
        frame_id: 8_100 + u128::from(position),
        session_id: 8_000,
        target_id: 8_001,
        capture_ordinal: position + 1,
        session_time: position + 1,
        format: ImageFormat::Png,
        image_width: 2_400,
        image_height: 1_410,
        viewport_width: 1_200,
        viewport_height: 705,
        device_scale_bits: 2.0_f64.to_bits(),
        encoded_len: 4_096,
    }
}

fn plan_of(frames: &[FrameMeta], limits: ArtifactWorkLimits) -> Vec<EpochPlan> {
    let range = ResolvedFrames {
        session_id: frames[0].session_id,
        target_id: frames[0].target_id,
        resolved: SessionSpan { start: frames[0].session_time, end: frames[frames.len() - 1].session_time },
        frame_ids: frames.iter().map(|f| f.frame_id).collect(),
        gaps: vec![],
    };
    validate_and_plan(&range, &frames.to_vec(), &vec![], limits.adaptation(), false).unwrap()
}

#[test]
fn default_limits_fit_reproduced_high_dpi_sequence_with_fixed_combined_budget() {
    let limits = ArtifactWorkLimits::default(8);
    assert_eq!(limits.max_combined_request_bytes, 1024 * 1024 * 1024);
    let frames: Vec<_> = (0_u64..53).map(high_dpi_frame).collect();
    let plans = plan_of(&frames, limits);
    assert_eq!(plans.len(), 1);
    assert_eq!(plans[0].decoded_bytes, 717_408_000);
    assert_eq!(limits.max_decoded_bytes, 768 * 1024 * 1024);

    let (storyboard, difference_map) = default_generators(27, true);
    // The storyboard renders its image and the orientation strip; the
    // difference map renders one image.
    let generators = [(storyboard.normalization, storyboard.output, 2_usize), (difference_map.normalization, difference_map.output, 1_usize)];
    let mut peak_reservation = 0;
    for (normalization, output, kinds) in generators {
        let prepared = prepare_generator(Some(normalization), output, kinds, &plans[0], limits).unwrap();
        let repeated = prepare_generator(Some(normalization), output, kinds, &plans[0], limits).unwrap();
        assert_eq!(prepared.normalization, repeated.normalization);
        assert_eq!(prepared.normalization.unwrap().scale, AnalysisScale::Down(2));
        assert_eq!(prepared.output_reservation, output.max_encoded_bytes as usize * kinds);
        peak_reservation = peak_reservation.max(plans[0].decoded_bytes + prepared.normalized_bytes + prepared.output_reservation);
    }
    assert_eq!(peak_reservation, 1_053_544_864);
    assert!(peak_reservation <= limits.max_combined_request_bytes);

    let oversized_frames: Vec<_> = (0_u64..55).map(high_dpi_frame).collect();
    let oversized_plan = plan_of(&oversized_frames, limits);
    let error = match prepare_generator(Some(difference_map.normalization), difference_map.output, 1, &oversized_plan[0], limits) {
        Ok(_) => panic!("oversized sequence must fail before allocation"),
        Err(error) => error,
    };
    assert_eq!(error.code, ErrorCode::ResourceLimitExceeded);
}

#[test]
fn an_explicit_downscale_that_does_not_divide_the_frame_is_a_generation_failure() {
    let limits = ArtifactWorkLimits::default(8);
    let frames: Vec<_> = (0_u64..2).map(high_dpi_frame).collect();
    let plans = plan_of(&frames, limits);
    let output = OutputLimits { max_width: 1920, max_height: 2048, max_encoded_bytes: 1024 };
    let odd = NormalizationRequest { crop: Some(CropSize { width: 7, height: 8 }), scale: AnalysisScale::Down(2) };
    assert_eq!(
        prepare_generator(Some(odd), output, 1, &plans[0], limits).unwrap_err().code,
        ErrorCode::ArtifactGenerationFailed
    );
    let even = NormalizationRequest { crop: Some(CropSize { width: 8, height: 8 }), scale: AnalysisScale::Down(2) };
    let prepared = prepare_generator(Some(even), output, 1, &plans[0], limits).unwrap();
    assert_eq!(prepared.normalized_bytes, 4 * 4 * 6 * 2);
    assert_eq!(prepared.output_reservation, 1024);
    let too_wide = OutputLimits { max_width: 8193, max_height: 2048, max_encoded_bytes: 1024 };
    assert_eq!(
        prepare_generator(None, too_wide, 1, &plans[0], limits).unwrap_err().code,
        ErrorCode::ResourceLimitExceeded
    );
}

#[test]
fn the_anchor_selects_the_nearest_epoch_and_no_anchor_keeps_all() {
    let limits = ArtifactWorkLimits::default(8);
    let mut frames: Vec<_> = (0_u64..4).map(high_dpi_frame).collect();
    frames[2].viewport_width = 1_000;
    frames[3].viewport_width = 1_000;
    let plans = plan_of(&frames, limits);
    assert_eq!(plans.len(), 2);
    let all = select_epoch_plans(plan_of(&frames, limits), None).unwrap();
    assert_eq!(all.len(), 2);
    let near_second = select_epoch_plans(plan_of(&frames, limits), Some(4)).unwrap();
    assert_eq!(near_second.len(), 1);
    assert_eq!(near_second[0].index, 1);
    let near_first = select_epoch_plans(plan_of(&frames, limits), Some(1)).unwrap();
    assert_eq!(near_first[0].index, 0);
    assert_eq!(select_epoch_plans(vec![], Some(1)).unwrap_err().code, ErrorCode::ArtifactGenerationFailed);
}

#[test]
fn analysis_budgets_follow_the_decoded_memory_limit() {
    let limits = ArtifactWorkLimits::default(8);
    let frames: Vec<_> = (0_u64..53).map(high_dpi_frame).collect();
    let plans = plan_of(&frames, limits);
    // 768 MiB over 13.536 MB per decoded frame.
    let emf = analysis_effective_max_frames(&plans[0], limits).unwrap();
    assert_eq!(emf, 805_306_368 / (2_400 * 1_410 * 4));
    assert_eq!(
        generator_frame_budget(GeneratorPlanRequest::Storyboard { tile_limit: 8 }, &plans[0], limits).unwrap(),
        FrameBudget::Bounded { max_frames: 8, required: None }
    );
    assert_eq!(
        generator_frame_budget(
            GeneratorPlanRequest::MotionHistory { sampling: Sampling::UniformBounded, reference: Some(9) },
            &plans[0],
            limits
        )
        .unwrap(),
        FrameBudget::Bounded { max_frames: emf, required: Some(9) }
    );
    assert_eq!(
        generator_frame_budget(
            GeneratorPlanRequest::MotionHistory { sampling: Sampling::Exhaustive, reference: None },
            &plans[0],
            limits
        )
        .unwrap(),
        FrameBudget::All
    );
    let _ = FrequencyMode::Count;
    assert!(check_generator_plan(plan_of(&frames, limits).pop().unwrap(), limits).is_ok());
    let mut tight = limits;
    tight.max_decoded_bytes = 717_407_999;
    assert_eq!(
        check_generator_plan(plan_of(&frames, limits).pop().unwrap(), tight).unwrap_err().code,
        ErrorCode::ResourceLimitExceeded
    );
    // One bit per pixel for each of the 52 consecutive frame pairs.
    assert_eq!(estimated_change_mask_bytes(&plans[0]).unwrap(), 52 * (2_400 * 1_410 / 8));
}

#[test]
fn output_counts_group_memory_and_admission_are_bounded() {
    let limits = ArtifactWorkLimits::default(8);
    assert_eq!(potential_outputs(4, &vec![2, 2], limits).unwrap(), 16);
    assert_eq!(potential_outputs(5, &vec![2, 2], limits).unwrap_err().code, ErrorCode::ResourceLimitExceeded);
    assert_eq!(admit_output(10, 5, limits).unwrap(), (15, true));
    assert_eq!(admit_output(268_435_456, 1, limits).unwrap(), (268_435_457, false));
    assert_eq!(admit_output(usize::MAX, 1, limits).unwrap_err().code, ErrorCode::ResourceLimitExceeded);
    assert!(matches!(plan_group_memory(100, 100, 100, 100, limits), Ok(GroupMemory::Admitted { .. })));
    assert_eq!(disposition(false, false), CacheDisposition::Hit);
    assert_eq!(disposition(true, false), CacheDisposition::Generated);
    assert_eq!(disposition(true, true), CacheDisposition::RegeneratedAfterInvalidation);
}

#[test]
fn cohorts_share_masks_only_between_several_groups_that_want_them() {
    let limits = ArtifactWorkLimits::default(8);
    let frames: Vec<_> = (0_u64..3).map(high_dpi_frame).collect();
    let plans = plan_of(&frames, limits);
    let masks = 2 * (2_400 * 1_410 / 8);
    assert_eq!(cohort_mask_estimate(2, true, &plans[0]).unwrap(), masks);
    assert_eq!(cohort_mask_estimate(1, true, &plans[0]).unwrap(), 0);
    assert_eq!(cohort_mask_estimate(3, false, &plans[0]).unwrap(), 0);
    assert_eq!(
        analysis_plan_identity(&plans[0]),
        vec![(8_100, 0), (8_101, 1), (8_102, 2)]
    );
    let context = plans[0].error_context();
    assert_eq!(context.session_id, Some(8_000));
    assert_eq!(context.target_id, Some(8_001));
    assert_eq!(context.range, Some(krometrail::spans::SessionSpan { start: 1, end: 3 }));
}
