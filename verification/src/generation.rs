//! Decisions of artifact generation: which visual epochs a request covers, how
//! many frames each generator may analyse, what memory a generator group
//! reserves, and how cache outcomes are reported.
use vstd::prelude::*;

use crate::epoch::{EpochPlan, EpochPlanView, FrameMeta, decoded_len, decoded_len_spec};
use crate::errors::{ErrorCode, Failure};
use crate::normalization::{
    NormalizationRequest, OutputLimits, encoded_limit, estimated_normalized_bytes, fits_normalized_spec, fit_scale_spec,
    materialize_scale, normalized_bytes_spec, scale_factor_positive, validate_output_limits,
};
use crate::scheduler::{ArtifactWorkLimits, limit_error};

verus! {

// ----- epoch selection -----

/// Distance from an anchor time to the session-time span of a plan's frames:
/// zero inside the span.
pub open spec fn plan_distance(p: EpochPlanView, anchor: u64) -> int {
    let start = p.frames[0].session_time;
    let end = p.frames.last().session_time;
    if anchor < start { start - anchor } else if anchor > end { anchor - end } else { 0 }
}

/// `a` comes before `b` when it is nearer the anchor, or as near with a smaller
/// epoch index.
pub open spec fn nearer(a: EpochPlanView, b: EpochPlanView, anchor: u64) -> bool {
    plan_distance(a, anchor) < plan_distance(b, anchor)
        || (plan_distance(a, anchor) == plan_distance(b, anchor) && a.index < b.index)
}

/// Position of the first plan among the first `n` that no other plan comes before.
pub open spec fn nearest_plan(plans: Seq<EpochPlanView>, anchor: u64, n: nat) -> int
    decreases n,
{
    if n <= 1 {
        0
    } else {
        let best = nearest_plan(plans, anchor, (n - 1) as nat);
        if nearer(plans[n - 1], plans[best], anchor) { n - 1 } else { best }
    }
}

pub open spec fn plan_views(plans: Seq<EpochPlan>) -> Seq<EpochPlanView> {
    plans.map_values(|p: EpochPlan| p@)
}

proof fn lemma_nearest_plan(plans: Seq<EpochPlanView>, anchor: u64, n: nat)
    requires
        1 <= n <= plans.len(),
    ensures
        0 <= nearest_plan(plans, anchor, n) < n,
        forall|k: int| 0 <= k < n ==> !nearer(#[trigger] plans[k], plans[nearest_plan(plans, anchor, n)], anchor),
    decreases n,
{
    if n > 1 {
        lemma_nearest_plan(plans, anchor, (n - 1) as nat);
    }
}

fn plan_distance_exec(p: &EpochPlan, anchor: u64) -> (d: u64)
    requires
        p.frames.len() > 0,
    ensures
        d == plan_distance(p@, anchor),
{
    let start = p.frames[0].session_time;
    let end = p.frames[p.frames.len() - 1].session_time;
    if anchor < start { start - anchor } else if anchor > end { anchor - end } else { 0 }
}

/// The first and last session times of a plan's frames.
pub open spec fn span_start(p: EpochPlanView) -> u64 {
    p.frames[0].session_time
}

pub open spec fn span_end(p: EpochPlanView) -> u64 {
    p.frames[p.frames.len() - 1].session_time
}

/// How far `anchor` lies outside a plan's session-time span: the larger of its
/// distance before the first frame and after the last frame, zero inside.
pub open spec fn outside_by(p: EpochPlanView, anchor: u64) -> int {
    let before: int = span_start(p) - anchor;
    let after: int = anchor - span_end(p);
    if before > 0 { before } else if after > 0 { after } else { 0 }
}

/// The plan an anchor selects lies nearest the anchor: no plan lies less far
/// outside its span than the selected one, and among plans as near, none has a
/// smaller epoch index. In particular an anchor inside some plan's span selects
/// a plan whose span contains it, that plan or one with a smaller epoch index.
pub proof fn lemma_anchor_selects_nearest_span(plans: Seq<EpochPlanView>, anchor: u64)
    requires
        plans.len() >= 1,
        forall|i: int| 0 <= i < plans.len() ==> (#[trigger] plans[i]).frames.len() > 0,
    ensures
        ({
            let chosen = plans[nearest_plan(plans, anchor, plans.len())];
            &&& 0 <= nearest_plan(plans, anchor, plans.len()) < plans.len()
            &&& forall|k: int| 0 <= k < plans.len() ==> outside_by(chosen, anchor) <= outside_by(#[trigger] plans[k], anchor)
            &&& forall|k: int| 0 <= k < plans.len() && outside_by(#[trigger] plans[k], anchor) == outside_by(chosen, anchor)
                ==> chosen.index <= plans[k].index
            &&& forall|k: int| 0 <= k < plans.len() && span_start(#[trigger] plans[k]) <= anchor <= span_end(plans[k])
                ==> span_start(chosen) <= anchor <= span_end(chosen) && chosen.index <= plans[k].index
        }),
{
    lemma_nearest_plan(plans, anchor, plans.len());
    let b = nearest_plan(plans, anchor, plans.len());
    let chosen = plans[b];
    assert forall|k: int| 0 <= k < plans.len() implies plan_distance(#[trigger] plans[k], anchor) == outside_by(plans[k], anchor) by {}
    assert(plan_distance(chosen, anchor) == outside_by(chosen, anchor));
    assert forall|k: int| 0 <= k < plans.len() && span_start(#[trigger] plans[k]) <= anchor <= span_end(plans[k])
        implies span_start(chosen) <= anchor <= span_end(chosen) && chosen.index <= plans[k].index by {
        assert(!nearer(plans[k], chosen, anchor));
        assert(outside_by(plans[k], anchor) == 0);
    }
    assert forall|k: int| 0 <= k < plans.len() implies outside_by(chosen, anchor) <= outside_by(#[trigger] plans[k], anchor) by {
        assert(!nearer(plans[k], chosen, anchor));
    }
    assert forall|k: int| 0 <= k < plans.len() && outside_by(#[trigger] plans[k], anchor) == outside_by(chosen, anchor)
        implies chosen.index <= plans[k].index by {
        assert(!nearer(plans[k], chosen, anchor));
    }
}

/// The plans a request covers. Without an anchor, every plan; with one, the
/// single plan nearest the anchor (ties to the smaller epoch index), or a
/// generation failure when there is no plan.
pub fn select_epoch_plans(plans: Vec<EpochPlan>, anchor: Option<u64>) -> (r: Result<Vec<EpochPlan>, Failure>)
    requires
        forall|i: int| 0 <= i < plans.len() ==> (#[trigger] plans@[i]).frames.len() > 0,
    ensures
        match anchor {
            None => r is Ok && plan_views(r->Ok_0@) == plan_views(plans@),
            Some(a) => match r {
                Ok(v) => plans.len() > 0 && plan_views(v@) == seq![plans@[nearest_plan(plan_views(plans@), a, plans.len() as nat)]@],
                Err(f) => plans.len() == 0 && f.code == ErrorCode::ArtifactGenerationFailed,
            },
        },
{
    let a = match anchor {
        None => {
            return Ok(plans);
        },
        Some(a) => a,
    };
    if plans.len() == 0 {
        return Err(Failure::new(ErrorCode::ArtifactGenerationFailed, "artifact planning produced no visual epochs"));
    }
    let ghost views = plan_views(plans@);
    let mut best: usize = 0;
    let mut best_distance = plan_distance_exec(&plans[0], a);
    let mut i: usize = 1;
    while i < plans.len()
        invariant
            1 <= i <= plans.len(),
            views == plan_views(plans@),
            forall|k: int| 0 <= k < plans.len() ==> (#[trigger] plans@[k]).frames.len() > 0,
            best as int == nearest_plan(views, a, i as nat),
            best < i,
            best_distance == plan_distance(views[best as int], a),
        decreases plans.len() - i,
    {
        let d = plan_distance_exec(&plans[i], a);
        assert(views[i as int] == plans@[i as int]@);
        if d < best_distance || (d == best_distance && plans[i].index < plans[best].index) {
            best = i;
            best_distance = d;
        }
        i = i + 1;
    }
    let mut plans = plans;
    let chosen = plans.swap_remove(best);
    let mut out: Vec<EpochPlan> = Vec::new();
    out.push(chosen);
    assert(plan_views(out@) =~= seq![chosen@]);
    Ok(out)
}

// ----- analysis frame budgets -----

/// The largest decoded size of the first `n` frames.
pub open spec fn max_decoded(frames: Seq<FrameMeta>, n: nat) -> int
    decreases n,
{
    if n == 0 {
        0
    } else {
        let rest = max_decoded(frames, (n - 1) as nat);
        let here = frames[n - 1].image_width * frames[n - 1].image_height * 4;
        if here > rest { here } else { rest }
    }
}

/// The most frames an analysis generator may decode: the source-frame limit, the
/// decoded-byte limit over the largest frame, and at least one.
pub open spec fn effective_max_frames_spec(frames: Seq<FrameMeta>, limits: ArtifactWorkLimits) -> int {
    let per_frame = max_decoded(frames, frames.len());
    let by_bytes: int = (limits.max_decoded_bytes as int) / (if per_frame < 1 { 1int } else { per_frame });
    let m: int = if limits.max_source_frames < by_bytes { limits.max_source_frames as int } else { by_bytes };
    if m < 1 { 1 } else { m }
}

/// Whether some frame's decoded size does not fit this platform.
pub open spec fn some_decode_overflows(frames: Seq<FrameMeta>) -> bool {
    exists|k: int| 0 <= k < frames.len() && #[trigger] decoded_len_spec(frames[k].image_width, frames[k].image_height).is_none()
}

proof fn lemma_max_decoded_bounds(frames: Seq<FrameMeta>, n: nat)
    requires
        n <= frames.len(),
    ensures
        max_decoded(frames, n) >= 0,
        n > 0 ==> exists|k: int| 0 <= k < n && max_decoded(frames, n) == #[trigger] frames[k].image_width * frames[k].image_height * 4,
    decreases n,
{
    if n > 0 {
        lemma_max_decoded_bounds(frames, (n - 1) as nat);
        assert(frames[n - 1].image_width * frames[n - 1].image_height * 4 >= 0) by (nonlinear_arith);
    }
}

/// The most frames an analysis generator may decode from a plan.
pub fn analysis_effective_max_frames(plan: &EpochPlan, limits: ArtifactWorkLimits) -> (r: Result<usize, Failure>)
    ensures
        match r {
            Ok(m) => !some_decode_overflows(plan.frames@) && m == effective_max_frames_spec(plan.frames@, limits),
            Err(f) => some_decode_overflows(plan.frames@) && f.code == ErrorCode::ResourceLimitExceeded,
        },
{
    let mut per_frame: usize = 0;
    let mut i: usize = 0;
    while i < plan.frames.len()
        invariant
            i <= plan.frames.len(),
            per_frame == max_decoded(plan.frames@, i as nat),
            forall|k: int| 0 <= k < i ==> (#[trigger] decoded_len_spec(plan.frames@[k].image_width, plan.frames@[k].image_height)).is_some(),
        decreases plan.frames.len() - i,
    {
        let f = plan.frames[i];
        match decoded_len(f.image_width, f.image_height) {
            Ok(v) => {
                if v > per_frame {
                    per_frame = v;
                }
            },
            Err(e) => {
                assert(decoded_len_spec(plan.frames@[i as int].image_width, plan.frames@[i as int].image_height).is_none());
                return Err(e);
            },
        }
        i = i + 1;
    }
    let divisor = if per_frame < 1 { 1 } else { per_frame };
    let by_bytes = limits.max_decoded_bytes / divisor;
    let m = if limits.max_source_frames < by_bytes { limits.max_source_frames } else { by_bytes };
    Ok(if m < 1 { 1 } else { m })
}

/// Bytes of the change masks of a plan's adjacent pairs: one bit per pixel of
/// the epoch's image, rounded up to whole bytes, for each pair.
pub open spec fn change_mask_bytes_spec(p: EpochPlanView) -> Option<usize> {
    let pixels = p.frames[0].image_width * p.frames[0].image_height;
    let pairs = if p.frames.len() == 0 { 0 } else { p.frames.len() - 1 };
    if pixels > usize::MAX || pixels + 7 > usize::MAX || pairs * ((pixels + 7) / 8) > usize::MAX {
        None
    } else {
        Some((pairs * ((pixels + 7) / 8)) as usize)
    }
}

/// The change-mask bytes a shared analysis of a plan keeps alive.
pub fn estimated_change_mask_bytes(plan: &EpochPlan) -> (r: Result<usize, Failure>)
    requires
        plan.frames.len() > 0,
    ensures
        match r {
            Ok(v) => change_mask_bytes_spec(plan@) == Some(v),
            Err(f) => change_mask_bytes_spec(plan@).is_none() && f.code == ErrorCode::ResourceLimitExceeded,
        },
{
    let w = plan.frames[0].image_width as usize;
    let h = plan.frames[0].image_height as usize;
    let pixels = match w.checked_mul(h) {
        Some(v) => v,
        None => {
            return Err(limit_error("change-mask byte estimate overflows"));
        },
    };
    let rounded = match pixels.checked_add(7) {
        Some(v) => v,
        None => {
            return Err(limit_error("change-mask byte estimate overflows"));
        },
    };
    let per_pair = rounded / 8;
    let pairs = plan.frames.len() - 1;
    match pairs.checked_mul(per_pair) {
        Some(v) => Ok(v),
        None => Err(limit_error("change-mask byte estimate overflows")),
    }
}

// ----- generator frame budgets -----

/// How a difference map counts change.
#[derive(Clone, Copy, Debug, PartialEq, Eq, Structural)]
pub enum FrequencyMode {
    Count,
    Magnitude,
    NormalizedFrequency,
}

/// Whether one generator's failure fails the whole request.
#[derive(Clone, Copy, Debug, PartialEq, Eq, Structural)]
pub enum FailurePolicy {
    RequireAll,
    AllowPartial,
}

/// How an analysis generator samples its source frames.
#[derive(Clone, Copy, Debug, PartialEq, Eq, Structural)]
pub enum Sampling {
    Exhaustive,
    UniformBounded,
}

/// What frame planning reads of one requested generator. Identities are frame
/// identities; `reference` is set only for an explicitly named reference frame.
#[derive(Clone, Copy, Debug, PartialEq, Eq, Structural)]
pub enum GeneratorPlanRequest {
    Storyboard { tile_limit: u8 },
    RegionFilmstrip { tile_limit: u8, locator: Option<u128> },
    DifferenceMap { frequency_mode: FrequencyMode, sampling: Sampling, reference: Option<u128> },
    MotionHistory { sampling: Sampling, reference: Option<u128> },
}

/// The frames a generator keeps of an epoch plan.
#[derive(Clone, Copy, Debug, PartialEq, Eq, Structural)]
pub enum FrameBudget {
    /// Every frame of the plan.
    All,
    /// At most `max_frames` frames, uniformly selected, keeping `required`.
    Bounded { max_frames: usize, required: Option<u128> },
}

/// The frame budget of a generator, or the resource limit it breaks: count and
/// magnitude difference maps and exhaustive analysis must fit the effective
/// frame limit whole.
pub open spec fn frame_budget_spec(g: GeneratorPlanRequest, n: int, emf: int) -> Option<FrameBudget> {
    match g {
        GeneratorPlanRequest::Storyboard { tile_limit } => Some(FrameBudget::Bounded { max_frames: tile_limit as usize, required: None }),
        GeneratorPlanRequest::RegionFilmstrip { tile_limit, locator } => Some(FrameBudget::Bounded { max_frames: tile_limit as usize, required: locator }),
        GeneratorPlanRequest::DifferenceMap { frequency_mode, sampling, reference } => {
            if frequency_mode != FrequencyMode::NormalizedFrequency && n > emf {
                None
            } else {
                sampling_budget(sampling, reference, n, emf)
            }
        },
        GeneratorPlanRequest::MotionHistory { sampling, reference } => sampling_budget(sampling, reference, n, emf),
    }
}

pub open spec fn sampling_budget(sampling: Sampling, reference: Option<u128>, n: int, emf: int) -> Option<FrameBudget> {
    match sampling {
        Sampling::Exhaustive => if n > emf { None } else { Some(FrameBudget::All) },
        Sampling::UniformBounded => Some(FrameBudget::Bounded { max_frames: emf as usize, required: reference }),
    }
}

pub open spec fn is_analysis(g: GeneratorPlanRequest) -> bool {
    g is DifferenceMap || g is MotionHistory
}

/// The frames a generator may keep of an epoch plan.
pub fn generator_frame_budget(g: GeneratorPlanRequest, plan: &EpochPlan, limits: ArtifactWorkLimits) -> (r: Result<FrameBudget, Failure>)
    ensures
        !is_analysis(g) ==> r == Ok::<FrameBudget, Failure>(frame_budget_spec(g, plan.frames.len() as int, 0).unwrap()),
        is_analysis(g) ==> match r {
            Ok(b) => !some_decode_overflows(plan.frames@)
                && frame_budget_spec(g, plan.frames.len() as int, effective_max_frames_spec(plan.frames@, limits)) == Some(b),
            Err(f) => f.code == ErrorCode::ResourceLimitExceeded && (some_decode_overflows(plan.frames@)
                || frame_budget_spec(g, plan.frames.len() as int, effective_max_frames_spec(plan.frames@, limits)).is_none()),
        },
{
    let n = plan.frames.len();
    match g {
        GeneratorPlanRequest::Storyboard { tile_limit } => Ok(FrameBudget::Bounded { max_frames: tile_limit as usize, required: None }),
        GeneratorPlanRequest::RegionFilmstrip { tile_limit, locator } => Ok(FrameBudget::Bounded { max_frames: tile_limit as usize, required: locator }),
        GeneratorPlanRequest::DifferenceMap { frequency_mode, sampling, reference } => {
            let emf = analysis_effective_max_frames(plan, limits)?;
            let counting = match frequency_mode {
                FrequencyMode::NormalizedFrequency => false,
                _ => true,
            };
            if counting && n > emf {
                return Err(limit_error("count-mode and magnitude-mode difference map source frames exceed the limit; narrow the range, or switch to frequency_mode normalized_frequency"));
            }
            sampled_budget(sampling, reference, n, emf)
        },
        GeneratorPlanRequest::MotionHistory { sampling, reference } => {
            let emf = analysis_effective_max_frames(plan, limits)?;
            sampled_budget(sampling, reference, n, emf)
        },
    }
}

fn sampled_budget(sampling: Sampling, reference: Option<u128>, n: usize, emf: usize) -> (r: Result<FrameBudget, Failure>)
    ensures
        match r {
            Ok(b) => sampling_budget(sampling, reference, n as int, emf as int) == Some(b),
            Err(f) => sampling_budget(sampling, reference, n as int, emf as int).is_none() && f.code == ErrorCode::ResourceLimitExceeded,
        },
{
    match sampling {
        Sampling::Exhaustive => {
            if n > emf {
                Err(limit_error("exhaustive analysis source plan exceeds the frame and decoded-byte limits; narrow the resolved range, or use uniform_bounded sampling"))
            } else {
                Ok(FrameBudget::All)
            }
        },
        Sampling::UniformBounded => Ok(FrameBudget::Bounded { max_frames: emf, required: reference }),
    }
}

/// A generator's planned frames must decode within the decoded-byte limit.
pub fn check_generator_plan(plan: EpochPlan, limits: ArtifactWorkLimits) -> (r: Result<EpochPlan, Failure>)
    ensures
        match r {
            Ok(p) => plan.decoded_bytes <= limits.max_decoded_bytes && p@ == plan@,
            Err(f) => plan.decoded_bytes > limits.max_decoded_bytes && f.code == ErrorCode::ResourceLimitExceeded,
        },
{
    if plan.decoded_bytes > limits.max_decoded_bytes {
        return Err(limit_error("decoded source-frame bytes exceed the limit; narrow the range, since source frames are decoded at their original dimensions before normalization"));
    }
    Ok(plan)
}

// ----- outputs and memory -----

/// Output slots of a request: one per epoch, generator and output kind.
pub open spec fn kinds_total(kinds: Seq<usize>, n: nat) -> int
    decreases n,
{
    if n == 0 { 0 } else { kinds_total(kinds, (n - 1) as nat) + kinds[n - 1] }
}

/// The number of output slots of `epochs` epochs whose generators produce
/// `kinds[g]` outputs each, when it fits the output limit.
pub fn potential_outputs(epochs: usize, kinds: &Vec<usize>, limits: ArtifactWorkLimits) -> (r: Result<usize, Failure>)
    requires
        kinds_total(kinds@, kinds.len() as nat) <= usize::MAX,
    ensures
        match r {
            Ok(v) => v == epochs * kinds_total(kinds@, kinds.len() as nat) && v <= limits.max_outputs,
            Err(f) => epochs * kinds_total(kinds@, kinds.len() as nat) > limits.max_outputs && f.code == ErrorCode::ResourceLimitExceeded,
        },
{
    let mut total: usize = 0;
    let mut i: usize = 0;
    while i < kinds.len()
        invariant
            i <= kinds.len(),
            total == kinds_total(kinds@, i as nat),
            kinds_total(kinds@, kinds.len() as nat) <= usize::MAX,
        decreases kinds.len() - i,
    {
        proof { lemma_kinds_total_monotone(kinds@, (i + 1) as nat, kinds.len() as nat); }
        total = total + kinds[i];
        i = i + 1;
    }
    match epochs.checked_mul(total) {
        Some(v) => {
            if v > limits.max_outputs {
                Err(limit_error("artifact output count exceeds the configured limit"))
            } else {
                Ok(v)
            }
        },
        None => Err(limit_error("artifact output count overflows")),
    }
}

proof fn lemma_kinds_total_monotone(kinds: Seq<usize>, a: nat, b: nat)
    requires
        a <= b <= kinds.len(),
    ensures
        kinds_total(kinds, a) <= kinds_total(kinds, b),
    decreases b - a,
{
    if a < b {
        lemma_kinds_total_monotone(kinds, a, (b - 1) as nat);
    }
}

/// The memory decision for one generator group.
#[derive(Clone, Copy, Debug, PartialEq, Eq, Structural)]
pub enum GroupMemory {
    /// Reserve `base` bytes, and `shared_mask` more for change masks shared with
    /// other generators of the cohort.
    Admitted { base: usize, shared_mask: usize },
    /// The group cannot run within the normalized or combined memory limits.
    OverLimit,
}

pub open spec fn group_memory_spec(
    decoded: usize,
    normalized: usize,
    output_reservation: usize,
    mask_estimate: usize,
    limits: ArtifactWorkLimits,
) -> Option<GroupMemory> {
    let base = decoded + normalized + output_reservation;
    if base > usize::MAX {
        None
    } else {
        let shared = if normalized + mask_estimate <= limits.max_normalized_bytes
            && base + mask_estimate <= limits.max_combined_request_bytes { mask_estimate as int } else { 0 };
        if normalized > limits.max_normalized_bytes || base + shared > limits.max_combined_request_bytes {
            Some(GroupMemory::OverLimit)
        } else {
            Some(GroupMemory::Admitted { base: base as usize, shared_mask: shared as usize })
        }
    }
}

/// Memory for one generator group: its decoded frames, its normalized frames and
/// its largest output are reserved together; shared change masks are reserved
/// only when they fit both the normalized and the combined limits.
pub fn plan_group_memory(
    decoded: usize,
    normalized: usize,
    output_reservation: usize,
    mask_estimate: usize,
    limits: ArtifactWorkLimits,
) -> (r: Result<GroupMemory, Failure>)
    ensures
        match r {
            Ok(g) => group_memory_spec(decoded, normalized, output_reservation, mask_estimate, limits) == Some(g),
            Err(f) => group_memory_spec(decoded, normalized, output_reservation, mask_estimate, limits).is_none()
                && f.code == ErrorCode::ResourceLimitExceeded,
        },
{
    let base = match decoded.checked_add(normalized) {
        Some(v) => match v.checked_add(output_reservation) {
            Some(b) => b,
            None => {
                return Err(limit_error("combined artifact memory estimate overflows"));
            },
        },
        None => {
            return Err(limit_error("combined artifact memory estimate overflows"));
        },
    };
    let fits_normalized = match normalized.checked_add(mask_estimate) {
        Some(v) => v <= limits.max_normalized_bytes,
        None => false,
    };
    let fits_combined = match base.checked_add(mask_estimate) {
        Some(v) => v <= limits.max_combined_request_bytes,
        None => false,
    };
    let shared = if fits_normalized && fits_combined { mask_estimate } else { 0 };
    let over = normalized > limits.max_normalized_bytes || match base.checked_add(shared) {
        Some(v) => v > limits.max_combined_request_bytes,
        None => true,
    };
    if over {
        Ok(GroupMemory::OverLimit)
    } else {
        Ok(GroupMemory::Admitted { base, shared_mask: shared })
    }
}

/// Adds one generated output to the running output total: the new total, and
/// whether the output is within the total output limit.
pub fn admit_output(total: usize, output_len: usize, limits: ArtifactWorkLimits) -> (r: Result<(usize, bool), Failure>)
    ensures
        match r {
            Ok((t, admitted)) => t == total + output_len && admitted == (t <= limits.max_output_bytes_total),
            Err(f) => total + output_len > usize::MAX && f.code == ErrorCode::ResourceLimitExceeded,
        },
{
    match total.checked_add(output_len) {
        Some(t) => Ok((t, t <= limits.max_output_bytes_total)),
        None => Err(limit_error("generated output byte count overflows")),
    }
}

/// How an available artifact was obtained.
#[derive(Clone, Copy, Debug, PartialEq, Eq, Structural)]
pub enum CacheDisposition {
    Hit,
    Generated,
    RegeneratedAfterInvalidation,
}

/// A reused artifact is a hit; a generated one replaces an invalidated entry or
/// fills a miss.
pub fn disposition(generated: bool, invalidated: bool) -> (d: CacheDisposition)
    ensures
        d == (if !generated { CacheDisposition::Hit } else if invalidated { CacheDisposition::RegeneratedAfterInvalidation } else { CacheDisposition::Generated }),
{
    if !generated {
        CacheDisposition::Hit
    } else if invalidated {
        CacheDisposition::RegeneratedAfterInvalidation
    } else {
        CacheDisposition::Generated
    }
}

// ----- generator preparation -----

/// Output bytes reserved while a generator runs: its effective encoded-size
/// bound for each output it produces.
pub fn reserved_output_bytes(output: OutputLimits, output_kinds: usize, limits: ArtifactWorkLimits) -> (r: Result<usize, Failure>)
    ensures
        match r {
            Ok(v) => reservation_spec(output, output_kinds, limits) == Some(v),
            Err(f) => reservation_spec(output, output_kinds, limits).is_none() && f.code == ErrorCode::ResourceLimitExceeded,
        },
{
    let each = encoded_limit(output, limits)?;
    match output_kinds.checked_mul(each) {
        Some(v) => Ok(v),
        None => Err(limit_error("artifact output reservation overflows")),
    }
}

/// The request with its scale materialized, when it fits the limits.
pub open spec fn materialized_spec(n: NormalizationRequest, w: u32, h: u32, frames: usize, limits: ArtifactWorkLimits) -> Option<NormalizationRequest> {
    if n.scale == crate::normalization::AnalysisScale::FitLimits {
        match fit_scale_spec(n, w, h, frames, limits) {
            Some(s) => Some(NormalizationRequest { scale: s, ..n }),
            None => None,
        }
    } else if fits_normalized_spec(n, w, h, frames, limits) {
        Some(n)
    } else {
        None
    }
}

/// The output reservation of a generator, when it fits the platform.
pub open spec fn reservation_spec(output: OutputLimits, kinds: usize, limits: ArtifactWorkLimits) -> Option<usize> {
    let each = if output.max_encoded_bytes < limits.max_output_bytes_each { output.max_encoded_bytes as int } else { limits.max_output_bytes_each as int };
    if output.max_encoded_bytes > usize::MAX || each == 0 || kinds * each > usize::MAX {
        None
    } else {
        Some((kinds * each) as usize)
    }
}

/// A prepared generator (materialized normalization, normalized bytes, output
/// reservation), or `None` when it breaks a limit.
pub open spec fn prepare_spec(
    normalization: Option<NormalizationRequest>,
    output: OutputLimits,
    kinds: usize,
    plan: EpochPlanView,
    limits: ArtifactWorkLimits,
) -> Option<(Option<NormalizationRequest>, usize, usize)> {
    let w = plan.frames[0].image_width;
    let h = plan.frames[0].image_height;
    let f = plan.frames.len() as usize;
    let m: Option<Option<NormalizationRequest>> = match normalization {
        None => Some(None),
        Some(n) => match materialized_spec(n, w, h, f, limits) {
            Some(x) => Some(Some(x)),
            None => None,
        },
    };
    match m {
        None => None,
        Some(mz) => if !(output.max_width <= limits.max_dimension && output.max_height <= limits.max_dimension
            && output.max_encoded_bytes <= limits.max_output_bytes_each) {
            None
        } else {
            match normalized_bytes_spec(mz, w, h, f) {
                None => None,
                Some(nb) => match reservation_spec(output, kinds, limits) {
                    None => None,
                    Some(res) => if plan.decoded_bytes + nb + res > limits.max_combined_request_bytes { None } else { Some((mz, nb, res)) },
                },
            }
        },
    }
}

/// The code of a failed preparation: a generation failure when an explicit
/// downscale does not divide the frame size, a resource-limit failure otherwise.
pub open spec fn prepare_error_code(normalization: Option<NormalizationRequest>, w: u32, h: u32) -> ErrorCode {
    match normalization {
        Some(n) => if n.scale != crate::normalization::AnalysisScale::FitLimits {
            crate::normalization::sizing_error_code(n, w, h)
        } else {
            ErrorCode::ResourceLimitExceeded
        },
        None => ErrorCode::ResourceLimitExceeded,
    }
}

/// A generator prepared against one epoch plan: its normalization with the scale
/// materialized, and the memory it will reserve.
#[derive(Debug)]
pub struct PreparedGenerator {
    pub normalization: Option<NormalizationRequest>,
    pub normalized_bytes: usize,
    pub output_reservation: usize,
}

/// Prepares a generator for an epoch plan: a "fit limits" scale becomes the
/// smallest exact downscale that fits, the normalized sequence and the requested
/// outputs must fit their limits, and the plan's decoded frames, the normalized
/// sequence and the output reservation must fit the combined request budget
/// together.
pub fn prepare_generator(
    normalization: Option<NormalizationRequest>,
    output: OutputLimits,
    output_kinds: usize,
    plan: &EpochPlan,
    limits: ArtifactWorkLimits,
) -> (r: Result<PreparedGenerator, Failure>)
    requires
        plan.frames.len() > 0,
        normalization matches Some(n) ==> scale_factor_positive(n),
    ensures
        match r {
            Ok(p) => prepare_spec(normalization, output, output_kinds, plan@, limits)
                == Some((p.normalization, p.normalized_bytes, p.output_reservation)),
            Err(f) => prepare_spec(normalization, output, output_kinds, plan@, limits).is_none()
                && f.code == prepare_error_code(normalization, plan.frames@[0].image_width, plan.frames@[0].image_height),
        },
{
    let w = plan.frames[0].image_width;
    let h = plan.frames[0].image_height;
    let frames = plan.frames.len();
    let materialized = match normalization {
        Some(n) => {
            let m = materialize_scale(n, w, h, frames, limits)?;
            proof {
                if m.scale == crate::normalization::AnalysisScale::FitLimits {
                    assert(!fits_normalized_spec(m, w, h, frames, limits));
                }
            }
            Some(m)
        },
        None => None,
    };
    validate_output_limits(output, limits)?;
    let normalized_bytes = estimated_normalized_bytes(materialized, w, h, frames)?;
    let output_reservation = reserved_output_bytes(output, output_kinds, limits)?;
    let total = match plan.decoded_bytes.checked_add(normalized_bytes) {
        Some(v) => v.checked_add(output_reservation),
        None => None,
    };
    match total {
        Some(t) => {
            if t > limits.max_combined_request_bytes {
                return Err(limit_error("artifact generator exceeds the combined request memory budget"));
            }
        },
        None => {
            return Err(limit_error("artifact generator memory estimate overflows"));
        },
    }
    Ok(PreparedGenerator { normalization: materialized, normalized_bytes, output_reservation })
}


/// The change-mask bytes a generator group shares with its cohort: the plan's
/// mask estimate when more than one group of the cohort analyses the same
/// normalized frames and one of them wants change masks, nothing otherwise.
pub fn cohort_mask_estimate(cohort_groups: usize, wants_masks: bool, plan: &EpochPlan) -> (r: Result<usize, Failure>)
    requires
        plan.frames.len() > 0,
    ensures
        match r {
            Ok(v) => if cohort_groups > 1 && wants_masks { change_mask_bytes_spec(plan@) == Some(v) } else { v == 0 },
            Err(f) => cohort_groups > 1 && wants_masks && change_mask_bytes_spec(plan@).is_none()
                && f.code == ErrorCode::ResourceLimitExceeded,
        },
{
    if cohort_groups > 1 && wants_masks {
        estimated_change_mask_bytes(plan)
    } else {
        Ok(0)
    }
}

/// The identity of the frames an analysis reads: each planned frame with its
/// position among the epoch's source frames.
pub fn analysis_plan_identity(plan: &EpochPlan) -> (r: Vec<(u128, usize)>)
    requires
        plan.source_indices.len() == plan.frames.len(),
    ensures
        r@.len() == plan.frames.len(),
        forall|i: int| 0 <= i < r.len() ==> #[trigger] r@[i] == (plan.frames@[i].frame_id, plan.source_indices@[i]),
{
    let mut out: Vec<(u128, usize)> = Vec::new();
    let mut i: usize = 0;
    while i < plan.frames.len()
        invariant
            i <= plan.frames.len(),
            plan.source_indices.len() == plan.frames.len(),
            out.len() == i,
            forall|j: int| 0 <= j < i ==> #[trigger] out@[j] == (plan.frames@[j].frame_id, plan.source_indices@[j]),
        decreases plan.frames.len() - i,
    {
        out.push((plan.frames[i].frame_id, plan.source_indices[i]));
        i = i + 1;
    }
    out
}

} // verus!
