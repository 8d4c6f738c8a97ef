//! Composition decisions of the temporal debug bundle: its header summary, its
//! per-epoch visual summaries, its degradations and warnings, and which
//! failures end a bundle outright.
//!
//! The summary speaks only of what was observed, measured, selected or
//! co-occurred nearest by session time, and always states that measurements and
//! proximity do not establish diagnosis or causality.
use vstd::prelude::*;

use crate::errors::{ErrorCode, ErrorContext, Failure, RetryAdvice, no_context};
use crate::ids::{uuid_string, uuid_text};
use crate::markers::BundleWarning;
use crate::generation::{FailurePolicy, FrequencyMode};
use crate::normalization::{AnalysisScale, FrameSelector, NormalizationRequest, OutputLimits};
use crate::order::{SortKey, SortKeyView, key_views, stable_order, stable_sort_order};
use crate::spans::SessionSpan;
use crate::text::{decimal, digit_char, push_decimal};

verus! {

/// Most UTF-8 bytes of a bundle header summary.
pub const MAX_BUNDLE_HEADER_BYTES: usize = 512;

pub open spec fn change_sentence(has_focus: bool) -> Seq<char> {
    if has_focus {
        "Visual changes measured at selected storyboard moments."@
    } else {
        "No thresholded visual change was measured in retained comparable frames."@
    }
}

/// The header summary of a bundle over a resolved range.
pub open spec fn summary_text(target_id: u128, start: u64, end: u64, frame_count: nat, has_focus: bool) -> Seq<char> {
    "Observed target "@ + uuid_text(target_id) + " from "@ + decimal(start as nat) + " to "@ + decimal(end as nat)
        + " ns. "@ + decimal(frame_count) + " source frames retained. "@ + change_sentence(has_focus)
        + " Browser events co-occurred nearest by session-time distance. Measurements and proximity do not establish diagnosis or causality."@
}

pub open spec fn pow10(k: nat) -> nat
    decreases k,
{
    if k == 0 { 1 } else { 10 * pow10((k - 1) as nat) }
}

proof fn lemma_decimal_len(n: nat, k: nat)
    requires
        k >= 1,
        n < pow10(k),
    ensures
        decimal(n).len() <= k,
    decreases k,
{
    if n >= 10 {
        assert(k >= 2) by {
            if k == 1 {
                assert(pow10(1) == 10) by { reveal_with_fuel(pow10, 2); }
            }
        }
        assert(n / 10 < pow10((k - 1) as nat)) by {
            assert(pow10(k) == 10 * pow10((k - 1) as nat));
        }
        lemma_decimal_len(n / 10, (k - 1) as nat);
    }
}

proof fn lemma_u64_decimal_len(n: u64)
    ensures
        decimal(n as nat).len() <= 20,
{
    assert(pow10(20) == 100_000_000_000_000_000_000) by {
        reveal_with_fuel(pow10, 21);
    }
    lemma_decimal_len(n as nat, 20);
}

/// Composes the header summary: the target, the resolved span in nanoseconds,
/// the retained frame count and whether visual change was measured. The text is
/// ASCII and always within `MAX_BUNDLE_HEADER_BYTES`.
pub fn compose_summary(target_id: u128, resolved: SessionSpan, frame_count: usize, has_focus: bool) -> (r: Result<String, Failure>)
    ensures
        r matches Ok(text) && text@ == summary_text(target_id, resolved.start, resolved.end, frame_count as nat, has_focus)
            && text@.len() <= MAX_BUNDLE_HEADER_BYTES,
{
    proof {
        reveal_strlit("Observed target ");
        reveal_strlit(" from ");
        reveal_strlit(" to ");
        reveal_strlit(" ns. ");
        reveal_strlit(" source frames retained. ");
        reveal_strlit("Visual changes measured at selected storyboard moments.");
        reveal_strlit("No thresholded visual change was measured in retained comparable frames.");
        reveal_strlit(" Browser events co-occurred nearest by session-time distance. Measurements and proximity do not establish diagnosis or causality.");
        lemma_u64_decimal_len(resolved.start);
        lemma_u64_decimal_len(resolved.end);
        lemma_u64_decimal_len(frame_count as u64);
    }
    let mut text = String::from_str("Observed target ");
    let target = uuid_string(target_id);
    text.append(target.as_str());
    text.append(" from ");
    push_decimal(&mut text, resolved.start);
    text.append(" to ");
    push_decimal(&mut text, resolved.end);
    text.append(" ns. ");
    push_decimal(&mut text, frame_count as u64);
    text.append(" source frames retained. ");
    if has_focus {
        text.append("Visual changes measured at selected storyboard moments.");
    } else {
        text.append("No thresholded visual change was measured in retained comparable frames.");
    }
    text.append(" Browser events co-occurred nearest by session-time distance. Measurements and proximity do not establish diagnosis or causality.");
    assert(text@ =~= summary_text(target_id, resolved.start, resolved.end, frame_count as nat, has_focus));
    Ok(text)
}

/// Per-epoch visual summaries: for each epoch with an available storyboard
/// trace, the position of its first such outcome, in epoch order.
pub open spec fn epoch_key(e: u32) -> SortKeyView {
    (e as u64, 0u64, 0u64, 0u128, Seq::<u8>::empty())
}

/// The candidate epochs of the outcomes that carry a storyboard trace.
pub open spec fn trace_candidates(epochs: Seq<Option<u32>>, n: nat) -> Seq<(u32, usize)>
    decreases n,
{
    if n == 0 {
        Seq::empty()
    } else {
        let rest = trace_candidates(epochs, (n - 1) as nat);
        match epochs[n - 1] {
            Some(e) => rest.push((e, (n - 1) as usize)),
            None => rest,
        }
    }
}

pub open spec fn candidate_keys(cs: Seq<(u32, usize)>) -> Seq<SortKeyView> {
    cs.map_values(|c: (u32, usize)| epoch_key(c.0))
}

/// The first entry of each run of equal epochs among the first `n`.
pub open spec fn first_per_epoch(sorted: Seq<(u32, usize)>, n: nat) -> Seq<(u32, usize)>
    decreases n,
{
    if n == 0 {
        Seq::empty()
    } else {
        let rest = first_per_epoch(sorted, (n - 1) as nat);
        if n >= 2 && sorted[n - 2].0 == sorted[n - 1].0 { rest } else { rest.push(sorted[n - 1]) }
    }
}

pub open spec fn epoch_summaries_spec(epochs: Seq<Option<u32>>) -> Seq<(u32, usize)> {
    let cs = trace_candidates(epochs, epochs.len());
    let order = stable_order(candidate_keys(cs), cs.len());
    let sorted = Seq::new(cs.len(), |i: int| cs[order[i] as int]);
    first_per_epoch(sorted, sorted.len())
}

/// Selects the per-epoch visual summaries. `epochs[i]` is the epoch of outcome
/// `i` when it is an available storyboard carrying a selection trace. The
/// result pairs each such epoch, in ascending order and once, with the first
/// outcome that carries it.
pub fn extract_epoch_summaries(epochs: &Vec<Option<u32>>) -> (r: Vec<(u32, usize)>)
    requires
        epochs.len() <= u64::MAX,
    ensures
        r@ == epoch_summaries_spec(epochs@),
{
    let mut cs: Vec<(u32, usize)> = Vec::new();
    let mut i: usize = 0;
    while i < epochs.len()
        invariant
            i <= epochs.len(),
            cs@ == trace_candidates(epochs@, i as nat),
            cs@.len() <= i,
        decreases epochs.len() - i,
    {
        match epochs[i] {
            Some(e) => {
                cs.push((e, i));
            },
            None => {},
        }
        i = i + 1;
    }
    let mut keys: Vec<SortKey> = Vec::new();
    let mut k: usize = 0;
    while k < cs.len()
        invariant
            k <= cs.len(),
            key_views(keys@) == candidate_keys(cs@).take(k as int),
        decreases cs.len() - k,
    {
        let ghost before = keys@;
        let key = SortKey { k0: cs[k].0 as u64, k1: 0, k2: 0, k3: 0, tail: Vec::new() };
        assert(key@ == epoch_key(cs@[k as int].0));
        keys.push(key);
        assert(keys@ == before.push(key));
        assert(key_views(keys@) =~= key_views(before).push(key@));
        assert(candidate_keys(cs@).take(k + 1) =~= candidate_keys(cs@).take(k as int).push(epoch_key(cs@[k as int].0)));
        k = k + 1;
    }
    assert(key_views(keys@) =~= candidate_keys(cs@));
    let order = stable_sort_order(&keys);
    proof {
        crate::order::lemma_stable_order_sorted_permutation(candidate_keys(cs@), cs@.len());
    }
    let ghost sorted = Seq::new(cs@.len(), |j: int| cs@[order@[j] as int]);
    let mut out: Vec<(u32, usize)> = Vec::new();
    let mut j: usize = 0;
    while j < order.len()
        invariant
            j <= order.len(),
            order.len() == cs.len(),
            order@ == stable_order(candidate_keys(cs@), cs@.len()),
            forall|q: int| 0 <= q < order.len() ==> (#[trigger] order@[q]) < cs.len(),
            sorted == Seq::new(cs@.len(), |q: int| cs@[order@[q] as int]),
            out@ == first_per_epoch(sorted, j as nat),
        decreases order.len() - j,
    {
        let c = cs[order[j]];
        if j >= 1 && cs[order[j - 1]].0 == c.0 {
        } else {
            out.push(c);
        }
        j = j + 1;
    }
    out
}

/// What the bundle can say about visual change.
#[derive(Clone, Copy, Debug, PartialEq, Eq, Structural)]
pub enum VisualEvidenceState {
    /// No storyboard trace is available; nothing was measured.
    Unavailable,
    MeasuredChange,
    MeasuredNoChange,
}

/// Without an available storyboard trace the bundle never reports "no change":
/// that would assert a measurement it never made.
pub fn classify_visual_evidence(has_storyboard_trace: bool, has_focus: bool) -> (s: VisualEvidenceState)
    ensures
        s == (if !has_storyboard_trace { VisualEvidenceState::Unavailable } else if has_focus {
            VisualEvidenceState::MeasuredChange
        } else {
            VisualEvidenceState::MeasuredNoChange
        }),
{
    if !has_storyboard_trace {
        VisualEvidenceState::Unavailable
    } else if has_focus {
        VisualEvidenceState::MeasuredChange
    } else {
        VisualEvidenceState::MeasuredNoChange
    }
}

/// A failure after the range was resolved ends the bundle when evidence is gone,
/// the request was cancelled, or the deadline passed.
pub fn is_fatal_after_resolution(code: ErrorCode, deadline_passed: bool) -> (r: bool)
    ensures
        r == (code == ErrorCode::NotFound || code == ErrorCode::Cancelled || deadline_passed),
{
    match code {
        ErrorCode::NotFound | ErrorCode::Cancelled => true,
        _ => deadline_passed,
    }
}

/// A component of the bundle that is unavailable or partial.
#[derive(Clone, Copy, Debug, PartialEq, Eq, Structural)]
pub enum Degradation {
    MarkerContextUnavailable,
    ArtifactOutcomesUnavailable { unavailable: u16, total: u16 },
    ArtifactRequestUnavailable,
    ContextUnavailable,
}

/// A count as 16 bits, saturating.
pub open spec fn sat_u16(n: nat) -> u16 {
    if n > u16::MAX { u16::MAX } else { n as u16 }
}

/// The degradations of a bundle, in order: marker context, artifacts (some
/// outcomes unavailable, or the whole request), then context. `artifacts` is
/// `(total, unavailable)` outcome counts when artifact generation answered.
pub open spec fn degradations_spec(marker_degraded: bool, artifacts: Option<(usize, usize)>, context_available: bool) -> Seq<Degradation> {
    let m: Seq<Degradation> = if marker_degraded { seq![Degradation::MarkerContextUnavailable] } else { Seq::empty() };
    let a: Seq<Degradation> = match artifacts {
        Some((total, unavailable)) => if sat_u16(unavailable as nat) > 0 && sat_u16(unavailable as nat) <= sat_u16(total as nat) {
            seq![Degradation::ArtifactOutcomesUnavailable { unavailable: sat_u16(unavailable as nat), total: sat_u16(total as nat) }]
        } else {
            Seq::empty()
        },
        None => seq![Degradation::ArtifactRequestUnavailable],
    };
    let c: Seq<Degradation> = if context_available { Seq::empty() } else { seq![Degradation::ContextUnavailable] };
    m + a + c
}

fn saturating_u16(n: usize) -> (r: u16)
    ensures
        r == sat_u16(n as nat),
{
    if n > 0xffffusize { 0xffffu16 } else { n as u16 }
}

pub fn bundle_degradations(marker_degraded: bool, artifacts: Option<(usize, usize)>, context_available: bool) -> (r: Vec<Degradation>)
    ensures
        r@ == degradations_spec(marker_degraded, artifacts, context_available),
{
    let mut out: Vec<Degradation> = Vec::new();
    if marker_degraded {
        out.push(Degradation::MarkerContextUnavailable);
    }
    match artifacts {
        Some((total, unavailable)) => {
            let t = saturating_u16(total);
            let u = saturating_u16(unavailable);
            if u > 0 && u <= t {
                out.push(Degradation::ArtifactOutcomesUnavailable { unavailable: u, total: t });
            }
        },
        None => {
            out.push(Degradation::ArtifactRequestUnavailable);
        },
    }
    if !context_available {
        out.push(Degradation::ContextUnavailable);
    }
    assert(out@ =~= degradations_spec(marker_degraded, artifacts, context_available));
    out
}

/// The scope of a resolved range attached to bundle failures.
pub open spec fn bundle_context(session_id: u128, target_id: u128, resolved: SessionSpan) -> ErrorContext {
    ErrorContext { session_id: Some(session_id), target_id: Some(target_id), range: Some(resolved) }
}

/// Source or session evidence vanished after the range was resolved.
pub fn evidence_lifetime_error(session_id: u128, target_id: u128, resolved: SessionSpan) -> (f: Failure)
    ensures
        f.code == ErrorCode::NotFound,
        f.context == bundle_context(session_id, target_id, resolved),
        f.retry == Some(RetryAdvice::AfterRecovery),
        f.message@ == "resolved source or session evidence is no longer retained; re-resolve the range"@,
        f.recovery matches Some(r) && r@ == "resolve the temporal range again before requesting a bundle"@,
{
    Failure::new(ErrorCode::NotFound, "resolved source or session evidence is no longer retained; re-resolve the range")
        .with_context(ErrorContext { session_id: Some(session_id), target_id: Some(target_id), range: Some(resolved) })
        .with_retry(RetryAdvice::AfterRecovery)
        .with_recovery("resolve the temporal range again before requesting a bundle")
}

/// Neither an artifact nor context evidence is available.
pub fn no_useful_evidence_error(session_id: u128, target_id: u128, resolved: SessionSpan) -> (f: Failure)
    ensures
        f.code == ErrorCode::ArtifactGenerationFailed,
        f.context == bundle_context(session_id, target_id, resolved),
        f.retry == Some(RetryAdvice::AfterRecovery),
        f.message@ == "temporal debug bundle has no available artifact or context evidence"@,
        f.recovery matches Some(r) && r@ == "re-resolve the range and retry; inspect recording storage if this repeats"@,
{
    Failure::new(ErrorCode::ArtifactGenerationFailed, "temporal debug bundle has no available artifact or context evidence")
        .with_context(ErrorContext { session_id: Some(session_id), target_id: Some(target_id), range: Some(resolved) })
        .with_retry(RetryAdvice::AfterRecovery)
        .with_recovery("re-resolve the range and retry; inspect recording storage if this repeats")
}

/// The bundle request was cancelled, or its deadline passed.
pub fn cancelled_error(deadline: bool) -> (f: Failure)
    ensures
        f.code == ErrorCode::Cancelled,
        f.retry == Some(RetryAdvice::Safe),
        f.message@ == (if deadline { "temporal debug bundle deadline elapsed"@ } else { "temporal debug bundle request was cancelled"@ }),
        f.context == no_context(),
{
    let message = if deadline { "temporal debug bundle deadline elapsed" } else { "temporal debug bundle request was cancelled" };
    Failure::new(ErrorCode::Cancelled, message).with_retry(RetryAdvice::Safe)
}

/// The bundle concurrency permits were closed.
pub fn permit_error() -> (f: Failure)
    ensures
        f.code == ErrorCode::ResourceLimitExceeded,
        f.retry == Some(RetryAdvice::Safe),
        f.message@ == "temporal debug bundle concurrency permit was closed"@,
{
    Failure::new(ErrorCode::ResourceLimitExceeded, "temporal debug bundle concurrency permit was closed").with_retry(RetryAdvice::Safe)
}

/// A bundle needs at least one available artifact outcome or its context.
pub fn require_useful_evidence(available_outcomes: usize, context_available: bool, session_id: u128, target_id: u128, resolved: SessionSpan) -> (r: Result<(), Failure>)
    ensures
        r is Ok <==> (available_outcomes > 0 || context_available),
        r matches Err(f) ==> f.code == ErrorCode::ArtifactGenerationFailed && f.context == bundle_context(session_id, target_id, resolved),
{
    if available_outcomes == 0 && !context_available {
        return Err(no_useful_evidence_error(session_id, target_id, resolved));
    }
    Ok(())
}

/// The bundle's warnings: an adjusted anchor first, then the marker warnings,
/// then the absence of a major visual change.
pub fn bundle_warnings(requested_anchor: u64, effective_anchor: u64, marker_warnings: Vec<BundleWarning>, has_focus: bool) -> (r: Vec<BundleWarning>)
    ensures
        r@.map_values(|w: BundleWarning| w@) == (if requested_anchor != effective_anchor {
            seq![(BundleWarning::AnchorAdjustedForRetention { requested: requested_anchor, effective: effective_anchor })@]
        } else {
            Seq::empty()
        }) + marker_warnings@.map_values(|w: BundleWarning| w@) + (if has_focus { Seq::empty() } else { seq![BundleWarning::NoMajorVisualChangeFocus@] }),
{
    let mut out: Vec<BundleWarning> = Vec::new();
    if requested_anchor != effective_anchor {
        out.push(BundleWarning::AnchorAdjustedForRetention { requested: requested_anchor, effective: effective_anchor });
    }
    let ghost head = out@.map_values(|w: BundleWarning| w@);
    let mut rest = marker_warnings;
    out.append(&mut rest);
    if !has_focus {
        out.push(BundleWarning::NoMajorVisualChangeFocus);
    }
    assert(out@.map_values(|w: BundleWarning| w@) =~= (if requested_anchor != effective_anchor {
        seq![(BundleWarning::AnchorAdjustedForRetention { requested: requested_anchor, effective: effective_anchor })@]
    } else {
        Seq::empty()
    }) + marker_warnings@.map_values(|w: BundleWarning| w@) + (if has_focus { Seq::empty() } else { seq![BundleWarning::NoMajorVisualChangeFocus@] }));
    out
}

/// Concurrency and wall-time bounds of bundle orchestration.
#[derive(Clone, Copy, Debug, PartialEq, Eq, Structural)]
pub struct BundleWorkLimits {
    pub max_active_requests: usize,
    pub max_wall_time_millis: u64,
}

impl BundleWorkLimits {
    /// Two concurrent bundles, twenty seconds each.
    pub fn default() -> (l: BundleWorkLimits)
        ensures
            l == (BundleWorkLimits { max_active_requests: 2, max_wall_time_millis: 20_000 }),
    {
        BundleWorkLimits { max_active_requests: 2, max_wall_time_millis: 20_000 }
    }
}

/// The deadline of a request that starts at `now`: the earlier of the caller's
/// deadline and `now + wall`; `None` when `now + wall` overflows. Times are
/// monotonic nanoseconds.
pub fn effective_deadline(now: u64, wall: u64, caller: Option<u64>) -> (r: Option<u64>)
    ensures
        match r {
            Some(d) => now + wall <= u64::MAX && d == (match caller {
                Some(c) => if c < now + wall { c as int } else { now + wall },
                None => now + wall,
            }),
            None => now + wall > u64::MAX,
        },
{
    let own = match now.checked_add(wall) {
        Some(v) => v,
        None => {
            return None;
        },
    };
    match caller {
        Some(c) => Some(if c < own { c } else { own }),
        None => Some(own),
    }
}

/// Storyboard tiles of the default bundle policy.
pub const STORYBOARD_TILE_LIMIT: u8 = 8;

/// Noise floor of the default bundle policy.
pub const DEFAULT_NOISE_FLOOR: u16 = 512;

/// The default storyboard of a bundle.
#[derive(Debug)]
pub struct StoryboardPolicy {
    pub anchor: u64,
    pub tile_limit: u8,
    pub noise_floor: u16,
    pub normalization: NormalizationRequest,
    pub background: (u8, u8, u8),
    pub title: String,
    pub source: String,
    pub include_orientation: bool,
    pub output: OutputLimits,
}

/// The default difference map of a bundle.
#[derive(Debug)]
pub struct DifferenceMapPolicy {
    pub reference: FrameSelector,
    pub frequency_mode: FrequencyMode,
    pub repeated_change_separation_nanos: Option<u64>,
    pub noise_floor: u16,
    pub normalization: NormalizationRequest,
    pub background: (u8, u8, u8),
    pub canvas_background: (u8, u8, u8),
    pub output: OutputLimits,
}

/// The default storyboard: at the resolved anchor, eight tiles, noise floor 512,
/// normalized at the scale that fits over black, at most 1920 x 2048 and 16 MiB,
/// with the orientation strip unless omitted.
pub open spec fn is_default_storyboard(s: StoryboardPolicy, effective_anchor: u64, include_orientation: bool) -> bool {
    &&& s.anchor == effective_anchor
    &&& s.tile_limit == 8
    &&& s.noise_floor == 512
    &&& s.normalization == (NormalizationRequest { crop: None, scale: AnalysisScale::FitLimits })
    &&& s.background == (0u8, 0u8, 0u8)
    &&& s.title@ == "TEMPORAL STORYBOARD"@
    &&& s.source@ == "KROMETRAIL RETAINED SOURCE FRAMES"@
    &&& s.include_orientation == include_orientation
    &&& s.output == (OutputLimits { max_width: 1920, max_height: 2048, max_encoded_bytes: 16_777_216 })
}

/// The default difference map: from each epoch's first frame, counting
/// normalized change frequency with no repeated-change separation, noise floor
/// 512, normalized at the scale that fits over black, at most 8192 x 8192 and 64 MiB.
pub open spec fn is_default_difference_map(d: DifferenceMapPolicy) -> bool {
    &&& d.reference == FrameSelector::First
    &&& d.frequency_mode == FrequencyMode::NormalizedFrequency
    &&& d.repeated_change_separation_nanos.is_none()
    &&& d.noise_floor == 512
    &&& d.normalization == (NormalizationRequest { crop: None, scale: AnalysisScale::FitLimits })
    &&& d.background == (0u8, 0u8, 0u8)
    &&& d.canvas_background == (0u8, 0u8, 0u8)
    &&& d.output == (OutputLimits { max_width: 8192, max_height: 8192, max_encoded_bytes: 67_108_864 })
}

/// The two generators of the default bundle policy: a storyboard at the
/// resolved anchor (eight tiles, 1920 x 2048 and 16 MiB at most, orientation
/// unless omitted) and a difference map from each epoch's first frame counting
/// normalized change frequency (8192 x 8192 and 64 MiB at most), both
/// normalized at the scale that fits the limits over a black background.
pub fn default_generators(effective_anchor: u64, include_orientation: bool) -> (r: (StoryboardPolicy, DifferenceMapPolicy))
    ensures
        is_default_storyboard(r.0, effective_anchor, include_orientation),
        is_default_difference_map(r.1),
{
    let normalization = NormalizationRequest { crop: None, scale: AnalysisScale::FitLimits };
    let storyboard = StoryboardPolicy {
        anchor: effective_anchor,
        tile_limit: STORYBOARD_TILE_LIMIT,
        noise_floor: DEFAULT_NOISE_FLOOR,
        normalization,
        background: (0, 0, 0),
        title: String::from_str("TEMPORAL STORYBOARD"),
        source: String::from_str("KROMETRAIL RETAINED SOURCE FRAMES"),
        include_orientation,
        output: OutputLimits { max_width: 1920, max_height: 2048, max_encoded_bytes: 16_777_216 },
    };
    let difference = DifferenceMapPolicy {
        reference: FrameSelector::First,
        frequency_mode: FrequencyMode::NormalizedFrequency,
        repeated_change_separation_nanos: None,
        noise_floor: DEFAULT_NOISE_FLOOR,
        normalization,
        background: (0, 0, 0),
        canvas_background: (0, 0, 0),
        output: OutputLimits { max_width: 8192, max_height: 8192, max_encoded_bytes: 67_108_864 },
    };
    (storyboard, difference)
}

/// The artifact request of a bundle: its two default generators, and partial
/// failure allowed so one failed epoch degrades the bundle instead of ending it.
#[derive(Debug)]
pub struct DefaultArtifactRequest {
    pub storyboard: StoryboardPolicy,
    pub difference_map: DifferenceMapPolicy,
    pub failure_policy: FailurePolicy,
}

pub fn default_artifact_request(effective_anchor: u64, include_orientation: bool) -> (r: DefaultArtifactRequest)
    ensures
        r.failure_policy == FailurePolicy::AllowPartial,
        is_default_storyboard(r.storyboard, effective_anchor, include_orientation),
        is_default_difference_map(r.difference_map),
{
    let (storyboard, difference_map) = default_generators(effective_anchor, include_orientation);
    DefaultArtifactRequest { storyboard, difference_map, failure_policy: FailurePolicy::AllowPartial }
}

/// Which visual epochs a bundle's artifacts cover: the epoch nearest the
/// anchor, or every epoch of the range.
#[derive(Clone, Copy, Debug, PartialEq, Eq, Structural)]
pub enum BundleEpochScope {
    Anchor,
    All,
}

/// How many browser events a bundle selects.
#[derive(Clone, Copy, Debug, PartialEq, Eq, Structural)]
pub enum EventSelection {
    /// The events nearest the anchor, at most `limit` of them.
    Compact { limit: u16 },
}

/// Events of the compact default selection.
pub const COMPACT_EVENT_LIMIT: u16 = 24;

/// The policy a bundle request is carried out with: the exact resolved anchor
/// and epoch scope, the default generators, partial artifact failure allowed,
/// every browser-event class, the compact event selection, and the focus times.
#[derive(Debug)]
pub struct EffectiveBundlePolicy {
    pub artifact_anchor: u64,
    pub epoch_scope: BundleEpochScope,
    pub artifact_generators: (StoryboardPolicy, DifferenceMapPolicy),
    pub failure_policy: FailurePolicy,
    /// Browser-event classes the bundle is restricted to; empty selects all.
    pub event_classes: Vec<String>,
    pub event_selection: EventSelection,
    pub focus_times: Vec<u64>,
}

/// Focus times a policy accepts: at most `MAX_FOCUS_TIMES`, strictly increasing.
pub open spec fn focus_times_valid(times: Seq<u64>) -> bool {
    &&& times.len() <= crate::focus::MAX_FOCUS_TIMES
    &&& forall|i: int| 0 < i < times.len() ==> #[trigger] times[i - 1] < times[i]
}

/// Builds the effective policy of a bundle from its resolved anchor, the
/// caller's orientation choice, the epoch scope and the extracted focus times;
/// an invalid-input failure when the focus times are too many or not strictly
/// increasing.
pub fn build_effective_policy(
    effective_anchor: u64,
    include_orientation: bool,
    epoch_scope: BundleEpochScope,
    focus_times: Vec<u64>,
) -> (r: Result<EffectiveBundlePolicy, Failure>)
    ensures
        match r {
            Ok(p) => focus_times_valid(focus_times@)
                && p.artifact_anchor == effective_anchor
                && p.epoch_scope == epoch_scope
                && is_default_storyboard(p.artifact_generators.0, effective_anchor, include_orientation)
                && is_default_difference_map(p.artifact_generators.1)
                && p.failure_policy == FailurePolicy::AllowPartial
                && p.event_classes@.len() == 0
                && p.event_selection == (EventSelection::Compact { limit: 24 })
                && p.focus_times@ == focus_times@,
            Err(f) => !focus_times_valid(focus_times@) && f.code == ErrorCode::InvalidInput,
        },
{
    if focus_times.len() > crate::focus::MAX_FOCUS_TIMES {
        return Err(Failure::new(ErrorCode::InvalidInput, "bundle focus times exceed the maximum count"));
    }
    let mut i: usize = 1;
    while i < focus_times.len()
        invariant
            1 <= i,
            forall|k: int| 0 < k < i && k < focus_times.len() ==> #[trigger] focus_times@[k - 1] < focus_times@[k],
        decreases focus_times.len() - i,
    {
        if focus_times[i - 1] >= focus_times[i] {
            return Err(Failure::new(ErrorCode::InvalidInput, "bundle focus times must be strictly increasing"));
        }
        i = i + 1;
    }
    Ok(EffectiveBundlePolicy {
        artifact_anchor: effective_anchor,
        epoch_scope,
        artifact_generators: default_generators(effective_anchor, include_orientation),
        failure_policy: FailurePolicy::AllowPartial,
        event_classes: Vec::new(),
        event_selection: EventSelection::Compact { limit: COMPACT_EVENT_LIMIT },
        focus_times,
    })
}


/// Position of the first summary of epoch `epoch_index` among the first `n`.
pub open spec fn summary_position(summaries: Seq<(u32, usize)>, epoch_index: u32, n: nat) -> Option<int>
    decreases n,
{
    if n == 0 {
        None
    } else {
        match summary_position(summaries, epoch_index, (n - 1) as nat) {
            Some(p) => Some(p),
            None => if summaries[n - 1].0 == epoch_index { Some(n - 1) } else { None },
        }
    }
}

/// The visual summary of one epoch: the outcome of the first summary that
/// names it.
pub fn epoch_summary(summaries: &Vec<(u32, usize)>, epoch_index: u32) -> (r: Option<usize>)
    ensures
        r == (match summary_position(summaries@, epoch_index, summaries.len() as nat) {
            Some(p) => Some(summaries@[p].1),
            None => None::<usize>,
        }),
{
    let mut i: usize = 0;
    while i < summaries.len()
        invariant
            i <= summaries.len(),
            summary_position(summaries@, epoch_index, i as nat).is_none(),
        decreases summaries.len() - i,
    {
        if summaries[i].0 == epoch_index {
            proof {
                lemma_summary_position_found(summaries@, epoch_index, i as int, summaries.len() as nat);
            }
            return Some(summaries[i].1);
        }
        i = i + 1;
    }
    None
}

proof fn lemma_summary_position_found(summaries: Seq<(u32, usize)>, epoch_index: u32, i: int, n: nat)
    requires
        0 <= i < n <= summaries.len(),
        summary_position(summaries, epoch_index, i as nat).is_none(),
        summaries[i].0 == epoch_index,
    ensures
        summary_position(summaries, epoch_index, n) == Some(i),
    decreases n,
{
    if n > i + 1 {
        lemma_summary_position_found(summaries, epoch_index, i, (n - 1) as nat);
    }
}

} // verus!
