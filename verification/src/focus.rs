//! Deterministic major-change focus extraction from typed storyboard traces.
//!
//! Focus times drive the one compact context request a bundle issues after
//! artifact generation. Only available storyboard traces are read: their three
//! visual-summary moments and the selected frames that carry a major-change
//! reason.
use vstd::prelude::*;

use crate::order::{
    SortKey, SortKeyView, is_sorted_permutation, key_views, lemma_stable_order_sorted_permutation, stable_order,
    stable_sort_order,
};

verus! {

/// Focus times a bundle requests at most.
pub const MAX_FOCUS_TIMES: usize = 16;

/// Families of generated artifacts.
#[derive(Clone, Copy, Debug, PartialEq, Eq, Structural)]
pub enum ArtifactKind {
    Storyboard,
    BeforeDuringAfter,
    DifferenceMap,
    RegionFilmstrip,
    MotionHistory,
}

/// Why a storyboard selected a frame.
#[derive(Clone, Copy, Debug, PartialEq, Eq, Structural)]
pub enum SelectionReason {
    FirstChange,
    PeakBaselineChange,
    LocalChangePeak,
    ChangedRegionTransition,
    ChangeTrend,
    InformationGain,
    PreAnchor,
    Anchor,
    PostAnchor,
    Final,
    Marker,
    Gap,
    Coverage,
}

/// A measured visual-change moment of a storyboard trace.
#[derive(Clone, Copy, Debug, PartialEq, Eq, Structural)]
pub struct ChangeMoment {
    pub session_nanos: u64,
    pub frame_index: u64,
    pub frame_id: u128,
}

/// One frame a storyboard selected, with its selection reasons.
#[derive(Debug)]
pub struct SelectedFrame {
    pub session_nanos: u64,
    pub frame_index: u64,
    pub frame_id: u128,
    pub reasons: Vec<SelectionReason>,
}

/// The typed trace a storyboard manifest carries.
#[derive(Debug)]
pub struct StoryboardTrace {
    pub first_change: Option<ChangeMoment>,
    pub peak_baseline_change: Option<ChangeMoment>,
    pub peak_adjacent_changed_area: Option<ChangeMoment>,
    pub selected_frames: Vec<SelectedFrame>,
}

/// What focus extraction and header composition read of one artifact outcome.
#[derive(Debug)]
pub struct OutcomeEvidence {
    pub epoch_index: u32,
    pub available: bool,
    pub kind: ArtifactKind,
    /// The storyboard trace of an available storyboard manifest, if it has one.
    pub trace: Option<StoryboardTrace>,
}

/// Reasons that mark a selected frame as a major visual change.
pub open spec fn is_major(r: SelectionReason) -> bool {
    match r {
        SelectionReason::FirstChange | SelectionReason::PeakBaselineChange
        | SelectionReason::LocalChangePeak | SelectionReason::ChangedRegionTransition
        | SelectionReason::ChangeTrend | SelectionReason::InformationGain => true,
        _ => false,
    }
}

/// A focus candidate: policy rank, session time, epoch, frame index, frame id.
#[derive(Clone, Copy, Debug, PartialEq, Eq, Structural)]
pub struct Candidate {
    pub rank: u64,
    pub session_nanos: u64,
    pub epoch_index: u32,
    pub frame_index: u64,
    pub frame_id: u128,
}

pub open spec fn moment_candidates(m: Option<ChangeMoment>, rank: u64, epoch: u32) -> Seq<Candidate> {
    match m {
        Some(m) => seq![Candidate { rank, session_nanos: m.session_nanos, epoch_index: epoch, frame_index: m.frame_index, frame_id: m.frame_id }],
        None => Seq::empty(),
    }
}

pub open spec fn has_major_reason(f: SelectedFrame) -> bool {
    exists|i: int| 0 <= i < f.reasons@.len() && is_major(f.reasons@[i])
}

/// Rank-3 candidates: selected frames that carry a major-change reason, in order.
pub open spec fn frame_candidates(frames: Seq<SelectedFrame>, epoch: u32) -> Seq<Candidate>
    decreases frames.len(),
{
    if frames.len() == 0 {
        Seq::empty()
    } else {
        let rest = frame_candidates(frames.drop_last(), epoch);
        let f = frames.last();
        if has_major_reason(f) {
            rest.push(Candidate { rank: 3, session_nanos: f.session_nanos, epoch_index: epoch, frame_index: f.frame_index, frame_id: f.frame_id })
        } else {
            rest
        }
    }
}

/// The candidates one outcome contributes, in insertion order.
pub open spec fn outcome_candidates(o: OutcomeEvidence) -> Seq<Candidate> {
    if o.available && o.kind == ArtifactKind::Storyboard {
        match o.trace {
            Some(t) => moment_candidates(t.first_change, 0, o.epoch_index)
                + moment_candidates(t.peak_baseline_change, 1, o.epoch_index)
                + moment_candidates(t.peak_adjacent_changed_area, 2, o.epoch_index)
                + frame_candidates(t.selected_frames@, o.epoch_index),
            None => Seq::empty(),
        }
    } else {
        Seq::empty()
    }
}

/// Candidates of the first `n` outcomes, in insertion order.
pub open spec fn all_candidates(outcomes: Seq<OutcomeEvidence>, n: nat) -> Seq<Candidate>
    decreases n,
{
    if n == 0 {
        Seq::empty()
    } else {
        all_candidates(outcomes, (n - 1) as nat) + outcome_candidates(outcomes[n - 1])
    }
}

/// Priority key: rank, epoch, frame index, frame id.
pub open spec fn priority_key(c: Candidate) -> SortKeyView {
    (c.rank, c.epoch_index as u64, c.frame_index, c.frame_id, Seq::empty())
}

pub open spec fn priority_keys(cs: Seq<Candidate>) -> Seq<SortKeyView> {
    Seq::new(cs.len(), |i: int| priority_key(cs[i]))
}

pub open spec fn permute_candidates(cs: Seq<Candidate>, order: Seq<usize>) -> Seq<Candidate> {
    Seq::new(order.len(), |i: int| cs[order[i] as int])
}

/// Candidates in priority order with exact priority duplicates collapsed onto the
/// first inserted one (the set semantics of the priority order).
pub open spec fn distinct_priority(sorted: Seq<Candidate>, n: nat) -> Seq<Candidate>
    decreases n,
{
    if n == 0 {
        Seq::empty()
    } else {
        let rest = distinct_priority(sorted, (n - 1) as nat);
        let k = n - 1;
        if k == 0 || priority_key(sorted[k]) != priority_key(sorted[k - 1]) {
            rest.push(sorted[k])
        } else {
            rest
        }
    }
}

/// Keeps the first candidate at each session time.
pub open spec fn first_per_time(cs: Seq<Candidate>, n: nat) -> Seq<Candidate>
    decreases n,
{
    if n == 0 {
        Seq::empty()
    } else {
        let rest = first_per_time(cs, (n - 1) as nat);
        let k = n - 1;
        if exists|j: int| 0 <= j < k && cs[j].session_nanos == cs[k].session_nanos {
            rest
        } else {
            rest.push(cs[k])
        }
    }
}

pub open spec fn time_key(t: u64) -> SortKeyView {
    (t, 0, 0, 0, Seq::empty())
}

pub open spec fn time_keys(ts: Seq<u64>) -> Seq<SortKeyView> {
    Seq::new(ts.len(), |i: int| time_key(ts[i]))
}

/// The focus times of a list of outcomes: candidates in priority order, one per
/// session time, at most 16, then chronological.
pub open spec fn focus_spec(outcomes: Seq<OutcomeEvidence>) -> Seq<u64> {
    let cands = all_candidates(outcomes, outcomes.len());
    let sorted = permute_candidates(cands, stable_order(priority_keys(cands), cands.len()));
    let unique = distinct_priority(sorted, sorted.len());
    let per_time = first_per_time(unique, unique.len());
    let capped = if per_time.len() > MAX_FOCUS_TIMES { per_time.take(MAX_FOCUS_TIMES as int) } else { per_time };
    let times = Seq::new(capped.len(), |i: int| capped[i].session_nanos);
    Seq::new(times.len(), |i: int| times[stable_order(time_keys(times), times.len())[i] as int])
}

proof fn lemma_first_per_time(cs: Seq<Candidate>, n: nat)
    requires
        n <= cs.len(),
    ensures
        first_per_time(cs, n).len() <= n,
        forall|i: int| 0 <= i < first_per_time(cs, n).len() ==> exists|j: int| 0 <= j < n && #[trigger] first_per_time(cs, n)[i] == cs[j],
        forall|a: int, b: int| 0 <= a < b < first_per_time(cs, n).len()
            ==> (#[trigger] first_per_time(cs, n)[a]).session_nanos != (#[trigger] first_per_time(cs, n)[b]).session_nanos,
    decreases n,
{
    if n > 0 {
        let k = n - 1;
        lemma_first_per_time(cs, k as nat);
        let rest = first_per_time(cs, k as nat);
        if !(exists|j: int| 0 <= j < k && cs[j].session_nanos == cs[k].session_nanos) {
            let r = rest.push(cs[k]);
            assert(first_per_time(cs, n) == r);
            assert forall|a: int, b: int| 0 <= a < b < r.len() implies (#[trigger] r[a]).session_nanos != (#[trigger] r[b]).session_nanos by {
                if b == r.len() - 1 {
                    let j = choose|j: int| 0 <= j < k && #[trigger] rest[a] == cs[j];
                    assert(rest[a] == cs[j]);
                } else {
                    assert(rest[a] == r[a] && rest[b] == r[b]);
                }
            }
            assert forall|i: int| 0 <= i < r.len() implies exists|j: int| 0 <= j < n && #[trigger] r[i] == cs[j] by {
                if i == r.len() - 1 {
                    assert(r[i] == cs[k]);
                } else {
                    assert(r[i] == rest[i]);
                }
            }
        }
    }
}

/// Focus times are at most sixteen, strictly increasing session times.
pub proof fn lemma_focus_times_increasing(outcomes: Seq<OutcomeEvidence>)
    requires
        all_candidates(outcomes, outcomes.len()).len() <= usize::MAX,
    ensures
        focus_spec(outcomes).len() <= MAX_FOCUS_TIMES,
        forall|a: int, b: int| 0 <= a < b < focus_spec(outcomes).len() ==> focus_spec(outcomes)[a] < focus_spec(outcomes)[b],
{
    let cands = all_candidates(outcomes, outcomes.len());
    lemma_stable_order_sorted_permutation(priority_keys(cands), cands.len());
    let sorted = permute_candidates(cands, stable_order(priority_keys(cands), cands.len()));
    let unique = distinct_priority(sorted, sorted.len());
    lemma_distinct_priority_len(sorted, sorted.len());
    let per_time = first_per_time(unique, unique.len());
    lemma_first_per_time(unique, unique.len());
    let capped = if per_time.len() > MAX_FOCUS_TIMES { per_time.take(MAX_FOCUS_TIMES as int) } else { per_time };
    let times = Seq::new(capped.len(), |i: int| capped[i].session_nanos);
    assert forall|a: int, b: int| 0 <= a < b < times.len() implies times[a] != times[b] by {
        assert(capped[a] == per_time[a] && capped[b] == per_time[b]);
    }
    let keys = time_keys(times);
    let order = stable_order(keys, times.len());
    lemma_stable_order_sorted_permutation(keys, times.len());
    let r = Seq::new(times.len(), |i: int| times[order[i] as int]);
    assert(r == focus_spec(outcomes));
    assert forall|a: int, b: int| 0 <= a < b < r.len() implies r[a] < r[b] by {
        assert(crate::order::entry_lt(keys, order[a] as int, order[b] as int));
        assert(order[a] != order[b]);
        if order[a] < order[b] {
            assert(times[order[a] as int] != times[order[b] as int]);
        } else {
            assert(times[order[b] as int] != times[order[a] as int]);
        }
    }
}

/// `t` is the session time of a moment of major visual change in an available
/// storyboard outcome: one of its trace's three visual-summary moments, or a
/// selected frame with one of the reasons first change, peak baseline change,
/// local change peak, changed-region transition, change trend or information
/// gain.
pub open spec fn focus_source(o: OutcomeEvidence, t: u64) -> bool {
    &&& o.available
    &&& o.kind == ArtifactKind::Storyboard
    &&& match o.trace {
        Some(tr) => {
            ||| (tr.first_change matches Some(m) && m.session_nanos == t)
            ||| (tr.peak_baseline_change matches Some(m) && m.session_nanos == t)
            ||| (tr.peak_adjacent_changed_area matches Some(m) && m.session_nanos == t)
            ||| exists|i: int, j: int|
                0 <= i < tr.selected_frames@.len() && 0 <= j < tr.selected_frames@[i].reasons@.len()
                    && #[trigger] tr.selected_frames@[i].session_nanos == t && {
                    let r = #[trigger] tr.selected_frames@[i].reasons@[j];
                    r == SelectionReason::FirstChange || r == SelectionReason::PeakBaselineChange
                        || r == SelectionReason::LocalChangePeak || r == SelectionReason::ChangedRegionTransition
                        || r == SelectionReason::ChangeTrend || r == SelectionReason::InformationGain
                }
        },
        None => false,
    }
}

proof fn lemma_frame_candidates(frames: Seq<SelectedFrame>, epoch: u32)
    ensures
        forall|k: int| 0 <= k < frame_candidates(frames, epoch).len() ==> exists|i: int| 0 <= i < frames.len()
            && frames[i].session_nanos == (#[trigger] frame_candidates(frames, epoch)[k]).session_nanos
            && has_major_reason(frames[i]),
        (exists|i: int| 0 <= i < frames.len() && has_major_reason(#[trigger] frames[i])) ==> frame_candidates(frames, epoch).len() > 0,
    decreases frames.len(),
{
    if frames.len() > 0 {
        let rest = frames.drop_last();
        lemma_frame_candidates(rest, epoch);
        let fc = frame_candidates(frames, epoch);
        let rc = frame_candidates(rest, epoch);
        assert forall|k: int| 0 <= k < fc.len() implies exists|i: int| 0 <= i < frames.len()
            && frames[i].session_nanos == (#[trigger] fc[k]).session_nanos && has_major_reason(frames[i]) by {
            if k < rc.len() {
                assert(fc[k] == rc[k]);
                let i = choose|i: int| 0 <= i < rest.len() && rest[i].session_nanos == rc[k].session_nanos && has_major_reason(rest[i]);
                assert(frames[i] == rest[i]);
            } else {
                assert(frames[frames.len() - 1] == frames.last());
            }
        }
        if exists|i: int| 0 <= i < frames.len() && has_major_reason(#[trigger] frames[i]) {
            if !has_major_reason(frames.last()) {
                let i = choose|i: int| 0 <= i < frames.len() && has_major_reason(#[trigger] frames[i]);
                assert(i < frames.len() - 1);
                assert(rest[i] == frames[i]);
            }
        }
    }
}

proof fn lemma_outcome_candidates(o: OutcomeEvidence)
    ensures
        forall|k: int| 0 <= k < outcome_candidates(o).len() ==> focus_source(o, (#[trigger] outcome_candidates(o)[k]).session_nanos),
        (exists|t: u64| focus_source(o, t)) ==> outcome_candidates(o).len() > 0,
{
    if o.available && o.kind == ArtifactKind::Storyboard {
        if let Some(tr) = o.trace {
            let e = o.epoch_index;
            let a = moment_candidates(tr.first_change, 0, e);
            let b = moment_candidates(tr.peak_baseline_change, 1, e);
            let c = moment_candidates(tr.peak_adjacent_changed_area, 2, e);
            let frames = tr.selected_frames@;
            let f = frame_candidates(frames, e);
            lemma_frame_candidates(frames, e);
            let all = outcome_candidates(o);
            assert(all == a + b + c + f);
            assert forall|k: int| 0 <= k < all.len() implies focus_source(o, (#[trigger] all[k]).session_nanos) by {
                if k < a.len() {
                    assert(all[k] == a[k]);
                } else if k < a.len() + b.len() {
                    assert(all[k] == b[k - a.len()]);
                } else if k < a.len() + b.len() + c.len() {
                    assert(all[k] == c[k - a.len() - b.len()]);
                } else {
                    let q = k - a.len() - b.len() - c.len();
                    assert(all[k] == f[q]);
                    let i = choose|i: int| 0 <= i < frames.len() && frames[i].session_nanos == f[q].session_nanos && has_major_reason(frames[i]);
                    let j = choose|j: int| 0 <= j < frames[i].reasons@.len() && is_major(frames[i].reasons@[j]);
                    assert(tr.selected_frames@[i].reasons@[j] == frames[i].reasons@[j]);
                }
            }
            if exists|t: u64| focus_source(o, t) {
                let t = choose|t: u64| focus_source(o, t);
                if a.len() == 0 && b.len() == 0 && c.len() == 0 {
                    let (i, j) = choose|i: int, j: int|
                        0 <= i < tr.selected_frames@.len() && 0 <= j < tr.selected_frames@[i].reasons@.len()
                            && #[trigger] tr.selected_frames@[i].session_nanos == t && {
                            let r = #[trigger] tr.selected_frames@[i].reasons@[j];
                            r == SelectionReason::FirstChange || r == SelectionReason::PeakBaselineChange
                                || r == SelectionReason::LocalChangePeak || r == SelectionReason::ChangedRegionTransition
                                || r == SelectionReason::ChangeTrend || r == SelectionReason::InformationGain
                        };
                    assert(is_major(frames[i].reasons@[j]));
                    assert(has_major_reason(frames[i]));
                }
            }
        }
    }
}

proof fn lemma_all_candidates(outcomes: Seq<OutcomeEvidence>, n: nat)
    requires
        n <= outcomes.len(),
    ensures
        forall|k: int| 0 <= k < all_candidates(outcomes, n).len() ==> exists|o: int| 0 <= o < n
            && focus_source(outcomes[o], (#[trigger] all_candidates(outcomes, n)[k]).session_nanos),
        (exists|o: int, t: u64| 0 <= o < n && #[trigger] focus_source(outcomes[o], t)) ==> all_candidates(outcomes, n).len() > 0,
    decreases n,
{
    if n > 0 {
        lemma_all_candidates(outcomes, (n - 1) as nat);
        let rest = all_candidates(outcomes, (n - 1) as nat);
        let last = outcome_candidates(outcomes[n - 1]);
        lemma_outcome_candidates(outcomes[n - 1]);
        let all = all_candidates(outcomes, n);
        assert forall|k: int| 0 <= k < all.len() implies exists|o: int| 0 <= o < n
            && focus_source(outcomes[o], (#[trigger] all[k]).session_nanos) by {
            if k < rest.len() {
                assert(all[k] == rest[k]);
            } else {
                assert(all[k] == last[k - rest.len()]);
            }
        }
        if exists|o: int, t: u64| 0 <= o < n && #[trigger] focus_source(outcomes[o], t) {
            let (o, t) = choose|o: int, t: u64| 0 <= o < n && #[trigger] focus_source(outcomes[o], t);
            if o == n - 1 {
                assert(last.len() > 0);
            } else {
                assert(rest.len() > 0);
            }
        }
    }
}

proof fn lemma_distinct_priority_members(sorted: Seq<Candidate>, n: nat)
    requires
        n <= sorted.len(),
    ensures
        forall|k: int| 0 <= k < distinct_priority(sorted, n).len() ==> exists|j: int| 0 <= j < n
            && #[trigger] distinct_priority(sorted, n)[k] == sorted[j],
        n > 0 ==> distinct_priority(sorted, n).len() > 0,
    decreases n,
{
    if n > 0 {
        lemma_distinct_priority_members(sorted, (n - 1) as nat);
        let rest = distinct_priority(sorted, (n - 1) as nat);
        let d = distinct_priority(sorted, n);
        assert forall|k: int| 0 <= k < d.len() implies exists|j: int| 0 <= j < n && #[trigger] d[k] == sorted[j] by {
            if k < rest.len() {
                assert(d[k] == rest[k]);
            } else {
                assert(d[k] == sorted[n - 1]);
            }
        }
    }
}

proof fn lemma_first_per_time_nonempty(cs: Seq<Candidate>, n: nat)
    requires
        n <= cs.len(),
    ensures
        n > 0 ==> first_per_time(cs, n).len() > 0,
    decreases n,
{
    if n > 1 {
        lemma_first_per_time_nonempty(cs, (n - 1) as nat);
    }
}

/// Every focus time is the session time of a moment of major visual change in
/// an available storyboard outcome.
pub proof fn lemma_focus_times_come_from_major_changes(outcomes: Seq<OutcomeEvidence>)
    requires
        all_candidates(outcomes, outcomes.len()).len() <= usize::MAX,
    ensures
        forall|i: int| 0 <= i < focus_spec(outcomes).len() ==> exists|o: int| 0 <= o < outcomes.len()
            && focus_source(outcomes[o], #[trigger] focus_spec(outcomes)[i]),
{
    let cands = all_candidates(outcomes, outcomes.len());
    lemma_all_candidates(outcomes, outcomes.len());
    let order = stable_order(priority_keys(cands), cands.len());
    lemma_stable_order_sorted_permutation(priority_keys(cands), cands.len());
    let sorted = permute_candidates(cands, order);
    let unique = distinct_priority(sorted, sorted.len());
    lemma_distinct_priority_members(sorted, sorted.len());
    lemma_distinct_priority_len(sorted, sorted.len());
    let per_time = first_per_time(unique, unique.len());
    lemma_first_per_time(unique, unique.len());
    let capped = if per_time.len() > MAX_FOCUS_TIMES { per_time.take(MAX_FOCUS_TIMES as int) } else { per_time };
    let times = Seq::new(capped.len(), |i: int| capped[i].session_nanos);
    let keys = time_keys(times);
    let order2 = stable_order(keys, times.len());
    lemma_stable_order_sorted_permutation(keys, times.len());
    let r = Seq::new(times.len(), |i: int| times[order2[i] as int]);
    assert(r == focus_spec(outcomes));
    assert forall|i: int| 0 <= i < r.len() implies exists|o: int| 0 <= o < outcomes.len() && focus_source(outcomes[o], #[trigger] r[i]) by {
        let q = order2[i] as int;
        assert(capped[q] == per_time[q]);
        let u = choose|j: int| 0 <= j < unique.len() && #[trigger] per_time[q] == unique[j];
        let v = choose|j: int| 0 <= j < sorted.len() && #[trigger] unique[u] == sorted[j];
        let w = order[v] as int;
        assert(sorted[v] == cands[w]);
        assert(exists|o: int| 0 <= o < outcomes.len() && focus_source(outcomes[o], cands[w].session_nanos));
    }
}

/// A bundle reports focus times exactly when some available storyboard
/// outcome measured a moment of major visual change: a visual-summary moment,
/// or a selected frame with one of the six major-change reasons.
pub proof fn lemma_focus_exists_iff_major_change(outcomes: Seq<OutcomeEvidence>)
    requires
        all_candidates(outcomes, outcomes.len()).len() <= usize::MAX,
    ensures
        focus_spec(outcomes).len() > 0 <==> exists|o: int, t: u64| 0 <= o < outcomes.len() && #[trigger] focus_source(outcomes[o], t),
{
    lemma_focus_times_come_from_major_changes(outcomes);
    let cands = all_candidates(outcomes, outcomes.len());
    lemma_all_candidates(outcomes, outcomes.len());
    let order = stable_order(priority_keys(cands), cands.len());
    lemma_stable_order_sorted_permutation(priority_keys(cands), cands.len());
    let sorted = permute_candidates(cands, order);
    let unique = distinct_priority(sorted, sorted.len());
    lemma_distinct_priority_members(sorted, sorted.len());
    lemma_distinct_priority_len(sorted, sorted.len());
    let per_time = first_per_time(unique, unique.len());
    lemma_first_per_time(unique, unique.len());
    lemma_first_per_time_nonempty(unique, unique.len());
    if focus_spec(outcomes).len() > 0 {
        let t = focus_spec(outcomes)[0];
        let o = choose|o: int| 0 <= o < outcomes.len() && focus_source(outcomes[o], t);
        assert(focus_source(outcomes[o], t));
    }
}

proof fn lemma_distinct_priority_len(sorted: Seq<Candidate>, n: nat)
    ensures
        distinct_priority(sorted, n).len() <= n,
    decreases n,
{
    if n > 0 {
        lemma_distinct_priority_len(sorted, (n - 1) as nat);
    }
}

fn is_major_exec(r: SelectionReason) -> (b: bool)
    ensures
        b == is_major(r),
{
    match r {
        SelectionReason::FirstChange | SelectionReason::PeakBaselineChange
        | SelectionReason::LocalChangePeak | SelectionReason::ChangedRegionTransition
        | SelectionReason::ChangeTrend | SelectionReason::InformationGain => true,
        _ => false,
    }
}

fn has_major_exec(f: &SelectedFrame) -> (b: bool)
    ensures
        b == has_major_reason(*f),
{
    let mut i: usize = 0;
    while i < f.reasons.len()
        invariant
            i <= f.reasons.len(),
            forall|j: int| 0 <= j < i ==> !is_major(f.reasons@[j]),
        decreases f.reasons.len() - i,
    {
        if is_major_exec(f.reasons[i]) {
            return true;
        }
        i = i + 1;
    }
    false
}

fn push_moment(out: &mut Vec<Candidate>, m: Option<ChangeMoment>, rank: u64, epoch: u32)
    ensures
        final(out)@ == old(out)@ + moment_candidates(m, rank, epoch),
{
    if let Some(m) = m {
        out.push(Candidate { rank, session_nanos: m.session_nanos, epoch_index: epoch, frame_index: m.frame_index, frame_id: m.frame_id });
    } else {
        assert(old(out)@ + moment_candidates(m, rank, epoch) =~= old(out)@);
    }
}

fn push_outcome(out: &mut Vec<Candidate>, o: &OutcomeEvidence)
    ensures
        final(out)@ == old(out)@ + outcome_candidates(*o),
{
    let ghost start = out@;
    if o.available && o.kind == ArtifactKind::Storyboard {
        if let Some(t) = &o.trace {
            push_moment(out, t.first_change, 0, o.epoch_index);
            push_moment(out, t.peak_baseline_change, 1, o.epoch_index);
            push_moment(out, t.peak_adjacent_changed_area, 2, o.epoch_index);
            let ghost mid = out@;
            let frames = &t.selected_frames;
            let mut i: usize = 0;
            assert(frames@.take(0) =~= Seq::<SelectedFrame>::empty());
            assert(mid + frame_candidates(frames@.take(0), o.epoch_index) =~= mid);
            while i < frames.len()
                invariant
                    i <= frames.len(),
                    out@ == mid + frame_candidates(frames@.take(i as int), o.epoch_index),
                decreases frames.len() - i,
            {
                let f = &frames[i];
                assert(frames@.take(i + 1).drop_last() =~= frames@.take(i as int));
                assert(frames@.take(i + 1).last() == frames@[i as int]);
                if has_major_exec(f) {
                    out.push(Candidate { rank: 3, session_nanos: f.session_nanos, epoch_index: o.epoch_index, frame_index: f.frame_index, frame_id: f.frame_id });
                }
                i = i + 1;
            }
            assert(frames@.take(i as int) =~= frames@);
            assert(out@ =~= start + outcome_candidates(*o));
            return;
        }
    }
    assert(start + outcome_candidates(*o) =~= start);
}

/// Extracts at most 16 chronological focus times from available storyboard traces.
///
/// Candidates are every available storyboard's first-change moment (rank 0),
/// peak-baseline moment (rank 1), peak-adjacent-area moment (rank 2) and each
/// selected frame carrying a major-change reason (rank 3). They are ordered by
/// rank, epoch, frame index and frame id, reduced to the first candidate at each
/// session time, capped at 16 and returned in chronological order.
pub fn extract_focus_times(outcomes: &Vec<OutcomeEvidence>) -> (r: Vec<u64>)
    ensures
        r@ == focus_spec(outcomes@),
{
    let mut cands: Vec<Candidate> = Vec::new();
    let mut n: usize = 0;
    while n < outcomes.len()
        invariant
            n <= outcomes.len(),
            cands@ == all_candidates(outcomes@, n as nat),
        decreases outcomes.len() - n,
    {
        push_outcome(&mut cands, &outcomes[n]);
        n = n + 1;
    }
    let ghost cv = cands@;
    // Priority order.
    let mut keys: Vec<SortKey> = Vec::new();
    let mut i: usize = 0;
    while i < cands.len()
        invariant
            i <= cands.len(),
            keys.len() == i,
            forall|j: int| 0 <= j < i ==> #[trigger] keys@[j]@ == priority_key(cands@[j]),
        decreases cands.len() - i,
    {
        let c = cands[i];
        keys.push(SortKey { k0: c.rank, k1: c.epoch_index as u64, k2: c.frame_index, k3: c.frame_id, tail: Vec::new() });
        i = i + 1;
    }
    assert(key_views(keys@) =~= priority_keys(cv));
    let order = stable_sort_order(&keys);
    let mut sorted: Vec<Candidate> = Vec::new();
    let mut i: usize = 0;
    while i < order.len()
        invariant
            i <= order.len(),
            is_sorted_permutation(key_views(keys@), order@, keys.len() as nat),
            keys.len() == cands.len(),
            sorted.len() == i,
            forall|j: int| 0 <= j < i ==> #[trigger] sorted@[j] == cands@[order@[j] as int],
        decreases order.len() - i,
    {
        sorted.push(cands[order[i]]);
        i = i + 1;
    }
    let ghost sv = sorted@;
    assert(sv =~= permute_candidates(cv, stable_order(priority_keys(cv), cv.len())));
    // One candidate per priority key.
    let mut unique: Vec<Candidate> = Vec::new();
    let mut i: usize = 0;
    while i < sorted.len()
        invariant
            i <= sorted.len(),
            sv == sorted@,
            unique@ == distinct_priority(sv, i as nat),
        decreases sorted.len() - i,
    {
        let c = sorted[i];
        let keep = if i == 0 {
            true
        } else {
            let p = sorted[i - 1];
            !(c.rank == p.rank && c.epoch_index == p.epoch_index && c.frame_index == p.frame_index && c.frame_id == p.frame_id)
        };
        proof {
            if i > 0 {
                let a = priority_key(sv[i as int]);
                let b = priority_key(sv[i - 1]);
                assert(keep == (a != b)) by {
                    if a == b {
                        assert(a.0 == b.0 && a.1 == b.1 && a.2 == b.2 && a.3 == b.3);
                    }
                };
            }
        }
        if keep {
            unique.push(c);
        }
        i = i + 1;
    }
    let ghost uv = unique@;
    // The first candidate at each session time.
    let mut per_time: Vec<Candidate> = Vec::new();
    let mut i: usize = 0;
    while i < unique.len()
        invariant
            i <= unique.len(),
            uv == unique@,
            per_time@ == first_per_time(uv, i as nat),
        decreases unique.len() - i,
    {
        let c = unique[i];
        let mut dup = false;
        let mut j: usize = 0;
        while j < i
            invariant
                j <= i,
                i < unique.len(),
                c == unique@[i as int],
                dup == (exists|q: int| 0 <= q < j && unique@[q].session_nanos == unique@[i as int].session_nanos),
            decreases i - j,
        {
            if unique[j].session_nanos == c.session_nanos {
                dup = true;
            }
            j = j + 1;
        }
        if !dup {
            per_time.push(c);
        }
        i = i + 1;
    }
    let ghost pv = per_time@;
    let limit = if per_time.len() > MAX_FOCUS_TIMES { MAX_FOCUS_TIMES } else { per_time.len() };
    let ghost capped = if pv.len() > MAX_FOCUS_TIMES { pv.take(MAX_FOCUS_TIMES as int) } else { pv };
    let mut times: Vec<u64> = Vec::new();
    let mut tkeys: Vec<SortKey> = Vec::new();
    let mut i: usize = 0;
    while i < limit
        invariant
            i <= limit,
            limit <= per_time.len(),
            limit == capped.len(),
            pv == per_time@,
            capped == (if pv.len() > MAX_FOCUS_TIMES { pv.take(MAX_FOCUS_TIMES as int) } else { pv }),
            times.len() == i,
            tkeys.len() == i,
            forall|j: int| 0 <= j < i ==> #[trigger] times@[j] == capped[j].session_nanos,
            forall|j: int| 0 <= j < i ==> #[trigger] tkeys@[j]@ == time_key(times@[j]),
        decreases limit - i,
    {
        let t = per_time[i].session_nanos;
        times.push(t);
        tkeys.push(SortKey { k0: t, k1: 0, k2: 0, k3: 0, tail: Vec::new() });
        i = i + 1;
    }
    let ghost tv = times@;
    assert(tv =~= Seq::new(capped.len(), |i: int| capped[i].session_nanos));
    assert(key_views(tkeys@) =~= time_keys(tv));
    let torder = stable_sort_order(&tkeys);
    let mut out: Vec<u64> = Vec::new();
    let mut i: usize = 0;
    while i < torder.len()
        invariant
            i <= torder.len(),
            is_sorted_permutation(key_views(tkeys@), torder@, tkeys.len() as nat),
            tkeys.len() == times.len(),
            out.len() == i,
            forall|j: int| 0 <= j < i ==> #[trigger] out@[j] == times@[torder@[j] as int],
        decreases torder.len() - i,
    {
        out.push(times[torder[i]]);
        i = i + 1;
    }
    assert(out@ =~= Seq::new(tv.len(), |i: int| tv[stable_order(time_keys(tv), tv.len())[i] as int]));
    out
}

} // verus!
