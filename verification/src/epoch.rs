//! Visual-epoch planning over the exact retained frames of a resolved range.
//!
//! Frames are validated against the resolved range, partitioned into maximal runs
//! of identical capture geometry (visual epochs), and each epoch receives the
//! markers inside its session-time span and the capture gaps it owns, clipped to
//! that span.
use vstd::prelude::*;

use crate::errors::{ErrorCode, ErrorContext, Failure};
use crate::order::{SortKey, SortKeyView, is_sorted_permutation, key_views, stable_order, stable_sort_order};
use crate::spans::{SessionSpan, clamp_range, clamp_range_spec, distance_to_span, distance_to_span_spec};

verus! {

/// The version of the adaptation from retained frames to visual epochs, part of
/// every artifact cache key.
pub const ADAPTER_VERSION: &'static str = "krometrail-artifact-adapter-v3";

/// Encoded image formats of retained frames.
#[derive(Clone, Copy, Debug, PartialEq, Eq, Structural)]
pub enum ImageFormat {
    Jpeg,
    Png,
}

/// The persisted metadata of one retained frame and its encoded length.
#[derive(Clone, Copy, Debug, PartialEq, Eq, Structural)]
pub struct FrameMeta {
    pub frame_id: u128,
    pub session_id: u128,
    pub target_id: u128,
    pub capture_ordinal: u64,
    pub session_time: u64,
    pub format: ImageFormat,
    pub image_width: u32,
    pub image_height: u32,
    pub viewport_width: u32,
    pub viewport_height: u32,
    pub device_scale_bits: u64,
    pub encoded_len: usize,
}

/// Two frames belong to one visual epoch when their image size, viewport size and
/// device scale factor are identical; encoded format does not matter.
pub open spec fn same_epoch_spec(a: FrameMeta, b: FrameMeta) -> bool {
    a.image_width == b.image_width && a.image_height == b.image_height
        && a.viewport_width == b.viewport_width && a.viewport_height == b.viewport_height
        && a.device_scale_bits == b.device_scale_bits
}

pub fn same_epoch(a: &FrameMeta, b: &FrameMeta) -> (r: bool)
    ensures
        r == same_epoch_spec(*a, *b),
{
    a.image_width == b.image_width && a.image_height == b.image_height
        && a.viewport_width == b.viewport_width && a.viewport_height == b.viewport_height
        && a.device_scale_bits == b.device_scale_bits
}

/// Frames `a` and `b` were captured with the same image size, viewport size
/// and device scale factor.
pub open spec fn same_capture_geometry(a: FrameMeta, b: FrameMeta) -> bool {
    &&& a.image_width == b.image_width
    &&& a.image_height == b.image_height
    &&& a.viewport_width == b.viewport_width
    &&& a.viewport_height == b.viewport_height
    &&& a.device_scale_bits == b.device_scale_bits
}

/// Bytes of a straight RGBA8 decode of a `width x height` frame, if they fit.
pub open spec fn decoded_len_spec(width: u32, height: u32) -> Option<usize> {
    if width * height * 4 <= usize::MAX {
        Some((width * height * 4) as usize)
    } else {
        None
    }
}

/// Bytes of the straight RGBA8 decode of a frame; a limit error when the count
/// does not fit this platform.
pub fn decoded_len(width: u32, height: u32) -> (r: Result<usize, Failure>)
    ensures
        match r {
            Ok(v) => decoded_len_spec(width, height) == Some(v),
            Err(f) => decoded_len_spec(width, height).is_none() && f.code == ErrorCode::ResourceLimitExceeded,
        },
{
    assert((width as u64) * (height as u64) <= 0xffff_ffffu64 * 0xffff_ffffu64) by (nonlinear_arith)
        requires
            width <= 0xffff_ffffu32,
            height <= 0xffff_ffffu32,
    ;
    let pixels: u64 = (width as u64) * (height as u64);
    if pixels > usize::MAX as u64 {
        return Err(adaptation_limit_error("decoded frame pixel count exceeds this platform"));
    }
    let pixels = pixels as usize;
    match pixels.checked_mul(4) {
        Some(v) => Ok(v),
        None => Err(adaptation_limit_error("decoded frame byte count overflows")),
    }
}

fn adaptation_limit_error(message: &str) -> (f: Failure)
    ensures
        f.code == ErrorCode::ResourceLimitExceeded,
{
    Failure::new(ErrorCode::ResourceLimitExceeded, message)
        .with_recovery("narrow the source range or reduce the artifact scope")
}

fn source_error(message: &str) -> (f: Failure)
    ensures
        f.code == ErrorCode::ArtifactGenerationFailed,
{
    Failure::new(ErrorCode::ArtifactGenerationFailed, message)
}

// ----- partition -----

/// The visual-epoch spans `[start, end)` of the first `n` frames: maximal runs of
/// adjacent frames in the same epoch.
pub open spec fn spans_upto(frames: Seq<FrameMeta>, n: nat) -> Seq<(int, int)>
    decreases n,
{
    if n == 0 {
        Seq::empty()
    } else if n == 1 {
        seq![(0int, 1int)]
    } else {
        let prev = spans_upto(frames, (n - 1) as nat);
        if same_epoch_spec(frames[n - 2], frames[n - 1]) {
            prev.update(prev.len() - 1, (prev.last().0, n as int))
        } else {
            prev.push((n - 1, n as int))
        }
    }
}

proof fn lemma_spans_shape(frames: Seq<FrameMeta>, n: nat)
    requires
        n >= 1,
    ensures
        spans_upto(frames, n).len() >= 1,
        spans_upto(frames, n).len() <= n,
        spans_upto(frames, n)[0].0 == 0,
        spans_upto(frames, n).last().1 == n,
        forall|k: int| 0 <= k < spans_upto(frames, n).len() ==> #[trigger] spans_upto(frames, n)[k].1 <= n,
        forall|k: int| 0 <= k < spans_upto(frames, n).len() ==> #[trigger] spans_upto(frames, n)[k].0 < spans_upto(frames, n)[k].1,
        forall|k: int| 0 < k < spans_upto(frames, n).len() ==> #[trigger] spans_upto(frames, n)[k].0 == spans_upto(frames, n)[k - 1].1,
    decreases n,
{
    if n > 1 {
        lemma_spans_shape(frames, (n - 1) as nat);
    }
}

/// Visual epochs split exactly at geometry changes: every frame of an epoch has
/// its first frame's geometry, and each epoch after the first starts where the
/// geometry of adjacent frames changes.
pub proof fn lemma_epochs_split_at_geometry_changes(frames: Seq<FrameMeta>, n: nat)
    requires
        1 <= n <= frames.len(),
    ensures
        forall|k: int, i: int| 0 <= k < spans_upto(frames, n).len() && spans_upto(frames, n)[k].0 <= i < spans_upto(frames, n)[k].1
            ==> #[trigger] same_epoch_spec(frames[spans_upto(frames, n)[k].0], frames[i]),
        forall|k: int| 0 < k < spans_upto(frames, n).len()
            ==> !same_epoch_spec(frames[spans_upto(frames, n)[k].0 - 1], #[trigger] frames[spans_upto(frames, n)[k].0]),
    decreases n,
{
    lemma_spans_shape(frames, n);
    if n > 1 {
        let m = (n - 1) as nat;
        lemma_epochs_split_at_geometry_changes(frames, m);
        lemma_spans_shape(frames, m);
        let prev = spans_upto(frames, m);
        let sp = spans_upto(frames, n);
        if same_epoch_spec(frames[n - 2], frames[n - 1]) {
            let last = prev.len() - 1;
            assert(prev[last].0 <= n - 2 < prev[last].1);
            assert(same_epoch_spec(frames[prev[last].0], frames[n - 2]));
            assert forall|k: int, i: int| 0 <= k < sp.len() && sp[k].0 <= i < sp[k].1
                implies #[trigger] same_epoch_spec(frames[sp[k].0], frames[i]) by {
                if k < last {
                    assert(sp[k] == prev[k]);
                } else if i < n - 1 {
                    assert(prev[last].0 <= i < prev[last].1);
                }
            }
            assert forall|k: int| 0 < k < sp.len() implies !same_epoch_spec(frames[sp[k].0 - 1], #[trigger] frames[sp[k].0]) by {
                assert(sp[k].0 == prev[k].0);
            }
        } else {
            assert forall|k: int, i: int| 0 <= k < sp.len() && sp[k].0 <= i < sp[k].1
                implies #[trigger] same_epoch_spec(frames[sp[k].0], frames[i]) by {
                if k < prev.len() {
                    assert(sp[k] == prev[k]);
                }
            }
            assert forall|k: int| 0 < k < sp.len() implies !same_epoch_spec(frames[sp[k].0 - 1], #[trigger] frames[sp[k].0]) by {
                if k < prev.len() {
                    assert(sp[k] == prev[k]);
                }
            }
        }
    }
}

/// A visual epoch never mixes capture geometries: every frame of an epoch has
/// its first frame's image width and height, viewport width and height and
/// device scale; and adjacent epochs meet exactly where one of these changes.
pub proof fn lemma_epochs_have_one_geometry(frames: Seq<FrameMeta>)
    requires
        frames.len() >= 1,
    ensures
        forall|k: int, i: int| 0 <= k < spans_upto(frames, frames.len()).len()
            && spans_upto(frames, frames.len())[k].0 <= i < spans_upto(frames, frames.len())[k].1
            ==> #[trigger] same_capture_geometry(frames[spans_upto(frames, frames.len())[k].0], frames[i]),
        forall|k: int| 0 < k < spans_upto(frames, frames.len()).len()
            ==> !same_capture_geometry(frames[spans_upto(frames, frames.len())[k].0 - 1], #[trigger] frames[spans_upto(frames, frames.len())[k].0]),
        forall|i: int| 0 < i < frames.len() && !same_capture_geometry(frames[i - 1], #[trigger] frames[i])
            ==> exists|k: int| 0 < k < spans_upto(frames, frames.len()).len() && #[trigger] spans_upto(frames, frames.len())[k].0 == i,
{
    let n = frames.len();
    lemma_epochs_split_at_geometry_changes(frames, n);
    lemma_spans_shape(frames, n);
    let sp = spans_upto(frames, n);
    assert forall|k: int, i: int| 0 <= k < sp.len() && sp[k].0 <= i < sp[k].1
        implies #[trigger] same_capture_geometry(frames[sp[k].0], frames[i]) by {
        assert(same_epoch_spec(frames[sp[k].0], frames[i]));
    }
    assert forall|k: int| 0 < k < sp.len() implies !same_capture_geometry(frames[sp[k].0 - 1], #[trigger] frames[sp[k].0]) by {
        assert(!same_epoch_spec(frames[sp[k].0 - 1], frames[sp[k].0]));
    }
    assert forall|i: int| 0 < i < n && !same_capture_geometry(frames[i - 1], #[trigger] frames[i])
        implies exists|k: int| 0 < k < sp.len() && #[trigger] sp[k].0 == i by {
        lemma_span_of(frames, n, i);
        let k = choose|k: int| 0 <= k < sp.len() && #[trigger] sp[k].0 <= i < sp[k].1;
        if sp[k].0 < i {
            assert(same_epoch_spec(frames[sp[k].0], frames[i - 1]));
            assert(same_epoch_spec(frames[sp[k].0], frames[i]));
            assert(false);
        }
        assert(k != 0) by {
            if k == 0 {
                assert(sp[0].0 == 0);
            }
        }
    }
}

/// Every frame lies in some epoch.
proof fn lemma_span_of(frames: Seq<FrameMeta>, n: nat, i: int)
    requires
        1 <= n,
        0 <= i < n,
    ensures
        exists|k: int| 0 <= k < spans_upto(frames, n).len() && #[trigger] spans_upto(frames, n)[k].0 <= i < spans_upto(frames, n)[k].1,
    decreases n,
{
    lemma_spans_shape(frames, n);
    let sp = spans_upto(frames, n);
    if i >= sp.last().0 {
        assert(sp[sp.len() - 1].0 <= i < sp[sp.len() - 1].1);
    } else {
        lemma_span_of_below(frames, n, i, sp.len() - 1);
    }
}

proof fn lemma_span_of_below(frames: Seq<FrameMeta>, n: nat, i: int, k: int)
    requires
        1 <= n,
        0 <= k < spans_upto(frames, n).len(),
        0 <= i < spans_upto(frames, n)[k].0,
    ensures
        exists|j: int| 0 <= j < spans_upto(frames, n).len() && #[trigger] spans_upto(frames, n)[j].0 <= i < spans_upto(frames, n)[j].1,
    decreases k,
{
    lemma_spans_shape(frames, n);
    let sp = spans_upto(frames, n);
    assert(k > 0);
    if i >= sp[k - 1].0 {
        assert(sp[k - 1].1 == sp[k].0);
    } else {
        lemma_span_of_below(frames, n, i, k - 1);
    }
}

/// Partitions a non-empty frame list into its visual-epoch spans `[start, end)`.
pub fn partition_epochs(frames: &Vec<FrameMeta>) -> (r: Vec<(usize, usize)>)
    requires
        frames.len() > 0,
    ensures
        r.len() == spans_upto(frames@, frames.len() as nat).len(),
        forall|k: int| 0 <= k < r.len() ==> (#[trigger] r@[k]).0 as int == spans_upto(frames@, frames.len() as nat)[k].0
            && r@[k].1 as int == spans_upto(frames@, frames.len() as nat)[k].1,
        r.len() >= 1,
        r@[0].0 == 0,
        r@[r.len() - 1].1 == frames.len(),
        forall|k: int| 0 <= k < r.len() ==> (#[trigger] r@[k]).0 < r@[k].1 <= frames.len(),
        forall|k: int| 0 < k < r.len() ==> (#[trigger] r@[k]).0 == r@[k - 1].1,
{
    let mut spans: Vec<(usize, usize)> = Vec::new();
    spans.push((0, 1));
    let mut i: usize = 1;
    while i < frames.len()
        invariant
            1 <= i <= frames.len(),
            spans.len() == spans_upto(frames@, i as nat).len(),
            forall|k: int| 0 <= k < spans.len() ==> (#[trigger] spans@[k]).0 as int == spans_upto(frames@, i as nat)[k].0
                && spans@[k].1 as int == spans_upto(frames@, i as nat)[k].1,
        decreases frames.len() - i,
    {
        proof {
            lemma_spans_shape(frames@, i as nat);
        }
        if same_epoch(&frames[i - 1], &frames[i]) {
            let last = spans.len() - 1;
            let start = spans[last].0;
            spans.set(last, (start, i + 1));
        } else {
            spans.push((i, i + 1));
        }
        i = i + 1;
    }
    proof {
        lemma_spans_shape(frames@, frames.len() as nat);
    }
    spans
}

// ----- gap ownership -----

/// The first span (by session-time bounds) that a gap `[gs, ge]` overlaps, from `k` on.
pub open spec fn first_overlap(bounds: Seq<(u64, u64)>, gs: u64, ge: u64, k: int) -> Option<int>
    decreases bounds.len() - k,
{
    if k >= bounds.len() {
        None
    } else if gs <= bounds[k].1 && ge >= bounds[k].0 {
        Some(k)
    } else {
        first_overlap(bounds, gs, ge, k + 1)
    }
}

/// The span nearest to a gap among the first `n` spans, the earliest on ties.
pub open spec fn nearest_span(bounds: Seq<(u64, u64)>, gs: u64, ge: u64, n: nat) -> int
    decreases n,
{
    if n <= 1 {
        0
    } else {
        let best = nearest_span(bounds, gs, ge, (n - 1) as nat);
        let k = n - 1;
        if distance_to_span_spec(gs, ge, bounds[k].0, bounds[k].1) < distance_to_span_spec(gs, ge, bounds[best].0, bounds[best].1) {
            k
        } else {
            best
        }
    }
}

/// The epoch that owns a gap: the first span it overlaps, else the nearest span.
pub open spec fn gap_owner(bounds: Seq<(u64, u64)>, gs: u64, ge: u64) -> int {
    match first_overlap(bounds, gs, ge, 0) {
        Some(k) => k,
        None => nearest_span(bounds, gs, ge, bounds.len()),
    }
}

/// One capture gap of a resolved range.
#[derive(Clone, Copy, Debug, PartialEq, Eq, Structural)]
pub struct GapSpan {
    pub gap_id: u128,
    pub start: u64,
    pub end: u64,
    pub estimated_missing_frames: Option<u64>,
}

/// Positions of the gaps (among the first `n`) that epoch `e` owns, ascending.
pub open spec fn owned_gaps(bounds: Seq<(u64, u64)>, gaps: Seq<GapSpan>, e: int, n: nat) -> Seq<usize>
    decreases n,
{
    if n == 0 {
        Seq::empty()
    } else {
        let rest = owned_gaps(bounds, gaps, e, (n - 1) as nat);
        if gap_owner(bounds, gaps[n - 1].start, gaps[n - 1].end) == e {
            rest.push((n - 1) as usize)
        } else {
            rest
        }
    }
}

proof fn lemma_first_overlap_bounds(bounds: Seq<(u64, u64)>, gs: u64, ge: u64, k: int)
    requires
        0 <= k,
    ensures
        first_overlap(bounds, gs, ge, k) matches Some(p) ==> k <= p < bounds.len(),
    decreases bounds.len() - k,
{
    if k < bounds.len() {
        lemma_first_overlap_bounds(bounds, gs, ge, k + 1);
    }
}

proof fn lemma_nearest_span_bounds(bounds: Seq<(u64, u64)>, gs: u64, ge: u64, n: nat)
    requires
        1 <= n,
    ensures
        0 <= nearest_span(bounds, gs, ge, n) < n,
    decreases n,
{
    if n > 1 {
        lemma_nearest_span_bounds(bounds, gs, ge, (n - 1) as nat);
    }
}

proof fn lemma_owned_gaps_contains(bounds: Seq<(u64, u64)>, gaps: Seq<GapSpan>, e: int, n: nat, g: int)
    requires
        n <= usize::MAX,
        0 <= g <= usize::MAX,
    ensures
        owned_gaps(bounds, gaps, e, n).contains(g as usize) <==> (g < n && gap_owner(bounds, gaps[g].start, gaps[g].end) == e),
    decreases n,
{
    if n > 0 {
        lemma_owned_gaps_contains(bounds, gaps, e, (n - 1) as nat, g);
        let rest = owned_gaps(bounds, gaps, e, (n - 1) as nat);
        if gap_owner(bounds, gaps[n - 1].start, gaps[n - 1].end) == e {
            let pushed = rest.push((n - 1) as usize);
            if pushed.contains(g as usize) {
                let i = choose|i: int| 0 <= i < pushed.len() && pushed[i] == g as usize;
                if i < rest.len() {
                    assert(rest.contains(g as usize));
                } else {
                    assert(g as usize == (n - 1) as usize);
                    assert(g == n - 1);
                }
            }
            if g < n && gap_owner(bounds, gaps[g].start, gaps[g].end) == e {
                if g == n - 1 {
                    assert(pushed[rest.len() as int] == g as usize);
                } else {
                    let i = choose|i: int| 0 <= i < rest.len() && rest[i] == g as usize;
                    assert(pushed[i] == g as usize);
                }
            }
        }
    }
}

/// Every capture gap of a range belongs to exactly one visual epoch: the first
/// epoch whose span it overlaps, or else the nearest one.
pub proof fn lemma_each_gap_has_one_owner(bounds: Seq<(u64, u64)>, gaps: Seq<GapSpan>, g: int, e: int)
    requires
        bounds.len() > 0,
        gaps.len() <= usize::MAX,
        0 <= g < gaps.len(),
    ensures
        0 <= gap_owner(bounds, gaps[g].start, gaps[g].end) < bounds.len(),
        owned_gaps(bounds, gaps, e, gaps.len()).contains(g as usize) <==> e == gap_owner(bounds, gaps[g].start, gaps[g].end),
{
    lemma_first_overlap_bounds(bounds, gaps[g].start, gaps[g].end, 0);
    lemma_nearest_span_bounds(bounds, gaps[g].start, gaps[g].end, bounds.len());
    lemma_owned_gaps_contains(bounds, gaps, e, gaps.len(), g);
}

fn owner_of(bounds: &Vec<(u64, u64)>, gs: u64, ge: u64) -> (r: usize)
    requires
        bounds.len() > 0,
    ensures
        r as int == gap_owner(bounds@, gs, ge),
        r < bounds.len(),
{
    let mut k: usize = 0;
    while k < bounds.len()
        invariant
            k <= bounds.len(),
            first_overlap(bounds@, gs, ge, 0) == first_overlap(bounds@, gs, ge, k as int),
        decreases bounds.len() - k,
    {
        if gs <= bounds[k].1 && ge >= bounds[k].0 {
            return k;
        }
        k = k + 1;
    }
    let mut best: usize = 0;
    let mut best_d = distance_to_span(gs, ge, bounds[0].0, bounds[0].1);
    let mut k: usize = 1;
    while k < bounds.len()
        invariant
            1 <= k <= bounds.len(),
            best < k,
            best as int == nearest_span(bounds@, gs, ge, k as nat),
            best_d == distance_to_span_spec(gs, ge, bounds@[best as int].0, bounds@[best as int].1),
        decreases bounds.len() - k,
    {
        let d = distance_to_span(gs, ge, bounds[k].0, bounds[k].1);
        if d < best_d {
            best = k;
            best_d = d;
        }
        k = k + 1;
    }
    best
}

/// Assigns each gap to the epoch that owns it: the first epoch whose session-time
/// bounds it overlaps, otherwise the nearest epoch (the earliest on ties).
pub fn assign_gap_owners(bounds: &Vec<(u64, u64)>, gaps: &Vec<GapSpan>) -> (r: Vec<Vec<usize>>)
    requires
        bounds.len() > 0,
    ensures
        r.len() == bounds.len(),
        forall|e: int| 0 <= e < r.len() ==> (#[trigger] r@[e])@ == owned_gaps(bounds@, gaps@, e, gaps.len() as nat),
{
    let mut owners: Vec<Vec<usize>> = Vec::new();
    let mut e: usize = 0;
    while e < bounds.len()
        invariant
            e <= bounds.len(),
            owners.len() == e,
            forall|x: int| 0 <= x < e ==> (#[trigger] owners@[x])@ == Seq::<usize>::empty(),
        decreases bounds.len() - e,
    {
        owners.push(Vec::new());
        e = e + 1;
    }
    let mut g: usize = 0;
    while g < gaps.len()
        invariant
            g <= gaps.len(),
            owners.len() == bounds.len(),
            bounds.len() > 0,
            forall|x: int| 0 <= x < owners.len() ==> (#[trigger] owners@[x])@ == owned_gaps(bounds@, gaps@, x, g as nat),
        decreases gaps.len() - g,
    {
        let owner = owner_of(bounds, gaps[g].start, gaps[g].end);
        let mut list = Vec::new();
        std::mem::swap(&mut list, &mut owners[owner]);
        let ghost before = owners@;
        list.push(g);
        owners.set(owner, list);
        proof {
            assert forall|x: int| 0 <= x < owners.len() implies (#[trigger] owners@[x])@ == owned_gaps(bounds@, gaps@, x, (g + 1) as nat) by {
                if x != owner as int {
                    assert(owners@[x] == before[x]);
                }
            }
        }
        g = g + 1;
    }
    owners
}

// ----- clipping -----

/// A capture gap clipped to an epoch span, with its position in the range's gap list.
#[derive(Clone, Copy, Debug, PartialEq, Eq, Structural)]
pub struct ClippedGap {
    pub position: usize,
    pub gap_id: u128,
    pub start: u64,
    pub end: u64,
    pub estimated_missing_frames: Option<u64>,
}

pub open spec fn clip_gap(g: GapSpan, position: usize, start: u64, end: u64) -> ClippedGap {
    let (s, e) = clamp_range_spec(g.start, g.end, start, end);
    ClippedGap { position, gap_id: g.gap_id, start: s, end: e, estimated_missing_frames: g.estimated_missing_frames }
}

/// Order of clipped gaps: clipped start, then the given tie-break position.
pub open spec fn gap_key(start: u64, tie: int) -> SortKeyView {
    (start, tie as u64, 0, 0, Seq::empty())
}

pub open spec fn permute_gaps(gs: Seq<ClippedGap>, order: Seq<usize>) -> Seq<ClippedGap> {
    Seq::new(order.len(), |i: int| gs[order[i] as int])
}

/// The gaps at `positions`, clipped to `[start, end]`, ordered by clipped start then
/// position.
pub open spec fn clipped_gaps_spec(gaps: Seq<GapSpan>, positions: Seq<usize>, start: u64, end: u64) -> Seq<ClippedGap> {
    let items = Seq::new(positions.len(), |i: int| clip_gap(gaps[positions[i] as int], positions[i], start, end));
    let keys = Seq::new(items.len(), |i: int| gap_key(items[i].start, items[i].position as int));
    permute_gaps(items, stable_order(keys, items.len()))
}

fn sort_gaps(items: &Vec<ClippedGap>, keys: &Vec<SortKey>) -> (r: Vec<ClippedGap>)
    requires
        keys.len() == items.len(),
    ensures
        r@ == permute_gaps(items@, stable_order(key_views(keys@), keys.len() as nat)),
{
    let order = stable_sort_order(keys);
    let mut out: Vec<ClippedGap> = Vec::new();
    let mut i: usize = 0;
    while i < order.len()
        invariant
            i <= order.len(),
            is_sorted_permutation(key_views(keys@), order@, keys.len() as nat),
            keys.len() == items.len(),
            out.len() == i,
            forall|j: int| 0 <= j < i ==> #[trigger] out@[j] == items@[order@[j] as int],
        decreases order.len() - i,
    {
        out.push(items[order[i]]);
        i = i + 1;
    }
    assert(out@ =~= permute_gaps(items@, stable_order(key_views(keys@), keys.len() as nat)));
    out
}

/// Clips the owned gaps to an epoch span `[start, end]`, ordered by clipped start
/// then input position.
pub fn clipped_gaps(gaps: &Vec<GapSpan>, positions: &Vec<usize>, start: u64, end: u64) -> (r: Vec<ClippedGap>)
    requires
        forall|i: int| 0 <= i < positions.len() ==> positions@[i] < gaps.len(),
    ensures
        r@ == clipped_gaps_spec(gaps@, positions@, start, end),
{
    let mut items: Vec<ClippedGap> = Vec::new();
    let mut keys: Vec<SortKey> = Vec::new();
    let mut i: usize = 0;
    while i < positions.len()
        invariant
            i <= positions.len(),
            forall|j: int| 0 <= j < positions.len() ==> positions@[j] < gaps.len(),
            items.len() == i,
            keys.len() == i,
            forall|j: int| 0 <= j < i ==> #[trigger] items@[j] == clip_gap(gaps@[positions@[j] as int], positions@[j], start, end),
            forall|j: int| 0 <= j < i ==> #[trigger] keys@[j]@ == gap_key(items@[j].start, items@[j].position as int),
        decreases positions.len() - i,
    {
        let p = positions[i];
        let g = gaps[p];
        let (s, e) = clamp_range(g.start, g.end, start, end);
        items.push(ClippedGap { position: p, gap_id: g.gap_id, start: s, end: e, estimated_missing_frames: g.estimated_missing_frames });
        keys.push(SortKey { k0: s, k1: p as u64, k2: 0, k3: 0, tail: Vec::new() });
        i = i + 1;
    }
    let ghost iv = Seq::new(positions@.len(), |i: int| clip_gap(gaps@[positions@[i] as int], positions@[i], start, end));
    assert(items@ =~= iv);
    assert(key_views(keys@) =~= Seq::new(iv.len(), |i: int| gap_key(iv[i].start, iv[i].position as int)));
    sort_gaps(&items, &keys)
}

/// Re-clamps an epoch's gaps to a narrower span `[start, end]`, ordered by clamped
/// start then list position.
pub open spec fn clamp_gaps_spec(gaps: Seq<ClippedGap>, start: u64, end: u64) -> Seq<ClippedGap> {
    let items = Seq::new(gaps.len(), |i: int| {
        let (s, e) = clamp_range_spec(gaps[i].start, gaps[i].end, start, end);
        ClippedGap { start: s, end: e, ..gaps[i] }
    });
    let keys = Seq::new(items.len(), |i: int| gap_key(items[i].start, i));
    permute_gaps(items, stable_order(keys, items.len()))
}

pub fn clamp_declared_gaps(gaps: &Vec<ClippedGap>, start: u64, end: u64) -> (r: Vec<ClippedGap>)
    ensures
        r@ == clamp_gaps_spec(gaps@, start, end),
{
    let mut items: Vec<ClippedGap> = Vec::new();
    let mut keys: Vec<SortKey> = Vec::new();
    let mut i: usize = 0;
    while i < gaps.len()
        invariant
            i <= gaps.len(),
            items.len() == i,
            keys.len() == i,
            forall|j: int| 0 <= j < i ==> #[trigger] items@[j] == ({
                let (s, e) = clamp_range_spec(gaps@[j].start, gaps@[j].end, start, end);
                ClippedGap { start: s, end: e, ..gaps@[j] }
            }),
            forall|j: int| 0 <= j < i ==> #[trigger] keys@[j]@ == gap_key(items@[j].start, j),
        decreases gaps.len() - i,
    {
        let g = gaps[i];
        let (s, e) = clamp_range(g.start, g.end, start, end);
        items.push(ClippedGap { start: s, end: e, ..g });
        keys.push(SortKey { k0: s, k1: i as u64, k2: 0, k3: 0, tail: Vec::new() });
        i = i + 1;
    }
    let ghost iv = Seq::new(gaps@.len(), |i: int| {
        let (s, e) = clamp_range_spec(gaps@[i].start, gaps@[i].end, start, end);
        ClippedGap { start: s, end: e, ..gaps@[i] }
    });
    assert(items@ =~= iv);
    assert(key_views(keys@) =~= Seq::new(iv.len(), |i: int| gap_key(iv[i].start, i)));
    sort_gaps(&items, &keys)
}

/// Positions (among the first `n`) of markers whose session time lies in `[start, end]`.
pub open spec fn markers_within(times: Seq<u64>, start: u64, end: u64, n: nat) -> Seq<usize>
    decreases n,
{
    if n == 0 {
        Seq::empty()
    } else {
        let rest = markers_within(times, start, end, (n - 1) as nat);
        if start <= times[n - 1] && times[n - 1] <= end { rest.push((n - 1) as usize) } else { rest }
    }
}

/// Markers inside `[start, end]`, as positions into `times`, in their input order.
pub fn clamp_markers(times: &Vec<u64>, start: u64, end: u64) -> (r: Vec<usize>)
    ensures
        r@ == markers_within(times@, start, end, times.len() as nat),
        forall|i: int| 0 <= i < r.len() ==> r@[i] < times.len(),
{
    let mut out: Vec<usize> = Vec::new();
    let mut i: usize = 0;
    while i < times.len()
        invariant
            i <= times.len(),
            out@ == markers_within(times@, start, end, i as nat),
            forall|j: int| 0 <= j < out.len() ==> out@[j] < i,
        decreases times.len() - i,
    {
        if start <= times[i] && times[i] <= end {
            out.push(i);
        }
        i = i + 1;
    }
    out
}

/// Markers inside an epoch span `[start, end]`, ordered by session time then
/// input position.
pub open spec fn clipped_markers_spec(times: Seq<u64>, start: u64, end: u64) -> Seq<usize> {
    let within = markers_within(times, start, end, times.len());
    let keys = Seq::new(within.len(), |i: int| gap_key(times[within[i] as int], within[i] as int));
    Seq::new(within.len(), |i: int| within[stable_order(keys, within.len())[i] as int])
}

pub fn clipped_markers(times: &Vec<u64>, start: u64, end: u64) -> (r: Vec<usize>)
    ensures
        r@ == clipped_markers_spec(times@, start, end),
{
    let within = clamp_markers(times, start, end);
    let mut keys: Vec<SortKey> = Vec::new();
    let mut i: usize = 0;
    while i < within.len()
        invariant
            i <= within.len(),
            forall|j: int| 0 <= j < within.len() ==> within@[j] < times.len(),
            keys.len() == i,
            forall|j: int| 0 <= j < i ==> #[trigger] keys@[j]@ == gap_key(times@[within@[j] as int], within@[j] as int),
        decreases within.len() - i,
    {
        keys.push(SortKey { k0: times[within[i]], k1: within[i] as u64, k2: 0, k3: 0, tail: Vec::new() });
        i = i + 1;
    }
    assert(key_views(keys@) =~= Seq::new(within@.len(), |i: int| gap_key(times@[within@[i] as int], within@[i] as int)));
    let order = stable_sort_order(&keys);
    let mut out: Vec<usize> = Vec::new();
    let mut i: usize = 0;
    while i < order.len()
        invariant
            i <= order.len(),
            is_sorted_permutation(key_views(keys@), order@, keys.len() as nat),
            keys.len() == within.len(),
            out.len() == i,
            forall|j: int| 0 <= j < i ==> #[trigger] out@[j] == within@[order@[j] as int],
        decreases order.len() - i,
    {
        out.push(within[order[i]]);
        i = i + 1;
    }
    assert(out@ =~= Seq::new(within@.len(), |i: int| within@[stable_order(key_views(keys@), within@.len())[i] as int]));
    out
}

// ----- bounded selection -----

/// Whether selected position `p` may be replaced by a required frame: with three
/// or more slots the first and last source frames are never replaced.
pub open spec fn replaceable(sel: Seq<usize>, n: int, max_frames: int, p: int) -> bool {
    max_frames < 3 || (sel[p] != 0 && sel[p] != n - 1)
}

/// Among the first `k` selected positions, the last replaceable one holding the
/// greatest source index.
pub open spec fn replacement(sel: Seq<usize>, n: int, max_frames: int, k: nat) -> Option<int>
    decreases k,
{
    if k == 0 {
        None
    } else {
        let prev = replacement(sel, n, max_frames, (k - 1) as nat);
        let p = k - 1;
        if replaceable(sel, n, max_frames, p) {
            match prev {
                None => Some(p),
                Some(b) => if sel[p] >= sel[b] { Some(p) } else { prev },
            }
        } else {
            prev
        }
    }
}

pub open spec fn value_keys(s: Seq<usize>) -> Seq<SortKeyView> {
    Seq::new(s.len(), |i: int| gap_key(s[i] as u64, 0))
}

/// `s` in ascending order.
pub open spec fn ascending(s: Seq<usize>) -> Seq<usize> {
    Seq::new(s.len(), |i: int| s[stable_order(value_keys(s), s.len())[i] as int])
}

/// The source positions a bounded plan keeps: the uniform selection, with a
/// required frame that it misses swapped in for the replaceable slot holding the
/// greatest index, then sorted; `None` when no slot is replaceable.
pub open spec fn bounded_selection_spec(n: int, max_frames: int, sel: Seq<usize>, required: Option<usize>) -> Option<Seq<usize>> {
    match required {
        None => Some(sel),
        Some(x) => if sel.contains(x) {
            Some(sel)
        } else {
            match replacement(sel, n, max_frames, sel.len()) {
                None => None,
                Some(p) => Some(ascending(sel.update(p, x))),
            }
        },
    }
}

fn copy_positions(s: &Vec<usize>) -> (r: Vec<usize>)
    ensures
        r@ == s@,
{
    let mut out: Vec<usize> = Vec::new();
    let mut i: usize = 0;
    while i < s.len()
        invariant
            i <= s.len(),
            out@ == s@.take(i as int),
        decreases s.len() - i,
    {
        out.push(s[i]);
        assert(s@.take(i + 1) =~= s@.take(i as int).push(s@[i as int]));
        i = i + 1;
    }
    assert(s@.take(i as int) =~= s@);
    out
}

fn ascending_exec(s: &Vec<usize>) -> (r: Vec<usize>)
    ensures
        r@ == ascending(s@),
{
    let mut keys: Vec<SortKey> = Vec::new();
    let mut i: usize = 0;
    while i < s.len()
        invariant
            i <= s.len(),
            keys.len() == i,
            forall|j: int| 0 <= j < i ==> #[trigger] keys@[j]@ == gap_key(s@[j] as u64, 0),
        decreases s.len() - i,
    {
        keys.push(SortKey { k0: s[i] as u64, k1: 0, k2: 0, k3: 0, tail: Vec::new() });
        i = i + 1;
    }
    assert(key_views(keys@) =~= value_keys(s@));
    let order = stable_sort_order(&keys);
    let mut out: Vec<usize> = Vec::new();
    let mut i: usize = 0;
    while i < order.len()
        invariant
            i <= order.len(),
            is_sorted_permutation(key_views(keys@), order@, keys.len() as nat),
            keys.len() == s.len(),
            out.len() == i,
            forall|j: int| 0 <= j < i ==> #[trigger] out@[j] == s@[order@[j] as int],
        decreases order.len() - i,
    {
        out.push(s[order[i]]);
        i = i + 1;
    }
    assert(out@ =~= ascending(s@));
    out
}

/// The source positions kept by a bounded plan of `n > max_frames` frames, given the
/// uniform selection `sel` and the position of a frame that must be kept.
pub fn bounded_selection(n: usize, max_frames: usize, sel: &Vec<usize>, required: Option<usize>) -> (r: Option<Vec<usize>>)
    ensures
        match r {
            Some(v) => bounded_selection_spec(n as int, max_frames as int, sel@, required) == Some(v@),
            None => bounded_selection_spec(n as int, max_frames as int, sel@, required).is_none(),
        },
{
    let x = match required {
        None => {
            return Some(copy_positions(sel));
        },
        Some(x) => x,
    };
    let mut i: usize = 0;
    while i < sel.len()
        invariant
            i <= sel.len(),
            required == Some(x),
            forall|j: int| 0 <= j < i ==> sel@[j] != x,
        decreases sel.len() - i,
    {
        if sel[i] == x {
            assert(sel@.contains(x));
            return Some(copy_positions(sel));
        }
        i = i + 1;
    }
    assert(!sel@.contains(x));
    let mut best: Option<usize> = None;
    let mut k: usize = 0;
    while k < sel.len()
        invariant
            k <= sel.len(),
            match best {
                Some(b) => replacement(sel@, n as int, max_frames as int, k as nat) == Some(b as int) && b < k,
                None => replacement(sel@, n as int, max_frames as int, k as nat).is_none(),
            },
        decreases sel.len() - k,
    {
        let ok = max_frames < 3 || (sel[k] != 0 && (n == 0 || sel[k] != n - 1));
        if ok {
            match best {
                None => {
                    best = Some(k);
                },
                Some(b) => {
                    if sel[k] >= sel[b] {
                        best = Some(k);
                    }
                },
            }
        }
        k = k + 1;
    }
    match best {
        None => None,
        Some(p) => {
            let mut updated = copy_positions(sel);
            updated.set(p, x);
            Some(ascending_exec(&updated))
        },
    }
}

// ----- validation and planning -----

/// The limits that bound adaptation of retained frames into visual epochs.
#[derive(Clone, Copy, Debug, PartialEq, Eq, Structural)]
pub struct AdaptationLimits {
    pub max_source_frames: usize,
    pub max_encoded_source_bytes: usize,
    pub max_dimension: u32,
    pub max_pixels_per_frame: usize,
    pub max_decoded_bytes: usize,
    pub max_markers: usize,
}

impl AdaptationLimits {
    /// Every limit is at least one.
    pub open spec fn positive(self) -> bool {
        &&& self.max_source_frames > 0
        &&& self.max_encoded_source_bytes > 0
        &&& self.max_dimension > 0
        &&& self.max_pixels_per_frame > 0
        &&& self.max_decoded_bytes > 0
        &&& self.max_markers > 0
    }
}

/// What epoch planning reads of a resolved range.
#[derive(Debug)]
pub struct ResolvedFrames {
    pub session_id: u128,
    pub target_id: u128,
    pub resolved: SessionSpan,
    pub frame_ids: Vec<u128>,
    pub gaps: Vec<GapSpan>,
}

/// The investigation scope of a resolved range.
pub open spec fn range_context_spec(range: &ResolvedFrames) -> ErrorContext {
    ErrorContext { session_id: Some(range.session_id), target_id: Some(range.target_id), range: Some(range.resolved) }
}

fn range_context(range: &ResolvedFrames) -> (c: ErrorContext)
    ensures
        c == range_context_spec(range),
{
    ErrorContext { session_id: Some(range.session_id), target_id: Some(range.target_id), range: Some(range.resolved) }
}

/// Total encoded bytes of the first `n` frames.
pub open spec fn encoded_total(frames: Seq<FrameMeta>, n: nat) -> int
    decreases n,
{
    if n == 0 { 0 } else { encoded_total(frames, (n - 1) as nat) + frames[n - 1].encoded_len }
}

/// Frame `k` is the expected identity in the resolved scope and time span, and
/// strictly follows frame `k - 1` in capture order without going back in time.
pub open spec fn frame_consistent(range: &ResolvedFrames, frames: Seq<FrameMeta>, k: int) -> bool {
    let f = frames[k];
    &&& f.frame_id == range.frame_ids@[k]
    &&& f.session_id == range.session_id
    &&& f.target_id == range.target_id
    &&& range.resolved.holds(f.session_time)
    &&& (k > 0 ==> frames[k - 1].capture_ordinal < f.capture_ordinal && frames[k - 1].session_time <= f.session_time)
}

/// The error of the first frame, from `k` on, that contradicts the range or whose
/// decode size does not fit this platform.
pub open spec fn first_frame_error(range: &ResolvedFrames, frames: Seq<FrameMeta>, k: int) -> Option<ErrorCode>
    decreases frames.len() - k,
{
    if k >= frames.len() {
        None
    } else if !frame_consistent(range, frames, k) {
        Some(ErrorCode::ArtifactGenerationFailed)
    } else if decoded_len_spec(frames[k].image_width, frames[k].image_height).is_none() {
        Some(ErrorCode::ResourceLimitExceeded)
    } else {
        first_frame_error(range, frames, k + 1)
    }
}

/// Why retained frames cannot be planned, if they cannot: cancellation, a frame
/// set that is not the resolved one, too many markers, too many encoded bytes, or
/// a frame that contradicts the resolved range.
pub open spec fn validation_error(
    range: &ResolvedFrames,
    frames: Seq<FrameMeta>,
    marker_count: nat,
    limits: AdaptationLimits,
    cancelled: bool,
) -> Option<ErrorCode> {
    if cancelled {
        Some(ErrorCode::Cancelled)
    } else if frames.len() != range.frame_ids@.len() || frames.len() == 0 {
        Some(ErrorCode::ArtifactGenerationFailed)
    } else if marker_count > limits.max_markers {
        Some(ErrorCode::ResourceLimitExceeded)
    } else if encoded_total(frames, frames.len()) > limits.max_encoded_source_bytes {
        Some(ErrorCode::ResourceLimitExceeded)
    } else {
        first_frame_error(range, frames, 0)
    }
}

proof fn lemma_encoded_total_monotone(frames: Seq<FrameMeta>, a: nat, b: nat)
    requires
        a <= b <= frames.len(),
    ensures
        encoded_total(frames, a) <= encoded_total(frames, b),
    decreases b - a,
{
    if a < b {
        lemma_encoded_total_monotone(frames, a, (b - 1) as nat);
    }
}

/// Validates retained frames against the resolved range before any image work.
pub fn validate_frames(
    range: &ResolvedFrames,
    frames: &Vec<FrameMeta>,
    marker_count: usize,
    limits: AdaptationLimits,
    cancelled: bool,
) -> (r: Result<(), Failure>)
    ensures
        match r {
            Ok(()) => validation_error(range, frames@, marker_count as nat, limits, cancelled).is_none(),
            Err(f) => validation_error(range, frames@, marker_count as nat, limits, cancelled) == Some(f.code),
        },
{
    if cancelled {
        return Err(Failure::new(ErrorCode::Cancelled, "artifact generation was cancelled"));
    }
    let context = range_context(range);
    if frames.len() != range.frame_ids.len() || frames.len() == 0 {
        return Err(source_error("frame source did not return the exact resolved frame set").with_context(context));
    }
    if marker_count > limits.max_markers {
        return Err(adaptation_limit_error("artifact marker count exceeds the configured limit").with_context(context));
    }
    let mut total: usize = 0;
    let mut i: usize = 0;
    while i < frames.len()
        invariant
            i <= frames.len(),
            total as int == encoded_total(frames@, i as nat),
            !cancelled,
            frames.len() == range.frame_ids.len(),
            frames.len() > 0,
            marker_count <= limits.max_markers,
            context == range_context_spec(range),
        decreases frames.len() - i,
    {
        match total.checked_add(frames[i].encoded_len) {
            Some(t) => {
                total = t;
            },
            None => {
                proof {
                    lemma_encoded_total_monotone(frames@, (i + 1) as nat, frames.len() as nat);
                }
                return Err(adaptation_limit_error("encoded source bytes overflow").with_context(context));
            },
        }
        i = i + 1;
    }
    if total > limits.max_encoded_source_bytes {
        return Err(adaptation_limit_error("encoded source bytes exceed the configured limit").with_context(context));
    }
    let mut k: usize = 0;
    while k < frames.len()
        invariant
            k <= frames.len(),
            frames.len() == range.frame_ids.len(),
            frames.len() > 0,
            !cancelled,
            marker_count <= limits.max_markers,
            encoded_total(frames@, frames.len() as nat) <= limits.max_encoded_source_bytes,
            context == range_context_spec(range),
            first_frame_error(range, frames@, 0) == first_frame_error(range, frames@, k as int),
        decreases frames.len() - k,
    {
        let f = &frames[k];
        let consistent = f.frame_id == range.frame_ids[k] && f.session_id == range.session_id
            && f.target_id == range.target_id && range.resolved.contains(f.session_time)
            && (k == 0 || (frames[k - 1].capture_ordinal < f.capture_ordinal
                && frames[k - 1].session_time <= f.session_time));
        if !consistent {
            return Err(source_error("frame source order, scope, or metadata contradicts the resolved range").with_context(context));
        }
        match decoded_len(f.image_width, f.image_height) {
            Ok(_) => {},
            Err(e) => {
                return Err(e.with_context(context));
            },
        }
        k = k + 1;
    }
    Ok(())
}

/// A visual epoch planned for generation.
#[derive(Debug)]
pub struct EpochPlan {
    pub index: u32,
    pub frames: Vec<FrameMeta>,
    /// Position of each planned frame within the epoch's source frames.
    pub source_indices: Vec<usize>,
    /// Session-time span of the epoch's source frames.
    pub source_span: SessionSpan,
    pub decoded_bytes: usize,
    /// Positions of the request markers shown on this epoch, in presentation order.
    pub markers: Vec<usize>,
    pub gaps: Vec<ClippedGap>,
}

/// The investigation scope of failures about a plan: the session and target of
/// its frames and its source span.
pub open spec fn plan_context(frames: Seq<FrameMeta>, span: SessionSpan) -> ErrorContext {
    if frames.len() == 0 {
        ErrorContext { session_id: None, target_id: None, range: None }
    } else {
        ErrorContext {
            session_id: Some(frames[0].session_id),
            target_id: Some(frames[0].target_id),
            range: if span.start <= span.end { Some(span) } else { None },
        }
    }
}

impl EpochPlan {
    pub fn error_context(&self) -> (c: ErrorContext)
        ensures
            c == plan_context(self.frames@, self.source_span),
    {
        if self.frames.len() == 0 {
            return ErrorContext { session_id: None, target_id: None, range: None };
        }
        ErrorContext {
            session_id: Some(self.frames[0].session_id),
            target_id: Some(self.frames[0].target_id),
            range: if self.source_span.start <= self.source_span.end { Some(self.source_span) } else { None },
        }
    }
}

pub struct EpochPlanView {
    pub index: u32,
    pub frames: Seq<FrameMeta>,
    pub source_indices: Seq<usize>,
    pub source_span: SessionSpan,
    pub decoded_bytes: usize,
    pub markers: Seq<usize>,
    pub gaps: Seq<ClippedGap>,
}

impl View for EpochPlan {
    type V = EpochPlanView;

    open spec fn view(&self) -> EpochPlanView {
        EpochPlanView {
            index: self.index,
            frames: self.frames@,
            source_indices: self.source_indices@,
            source_span: self.source_span,
            decoded_bytes: self.decoded_bytes,
            markers: self.markers@,
            gaps: self.gaps@,
        }
    }
}

/// Decoded bytes of the first `n` frames.
pub open spec fn decoded_total(frames: Seq<FrameMeta>, n: nat) -> int
    decreases n,
{
    if n == 0 { 0 } else { decoded_total(frames, (n - 1) as nat) + frames[n - 1].image_width * frames[n - 1].image_height * 4 }
}

proof fn lemma_decoded_total_monotone(frames: Seq<FrameMeta>, a: nat, b: nat)
    requires
        a <= b <= frames.len(),
    ensures
        decoded_total(frames, a) <= decoded_total(frames, b),
    decreases b - a,
{
    if a < b {
        lemma_decoded_total_monotone(frames, a, (b - 1) as nat);
        assert(frames[b - 1].image_width * frames[b - 1].image_height >= 0) by (nonlinear_arith);
    }
}

/// Sums the decoded bytes of frames, failing when the sum overflows.
pub fn decoded_sum(frames: &Vec<FrameMeta>) -> (r: Result<usize, Failure>)
    ensures
        match r {
            Ok(v) => v == decoded_total(frames@, frames.len() as nat),
            Err(f) => decoded_total(frames@, frames.len() as nat) > usize::MAX && f.code == ErrorCode::ResourceLimitExceeded,
        },
{
    let mut total: usize = 0;
    let mut i: usize = 0;
    while i < frames.len()
        invariant
            i <= frames.len(),
            total as int == decoded_total(frames@, i as nat),
        decreases frames.len() - i,
    {
        let f = &frames[i];
        let one = match decoded_len(f.image_width, f.image_height) {
            Ok(v) => v,
            Err(e) => {
                proof {
                    lemma_decoded_total_monotone(frames@, (i + 1) as nat, frames.len() as nat);
                }
                return Err(e);
            },
        };
        match total.checked_add(one) {
            Some(t) => {
                total = t;
            },
            None => {
                proof {
                    lemma_decoded_total_monotone(frames@, (i + 1) as nat, frames.len() as nat);
                }
                return Err(adaptation_limit_error("epoch decoded bytes overflow"));
            },
        }
        i = i + 1;
    }
    Ok(total)
}

/// The plan of epoch `e` covering frames `[s, t)`, or `None` when its decoded bytes
/// or its index do not fit.
pub open spec fn plan_epoch_spec(
    range: &ResolvedFrames,
    frames: Seq<FrameMeta>,
    marker_times: Seq<u64>,
    e: int,
    s: int,
    t: int,
    owned: Seq<usize>,
) -> Option<EpochPlanView> {
    let fs = frames.subrange(s, t);
    let start = fs[0].session_time;
    let end = fs.last().session_time;
    if decoded_total(fs, fs.len()) > usize::MAX || e > u32::MAX {
        None
    } else {
        Some(EpochPlanView {
            index: e as u32,
            frames: fs,
            source_indices: Seq::new(fs.len(), |i: int| i as usize),
            source_span: SessionSpan { start, end },
            decoded_bytes: decoded_total(fs, fs.len()) as usize,
            markers: clipped_markers_spec(marker_times, start, end),
            gaps: clipped_gaps_spec(range.gaps@, owned, start, end),
        })
    }
}

/// The session-time bounds of each span.
pub open spec fn span_bounds(frames: Seq<FrameMeta>, spans: Seq<(int, int)>) -> Seq<(u64, u64)> {
    Seq::new(spans.len(), |k: int| (frames[spans[k].0].session_time, frames[spans[k].1 - 1].session_time))
}

/// The plan of visual epoch `e` of validated frames.
pub open spec fn epoch_plan_at(range: &ResolvedFrames, frames: Seq<FrameMeta>, marker_times: Seq<u64>, e: int) -> Option<EpochPlanView> {
    let spans = spans_upto(frames, frames.len());
    let bounds = span_bounds(frames, spans);
    plan_epoch_spec(range, frames, marker_times, e, spans[e].0, spans[e].1, owned_gaps(bounds, range.gaps@, e, range.gaps@.len()))
}

/// The epoch plans of validated frames, or `None` when an epoch does not fit.
pub open spec fn plans_spec(range: &ResolvedFrames, frames: Seq<FrameMeta>, marker_times: Seq<u64>) -> Option<Seq<EpochPlanView>> {
    let n = spans_upto(frames, frames.len()).len();
    if exists|e: int| 0 <= e < n && (#[trigger] epoch_plan_at(range, frames, marker_times, e)).is_none() {
        None
    } else {
        Some(Seq::new(n, |e: int| epoch_plan_at(range, frames, marker_times, e).unwrap()))
    }
}

fn copy_frames(frames: &Vec<FrameMeta>, s: usize, t: usize) -> (r: Vec<FrameMeta>)
    requires
        s <= t <= frames.len(),
    ensures
        r@ == frames@.subrange(s as int, t as int),
{
    let mut out: Vec<FrameMeta> = Vec::new();
    let mut i: usize = s;
    while i < t
        invariant
            s <= i <= t,
            t <= frames.len(),
            out@ == frames@.subrange(s as int, i as int),
        decreases t - i,
    {
        out.push(frames[i]);
        assert(frames@.subrange(s as int, i + 1) =~= frames@.subrange(s as int, i as int).push(frames@[i as int]));
        i = i + 1;
    }
    out
}

/// Plans every visual epoch of validated frames: frames, source span, decoded
/// bytes, the markers inside the span and the gaps the epoch owns, clipped to it.
pub fn plan_epochs(range: &ResolvedFrames, frames: &Vec<FrameMeta>, marker_times: &Vec<u64>) -> (r: Result<Vec<EpochPlan>, Failure>)
    requires
        frames.len() > 0,
    ensures
        match r {
            Ok(plans) => plans_spec(range, frames@, marker_times@) == Some(plans@.map_values(|p: EpochPlan| p@)),
            Err(f) => plans_spec(range, frames@, marker_times@).is_none() && f.code == ErrorCode::ResourceLimitExceeded,
        },
{
    let spans = partition_epochs(frames);
    let ghost sp = spans_upto(frames@, frames.len() as nat);
    let mut bounds: Vec<(u64, u64)> = Vec::new();
    let mut k: usize = 0;
    while k < spans.len()
        invariant
            k <= spans.len(),
            spans.len() == sp.len(),
            forall|j: int| 0 <= j < spans.len() ==> (#[trigger] spans@[j]).0 as int == sp[j].0 && spans@[j].1 as int == sp[j].1,
            forall|j: int| 0 <= j < spans.len() ==> (#[trigger] spans@[j]).0 < spans@[j].1 <= frames.len(),
            bounds.len() == k,
            forall|j: int| 0 <= j < k ==> #[trigger] bounds@[j] == span_bounds(frames@, sp)[j],
        decreases spans.len() - k,
    {
        bounds.push((frames[spans[k].0].session_time, frames[spans[k].1 - 1].session_time));
        k = k + 1;
    }
    assert(bounds@ =~= span_bounds(frames@, sp));
    let owners = assign_gap_owners(&bounds, &range.gaps);
    let glen = range.gaps.len();
    assert(glen == range.gaps@.len());
    let mut plans: Vec<EpochPlan> = Vec::new();
    let mut e: usize = 0;
    while e < spans.len()
        invariant
            e <= spans.len(),
            spans.len() == sp.len(),
            owners.len() == spans.len(),
            bounds@ == span_bounds(frames@, sp),
            forall|j: int| 0 <= j < spans.len() ==> (#[trigger] spans@[j]).0 as int == sp[j].0 && spans@[j].1 as int == sp[j].1,
            forall|j: int| 0 <= j < spans.len() ==> (#[trigger] spans@[j]).0 < spans@[j].1 <= frames.len(),
            forall|x: int| 0 <= x < owners.len() ==> (#[trigger] owners@[x])@ == owned_gaps(bounds@, range.gaps@, x, range.gaps@.len()),
            range.gaps@.len() <= usize::MAX,
            sp == spans_upto(frames@, frames@.len()),
            plans.len() == e,
            forall|j: int| 0 <= j < e ==> Some(#[trigger] plans@[j]@) == plan_epoch_spec(range, frames@, marker_times@, j, sp[j].0, sp[j].1, owned_gaps(bounds@, range.gaps@, j, range.gaps@.len())),
        decreases spans.len() - e,
    {
        let (s, t) = spans[e];
        let fs = copy_frames(frames, s, t);
        let ghost owned = owned_gaps(bounds@, range.gaps@, e as int, range.gaps@.len());
        let decoded = match decoded_sum(&fs) {
            Ok(v) => v,
            Err(err) => {
                assert(sp == spans_upto(frames@, frames@.len()));
                assert(fs@ == frames@.subrange(sp[e as int].0, sp[e as int].1));
                assert(decoded_total(fs@, fs@.len()) > usize::MAX);
                assert(epoch_plan_at(range, frames@, marker_times@, e as int).is_none());
                return Err(err);
            },
        };
        if e > u32::MAX as usize {
            assert(epoch_plan_at(range, frames@, marker_times@, e as int).is_none());
            return Err(adaptation_limit_error("visual epoch count exceeds the result format"));
        }
        let start = fs[0].session_time;
        let end = fs[fs.len() - 1].session_time;
        let markers = clipped_markers(marker_times, start, end);
        proof {
            assert forall|i: int| 0 <= i < owners@[e as int]@.len() implies owners@[e as int]@[i] < range.gaps.len() by {
                lemma_owned_gaps_in_range(bounds@, range.gaps@, e as int, range.gaps@.len());
            }
        }
        let gaps = clipped_gaps(&range.gaps, &owners[e], start, end);
        let mut indices: Vec<usize> = Vec::new();
        let mut i: usize = 0;
        while i < fs.len()
            invariant
                i <= fs.len(),
                indices.len() == i,
                forall|j: int| 0 <= j < i ==> #[trigger] indices@[j] == j as usize,
            decreases fs.len() - i,
        {
            indices.push(i);
            i = i + 1;
        }
        assert(indices@ =~= Seq::new(fs@.len(), |i: int| i as usize));
        plans.push(EpochPlan {
            index: e as u32,
            frames: fs,
            source_indices: indices,
            source_span: SessionSpan { start, end },
            decoded_bytes: decoded,
            markers,
            gaps,
        });
        e = e + 1;
    }
    assert forall|j: int| 0 <= j < sp.len() implies (#[trigger] epoch_plan_at(range, frames@, marker_times@, j)).is_some() by {
        assert(Some(plans@[j]@) == plan_epoch_spec(range, frames@, marker_times@, j, sp[j].0, sp[j].1, owned_gaps(bounds@, range.gaps@, j, range.gaps@.len())));
    }
    assert(plans@.map_values(|p: EpochPlan| p@) =~= Seq::new(sp.len(), |j: int| epoch_plan_at(range, frames@, marker_times@, j).unwrap()));
    Ok(plans)
}

proof fn lemma_owned_gaps_in_range(bounds: Seq<(u64, u64)>, gaps: Seq<GapSpan>, e: int, n: nat)
    requires
        n <= usize::MAX,
    ensures
        forall|i: int| 0 <= i < owned_gaps(bounds, gaps, e, n).len() ==> owned_gaps(bounds, gaps, e, n)[i] < n,
    decreases n,
{
    if n > 0 {
        lemma_owned_gaps_in_range(bounds, gaps, e, (n - 1) as nat);
        let rest = owned_gaps(bounds, gaps, e, (n - 1) as nat);
        assert(((n - 1) as usize) < n);
        if gap_owner(bounds, gaps[n - 1].start, gaps[n - 1].end) == e {
            let pushed = rest.push((n - 1) as usize);
            assert forall|i: int| 0 <= i < pushed.len() implies #[trigger] pushed[i] < n by {
                if i < rest.len() {
                    assert(pushed[i] == rest[i]);
                }
            }
        }
    }
}

/// Validates retained frames and plans their visual epochs.
pub fn validate_and_plan(
    range: &ResolvedFrames,
    frames: &Vec<FrameMeta>,
    marker_times: &Vec<u64>,
    limits: AdaptationLimits,
    cancelled: bool,
) -> (r: Result<Vec<EpochPlan>, Failure>)
    ensures
        match r {
            Ok(plans) => validation_error(range, frames@, marker_times.len() as nat, limits, cancelled).is_none()
                && plans_spec(range, frames@, marker_times@) == Some(plans@.map_values(|p: EpochPlan| p@)),
            Err(f) => validation_error(range, frames@, marker_times.len() as nat, limits, cancelled) == Some(f.code)
                || (validation_error(range, frames@, marker_times.len() as nat, limits, cancelled).is_none()
                    && plans_spec(range, frames@, marker_times@).is_none()
                    && f.code == ErrorCode::ResourceLimitExceeded),
        },
{
    validate_frames(range, frames, marker_times.len(), limits, cancelled)?;
    plan_epochs(range, frames, marker_times)
}

/// Position of the first frame with the given identity.
pub open spec fn frame_position(frames: Seq<FrameMeta>, id: u128, k: int) -> Option<usize>
    decreases frames.len() - k,
{
    if k >= frames.len() {
        None
    } else if frames[k].frame_id == id {
        Some(k as usize)
    } else {
        frame_position(frames, id, k + 1)
    }
}

/// The plan bounded to at most `max_frames` frames, given the uniform selection
/// `sel` of the plan's frames and a frame identity that must be kept: an error code
/// when no slot can hold the required frame or the kept frames' decoded bytes
/// overflow.
pub open spec fn bounded_plan_spec(
    plan: EpochPlanView,
    max_frames: int,
    sel: Seq<usize>,
    required: Option<u128>,
    marker_times: Seq<u64>,
) -> Result<EpochPlanView, ErrorCode> {
    let n = plan.frames.len();
    if n <= max_frames {
        Ok(plan)
    } else {
        let req = match required {
            Some(id) => frame_position(plan.frames, id, 0),
            None => None,
        };
        match bounded_selection_spec(n as int, max_frames, sel, req) {
            None => Err(ErrorCode::ArtifactGenerationFailed),
            Some(kept) => {
                let fs = Seq::new(kept.len(), |i: int| plan.frames[kept[i] as int]);
                if decoded_total(fs, fs.len()) > usize::MAX {
                    Err(ErrorCode::ResourceLimitExceeded)
                } else {
                    let start = fs[0].session_time;
                    let end = fs.last().session_time;
                    let mts = Seq::new(plan.markers.len(), |i: int| marker_times[plan.markers[i] as int]);
                    Ok(EpochPlanView {
                        frames: fs,
                        source_indices: Seq::new(kept.len(), |i: int| plan.source_indices[kept[i] as int]),
                        decoded_bytes: decoded_total(fs, fs.len()) as usize,
                        markers: Seq::new(markers_within(mts, start, end, mts.len()).len(), |i: int| plan.markers[markers_within(mts, start, end, mts.len())[i] as int]),
                        gaps: clamp_gaps_spec(plan.gaps, start, end),
                        ..plan
                    })
                }
            },
        }
    }
}

proof fn lemma_ascending_elements(s: Seq<usize>)
    requires
        s.len() <= usize::MAX,
    ensures
        ascending(s).len() == s.len(),
        forall|i: int| 0 <= i < s.len() ==> exists|j: int| 0 <= j < s.len() && #[trigger] ascending(s)[i] == s[j],
{
    crate::order::lemma_stable_order_sorted_permutation(value_keys(s), s.len());
    let o = stable_order(value_keys(s), s.len());
    assert forall|i: int| 0 <= i < s.len() implies exists|j: int| 0 <= j < s.len() && #[trigger] ascending(s)[i] == s[j] by {
        assert(ascending(s)[i] == s[o[i] as int]);
    }
}

fn copy_plan(plan: &EpochPlan) -> (r: EpochPlan)
    ensures
        r@ == plan@,
{
    let mut frames: Vec<FrameMeta> = Vec::new();
    let mut i: usize = 0;
    while i < plan.frames.len()
        invariant
            i <= plan.frames.len(),
            frames@ == plan.frames@.take(i as int),
        decreases plan.frames.len() - i,
    {
        frames.push(plan.frames[i]);
        assert(plan.frames@.take(i + 1) =~= plan.frames@.take(i as int).push(plan.frames@[i as int]));
        i = i + 1;
    }
    assert(plan.frames@.take(i as int) =~= plan.frames@);
    let mut gaps: Vec<ClippedGap> = Vec::new();
    let mut i: usize = 0;
    while i < plan.gaps.len()
        invariant
            i <= plan.gaps.len(),
            gaps@ == plan.gaps@.take(i as int),
        decreases plan.gaps.len() - i,
    {
        gaps.push(plan.gaps[i]);
        assert(plan.gaps@.take(i + 1) =~= plan.gaps@.take(i as int).push(plan.gaps@[i as int]));
        i = i + 1;
    }
    assert(plan.gaps@.take(i as int) =~= plan.gaps@);
    EpochPlan {
        index: plan.index,
        frames,
        source_indices: copy_positions(&plan.source_indices),
        source_span: plan.source_span,
        decoded_bytes: plan.decoded_bytes,
        markers: copy_positions(&plan.markers),
        gaps,
    }
}

/// Bounds a plan to at most `max_frames` frames. `sel` is the uniform selection of
/// `max_frames` of the plan's frames; a required frame the selection misses takes
/// the replaceable slot holding the greatest index. Markers outside the kept span
/// are dropped and gaps are clamped to it.
pub fn bounded_plan(
    plan: &EpochPlan,
    max_frames: usize,
    sel: &Vec<usize>,
    required: Option<u128>,
    marker_times: &Vec<u64>,
) -> (r: Result<EpochPlan, Failure>)
    requires
        plan.frames.len() > max_frames ==> sel.len() > 0,
        plan.frames.len() > max_frames ==> forall|i: int| 0 <= i < sel.len() ==> sel@[i] < plan.frames.len(),
        plan.source_indices.len() == plan.frames.len(),
        forall|i: int| 0 <= i < plan.markers.len() ==> plan.markers@[i] < marker_times.len(),
    ensures
        match r {
            Ok(p) => bounded_plan_spec(plan@, max_frames as int, sel@, required, marker_times@) == Ok::<EpochPlanView, ErrorCode>(p@),
            Err(f) => bounded_plan_spec(plan@, max_frames as int, sel@, required, marker_times@) == Err::<EpochPlanView, ErrorCode>(f.code),
        },
{
    let n = plan.frames.len();
    if n <= max_frames {
        return Ok(copy_plan(plan));
    }
    let req = match required {
        Some(id) => find_frame(&plan.frames, id),
        None => None,
    };
    let ghost req_spec = match required {
        Some(id) => frame_position(plan.frames@, id, 0),
        None => None,
    };
    assert(req == req_spec);
    let kept = match bounded_selection(n, max_frames, sel, req) {
        Some(v) => v,
        None => {
            return Err(Failure::new(ErrorCode::ArtifactGenerationFailed, "bounded artifact selection could not retain the required frame")
                .with_recovery("retry with a larger tile limit or a locator within the selected frames"));
        },
    };
    proof {
        match req {
            Some(x) => {
                if !sel@.contains(x) {
                    let p = replacement(sel@, n as int, max_frames as int, sel@.len()).unwrap();
                    lemma_replacement_bounds(sel@, n as int, max_frames as int, sel@.len());
                    let upd = sel@.update(p, x);
                    assert(x < n) by {
                        lemma_frame_position_bounds(plan.frames@, required.unwrap(), 0);
                    }
                    lemma_ascending_elements(upd);
                    assert forall|i: int| 0 <= i < kept@.len() implies kept@[i] < n by {
                        let j = choose|j: int| 0 <= j < upd.len() && ascending(upd)[i] == upd[j];
                        if j != p {
                            assert(upd[j] == sel@[j]);
                        }
                    }
                }
            },
            None => {},
        }
    }
    let mut frames: Vec<FrameMeta> = Vec::new();
    let mut source_indices: Vec<usize> = Vec::new();
    let mut i: usize = 0;
    while i < kept.len()
        invariant
            i <= kept.len(),
            forall|j: int| 0 <= j < kept.len() ==> kept@[j] < plan.frames.len(),
            plan.source_indices.len() == plan.frames.len(),
            frames.len() == i,
            source_indices.len() == i,
            forall|j: int| 0 <= j < i ==> #[trigger] frames@[j] == plan.frames@[kept@[j] as int],
            forall|j: int| 0 <= j < i ==> #[trigger] source_indices@[j] == plan.source_indices@[kept@[j] as int],
        decreases kept.len() - i,
    {
        frames.push(plan.frames[kept[i]]);
        source_indices.push(plan.source_indices[kept[i]]);
        i = i + 1;
    }
    let ghost fsv = Seq::new(kept@.len(), |i: int| plan.frames@[kept@[i] as int]);
    assert(frames@ =~= fsv);
    let decoded = match decoded_sum(&frames) {
        Ok(v) => v,
        Err(e) => {
            return Err(e);
        },
    };
    let start = frames[0].session_time;
    let end = frames[frames.len() - 1].session_time;
    let mut mts: Vec<u64> = Vec::new();
    let mut i: usize = 0;
    while i < plan.markers.len()
        invariant
            i <= plan.markers.len(),
            forall|j: int| 0 <= j < plan.markers.len() ==> plan.markers@[j] < marker_times.len(),
            mts.len() == i,
            forall|j: int| 0 <= j < i ==> #[trigger] mts@[j] == marker_times@[plan.markers@[j] as int],
        decreases plan.markers.len() - i,
    {
        mts.push(marker_times[plan.markers[i]]);
        i = i + 1;
    }
    let ghost mtsv = Seq::new(plan.markers@.len(), |i: int| marker_times@[plan.markers@[i] as int]);
    assert(mts@ =~= mtsv);
    let within = clamp_markers(&mts, start, end);
    let mut markers: Vec<usize> = Vec::new();
    let mut i: usize = 0;
    while i < within.len()
        invariant
            i <= within.len(),
            forall|j: int| 0 <= j < within.len() ==> within@[j] < mts.len(),
            mts.len() == plan.markers.len(),
            markers.len() == i,
            forall|j: int| 0 <= j < i ==> #[trigger] markers@[j] == plan.markers@[within@[j] as int],
        decreases within.len() - i,
    {
        markers.push(plan.markers[within[i]]);
        i = i + 1;
    }
    assert(markers@ =~= Seq::new(within@.len(), |i: int| plan.markers@[within@[i] as int]));
    let gaps = clamp_declared_gaps(&plan.gaps, start, end);
    assert(source_indices@ =~= Seq::new(kept@.len(), |i: int| plan.source_indices@[kept@[i] as int]));
    Ok(EpochPlan {
        index: plan.index,
        frames,
        source_indices,
        source_span: plan.source_span,
        decoded_bytes: decoded,
        markers,
        gaps,
    })
}

fn find_frame(frames: &Vec<FrameMeta>, id: u128) -> (r: Option<usize>)
    ensures
        r == frame_position(frames@, id, 0),
{
    let mut k: usize = 0;
    while k < frames.len()
        invariant
            k <= frames.len(),
            frame_position(frames@, id, 0) == frame_position(frames@, id, k as int),
        decreases frames.len() - k,
    {
        if frames[k].frame_id == id {
            return Some(k);
        }
        k = k + 1;
    }
    None
}

proof fn lemma_frame_position_bounds(frames: Seq<FrameMeta>, id: u128, k: int)
    requires
        0 <= k,
        frames.len() <= usize::MAX,
    ensures
        frame_position(frames, id, k) matches Some(p) ==> k <= p < frames.len(),
    decreases frames.len() - k,
{
    if k < frames.len() && frames[k].frame_id != id {
        lemma_frame_position_bounds(frames, id, k + 1);
    }
}

proof fn lemma_replacement_bounds(sel: Seq<usize>, n: int, max_frames: int, k: nat)
    requires
        k <= sel.len(),
    ensures
        replacement(sel, n, max_frames, k) matches Some(p) ==> 0 <= p < k && replaceable(sel, n, max_frames, p),
    decreases k,
{
    if k > 0 {
        lemma_replacement_bounds(sel, n, max_frames, (k - 1) as nat);
    }
}

/// A bounded selection keeps the required frame, and as many frames as the
/// uniform selection.
pub proof fn lemma_bounded_selection_keeps_required(n: int, max_frames: int, sel: Seq<usize>, x: usize)
    requires
        sel.len() <= usize::MAX,
        bounded_selection_spec(n, max_frames, sel, Some(x)) is Some,
    ensures
        bounded_selection_spec(n, max_frames, sel, Some(x)).unwrap().contains(x),
        bounded_selection_spec(n, max_frames, sel, Some(x)).unwrap().len() == sel.len(),
{
    if !sel.contains(x) {
        let p = replacement(sel, n, max_frames, sel.len()).unwrap();
        lemma_replacement_bounds(sel, n, max_frames, sel.len());
        let upd = sel.update(p, x);
        let order = stable_order(value_keys(upd), upd.len());
        crate::order::lemma_stable_order_covers(value_keys(upd), upd.len(), p);
        crate::order::lemma_stable_order_sorted_permutation(value_keys(upd), upd.len());
        let j = choose|j: int| 0 <= j < upd.len() && order[j] == p;
        assert(ascending(upd)[j] == x);
    }
}

/// Positions strictly increase.
pub open spec fn strictly_increasing(s: Seq<usize>) -> bool {
    forall|a: int, b: int| 0 <= a < b < s.len() ==> s[a] < s[b]
}

/// The frames a bounded plan keeps stay in source order without repeats: when
/// the uniform selection strictly increases, so do the kept positions, whether
/// or not a required frame was swapped in.
pub proof fn lemma_bounded_selection_strictly_increasing(n: int, max_frames: int, sel: Seq<usize>, required: Option<usize>)
    requires
        sel.len() <= usize::MAX,
        strictly_increasing(sel),
        bounded_selection_spec(n, max_frames, sel, required) is Some,
    ensures
        strictly_increasing(bounded_selection_spec(n, max_frames, sel, required).unwrap()),
{
    if let Some(x) = required {
        if !sel.contains(x) {
            let p = replacement(sel, n, max_frames, sel.len()).unwrap();
            lemma_replacement_bounds(sel, n, max_frames, sel.len());
            let upd = sel.update(p, x);
            let keys = value_keys(upd);
            let order = stable_order(keys, upd.len());
            crate::order::lemma_stable_order_sorted_permutation(keys, upd.len());
            crate::order::lemma_bytes_lt_irreflexive(Seq::<u8>::empty());
            assert forall|i: int, j: int| 0 <= i < upd.len() && 0 <= j < upd.len() && i != j implies upd[i] != upd[j] by {
                if i == p {
                    assert(sel[j] == upd[j]);
                } else if j == p {
                    assert(sel[i] == upd[i]);
                } else {
                    assert(upd[i] == sel[i] && upd[j] == sel[j]);
                }
            }
            let r = ascending(upd);
            assert forall|a: int, b: int| 0 <= a < b < r.len() implies r[a] < r[b] by {
                assert(crate::order::entry_lt(keys, order[a] as int, order[b] as int));
                assert(order[a] != order[b]);
                assert(keys[order[a] as int] == gap_key(upd[order[a] as int] as u64, 0));
                assert(keys[order[b] as int] == gap_key(upd[order[b] as int] as u64, 0));
            }
        }
    }
}

/// With three or more slots, a bounded selection that keeps a required frame
/// never gives up the first or last source frame the uniform selection held.
pub proof fn lemma_bounded_selection_keeps_endpoints(n: int, max_frames: int, sel: Seq<usize>, x: usize, e: usize)
    requires
        sel.len() <= usize::MAX,
        max_frames >= 3,
        e == 0 || e == n - 1,
        sel.contains(e),
        bounded_selection_spec(n, max_frames, sel, Some(x)) is Some,
    ensures
        bounded_selection_spec(n, max_frames, sel, Some(x)).unwrap().contains(e),
{
    if !sel.contains(x) {
        let p = replacement(sel, n, max_frames, sel.len()).unwrap();
        lemma_replacement_bounds(sel, n, max_frames, sel.len());
        let upd = sel.update(p, x);
        let i = choose|i: int| 0 <= i < sel.len() && sel[i] == e;
        assert(i != p);
        assert(upd[i] == e);
        let order = stable_order(value_keys(upd), upd.len());
        crate::order::lemma_stable_order_covers(value_keys(upd), upd.len(), i);
        crate::order::lemma_stable_order_sorted_permutation(value_keys(upd), upd.len());
        let j = choose|j: int| 0 <= j < upd.len() && order[j] == i;
        assert(ascending(upd)[j] == e);
    }
}

} // verus!
