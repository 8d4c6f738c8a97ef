//! Bounded, privacy-safe marker assembly for the temporal debug bundle.
//!
//! Caller markers and the resolved natural-anchor marker are preserved exactly;
//! the remaining candidates from the bounded timeline read are ranked by
//! session-time distance to the effective anchor, capped, and presented in
//! chronological order. Labels carry only typed identifiers and operation names.
use vstd::prelude::*;
use vstd::utf8::encode_utf8;

use crate::errors::{ErrorCode, Failure};
use crate::ids::{text_then_uuid, uuid_text};
use crate::order::{
    SortKey, SortKeyView, entry_lt, is_sorted_permutation, key_lt, key_views, lemma_key_lt_strict_total,
    lemma_stable_order_covers, lemma_stable_order_sorted_permutation, stable_order, stable_sort_order,
};
use crate::spans::SessionSpan;

verus! {

/// Rows a bounded timeline read may return for marker evidence.
pub const MAX_BUNDLE_TIMELINE_ROWS: u16 = 1024;

/// Markers a bundle carries at most.
pub const MAX_BUNDLE_ARTIFACT_MARKERS: usize = 256;

/// Identity of a marker: a typed 128-bit identifier or a caller-chosen text.
#[derive(Debug)]
pub enum MarkerId {
    Interaction(u128),
    Navigation(u128),
    Marker(u128),
    Caller(String),
}

pub enum MarkerIdView {
    Interaction(u128),
    Navigation(u128),
    Marker(u128),
    Caller(Seq<char>),
}

impl View for MarkerId {
    type V = MarkerIdView;

    open spec fn view(&self) -> MarkerIdView {
        match self {
            MarkerId::Interaction(v) => MarkerIdView::Interaction(*v),
            MarkerId::Navigation(v) => MarkerIdView::Navigation(*v),
            MarkerId::Marker(v) => MarkerIdView::Marker(*v),
            MarkerId::Caller(s) => MarkerIdView::Caller(s@),
        }
    }
}

impl MarkerId {
    /// An identical identifier.
    pub fn duplicate(&self) -> (r: MarkerId)
        ensures
            r@ == self@,
    {
        match self {
            MarkerId::Interaction(v) => MarkerId::Interaction(*v),
            MarkerId::Navigation(v) => MarkerId::Navigation(*v),
            MarkerId::Marker(v) => MarkerId::Marker(*v),
            MarkerId::Caller(s) => MarkerId::Caller(s.clone()),
        }
    }

    /// Whether two identifiers are the same typed identity.
    pub fn same(&self, other: &MarkerId) -> (r: bool)
        ensures
            r == (self@ == other@),
    {
        match (self, other) {
            (MarkerId::Interaction(a), MarkerId::Interaction(b)) => *a == *b,
            (MarkerId::Navigation(a), MarkerId::Navigation(b)) => *a == *b,
            (MarkerId::Marker(a), MarkerId::Marker(b)) => *a == *b,
            (MarkerId::Caller(a), MarkerId::Caller(b)) => *a == *b,
            _ => false,
        }
    }
}

/// A marker shown on generated artifacts: identity, session time, kind and label.
#[derive(Debug)]
pub struct ArtifactMarker {
    pub id: MarkerId,
    pub session_time: u64,
    pub kind: String,
    pub label: String,
}

pub struct MarkerView {
    pub id: MarkerIdView,
    pub session_time: u64,
    pub kind: Seq<char>,
    pub label: Seq<char>,
}

impl View for ArtifactMarker {
    type V = MarkerView;

    open spec fn view(&self) -> MarkerView {
        MarkerView {
            id: self.id@,
            session_time: self.session_time,
            kind: self.kind@,
            label: self.label@,
        }
    }
}

impl ArtifactMarker {
    /// An identical marker.
    pub fn duplicate(&self) -> (r: ArtifactMarker)
        ensures
            r@ == self@,
    {
        ArtifactMarker {
            id: self.id.duplicate(),
            session_time: self.session_time,
            kind: self.kind.clone(),
            label: self.label.clone(),
        }
    }
}

/// The natural anchor a range was resolved around.
#[derive(Clone, Copy, Debug, PartialEq, Eq, Structural)]
pub enum AnchorReference {
    Interaction(u128),
    Navigation(u128),
    Marker(u128),
    Interval,
    SourceFrames,
}

/// What marker assembly reads of a resolved range.
#[derive(Clone, Copy, Debug, PartialEq, Eq, Structural)]
pub struct RangeScope {
    pub resolved: SessionSpan,
    pub effective_anchor: u64,
    pub anchor: AnchorReference,
}

/// The authoritative dispatch record of one interaction.
#[derive(Debug)]
pub struct InteractionAnchor {
    pub interaction_id: u128,
    /// The operation's stable name, such as `click`.
    pub operation: String,
    pub dispatched_at: u64,
}

pub struct AnchorView {
    pub interaction_id: u128,
    pub operation: Seq<char>,
    pub dispatched_at: u64,
}

impl View for InteractionAnchor {
    type V = AnchorView;

    open spec fn view(&self) -> AnchorView {
        AnchorView {
            interaction_id: self.interaction_id,
            operation: self.operation@,
            dispatched_at: self.dispatched_at,
        }
    }
}

/// The typed payload a timeline observation refers to.
#[derive(Clone, Copy, Debug, PartialEq, Eq, Structural)]
pub enum ObservationPayload {
    Interaction(u128),
    Navigation(u128),
    Marker(u128),
    Other,
}

/// One timeline row: its session time and payload reference.
#[derive(Clone, Copy, Debug, PartialEq, Eq, Structural)]
pub struct Observation {
    pub session_time: u64,
    pub payload: ObservationPayload,
}

/// A bounded timeline read: how many rows matched, the rows returned, and whether
/// the read was cut short.
#[derive(Debug)]
pub struct TimelineSlice {
    pub matched_count: u64,
    pub observations: Vec<Observation>,
    pub truncated: bool,
}

/// Composition warnings attached to a bundle.
#[derive(Debug)]
pub enum BundleWarning {
    TimelineMarkerEvidenceTruncated { matched_count: u64, returned_count: u64, limit: u16 },
    MarkerLabelUnavailable { marker_id: MarkerId },
    MarkersTruncated { matched_count: u64, returned_count: u64, limit: u16 },
    AnchorAdjustedForRetention { requested: u64, effective: u64 },
    NoMajorVisualChangeFocus,
}

pub enum WarningView {
    TimelineMarkerEvidenceTruncated { matched_count: u64, returned_count: u64, limit: u16 },
    MarkerLabelUnavailable { marker_id: MarkerIdView },
    MarkersTruncated { matched_count: u64, returned_count: u64, limit: u16 },
    AnchorAdjustedForRetention { requested: u64, effective: u64 },
    NoMajorVisualChangeFocus,
}

impl View for BundleWarning {
    type V = WarningView;

    open spec fn view(&self) -> WarningView {
        match self {
            BundleWarning::TimelineMarkerEvidenceTruncated { matched_count, returned_count, limit } =>
                WarningView::TimelineMarkerEvidenceTruncated {
                matched_count: *matched_count,
                returned_count: *returned_count,
                limit: *limit,
            },
            BundleWarning::MarkerLabelUnavailable { marker_id } =>
                WarningView::MarkerLabelUnavailable { marker_id: marker_id@ },
            BundleWarning::MarkersTruncated { matched_count, returned_count, limit } =>
                WarningView::MarkersTruncated {
                matched_count: *matched_count,
                returned_count: *returned_count,
                limit: *limit,
            },
            BundleWarning::AnchorAdjustedForRetention { requested, effective } =>
                WarningView::AnchorAdjustedForRetention {
                requested: *requested,
                effective: *effective,
            },
            BundleWarning::NoMajorVisualChangeFocus => WarningView::NoMajorVisualChangeFocus,
        }
    }
}

/// The assembled marker list and the warnings its composition produced.
#[derive(Debug)]
pub struct AssembledMarkers {
    pub markers: Vec<ArtifactMarker>,
    pub warnings: Vec<BundleWarning>,
}

pub open spec fn marker_views(ms: Seq<ArtifactMarker>) -> Seq<MarkerView> {
    ms.map_values(|m: ArtifactMarker| m@)
}

pub open spec fn warning_views(ws: Seq<BundleWarning>) -> Seq<WarningView> {
    ws.map_values(|w: BundleWarning| w@)
}

pub open spec fn anchor_views(anchors: Seq<InteractionAnchor>) -> Seq<AnchorView> {
    anchors.map_values(|a: InteractionAnchor| a@)
}

// ----- labels -----

pub open spec fn interaction_label(id: u128, operation: Seq<char>) -> Seq<char> {
    "Interaction "@ + uuid_text(id) + ": "@ + operation
}

pub open spec fn interaction_fallback_label(id: u128) -> Seq<char> {
    "Interaction "@ + uuid_text(id)
}

pub open spec fn navigation_label(id: u128) -> Seq<char> {
    "Navigation "@ + uuid_text(id)
}

pub open spec fn generic_label(id: u128) -> Seq<char> {
    "Marker "@ + uuid_text(id)
}

/// The marker for an interaction, placed at its exact dispatch time.
pub open spec fn interaction_marker_spec(a: AnchorView) -> MarkerView {
    MarkerView {
        id: MarkerIdView::Interaction(a.interaction_id),
        session_time: a.dispatched_at,
        kind: "interaction"@,
        label: interaction_label(a.interaction_id, a.operation),
    }
}

pub open spec fn navigation_marker_spec(id: u128, time: u64) -> MarkerView {
    MarkerView {
        id: MarkerIdView::Navigation(id),
        session_time: time,
        kind: "navigation"@,
        label: navigation_label(id),
    }
}

pub open spec fn generic_marker_spec(id: u128, time: u64) -> MarkerView {
    MarkerView {
        id: MarkerIdView::Marker(id),
        session_time: time,
        kind: "marker"@,
        label: generic_label(id),
    }
}

// ----- lookups -----

/// The first loaded anchor for an interaction, if any.
pub open spec fn lookup_anchor(anchors: Seq<AnchorView>, id: u128) -> Option<AnchorView>
    decreases anchors.len(),
{
    if anchors.len() == 0 {
        None
    } else if anchors[0].interaction_id == id {
        Some(anchors[0])
    } else {
        lookup_anchor(anchors.drop_first(), id)
    }
}

/// Whether some marker of `ms` carries identity `id`.
pub open spec fn has_id(ms: Seq<MarkerView>, id: MarkerIdView) -> bool {
    exists|i: int| 0 <= i < ms.len() && ms[i].id == id
}

/// The first marker of `ms` carrying identity `id`, if any.
pub open spec fn first_with_id(ms: Seq<MarkerView>, id: MarkerIdView) -> Option<MarkerView>
    decreases ms.len(),
{
    if ms.len() == 0 {
        None
    } else if ms[0].id == id {
        Some(ms[0])
    } else {
        first_with_id(ms.drop_first(), id)
    }
}

/// The mandatory natural-anchor marker and whether its label is a synthetic
/// identifier-only fallback. Interval and source-frame anchors have none.
pub open spec fn anchor_marker_spec(scope: RangeScope, anchors: Seq<AnchorView>) -> Option<(MarkerView, bool)> {
    let t = scope.effective_anchor;
    match scope.anchor {
        AnchorReference::Interaction(id) => match lookup_anchor(anchors, id) {
            Some(a) => Some((MarkerView { id: MarkerIdView::Interaction(id), session_time: t, kind: "interaction"@, label: interaction_label(id, a.operation) }, false)),
            None => Some((MarkerView { id: MarkerIdView::Interaction(id), session_time: t, kind: "interaction"@, label: interaction_fallback_label(id) }, true)),
        },
        AnchorReference::Navigation(id) => Some((navigation_marker_spec(id, t), false)),
        AnchorReference::Marker(id) => Some((generic_marker_spec(id, t), true)),
        _ => None,
    }
}

// ----- candidates -----

/// Whether an earlier row of `obs` refers to the same payload as row `k`.
pub open spec fn seen_before(obs: Seq<Observation>, k: int) -> bool {
    exists|j: int| 0 <= j < k && obs[j].payload == obs[k].payload
}

/// What row `k` contributes: a candidate marker, and whether that candidate has no
/// caller-supplied presentation (a generic marker, which earns a label warning).
pub open spec fn candidate_step(
    scope: RangeScope,
    obs: Seq<Observation>,
    k: int,
    mandatory: Seq<MarkerView>,
    anchors: Seq<AnchorView>,
) -> Option<(MarkerView, bool)> {
    let o = obs[k];
    if seen_before(obs, k) {
        None
    } else {
        match o.payload {
            ObservationPayload::Interaction(id) => {
                if has_id(mandatory, MarkerIdView::Interaction(id)) {
                    None
                } else {
                    match lookup_anchor(anchors, id) {
                        Some(a) => {
                            let m = interaction_marker_spec(a);
                            if scope.resolved.holds(m.session_time) { Some((m, false)) } else { None }
                        },
                        None => None,
                    }
                }
            },
            ObservationPayload::Navigation(id) => {
                if has_id(mandatory, MarkerIdView::Navigation(id)) || !scope.resolved.holds(o.session_time) {
                    None
                } else {
                    Some((navigation_marker_spec(id, o.session_time), false))
                }
            },
            ObservationPayload::Marker(id) => {
                if has_id(mandatory, MarkerIdView::Marker(id)) || !scope.resolved.holds(o.session_time) {
                    None
                } else {
                    Some((generic_marker_spec(id, o.session_time), true))
                }
            },
            ObservationPayload::Other => None,
        }
    }
}

/// Candidates and their label warnings contributed by the first `n` rows, in row order.
pub open spec fn candidates_upto(
    scope: RangeScope,
    obs: Seq<Observation>,
    n: nat,
    mandatory: Seq<MarkerView>,
    anchors: Seq<AnchorView>,
) -> (Seq<MarkerView>, Seq<WarningView>)
    decreases n,
{
    if n == 0 {
        (Seq::empty(), Seq::empty())
    } else {
        let (ms, ws) = candidates_upto(scope, obs, (n - 1) as nat, mandatory, anchors);
        match candidate_step(scope, obs, n - 1, mandatory, anchors) {
            Some((m, warn)) => (
                ms.push(m),
                if warn { ws.push(WarningView::MarkerLabelUnavailable { marker_id: m.id }) } else { ws },
            ),
            None => (ms, ws),
        }
    }
}

// ----- ordering -----

/// Class rank: interaction, navigation, marker, then caller identities.
pub open spec fn class_rank(id: MarkerIdView) -> u64 {
    match id {
        MarkerIdView::Interaction(_) => 0,
        MarkerIdView::Navigation(_) => 1,
        MarkerIdView::Marker(_) => 2,
        MarkerIdView::Caller(_) => 3,
    }
}

/// The stable identity order: a typed identifier by its 128-bit value (the order
/// of its big-endian bytes), a caller identity by its UTF-8 bytes.
pub open spec fn id_numeric(id: MarkerIdView) -> u128 {
    match id {
        MarkerIdView::Interaction(v) => v,
        MarkerIdView::Navigation(v) => v,
        MarkerIdView::Marker(v) => v,
        MarkerIdView::Caller(_) => 0,
    }
}

pub open spec fn id_tail(id: MarkerIdView) -> Seq<u8> {
    match id {
        MarkerIdView::Caller(s) => encode_utf8(s),
        _ => Seq::empty(),
    }
}

pub open spec fn abs_diff(a: u64, b: u64) -> u64 {
    if a >= b { (a - b) as u64 } else { (b - a) as u64 }
}

/// Candidate ranking: distance to the anchor, class, session time, identity.
pub open spec fn rank_key(m: MarkerView, anchor: u64) -> SortKeyView {
    (abs_diff(m.session_time, anchor), class_rank(m.id), m.session_time, id_numeric(m.id), id_tail(m.id))
}

/// Presentation order: session time, class, identity.
pub open spec fn presentation_key(m: MarkerView) -> SortKeyView {
    (m.session_time, class_rank(m.id), 0, id_numeric(m.id), id_tail(m.id))
}

pub open spec fn rank_keys(ms: Seq<MarkerView>, anchor: u64) -> Seq<SortKeyView> {
    Seq::new(ms.len(), |i: int| rank_key(ms[i], anchor))
}

pub open spec fn presentation_keys(ms: Seq<MarkerView>) -> Seq<SortKeyView> {
    Seq::new(ms.len(), |i: int| presentation_key(ms[i]))
}

/// `ms` rearranged by the positions of `order`.
pub open spec fn permute(ms: Seq<MarkerView>, order: Seq<usize>) -> Seq<MarkerView> {
    Seq::new(order.len(), |i: int| ms[order[i] as int])
}

// ----- the whole assembly -----

/// The mandatory markers (caller markers, then the anchor marker unless a caller
/// marker carries its identity) and the anchor's label warning; `None` when a caller
/// marker carries the anchor's identity at a different session time.
pub open spec fn mandatory_spec(
    scope: RangeScope,
    callers: Seq<MarkerView>,
    anchors: Seq<AnchorView>,
) -> Option<(Seq<MarkerView>, Seq<WarningView>)> {
    match anchor_marker_spec(scope, anchors) {
        Some((am, synthetic)) => match first_with_id(callers, am.id) {
            Some(c) => if c.session_time != am.session_time {
                None
            } else {
                Some((callers, Seq::empty()))
            },
            None => Some((
                callers.push(am),
                if synthetic { seq![WarningView::MarkerLabelUnavailable { marker_id: am.id }] } else { Seq::empty() },
            )),
        },
        None => Some((callers, Seq::empty())),
    }
}

/// Mandatory markers followed by the best-ranked candidates, capped at 256 with a
/// truncation warning, in presentation order.
pub open spec fn present_spec(
    mandatory: Seq<MarkerView>,
    cands: Seq<MarkerView>,
    anchor: u64,
) -> (Seq<MarkerView>, Seq<WarningView>) {
    let ranked = permute(cands, stable_order(rank_keys(cands, anchor), cands.len()));
    let total = mandatory.len() + cands.len();
    let remaining = if mandatory.len() >= MAX_BUNDLE_ARTIFACT_MARKERS { 0 } else { MAX_BUNDLE_ARTIFACT_MARKERS - mandatory.len() };
    let take = if remaining < ranked.len() { remaining } else { ranked.len() as int };
    let combined = if total > MAX_BUNDLE_ARTIFACT_MARKERS { mandatory + ranked.take(take) } else { mandatory + ranked };
    let warnings = if total > MAX_BUNDLE_ARTIFACT_MARKERS {
        seq![WarningView::MarkersTruncated {
            matched_count: total as u64,
            returned_count: combined.len() as u64,
            limit: MAX_BUNDLE_ARTIFACT_MARKERS as u16,
        }]
    } else {
        Seq::empty()
    };
    (permute(combined, stable_order(presentation_keys(combined), combined.len())), warnings)
}

/// The source-cap warning of a bounded timeline read.
pub open spec fn truncation_warnings(matched_count: u64, returned: nat, truncated: bool) -> Seq<WarningView> {
    if truncated {
        seq![WarningView::TimelineMarkerEvidenceTruncated {
            matched_count,
            returned_count: returned as u64,
            limit: MAX_BUNDLE_TIMELINE_ROWS,
        }]
    } else {
        Seq::empty()
    }
}

/// The markers and warnings of a successful assembly, or `None` when a caller
/// marker carries the anchor's identity at a different session time.
pub open spec fn assemble_spec(
    scope: RangeScope,
    callers: Seq<MarkerView>,
    matched_count: u64,
    obs: Seq<Observation>,
    truncated: bool,
    anchors: Seq<AnchorView>,
) -> Option<(Seq<MarkerView>, Seq<WarningView>)> {
    match mandatory_spec(scope, callers, anchors) {
        None => None,
        Some((mandatory, anchor_warnings)) => {
            let (cands, cand_warnings) = candidates_upto(scope, obs, obs.len(), mandatory, anchors);
            let (markers, cap_warnings) = present_spec(mandatory, cands, scope.effective_anchor);
            Some((
                markers,
                truncation_warnings(matched_count, obs.len(), truncated) + anchor_warnings + cand_warnings + cap_warnings,
            ))
        },
    }
}

// ----- laws of presentation -----

/// Mandatory markers are always preserved: each one appears in the presented
/// list, whatever the candidates.
pub proof fn lemma_presentation_keeps_mandatory(mandatory: Seq<MarkerView>, cands: Seq<MarkerView>, anchor: u64, i: int)
    requires
        mandatory.len() + cands.len() <= usize::MAX,
        0 <= i < mandatory.len(),
    ensures
        exists|j: int| 0 <= j < present_spec(mandatory, cands, anchor).0.len()
            && #[trigger] present_spec(mandatory, cands, anchor).0[j] == mandatory[i],
{
    let ranked = permute(cands, stable_order(rank_keys(cands, anchor), cands.len()));
    lemma_stable_order_sorted_permutation(rank_keys(cands, anchor), cands.len());
    let total = mandatory.len() + cands.len();
    let remaining = if mandatory.len() >= MAX_BUNDLE_ARTIFACT_MARKERS { 0 } else { MAX_BUNDLE_ARTIFACT_MARKERS - mandatory.len() };
    let take = if remaining < ranked.len() { remaining } else { ranked.len() as int };
    let combined = if total > MAX_BUNDLE_ARTIFACT_MARKERS { mandatory + ranked.take(take) } else { mandatory + ranked };
    assert(combined[i] == mandatory[i]);
    assert(combined.len() <= usize::MAX);
    let order = stable_order(presentation_keys(combined), combined.len());
    lemma_stable_order_covers(presentation_keys(combined), combined.len(), i);
    let j = choose|j: int| 0 <= j < combined.len() && order[j] == i;
    lemma_stable_order_sorted_permutation(presentation_keys(combined), combined.len());
    assert(present_spec(mandatory, cands, anchor).0[j] == combined[i]);
}

/// The presented list holds at most 256 markers, or the mandatory markers alone
/// when they are more.
pub proof fn lemma_presentation_capped(mandatory: Seq<MarkerView>, cands: Seq<MarkerView>, anchor: u64)
    requires
        mandatory.len() + cands.len() <= usize::MAX,
    ensures
        present_spec(mandatory, cands, anchor).0.len() <= (if mandatory.len() > MAX_BUNDLE_ARTIFACT_MARKERS {
            mandatory.len()
        } else {
            MAX_BUNDLE_ARTIFACT_MARKERS as nat
        }),
        present_spec(mandatory, cands, anchor).0.len() >= mandatory.len(),
{
    lemma_stable_order_sorted_permutation(rank_keys(cands, anchor), cands.len());
    let ranked = permute(cands, stable_order(rank_keys(cands, anchor), cands.len()));
    let total = mandatory.len() + cands.len();
    let remaining = if mandatory.len() >= MAX_BUNDLE_ARTIFACT_MARKERS { 0 } else { MAX_BUNDLE_ARTIFACT_MARKERS - mandatory.len() };
    let take = if remaining < ranked.len() { remaining } else { ranked.len() as int };
    let combined = if total > MAX_BUNDLE_ARTIFACT_MARKERS { mandatory + ranked.take(take) } else { mandatory + ranked };
    lemma_stable_order_sorted_permutation(presentation_keys(combined), combined.len());
}

/// The presented list is in presentation order: session time, then marker
/// class, then stable identity, never decreasing.
pub proof fn lemma_presentation_ordered(mandatory: Seq<MarkerView>, cands: Seq<MarkerView>, anchor: u64, a: int, b: int)
    requires
        mandatory.len() + cands.len() <= usize::MAX,
        0 <= a < b < present_spec(mandatory, cands, anchor).0.len(),
    ensures
        !key_lt(
            presentation_key(present_spec(mandatory, cands, anchor).0[b]),
            presentation_key(present_spec(mandatory, cands, anchor).0[a]),
        ),
{
    lemma_stable_order_sorted_permutation(rank_keys(cands, anchor), cands.len());
    let ranked = permute(cands, stable_order(rank_keys(cands, anchor), cands.len()));
    let total = mandatory.len() + cands.len();
    let remaining = if mandatory.len() >= MAX_BUNDLE_ARTIFACT_MARKERS { 0 } else { MAX_BUNDLE_ARTIFACT_MARKERS - mandatory.len() };
    let take = if remaining < ranked.len() { remaining } else { ranked.len() as int };
    let combined = if total > MAX_BUNDLE_ARTIFACT_MARKERS { mandatory + ranked.take(take) } else { mandatory + ranked };
    let keys = presentation_keys(combined);
    let order = stable_order(keys, combined.len());
    lemma_stable_order_sorted_permutation(keys, combined.len());
    assert(entry_lt(keys, order[a] as int, order[b] as int));
    let ka = keys[order[a] as int];
    let kb = keys[order[b] as int];
    lemma_key_lt_strict_total(ka, kb, ka);
    lemma_key_lt_strict_total(kb, ka, kb);
    assert(ka == presentation_key(present_spec(mandatory, cands, anchor).0[a]));
    assert(kb == presentation_key(present_spec(mandatory, cands, anchor).0[b]));
}

proof fn lemma_candidates_len(scope: RangeScope, obs: Seq<Observation>, n: nat, mandatory: Seq<MarkerView>, anchors: Seq<AnchorView>)
    ensures
        candidates_upto(scope, obs, n, mandatory, anchors).0.len() <= n,
    decreases n,
{
    if n > 0 {
        lemma_candidates_len(scope, obs, (n - 1) as nat, mandatory, anchors);
    }
}

/// What an assembled bundle's markers always are: every caller marker is
/// among them, they are in presentation order, and there are at most 256 of
/// them unless the caller markers and the anchor alone are more.
pub proof fn lemma_assembly_keeps_callers_in_order(
    scope: RangeScope,
    callers: Seq<MarkerView>,
    matched_count: u64,
    obs: Seq<Observation>,
    truncated: bool,
    anchors: Seq<AnchorView>,
)
    requires
        callers.len() + obs.len() + 1 <= usize::MAX,
        assemble_spec(scope, callers, matched_count, obs, truncated, anchors) is Some,
    ensures
        ({
            let markers = assemble_spec(scope, callers, matched_count, obs, truncated, anchors).unwrap().0;
            &&& forall|i: int| 0 <= i < callers.len() ==> markers.contains(#[trigger] callers[i])
            &&& forall|a: int, b: int| 0 <= a < b < markers.len()
                ==> !key_lt(presentation_key(#[trigger] markers[b]), presentation_key(#[trigger] markers[a]))
            &&& markers.len() <= (if callers.len() + 1 > MAX_BUNDLE_ARTIFACT_MARKERS { callers.len() + 1 } else { MAX_BUNDLE_ARTIFACT_MARKERS as nat })
        }),
{
    let (mandatory, _) = mandatory_spec(scope, callers, anchors).unwrap();
    let cands = candidates_upto(scope, obs, obs.len(), mandatory, anchors).0;
    lemma_candidates_len(scope, obs, obs.len(), mandatory, anchors);
    let markers = present_spec(mandatory, cands, scope.effective_anchor).0;
    assert(mandatory.len() <= callers.len() + 1);
    assert forall|i: int| 0 <= i < callers.len() implies markers.contains(#[trigger] callers[i]) by {
        assert(mandatory[i] == callers[i]);
        lemma_presentation_keeps_mandatory(mandatory, cands, scope.effective_anchor, i);
    }
    assert forall|a: int, b: int| 0 <= a < b < markers.len()
        implies !key_lt(presentation_key(#[trigger] markers[b]), presentation_key(#[trigger] markers[a])) by {
        lemma_presentation_ordered(mandatory, cands, scope.effective_anchor, a, b);
    }
    lemma_presentation_capped(mandatory, cands, scope.effective_anchor);
}

// ----- executable assembly -----

/// Position of the first loaded anchor for an interaction.
fn find_anchor(anchors: &Vec<InteractionAnchor>, id: u128) -> (r: Option<usize>)
    ensures
        match r {
            Some(i) => i < anchors.len() && lookup_anchor(anchor_views(anchors@), id) == Some(anchors@[i as int]@),
            None => lookup_anchor(anchor_views(anchors@), id).is_none(),
        },
{
    let ghost av = anchor_views(anchors@);
    let mut i: usize = 0;
    assert(av.skip(0) =~= av);
    while i < anchors.len()
        invariant
            i <= anchors.len(),
            av == anchor_views(anchors@),
            lookup_anchor(av, id) == lookup_anchor(av.skip(i as int), id),
        decreases anchors.len() - i,
    {
        if anchors[i].interaction_id == id {
            assert(av.skip(i as int)[0] == anchors@[i as int]@);
            return Some(i);
        }
        assert(av.skip(i as int).drop_first() =~= av.skip(i + 1));
        i = i + 1;
    }
    assert(av.skip(i as int).len() == 0);
    None
}

/// Whether some marker of `ms` carries identity `id`.
fn contains_id(ms: &Vec<ArtifactMarker>, id: &MarkerId) -> (r: bool)
    ensures
        r == has_id(marker_views(ms@), id@),
{
    let ghost mv = marker_views(ms@);
    let mut i: usize = 0;
    while i < ms.len()
        invariant
            i <= ms.len(),
            mv == marker_views(ms@),
            forall|j: int| 0 <= j < i ==> mv[j].id != id@,
        decreases ms.len() - i,
    {
        if ms[i].id.same(id) {
            assert(mv[i as int].id == id@);
            return true;
        }
        i = i + 1;
    }
    false
}

/// The first marker of `ms` carrying identity `id`.
fn find_with_id(ms: &Vec<ArtifactMarker>, id: &MarkerId) -> (r: Option<usize>)
    ensures
        match r {
            Some(i) => i < ms.len() && first_with_id(marker_views(ms@), id@) == Some(ms@[i as int]@),
            None => first_with_id(marker_views(ms@), id@).is_none(),
        },
{
    let ghost mv = marker_views(ms@);
    let mut i: usize = 0;
    assert(mv.skip(0) =~= mv);
    while i < ms.len()
        invariant
            i <= ms.len(),
            mv == marker_views(ms@),
            first_with_id(mv, id@) == first_with_id(mv.skip(i as int), id@),
        decreases ms.len() - i,
    {
        if ms[i].id.same(id) {
            assert(mv.skip(i as int)[0] == ms@[i as int]@);
            return Some(i);
        }
        assert(mv.skip(i as int).drop_first() =~= mv.skip(i + 1));
        i = i + 1;
    }
    assert(mv.skip(i as int).len() == 0);
    None
}

fn interaction_label_exec(id: u128, operation: &String) -> (r: String)
    ensures
        r@ == interaction_label(id, operation@),
{
    let mut text = text_then_uuid("Interaction ", id);
    text.append(": ");
    text.append(operation.as_str());
    text
}

fn interaction_marker_exec(a: &InteractionAnchor) -> (m: ArtifactMarker)
    ensures
        m@ == interaction_marker_spec(a@),
{
    ArtifactMarker {
        id: MarkerId::Interaction(a.interaction_id),
        session_time: a.dispatched_at,
        kind: String::from_str("interaction"),
        label: interaction_label_exec(a.interaction_id, &a.operation),
    }
}

fn navigation_marker_exec(id: u128, time: u64) -> (m: ArtifactMarker)
    ensures
        m@ == navigation_marker_spec(id, time),
{
    ArtifactMarker {
        id: MarkerId::Navigation(id),
        session_time: time,
        kind: String::from_str("navigation"),
        label: text_then_uuid("Navigation ", id),
    }
}

fn generic_marker_exec(id: u128, time: u64) -> (m: ArtifactMarker)
    ensures
        m@ == generic_marker_spec(id, time),
{
    ArtifactMarker {
        id: MarkerId::Marker(id),
        session_time: time,
        kind: String::from_str("marker"),
        label: text_then_uuid("Marker ", id),
    }
}

/// The mandatory natural-anchor marker and whether its label is synthetic.
fn anchor_marker(scope: &RangeScope, anchors: &Vec<InteractionAnchor>) -> (r: Option<(ArtifactMarker, bool)>)
    ensures
        match r {
            Some((m, synthetic)) => anchor_marker_spec(*scope, anchor_views(anchors@)) == Some((m@, synthetic)),
            None => anchor_marker_spec(*scope, anchor_views(anchors@)).is_none(),
        },
{
    let t = scope.effective_anchor;
    match scope.anchor {
        AnchorReference::Interaction(id) => match find_anchor(anchors, id) {
            Some(i) => Some((
                ArtifactMarker {
                    id: MarkerId::Interaction(id),
                    session_time: t,
                    kind: String::from_str("interaction"),
                    label: interaction_label_exec(id, &anchors[i].operation),
                },
                false,
            )),
            None => Some((
                ArtifactMarker {
                    id: MarkerId::Interaction(id),
                    session_time: t,
                    kind: String::from_str("interaction"),
                    label: text_then_uuid("Interaction ", id),
                },
                true,
            )),
        },
        AnchorReference::Navigation(id) => Some((navigation_marker_exec(id, t), false)),
        AnchorReference::Marker(id) => Some((generic_marker_exec(id, t), true)),
        _ => None,
    }
}

fn utf8_bytes(s: &String) -> (r: Vec<u8>)
    ensures
        r@ == encode_utf8(s@),
{
    let bytes = s.as_str().as_bytes();
    let mut out: Vec<u8> = Vec::new();
    let mut i: usize = 0;
    while i < bytes.len()
        invariant
            i <= bytes@.len(),
            bytes@ == encode_utf8(s@),
            out@ == bytes@.take(i as int),
        decreases bytes.len() - i,
    {
        out.push(bytes[i]);
        assert(bytes@.take(i + 1) =~= bytes@.take(i as int).push(bytes@[i as int]));
        i = i + 1;
    }
    assert(bytes@.take(i as int) =~= bytes@);
    out
}

fn class_rank_exec(id: &MarkerId) -> (r: u64)
    ensures
        r == class_rank(id@),
{
    match id {
        MarkerId::Interaction(_) => 0,
        MarkerId::Navigation(_) => 1,
        MarkerId::Marker(_) => 2,
        MarkerId::Caller(_) => 3,
    }
}

fn id_numeric_exec(id: &MarkerId) -> (r: u128)
    ensures
        r == id_numeric(id@),
{
    match id {
        MarkerId::Interaction(v) => *v,
        MarkerId::Navigation(v) => *v,
        MarkerId::Marker(v) => *v,
        MarkerId::Caller(_) => 0,
    }
}

fn id_tail_exec(id: &MarkerId) -> (r: Vec<u8>)
    ensures
        r@ == id_tail(id@),
{
    match id {
        MarkerId::Caller(s) => utf8_bytes(s),
        _ => Vec::new(),
    }
}

fn rank_keys_exec(ms: &Vec<ArtifactMarker>, anchor: u64) -> (r: Vec<SortKey>)
    ensures
        r.len() == ms.len(),
        key_views(r@) == rank_keys(marker_views(ms@), anchor),
{
    let mut keys: Vec<SortKey> = Vec::new();
    let mut i: usize = 0;
    while i < ms.len()
        invariant
            i <= ms.len(),
            keys.len() == i,
            forall|j: int| 0 <= j < i ==> #[trigger] keys@[j]@ == rank_key(ms@[j]@, anchor),
        decreases ms.len() - i,
    {
        let m = &ms[i];
        let d = if m.session_time >= anchor { m.session_time - anchor } else { anchor - m.session_time };
        keys.push(SortKey {
            k0: d,
            k1: class_rank_exec(&m.id),
            k2: m.session_time,
            k3: id_numeric_exec(&m.id),
            tail: id_tail_exec(&m.id),
        });
        i = i + 1;
    }
    assert(key_views(keys@) =~= rank_keys(marker_views(ms@), anchor));
    keys
}

fn presentation_keys_exec(ms: &Vec<ArtifactMarker>) -> (r: Vec<SortKey>)
    ensures
        r.len() == ms.len(),
        key_views(r@) == presentation_keys(marker_views(ms@)),
{
    let mut keys: Vec<SortKey> = Vec::new();
    let mut i: usize = 0;
    while i < ms.len()
        invariant
            i <= ms.len(),
            keys.len() == i,
            forall|j: int| 0 <= j < i ==> #[trigger] keys@[j]@ == presentation_key(ms@[j]@),
        decreases ms.len() - i,
    {
        let m = &ms[i];
        keys.push(SortKey {
            k0: m.session_time,
            k1: class_rank_exec(&m.id),
            k2: 0,
            k3: id_numeric_exec(&m.id),
            tail: id_tail_exec(&m.id),
        });
        i = i + 1;
    }
    assert(key_views(keys@) =~= presentation_keys(marker_views(ms@)));
    keys
}

/// `ms` rearranged by the positions of `order`, truncated to its first `limit` entries.
fn permute_markers(ms: &Vec<ArtifactMarker>, order: &Vec<usize>, limit: usize) -> (r: Vec<ArtifactMarker>)
    requires
        limit <= order.len(),
        forall|i: int| 0 <= i < order.len() ==> order@[i] < ms.len(),
    ensures
        marker_views(r@) == permute(marker_views(ms@), order@).take(limit as int),
{
    let mut out: Vec<ArtifactMarker> = Vec::new();
    let mut i: usize = 0;
    while i < limit
        invariant
            i <= limit,
            limit <= order.len(),
            forall|j: int| 0 <= j < order.len() ==> order@[j] < ms.len(),
            out.len() == i,
            forall|j: int| 0 <= j < i ==> #[trigger] out@[j]@ == ms@[order@[j] as int]@,
        decreases limit - i,
    {
        out.push(ms[order[i]].duplicate());
        i = i + 1;
    }
    assert(marker_views(out@) =~= permute(marker_views(ms@), order@).take(limit as int));
    out
}

proof fn lemma_take_all(s: Seq<MarkerView>)
    ensures
        s.take(s.len() as int) == s,
{
    assert(s.take(s.len() as int) =~= s);
}

/// Sorts markers into the stable order of `keys`, keeping the first `limit`.
fn order_markers(ms: &Vec<ArtifactMarker>, keys: &Vec<SortKey>, limit: usize) -> (r: Vec<ArtifactMarker>)
    requires
        keys.len() == ms.len(),
        limit <= ms.len(),
    ensures
        stable_order(key_views(keys@), keys.len() as nat).len() == keys.len(),
        marker_views(r@) == permute(marker_views(ms@), stable_order(key_views(keys@), keys.len() as nat)).take(limit as int),
{
    let order = stable_sort_order(keys);
    permute_markers(ms, &order, limit)
}

fn copy_markers(ms: &Vec<ArtifactMarker>) -> (r: Vec<ArtifactMarker>)
    ensures
        marker_views(r@) == marker_views(ms@),
        r.len() == ms.len(),
{
    let mut out: Vec<ArtifactMarker> = Vec::new();
    let mut i: usize = 0;
    while i < ms.len()
        invariant
            i <= ms.len(),
            out.len() == i,
            forall|j: int| 0 <= j < i ==> #[trigger] out@[j]@ == ms@[j]@,
        decreases ms.len() - i,
    {
        out.push(ms[i].duplicate());
        i = i + 1;
    }
    assert(marker_views(out@) =~= marker_views(ms@));
    out
}

/// The mandatory markers and the anchor's label warning, or the identity conflict.
fn mandatory_markers(scope: &RangeScope, callers: &Vec<ArtifactMarker>, anchors: &Vec<InteractionAnchor>) -> (r: Result<(Vec<ArtifactMarker>, Vec<BundleWarning>), Failure>)
    ensures
        match r {
            Ok((ms, ws)) => mandatory_spec(*scope, marker_views(callers@), anchor_views(anchors@)) == Some((marker_views(ms@), warning_views(ws@))),
            Err(f) => mandatory_spec(*scope, marker_views(callers@), anchor_views(anchors@)).is_none() && f.code == ErrorCode::InvalidInput
                && f.message@ == "caller marker session time conflicts with the resolved anchor at the same identifier"@,
        },
        match r {
            Ok((ms, ws)) => ms.len() <= callers.len() + 1,
            Err(_) => true,
        },
{
    let mut mandatory = copy_markers(callers);
    let mut warnings: Vec<BundleWarning> = Vec::new();
    match anchor_marker(scope, anchors) {
        Some((am, synthetic)) => {
            match find_with_id(callers, &am.id) {
                Some(ci) => {
                    if callers[ci].session_time != am.session_time {
                        return Err(Failure::new(
                            ErrorCode::InvalidInput,
                            "caller marker session time conflicts with the resolved anchor at the same identifier",
                        ));
                    }
                    assert(warning_views(warnings@) =~= Seq::<WarningView>::empty());
                },
                None => {
                    if synthetic {
                        warnings.push(BundleWarning::MarkerLabelUnavailable { marker_id: am.id.duplicate() });
                        assert(warning_views(warnings@) =~= seq![WarningView::MarkerLabelUnavailable { marker_id: am@.id }]);
                    } else {
                        assert(warning_views(warnings@) =~= Seq::<WarningView>::empty());
                    }
                    let ghost before = marker_views(mandatory@);
                    mandatory.push(am);
                    assert(marker_views(mandatory@) =~= before.push(am@));
                },
            }
        },
        None => {
            assert(warning_views(warnings@) =~= Seq::<WarningView>::empty());
        },
    }
    Ok((mandatory, warnings))
}

/// Candidates and label warnings from the bounded timeline read, in row order.
fn timeline_candidates(
    scope: &RangeScope,
    obs: &Vec<Observation>,
    mandatory: &Vec<ArtifactMarker>,
    anchors: &Vec<InteractionAnchor>,
) -> (r: (Vec<ArtifactMarker>, Vec<BundleWarning>))
    ensures
        (marker_views(r.0@), warning_views(r.1@)) == candidates_upto(*scope, obs@, obs@.len(), marker_views(mandatory@), anchor_views(anchors@)),
        r.0.len() <= obs.len(),
{
    let ghost mv = marker_views(mandatory@);
    let ghost av = anchor_views(anchors@);
    let mut warnings: Vec<BundleWarning> = Vec::new();
    let mut cands: Vec<ArtifactMarker> = Vec::new();
    let mut k: usize = 0;
    while k < obs.len()
        invariant
            k <= obs.len(),
            mv == marker_views(mandatory@),
            av == anchor_views(anchors@),
            warning_views(warnings@) == candidates_upto(*scope, obs@, k as nat, mv, av).1,
            marker_views(cands@) == candidates_upto(*scope, obs@, k as nat, mv, av).0,
            cands.len() <= k,
        decreases obs.len() - k,
    {
        let ghost before_c = marker_views(cands@);
        let ghost before_w = warning_views(warnings@);
        let o = obs[k];
        let mut seen = false;
        let mut j: usize = 0;
        while j < k
            invariant
                j <= k,
                k < obs.len(),
                o == obs@[k as int],
                seen == (exists|q: int| 0 <= q < j && obs@[q].payload == obs@[k as int].payload),
            decreases k - j,
        {
            if obs[j].payload == o.payload {
                seen = true;
            }
            j = j + 1;
        }
        assert(seen == seen_before(obs@, k as int));
        if !seen {
            match o.payload {
                ObservationPayload::Interaction(id) => {
                    if !contains_id(mandatory, &MarkerId::Interaction(id)) {
                        if let Some(ai) = find_anchor(anchors, id) {
                            let m = interaction_marker_exec(&anchors[ai]);
                            if scope.resolved.contains(m.session_time) {
                                cands.push(m);
                            }
                        }
                    }
                },
                ObservationPayload::Navigation(id) => {
                    if !contains_id(mandatory, &MarkerId::Navigation(id)) && scope.resolved.contains(o.session_time) {
                        cands.push(navigation_marker_exec(id, o.session_time));
                    }
                },
                ObservationPayload::Marker(id) => {
                    if !contains_id(mandatory, &MarkerId::Marker(id)) && scope.resolved.contains(o.session_time) {
                        warnings.push(BundleWarning::MarkerLabelUnavailable { marker_id: MarkerId::Marker(id) });
                        cands.push(generic_marker_exec(id, o.session_time));
                    }
                },
                ObservationPayload::Other => {},
            }
        }
        proof {
            let step = candidate_step(*scope, obs@, k as int, mv, av);
            match step {
                Some((m, warn)) => {
                    assert(marker_views(cands@) =~= before_c.push(m));
                    if warn {
                        assert(warning_views(warnings@) =~= before_w.push(WarningView::MarkerLabelUnavailable { marker_id: m.id }));
                    } else {
                        assert(warning_views(warnings@) =~= before_w);
                    }
                },
                None => {
                    assert(marker_views(cands@) =~= before_c);
                    assert(warning_views(warnings@) =~= before_w);
                },
            }
        }
        k = k + 1;
    }
    (cands, warnings)
}

/// Mandatory markers followed by the best-ranked candidates, capped, presented.
fn present_markers(mandatory: Vec<ArtifactMarker>, cands: &Vec<ArtifactMarker>, anchor: u64) -> (r: (Vec<ArtifactMarker>, Vec<BundleWarning>))
    requires
        mandatory.len() + cands.len() < usize::MAX,
    ensures
        (marker_views(r.0@), warning_views(r.1@)) == present_spec(marker_views(mandatory@), marker_views(cands@), anchor),
{
    let ghost mv = marker_views(mandatory@);
    let ghost cview = marker_views(cands@);
    let rank = rank_keys_exec(cands, anchor);
    let ranked = order_markers(cands, &rank, cands.len());
    proof {
        lemma_take_all(permute(cview, stable_order(rank_keys(cview, anchor), cview.len())));
    }
    let ghost rv = marker_views(ranked@);
    assert(rv == permute(cview, stable_order(rank_keys(cview, anchor), cview.len())));
    let total = mandatory.len() + cands.len();
    let mut warnings: Vec<BundleWarning> = Vec::new();
    let mut combined: Vec<ArtifactMarker> = mandatory;
    let take = if total > MAX_BUNDLE_ARTIFACT_MARKERS {
        let remaining = if combined.len() >= MAX_BUNDLE_ARTIFACT_MARKERS {
            0
        } else {
            MAX_BUNDLE_ARTIFACT_MARKERS - combined.len()
        };
        if remaining < ranked.len() { remaining } else { ranked.len() }
    } else {
        ranked.len()
    };
    let mut t: usize = 0;
    assert(rv.take(0) =~= Seq::<MarkerView>::empty());
    assert(marker_views(combined@) =~= mv + rv.take(0));
    while t < take
        invariant
            t <= take,
            take <= ranked.len(),
            combined.len() == mv.len() + t,
            marker_views(combined@) == mv + rv.take(t as int),
            rv == marker_views(ranked@),
        decreases take - t,
    {
        let ghost before = marker_views(combined@);
        combined.push(ranked[t].duplicate());
        assert(marker_views(combined@) =~= before.push(rv[t as int]));
        assert(rv.take(t + 1) =~= rv.take(t as int).push(rv[t as int]));
        assert(marker_views(combined@) =~= mv + rv.take(t + 1));
        t = t + 1;
    }
    if total > MAX_BUNDLE_ARTIFACT_MARKERS {
        warnings.push(BundleWarning::MarkersTruncated {
            matched_count: total as u64,
            returned_count: combined.len() as u64,
            limit: MAX_BUNDLE_ARTIFACT_MARKERS as u16,
        });
    } else {
        assert(rv.take(t as int) =~= rv);
    }
    let keys = presentation_keys_exec(&combined);
    let markers = order_markers(&combined, &keys, combined.len());
    proof {
        let comb = marker_views(combined@);
        lemma_take_all(permute(comb, stable_order(presentation_keys(comb), comb.len())));
        if total > MAX_BUNDLE_ARTIFACT_MARKERS {
            assert(warning_views(warnings@) =~= seq![WarningView::MarkersTruncated {
                matched_count: total as u64,
                returned_count: comb.len() as u64,
                limit: MAX_BUNDLE_ARTIFACT_MARKERS as u16,
            }]);
        } else {
            assert(warning_views(warnings@) =~= Seq::<WarningView>::empty());
        }
    }
    (markers, warnings)
}

/// Assembles the bounded, ordered, privacy-safe marker list of a bundle.
///
/// Caller markers and the natural-anchor marker are mandatory. A caller marker
/// with the anchor's identity at a different session time is a conflict; at the
/// same time the caller's presentation wins. Remaining timeline candidates are
/// ranked by distance to the effective anchor and the list is capped at 256,
/// then presented in `(session time, class, identity)` order.
pub fn assemble_markers(
    scope: &RangeScope,
    callers: &Vec<ArtifactMarker>,
    timeline: &TimelineSlice,
    anchors: &Vec<InteractionAnchor>,
) -> (r: Result<AssembledMarkers, Failure>)
    requires
        callers.len() + timeline.observations.len() + 1 < usize::MAX,
    ensures
        match r {
            Ok(a) => assemble_spec(
                *scope,
                marker_views(callers@),
                timeline.matched_count,
                timeline.observations@,
                timeline.truncated,
                anchor_views(anchors@),
            ) == Some((marker_views(a.markers@), warning_views(a.warnings@))),
            Err(f) => assemble_spec(
                *scope,
                marker_views(callers@),
                timeline.matched_count,
                timeline.observations@,
                timeline.truncated,
                anchor_views(anchors@),
            ).is_none() && f.code == ErrorCode::InvalidInput
                && f.message@ == "caller marker session time conflicts with the resolved anchor at the same identifier"@,
        },
{
    let obs = &timeline.observations;
    let mut warnings: Vec<BundleWarning> = Vec::new();
    if timeline.truncated {
        warnings.push(BundleWarning::TimelineMarkerEvidenceTruncated {
            matched_count: timeline.matched_count,
            returned_count: obs.len() as u64,
            limit: MAX_BUNDLE_TIMELINE_ROWS,
        });
    }
    let ghost w0 = warning_views(warnings@);
    assert(w0 =~= truncation_warnings(timeline.matched_count, obs@.len(), timeline.truncated));
    let (mandatory, mut anchor_warnings) = mandatory_markers(scope, callers, anchors)?;
    let ghost aw = warning_views(anchor_warnings@);
    let (cands, mut cand_warnings) = timeline_candidates(scope, obs, &mandatory, anchors);
    let ghost cw = warning_views(cand_warnings@);
    let (markers, mut cap_warnings) = present_markers(mandatory, &cands, scope.effective_anchor);
    let ghost tw = warning_views(cap_warnings@);
    let ghost w0_len = warnings@.len();
    warnings.append(&mut anchor_warnings);
    warnings.append(&mut cand_warnings);
    warnings.append(&mut cap_warnings);
    assert(warning_views(warnings@) =~= w0 + aw + cw + tw);
    Ok(AssembledMarkers { markers, warnings })
}

} // verus!
