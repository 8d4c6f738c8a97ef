//! The order of work in composing one temporal debug bundle, as a state
//! machine: each step takes what the last request answered and says what to
//! do next.
//!
//! A permit is acquired, the range is resolved once, marker evidence is loaded
//! once, artifacts are generated at most once and context is queried at most
//! once. Cancellation and the deadline end the bundle wherever they strike; a
//! marker, artifact or context failure degrades the bundle while another
//! component stays useful.
use vstd::prelude::*;

use crate::errors::ErrorCode;

verus! {

/// Where the composition of one bundle stands.
#[derive(Clone, Copy, Debug, PartialEq, Eq)]
pub enum BundleStage {
    /// Nothing has been asked yet.
    Starting,
    AwaitingPermit,
    ResolvingRange,
    LoadingMarkers,
    /// Marker evidence failed; markers are assembled from the caller's markers
    /// and the anchor alone.
    AssemblingFallbackMarkers,
    GeneratingArtifacts { marker_degraded: bool },
    /// `artifacts` holds `(total, unavailable, available)` outcome counts when
    /// generation answered.
    QueryingContext { marker_degraded: bool, artifacts: Option<(usize, usize, usize)> },
    /// The bundle was composed or failed; nothing more is asked.
    Done,
}

/// What the last request answered.
#[derive(Clone, Copy, Debug, PartialEq, Eq, Structural)]
pub enum BundleEvent {
    /// The request arrived; its deadline may already have passed.
    Started { deadline_passed: bool, cancelled: bool },
    PermitAcquired,
    PermitClosed,
    /// While waiting, the deadline passed (`deadline`) or the request was cancelled.
    Interrupted { deadline: bool },
    RangeResolved,
    RangeFailed { code: ErrorCode },
    MarkersAssembled,
    MarkerLoadFailed { code: ErrorCode, deadline_passed: bool },
    MarkerAssemblyFailed { code: ErrorCode },
    ArtifactsAnswered { total: usize, unavailable: usize, available: usize },
    ArtifactsFailed { code: ErrorCode, deadline_passed: bool },
    /// The context request could not be built.
    ContextRequestRefused { code: ErrorCode },
    ContextAnswered,
    ContextFailed { code: ErrorCode, deadline_passed: bool },
}

/// Why a bundle ends without being composed.
#[derive(Clone, Copy, Debug, PartialEq, Eq, Structural)]
pub enum BundleFailure {
    /// Cancelled, or past its deadline (`deadline`).
    Interrupted { deadline: bool },
    PermitClosed,
    /// The failing request's own error is returned unchanged.
    Propagated { code: ErrorCode },
    /// Evidence of the resolved range vanished.
    EvidenceLifetime,
    /// Neither an artifact nor the context is available.
    NoUsefulEvidence,
}

/// What to do next.
#[derive(Clone, Copy, Debug, PartialEq, Eq)]
pub enum BundleAction {
    AcquirePermit,
    ResolveRange,
    LoadMarkers,
    AssembleFallbackMarkers,
    GenerateArtifacts,
    QueryContext,
    /// `artifacts` holds `(total, unavailable)` outcome counts when generation answered.
    Compose { marker_degraded: bool, artifacts: Option<(usize, usize)>, context_available: bool },
    Fail { failure: BundleFailure },
}

/// The events that a stage waits for.
pub open spec fn accepts(stage: BundleStage, event: BundleEvent) -> bool {
    match stage {
        BundleStage::Starting => event is Started,
        BundleStage::AwaitingPermit => event is PermitAcquired || event is PermitClosed || event is Interrupted,
        BundleStage::ResolvingRange => event is RangeResolved || event is RangeFailed || event is Interrupted,
        BundleStage::LoadingMarkers => event is MarkersAssembled || event is MarkerLoadFailed || event is MarkerAssemblyFailed
            || event is Interrupted,
        BundleStage::AssemblingFallbackMarkers => event is MarkersAssembled || event is MarkerAssemblyFailed,
        BundleStage::GeneratingArtifacts { .. } => event is ArtifactsAnswered || event is ArtifactsFailed || event is Interrupted,
        BundleStage::QueryingContext { .. } => event is ContextRequestRefused || event is ContextAnswered || event is ContextFailed
            || event is Interrupted,
        BundleStage::Done => false,
    }
}

/// Whether marker evidence was lost on the way to `stage`.
pub open spec fn marker_degraded(stage: BundleStage) -> bool {
    match stage {
        BundleStage::AssemblingFallbackMarkers => true,
        BundleStage::GeneratingArtifacts { marker_degraded } => marker_degraded,
        BundleStage::QueryingContext { marker_degraded, .. } => marker_degraded,
        _ => false,
    }
}

/// The `(total, unavailable)` artifact outcome counts known at `stage`.
pub open spec fn artifact_counts(stage: BundleStage) -> Option<(usize, usize)> {
    match stage {
        BundleStage::QueryingContext { artifacts: Some((total, unavailable, _)), .. } => Some((total, unavailable)),
        _ => None,
    }
}

/// Whether some artifact outcome is available at `stage`.
pub open spec fn has_available_outcome(stage: BundleStage) -> bool {
    match stage {
        BundleStage::QueryingContext { artifacts: Some((_, _, available)), .. } => available > 0,
        _ => false,
    }
}

/// A marker failure ends the bundle when it is a cancellation or the deadline passed.
pub open spec fn marker_failure_fatal(code: ErrorCode, deadline_passed: bool) -> bool {
    code == ErrorCode::Cancelled || deadline_passed
}

/// An artifact or context failure ends the bundle when evidence vanished, the
/// request was cancelled, or the deadline passed.
pub open spec fn component_failure_fatal(code: ErrorCode, deadline_passed: bool) -> bool {
    code == ErrorCode::NotFound || code == ErrorCode::Cancelled || deadline_passed
}

pub open spec fn failed(failure: BundleFailure) -> (BundleStage, BundleAction) {
    (BundleStage::Done, BundleAction::Fail { failure })
}

/// One step: the next stage and the action, for an event that `stage` accepts.
pub open spec fn step_spec(stage: BundleStage, event: BundleEvent) -> (BundleStage, BundleAction) {
    match event {
        BundleEvent::Started { deadline_passed, cancelled } => if deadline_passed || cancelled {
            failed(BundleFailure::Interrupted { deadline: false })
        } else {
            (BundleStage::AwaitingPermit, BundleAction::AcquirePermit)
        },
        BundleEvent::PermitAcquired => (BundleStage::ResolvingRange, BundleAction::ResolveRange),
        BundleEvent::PermitClosed => failed(BundleFailure::PermitClosed),
        BundleEvent::Interrupted { deadline } => failed(BundleFailure::Interrupted { deadline }),
        BundleEvent::RangeResolved => (BundleStage::LoadingMarkers, BundleAction::LoadMarkers),
        BundleEvent::RangeFailed { code } => failed(BundleFailure::Propagated { code }),
        BundleEvent::MarkersAssembled => (
            BundleStage::GeneratingArtifacts { marker_degraded: marker_degraded(stage) },
            BundleAction::GenerateArtifacts,
        ),
        BundleEvent::MarkerLoadFailed { code, deadline_passed } => if marker_failure_fatal(code, deadline_passed) {
            failed(BundleFailure::Propagated { code })
        } else {
            (BundleStage::AssemblingFallbackMarkers, BundleAction::AssembleFallbackMarkers)
        },
        BundleEvent::MarkerAssemblyFailed { code } => failed(BundleFailure::Propagated { code }),
        BundleEvent::ArtifactsAnswered { total, unavailable, available } => (
            BundleStage::QueryingContext {
                marker_degraded: marker_degraded(stage),
                artifacts: Some((total, unavailable, available)),
            },
            BundleAction::QueryContext,
        ),
        BundleEvent::ArtifactsFailed { code, deadline_passed } => if component_failure_fatal(code, deadline_passed) {
            failed(BundleFailure::EvidenceLifetime)
        } else {
            (BundleStage::QueryingContext { marker_degraded: marker_degraded(stage), artifacts: None }, BundleAction::QueryContext)
        },
        BundleEvent::ContextRequestRefused { code } => failed(BundleFailure::Propagated { code }),
        BundleEvent::ContextAnswered => (
            BundleStage::Done,
            BundleAction::Compose {
                marker_degraded: marker_degraded(stage),
                artifacts: artifact_counts(stage),
                context_available: true,
            },
        ),
        BundleEvent::ContextFailed { code, deadline_passed } => if component_failure_fatal(code, deadline_passed) {
            failed(BundleFailure::EvidenceLifetime)
        } else if !has_available_outcome(stage) {
            failed(BundleFailure::NoUsefulEvidence)
        } else {
            (
                BundleStage::Done,
                BundleAction::Compose {
                    marker_degraded: marker_degraded(stage),
                    artifacts: artifact_counts(stage),
                    context_available: false,
                },
            )
        },
    }
}

/// How far along `stage` is; every step moves strictly forward.
pub open spec fn stage_rank(stage: BundleStage) -> nat {
    match stage {
        BundleStage::Starting => 0,
        BundleStage::AwaitingPermit => 1,
        BundleStage::ResolvingRange => 2,
        BundleStage::LoadingMarkers => 3,
        BundleStage::AssemblingFallbackMarkers => 4,
        BundleStage::GeneratingArtifacts { .. } => 5,
        BundleStage::QueryingContext { .. } => 6,
        BundleStage::Done => 7,
    }
}

/// The rank of the stage that follows an action.
pub open spec fn action_rank(action: BundleAction) -> nat {
    match action {
        BundleAction::AcquirePermit => 1,
        BundleAction::ResolveRange => 2,
        BundleAction::LoadMarkers => 3,
        BundleAction::AssembleFallbackMarkers => 4,
        BundleAction::GenerateArtifacts => 5,
        BundleAction::QueryContext => 6,
        BundleAction::Compose { .. } => 7,
        BundleAction::Fail { .. } => 7,
    }
}

/// The actions of a composition from `stage` that answers with `events`, up to
/// the first event that its stage does not wait for.
pub open spec fn run(stage: BundleStage, events: Seq<BundleEvent>) -> Seq<BundleAction>
    decreases events.len(),
{
    if events.len() == 0 || !accepts(stage, events[0]) {
        Seq::empty()
    } else {
        let (next, action) = step_spec(stage, events[0]);
        seq![action] + run(next, events.drop_first())
    }
}

/// How often `action` occurs in `actions`.
pub open spec fn occurrences(actions: Seq<BundleAction>, action: BundleAction) -> nat
    decreases actions.len(),
{
    if actions.len() == 0 {
        0
    } else {
        (if actions[0] == action { 1nat } else { 0nat }) + occurrences(actions.drop_first(), action)
    }
}

/// Whether an action ends the bundle.
pub open spec fn is_outcome(action: BundleAction) -> bool {
    action is Compose || action is Fail
}

proof fn lemma_step_moves_forward(stage: BundleStage, event: BundleEvent)
    requires
        accepts(stage, event),
    ensures
        stage_rank(stage) < stage_rank(step_spec(stage, event).0),
        stage_rank(step_spec(stage, event).0) == action_rank(step_spec(stage, event).1),
        is_outcome(step_spec(stage, event).1) ==> step_spec(stage, event).0 == BundleStage::Done,
{
}

proof fn lemma_occurrences_bounded(stage: BundleStage, events: Seq<BundleEvent>, action: BundleAction)
    ensures
        occurrences(run(stage, events), action) <= (if stage_rank(stage) < action_rank(action) { 1nat } else { 0nat }),
    decreases events.len(),
{
    if events.len() > 0 && accepts(stage, events[0]) {
        let (next, first) = step_spec(stage, events[0]);
        lemma_step_moves_forward(stage, events[0]);
        lemma_occurrences_bounded(next, events.drop_first(), action);
        let actions = run(stage, events);
        assert(actions[0] == first);
        assert(actions.drop_first() =~= run(next, events.drop_first()));
    }
}

/// Whatever the requests answer, one composition acquires one permit, resolves
/// the range once, loads marker evidence once, generates artifacts at most once
/// and queries context at most once.
pub proof fn lemma_each_request_at_most_once(events: Seq<BundleEvent>)
    ensures
        occurrences(run(BundleStage::Starting, events), BundleAction::AcquirePermit) <= 1,
        occurrences(run(BundleStage::Starting, events), BundleAction::ResolveRange) <= 1,
        occurrences(run(BundleStage::Starting, events), BundleAction::LoadMarkers) <= 1,
        occurrences(run(BundleStage::Starting, events), BundleAction::AssembleFallbackMarkers) <= 1,
        occurrences(run(BundleStage::Starting, events), BundleAction::GenerateArtifacts) <= 1,
        occurrences(run(BundleStage::Starting, events), BundleAction::QueryContext) <= 1,
{
    lemma_occurrences_bounded(BundleStage::Starting, events, BundleAction::AcquirePermit);
    lemma_occurrences_bounded(BundleStage::Starting, events, BundleAction::ResolveRange);
    lemma_occurrences_bounded(BundleStage::Starting, events, BundleAction::LoadMarkers);
    lemma_occurrences_bounded(BundleStage::Starting, events, BundleAction::AssembleFallbackMarkers);
    lemma_occurrences_bounded(BundleStage::Starting, events, BundleAction::GenerateArtifacts);
    lemma_occurrences_bounded(BundleStage::Starting, events, BundleAction::QueryContext);
}

/// A composed bundle or a failure is the last action of any composition:
/// after it nothing more is requested, so a failure discards all partial work.
pub proof fn lemma_outcome_is_last(stage: BundleStage, events: Seq<BundleEvent>, i: int)
    requires
        0 <= i < run(stage, events).len(),
        is_outcome(run(stage, events)[i]),
    ensures
        i == run(stage, events).len() - 1,
    decreases events.len(),
{
    let (next, first) = step_spec(stage, events[0]);
    lemma_step_moves_forward(stage, events[0]);
    let actions = run(stage, events);
    assert(actions.drop_first() =~= run(next, events.drop_first()));
    if i == 0 {
        assert(next == BundleStage::Done);
        assert(run(next, events.drop_first()).len() == 0);
    } else {
        assert(actions[i] == run(next, events.drop_first())[i - 1]);
        lemma_outcome_is_last(next, events.drop_first(), i - 1);
    }
}

/// Cancellation or the deadline, wherever they strike, end the bundle with that
/// interruption.
pub proof fn lemma_interruption_ends_the_bundle(stage: BundleStage, deadline: bool)
    requires
        accepts(stage, BundleEvent::Interrupted { deadline }),
    ensures
        step_spec(stage, BundleEvent::Interrupted { deadline }) == (
            BundleStage::Done,
            BundleAction::Fail { failure: BundleFailure::Interrupted { deadline } },
        ),
{
}

/// A marker, artifact or context failure that is a cancellation or comes after
/// the deadline never degrades the bundle: it ends it.
pub proof fn lemma_late_failures_never_degrade(stage: BundleStage, code: ErrorCode)
    ensures
        accepts(stage, BundleEvent::MarkerLoadFailed { code, deadline_passed: true })
            ==> step_spec(stage, BundleEvent::MarkerLoadFailed { code, deadline_passed: true }).1 is Fail,
        accepts(stage, BundleEvent::MarkerLoadFailed { code: ErrorCode::Cancelled, deadline_passed: false })
            ==> step_spec(stage, BundleEvent::MarkerLoadFailed { code: ErrorCode::Cancelled, deadline_passed: false }).1 is Fail,
        accepts(stage, BundleEvent::ArtifactsFailed { code, deadline_passed: true })
            ==> step_spec(stage, BundleEvent::ArtifactsFailed { code, deadline_passed: true }).1 is Fail,
        accepts(stage, BundleEvent::ArtifactsFailed { code: ErrorCode::Cancelled, deadline_passed: false })
            ==> step_spec(stage, BundleEvent::ArtifactsFailed { code: ErrorCode::Cancelled, deadline_passed: false }).1 is Fail,
        accepts(stage, BundleEvent::ContextFailed { code, deadline_passed: true })
            ==> step_spec(stage, BundleEvent::ContextFailed { code, deadline_passed: true }).1 is Fail,
        accepts(stage, BundleEvent::ContextFailed { code: ErrorCode::Cancelled, deadline_passed: false })
            ==> step_spec(stage, BundleEvent::ContextFailed { code: ErrorCode::Cancelled, deadline_passed: false }).1 is Fail,
{
}

/// While one component stays useful, the failure of another degrades the
/// bundle instead of failing it: lost marker evidence, failed artifact
/// generation beside answered context, and failed context beside an available
/// artifact outcome each still compose a bundle that names the loss.
pub proof fn lemma_independent_failures_degrade(
    marker_code: ErrorCode,
    artifact_code: ErrorCode,
    context_code: ErrorCode,
    total: usize,
    unavailable: usize,
    available: usize,
)
    requires
        marker_code != ErrorCode::Cancelled,
        !component_failure_fatal(artifact_code, false),
        !component_failure_fatal(context_code, false),
        available > 0,
    ensures
        run(
            BundleStage::LoadingMarkers,
            seq![
                BundleEvent::MarkerLoadFailed { code: marker_code, deadline_passed: false },
                BundleEvent::MarkersAssembled,
                BundleEvent::ArtifactsAnswered { total, unavailable, available },
                BundleEvent::ContextAnswered,
            ],
        ) == seq![
            BundleAction::AssembleFallbackMarkers,
            BundleAction::GenerateArtifacts,
            BundleAction::QueryContext,
            BundleAction::Compose { marker_degraded: true, artifacts: Some((total, unavailable)), context_available: true },
        ],
        run(
            BundleStage::GeneratingArtifacts { marker_degraded: false },
            seq![BundleEvent::ArtifactsFailed { code: artifact_code, deadline_passed: false }, BundleEvent::ContextAnswered],
        ) == seq![
            BundleAction::QueryContext,
            BundleAction::Compose { marker_degraded: false, artifacts: None, context_available: true },
        ],
        run(
            BundleStage::GeneratingArtifacts { marker_degraded: false },
            seq![
                BundleEvent::ArtifactsAnswered { total, unavailable, available },
                BundleEvent::ContextFailed { code: context_code, deadline_passed: false },
            ],
        ) == seq![
            BundleAction::QueryContext,
            BundleAction::Compose { marker_degraded: false, artifacts: Some((total, unavailable)), context_available: false },
        ],
{
    reveal_with_fuel(run, 5);
    let e1 = seq![
        BundleEvent::MarkerLoadFailed { code: marker_code, deadline_passed: false },
        BundleEvent::MarkersAssembled,
        BundleEvent::ArtifactsAnswered { total, unavailable, available },
        BundleEvent::ContextAnswered,
    ];
    assert(e1.drop_first() =~= seq![
        BundleEvent::MarkersAssembled,
        BundleEvent::ArtifactsAnswered { total, unavailable, available },
        BundleEvent::ContextAnswered,
    ]);
    assert(e1.drop_first().drop_first() =~= seq![
        BundleEvent::ArtifactsAnswered { total, unavailable, available },
        BundleEvent::ContextAnswered,
    ]);
    assert(e1.drop_first().drop_first().drop_first() =~= seq![BundleEvent::ContextAnswered]);
    assert(e1.drop_first().drop_first().drop_first().drop_first() =~= Seq::<BundleEvent>::empty());
    let e2 = seq![BundleEvent::ArtifactsFailed { code: artifact_code, deadline_passed: false }, BundleEvent::ContextAnswered];
    assert(e2.drop_first() =~= seq![BundleEvent::ContextAnswered]);
    assert(e2.drop_first().drop_first() =~= Seq::<BundleEvent>::empty());
    let e3 = seq![
        BundleEvent::ArtifactsAnswered { total, unavailable, available },
        BundleEvent::ContextFailed { code: context_code, deadline_passed: false },
    ];
    assert(e3.drop_first() =~= seq![BundleEvent::ContextFailed { code: context_code, deadline_passed: false }]);
    assert(e3.drop_first().drop_first() =~= Seq::<BundleEvent>::empty());
}

/// When neither an artifact outcome nor the context is available, the bundle
/// fails rather than composing an empty one.
pub proof fn lemma_no_useful_evidence_fails(marker_degraded: bool, counts: Option<(usize, usize, usize)>, code: ErrorCode)
    requires
        !component_failure_fatal(code, false),
        match counts {
            Some((_, _, available)) => available == 0,
            None => true,
        },
    ensures
        step_spec(
            BundleStage::QueryingContext { marker_degraded, artifacts: counts },
            BundleEvent::ContextFailed { code, deadline_passed: false },
        ) == failed(BundleFailure::NoUsefulEvidence),
{
}

/// Decides the next stage and action from what the last request answered.
pub fn bundle_step(stage: BundleStage, event: BundleEvent) -> (r: (BundleStage, BundleAction))
    requires
        accepts(stage, event),
    ensures
        r == step_spec(stage, event),
{
    let degraded = match stage {
        BundleStage::AssemblingFallbackMarkers => true,
        BundleStage::GeneratingArtifacts { marker_degraded } => marker_degraded,
        BundleStage::QueryingContext { marker_degraded, .. } => marker_degraded,
        _ => false,
    };
    let counts: Option<(usize, usize)> = match stage {
        BundleStage::QueryingContext { artifacts: Some((total, unavailable, _)), .. } => Some((total, unavailable)),
        _ => None,
    };
    let useful = match stage {
        BundleStage::QueryingContext { artifacts: Some((_, _, available)), .. } => available > 0,
        _ => false,
    };
    match event {
        BundleEvent::Started { deadline_passed, cancelled } => {
            if deadline_passed || cancelled {
                (BundleStage::Done, BundleAction::Fail { failure: BundleFailure::Interrupted { deadline: false } })
            } else {
                (BundleStage::AwaitingPermit, BundleAction::AcquirePermit)
            }
        },
        BundleEvent::PermitAcquired => (BundleStage::ResolvingRange, BundleAction::ResolveRange),
        BundleEvent::PermitClosed => (BundleStage::Done, BundleAction::Fail { failure: BundleFailure::PermitClosed }),
        BundleEvent::Interrupted { deadline } => (
            BundleStage::Done,
            BundleAction::Fail { failure: BundleFailure::Interrupted { deadline } },
        ),
        BundleEvent::RangeResolved => (BundleStage::LoadingMarkers, BundleAction::LoadMarkers),
        BundleEvent::RangeFailed { code } => (BundleStage::Done, BundleAction::Fail { failure: BundleFailure::Propagated { code } }),
        BundleEvent::MarkersAssembled => (
            BundleStage::GeneratingArtifacts { marker_degraded: degraded },
            BundleAction::GenerateArtifacts,
        ),
        BundleEvent::MarkerLoadFailed { code, deadline_passed } => {
            if code == ErrorCode::Cancelled || deadline_passed {
                (BundleStage::Done, BundleAction::Fail { failure: BundleFailure::Propagated { code } })
            } else {
                (BundleStage::AssemblingFallbackMarkers, BundleAction::AssembleFallbackMarkers)
            }
        },
        BundleEvent::MarkerAssemblyFailed { code } => (
            BundleStage::Done,
            BundleAction::Fail { failure: BundleFailure::Propagated { code } },
        ),
        BundleEvent::ArtifactsAnswered { total, unavailable, available } => (
            BundleStage::QueryingContext { marker_degraded: degraded, artifacts: Some((total, unavailable, available)) },
            BundleAction::QueryContext,
        ),
        BundleEvent::ArtifactsFailed { code, deadline_passed } => {
            if code == ErrorCode::NotFound || code == ErrorCode::Cancelled || deadline_passed {
                (BundleStage::Done, BundleAction::Fail { failure: BundleFailure::EvidenceLifetime })
            } else {
                (BundleStage::QueryingContext { marker_degraded: degraded, artifacts: None }, BundleAction::QueryContext)
            }
        },
        BundleEvent::ContextRequestRefused { code } => (
            BundleStage::Done,
            BundleAction::Fail { failure: BundleFailure::Propagated { code } },
        ),
        BundleEvent::ContextAnswered => (
            BundleStage::Done,
            BundleAction::Compose { marker_degraded: degraded, artifacts: counts, context_available: true },
        ),
        BundleEvent::ContextFailed { code, deadline_passed } => {
            if code == ErrorCode::NotFound || code == ErrorCode::Cancelled || deadline_passed {
                (BundleStage::Done, BundleAction::Fail { failure: BundleFailure::EvidenceLifetime })
            } else if !useful {
                (BundleStage::Done, BundleAction::Fail { failure: BundleFailure::NoUsefulEvidence })
            } else {
                (BundleStage::Done, BundleAction::Compose { marker_degraded: degraded, artifacts: counts, context_available: false })
            }
        },
    }
}

} // verus!
