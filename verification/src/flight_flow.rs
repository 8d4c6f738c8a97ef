//! The decisions around one artifact generation flight: whether a request may
//! start, how missing output slots are grouped by epoch and generator, which
//! groups analyse the same normalized frames, the order of work within one
//! group, and how a group's failure reaches each of its slots.
use vstd::prelude::*;

use crate::errors::{ErrorCode, Failure};
use crate::outcomes::SlotState;
use crate::scheduler::{cancelled_error, deadline_error};

verus! {

// ----- the start of a request -----

/// The deadline of a generation request that starts at `now`: the earlier of
/// the caller's deadline and `now + wall`, or `None` when `now + wall`
/// overflows. Times are monotonic nanoseconds.
pub open spec fn generation_deadline_spec(now: u64, wall: u64, caller: Option<u64>) -> Option<u64> {
    if now + wall > u64::MAX {
        None
    } else {
        let own = (now + wall) as u64;
        match caller {
            Some(c) => Some(if c < own { c } else { own }),
            None => Some(own),
        }
    }
}

/// Whether a generation request starting at `now` may start, and its deadline:
/// a deadline that overflows or has already passed is a generation failure;
/// otherwise a cancelled request is cancelled.
pub fn generation_start(now: u64, wall: u64, caller: Option<u64>, cancelled: bool) -> (r: Result<u64, Failure>)
    ensures
        match r {
            Ok(d) => generation_deadline_spec(now, wall, caller) == Some(d) && d > now && !cancelled,
            Err(f) => if (match generation_deadline_spec(now, wall, caller) {
                Some(d) => d <= now,
                None => true,
            }) {
                f.code == ErrorCode::ArtifactGenerationFailed && f.message@ == "artifact generation deadline elapsed"@
            } else {
                cancelled && f.code == ErrorCode::Cancelled && f.message@ == "artifact generation was cancelled"@
            },
        },
{
    let own = match now.checked_add(wall) {
        Some(v) => v,
        None => {
            return Err(deadline_error());
        },
    };
    let deadline = match caller {
        Some(c) => if c < own { c } else { own },
        None => own,
    };
    if deadline <= now {
        return Err(deadline_error());
    }
    if cancelled {
        return Err(cancelled_error());
    }
    Ok(deadline)
}

// ----- a group's failure reaches its slots -----

/// A group's work failed with the error `error`, which does not end the
/// request: every slot of the group reports it.
pub fn fail_group(states: &mut Vec<SlotState>, positions: &Vec<usize>, error: usize)
    requires
        forall|i: int| 0 <= i < positions.len() ==> #[trigger] positions@[i] < old(states).len(),
    ensures
        final(states).len() == old(states).len(),
        forall|j: int| 0 <= j < old(states).len() ==> #[trigger] final(states)@[j] == (if positions@.contains(j as usize) {
            SlotState::Failed { error, fatal: false }
        } else {
            old(states)@[j]
        }),
{
    let mut i: usize = 0;
    while i < positions.len()
        invariant
            i <= positions.len(),
            states.len() == old(states).len(),
            forall|k: int| 0 <= k < positions.len() ==> #[trigger] positions@[k] < old(states).len(),
            forall|j: int| 0 <= j < old(states).len() ==> #[trigger] states@[j] == (if positions@.take(i as int).contains(j as usize) {
                SlotState::Failed { error, fatal: false }
            } else {
                old(states)@[j]
            }),
        decreases positions.len() - i,
    {
        let p = positions[i];
        states.set(p, SlotState::Failed { error, fatal: false });
        proof {
            assert forall|j: int| 0 <= j < old(states).len() implies #[trigger] states@[j] == (if positions@.take(i + 1).contains(j as usize) {
                SlotState::Failed { error, fatal: false }
            } else {
                old(states)@[j]
            }) by {
                assert(positions@.take(i + 1) =~= positions@.take(i as int).push(p));
                if positions@.take(i as int).contains(j as usize) {
                    assert(positions@.take(i + 1).contains(j as usize)) by {
                        let w = choose|w: int| 0 <= w < i && positions@.take(i as int)[w] == j as usize;
                        assert(positions@.take(i + 1)[w] == j as usize);
                    }
                }
                if j == p as int {
                    assert(positions@.take(i + 1)[i as int] == p);
                }
            }
        }
        i = i + 1;
    }
    assert(positions@.take(positions.len() as int) =~= positions@);
}

// ----- grouping missing slots by epoch and generator -----

/// The missing output slots of one epoch and generator.
#[derive(Debug)]
pub struct SlotGroup {
    pub epoch: usize,
    pub generator: usize,
    /// Positions of the group's slots, in slot order.
    pub positions: Vec<usize>,
}

/// `a` comes before `b`: a smaller epoch, or the same epoch and a smaller generator.
pub open spec fn key_before(a: (usize, usize), b: (usize, usize)) -> bool {
    a.0 < b.0 || (a.0 == b.0 && a.1 < b.1)
}

/// The positions among the first `n` slots whose epoch and generator are `key`,
/// in slot order.
pub open spec fn positions_of(slots: Seq<(usize, usize)>, key: (usize, usize), n: nat) -> Seq<usize>
    decreases n,
{
    if n == 0 {
        Seq::empty()
    } else {
        let rest = positions_of(slots, key, (n - 1) as nat);
        if slots[n - 1] == key { rest.push((n - 1) as usize) } else { rest }
    }
}

/// `k` comes after `prev` (every key comes after `None`).
pub open spec fn after(k: (usize, usize), prev: Option<(usize, usize)>) -> bool {
    match prev {
        None => true,
        Some(p) => key_before(p, k),
    }
}

/// The least key after `prev` among the first `n` slots.
pub open spec fn least_after(slots: Seq<(usize, usize)>, prev: Option<(usize, usize)>, n: nat) -> Option<(usize, usize)>
    decreases n,
{
    if n == 0 {
        None
    } else {
        let m = least_after(slots, prev, (n - 1) as nat);
        let k = slots[n - 1];
        if after(k, prev) && (m is None || key_before(k, m.unwrap())) { Some(k) } else { m }
    }
}

/// How many of the first `n` slots have a key after `prev`.
pub open spec fn count_after(slots: Seq<(usize, usize)>, prev: Option<(usize, usize)>, n: nat) -> nat
    decreases n,
{
    if n == 0 {
        0
    } else {
        count_after(slots, prev, (n - 1) as nat) + (if after(slots[n - 1], prev) { 1nat } else { 0nat })
    }
}

proof fn lemma_least_after(slots: Seq<(usize, usize)>, prev: Option<(usize, usize)>, n: nat)
    requires
        n <= slots.len(),
    ensures
        least_after(slots, prev, n) is None <==> forall|i: int| 0 <= i < n ==> !after(#[trigger] slots[i], prev),
        least_after(slots, prev, n) matches Some(m) ==> after(m, prev)
            && (exists|i: int| 0 <= i < n && slots[i] == m)
            && forall|i: int| 0 <= i < n && after(#[trigger] slots[i], prev) ==> !key_before(slots[i], m),
    decreases n,
{
    if n > 0 {
        lemma_least_after(slots, prev, (n - 1) as nat);
        let m = least_after(slots, prev, (n - 1) as nat);
        let k = slots[n - 1];
        if after(k, prev) && (m is None || key_before(k, m.unwrap())) {
            assert(slots[n - 1] == k);
        } else if m is Some {
            let w = choose|i: int| 0 <= i < n - 1 && slots[i] == m.unwrap();
            assert(slots[w] == m.unwrap());
        }
    }
}

proof fn lemma_count_after_drops(slots: Seq<(usize, usize)>, prev: Option<(usize, usize)>, m: (usize, usize), n: nat)
    requires
        n <= slots.len(),
        after(m, prev),
    ensures
        count_after(slots, Some(m), n) <= count_after(slots, prev, n),
        (exists|i: int| 0 <= i < n && slots[i] == m) ==> count_after(slots, Some(m), n) < count_after(slots, prev, n),
    decreases n,
{
    if n > 0 {
        lemma_count_after_drops(slots, prev, m, (n - 1) as nat);
        if exists|i: int| 0 <= i < n && slots[i] == m {
            if slots[n - 1] != m {
                let w = choose|i: int| 0 <= i < n && slots[i] == m;
                assert(0 <= w < n - 1 && slots[w] == m);
            }
        }
    }
}

proof fn lemma_positions_of(slots: Seq<(usize, usize)>, key: (usize, usize), n: nat)
    requires
        n <= slots.len(),
        slots.len() <= usize::MAX,
    ensures
        forall|j: int| 0 <= j < positions_of(slots, key, n).len() ==> {
            let p = #[trigger] positions_of(slots, key, n)[j];
            p < n && slots[p as int] == key
        },
        (exists|i: int| 0 <= i < n && slots[i] == key) ==> positions_of(slots, key, n).len() > 0,
    decreases n,
{
    if n > 0 {
        lemma_positions_of(slots, key, (n - 1) as nat);
        let rest = positions_of(slots, key, (n - 1) as nat);
        let all = positions_of(slots, key, n);
        assert forall|j: int| 0 <= j < all.len() implies {
            let p = #[trigger] all[j];
            p < n && slots[p as int] == key
        } by {
            if j < rest.len() {
                assert(all[j] == rest[j]);
            }
        }
        if slots[n - 1] == key {
            assert(all[all.len() - 1] == (n - 1) as usize);
        }
    }
}

fn key_before_exec(a: (usize, usize), b: (usize, usize)) -> (r: bool)
    ensures
        r == key_before(a, b),
{
    a.0 < b.0 || (a.0 == b.0 && a.1 < b.1)
}

fn after_exec(k: (usize, usize), prev: Option<(usize, usize)>) -> (r: bool)
    ensures
        r == after(k, prev),
{
    match prev {
        None => true,
        Some(p) => key_before_exec(p, k),
    }
}

/// Groups missing output slots by `(epoch, generator)`: one group per key that
/// occurs, in increasing key order, each listing the positions of its slots in
/// slot order.
pub fn group_slots(slots: &Vec<(usize, usize)>) -> (r: Vec<SlotGroup>)
    ensures
        forall|g: int| 0 <= g < r.len() ==> (#[trigger] r@[g]).positions@ == positions_of(
            slots@,
            (r@[g].epoch, r@[g].generator),
            slots.len() as nat,
        ) && r@[g].positions.len() > 0,
        forall|a: int, b: int| 0 <= a < b < r.len() ==> key_before(
            (#[trigger] r@[a].epoch, r@[a].generator),
            (#[trigger] r@[b].epoch, r@[b].generator),
        ),
        forall|i: int| 0 <= i < slots.len() ==> exists|g: int| 0 <= g < r.len()
            && (#[trigger] r@[g].epoch, r@[g].generator) == #[trigger] slots@[i],
{
    let n = slots.len();
    let ghost s = slots@;
    let mut out: Vec<SlotGroup> = Vec::new();
    let mut prev: Option<(usize, usize)> = None;
    loop
        invariant
            n == slots.len(),
            s == slots@,
            forall|g: int| 0 <= g < out.len() ==> (#[trigger] out@[g]).positions@ == positions_of(
                s,
                (out@[g].epoch, out@[g].generator),
                n as nat,
            ) && out@[g].positions.len() > 0,
            forall|a: int, b: int| 0 <= a < b < out.len() ==> key_before(
                (#[trigger] out@[a].epoch, out@[a].generator),
                (#[trigger] out@[b].epoch, out@[b].generator),
            ),
            prev == (if out.len() == 0 { None } else { Some((out@[out.len() - 1].epoch, out@[out.len() - 1].generator)) }),
            forall|i: int| 0 <= i < n && !after(#[trigger] s[i], prev) ==> exists|g: int| 0 <= g < out.len()
                && (#[trigger] out@[g].epoch, out@[g].generator) == s[i],
        ensures
            forall|g: int| 0 <= g < out.len() ==> (#[trigger] out@[g]).positions@ == positions_of(
                s,
                (out@[g].epoch, out@[g].generator),
                n as nat,
            ) && out@[g].positions.len() > 0,
            forall|a: int, b: int| 0 <= a < b < out.len() ==> key_before(
                (#[trigger] out@[a].epoch, out@[a].generator),
                (#[trigger] out@[b].epoch, out@[b].generator),
            ),
            forall|i: int| 0 <= i < n ==> exists|g: int| 0 <= g < out.len()
                && (#[trigger] out@[g].epoch, out@[g].generator) == #[trigger] s[i],
        decreases count_after(s, prev, n as nat),
    {
        // the least key after `prev`
        let mut best: Option<(usize, usize)> = None;
        let mut i: usize = 0;
        while i < n
            invariant
                i <= n,
                n == slots.len(),
                s == slots@,
                best == least_after(s, prev, i as nat),
            decreases n - i,
        {
            let k = slots[i];
            if after_exec(k, prev) {
                match best {
                    None => {
                        best = Some(k);
                    },
                    Some(b) => {
                        if key_before_exec(k, b) {
                            best = Some(k);
                        }
                    },
                }
            }
            i = i + 1;
        }
        proof {
            lemma_least_after(s, prev, n as nat);
        }
        let key = match best {
            None => {
                return out;
            },
            Some(k) => k,
        };
        let mut positions: Vec<usize> = Vec::new();
        let mut j: usize = 0;
        while j < n
            invariant
                j <= n,
                n == slots.len(),
                s == slots@,
                positions@ == positions_of(s, key, j as nat),
            decreases n - j,
        {
            let k = slots[j];
            if k.0 == key.0 && k.1 == key.1 {
                positions.push(j);
            }
            j = j + 1;
        }
        proof {
            lemma_positions_of(s, key, n as nat);
            lemma_count_after_drops(s, prev, key, n as nat);
        }
        let ghost old_out = out@;
        let ghost old_prev = prev;
        out.push(SlotGroup { epoch: key.0, generator: key.1, positions });
        prev = Some(key);
        proof {
            assert forall|a: int, b: int| 0 <= a < b < out.len() implies key_before(
                (#[trigger] out@[a].epoch, out@[a].generator),
                (#[trigger] out@[b].epoch, out@[b].generator),
            ) by {
                if b == out.len() - 1 && a < b {
                    assert(out@[a] == old_out[a]);
                    if a < old_out.len() - 1 {
                        assert(key_before((old_out[a].epoch, old_out[a].generator), (old_out[old_out.len() - 1].epoch, old_out[old_out.len() - 1].generator)));
                    }
                } else {
                    assert(out@[a] == old_out[a] && out@[b] == old_out[b]);
                }
            }
            assert forall|i: int| 0 <= i < n && !after(#[trigger] s[i], prev) implies exists|g: int| 0 <= g < out.len()
                && (#[trigger] out@[g].epoch, out@[g].generator) == s[i] by {
                if after(s[i], old_prev) {
                    assert(!key_before(s[i], key));
                    assert(s[i] == key);
                    assert((out@[out.len() - 1].epoch, out@[out.len() - 1].generator) == s[i]);
                } else {
                    let g = choose|g: int| 0 <= g < old_out.len() && (#[trigger] old_out[g].epoch, old_out[g].generator) == s[i];
                    assert(out@[g] == old_out[g]);
                }
            }
        }
    }
}

// ----- analysis cohorts -----

/// What makes generator groups share one adjacent-pair analysis: the epoch, the
/// identity of the normalization, the noise floor, and the analysed frames with
/// their source positions.
#[derive(Debug)]
pub struct CohortKey {
    pub epoch: usize,
    pub normalization: Vec<u8>,
    pub noise_floor: u16,
    pub frames: Vec<(u128, usize)>,
}

pub struct CohortKeyView {
    pub epoch: usize,
    pub normalization: Seq<u8>,
    pub noise_floor: u16,
    pub frames: Seq<(u128, usize)>,
}

impl View for CohortKey {
    type V = CohortKeyView;

    open spec fn view(&self) -> CohortKeyView {
        CohortKeyView {
            epoch: self.epoch,
            normalization: self.normalization@,
            noise_floor: self.noise_floor,
            frames: self.frames@,
        }
    }
}

pub open spec fn cohort_views(keys: Seq<Option<CohortKey>>) -> Seq<Option<CohortKeyView>> {
    Seq::new(keys.len(), |i: int| match keys[i] {
        Some(k) => Some(k@),
        None => None,
    })
}

/// Among the first `n` groups, how many share the cohort `k`, and whether any
/// of them wants change masks.
pub open spec fn cohort_of(keys: Seq<Option<CohortKeyView>>, wants: Seq<bool>, k: CohortKeyView, n: nat) -> (nat, bool)
    decreases n,
{
    if n == 0 {
        (0, false)
    } else {
        let (c, w) = cohort_of(keys, wants, k, (n - 1) as nat);
        if keys[n - 1] == Some(k) { (c + 1, w || wants[n - 1]) } else { (c, w) }
    }
}

/// Per group: how many groups share its cohort (itself included) and whether
/// any of them wants change masks; a group that analyses nothing is in no
/// cohort.
pub open spec fn cohorts_spec(keys: Seq<Option<CohortKeyView>>, wants: Seq<bool>) -> Seq<(nat, bool)> {
    Seq::new(keys.len(), |g: int| match keys[g] {
        Some(k) => cohort_of(keys, wants, k, keys.len()),
        None => (0nat, false),
    })
}

fn same_bytes(a: &Vec<u8>, b: &Vec<u8>) -> (r: bool)
    ensures
        r == (a@ == b@),
{
    if a.len() != b.len() {
        return false;
    }
    let mut i: usize = 0;
    while i < a.len()
        invariant
            i <= a.len(),
            a.len() == b.len(),
            a@.take(i as int) == b@.take(i as int),
        decreases a.len() - i,
    {
        if a[i] != b[i] {
            assert(a@[i as int] != b@[i as int]);
            return false;
        }
        assert(a@.take(i + 1) =~= a@.take(i as int).push(a@[i as int]));
        assert(b@.take(i + 1) =~= b@.take(i as int).push(b@[i as int]));
        i = i + 1;
    }
    assert(a@.take(a.len() as int) =~= a@);
    assert(b@.take(b.len() as int) =~= b@);
    true
}

fn same_frames(a: &Vec<(u128, usize)>, b: &Vec<(u128, usize)>) -> (r: bool)
    ensures
        r == (a@ == b@),
{
    if a.len() != b.len() {
        return false;
    }
    let mut i: usize = 0;
    while i < a.len()
        invariant
            i <= a.len(),
            a.len() == b.len(),
            a@.take(i as int) == b@.take(i as int),
        decreases a.len() - i,
    {
        let x = a[i];
        let y = b[i];
        if x.0 != y.0 || x.1 != y.1 {
            assert(a@[i as int] != b@[i as int]);
            return false;
        }
        assert(a@.take(i + 1) =~= a@.take(i as int).push(a@[i as int]));
        assert(b@.take(i + 1) =~= b@.take(i as int).push(b@[i as int]));
        i = i + 1;
    }
    assert(a@.take(a.len() as int) =~= a@);
    assert(b@.take(b.len() as int) =~= b@);
    true
}

fn same_cohort(a: &CohortKey, b: &CohortKey) -> (r: bool)
    ensures
        r == (a@ == b@),
{
    a.epoch == b.epoch && a.noise_floor == b.noise_floor && same_bytes(&a.normalization, &b.normalization)
        && same_frames(&a.frames, &b.frames)
}

/// For each generator group, the size of its analysis cohort and whether the
/// cohort wants change masks; `(0, false)` for a group that analyses nothing.
pub fn cohorts(keys: &Vec<Option<CohortKey>>, wants: &Vec<bool>) -> (r: Vec<(usize, bool)>)
    requires
        wants.len() == keys.len(),
    ensures
        r.len() == keys.len(),
        forall|g: int| 0 <= g < r.len() ==> (#[trigger] r@[g]).0 as nat == cohorts_spec(cohort_views(keys@), wants@)[g].0
            && r@[g].1 == cohorts_spec(cohort_views(keys@), wants@)[g].1,
{
    let ghost kv = cohort_views(keys@);
    let n = keys.len();
    let mut out: Vec<(usize, bool)> = Vec::new();
    let mut g: usize = 0;
    while g < n
        invariant
            g <= n,
            n == keys.len(),
            wants.len() == n,
            kv == cohort_views(keys@),
            out.len() == g,
            forall|x: int| 0 <= x < g ==> (#[trigger] out@[x]).0 as nat == cohorts_spec(kv, wants@)[x].0
                && out@[x].1 == cohorts_spec(kv, wants@)[x].1,
        decreases n - g,
    {
        match &keys[g] {
            None => {
                out.push((0, false));
            },
            Some(k) => {
                let ghost kk = k@;
                assert(kv[g as int] == Some(kk));
                let mut count: usize = 0;
                let mut any = false;
                let mut h: usize = 0;
                while h < n
                    invariant
                        h <= n,
                        n == keys.len(),
                        wants.len() == n,
                        kv == cohort_views(keys@),
                        kk == k@,
                        count as nat == cohort_of(kv, wants@, kk, h as nat).0,
                        any == cohort_of(kv, wants@, kk, h as nat).1,
                        count <= h,
                    decreases n - h,
                {
                    let same = match &keys[h] {
                        Some(o) => same_cohort(o, k),
                        None => false,
                    };
                    assert(same == (kv[h as int] == Some(kk)));
                    if same {
                        count = count + 1;
                        any = any || wants[h];
                    }
                    h = h + 1;
                }
                out.push((count, any));
            },
        }
        g = g + 1;
    }
    out
}

// ----- the order of work within one generator group -----

/// Whether a group reads an adjacent-pair analysis shared with its cohort.
#[derive(Clone, Copy, Debug, PartialEq, Eq, Structural)]
pub enum AnalysisPlan {
    /// The group's cohort has one group, or its masks do not fit: nothing shared.
    Unshared,
    /// Another group of the cohort already built the analysis.
    Reuse,
    /// The group builds the cohort's analysis from its normalized frames.
    Build,
}

/// Where the work of one generator group stands.
#[derive(Clone, Copy, Debug, PartialEq, Eq)]
pub enum GroupStage {
    /// The group's memory has not been sized yet.
    Sizing,
    AwaitingMemory { normalizes: bool, analysis: AnalysisPlan },
    Decoding { normalizes: bool, analysis: AnalysisPlan },
    Normalizing { analysis: AnalysisPlan },
    Analysing,
    /// `shared`: a shared analysis is available to the generator.
    AwaitingGenerator { shared: bool },
    Generating,
    Done,
}

/// What the last piece of work answered.
#[derive(Clone, Copy, Debug, PartialEq, Eq, Structural)]
pub enum GroupEvent {
    /// The memory decision: `admitted` when the group fits the memory limits;
    /// whether it normalizes frames and how it takes part in its cohort.
    Sized { admitted: bool, normalizes: bool, analysis: AnalysisPlan },
    MemoryAcquired,
    Decoded,
    /// Normalization finished; `produced` when it yielded a normalized sequence.
    Normalized { produced: bool },
    AnalysisBuilt,
    GeneratorAcquired,
    Generated,
    /// The work failed; `fatal` when it was cancelled or ran out of time.
    WorkFailed { fatal: bool },
}

/// What to do next.
#[derive(Clone, Copy, Debug, PartialEq, Eq)]
pub enum GroupAction {
    AcquireMemory,
    Decode,
    Normalize,
    BuildAnalysis,
    AcquireGenerator,
    Generate { shared: bool },
    /// Publish each slot's output.
    Publish,
    /// Every slot of the group reports the failure (see `fail_group`).
    FailGroup,
    /// The failure ends the whole flight.
    Abort,
}

/// The events that a stage waits for.
pub open spec fn group_accepts(stage: GroupStage, event: GroupEvent) -> bool {
    match stage {
        GroupStage::Sizing => event is Sized,
        GroupStage::AwaitingMemory { .. } => event is MemoryAcquired || event is WorkFailed,
        GroupStage::Decoding { .. } => event is Decoded || event is WorkFailed,
        GroupStage::Normalizing { .. } => event is Normalized || event is WorkFailed,
        GroupStage::Analysing => event is AnalysisBuilt || event is WorkFailed,
        GroupStage::AwaitingGenerator { .. } => event is GeneratorAcquired || event is WorkFailed,
        GroupStage::Generating => event is Generated || event is WorkFailed,
        GroupStage::Done => false,
    }
}

/// After normalization (or without it): reuse the cohort's analysis, build it
/// from a produced normalized sequence, or generate without one.
pub open spec fn after_normalization(analysis: AnalysisPlan, produced: bool) -> (GroupStage, GroupAction) {
    match analysis {
        AnalysisPlan::Reuse => (GroupStage::AwaitingGenerator { shared: true }, GroupAction::AcquireGenerator),
        AnalysisPlan::Build => if produced {
            (GroupStage::Analysing, GroupAction::BuildAnalysis)
        } else {
            (GroupStage::AwaitingGenerator { shared: false }, GroupAction::AcquireGenerator)
        },
        AnalysisPlan::Unshared => (GroupStage::AwaitingGenerator { shared: false }, GroupAction::AcquireGenerator),
    }
}

/// One step of a group's work, for an event that `stage` accepts.
pub open spec fn group_step_spec(stage: GroupStage, event: GroupEvent) -> (GroupStage, GroupAction) {
    match event {
        GroupEvent::Sized { admitted, normalizes, analysis } => if admitted {
            (GroupStage::AwaitingMemory { normalizes, analysis }, GroupAction::AcquireMemory)
        } else {
            (GroupStage::Done, GroupAction::FailGroup)
        },
        GroupEvent::MemoryAcquired => match stage {
            GroupStage::AwaitingMemory { normalizes, analysis } => (GroupStage::Decoding { normalizes, analysis }, GroupAction::Decode),
            _ => (GroupStage::Done, GroupAction::Abort),
        },
        GroupEvent::Decoded => match stage {
            GroupStage::Decoding { normalizes, analysis } => if normalizes {
                (GroupStage::Normalizing { analysis }, GroupAction::Normalize)
            } else {
                after_normalization(analysis, false)
            },
            _ => (GroupStage::Done, GroupAction::Abort),
        },
        GroupEvent::Normalized { produced } => match stage {
            GroupStage::Normalizing { analysis } => after_normalization(analysis, produced),
            _ => (GroupStage::Done, GroupAction::Abort),
        },
        GroupEvent::AnalysisBuilt => (GroupStage::AwaitingGenerator { shared: true }, GroupAction::AcquireGenerator),
        GroupEvent::GeneratorAcquired => match stage {
            GroupStage::AwaitingGenerator { shared } => (GroupStage::Generating, GroupAction::Generate { shared }),
            _ => (GroupStage::Done, GroupAction::Abort),
        },
        GroupEvent::Generated => (GroupStage::Done, GroupAction::Publish),
        GroupEvent::WorkFailed { fatal } => if fatal {
            (GroupStage::Done, GroupAction::Abort)
        } else {
            match stage {
                GroupStage::Analysing => (GroupStage::AwaitingGenerator { shared: false }, GroupAction::AcquireGenerator),
                GroupStage::AwaitingGenerator { .. } => (GroupStage::Done, GroupAction::Abort),
                _ => (GroupStage::Done, GroupAction::FailGroup),
            }
        },
    }
}

fn after_normalization_exec(analysis: AnalysisPlan, produced: bool) -> (r: (GroupStage, GroupAction))
    ensures
        r == after_normalization(analysis, produced),
{
    match analysis {
        AnalysisPlan::Reuse => (GroupStage::AwaitingGenerator { shared: true }, GroupAction::AcquireGenerator),
        AnalysisPlan::Build => {
            if produced {
                (GroupStage::Analysing, GroupAction::BuildAnalysis)
            } else {
                (GroupStage::AwaitingGenerator { shared: false }, GroupAction::AcquireGenerator)
            }
        },
        AnalysisPlan::Unshared => (GroupStage::AwaitingGenerator { shared: false }, GroupAction::AcquireGenerator),
    }
}

/// Decides the next stage and action of a generator group from what its last
/// piece of work answered: a group over the memory limits and a non-fatal
/// failure of its memory, decoding, normalization or generation fail the
/// group's slots; a non-fatal failure to build the shared analysis only leaves
/// the group without it; a fatal failure, or any failure to obtain a generator,
/// ends the flight.
pub fn group_step(stage: GroupStage, event: GroupEvent) -> (r: (GroupStage, GroupAction))
    requires
        group_accepts(stage, event),
    ensures
        r == group_step_spec(stage, event),
{
    match event {
        GroupEvent::Sized { admitted, normalizes, analysis } => {
            if admitted {
                (GroupStage::AwaitingMemory { normalizes, analysis }, GroupAction::AcquireMemory)
            } else {
                (GroupStage::Done, GroupAction::FailGroup)
            }
        },
        GroupEvent::MemoryAcquired => match stage {
            GroupStage::AwaitingMemory { normalizes, analysis } => (GroupStage::Decoding { normalizes, analysis }, GroupAction::Decode),
            _ => (GroupStage::Done, GroupAction::Abort),
        },
        GroupEvent::Decoded => match stage {
            GroupStage::Decoding { normalizes, analysis } => {
                if normalizes {
                    (GroupStage::Normalizing { analysis }, GroupAction::Normalize)
                } else {
                    after_normalization_exec(analysis, false)
                }
            },
            _ => (GroupStage::Done, GroupAction::Abort),
        },
        GroupEvent::Normalized { produced } => match stage {
            GroupStage::Normalizing { analysis } => after_normalization_exec(analysis, produced),
            _ => (GroupStage::Done, GroupAction::Abort),
        },
        GroupEvent::AnalysisBuilt => (GroupStage::AwaitingGenerator { shared: true }, GroupAction::AcquireGenerator),
        GroupEvent::GeneratorAcquired => match stage {
            GroupStage::AwaitingGenerator { shared } => (GroupStage::Generating, GroupAction::Generate { shared }),
            _ => (GroupStage::Done, GroupAction::Abort),
        },
        GroupEvent::Generated => (GroupStage::Done, GroupAction::Publish),
        GroupEvent::WorkFailed { fatal } => {
            if fatal {
                (GroupStage::Done, GroupAction::Abort)
            } else {
                match stage {
                    GroupStage::Analysing => (GroupStage::AwaitingGenerator { shared: false }, GroupAction::AcquireGenerator),
                    GroupStage::AwaitingGenerator { .. } => (GroupStage::Done, GroupAction::Abort),
                    _ => (GroupStage::Done, GroupAction::FailGroup),
                }
            }
        },
    }
}

/// How far along a group's stage is; every step moves strictly forward.
pub open spec fn group_rank(stage: GroupStage) -> nat {
    match stage {
        GroupStage::Sizing => 0,
        GroupStage::AwaitingMemory { .. } => 1,
        GroupStage::Decoding { .. } => 2,
        GroupStage::Normalizing { .. } => 3,
        GroupStage::Analysing => 4,
        GroupStage::AwaitingGenerator { .. } => 5,
        GroupStage::Generating => 6,
        GroupStage::Done => 7,
    }
}

/// The rank of the stage that follows an action.
pub open spec fn group_action_rank(action: GroupAction) -> nat {
    match action {
        GroupAction::AcquireMemory => 1,
        GroupAction::Decode => 2,
        GroupAction::Normalize => 3,
        GroupAction::BuildAnalysis => 4,
        GroupAction::AcquireGenerator => 5,
        GroupAction::Generate { .. } => 6,
        _ => 7,
    }
}

/// Whether an action ends the group's work.
pub open spec fn ends_group(action: GroupAction) -> bool {
    action is Publish || action is FailGroup || action is Abort
}

/// The actions of a group's work from `stage` that answers with `events`, up to
/// the first event that its stage does not wait for.
pub open spec fn group_run(stage: GroupStage, events: Seq<GroupEvent>) -> Seq<GroupAction>
    decreases events.len(),
{
    if events.len() == 0 || !group_accepts(stage, events[0]) {
        Seq::empty()
    } else {
        let (next, action) = group_step_spec(stage, events[0]);
        seq![action] + group_run(next, events.drop_first())
    }
}

/// How often `action` occurs in `actions`.
pub open spec fn group_occurrences(actions: Seq<GroupAction>, action: GroupAction) -> nat
    decreases actions.len(),
{
    if actions.len() == 0 {
        0
    } else {
        (if actions[0] == action { 1nat } else { 0nat }) + group_occurrences(actions.drop_first(), action)
    }
}

proof fn lemma_group_step_moves_forward(stage: GroupStage, event: GroupEvent)
    requires
        group_accepts(stage, event),
    ensures
        group_rank(stage) < group_rank(group_step_spec(stage, event).0),
        group_rank(group_step_spec(stage, event).0) == group_action_rank(group_step_spec(stage, event).1),
        ends_group(group_step_spec(stage, event).1) <==> group_step_spec(stage, event).0 == GroupStage::Done,
{
}

proof fn lemma_group_occurrences_bounded(stage: GroupStage, events: Seq<GroupEvent>, action: GroupAction)
    ensures
        group_occurrences(group_run(stage, events), action) <= (if group_rank(stage) < group_action_rank(action) { 1nat } else { 0nat }),
    decreases events.len(),
{
    if events.len() > 0 && group_accepts(stage, events[0]) {
        let (next, first) = group_step_spec(stage, events[0]);
        lemma_group_step_moves_forward(stage, events[0]);
        lemma_group_occurrences_bounded(next, events.drop_first(), action);
        let actions = group_run(stage, events);
        assert(actions[0] == first);
        assert(actions.drop_first() =~= group_run(next, events.drop_first()));
    }
}

/// Whatever the work answers, a group acquires memory once, decodes once,
/// normalizes at most once, builds the shared analysis at most once, obtains a
/// generator at most once and generates at most once.
pub proof fn lemma_group_work_at_most_once(events: Seq<GroupEvent>, shared: bool)
    ensures
        group_occurrences(group_run(GroupStage::Sizing, events), GroupAction::AcquireMemory) <= 1,
        group_occurrences(group_run(GroupStage::Sizing, events), GroupAction::Decode) <= 1,
        group_occurrences(group_run(GroupStage::Sizing, events), GroupAction::Normalize) <= 1,
        group_occurrences(group_run(GroupStage::Sizing, events), GroupAction::BuildAnalysis) <= 1,
        group_occurrences(group_run(GroupStage::Sizing, events), GroupAction::AcquireGenerator) <= 1,
        group_occurrences(group_run(GroupStage::Sizing, events), GroupAction::Generate { shared }) <= 1,
{
    lemma_group_occurrences_bounded(GroupStage::Sizing, events, GroupAction::AcquireMemory);
    lemma_group_occurrences_bounded(GroupStage::Sizing, events, GroupAction::Decode);
    lemma_group_occurrences_bounded(GroupStage::Sizing, events, GroupAction::Normalize);
    lemma_group_occurrences_bounded(GroupStage::Sizing, events, GroupAction::BuildAnalysis);
    lemma_group_occurrences_bounded(GroupStage::Sizing, events, GroupAction::AcquireGenerator);
    lemma_group_occurrences_bounded(GroupStage::Sizing, events, GroupAction::Generate { shared });
}

/// Publishing, failing the group or ending the flight is the last action of a
/// group's work: nothing more is done for the group after it.
pub proof fn lemma_group_outcome_is_last(stage: GroupStage, events: Seq<GroupEvent>, i: int)
    requires
        0 <= i < group_run(stage, events).len(),
        ends_group(group_run(stage, events)[i]),
    ensures
        i == group_run(stage, events).len() - 1,
    decreases events.len(),
{
    let (next, first) = group_step_spec(stage, events[0]);
    lemma_group_step_moves_forward(stage, events[0]);
    let actions = group_run(stage, events);
    assert(actions.drop_first() =~= group_run(next, events.drop_first()));
    if i == 0 {
        assert(group_run(next, events.drop_first()).len() == 0);
    } else {
        assert(actions[i] == group_run(next, events.drop_first())[i - 1]);
        lemma_group_outcome_is_last(next, events.drop_first(), i - 1);
    }
}

/// A fatal failure, at any stage of a group's work, ends the whole flight; it
/// never only fails the group.
pub proof fn lemma_fatal_failure_ends_the_flight(stage: GroupStage)
    requires
        group_accepts(stage, GroupEvent::WorkFailed { fatal: true }),
    ensures
        group_step_spec(stage, GroupEvent::WorkFailed { fatal: true }) == (GroupStage::Done, GroupAction::Abort),
{
}

/// A non-fatal failure of the group's own work (memory, decoding,
/// normalization or generation) fails exactly that group, whose slots then
/// all report it; a non-fatal failure to build the shared analysis lets the
/// group generate without it.
pub proof fn lemma_group_failures_stay_in_the_group(stage: GroupStage)
    requires
        group_accepts(stage, GroupEvent::WorkFailed { fatal: false }),
    ensures
        (stage is AwaitingMemory || stage is Decoding || stage is Normalizing || stage is Generating)
            ==> group_step_spec(stage, GroupEvent::WorkFailed { fatal: false }) == (GroupStage::Done, GroupAction::FailGroup),
        stage is Analysing ==> group_step_spec(stage, GroupEvent::WorkFailed { fatal: false }) == (
            GroupStage::AwaitingGenerator { shared: false },
            GroupAction::AcquireGenerator,
        ),
{
}

/// A group over the memory limits does no work: it fails its slots at once.
pub proof fn lemma_over_limit_group_does_no_work(normalizes: bool, analysis: AnalysisPlan, events: Seq<GroupEvent>)
    ensures
        group_run(GroupStage::Sizing, seq![GroupEvent::Sized { admitted: false, normalizes, analysis }] + events)
            == seq![GroupAction::FailGroup],
{
    let evs = seq![GroupEvent::Sized { admitted: false, normalizes, analysis }] + events;
    assert(evs[0] == GroupEvent::Sized { admitted: false, normalizes, analysis });
    assert(group_run(GroupStage::Done, evs.drop_first()) =~= Seq::<GroupAction>::empty());
    assert(group_run(GroupStage::Sizing, evs) =~= seq![GroupAction::FailGroup]);
}

} // verus!
