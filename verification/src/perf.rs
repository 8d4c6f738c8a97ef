//! Arithmetic and counters of the overlapping-request release benchmark.
//!
//! The benchmark replays adjacent windows that share all but one retained frame
//! (concurrent mode) or slides one frame at a time (sequential mode), and reports
//! the memory the current service reserves for them together with how many
//! decode and normalize passes ran.
use vstd::prelude::*;

verus! {

/// Straight RGBA8 bytes of one 1920x1080 decoded frame.
pub const DECODED_FRAME_BYTES: usize = 8_294_400;

/// Linear RGB16 bytes of one 960x540 normalized frame.
pub const NORMALIZED_FRAME_BYTES: usize = 3_110_400;

/// Output reservation kept for the three artifacts of one request: 3 x 64 MiB.
pub const OUTPUT_RESERVATION_BYTES: usize = 201_326_592;

/// The two request shapes the benchmark drives.
#[derive(Clone, Copy, Debug, PartialEq, Eq, Structural)]
pub enum Mode {
    Concurrent,
    Sequential,
}

pub open spec fn mode_text(mode: Mode) -> Seq<char> {
    match mode {
        Mode::Concurrent => "concurrent_adjacent"@,
        Mode::Sequential => "sequential_sliding"@,
    }
}

/// The mode a `PERF_OVERLAP_MODE` value names: `concurrent` or `sequential`.
pub open spec fn mode_named(value: Seq<char>) -> Option<Mode> {
    if value == "concurrent"@ {
        Some(Mode::Concurrent)
    } else if value == "sequential"@ {
        Some(Mode::Sequential)
    } else {
        None
    }
}

impl Mode {
    /// The mode a configured value names, if any.
    pub fn parse(value: &str) -> (r: Option<Mode>)
        ensures
            r == mode_named(value@),
    {
        if crate::status::same_text(value, "concurrent") {
            Some(Mode::Concurrent)
        } else if crate::status::same_text(value, "sequential") {
            Some(Mode::Sequential)
        } else {
            None
        }
    }

    /// The configured mode: concurrent when unset.
    pub fn from_environment(value: Option<&str>) -> (r: Mode)
        requires
            value matches Some(v) ==> mode_named(v@).is_some(),
        ensures
            r == (match value {
                Some(v) => mode_named(v@).unwrap(),
                None => Mode::Concurrent,
            }),
    {
        match value {
            Some(v) => match Mode::parse(v) {
                Some(m) => m,
                None => Mode::Concurrent,
            },
            None => Mode::Concurrent,
        }
    }

    /// The report name of the mode.
    pub fn as_str(self) -> (r: &'static str)
        ensures
            r@ == mode_text(self),
    {
        match self {
            Mode::Concurrent => "concurrent_adjacent",
            Mode::Sequential => "sequential_sliding",
        }
    }
}

/// One benchmark configuration.
#[derive(Clone, Copy, Debug)]
pub struct Config {
    pub frames: usize,
    pub request_permits: usize,
    pub sliding_windows: usize,
    pub repetitions: usize,
    pub mode: Mode,
}

/// The configurations the benchmark runs: 30, 60 or 120 frames, one or two
/// request permits, one to eight sliding windows and one to five repetitions.
pub open spec fn config_accepted(frames: usize, request_permits: usize, sliding_windows: usize, repetitions: usize) -> bool {
    &&& (frames == 30 || frames == 60 || frames == 120)
    &&& (request_permits == 1 || request_permits == 2)
    &&& 1 <= sliding_windows <= 8
    &&& 1 <= repetitions <= 5
}

/// A configured value, or its default when the variable is unset.
pub open spec fn or_default(value: Option<usize>, default: usize) -> usize {
    match value {
        Some(v) => v,
        None => default,
    }
}

impl Config {
    /// Whether the configured values (unset ones taking their defaults of 60
    /// frames, 2 permits, 4 windows and 1 repetition) form a runnable configuration.
    pub fn accepts(
        frames: Option<usize>,
        request_permits: Option<usize>,
        sliding_windows: Option<usize>,
        repetitions: Option<usize>,
    ) -> (r: bool)
        ensures
            r == config_accepted(
                or_default(frames, 60),
                or_default(request_permits, 2),
                or_default(sliding_windows, 4),
                or_default(repetitions, 1),
            ),
    {
        let f = match frames { Some(v) => v, None => 60 };
        let p = match request_permits { Some(v) => v, None => 2 };
        let w = match sliding_windows { Some(v) => v, None => 4 };
        let n = match repetitions { Some(v) => v, None => 1 };
        (f == 30 || f == 60 || f == 120) && (p == 1 || p == 2) && 1 <= w && w <= 8 && 1 <= n && n <= 5
    }

    /// The configuration read from the benchmark's environment variables: each
    /// count defaults when unset, and the mode defaults to concurrent.
    pub fn from_environment(
        frames: Option<usize>,
        request_permits: Option<usize>,
        sliding_windows: Option<usize>,
        repetitions: Option<usize>,
        mode: Option<Mode>,
    ) -> (c: Config)
        requires
            config_accepted(
                or_default(frames, 60),
                or_default(request_permits, 2),
                or_default(sliding_windows, 4),
                or_default(repetitions, 1),
            ),
        ensures
            c.frames == or_default(frames, 60),
            c.request_permits == or_default(request_permits, 2),
            c.sliding_windows == or_default(sliding_windows, 4),
            c.repetitions == or_default(repetitions, 1),
            c.mode == (match mode { Some(m) => m, None => Mode::Concurrent }),
    {
        Config {
            frames: match frames { Some(v) => v, None => 60 },
            request_permits: match request_permits { Some(v) => v, None => 2 },
            sliding_windows: match sliding_windows { Some(v) => v, None => 4 },
            repetitions: match repetitions { Some(v) => v, None => 1 },
            mode: match mode { Some(m) => m, None => Mode::Concurrent },
        }
    }
}

/// Bytes of one decoded 1920x1080 straight RGBA8 frame.
pub fn decoded_bytes_per_frame() -> (r: usize)
    ensures
        r == 1920 * 1080 * 4,
{
    1_920 * 1_080 * 4
}

/// Bytes of one normalized 960x540 linear RGB16 frame.
pub fn normalized_bytes_per_frame() -> (r: usize)
    ensures
        r == 960 * 540 * 6,
{
    960 * 540 * 6
}

/// `min(a * b, usize::MAX)`.
pub open spec fn saturating_product(a: int, b: int) -> int {
    if a * b > usize::MAX { usize::MAX as int } else { a * b }
}

/// `min(a + b, usize::MAX)`.
pub open spec fn saturating_total(a: int, b: int) -> int {
    if a + b > usize::MAX { usize::MAX as int } else { a + b }
}

pub fn saturating_mul(a: usize, b: usize) -> (r: usize)
    ensures
        r == saturating_product(a as int, b as int),
{
    match a.checked_mul(b) {
        Some(v) => v,
        None => usize::MAX,
    }
}

/// The memory the current service reserves for one request over `frames`
/// frames: every frame decoded and normalized, plus the output reservation,
/// saturating at `usize::MAX`.
pub fn request_memory_reservation(frames: usize) -> (r: usize)
    ensures
        r == saturating_total(
            saturating_product(frames as int, DECODED_FRAME_BYTES + NORMALIZED_FRAME_BYTES),
            OUTPUT_RESERVATION_BYTES as int,
        ),
{
    let per_frame = decoded_bytes_per_frame() + normalized_bytes_per_frame();
    saturating_mul(frames, per_frame).saturating_add(3 * 64 * 1024 * 1024)
}

/// Decode and normalize pass counts.
#[derive(Clone, Copy, Debug, PartialEq, Eq, Structural)]
pub struct Snapshot {
    pub decode_calls: u64,
    pub decoded_frames: u64,
    pub normalize_calls: u64,
    pub normalized_frames: u64,
}

/// Counters of the decode and normalize passes of one benchmark cell. Each
/// counter wraps at `u64::MAX`.
pub struct PerfCounters {
    counts: Snapshot,
}

impl View for PerfCounters {
    type V = Snapshot;

    closed spec fn view(&self) -> Snapshot {
        self.counts
    }
}

pub open spec fn zero_snapshot() -> Snapshot {
    Snapshot { decode_calls: 0, decoded_frames: 0, normalize_calls: 0, normalized_frames: 0 }
}

impl PerfCounters {
    /// Counters at zero.
    pub fn new() -> (c: PerfCounters)
        ensures
            c@ == zero_snapshot(),
    {
        PerfCounters { counts: Snapshot { decode_calls: 0, decoded_frames: 0, normalize_calls: 0, normalized_frames: 0 } }
    }

    /// Sets every counter back to zero.
    pub fn reset(&mut self)
        ensures
            final(self)@ == zero_snapshot(),
    {
        self.counts = Snapshot { decode_calls: 0, decoded_frames: 0, normalize_calls: 0, normalized_frames: 0 };
    }

    /// Counts one decode call of one frame.
    pub fn record_decode(&mut self)
        ensures
            final(self)@ == (Snapshot {
                decode_calls: vstd::wrapping::u64_specs::wrapping_add(old(self)@.decode_calls, 1),
                decoded_frames: vstd::wrapping::u64_specs::wrapping_add(old(self)@.decoded_frames, 1),
                ..old(self)@
            }),
    {
        self.counts.decode_calls = self.counts.decode_calls.wrapping_add(1);
        self.counts.decoded_frames = self.counts.decoded_frames.wrapping_add(1);
    }

    /// Counts one normalize call over `frame_count` frames.
    pub fn record_normalize(&mut self, frame_count: usize)
        ensures
            final(self)@ == (Snapshot {
                normalize_calls: vstd::wrapping::u64_specs::wrapping_add(old(self)@.normalize_calls, 1),
                normalized_frames: vstd::wrapping::u64_specs::wrapping_add(old(self)@.normalized_frames, frame_count as u64),
                ..old(self)@
            }),
    {
        self.counts.normalize_calls = self.counts.normalize_calls.wrapping_add(1);
        self.counts.normalized_frames = self.counts.normalized_frames.wrapping_add(frame_count as u64);
    }

    /// The current counts.
    pub fn snapshot(&self) -> (s: Snapshot)
        ensures
            s == self@,
    {
        self.counts
    }
}

/// The resident set size, in KiB, that a process status report gives
/// (`VmRSS:`); zero when the report has no readable value.
pub fn current_rss_kib(status: &str) -> (v: u64)
    ensures
        v == crate::status::field_from(status@, "VmRSS:"@, 0),
{
    crate::status::status_field(status, "VmRSS:")
}

/// The peak resident set size, in KiB, that a process status report gives
/// (`VmHWM:`); zero when the report has no readable value.
pub fn peak_rss_kib(status: &str) -> (v: u64)
    ensures
        v == crate::status::field_from(status@, "VmHWM:"@, 0),
{
    crate::status::status_field(status, "VmHWM:")
}

/// A non-negative count, or zero.
pub open spec fn nonnegative(v: i64) -> u64 {
    if v < 0 { 0 } else { v as u64 }
}

/// `min(v, u64::MAX)`.
pub open spec fn clamp_u64(v: int) -> int {
    if v > u64::MAX { u64::MAX as int } else { v }
}

/// Microseconds of a `timeval` of `seconds` and `microseconds`: negative parts
/// count as zero and the total saturates at `u64::MAX`.
pub fn timeval_us(seconds: i64, microseconds: i64) -> (us: u64)
    ensures
        us == clamp_u64(clamp_u64(nonnegative(seconds) * 1_000_000) + nonnegative(microseconds)),
{
    let s: u64 = if seconds < 0 { 0 } else { seconds as u64 };
    let u: u64 = if microseconds < 0 { 0 } else { microseconds as u64 };
    let whole: u64 = match s.checked_mul(1_000_000) {
        Some(v) => v,
        None => u64::MAX,
    };
    whole.saturating_add(u)
}


/// A configured count: the value when set, the default otherwise. A set value
/// must be an integer.
pub fn env_usize(value: Option<&str>, default: usize) -> (r: usize)
    requires
        value matches Some(v) ==> crate::status::parse_usize_spec(v@).is_some(),
    ensures
        r == (match value {
            Some(v) => crate::status::parse_usize_spec(v@).unwrap(),
            None => default,
        }),
{
    match value {
        Some(v) => match crate::status::parse_usize(v) {
            Some(n) => n,
            None => default,
        },
        None => default,
    }
}

} // verus!
