//! Work limits of artifact generation and the admission checks of the scheduler.
use vstd::prelude::*;

use crate::epoch::AdaptationLimits;
use crate::errors::{ErrorCode, Failure};

verus! {

/// Bounds on the concurrency, size and duration of artifact generation. Every
/// count and byte limit is positive.
#[derive(Clone, Copy, Debug, PartialEq, Eq, Structural)]
pub struct ArtifactWorkLimits {
    pub max_active_requests: usize,
    pub max_blocking_jobs: usize,
    pub max_parallel_generators_per_request: usize,
    pub max_source_frames: usize,
    pub max_encoded_source_bytes: usize,
    pub max_dimension: u32,
    pub max_pixels_per_frame: usize,
    pub max_decoded_bytes: usize,
    pub max_normalized_bytes: usize,
    pub max_combined_request_bytes: usize,
    pub max_outputs: usize,
    pub max_output_bytes_each: usize,
    pub max_output_bytes_total: usize,
    pub max_markers: usize,
    pub max_wall_time_millis: u64,
}

impl ArtifactWorkLimits {
    /// Every count and byte limit is positive.
    pub open spec fn positive(self) -> bool {
        &&& self.max_active_requests > 0
        &&& self.max_blocking_jobs > 0
        &&& self.max_parallel_generators_per_request > 0
        &&& self.max_source_frames > 0
        &&& self.max_encoded_source_bytes > 0
        &&& self.max_dimension > 0
        &&& self.max_pixels_per_frame > 0
        &&& self.max_decoded_bytes > 0
        &&& self.max_normalized_bytes > 0
        &&& self.max_combined_request_bytes > 0
        &&& self.max_outputs > 0
        &&& self.max_output_bytes_each > 0
        &&& self.max_output_bytes_total > 0
        &&& self.max_markers > 0
    }

    /// The limits are usable: a positive wall time, every memory class and the
    /// output total inside the combined request budget, each output inside the
    /// total, and a combined budget the scheduler can count in 32 bits.
    pub open spec fn consistent(self) -> bool {
        &&& self.max_wall_time_millis > 0
        &&& self.max_decoded_bytes <= self.max_combined_request_bytes
        &&& self.max_normalized_bytes <= self.max_combined_request_bytes
        &&& self.max_output_bytes_total <= self.max_combined_request_bytes
        &&& self.max_output_bytes_each <= self.max_output_bytes_total
        &&& self.max_combined_request_bytes <= u32::MAX
    }

    /// Accepts consistent limits unchanged; otherwise a resource-limit failure.
    /// Limits are positive, as the limit types make every limit.
    pub fn validate(self) -> (r: Result<ArtifactWorkLimits, Failure>)
        requires
            self.positive(),
        ensures
            match r {
                Ok(l) => self.consistent() && l == self && l.positive(),
                Err(f) => !self.consistent() && f.code == ErrorCode::ResourceLimitExceeded,
            },
    {
        if self.max_wall_time_millis == 0 {
            return Err(limit_error("artifact wall-time limit must be non-zero"));
        }
        if self.max_decoded_bytes > self.max_combined_request_bytes
            || self.max_normalized_bytes > self.max_combined_request_bytes
            || self.max_output_bytes_total > self.max_combined_request_bytes
            || self.max_output_bytes_each > self.max_output_bytes_total
        {
            return Err(limit_error("artifact memory and output limits are internally inconsistent"));
        }
        if self.max_combined_request_bytes > 0xffff_ffffusize {
            return Err(limit_error("artifact combined memory limit exceeds scheduler capacity"));
        }
        Ok(self)
    }

    /// The limits that bound adaptation of retained frames.
    pub fn adaptation(self) -> (r: AdaptationLimits)
        ensures
            r == (AdaptationLimits {
                max_source_frames: self.max_source_frames,
                max_encoded_source_bytes: self.max_encoded_source_bytes,
                max_dimension: self.max_dimension,
                max_pixels_per_frame: self.max_pixels_per_frame,
                max_decoded_bytes: self.max_decoded_bytes,
                max_markers: self.max_markers,
            }),
            self.positive() ==> r.positive(),
    {
        AdaptationLimits {
            max_source_frames: self.max_source_frames,
            max_encoded_source_bytes: self.max_encoded_source_bytes,
            max_dimension: self.max_dimension,
            max_pixels_per_frame: self.max_pixels_per_frame,
            max_decoded_bytes: self.max_decoded_bytes,
            max_markers: self.max_markers,
        }
    }

    /// The production limits on a machine with `available_parallelism` CPUs:
    /// blocking jobs leave one CPU free and stay between one and four.
    pub fn default(available_parallelism: usize) -> (r: ArtifactWorkLimits)
        ensures
            r == default_limits(blocking_jobs_for(available_parallelism)),
            r.positive(),
            r.consistent(),
    {
        let cpus = if available_parallelism == 0 { 1 } else { available_parallelism };
        let spare = cpus.saturating_sub(1);
        let jobs = if spare < 1 { 1 } else if spare > 4 { 4 } else { spare };
        ArtifactWorkLimits {
            max_active_requests: 2,
            max_blocking_jobs: jobs,
            max_parallel_generators_per_request: 2,
            max_source_frames: 240,
            max_encoded_source_bytes: 512 * 1024 * 1024,
            max_dimension: 8192,
            max_pixels_per_frame: 16_777_216,
            max_decoded_bytes: 768 * 1024 * 1024,
            max_normalized_bytes: 512 * 1024 * 1024,
            max_combined_request_bytes: 1024 * 1024 * 1024,
            max_outputs: 16,
            max_output_bytes_each: 64 * 1024 * 1024,
            max_output_bytes_total: 256 * 1024 * 1024,
            max_markers: 256,
            max_wall_time_millis: 15_000,
        }
    }
}

/// Blocking jobs on `cpus` CPUs (an unknown count is one): `cpus - 1`, clamped
/// to `1..=4`.
pub open spec fn blocking_jobs_for(cpus: usize) -> usize {
    let c = if cpus == 0 { 1 } else { cpus as int };
    if c - 1 < 1 { 1 } else if c - 1 > 4 { 4 } else { (c - 1) as usize }
}

/// The production limits with the given number of blocking jobs.
pub open spec fn default_limits(jobs: usize) -> ArtifactWorkLimits {
    ArtifactWorkLimits {
        max_active_requests: 2,
        max_blocking_jobs: jobs,
        max_parallel_generators_per_request: 2,
        max_source_frames: 240,
        max_encoded_source_bytes: 536_870_912,
        max_dimension: 8192,
        max_pixels_per_frame: 16_777_216,
        max_decoded_bytes: 805_306_368,
        max_normalized_bytes: 536_870_912,
        max_combined_request_bytes: 1_073_741_824,
        max_outputs: 16,
        max_output_bytes_each: 67_108_864,
        max_output_bytes_total: 268_435_456,
        max_markers: 256,
        max_wall_time_millis: 15_000,
    }
}

/// A resource-limit failure of the scheduler, with its recovery guidance.
pub fn limit_error(message: &str) -> (f: Failure)
    ensures
        f.code == ErrorCode::ResourceLimitExceeded,
        f.message@ == message@,
        f.recovery matches Some(r) && r@ == "narrow the source range or reduce the artifact scope"@,
{
    Failure::new(ErrorCode::ResourceLimitExceeded, message).with_recovery("narrow the source range or reduce the artifact scope")
}

/// Admission of a memory reservation: a positive byte count inside the combined
/// request budget, counted as 32-bit scheduler permits.
pub fn memory_permits(limits: ArtifactWorkLimits, bytes: usize) -> (r: Result<u32, Failure>)
    ensures
        match r {
            Ok(p) => 0 < bytes <= limits.max_combined_request_bytes && bytes <= u32::MAX && p == bytes,
            Err(f) => (bytes == 0 || bytes > limits.max_combined_request_bytes || bytes > u32::MAX)
                && f.code == ErrorCode::ResourceLimitExceeded,
        },
{
    if bytes == 0 || bytes > limits.max_combined_request_bytes {
        return Err(limit_error("artifact request exceeds the combined memory limit"));
    }
    if bytes > 0xffff_ffffusize {
        return Err(limit_error("artifact memory reservation exceeds scheduler capacity"));
    }
    Ok(bytes as u32)
}

/// Failures that end a request outright rather than one artifact: cancellation
/// and a missing source.
pub open spec fn is_fatal_code(code: ErrorCode) -> bool {
    code == ErrorCode::Cancelled || code == ErrorCode::NotFound
}

pub fn is_fatal(error: &Failure) -> (r: bool)
    ensures
        r == is_fatal_code(error.code),
{
    match error.code {
        ErrorCode::Cancelled | ErrorCode::NotFound => true,
        _ => false,
    }
}


/// The failure of work whose deadline passed.
pub fn deadline_error() -> (f: Failure)
    ensures
        f.code == ErrorCode::ArtifactGenerationFailed,
        f.message@ == "artifact generation deadline elapsed"@,
        f.retry.is_none(),
        f.recovery.is_none(),
{
    Failure::new(ErrorCode::ArtifactGenerationFailed, "artifact generation deadline elapsed")
}

/// The failure of work whose caller cancelled it.
pub fn cancelled_error() -> (f: Failure)
    ensures
        f.code == ErrorCode::Cancelled,
        f.message@ == "artifact generation was cancelled"@,
        f.retry.is_none(),
        f.recovery.is_none(),
{
    Failure::new(ErrorCode::Cancelled, "artifact generation was cancelled")
}

/// A failure of the scheduler itself.
pub fn scheduler_error(message: &str) -> (f: Failure)
    ensures
        f.code == ErrorCode::ArtifactGenerationFailed,
        f.message@ == message@,
        f.recovery.is_none(),
{
    Failure::new(ErrorCode::ArtifactGenerationFailed, message)
}


/// Work stops at the next check once it was cancelled.
pub fn check_cancellation(cancelled: bool) -> (r: Result<(), Failure>)
    ensures
        r is Ok <==> !cancelled,
        r matches Err(f) ==> f.code == ErrorCode::Cancelled && f.message@ == "artifact generation was cancelled"@,
{
    if cancelled {
        Err(cancelled_error())
    } else {
        Ok(())
    }
}

} // verus!
