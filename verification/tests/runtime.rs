use krometrail::diagnostics::{
    LOG_NAME, LogState, MAX_FILE_BYTES, RETAINED_GENERATIONS, generation_path, names_a_file, rotation_moves,
};
use krometrail::doctor::{DoctorOutcome, doctor_launcher_error, run};
use krometrail::errors::{ErrorCode, Failure, RetryAdvice, report_line, retry_advice_name};
use krometrail::framing::{framed_hash, put_u32, put_u64, put_u128};
use krometrail::perf::{
    Config, Mode, PerfCounters, Snapshot, current_rss_kib, decoded_bytes_per_frame,
    normalized_bytes_per_frame, peak_rss_kib, request_memory_reservation, saturating_mul, timeval_us,
};
use krometrail::status::{parse_u64, parse_usize, same_text, status_field};
use krometrail::perf::env_usize;
use krometrail::normalization::{FrameSelector, explicit_reference_frame};
use krometrail::scheduler::{cancelled_error, check_cancellation, deadline_error, scheduler_error};
use krometrail::scheduler::{ArtifactWorkLimits, is_fatal, limit_error, memory_permits};
use sha2::Digest;
use std::path::Path;

#[test]
fn log_path_is_rooted_in_the_configured_data_directory() {
    let data = Path::new("/tmp/configured-krometrail-data");
    assert_eq!(
        data.join("diagnostics").join(LOG_NAME),
        Path::new("/tmp/configured-krometrail-data/diagnostics/krometrail.log")
    );
}

#[test]
fn generations_replace_the_log_extension_and_rotate_oldest_first() {
    let live = "/tmp/configured-krometrail-data/diagnostics/krometrail.log";
    assert_eq!(generation_path(live, 0), live);
    assert_eq!(generation_path(live, 3), "/tmp/configured-krometrail-data/diagnostics/krometrail.log.3");
    assert_eq!(generation_path("/var/log/trace", 1), "/var/log/trace.log.1");
    assert_eq!(generation_path("/var/log.d/.hidden", 2), "/var/log.d/.hidden.log.2");
    assert_eq!(rotation_moves(), vec![(2, 3), (1, 2), (0, 1)]);
    assert_eq!(RETAINED_GENERATIONS, 3);
}

#[test]
fn the_writer_rotates_before_a_write_that_would_pass_the_bound() {
    let mut state = LogState { length: 0 };
    let first = state.plan_write(MAX_FILE_BYTES as usize);
    assert!(!first.rotate);
    assert_eq!(first.take, MAX_FILE_BYTES as usize);
    state.record_written(first.take);
    assert_eq!(state.length, MAX_FILE_BYTES);
    let second = state.plan_write(1);
    assert!(second.rotate);
    state.rotated();
    assert_eq!(state.length, 0);
    let oversized = state.plan_write(3 * MAX_FILE_BYTES as usize);
    assert!(!oversized.rotate);
    assert_eq!(oversized.take, MAX_FILE_BYTES as usize);
}

#[test]
fn doctor_reports_discovered_installations_without_touching_the_browser() {
    let outcome = run(Ok(2)).unwrap();
    assert_eq!(outcome.success_line(), "browser available: 2 installation(s)");
    assert_eq!(DoctorOutcome { installation_count: 120 }.success_line(), "browser available: 120 installation(s)");
}

#[test]
fn doctor_reports_the_explicit_browser_not_found_error_without_a_browser() {
    let error = run(Ok(0)).unwrap_err();
    assert_eq!(error.code, ErrorCode::BrowserNotFound);
    assert_eq!(error.message, "no supported browser installation was found");
    assert_eq!(error.retry, Some(RetryAdvice::AfterRecovery));
    assert_eq!(error.recovery.as_deref(), Some("install Chrome or Chromium, then run doctor again"));
}

#[test]
fn doctor_maps_launcher_failures_onto_stable_errors() {
    let error = run(Err(ErrorCode::BrowserNotFound)).unwrap_err();
    assert_eq!(error.code, ErrorCode::BrowserNotFound);
    assert_eq!(error.message, "no supported browser installation was found");
    let other = doctor_launcher_error(ErrorCode::Internal);
    assert_eq!(other.code, ErrorCode::Internal);
    assert_eq!(other.message, "browser discovery failed");
}

#[test]
fn framed_hash_is_sha256_of_the_length_framed_transcript() {
    let fields = vec![b"ab".to_vec(), Vec::new()];
    let mut transcript = Vec::new();
    transcript.extend_from_slice(&6_u64.to_be_bytes());
    transcript.extend_from_slice(b"domain");
    transcript.extend_from_slice(&2_u64.to_be_bytes());
    transcript.extend_from_slice(b"ab");
    transcript.extend_from_slice(&0_u64.to_be_bytes());
    let expected: [u8; 32] = sha2::Sha256::digest(&transcript).into();
    assert_eq!(framed_hash("domain", &fields), expected);
    // Moving a byte between fields changes the transcript and the digest.
    assert_ne!(framed_hash("domain", &vec![b"a".to_vec(), b"b".to_vec()]), expected);
}

#[test]
fn integers_are_written_as_framed_big_endian_fields() {
    let mut out = Vec::new();
    put_u32(&mut out, 0x0102_0304);
    put_u64(&mut out, 5);
    put_u128(&mut out, 1 << 64);
    let mut expected = Vec::new();
    expected.extend_from_slice(&4_u64.to_be_bytes());
    expected.extend_from_slice(&[1, 2, 3, 4]);
    expected.extend_from_slice(&8_u64.to_be_bytes());
    expected.extend_from_slice(&5_u64.to_be_bytes());
    expected.extend_from_slice(&16_u64.to_be_bytes());
    expected.extend_from_slice(&(1_u128 << 64).to_be_bytes());
    assert_eq!(out, expected);
}

#[test]
fn benchmark_configuration_defaults_and_bounds() {
    assert!(Config::accepts(None, None, None, None));
    let config = Config::from_environment(None, None, None, None, None);
    assert_eq!((config.frames, config.request_permits, config.sliding_windows, config.repetitions), (60, 2, 4, 1));
    assert_eq!(config.mode, Mode::Concurrent);
    assert!(!Config::accepts(Some(45), None, None, None));
    assert!(!Config::accepts(None, Some(3), None, None));
    assert!(!Config::accepts(None, None, Some(9), None));
    assert!(!Config::accepts(None, None, None, Some(0)));
    assert_eq!(Mode::Sequential.as_str(), "sequential_sliding");
    assert_eq!(Mode::Concurrent.as_str(), "concurrent_adjacent");
    assert_eq!(decoded_bytes_per_frame(), 8_294_400);
    assert_eq!(normalized_bytes_per_frame(), 3_110_400);
    assert_eq!(request_memory_reservation(60), 60 * (8_294_400 + 3_110_400) + 201_326_592);
    assert_eq!(request_memory_reservation(usize::MAX), usize::MAX);
    assert_eq!(saturating_mul(usize::MAX, 2), usize::MAX);
}

#[test]
fn perf_counters_count_passes_and_reset() {
    let mut counters = PerfCounters::new();
    counters.record_decode();
    counters.record_decode();
    counters.record_normalize(30);
    assert_eq!(
        counters.snapshot(),
        Snapshot { decode_calls: 2, decoded_frames: 2, normalize_calls: 1, normalized_frames: 30 }
    );
    counters.reset();
    assert_eq!(counters.snapshot(), Snapshot { decode_calls: 0, decoded_frames: 0, normalize_calls: 0, normalized_frames: 0 });
}

#[test]
fn work_limits_validate_and_count_memory_permits() {
    let limits = ArtifactWorkLimits::default(1);
    assert_eq!(limits.max_blocking_jobs, 1);
    assert_eq!(ArtifactWorkLimits::default(3).max_blocking_jobs, 2);
    assert_eq!(ArtifactWorkLimits::default(64).max_blocking_jobs, 4);
    assert_eq!(ArtifactWorkLimits::default(0).max_blocking_jobs, 1);
    assert_eq!(limits.validate().unwrap(), limits);
    let mut bad = limits;
    bad.max_wall_time_millis = 0;
    assert_eq!(bad.validate().unwrap_err().code, ErrorCode::ResourceLimitExceeded);
    let mut bad = limits;
    bad.max_output_bytes_each = bad.max_output_bytes_total + 1;
    assert_eq!(bad.validate().unwrap_err().code, ErrorCode::ResourceLimitExceeded);
    assert_eq!(memory_permits(limits, 4096).unwrap(), 4096);
    assert_eq!(memory_permits(limits, limits.max_combined_request_bytes + 1).unwrap_err().code, ErrorCode::ResourceLimitExceeded);
    assert!(!is_fatal(&limit_error("over")));
    assert!(is_fatal(&krometrail::errors::Failure::new(ErrorCode::Cancelled, "cancelled")));
    assert_eq!(limit_error("over").message, "over");
}

const STATUS: &str = "Name:\tkrometrail\nVmPeak:\t  900000 kB\nVmHWM:\t  654321 kB\nVmRSS:\t  123456 kB\nThreads:\t8\n";

#[test]
fn resident_set_sizes_come_from_the_status_report() {
    assert_eq!(current_rss_kib(STATUS), 123_456);
    assert_eq!(peak_rss_kib(STATUS), 654_321);
    assert_eq!(status_field(STATUS, "Threads:"), 8);
    assert_eq!(status_field(STATUS, "VmSwap:"), 0);
    assert_eq!(current_rss_kib(""), 0);
    // The first matching line wins; a value that does not parse reads as zero.
    assert_eq!(current_rss_kib("VmRSS: 7 kB\nVmRSS: 9 kB\n"), 7);
    assert_eq!(current_rss_kib("VmRSS: 7x kB\n"), 0);
    assert_eq!(current_rss_kib("VmRSS:\n"), 0);
    assert_eq!(current_rss_kib("VmRSS: +12 kB\r\n"), 12);
    assert_eq!(current_rss_kib("VmRSS: -12 kB"), 0);
    assert_eq!(current_rss_kib("VmRSS: 18446744073709551615 kB"), u64::MAX);
    assert_eq!(current_rss_kib("VmRSS: 18446744073709551616 kB"), 0);
    // Only a line's start is a field name.
    assert_eq!(current_rss_kib("XVmRSS: 5 kB\n VmRSS: 6 kB\nVmRSS:\u{3000}11"), 11);
}

#[test]
fn timevals_are_microseconds_that_saturate() {
    assert_eq!(timeval_us(2, 500), 2_000_500);
    assert_eq!(timeval_us(-1, 500), 500);
    assert_eq!(timeval_us(3, -7), 3_000_000);
    assert_eq!(timeval_us(i64::MAX, i64::MAX), u64::MAX);
}

#[test]
fn failures_are_reported_with_their_code_and_retry_advice() {
    let failure = Failure::new(ErrorCode::BrowserNotFound, "no supported browser installation was found")
        .with_retry(RetryAdvice::AfterRecovery);
    assert_eq!(
        report_line(&failure),
        "error[browser_not_found] (retry=after_recovery): no supported browser installation was found"
    );
    assert_eq!(report_line(&Failure::new(ErrorCode::Internal, "boom")), "error[internal] (retry=never): boom");
    assert_eq!(retry_advice_name(RetryAdvice::Safe), "safe");
    assert_eq!(ErrorCode::ResourceLimitExceeded.as_str(), "resource_limit_exceeded");
}

#[test]
fn benchmark_settings_parse_like_the_standard_library() {
    assert_eq!(Mode::parse("sequential"), Some(Mode::Sequential));
    assert_eq!(Mode::parse("concurrent"), Some(Mode::Concurrent));
    assert_eq!(Mode::parse("Sequential"), None);
    assert_eq!(Mode::from_environment(None), Mode::Concurrent);
    assert_eq!(Mode::from_environment(Some("sequential")), Mode::Sequential);
    assert_eq!(env_usize(None, 60), 60);
    assert_eq!(env_usize(Some("120"), 60), 120);
    assert_eq!(parse_usize("+7"), Some(7));
    assert_eq!(parse_usize(""), None);
    assert_eq!(parse_usize("+"), None);
    assert_eq!(parse_usize(" 7"), None);
    for text in ["0", "42", "+42", "007", "18446744073709551615", "18446744073709551616", "-1", "4a", "\u{0663}"] {
        assert_eq!(parse_u64(text), text.parse::<u64>().ok(), "{text}");
    }
    assert!(same_text("abc", "abc"));
    assert!(!same_text("abc", "abd"));
}

#[test]
fn scheduler_failures_and_reference_selectors() {
    assert_eq!(deadline_error().code, ErrorCode::ArtifactGenerationFailed);
    assert_eq!(deadline_error().message, "artifact generation deadline elapsed");
    assert_eq!(cancelled_error().code, ErrorCode::Cancelled);
    assert_eq!(scheduler_error("permits closed").message, "permits closed");
    assert_eq!(explicit_reference_frame(FrameSelector::Frame(9)), Some(9));
    assert_eq!(explicit_reference_frame(FrameSelector::First), None);
    assert_eq!(explicit_reference_frame(FrameSelector::Last), None);
}

#[test]
fn cancelled_work_stops_at_its_next_check() {
    assert!(check_cancellation(false).is_ok());
    assert_eq!(check_cancellation(true).unwrap_err().code, ErrorCode::Cancelled);
}

#[test]
fn generation_paths_agree_with_std_path_extensions() {
    let paths = [
        "/tmp/krometrail.log", "trace", "a/b/", "a/b/.", "a//b.tar.gz", ".hidden", "..a", "a..", "/", "", ".", "./",
        "..", "x/..", "x/../", "/.", "./.", "dir/.config", "a.b/c",
    ];
    for path in paths {
        for generation in [1usize, 3, 12] {
            let mut expected = std::path::PathBuf::from(path);
            expected.set_extension(format!("log.{generation}"));
            assert_eq!(generation_path(path, generation), expected.to_str().unwrap(), "path {path:?}");
        }
        assert_eq!(names_a_file(path), std::path::Path::new(path).file_name().is_some(), "path {path:?}");
    }
}

#[test]
fn rotates_under_a_fixed_aggregate_bound_in_memory() {
    // Generation g of the log at index g; None for a missing file.
    let mut files: [Option<u64>; 4] = [Some(0), None, None, None];
    let mut state = LogState { length: 0 };
    let chunk = MAX_FILE_BYTES as usize;
    for _ in 0..6 {
        let plan = state.plan_write(chunk);
        if plan.rotate {
            for (from, to) in rotation_moves() {
                if files[from].is_some() {
                    files[to] = files[from].take();
                }
            }
            files[0] = Some(0);
            state.rotated();
        }
        files[0] = Some(files[0].unwrap_or(0) + plan.take as u64);
        state.record_written(plan.take);
        assert_eq!(state.length, files[0].unwrap());
        let total: u64 = files.iter().map(|f| f.unwrap_or(0)).sum();
        assert!(total <= (RETAINED_GENERATIONS as u64 + 1) * MAX_FILE_BYTES);
    }
    assert!(files[RETAINED_GENERATIONS].is_some());
}

#[test]
fn adaptation_copies_positive_limits() {
    let limits = ArtifactWorkLimits::default(4);
    let adaptation = limits.adaptation();
    assert_eq!(adaptation.max_source_frames, 240);
    assert_eq!(adaptation.max_encoded_source_bytes, 512 * 1024 * 1024);
    assert_eq!(adaptation.max_dimension, 8192);
    assert_eq!(adaptation.max_pixels_per_frame, 16_777_216);
    assert_eq!(adaptation.max_decoded_bytes, 768 * 1024 * 1024);
    assert_eq!(adaptation.max_markers, 256);
}
