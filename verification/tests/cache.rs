use krometrail::cache::{
    cache_metadata, hash_epoch, hash_sources, video_cache_metadata, ArtifactCacheMetadata, GeneratorDescriptor,
    SourceFingerprint, VideoSelector, CACHE_SCHEMA_VERSION, RETAINED_VIDEO_ADAPTER_VERSION,
};
use krometrail::epoch::{FrameMeta, ImageFormat};
use krometrail::focus::ArtifactKind;
use krometrail::framing::framed_hash;
use sha2::{Digest, Sha256};

fn source(id: u128) -> SourceFingerprint {
    SourceFingerprint {
        frame_id: id,
        capture_ordinal: id as u64,
        session_time_nanos: id as u64 * 10,
        format: ImageFormat::Jpeg,
        image_width: 4,
        image_height: 3,
        viewport_width: 4,
        viewport_height: 3,
        device_scale_bits: 1.0_f64.to_bits(),
        encoded_sha256: [id as u8; 32],
    }
}

fn descriptor(name: &str, version: &str) -> GeneratorDescriptor {
    GeneratorDescriptor { name: name.to_string(), version: version.to_string() }
}

fn key_with(sources: &[SourceFingerprint], kind: ArtifactKind, parameters: &[u8], adapter: &str, d: &GeneratorDescriptor) -> [u8; 32] {
    cache_metadata(100, 101, &sources.to_vec(), kind, &parameters.to_vec(), d, adapter, "decoder-v1").cache_key
}

fn key(sources: &[SourceFingerprint], kind: ArtifactKind, parameters: &[u8], adapter: &str) -> [u8; 32] {
    key_with(sources, kind, parameters, adapter, &descriptor("temporal-storyboard", "1.1.0"))
}

fn video_descriptor() -> GeneratorDescriptor {
    descriptor("temporal-video", "1.0.0")
}

fn selector(digest: u8) -> VideoSelector {
    VideoSelector { name: "meaningful".to_string(), version: "v1".to_string(), parameters_sha256: [digest; 32] }
}

fn video_key(sources: &[SourceFingerprint], parameters: &[u8], selector: Option<&VideoSelector>) -> ArtifactCacheMetadata {
    video_cache_metadata(100, 101, &sources.to_vec(), &parameters.to_vec(), &video_descriptor(), selector, RETAINED_VIDEO_ADAPTER_VERSION)
}

#[test]
fn exact_encoded_frame_becomes_the_store_and_cache_fingerprint() {
    let meta = FrameMeta {
        frame_id: 1,
        session_id: 2,
        target_id: 3,
        capture_ordinal: 4,
        session_time: 5,
        format: ImageFormat::Png,
        image_width: 2,
        image_height: 1,
        viewport_width: 1,
        viewport_height: 1,
        device_scale_bits: 2.0_f64.to_bits(),
        encoded_len: 19,
    };
    let bytes = b"exact encoded bytes".to_vec();
    let fingerprint = SourceFingerprint::from_frame(&meta, &bytes);
    assert_eq!(fingerprint.frame_id, 1);
    assert_eq!(fingerprint.capture_ordinal, 4);
    assert_eq!(fingerprint.session_time_nanos, 5);
    assert_eq!(fingerprint.encoded_sha256, <[u8; 32]>::from(Sha256::digest(&bytes)));
    assert_eq!(fingerprint.store_fingerprint().encoded_sha256, fingerprint.encoded_sha256);
    assert_eq!(fingerprint.store_fingerprint().frame_id, 1);
}

#[test]
fn cache_key_is_sensitive_to_every_source_field_and_order() {
    let base = vec![source(1), source(2)];
    let expected = key(&base, ArtifactKind::Storyboard, b"params", "adapter-v1");
    assert_eq!(
        expected,
        [
            46, 45, 66, 88, 219, 5, 46, 228, 36, 188, 163, 34, 154, 106, 77, 94, 90, 95, 39, 234, 10, 237, 19, 171,
            176, 63, 18, 227, 70, 227, 132, 11,
        ],
        "the stable image cache transcript changed"
    );
    let mut variants = Vec::new();
    let mut changed = base.clone();
    changed[0].frame_id = 9;
    variants.push(changed);
    let mut changed = base.clone();
    changed[0].capture_ordinal += 1;
    variants.push(changed);
    let mut changed = base.clone();
    changed[0].session_time_nanos += 1;
    variants.push(changed);
    let mut changed = base.clone();
    changed[0].format = ImageFormat::Png;
    variants.push(changed);
    let mut changed = base.clone();
    changed[0].image_width += 1;
    variants.push(changed);
    let mut changed = base.clone();
    changed[0].image_height += 1;
    variants.push(changed);
    let mut changed = base.clone();
    changed[0].viewport_width += 1;
    variants.push(changed);
    let mut changed = base.clone();
    changed[0].viewport_height += 1;
    variants.push(changed);
    let mut changed = base.clone();
    changed[0].device_scale_bits = 2.0_f64.to_bits();
    variants.push(changed);
    let mut changed = base.clone();
    changed[0].encoded_sha256[0] ^= 1;
    variants.push(changed);
    let mut changed = base.clone();
    changed.reverse();
    variants.push(changed);
    for changed in variants {
        assert_ne!(key(&changed, ArtifactKind::Storyboard, b"params", "adapter-v1"), expected);
    }
}

#[test]
fn cache_key_binds_kind_parameters_markers_gaps_and_algorithm_versions() {
    let sources = vec![source(1)];
    let expected = key(&sources, ArtifactKind::Storyboard, b"normalization;marker=a;gap=g", "adapter-v1");
    assert_ne!(key(&sources, ArtifactKind::BeforeDuringAfter, b"normalization;marker=a;gap=g", "adapter-v1"), expected);
    assert_ne!(key(&sources, ArtifactKind::Storyboard, b"normalization;marker=b;gap=g", "adapter-v1"), expected);
    assert_ne!(key(&sources, ArtifactKind::Storyboard, b"normalization;marker=a;gap=h", "adapter-v1"), expected);
    assert_ne!(key(&sources, ArtifactKind::Storyboard, b"normalization;marker=a;gap=g", "adapter-v2"), expected);
    let changed = key_with(
        &sources,
        ArtifactKind::Storyboard,
        b"normalization;marker=a;gap=g",
        "adapter-v1",
        &descriptor("temporal-storyboard", "future"),
    );
    assert_ne!(changed, expected);
}

#[test]
fn materialized_defaults_have_one_canonical_identity() {
    let sources = vec![source(1)];
    let materialized = b"scale=identity;background=0,0,0;max_bytes=67108864";
    assert_eq!(
        key(&sources, ArtifactKind::Storyboard, materialized, "adapter-v1"),
        key(&sources, ArtifactKind::Storyboard, materialized, "adapter-v1"),
    );
}

#[test]
fn video_cache_identity_is_stable_sensitive_and_uses_the_video_generator() {
    let sources = vec![source(1), source(2)];
    let sel = selector(7);
    let expected = video_key(&sources, b"canonical-plan-a", Some(&sel));
    let again = video_key(&sources, b"canonical-plan-a", Some(&sel));
    assert_eq!(expected.cache_key, again.cache_key);
    assert_eq!(expected.source_fingerprint, again.source_fingerprint);
    assert_eq!(expected.generator_name, video_descriptor().name);
    assert_eq!(expected.generator_version, video_descriptor().version);
    let mut reordered = sources.clone();
    reordered.reverse();
    assert_ne!(expected.cache_key, video_key(&reordered, b"canonical-plan-a", Some(&sel)).cache_key);
    assert_ne!(expected.cache_key, video_key(&sources, b"canonical-plan-b", Some(&sel)).cache_key);
    assert_ne!(expected.cache_key, video_key(&sources, b"canonical-plan-a", Some(&selector(8))).cache_key);
    assert_ne!(expected.cache_key, video_key(&sources, b"canonical-plan-a", None).cache_key);
    let changed_adapter = video_cache_metadata(
        100,
        101,
        &sources,
        &b"canonical-plan-a".to_vec(),
        &video_descriptor(),
        Some(&sel),
        "krometrail-retained-video-v2",
    );
    assert_ne!(expected.cache_key, changed_adapter.cache_key);
    assert_eq!(expected.adapter_version, RETAINED_VIDEO_ADAPTER_VERSION);
}

#[test]
fn image_metadata_records_versions_and_separate_digests() {
    let sources = vec![source(1), source(2)];
    let m = cache_metadata(100, 101, &sources, ArtifactKind::Storyboard, &b"params".to_vec(), &descriptor("temporal-storyboard", "1.1.0"), "adapter-v1", "decoder-v1");
    assert_eq!(m.cache_schema_version, CACHE_SCHEMA_VERSION);
    assert_eq!(m.adapter_version, "adapter-v1;decoder-v1");
    assert_eq!(m.generator_name, "temporal-storyboard");
    assert_eq!(m.generator_version, "1.1.0");
    assert_eq!(m.source_fingerprint, hash_sources(&sources, "krometrail-artifact-sources-v1"));
    assert_eq!(m.visual_epoch_hash, hash_epoch(&sources));
    assert_eq!(m.parameter_hash, framed_hash("krometrail-artifact-parameters-v1", &vec![b"params".to_vec()]));
    assert_ne!(m.cache_key, m.source_fingerprint);
}

#[test]
fn visual_epoch_hash_ignores_capture_time_and_payload() {
    let base = vec![source(1)];
    let mut later = base.clone();
    later[0].session_time_nanos += 5;
    later[0].encoded_sha256 = [9; 32];
    assert_eq!(hash_epoch(&base), hash_epoch(&later));
    let mut resized = base.clone();
    resized[0].image_width += 1;
    assert_ne!(hash_epoch(&base), hash_epoch(&resized));
}
