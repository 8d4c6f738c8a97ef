//! Exact artifact cache identity.
//!
//! A cache key is the SHA-256 of a length-framed transcript binding the schema
//! version, session and target, artifact kind, generator name and version,
//! adapter and decoder versions, canonical parameters and every retained source
//! fingerprint in order.
use vstd::prelude::*;
use vstd::utf8::encode_utf8;

use crate::epoch::{FrameMeta, ImageFormat};
use crate::focus::ArtifactKind;
use crate::framing::{
    be_u128, be_u32, be_u64, field_views, framed_hash, put_bytes, sha256_spec, transcript,
};

verus! {

/// Version of the cache-key transcript layout.
pub const CACHE_SCHEMA_VERSION: u32 = 1;

/// Exact retained source identity and metadata used by both cache identity and
/// store revalidation.
#[derive(Clone, Copy, Debug, PartialEq, Eq)]
pub struct SourceFingerprint {
    pub frame_id: u128,
    pub capture_ordinal: u64,
    pub session_time_nanos: u64,
    pub format: ImageFormat,
    pub image_width: u32,
    pub image_height: u32,
    pub viewport_width: u32,
    pub viewport_height: u32,
    pub device_scale_bits: u64,
    pub encoded_sha256: [u8; 32],
}

/// The fingerprint a store keeps to revalidate one source.
#[derive(Clone, Copy, Debug, PartialEq, Eq)]
pub struct StoreFingerprint {
    pub frame_id: u128,
    pub encoded_sha256: [u8; 32],
}

impl SourceFingerprint {
    /// The fingerprint of a retained frame: its metadata and the SHA-256 of its
    /// encoded bytes.
    pub fn from_frame(meta: &FrameMeta, bytes: &[u8]) -> (r: SourceFingerprint)
        ensures
            r.frame_id == meta.frame_id,
            r.capture_ordinal == meta.capture_ordinal,
            r.session_time_nanos == meta.session_time,
            r.format == meta.format,
            r.image_width == meta.image_width,
            r.image_height == meta.image_height,
            r.viewport_width == meta.viewport_width,
            r.viewport_height == meta.viewport_height,
            r.device_scale_bits == meta.device_scale_bits,
            r.encoded_sha256@ == sha256_spec(bytes@),
    {
        SourceFingerprint {
            frame_id: meta.frame_id,
            capture_ordinal: meta.capture_ordinal,
            session_time_nanos: meta.session_time,
            format: meta.format,
            image_width: meta.image_width,
            image_height: meta.image_height,
            viewport_width: meta.viewport_width,
            viewport_height: meta.viewport_height,
            device_scale_bits: meta.device_scale_bits,
            encoded_sha256: crate::framing::sha256(bytes),
        }
    }

    /// The store's fingerprint of this source: its identity and encoded digest.
    pub fn store_fingerprint(&self) -> (r: StoreFingerprint)
        ensures
            r.frame_id == self.frame_id,
            r.encoded_sha256 == self.encoded_sha256,
    {
        StoreFingerprint { frame_id: self.frame_id, encoded_sha256: self.encoded_sha256 }
    }
}

/// A generator's registry name and version.
#[derive(Debug)]
pub struct GeneratorDescriptor {
    pub name: String,
    pub version: String,
}

/// The stored identity of a generated artifact.
#[derive(Debug)]
pub struct ArtifactCacheMetadata {
    pub cache_key: [u8; 32],
    pub source_fingerprint: [u8; 32],
    pub parameter_hash: [u8; 32],
    pub visual_epoch_hash: [u8; 32],
    pub cache_schema_version: u32,
    pub adapter_version: String,
    pub generator_name: String,
    pub generator_version: String,
}

pub open spec fn format_text(f: ImageFormat) -> Seq<char> {
    match f {
        ImageFormat::Jpeg => "jpeg"@,
        ImageFormat::Png => "png"@,
    }
}

/// Stable name of an artifact kind.
pub open spec fn kind_text(k: ArtifactKind) -> Seq<char> {
    match k {
        ArtifactKind::Storyboard => "storyboard"@,
        ArtifactKind::BeforeDuringAfter => "before_during_after"@,
        ArtifactKind::DifferenceMap => "difference_map"@,
        ArtifactKind::RegionFilmstrip => "region_filmstrip"@,
        ArtifactKind::MotionHistory => "motion_history"@,
    }
}

pub fn kind_name(k: ArtifactKind) -> (r: &'static str)
    ensures
        r@ == kind_text(k),
{
    match k {
        ArtifactKind::Storyboard => "storyboard",
        ArtifactKind::BeforeDuringAfter => "before_during_after",
        ArtifactKind::DifferenceMap => "difference_map",
        ArtifactKind::RegionFilmstrip => "region_filmstrip",
        ArtifactKind::MotionHistory => "motion_history",
    }
}

/// The ten fields one source contributes to a transcript.
pub open spec fn source_fields(s: SourceFingerprint) -> Seq<Seq<u8>> {
    seq![
        be_u128(s.frame_id), be_u64(s.capture_ordinal), be_u64(s.session_time_nanos),
        encode_utf8(format_text(s.format)), be_u32(s.image_width), be_u32(s.image_height),
        be_u32(s.viewport_width), be_u32(s.viewport_height), be_u64(s.device_scale_bits),
        s.encoded_sha256@,
    ]
}

/// The six geometry fields one source contributes to its visual-epoch hash.
pub open spec fn epoch_fields(s: SourceFingerprint) -> Seq<Seq<u8>> {
    seq![
        be_u128(s.frame_id), be_u32(s.image_width), be_u32(s.image_height),
        be_u32(s.viewport_width), be_u32(s.viewport_height), be_u64(s.device_scale_bits),
    ]
}

pub open spec fn all_source_fields(ss: Seq<SourceFingerprint>) -> Seq<Seq<u8>>
    decreases ss.len(),
{
    if ss.len() == 0 { Seq::empty() } else { all_source_fields(ss.drop_last()) + source_fields(ss.last()) }
}

pub open spec fn all_epoch_fields(ss: Seq<SourceFingerprint>) -> Seq<Seq<u8>>
    decreases ss.len(),
{
    if ss.len() == 0 { Seq::empty() } else { all_epoch_fields(ss.drop_last()) + epoch_fields(ss.last()) }
}

pub open spec fn domain_bytes(d: &str) -> Seq<u8> {
    encode_utf8(d@)
}

/// The digest of every source's fields, under a domain.
pub open spec fn sources_hash(domain: Seq<u8>, ss: Seq<SourceFingerprint>) -> Seq<u8> {
    sha256_spec(transcript(domain, seq![be_u64(ss.len() as u64)] + all_source_fields(ss)))
}

/// The digest of every source's geometry.
pub open spec fn epoch_hash(ss: Seq<SourceFingerprint>) -> Seq<u8> {
    sha256_spec(transcript(domain_bytes("krometrail-visual-epoch-v1"), seq![be_u64(ss.len() as u64)] + all_epoch_fields(ss)))
}

/// The transcript fields of an image artifact's cache key.
pub open spec fn cache_key_fields(
    session_id: u128,
    target_id: u128,
    ss: Seq<SourceFingerprint>,
    kind: ArtifactKind,
    parameters: Seq<u8>,
    name: Seq<char>,
    version: Seq<char>,
    adapter: Seq<char>,
    decoder: Seq<char>,
) -> Seq<Seq<u8>> {
    seq![
        be_u32(CACHE_SCHEMA_VERSION), be_u128(session_id), be_u128(target_id),
        encode_utf8(kind_text(kind)), encode_utf8(name), encode_utf8(version),
        encode_utf8(adapter), encode_utf8(decoder), parameters, be_u64(ss.len() as u64),
    ] + all_source_fields(ss)
}

fn bytes_of(s: &str) -> (r: Vec<u8>)
    ensures
        r@ == encode_utf8(s@),
{
    let mut v: Vec<u8> = Vec::new();
    put_bytes(&mut v, s.as_bytes());
    assert(v@ =~= encode_utf8(s@));
    v
}

fn copy_bytes(b: &[u8]) -> (r: Vec<u8>)
    ensures
        r@ == b@,
{
    let mut v: Vec<u8> = Vec::new();
    put_bytes(&mut v, b);
    assert(v@ =~= b@);
    v
}

fn push_field(fields: &mut Vec<Vec<u8>>, f: Vec<u8>)
    ensures
        field_views(final(fields)@) == field_views(old(fields)@).push(f@),
{
    fields.push(f);
    assert(field_views(fields@) =~= field_views(old(fields)@).push(f@));
}

fn u32_field(v: u32) -> (r: Vec<u8>)
    ensures
        r@ == be_u32(v),
{
    let b = crate::framing::be_u32_bytes(v);
    copy_bytes(&b)
}

fn u64_field(v: u64) -> (r: Vec<u8>)
    ensures
        r@ == be_u64(v),
{
    let b = crate::framing::be_u64_bytes(v);
    copy_bytes(&b)
}

fn u128_field(v: u128) -> (r: Vec<u8>)
    ensures
        r@ == be_u128(v),
{
    let hi = crate::framing::be_u64_bytes((v >> 64u128) as u64);
    let lo = crate::framing::be_u64_bytes((v & 0xffff_ffff_ffff_ffffu128) as u64);
    let mut b: Vec<u8> = Vec::new();
    put_bytes(&mut b, &hi);
    put_bytes(&mut b, &lo);
    assert(b@ =~= be_u128(v));
    b
}

fn format_name(f: ImageFormat) -> (r: &'static str)
    ensures
        r@ == format_text(f),
{
    match f {
        ImageFormat::Jpeg => "jpeg",
        ImageFormat::Png => "png",
    }
}

fn push_source_fields(fields: &mut Vec<Vec<u8>>, s: &SourceFingerprint)
    ensures
        field_views(final(fields)@) == field_views(old(fields)@) + source_fields(*s),
{
    let ghost start = field_views(fields@);
    push_field(fields, u128_field(s.frame_id));
    push_field(fields, u64_field(s.capture_ordinal));
    push_field(fields, u64_field(s.session_time_nanos));
    push_field(fields, bytes_of(format_name(s.format)));
    push_field(fields, u32_field(s.image_width));
    push_field(fields, u32_field(s.image_height));
    push_field(fields, u32_field(s.viewport_width));
    push_field(fields, u32_field(s.viewport_height));
    push_field(fields, u64_field(s.device_scale_bits));
    push_field(fields, copy_bytes(&s.encoded_sha256));
    assert(field_views(fields@) =~= start + source_fields(*s));
}

fn push_epoch_fields(fields: &mut Vec<Vec<u8>>, s: &SourceFingerprint)
    ensures
        field_views(final(fields)@) == field_views(old(fields)@) + epoch_fields(*s),
{
    let ghost start = field_views(fields@);
    push_field(fields, u128_field(s.frame_id));
    push_field(fields, u32_field(s.image_width));
    push_field(fields, u32_field(s.image_height));
    push_field(fields, u32_field(s.viewport_width));
    push_field(fields, u32_field(s.viewport_height));
    push_field(fields, u64_field(s.device_scale_bits));
    assert(field_views(fields@) =~= start + epoch_fields(*s));
}

fn push_all_sources(fields: &mut Vec<Vec<u8>>, sources: &Vec<SourceFingerprint>)
    ensures
        field_views(final(fields)@) == field_views(old(fields)@) + all_source_fields(sources@),
{
    let ghost start = field_views(fields@);
    let mut i: usize = 0;
    assert(sources@.take(0) =~= Seq::<SourceFingerprint>::empty());
    assert(field_views(fields@) =~= start + all_source_fields(sources@.take(0)));
    while i < sources.len()
        invariant
            i <= sources.len(),
            field_views(fields@) == start + all_source_fields(sources@.take(i as int)),
        decreases sources.len() - i,
    {
        push_source_fields(fields, &sources[i]);
        assert(sources@.take(i + 1).drop_last() =~= sources@.take(i as int));
        assert(field_views(fields@) =~= start + all_source_fields(sources@.take(i + 1)));
        i = i + 1;
    }
    assert(sources@.take(i as int) =~= sources@);
}

/// The digest of every source's fields under `domain`.
pub fn hash_sources(sources: &Vec<SourceFingerprint>, domain: &str) -> (r: [u8; 32])
    ensures
        r@ == sources_hash(domain_bytes(domain), sources@),
{
    let mut fields: Vec<Vec<u8>> = Vec::new();
    push_field(&mut fields, u64_field(sources.len() as u64));
    push_all_sources(&mut fields, sources);
    assert(field_views(fields@) =~= seq![be_u64(sources@.len() as u64)] + all_source_fields(sources@));
    framed_hash(domain, &fields)
}

/// The digest of every source's capture geometry.
pub fn hash_epoch(sources: &Vec<SourceFingerprint>) -> (r: [u8; 32])
    ensures
        r@ == epoch_hash(sources@),
{
    let mut fields: Vec<Vec<u8>> = Vec::new();
    push_field(&mut fields, u64_field(sources.len() as u64));
    let ghost start = field_views(fields@);
    let mut i: usize = 0;
    assert(sources@.take(0) =~= Seq::<SourceFingerprint>::empty());
    assert(field_views(fields@) =~= start + all_epoch_fields(sources@.take(0)));
    while i < sources.len()
        invariant
            i <= sources.len(),
            field_views(fields@) == start + all_epoch_fields(sources@.take(i as int)),
        decreases sources.len() - i,
    {
        push_epoch_fields(&mut fields, &sources[i]);
        assert(sources@.take(i + 1).drop_last() =~= sources@.take(i as int));
        assert(field_views(fields@) =~= start + all_epoch_fields(sources@.take(i + 1)));
        i = i + 1;
    }
    assert(sources@.take(i as int) =~= sources@);
    assert(field_views(fields@) =~= seq![be_u64(sources@.len() as u64)] + all_epoch_fields(sources@));
    framed_hash("krometrail-visual-epoch-v1", &fields)
}

/// Computes the cache identity of an image artifact.
///
/// The key binds the schema version, session and target identities, artifact
/// kind, generator name and version, adapter and decoder versions, canonical
/// parameters and every source fingerprint in order. The stored adapter version
/// is `adapter;decoder`.
pub fn cache_metadata(
    session_id: u128,
    target_id: u128,
    sources: &Vec<SourceFingerprint>,
    kind: ArtifactKind,
    parameters: &Vec<u8>,
    descriptor: &GeneratorDescriptor,
    adapter_version: &str,
    decoder_profile: &str,
) -> (m: ArtifactCacheMetadata)
    ensures
        m.cache_key@ == sha256_spec(transcript(
            domain_bytes("krometrail-artifact-cache-key"),
            cache_key_fields(session_id, target_id, sources@, kind, parameters@, descriptor.name@, descriptor.version@, adapter_version@, decoder_profile@),
        )),
        m.source_fingerprint@ == sources_hash(domain_bytes("krometrail-artifact-sources-v1"), sources@),
        m.parameter_hash@ == sha256_spec(transcript(domain_bytes("krometrail-artifact-parameters-v1"), seq![parameters@])),
        m.visual_epoch_hash@ == epoch_hash(sources@),
        m.cache_schema_version == CACHE_SCHEMA_VERSION,
        m.adapter_version@ == adapter_version@ + ";"@ + decoder_profile@,
        m.generator_name@ == descriptor.name@,
        m.generator_version@ == descriptor.version@,
{
    let source_fingerprint = hash_sources(sources, "krometrail-artifact-sources-v1");
    let visual_epoch_hash = hash_epoch(sources);
    let mut pfields: Vec<Vec<u8>> = Vec::new();
    push_field(&mut pfields, copy_bytes(parameters.as_slice()));
    assert(field_views(pfields@) =~= seq![parameters@]);
    let parameter_hash = framed_hash("krometrail-artifact-parameters-v1", &pfields);
    let mut fields: Vec<Vec<u8>> = Vec::new();
    push_field(&mut fields, u32_field(CACHE_SCHEMA_VERSION));
    push_field(&mut fields, u128_field(session_id));
    push_field(&mut fields, u128_field(target_id));
    push_field(&mut fields, bytes_of(kind_name(kind)));
    push_field(&mut fields, bytes_of(descriptor.name.as_str()));
    push_field(&mut fields, bytes_of(descriptor.version.as_str()));
    push_field(&mut fields, bytes_of(adapter_version));
    push_field(&mut fields, bytes_of(decoder_profile));
    push_field(&mut fields, copy_bytes(parameters.as_slice()));
    push_field(&mut fields, u64_field(sources.len() as u64));
    push_all_sources(&mut fields, sources);
    assert(field_views(fields@) =~= cache_key_fields(session_id, target_id, sources@, kind, parameters@, descriptor.name@, descriptor.version@, adapter_version@, decoder_profile@));
    let cache_key = framed_hash("krometrail-artifact-cache-key", &fields);
    let mut adapter = String::from_str(adapter_version);
    adapter.append(";");
    adapter.append(decoder_profile);
    ArtifactCacheMetadata {
        cache_key,
        source_fingerprint,
        parameter_hash,
        visual_epoch_hash,
        cache_schema_version: CACHE_SCHEMA_VERSION,
        adapter_version: adapter,
        generator_name: descriptor.name.clone(),
        generator_version: descriptor.version.clone(),
    }
}

/// The version of the retained-video adapter.
pub const RETAINED_VIDEO_ADAPTER_VERSION: &'static str = "krometrail-retained-video-v1";

/// The frame selector a video was cut with: its name, version and the digest of
/// its parameters.
#[derive(Debug)]
pub struct VideoSelector {
    pub name: String,
    pub version: String,
    pub parameters_sha256: [u8; 32],
}

/// The selector fields of a video cache key: the selector's name, version and
/// parameter digest, or the marker `no-selection`.
pub open spec fn selector_fields(selector: Option<(Seq<char>, Seq<char>, Seq<u8>)>) -> Seq<Seq<u8>> {
    match selector {
        Some((name, version, digest)) => seq![encode_utf8(name), encode_utf8(version), digest],
        None => seq![encode_utf8("no-selection"@)],
    }
}

pub open spec fn selector_view(selector: Option<&VideoSelector>) -> Option<(Seq<char>, Seq<char>, Seq<u8>)> {
    match selector {
        Some(s) => Some((s.name@, s.version@, s.parameters_sha256@)),
        None => None,
    }
}

/// The transcript fields of a video's cache key.
pub open spec fn video_key_fields(
    session_id: u128,
    target_id: u128,
    ss: Seq<SourceFingerprint>,
    parameters: Seq<u8>,
    name: Seq<char>,
    version: Seq<char>,
    adapter: Seq<char>,
    selector: Option<(Seq<char>, Seq<char>, Seq<u8>)>,
) -> Seq<Seq<u8>> {
    seq![
        be_u32(CACHE_SCHEMA_VERSION), be_u128(session_id), be_u128(target_id),
        encode_utf8(name), encode_utf8(version), encode_utf8(adapter), parameters,
    ] + selector_fields(selector) + seq![be_u64(ss.len() as u64)] + all_source_fields(ss)
}

/// Computes the cache identity of a retained-source video.
///
/// The key binds the schema version, session and target, the video generator's
/// name and version, the adapter version, the canonical parameters, the frame
/// selector (or its absence) and every source fingerprint in order.
pub fn video_cache_metadata(
    session_id: u128,
    target_id: u128,
    sources: &Vec<SourceFingerprint>,
    parameters: &Vec<u8>,
    descriptor: &GeneratorDescriptor,
    selector: Option<&VideoSelector>,
    adapter_version: &str,
) -> (m: ArtifactCacheMetadata)
    ensures
        m.cache_key@ == sha256_spec(transcript(
            domain_bytes("krometrail-video-cache-key"),
            video_key_fields(session_id, target_id, sources@, parameters@, descriptor.name@, descriptor.version@, adapter_version@, selector_view(selector)),
        )),
        m.source_fingerprint@ == sources_hash(domain_bytes("krometrail-video-sources-v1"), sources@),
        m.parameter_hash@ == sha256_spec(transcript(domain_bytes("krometrail-video-parameters-v1"), seq![parameters@])),
        m.visual_epoch_hash@ == epoch_hash(sources@),
        m.cache_schema_version == CACHE_SCHEMA_VERSION,
        m.adapter_version@ == adapter_version@,
        m.generator_name@ == descriptor.name@,
        m.generator_version@ == descriptor.version@,
{
    let source_fingerprint = hash_sources(sources, "krometrail-video-sources-v1");
    let visual_epoch_hash = hash_epoch(sources);
    let mut pfields: Vec<Vec<u8>> = Vec::new();
    push_field(&mut pfields, copy_bytes(parameters.as_slice()));
    assert(field_views(pfields@) =~= seq![parameters@]);
    let parameter_hash = framed_hash("krometrail-video-parameters-v1", &pfields);
    let mut fields: Vec<Vec<u8>> = Vec::new();
    push_field(&mut fields, u32_field(CACHE_SCHEMA_VERSION));
    push_field(&mut fields, u128_field(session_id));
    push_field(&mut fields, u128_field(target_id));
    push_field(&mut fields, bytes_of(descriptor.name.as_str()));
    push_field(&mut fields, bytes_of(descriptor.version.as_str()));
    push_field(&mut fields, bytes_of(adapter_version));
    push_field(&mut fields, copy_bytes(parameters.as_slice()));
    let ghost head = field_views(fields@);
    match selector {
        Some(s) => {
            push_field(&mut fields, bytes_of(s.name.as_str()));
            push_field(&mut fields, bytes_of(s.version.as_str()));
            push_field(&mut fields, copy_bytes(&s.parameters_sha256));
        },
        None => {
            push_field(&mut fields, bytes_of("no-selection"));
        },
    }
    assert(field_views(fields@) =~= head + selector_fields(selector_view(selector)));
    push_field(&mut fields, u64_field(sources.len() as u64));
    push_all_sources(&mut fields, sources);
    assert(field_views(fields@) =~= video_key_fields(session_id, target_id, sources@, parameters@, descriptor.name@, descriptor.version@, adapter_version@, selector_view(selector)));
    let cache_key = framed_hash("krometrail-video-cache-key", &fields);
    ArtifactCacheMetadata {
        cache_key,
        source_fingerprint,
        parameter_hash,
        visual_epoch_hash,
        cache_schema_version: CACHE_SCHEMA_VERSION,
        adapter_version: String::from_str(adapter_version),
        generator_name: descriptor.name.clone(),
        generator_version: descriptor.version.clone(),
    }
}


// ----- the cache key binds its inputs -----

proof fn lemma_utf8_injective(a: Seq<char>, b: Seq<char>)
    requires
        encode_utf8(a) == encode_utf8(b),
    ensures
        a == b,
{
    vstd::utf8::encode_utf8_decode_utf8(a);
    vstd::utf8::encode_utf8_decode_utf8(b);
}

proof fn lemma_kind_text_injective(a: ArtifactKind, b: ArtifactKind)
    requires
        kind_text(a) == kind_text(b),
    ensures
        a == b,
{
    reveal_strlit("storyboard");
    reveal_strlit("before_during_after");
    reveal_strlit("difference_map");
    reveal_strlit("region_filmstrip");
    reveal_strlit("motion_history");
    assert("storyboard"@.len() == 10);
    assert("before_during_after"@.len() == 19);
    assert("difference_map"@.len() == 14 && "difference_map"@[0] == 'd');
    assert("region_filmstrip"@.len() == 16);
    assert("motion_history"@.len() == 14 && "motion_history"@[0] == 'm');
    match a {
        ArtifactKind::DifferenceMap => {
            assert(kind_text(b)[0] == 'd');
        },
        ArtifactKind::MotionHistory => {
            assert(kind_text(b)[0] == 'm');
        },
        _ => {},
    }
}

proof fn lemma_format_text_injective(a: ImageFormat, b: ImageFormat)
    requires
        format_text(a) == format_text(b),
    ensures
        a == b,
{
    reveal_strlit("jpeg");
    reveal_strlit("png");
    assert("jpeg"@.len() == 4);
    assert("png"@.len() == 3);
    match a {
        ImageFormat::Jpeg => {
            assert(format_text(b).len() == 4);
        },
        ImageFormat::Png => {
            assert(format_text(b).len() == 3);
        },
    }
}

proof fn lemma_source_fields_injective(a: SourceFingerprint, b: SourceFingerprint)
    requires
        source_fields(a) == source_fields(b),
    ensures
        a == b,
{
    let fa = source_fields(a);
    let fb = source_fields(b);
    assert(fa[0] == fb[0] && fa[1] == fb[1] && fa[2] == fb[2] && fa[3] == fb[3] && fa[4] == fb[4]);
    assert(fa[5] == fb[5] && fa[6] == fb[6] && fa[7] == fb[7] && fa[8] == fb[8] && fa[9] == fb[9]);
    crate::framing::lemma_be_u128_injective(a.frame_id, b.frame_id);
    crate::framing::lemma_be_u64_injective(a.capture_ordinal, b.capture_ordinal);
    crate::framing::lemma_be_u64_injective(a.session_time_nanos, b.session_time_nanos);
    lemma_utf8_injective(format_text(a.format), format_text(b.format));
    lemma_format_text_injective(a.format, b.format);
    crate::framing::lemma_be_u32_injective(a.image_width, b.image_width);
    crate::framing::lemma_be_u32_injective(a.image_height, b.image_height);
    crate::framing::lemma_be_u32_injective(a.viewport_width, b.viewport_width);
    crate::framing::lemma_be_u32_injective(a.viewport_height, b.viewport_height);
    crate::framing::lemma_be_u64_injective(a.device_scale_bits, b.device_scale_bits);
    assert(a.encoded_sha256@ == b.encoded_sha256@);
    assert forall|i: int| 0 <= i < 32 implies a.encoded_sha256[i] == b.encoded_sha256[i] by {
        assert(a.encoded_sha256@[i] == b.encoded_sha256@[i]);
    }
    assert(a.encoded_sha256 =~= b.encoded_sha256);
}

proof fn lemma_all_source_fields_len(ss: Seq<SourceFingerprint>)
    ensures
        all_source_fields(ss).len() == 10 * ss.len(),
    decreases ss.len(),
{
    if ss.len() > 0 {
        lemma_all_source_fields_len(ss.drop_last());
    }
}

proof fn lemma_all_source_fields_injective(a: Seq<SourceFingerprint>, b: Seq<SourceFingerprint>)
    requires
        a.len() == b.len(),
        all_source_fields(a) == all_source_fields(b),
    ensures
        a == b,
    decreases a.len(),
{
    if a.len() > 0 {
        let fa = all_source_fields(a);
        lemma_all_source_fields_len(a.drop_last());
        lemma_all_source_fields_len(b.drop_last());
        let n = 10 * (a.len() - 1);
        assert(all_source_fields(a.drop_last()) =~= fa.subrange(0, n));
        assert(all_source_fields(b.drop_last()) =~= fa.subrange(0, n));
        assert(source_fields(a.last()) =~= fa.subrange(n, fa.len() as int));
        assert(source_fields(b.last()) =~= fa.subrange(n, fa.len() as int));
        lemma_all_source_fields_injective(a.drop_last(), b.drop_last());
        lemma_source_fields_injective(a.last(), b.last());
        assert(a =~= a.drop_last().push(a.last()));
        assert(b =~= b.drop_last().push(b.last()));
    } else {
        assert(a =~= b);
    }
}

/// The cache key binds every input: two cache-key transcripts under the same
/// domain are equal only when the session, target, every source field in order,
/// the kind, the parameters, the generator, adapter and decoder versions all
/// are; distinct inputs can share a key only through a SHA-256 collision.
pub proof fn lemma_cache_key_binds_inputs(
    domain: Seq<u8>,
    session1: u128, target1: u128, ss1: Seq<SourceFingerprint>, kind1: ArtifactKind, params1: Seq<u8>,
    name1: Seq<char>, version1: Seq<char>, adapter1: Seq<char>, decoder1: Seq<char>,
    session2: u128, target2: u128, ss2: Seq<SourceFingerprint>, kind2: ArtifactKind, params2: Seq<u8>,
    name2: Seq<char>, version2: Seq<char>, adapter2: Seq<char>, decoder2: Seq<char>,
)
    requires
        domain.len() <= u64::MAX,
        ss1.len() <= u64::MAX,
        ss2.len() <= u64::MAX,
        crate::framing::lengths_fit(cache_key_fields(session1, target1, ss1, kind1, params1, name1, version1, adapter1, decoder1)),
        crate::framing::lengths_fit(cache_key_fields(session2, target2, ss2, kind2, params2, name2, version2, adapter2, decoder2)),
        transcript(domain, cache_key_fields(session1, target1, ss1, kind1, params1, name1, version1, adapter1, decoder1))
            == transcript(domain, cache_key_fields(session2, target2, ss2, kind2, params2, name2, version2, adapter2, decoder2)),
    ensures
        session1 == session2,
        target1 == target2,
        ss1 == ss2,
        kind1 == kind2,
        params1 == params2,
        name1 == name2,
        version1 == version2,
        adapter1 == adapter2,
        decoder1 == decoder2,
{
    let f1 = cache_key_fields(session1, target1, ss1, kind1, params1, name1, version1, adapter1, decoder1);
    let f2 = cache_key_fields(session2, target2, ss2, kind2, params2, name2, version2, adapter2, decoder2);
    crate::framing::lemma_transcript_injective(domain, f1, domain, f2);
    assert(f1 == f2);
    assert(f1[1] == f2[1] && f1[2] == f2[2] && f1[3] == f2[3] && f1[4] == f2[4] && f1[5] == f2[5]);
    assert(f1[6] == f2[6] && f1[7] == f2[7] && f1[8] == f2[8] && f1[9] == f2[9]);
    crate::framing::lemma_be_u128_injective(session1, session2);
    crate::framing::lemma_be_u128_injective(target1, target2);
    lemma_utf8_injective(kind_text(kind1), kind_text(kind2));
    lemma_kind_text_injective(kind1, kind2);
    lemma_utf8_injective(name1, name2);
    lemma_utf8_injective(version1, version2);
    lemma_utf8_injective(adapter1, adapter2);
    lemma_utf8_injective(decoder1, decoder2);
    crate::framing::lemma_be_u64_injective(ss1.len() as u64, ss2.len() as u64);
    assert(all_source_fields(ss1) =~= f1.subrange(10, f1.len() as int));
    assert(all_source_fields(ss2) =~= f2.subrange(10, f2.len() as int));
    lemma_all_source_fields_injective(ss1, ss2);
}


/// A video's cache key binds every input in the same way: equal video-key
/// transcripts under one domain have the same session, target, sources in
/// order, parameters, generator, adapter version and frame selector (or its
/// absence).
pub proof fn lemma_video_key_binds_inputs(
    domain: Seq<u8>,
    session1: u128, target1: u128, ss1: Seq<SourceFingerprint>, params1: Seq<u8>, name1: Seq<char>, version1: Seq<char>,
    adapter1: Seq<char>, selector1: Option<(Seq<char>, Seq<char>, Seq<u8>)>,
    session2: u128, target2: u128, ss2: Seq<SourceFingerprint>, params2: Seq<u8>, name2: Seq<char>, version2: Seq<char>,
    adapter2: Seq<char>, selector2: Option<(Seq<char>, Seq<char>, Seq<u8>)>,
)
    requires
        domain.len() <= u64::MAX,
        ss1.len() <= u64::MAX,
        ss2.len() <= u64::MAX,
        crate::framing::lengths_fit(video_key_fields(session1, target1, ss1, params1, name1, version1, adapter1, selector1)),
        crate::framing::lengths_fit(video_key_fields(session2, target2, ss2, params2, name2, version2, adapter2, selector2)),
        transcript(domain, video_key_fields(session1, target1, ss1, params1, name1, version1, adapter1, selector1))
            == transcript(domain, video_key_fields(session2, target2, ss2, params2, name2, version2, adapter2, selector2)),
    ensures
        session1 == session2,
        target1 == target2,
        ss1 == ss2,
        params1 == params2,
        name1 == name2,
        version1 == version2,
        adapter1 == adapter2,
        selector1 == selector2,
{
    let f1 = video_key_fields(session1, target1, ss1, params1, name1, version1, adapter1, selector1);
    let f2 = video_key_fields(session2, target2, ss2, params2, name2, version2, adapter2, selector2);
    crate::framing::lemma_transcript_injective(domain, f1, domain, f2);
    assert(f1 == f2);
    lemma_all_source_fields_len(ss1);
    lemma_all_source_fields_len(ss2);
    let k1: int = if selector1 is Some { 3 } else { 1 };
    let k2: int = if selector2 is Some { 3 } else { 1 };
    assert(f1.len() == 8 + k1 + 10 * ss1.len());
    assert(f2.len() == 8 + k2 + 10 * ss2.len());
    assert(k1 == k2) by (nonlinear_arith)
        requires
            8 + k1 + 10 * ss1.len() == 8 + k2 + 10 * ss2.len(),
            k1 == 1 || k1 == 3,
            k2 == 1 || k2 == 3,
    ;
    assert(f1[1] == f2[1] && f1[2] == f2[2] && f1[3] == f2[3] && f1[4] == f2[4] && f1[5] == f2[5] && f1[6] == f2[6]);
    crate::framing::lemma_be_u128_injective(session1, session2);
    crate::framing::lemma_be_u128_injective(target1, target2);
    lemma_utf8_injective(name1, name2);
    lemma_utf8_injective(version1, version2);
    lemma_utf8_injective(adapter1, adapter2);
    match selector1 {
        Some((n1, v1, d1)) => {
            let (n2, v2, d2) = selector2.unwrap();
            assert(f1[7] == f2[7] && f1[8] == f2[8] && f1[9] == f2[9]);
            lemma_utf8_injective(n1, n2);
            lemma_utf8_injective(v1, v2);
        },
        None => {},
    }
    assert(f1[7 + k1] == f2[7 + k1]);
    crate::framing::lemma_be_u64_injective(ss1.len() as u64, ss2.len() as u64);
    assert(all_source_fields(ss1) =~= f1.subrange(8 + k1, f1.len() as int));
    assert(all_source_fields(ss2) =~= f2.subrange(8 + k1, f2.len() as int));
    lemma_all_source_fields_injective(ss1, ss2);
}

} // verus!
