use image::ImageEncoder;
use krometrail::decode::{
    DECODER_PROFILE, DecodeLimits, PixelLayout, decode_frame, decode_plan, expand_straight_rgba, preflight,
};
use krometrail::epoch::{ResolvedFrames, validate_and_plan};
use krometrail::spans::SessionSpan;
use krometrail::epoch::{ADAPTER_VERSION, AdaptationLimits, FrameMeta, ImageFormat};
use krometrail::errors::ErrorCode;

const PNG_PIXELS: [u8; 16] = [10, 20, 30, 40, 200, 150, 100, 50, 30, 220, 80, 128, 240, 240, 240, 255];

fn metadata(format: ImageFormat, image: (u32, u32), encoded_len: usize) -> FrameMeta {
    FrameMeta {
        frame_id: 1,
        session_id: 100,
        target_id: 101,
        capture_ordinal: 1,
        session_time: 1,
        format,
        image_width: image.0,
        image_height: image.1,
        viewport_width: image.0,
        viewport_height: image.1,
        device_scale_bits: 1.0_f64.to_bits(),
        encoded_len,
    }
}

fn decode_limits() -> DecodeLimits {
    DecodeLimits::new(8192, 16_777_216, 64 * 1024 * 1024, 64 * 1024 * 1024)
}

fn rgba_png() -> Vec<u8> {
    let mut encoded = Vec::new();
    image::codecs::png::PngEncoder::new(&mut encoded)
        .write_image(&PNG_PIXELS, 2, 2, image::ExtendedColorType::Rgba8)
        .unwrap();
    encoded
}

fn rgb_jpeg() -> Vec<u8> {
    let mut encoded = Vec::new();
    image::codecs::jpeg::JpegEncoder::new_with_quality(&mut encoded, 100)
        .write_image(&[12, 21, 30, 202, 143, 99, 30, 216, 73, 237, 249, 247], 2, 2, image::ExtendedColorType::Rgb8)
        .unwrap();
    encoded
}

#[test]
fn real_jpeg_and_png_decode_to_declared_straight_rgba8() {
    assert!(DECODER_PROFILE.contains("image-0.25.9"));
    assert_eq!(ADAPTER_VERSION, "krometrail-artifact-adapter-v3");
    let jpeg_bytes = rgb_jpeg();
    let jpeg = decode_frame(&metadata(ImageFormat::Jpeg, (2, 2), jpeg_bytes.len()), &jpeg_bytes, decode_limits()).unwrap();
    assert_eq!((jpeg.width, jpeg.height), (2, 2));
    assert_eq!(jpeg.rgba.len(), 16);
    assert!(jpeg.rgba.chunks(4).all(|pixel| pixel[3] == 255));

    let png_bytes = rgba_png();
    let png = decode_frame(&metadata(ImageFormat::Png, (2, 2), png_bytes.len()), &png_bytes, decode_limits()).unwrap();
    assert_eq!(png.rgba, PNG_PIXELS.to_vec());
}

#[test]
fn forced_format_malformed_precision_dimensions_and_bombs_fail_boundedly() {
    let png = rgba_png();
    let wrong = decode_frame(&metadata(ImageFormat::Jpeg, (2, 2), png.len()), &png, decode_limits());
    assert!(wrong.is_err());
    let mut malformed = rgb_jpeg();
    malformed.truncate(malformed.len() / 2);
    assert!(decode_frame(&metadata(ImageFormat::Jpeg, (2, 2), malformed.len()), &malformed, decode_limits()).is_err());
    let mismatch = decode_frame(&metadata(ImageFormat::Png, (3, 3), png.len()), &png, decode_limits());
    assert!(mismatch.is_err());
    let bomb = decode_frame(&metadata(ImageFormat::Png, (100_000, 100_000), png.len()), &png, decode_limits());
    assert_eq!(bomb.unwrap_err().code, ErrorCode::ResourceLimitExceeded);
    let overflow = decode_frame(&metadata(ImageFormat::Png, (u32::MAX, u32::MAX), png.len()), &png, decode_limits());
    assert_eq!(overflow.unwrap_err().code, ErrorCode::ResourceLimitExceeded);

    let mut sixteen_bit = Vec::new();
    image::codecs::png::PngEncoder::new(&mut sixteen_bit)
        .write_image(&[0, 1, 0, 2], 2, 1, image::ExtendedColorType::L16)
        .unwrap();
    let high_precision = decode_frame(&metadata(ImageFormat::Png, (2, 1), sixteen_bit.len()), &sixteen_bit, decode_limits());
    assert_eq!(high_precision.unwrap_err().code, ErrorCode::ArtifactGenerationFailed);
}

#[test]
fn preflight_checks_each_declared_limit_at_its_boundary() {
    let limits = DecodeLimits::new(4, 12, 48, 48);
    assert_eq!(preflight(4, 3, limits).unwrap(), (12, 48));
    assert_eq!(preflight(5, 1, limits).unwrap_err().code, ErrorCode::ResourceLimitExceeded);
    assert_eq!(preflight(4, 4, limits).unwrap_err().code, ErrorCode::ResourceLimitExceeded);
    let tight = DecodeLimits::new(4, 12, 47, 48);
    assert_eq!(preflight(4, 3, tight).unwrap_err().code, ErrorCode::ResourceLimitExceeded);
    let no_alloc = DecodeLimits::new(4, 12, 48, 47);
    assert_eq!(preflight(4, 3, no_alloc).unwrap_err().code, ErrorCode::ResourceLimitExceeded);
}

#[test]
fn every_eight_bit_layout_expands_to_straight_rgba() {
    assert_eq!(expand_straight_rgba(PixelLayout::L8, vec![7, 9], 2, 8).unwrap(), vec![7, 7, 7, 255, 9, 9, 9, 255]);
    assert_eq!(expand_straight_rgba(PixelLayout::La8, vec![7, 1, 9, 2], 2, 8).unwrap(), vec![7, 7, 7, 1, 9, 9, 9, 2]);
    assert_eq!(expand_straight_rgba(PixelLayout::Rgb8, vec![1, 2, 3, 4, 5, 6], 2, 8).unwrap(), vec![1, 2, 3, 255, 4, 5, 6, 255]);
    assert_eq!(expand_straight_rgba(PixelLayout::Rgba8, vec![1, 2, 3, 4], 1, 4).unwrap(), vec![1, 2, 3, 4]);
    assert_eq!(
        expand_straight_rgba(PixelLayout::Rgb8, vec![1, 2, 3], 2, 8).unwrap_err().code,
        ErrorCode::ArtifactGenerationFailed
    );
}

#[test]
fn adaptation_limits_bound_the_decoder_allocation_by_the_decoded_byte_limit() {
    let limits = AdaptationLimits {
        max_source_frames: 120,
        max_encoded_source_bytes: 1_000,
        max_dimension: 64,
        max_pixels_per_frame: 4_096,
        max_decoded_bytes: 16_384,
        max_markers: 8,
    };
    assert_eq!(limits.decode_limits(), DecodeLimits::new(64, 4_096, 16_384, 16_384));
}

#[test]
fn a_plan_decodes_frame_by_frame_and_its_first_failure_carries_the_plan_scope() {
    let png = rgba_png();
    let mut frames = vec![metadata(ImageFormat::Png, (2, 2), png.len()), metadata(ImageFormat::Png, (2, 2), png.len())];
    frames[1].frame_id = 2;
    frames[1].capture_ordinal = 2;
    frames[1].session_time = 2;
    let range = ResolvedFrames {
        session_id: 100,
        target_id: 101,
        resolved: SessionSpan { start: 1, end: 2 },
        frame_ids: vec![1, 2],
        gaps: vec![],
    };
    let limits = AdaptationLimits {
        max_source_frames: 120,
        max_encoded_source_bytes: 1 << 20,
        max_dimension: 64,
        max_pixels_per_frame: 4_096,
        max_decoded_bytes: 1 << 20,
        max_markers: 8,
    };
    let plan = validate_and_plan(&range, &frames, &vec![], limits, false).unwrap().pop().unwrap();
    let decoded = decode_plan(&plan, &vec![png.clone(), png.clone()], limits).unwrap();
    assert_eq!(decoded.len(), 2);
    assert_eq!(decoded[1].frame_id, 2);
    assert_eq!(decoded[1].rgba, PNG_PIXELS.to_vec());
    let error = decode_plan(&plan, &vec![png.clone(), rgb_jpeg()], limits).unwrap_err();
    assert_eq!(error.code, ErrorCode::ArtifactGenerationFailed);
    assert_eq!(error.context.session_id, Some(100));
    assert_eq!(error.context.range, Some(SessionSpan { start: 1, end: 2 }));
}
