use media_compress::static_img::{decode_static, PixelLayout};
use media_compress::compress::{
    check_input, finish_compression, prefers_original, select_output, web_sync_unsupported,
};
use media_compress::{Error, ImageFormat};

fn padded(prefix: &[u8]) -> Vec<u8> {
    let mut v = prefix.to_vec();
    v.resize(16, 0);
    v
}

#[test]
fn detects_each_signature() {
    assert_eq!(ImageFormat::detect(&padded(b"\xff\xd8\xff\xe0")), Some(ImageFormat::Jpeg));
    assert_eq!(ImageFormat::detect(&padded(b"\x89PNG\r\n\x1a\n")), Some(ImageFormat::Png));
    assert_eq!(ImageFormat::detect(&padded(b"GIF87a")), Some(ImageFormat::Gif));
    assert_eq!(ImageFormat::detect(&padded(b"GIF89a")), Some(ImageFormat::Gif));
    assert_eq!(ImageFormat::detect(&padded(b"BM")), Some(ImageFormat::Bmp));
    assert_eq!(ImageFormat::detect(&padded(b"RIFF\x10\x00\x00\x00WEBP")), Some(ImageFormat::Webp));
    assert_eq!(ImageFormat::detect(&padded(b"II\x2a\x00")), Some(ImageFormat::Tiff));
    assert_eq!(ImageFormat::detect(&padded(b"MM\x00\x2a")), Some(ImageFormat::Tiff));
    assert_eq!(ImageFormat::detect(&padded(b"\x00\x00\x00\x18ftypheic")), Some(ImageFormat::Heic));
    assert_eq!(ImageFormat::detect(&padded(b"\x00\x00\x00\x18ftypmif1")), Some(ImageFormat::Heic));
}

#[test]
fn rejects_short_and_unknown_data() {
    assert_eq!(ImageFormat::detect(b"\xff\xd8\xff"), None);
    assert_eq!(ImageFormat::detect(&[0u8; 11]), None);
    assert_eq!(ImageFormat::detect(&padded(b"hello world")), None);
    // An ISO media file with a brand that is not HEIF.
    assert_eq!(ImageFormat::detect(&padded(b"\x00\x00\x00\x18ftypmp42")), None);
}

#[test]
fn only_webp_jpeg_png_keep_original() {
    assert!(ImageFormat::Webp.should_use_original_if_larger());
    assert!(ImageFormat::Jpeg.should_use_original_if_larger());
    assert!(ImageFormat::Png.should_use_original_if_larger());
    assert!(!ImageFormat::Gif.should_use_original_if_larger());
    assert!(!ImageFormat::Bmp.should_use_original_if_larger());
    assert!(!ImageFormat::Heic.should_use_original_if_larger());
    assert!(!ImageFormat::Tiff.should_use_original_if_larger());
}

#[test]
fn undetectable_input_is_unsupported() {
    match check_input(b"not an image at all") {
        Err(Error::UnsupportedFormat(m)) => assert_eq!(m, "Cannot detect image format from magic bytes"),
        other => panic!("unexpected {other:?}"),
    }
}

#[test]
fn gif_input_is_refused() {
    match check_input(&padded(b"GIF89a")) {
        Err(Error::UnsupportedFormat(m)) => assert!(m.contains("GIF compression is not supported")),
        other => panic!("unexpected {other:?}"),
    }
}

#[test]
fn other_formats_pass_the_check() {
    assert_eq!(check_input(&padded(b"BM")), Ok(ImageFormat::Bmp));
    assert_eq!(check_input(&padded(b"\xff\xd8\xff")), Ok(ImageFormat::Jpeg));
}

#[test]
fn larger_output_of_jpeg_falls_back_to_original() {
    let input = vec![1u8; 10];
    assert_eq!(select_output(ImageFormat::Jpeg, &input, vec![2u8; 11]), input);
    assert_eq!(select_output(ImageFormat::Jpeg, &input, vec![2u8; 10]), vec![2u8; 10]);
    assert_eq!(select_output(ImageFormat::Png, &input, vec![3u8; 4]), vec![3u8; 4]);
}

#[test]
fn larger_output_of_bmp_is_kept() {
    let input = vec![1u8; 10];
    assert_eq!(select_output(ImageFormat::Bmp, &input, vec![2u8; 50]), vec![2u8; 50]);
}

#[test]
fn prefers_original_needs_a_detected_format() {
    assert!(prefers_original(Some(ImageFormat::Webp), 10, 11));
    assert!(!prefers_original(Some(ImageFormat::Webp), 10, 10));
    assert!(!prefers_original(Some(ImageFormat::Tiff), 10, 11));
    assert!(!prefers_original(None, 10, 11));
}

#[test]
fn platform_error_is_passed_on() {
    let input = vec![1u8; 10];
    let err = Error::DecodeError("boom".to_string());
    assert_eq!(finish_compression(ImageFormat::Png, &input, Err(err)), Err(Error::DecodeError("boom".to_string())));
    assert_eq!(finish_compression(ImageFormat::Png, &input, Ok(vec![0u8; 20])), Ok(input.clone()));
}

#[test]
fn web_sync_path_is_unsupported() {
    assert_eq!(
        web_sync_unsupported(),
        Error::PlatformNotSupported("Use compress_image_js() (async) on the Web platform".to_string())
    );
}

#[test]
fn error_descriptions() {
    assert_eq!(Error::UnsupportedFormat("x".into()).describe(), "Unsupported image format: x");
    assert_eq!(Error::DecodeError("x".into()).describe(), "Decode error: x");
    assert_eq!(Error::EncodeError("x".into()).describe(), "Encode error: x");
    assert_eq!(Error::NativeError("x".into()).describe(), "Native API error: x");
    assert_eq!(Error::PlatformNotSupported("x".into()).describe(), "Platform not supported for format: x");
}

#[test]
fn still_images_are_decoded_by_layout() {
    // A 1x1 uncompressed 24-bit BMP.
    let mut bmp: Vec<u8> = Vec::new();
    bmp.extend_from_slice(b"BM");
    bmp.extend_from_slice(&58u32.to_le_bytes());
    bmp.extend_from_slice(&[0, 0, 0, 0]);
    bmp.extend_from_slice(&54u32.to_le_bytes());
    bmp.extend_from_slice(&40u32.to_le_bytes());
    bmp.extend_from_slice(&1i32.to_le_bytes());
    bmp.extend_from_slice(&1i32.to_le_bytes());
    bmp.extend_from_slice(&1u16.to_le_bytes());
    bmp.extend_from_slice(&24u16.to_le_bytes());
    bmp.extend_from_slice(&0u32.to_le_bytes());
    bmp.extend_from_slice(&4u32.to_le_bytes());
    bmp.extend_from_slice(&[0u8; 16]);
    bmp.extend_from_slice(&[10, 20, 30, 0]); // B, G, R, row padding
    let img = decode_static(&bmp).expect("decode");
    assert_eq!((img.width, img.height), (1, 1));
    assert_eq!(img.layout, PixelLayout::Rgb8);
    assert_eq!(img.pixels, vec![30, 20, 10]);
    match decode_static(b"not an image") {
        Err(Error::DecodeError(_)) => {}
        other => panic!("{other:?}"),
    }
}
