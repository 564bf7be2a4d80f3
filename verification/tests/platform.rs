use media_compress::android::jni_bitmap_factory::check_bitmap_info;
use media_compress::windows::{wic_route, WicRoute};
use media_compress::android::a_image_decoder::compact_rgba;
use media_compress::android::jni_bitmap_factory::unsupported_for_format;
use media_compress::android::{
    check_jpeg_input, decoder_failure, falls_back_to_bitmap_factory, normalize_orientation, pack_argb,
    ANDROID_IMAGE_DECODER_UNSUPPORTED_FORMAT,
};
use media_compress::apple::{apple_route, AppleRoute};
use media_compress::turbojpeg_encode::check_rgba_frame;
use media_compress::windows::{com_failure, wic_delay_ms, VT_UI2};
use media_compress::{Error, ImageFormat};

#[test]
fn compact_drops_row_padding() {
    // 1x2 image, 6-byte stride.
    let buf = [1u8, 2, 3, 4, 0, 0, 5, 6, 7, 8, 0, 0];
    assert_eq!(compact_rgba(&buf, 1, 2, 6), vec![1, 2, 3, 4, 5, 6, 7, 8]);
    // Tight rows are copied as they are, without trailing bytes.
    assert_eq!(compact_rgba(&[1u8, 2, 3, 4, 5, 6, 7, 8, 9], 1, 2, 4), vec![1, 2, 3, 4, 5, 6, 7, 8]);
}

#[test]
fn fallback_decoder_messages() {
    assert_eq!(
        unsupported_for_format(Some(ImageFormat::Heic), "no vm"),
        Err(Error::PlatformNotSupported("HEIC is not supported by Android JNI fallback decoder".into()))
    );
    assert_eq!(
        unsupported_for_format(Some(ImageFormat::Tiff), "no vm"),
        Err(Error::PlatformNotSupported("TIFF is not supported by Android JNI fallback decoder".into()))
    );
    assert_eq!(
        unsupported_for_format(Some(ImageFormat::Png), "no vm"),
        Err(Error::PlatformNotSupported("Android JNI fallback decoder unavailable: no vm".into()))
    );
}

#[test]
fn decoder_failure_codes() {
    assert_eq!(
        decoder_failure("AImageDecoder_decodeImage failed", ANDROID_IMAGE_DECODER_UNSUPPORTED_FORMAT),
        Error::PlatformNotSupported("format not supported by AImageDecoder on this device".into())
    );
    assert_eq!(
        decoder_failure("AImageDecoder_decodeImage failed", -2),
        Error::DecodeError("AImageDecoder_decodeImage failed: -2".into())
    );
}

#[test]
fn only_platform_refusal_falls_back() {
    assert!(falls_back_to_bitmap_factory(&Err(Error::PlatformNotSupported("x".into()))));
    assert!(!falls_back_to_bitmap_factory(&Err(Error::DecodeError("x".into()))));
    assert!(!falls_back_to_bitmap_factory(&Ok(vec![1, 2, 3])));
}

#[test]
fn exif_orientation_normalized() {
    assert_eq!(normalize_orientation(6), 6);
    assert_eq!(normalize_orientation(0), 1);
    assert_eq!(normalize_orientation(9), 1);
    assert_eq!(normalize_orientation(-3), 1);
}

#[test]
fn argb_packing() {
    assert_eq!(pack_argb(&[0x11, 0x22, 0x33, 0x44, 1]), vec![0x44112233]);
    assert_eq!(pack_argb(&[0, 0, 0, 0xff]), vec![0xff000000u32 as i32]);
}

#[test]
fn jpeg_input_checks() {
    assert_eq!(check_jpeg_input(16, 2, 2), Ok(()));
    assert_eq!(check_jpeg_input(16, 0, 2), Err(Error::EncodeError("invalid image dimensions".into())));
    assert_eq!(
        check_jpeg_input(15, 2, 2),
        Err(Error::EncodeError("invalid RGBA buffer length: got 15, expected 16".into()))
    );
    assert_eq!(check_rgba_frame(16, 2, 2), Ok(()));
    assert_eq!(check_rgba_frame(0, 2, 0), Err(Error::EncodeError("invalid image dimensions".into())));
    assert_eq!(
        check_rgba_frame(10, 1, 2),
        Err(Error::EncodeError("invalid RGBA length: got 10, expected 8".into()))
    );
}

#[test]
fn apple_routes() {
    assert_eq!(apple_route(Some(ImageFormat::Gif), 0), Err(Error::DecodeError("Image source has no frames".into())));
    assert_eq!(apple_route(Some(ImageFormat::Gif), 3), Ok(AppleRoute::TranscodeGif));
    assert_eq!(apple_route(Some(ImageFormat::Png), 1), Ok(AppleRoute::FirstFrameJpeg));
    assert_eq!(apple_route(None, 4), Ok(AppleRoute::FirstFrameJpeg));
}

#[test]
fn wic_delays() {
    assert_eq!(wic_delay_ms(None), 100);
    assert_eq!(wic_delay_ms(Some((VT_UI2, 7))), 70);
    assert_eq!(wic_delay_ms(Some((VT_UI2, 0))), 10);
    assert_eq!(wic_delay_ms(Some((2, 7))), 100);
    assert_eq!(wic_delay_ms(Some((VT_UI2, u16::MAX))), 655_350);
}

#[test]
fn com_failure_prints_hresult_in_hex() {
    assert_eq!(
        com_failure("IStream::Write", -2147467259),
        Error::DecodeError("IStream::Write failed: 0x80004005".into())
    );
    assert_eq!(com_failure("CoCreateInstance(WICImagingFactory)", 1), Error::DecodeError("CoCreateInstance(WICImagingFactory) failed: 0x00000001".into()));
}

#[test]
fn wic_routes_by_frame_count() {
    assert_eq!(wic_route(Some(1)), Ok(WicRoute::Still));
    assert_eq!(wic_route(Some(7)), Ok(WicRoute::Animated));
    let refused = Err(Error::DecodeError("IWICBitmapDecoder::GetFrameCount returned 0".into()));
    assert_eq!(wic_route(Some(0)), refused);
    assert_eq!(wic_route(None), refused);
}

#[test]
fn bitmap_info_checks() {
    assert_eq!(check_bitmap_info(0, 1), Ok(()));
    assert_eq!(check_bitmap_info(-1, 1), Err(Error::DecodeError("AndroidBitmap_getInfo failed: -1".into())));
    assert_eq!(check_bitmap_info(0, 4), Err(Error::DecodeError("unsupported Android bitmap format: 4".into())));
}
