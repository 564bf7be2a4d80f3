# media_compress

Cross-platform image compression. Platform codecs (ImageIO on Apple systems,
WIC on Windows, `AImageDecoder` and `BitmapFactory` on Android, the browser
canvas on the Web) decode the input; the output is re-encoded lossily.

## Layout

- `src/` — the verified library (Verus). It holds what is decided and computed
  between the platform calls, each function with a contract:
  - format detection by magic bytes, the input check and the choice between
    the compressed output and the original bytes (`format`, `compress`);
  - target dimensions for optional minimum sizes (`dimensions`);
  - EXIF orientation, bilinear resizing and BGRA/RGBA conversion of RGBA
    pixels (`orientation`, `resize`, `apple`);
  - merging animation frames to a minimum delay, and frame timestamps
    (`encode`, `webp_encode`);
  - GIF encoding with a shared palette and changed-region frames, or a
    palette per frame (`gif_imagequant_encode`, `android::gif_encode`), and
    GIF transcoding (`android::gif_codec`, `gif_to_webp`), on top of the
    `gif` and `imagequant` crates (`gif_reader`, `gif_writer`, `quantize`);
  - still images decoded with the `image` crate (`static_img`);
  - the decisions and messages of the platform paths (`android`, `apple`,
    `windows`, `native`, `turbojpeg_encode`).
- `app/` — the public entry points (`compress_image`, `CompressOptions`, the
  `Error` type with `Display`), the foreign-function code of each platform and
  the encoders driven by a float quality (libwebp, libjpeg-turbo).
- `tests/` — tests of the library.
