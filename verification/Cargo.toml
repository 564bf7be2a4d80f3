[package]
name = "media_compress"
version = "0.1.0"
edition = "2021"
publish = false

[dependencies]
gif = "0.13"
imagequant = { version = "4", default-features = false }
image = { version = "0.25", default-features = false, features = ["gif", "jpeg", "png", "bmp", "webp", "tiff"] }
webp = "0.3"
turbojpeg = "1"
thiserror = "2"
jni = "0.21"
ndk-context = "0.1"
js-sys = "0.3"
wasm-bindgen = "0.2"
wasm-bindgen-futures = "0.4"
web-sys = { version = "0.3", features = ["Blob", "ImageBitmap", "ImageBitmapRenderingContext", "ImageEncodeOptions", "OffscreenCanvas", "Window"] }
