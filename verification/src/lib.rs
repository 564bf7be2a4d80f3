//! Image compression planning and pixel processing.
//!
//! The library decides how an image is compressed (format detection, output
//! selection, target dimensions) and performs the pixel-level work between a
//! platform decoder and an encoder (orientation, resizing, frame merging, GIF
//! frame planning).
pub mod android;
pub mod apple;
pub mod compress;
pub mod dimensions;
pub mod encode;
pub mod error;
pub mod format;
pub mod gif_imagequant_encode;
pub mod gif_reader;
pub mod gif_to_webp;
pub mod gif_writer;
pub mod grid;
pub mod native;
pub mod orientation;
pub mod quantize;
pub mod resize;
pub mod static_img;
pub mod text;
pub mod turbojpeg_encode;
pub mod webp_encode;
pub mod windows;

pub use error::Error;
pub use format::ImageFormat;
