//! Streaming, memory-bounded rendering of the Mandelbrot set.
//!
//! The image is produced window by window: a bounded buffer is filled with
//! pixel bytes, handed out to be written, and filled again until the whole
//! byte stream of the image has been produced. Every byte of the stream is a
//! function of the renderer, the colorizer and the byte's offset alone, so a
//! window may be split among workers without changing what is produced.
//!
//! - `scalar`, `complex`: the numbers of the plane.
//! - `orbit`: the quadratic map and when a point escapes under it.
//! - `color`: colors, and the strategies that color an escape result.
//! - `mandelbrot_renderer`: the kernel that fills a slice with pixels.
//! - `span`: how the byte stream is cut into windows and chunks.
//! - `render_program`: the scheduler that walks the buffer over the image.
//! - `progress`, `render_info`: what a run reports while and after it runs.
//! - `buffer_policy`: how large the buffer may be on this machine.
//! - `image_header`, `grayscale_encoder`, `rgb_encoder`: what the sink is
//!   told of the image before its first byte.

pub mod buffer_policy;
pub mod color;
pub mod complex;
pub mod grayscale_encoder;
pub mod image_header;
pub mod mandelbrot_renderer;
pub mod orbit;
pub mod progress;
pub mod render_info;
pub mod render_program;
pub mod rgb_encoder;
pub mod scalar;
pub mod span;
