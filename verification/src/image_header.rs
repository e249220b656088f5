//! What the output sink is told of an image before its first pixel: the
//! size of the canvas and how a pixel is laid out.

use crate::color::Colorizer;
use vstd::prelude::*;

verus! {

/// How the samples of a pixel are laid out.
#[derive(Clone, Copy, Debug, PartialEq, Eq, Structural)]
pub enum ColorType {
    /// One grayscale sample.
    Grayscale,
    /// A red, a green and a blue sample.
    Rgb,
}

impl ColorType {
    pub open spec fn spec_samples(self) -> nat {
        match self {
            ColorType::Grayscale => 1,
            ColorType::Rgb => 3,
        }
    }

    /// Number of samples of a pixel.
    pub fn samples(&self) -> (samples: usize)
        ensures
            samples == self.spec_samples(),
    {
        match self {
            ColorType::Grayscale => 1,
            ColorType::Rgb => 3,
        }
    }
}

/// Bits of a sample. Every image of this library has samples of one byte.
pub const BIT_DEPTH: u8 = 8;

/// The header of an image.
#[derive(Clone, Copy, Debug, PartialEq, Eq, Structural)]
pub struct ImageHeader {
    pub width: u32,
    pub height: u32,
    pub color: ColorType,
    pub bit_depth: u8,
}

impl ImageHeader {
    /// Bytes of a pixel.
    pub open spec fn spec_bytes_per_pixel(self) -> nat {
        self.color.spec_samples() * (self.bit_depth as nat / 8)
    }

    /// Length of the byte stream of the image that the header announces.
    pub open spec fn spec_image_len(self) -> nat {
        self.width as nat * self.height as nat * self.spec_bytes_per_pixel()
    }

    /// The header of an image of `bounds.0` by `bounds.1` pixels of the
    /// layout `color`, one byte a sample.
    pub fn new(bounds: (usize, usize), color: ColorType) -> (header: Self)
        requires
            bounds.0 <= u32::MAX,
            bounds.1 <= u32::MAX,
        ensures
            header == (ImageHeader {
                width: bounds.0 as u32,
                height: bounds.1 as u32,
                color,
                bit_depth: BIT_DEPTH,
            }),
            header.spec_bytes_per_pixel() == color.spec_samples(),
    {
        assert(color.spec_samples() * 1 == color.spec_samples());
        ImageHeader { width: bounds.0 as u32, height: bounds.1 as u32, color, bit_depth: BIT_DEPTH }
    }
}

impl Colorizer {
    /// The layout of the pixels that the colorizer writes.
    pub open spec fn spec_color_type(self) -> ColorType {
        match self {
            Colorizer::Grayscale => ColorType::Grayscale,
            _ => ColorType::Rgb,
        }
    }

    pub fn color_type(&self) -> (color: ColorType)
        ensures
            color == self.spec_color_type(),
            color.spec_samples() == self.spec_bytes_per_pixel(),
    {
        match self {
            Colorizer::Grayscale => ColorType::Grayscale,
            _ => ColorType::Rgb,
        }
    }
}

} // verus!
