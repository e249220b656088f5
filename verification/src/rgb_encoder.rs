//! The header of an RGB image.

use crate::image_header::{ColorType, ImageHeader, BIT_DEPTH};
use vstd::prelude::*;

verus! {

pub struct RGBEncoder;

impl RGBEncoder {
    /// The header for a canvas of `bounds.0` by `bounds.1` pixels of three
    /// bytes each: red, green, blue.
    pub fn new(bounds: (usize, usize)) -> (header: ImageHeader)
        requires
            bounds.0 <= u32::MAX,
            bounds.1 <= u32::MAX,
        ensures
            header == (ImageHeader {
                width: bounds.0 as u32,
                height: bounds.1 as u32,
                color: ColorType::Rgb,
                bit_depth: BIT_DEPTH,
            }),
            header.spec_image_len() == bounds.0 * bounds.1 * 3,
    {
        let header = ImageHeader::new(bounds, ColorType::Rgb);
        assert(header.spec_image_len() == bounds.0 * bounds.1 * 3) by (nonlinear_arith)
            requires
                header.spec_image_len() == header.width as nat * header.height as nat * 3,
                header.width == bounds.0,
                header.height == bounds.1,
        ;
        header
    }
}

} // verus!
