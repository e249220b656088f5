//! Pixel colors and the strategies that turn an escape result into one.

use vstd::prelude::*;

verus! {

/// A single-channel intensity.
#[derive(Default)]
pub struct Gray<T> {
    pub value: T,
}

/// A color of three channels.
#[derive(Default)]
pub struct RGB<T> {
    pub r: T,
    pub g: T,
    pub b: T,
}

impl<T> Gray<T> {
    pub fn new(value: T) -> (gray: Self)
        ensures
            gray.value == value,
    {
        Self { value }
    }
}

impl Gray<u8> {
    /// The intensity as the one byte that is written for a grayscale pixel.
    pub fn to_u8(&self) -> (byte: u8)
        ensures
            byte == self.value,
    {
        self.value
    }
}

impl<T: Copy> RGB<T> {
    pub fn new(r: T, g: T, b: T) -> (color: Self)
        ensures
            color.r == r,
            color.g == g,
            color.b == b,
    {
        Self { r, g, b }
    }

    /// The color whose three channels all hold `scalar`.
    pub fn from_scalar(scalar: T) -> (color: Self)
        ensures
            color.r == scalar,
            color.g == scalar,
            color.b == scalar,
    {
        Self { r: scalar, g: scalar, b: scalar }
    }
}

impl RGB<u8> {
    /// The three bytes of the color in the order in which they are written:
    /// red, green, blue.
    pub open spec fn spec_bytes(self) -> Seq<u8> {
        seq![self.r, self.g, self.b]
    }

    pub fn to_bytes(&self) -> (bytes: [u8; 3])
        ensures
            bytes@ == self.spec_bytes(),
    {
        [self.r, self.g, self.b]
    }
}

/// Number of entries of the palette.
pub const PALETTE_LEN: usize = 16;

/// The palette: sixteen colors that escaped points cycle through.
pub open spec fn spec_palette() -> Seq<RGB<u8>> {
    seq![
        RGB { r: 66u8, g: 30u8, b: 15u8 },
        RGB { r: 25u8, g: 7u8, b: 26u8 },
        RGB { r: 9u8, g: 1u8, b: 47u8 },
        RGB { r: 4u8, g: 4u8, b: 73u8 },
        RGB { r: 0u8, g: 7u8, b: 100u8 },
        RGB { r: 12u8, g: 44u8, b: 138u8 },
        RGB { r: 24u8, g: 82u8, b: 177u8 },
        RGB { r: 57u8, g: 125u8, b: 209u8 },
        RGB { r: 134u8, g: 181u8, b: 229u8 },
        RGB { r: 211u8, g: 236u8, b: 248u8 },
        RGB { r: 241u8, g: 233u8, b: 191u8 },
        RGB { r: 248u8, g: 201u8, b: 95u8 },
        RGB { r: 255u8, g: 170u8, b: 0u8 },
        RGB { r: 204u8, g: 128u8, b: 0u8 },
        RGB { r: 153u8, g: 87u8, b: 0u8 },
        RGB { r: 106u8, g: 52u8, b: 3u8 },
    ]
}

/// The palette entry at `index`.
pub fn palette_entry(index: usize) -> (color: RGB<u8>)
    requires
        index < PALETTE_LEN,
    ensures
        color == spec_palette()[index as int],
{
    match index {
        0 => RGB::new(66, 30, 15),
        1 => RGB::new(25, 7, 26),
        2 => RGB::new(9, 1, 47),
        3 => RGB::new(4, 4, 73),
        4 => RGB::new(0, 7, 100),
        5 => RGB::new(12, 44, 138),
        6 => RGB::new(24, 82, 177),
        7 => RGB::new(57, 125, 209),
        8 => RGB::new(134, 181, 229),
        9 => RGB::new(211, 236, 248),
        10 => RGB::new(241, 233, 191),
        11 => RGB::new(248, 201, 95),
        12 => RGB::new(255, 170, 0),
        13 => RGB::new(204, 128, 0),
        14 => RGB::new(153, 87, 0),
        _ => RGB::new(106, 52, 3),
    }
}

/// The palette color of an escape result: a point that escaped at iteration
/// `i` takes entry `i mod 16`, a bounded point is black.
pub open spec fn spec_palette_color(escape: Option<usize>) -> RGB<u8> {
    match escape {
        Some(i) => spec_palette()[i as int % 16],
        None => RGB { r: 0u8, g: 0u8, b: 0u8 },
    }
}

pub fn palette_color(escape: Option<usize>) -> (color: RGB<u8>)
    ensures
        color == spec_palette_color(escape),
{
    match escape {
        Some(i) => palette_entry(i % PALETTE_LEN),
        None => RGB::from_scalar(0),
    }
}

/// How far an escape at iteration `i` under the cap `cap` darkens a pixel:
/// `i / cap` of a scale that stops just short of 255, rounded down. Where
/// `255 * i / cap` is a whole number and `i` is not zero, the step below it is
/// taken.
pub open spec fn spec_darkening(i: nat, cap: nat) -> nat {
    if i == 0 {
        0
    } else {
        ((255 * i - 1) / (cap as int)) as nat
    }
}

/// The grayscale brightness of an escape result: full brightness less the
/// darkening for a point that escaped, so that points which escape fast are
/// bright; black for a bounded point.
pub open spec fn spec_gray_shade(escape: Option<usize>, cap: usize) -> Gray<u8> {
    match escape {
        Some(i) => Gray { value: (255 - spec_darkening(i as nat, cap as nat)) as u8 },
        None => Gray { value: 0u8 },
    }
}

/// An escape that happened before the cap darkens a pixel by less than the
/// whole scale, so an escaped point is never black.
pub proof fn lemma_darkening_below_scale(i: nat, cap: nat)
    requires
        i < cap,
    ensures
        spec_darkening(i, cap) <= 254,
{
    if i > 0 {
        let c = cap as int;
        assert((255 * i - 1) / c <= 254) by (nonlinear_arith)
            requires
                0 < i < c,
        ;
    }
}

/// The darkening never shrinks as the escape comes later.
pub proof fn lemma_darkening_monotonic(i: nat, j: nat, cap: nat)
    requires
        i <= j,
        0 < cap,
    ensures
        spec_darkening(i, cap) <= spec_darkening(j, cap),
{
    if i > 0 {
        let c = cap as int;
        assert((255 * i - 1) / c <= (255 * j - 1) / c) by (nonlinear_arith)
            requires
                0 < i <= j,
                0 < c,
        ;
    } else if j > 0 {
        let c = cap as int;
        assert(0 <= (255 * j - 1) / c) by (nonlinear_arith)
            requires
                0 < j,
                0 < c,
        ;
    }
}

pub fn gray_shade(escape: Option<usize>, cap: usize) -> (shade: Gray<u8>)
    requires
        escape matches Some(i) ==> i < cap,
    ensures
        shade == spec_gray_shade(escape, cap),
        escape is Some ==> shade.value >= 1,
{
    match escape {
        Some(i) => {
            if i == 0 {
                Gray::new(255)
            } else {
                proof {
                    lemma_darkening_below_scale(i as nat, cap as nat);
                }
                let scaled: u128 = 255 * (i as u128) - 1;
                let darkening: u128 = scaled / (cap as u128);
                Gray::new((255 - darkening) as u8)
            }
        },
        None => Gray::new(0),
    }
}

/// A coloring strategy: a pure function from an escape result to the bytes
/// of one pixel.
#[derive(Clone, Copy, Debug)]
pub enum Colorizer {
    /// Every pixel is black, three bytes each. A render program paints with
    /// this until a colorizer is chosen.
    Blank,
    /// One byte per pixel: the grayscale brightness.
    Grayscale,
    /// Three bytes per pixel: the palette color.
    Palette,
    /// Three bytes per pixel, from a table of the caller's: a point that
    /// escaped at iteration `i` takes entry `i mod 16`, a bounded point is
    /// black.
    Table([[u8; 3]; 16]),
}

impl Colorizer {
    pub open spec fn spec_bytes_per_pixel(self) -> nat {
        match self {
            Colorizer::Grayscale => 1,
            _ => 3,
        }
    }

    /// `bytes` is a whole number of pixels.
    pub open spec fn whole_pixels(self, bytes: int) -> bool {
        bytes % (self.spec_bytes_per_pixel() as int) == 0
    }

    /// The number of whole pixels in `bytes` bytes.
    pub open spec fn spec_pixels(self, bytes: int) -> nat {
        (bytes / (self.spec_bytes_per_pixel() as int)) as nat
    }

    /// The bytes of a pixel whose point has the escape result `escape` under
    /// the iteration cap `cap`.
    pub open spec fn spec_pixel_bytes(self, escape: Option<usize>, cap: usize) -> Seq<u8> {
        match self {
            Colorizer::Blank => seq![0u8, 0u8, 0u8],
            Colorizer::Grayscale => seq![spec_gray_shade(escape, cap).value],
            Colorizer::Palette => spec_palette_color(escape).spec_bytes(),
            Colorizer::Table(table) => match escape {
                Some(i) => table[i as int % 16]@,
                None => seq![0u8, 0u8, 0u8],
            },
        }
    }

    /// `bytes` is a pixel that the colorizer can have written under the cap
    /// `cap`: the bytes of an escape below the cap, or of a bounded point.
    pub open spec fn spec_paints(self, cap: usize, bytes: Seq<u8>) -> bool {
        exists|escape: Option<usize>|
            (escape matches Some(i) ==> i < cap) && bytes == #[trigger] self.spec_pixel_bytes(
                escape,
                cap,
            )
    }

    /// Every pixel of `bytes`, a run of whole pixels, is one that the
    /// colorizer can have written under the cap `cap`.
    pub open spec fn spec_all_painted(self, cap: usize, bytes: Seq<u8>) -> bool {
        forall|pixel: int|
            0 <= pixel < self.spec_pixels(bytes.len() as int) ==> self.spec_paints(
                cap,
                #[trigger] spec_pixel_of(bytes, self.spec_bytes_per_pixel(), pixel),
            )
    }

    pub fn bytes_per_pixel(&self) -> (bpp: usize)
        ensures
            bpp == self.spec_bytes_per_pixel(),
            bpp == 1 || bpp == 3,
    {
        match self {
            Colorizer::Grayscale => 1,
            _ => 3,
        }
    }

    /// The bytes of one pixel, in an array that holds as many as any
    /// strategy writes: the first `bytes_per_pixel` entries are the pixel.
    pub fn pixel_bytes(&self, escape: Option<usize>, cap: usize) -> (bytes: [u8; 3])
        requires
            escape matches Some(i) ==> i < cap,
        ensures
            bytes@.subrange(0, self.spec_bytes_per_pixel() as int) == self.spec_pixel_bytes(
                escape,
                cap,
            ),
    {
        let bytes: [u8; 3] = match self {
            Colorizer::Blank => [0, 0, 0],
            Colorizer::Grayscale => {
                let shade: u8 = gray_shade(escape, cap).to_u8();
                [shade, 0, 0]
            },
            Colorizer::Palette => palette_color(escape).to_bytes(),
            Colorizer::Table(table) => match escape {
                Some(i) => table[i % PALETTE_LEN],
                None => [0, 0, 0],
            },
        };
        assert(bytes@.subrange(0, self.spec_bytes_per_pixel() as int) =~= self.spec_pixel_bytes(
            escape,
            cap,
        ));
        bytes
    }
}

/// The bytes of pixel `pixel` in `bytes`, a run of pixels of `bpp` bytes
/// each.
pub open spec fn spec_pixel_of(bytes: Seq<u8>, bpp: nat, pixel: int) -> Seq<u8> {
    bytes.subrange(pixel * bpp, pixel * bpp + bpp)
}

/// Two runs of painted pixels, one behind the other, are a run of painted
/// pixels.
pub proof fn lemma_painted_concat(colorizer: Colorizer, cap: usize, head: Seq<u8>, tail: Seq<u8>)
    requires
        colorizer.whole_pixels(head.len() as int),
        colorizer.whole_pixels(tail.len() as int),
        colorizer.spec_all_painted(cap, head),
        colorizer.spec_all_painted(cap, tail),
    ensures
        colorizer.whole_pixels((head + tail).len() as int),
        colorizer.spec_all_painted(cap, head + tail),
{
    let bpp = colorizer.spec_bytes_per_pixel();
    let b = bpp as int;
    let both = head + tail;
    let head_pixels = colorizer.spec_pixels(head.len() as int) as int;
    let tail_pixels = colorizer.spec_pixels(tail.len() as int) as int;
    vstd::arithmetic::div_mod::lemma_fundamental_div_mod(head.len() as int, b);
    vstd::arithmetic::div_mod::lemma_fundamental_div_mod(tail.len() as int, b);
    assert(both.len() == (head_pixels + tail_pixels) * b) by (nonlinear_arith)
        requires
            both.len() == head.len() + tail.len(),
            head.len() == b * head_pixels,
            tail.len() == b * tail_pixels,
    ;
    vstd::arithmetic::div_mod::lemma_fundamental_div_mod_converse(
        both.len() as int,
        b,
        head_pixels + tail_pixels,
        0,
    );
    assert forall|pixel: int| 0 <= pixel < colorizer.spec_pixels(both.len() as int) implies
        colorizer.spec_paints(cap, #[trigger] spec_pixel_of(both, bpp, pixel)) by {
        if pixel < head_pixels {
            assert(pixel * b + b <= head_pixels * b) by (nonlinear_arith)
                requires
                    0 <= pixel < head_pixels,
                    b > 0,
            ;
            assert(0 <= pixel * b) by (nonlinear_arith)
                requires
                    0 <= pixel,
                    b > 0,
            ;
            assert(spec_pixel_of(both, bpp, pixel) =~= spec_pixel_of(head, bpp, pixel));
        } else {
            let inner = pixel - head_pixels;
            assert(pixel * b == head_pixels * b + inner * b) by (nonlinear_arith)
                requires
                    inner == pixel - head_pixels,
            ;
            assert(0 <= inner * b && inner * b + b <= tail_pixels * b) by (nonlinear_arith)
                requires
                    0 <= inner < tail_pixels,
                    b > 0,
            ;
            assert(spec_pixel_of(both, bpp, pixel) =~= spec_pixel_of(tail, bpp, inner));
            assert(colorizer.spec_paints(cap, spec_pixel_of(tail, bpp, inner)));
        }
    }
}

/// Every strategy writes exactly `bytes_per_pixel` bytes for a pixel.
pub proof fn lemma_pixel_bytes_len(colorizer: Colorizer, escape: Option<usize>, cap: usize)
    ensures
        colorizer.spec_pixel_bytes(escape, cap).len() == colorizer.spec_bytes_per_pixel(),
{
}

} // verus!
