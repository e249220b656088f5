//! The render kernel: from a pixel of the canvas to a point of the plane, to
//! the iteration at which that point escapes, to the bytes of the pixel.

use crate::color::{lemma_painted_concat, lemma_pixel_bytes_len, spec_pixel_of, Colorizer};
use crate::complex::Complex;
use crate::orbit::{
    bounded_before, can_iterate, escapes_at, lemma_first_escape_skips, lemma_origin_is_bounded,
    orbit, orbit_permitted, spec_escape_time, zero_is_zero, MAX_SQUARED_MAGNITUDE,
};
use crate::scalar::{arithmetic_is_exact, arithmetic_never_fails, scalar_of, Scalar};
use crate::span::{spec_split, spec_total_len, Span};
use vstd::prelude::*;
use vstd::std_specs::ops::{AddSpec, DivSpec, MulSpec, SubSpec};

verus! {

/// The scalar that lies `step` of `steps` equal steps along the way from
/// `from` to `to`: `from + (to - from) * step / steps`, computed in this
/// order.
pub open spec fn spec_interpolate<T: Scalar>(from: T, to: T, step: T, steps: T) -> T {
    from.add_spec(to.sub_spec(from).mul_spec(step).div_spec(steps))
}

/// Each of the four operations of `spec_interpolate` can be made on the
/// value that the one before it gives.
pub open spec fn interpolation_permitted<T: Scalar>(from: T, to: T, step: T, steps: T) -> bool {
    &&& to.sub_req(from)
    &&& to.sub_spec(from).mul_req(step)
    &&& to.sub_spec(from).mul_spec(step).div_req(steps)
    &&& from.add_req(to.sub_spec(from).mul_spec(step).div_spec(steps))
}

/// The scalar that lies `step` of `steps` equal steps along the way from
/// `from` down to `to`: `from - (from - to) * step / steps`, computed in
/// this order. This is `from + (to - from) * step / steps` with the
/// difference taken the other way round, so that no value below `to` comes
/// up on the way.
pub open spec fn spec_descend<T: Scalar>(from: T, to: T, step: T, steps: T) -> T {
    from.sub_spec(from.sub_spec(to).mul_spec(step).div_spec(steps))
}

/// Each of the four operations of `spec_descend` can be made on the value
/// that the one before it gives.
pub open spec fn descent_permitted<T: Scalar>(from: T, to: T, step: T, steps: T) -> bool {
    &&& from.sub_req(to)
    &&& from.sub_spec(to).mul_req(step)
    &&& from.sub_spec(to).mul_spec(step).div_req(steps)
    &&& from.sub_req(from.sub_spec(to).mul_spec(step).div_spec(steps))
}

/// Pixels that lie before the first byte that changed are what they were.
proof fn lemma_pixels_stay(before: Seq<u8>, after: Seq<u8>, bpp: nat, pixels: int)
    requires
        bpp > 0,
        pixels >= 0,
        before.len() == after.len(),
        pixels * bpp <= before.len(),
        forall|k: int| 0 <= k < pixels * bpp ==> before[k] == after[k],
    ensures
        forall|pixel: int|
            0 <= pixel < pixels ==> #[trigger] spec_pixel_of(after, bpp, pixel) == spec_pixel_of(
                before,
                bpp,
                pixel,
            ),
{
    assert forall|pixel: int| 0 <= pixel < pixels implies #[trigger] spec_pixel_of(
        after,
        bpp,
        pixel,
    ) == spec_pixel_of(before, bpp, pixel) by {
        assert(0 <= pixel * bpp && pixel * bpp + bpp <= pixels * bpp) by (nonlinear_arith)
            requires
                0 <= pixel < pixels,
                bpp > 0,
        ;
    }
}

/// A mapping of a canvas of pixels onto a rectangle of the complex plane,
/// with the cap on the iterations spent on one point.
pub struct MandelbrotRenderer<T> {
    canvas_bounds: (usize, usize),
    plane_bounds: (Complex<T>, Complex<T>),
    iteration_count: usize,
}

impl<T: Copy> Clone for MandelbrotRenderer<T> {
    fn clone(&self) -> (copy: Self)
        ensures
            copy == *self,
    {
        Self {
            canvas_bounds: self.canvas_bounds,
            plane_bounds: self.plane_bounds,
            iteration_count: self.iteration_count,
        }
    }
}

impl<T: Scalar> MandelbrotRenderer<T> {
    /// Width and height of the canvas, in pixels.
    pub closed spec fn canvas(&self) -> (usize, usize) {
        self.canvas_bounds
    }

    /// The top-left and the bottom-right corner of the rectangle of the
    /// plane that the canvas shows.
    pub closed spec fn plane(&self) -> (Complex<T>, Complex<T>) {
        self.plane_bounds
    }

    /// The iteration cap.
    pub closed spec fn cap(&self) -> usize {
        self.iteration_count
    }

    /// A canvas is valid where it has pixels, where either side fits the 32
    /// bits of a coordinate, and where its largest byte stream, three bytes a
    /// pixel, can be addressed.
    pub open spec fn valid_canvas(canvas_bounds: (usize, usize)) -> bool {
        &&& 0 < canvas_bounds.0 <= u32::MAX
        &&& 0 < canvas_bounds.1 <= u32::MAX
        &&& canvas_bounds.0 * canvas_bounds.1 * 3 <= usize::MAX
    }

    pub open spec fn wf(&self) -> bool {
        Self::valid_canvas(self.canvas())
    }

    /// Number of pixels of the canvas.
    pub open spec fn pixel_count(&self) -> nat {
        (self.canvas().0 * self.canvas().1) as nat
    }

    /// Length of the byte stream of the whole image under `colorizer`.
    pub open spec fn image_len(&self, colorizer: Colorizer) -> nat {
        self.pixel_count() * colorizer.spec_bytes_per_pixel()
    }

    pub fn new(
        canvas_bounds: (usize, usize),
        plane_bounds: (Complex<T>, Complex<T>),
        iteration_count: usize,
    ) -> (renderer: Self)
        requires
            Self::valid_canvas(canvas_bounds),
        ensures
            renderer.wf(),
            renderer.canvas() == canvas_bounds,
            renderer.plane() == plane_bounds,
            renderer.cap() == iteration_count,
    {
        Self { canvas_bounds, plane_bounds, iteration_count }
    }

    /// The point of the plane that the pixel in column `pixel.0` of row
    /// `pixel.1` samples. Columns run from the left edge of the rectangle
    /// towards the right one, rows from its top edge towards the bottom
    /// one: the pixel in column 0 of row 0 samples the top-left corner, and
    /// the imaginary part falls as the row grows.
    pub open spec fn spec_map_pixel(&self, pixel: (usize, usize)) -> Complex<T> {
        let (top_left, bottom_right) = self.plane();
        Complex {
            re: spec_interpolate(
                top_left.re,
                bottom_right.re,
                scalar_of::<T>(pixel.0 as u32),
                scalar_of::<T>(self.canvas().0 as u32),
            ),
            im: spec_descend(
                top_left.im,
                bottom_right.im,
                scalar_of::<T>(pixel.1 as u32),
                scalar_of::<T>(self.canvas().1 as u32),
            ),
        }
    }

    /// Both parts of the point that `pixel` samples can be interpolated.
    pub open spec fn mapping_permitted(&self, pixel: (usize, usize)) -> bool {
        let (top_left, bottom_right) = self.plane();
        &&& interpolation_permitted(
            top_left.re,
            bottom_right.re,
            scalar_of::<T>(pixel.0 as u32),
            scalar_of::<T>(self.canvas().0 as u32),
        )
        &&& descent_permitted(
            top_left.im,
            bottom_right.im,
            scalar_of::<T>(pixel.1 as u32),
            scalar_of::<T>(self.canvas().1 as u32),
        )
    }

    /// Mapping `pixel` cannot fail: either no arithmetic on the scalar ever
    /// does, or the arithmetic is exact and each operation of the mapping is
    /// permitted.
    pub open spec fn can_map(&self, pixel: (usize, usize)) -> bool {
        arithmetic_never_fails::<T>() || (arithmetic_is_exact::<T>() && self.mapping_permitted(
            pixel,
        ))
    }

    pub fn map_pixel_to_complex_plane(&self, pixel: &(usize, usize)) -> (point: Complex<T>)
        requires
            self.wf(),
            pixel.0 < self.canvas().0,
            pixel.1 < self.canvas().1,
            self.can_map(*pixel),
        ensures
            arithmetic_is_exact::<T>() ==> point == self.spec_map_pixel(*pixel),
    {
        let column: T = T::from(pixel.0 as u32);
        let row: T = T::from(pixel.1 as u32);
        let width: T = T::from(self.canvas_bounds.0 as u32);
        let height: T = T::from(self.canvas_bounds.1 as u32);
        let re: T = self.plane_bounds.0.re + (self.plane_bounds.1.re - self.plane_bounds.0.re)
            * column / width;
        let im: T = self.plane_bounds.0.im - (self.plane_bounds.0.im - self.plane_bounds.1.im)
            * row / height;
        Complex::new(re, im)
    }

    /// Classifies `point`: `Some(i)` where its orbit first lies beyond the
    /// threshold at iteration `i`, `None` where it stays bounded for all
    /// iterations below the cap.
    pub fn escape_time(&self, point: &Complex<T>) -> (escape: Option<usize>)
        requires
            can_iterate(*point, self.cap() as nat),
        ensures
            escape matches Some(i) ==> i < self.cap(),
            self.cap() == 0 ==> escape is None,
            arithmetic_is_exact::<T>() ==> escape == spec_escape_time(*point, self.cap() as nat),
            arithmetic_is_exact::<T>() && zero_is_zero::<T>() && *point == (Complex {
                re: scalar_of::<T>(0),
                im: scalar_of::<T>(0),
            }) ==> escape is None,
    {
        let threshold: T = T::from(MAX_SQUARED_MAGNITUDE);
        let zero: T = T::from(0u32);
        let mut z: Complex<T> = Complex::new(zero, zero);
        let mut i: usize = 0;
        while i < self.iteration_count
            invariant
                i <= self.iteration_count,
                can_iterate(*point, self.cap() as nat),
                arithmetic_is_exact::<T>() ==> {
                    &&& threshold == scalar_of::<T>(MAX_SQUARED_MAGNITUDE)
                    &&& z == orbit(*point, i as nat)
                    &&& bounded_before(*point, i as nat)
                },
            decreases self.iteration_count - i,
        {
            if z.squared_magnitude() > threshold {
                proof {
                    if arithmetic_is_exact::<T>() {
                        lemma_first_escape_skips(*point, 0, i as nat, self.cap() as nat);
                        if zero_is_zero::<T>() {
                            lemma_origin_is_bounded::<T>(self.cap() as nat);
                        }
                    }
                }
                return Some(i);
            }
            z = z * z + *point;
            i += 1;
        }
        proof {
            if arithmetic_is_exact::<T>() {
                lemma_first_escape_skips(*point, 0, i as nat, self.cap() as nat);
            }
        }
        None
    }

    /// The pixel, as column and row, that has the index `index` in the
    /// stream of pixels: rows from the top, each from left to right.
    pub open spec fn spec_pixel_at(&self, index: nat) -> (usize, usize) {
        ((index % self.canvas().0 as nat) as usize, (index / self.canvas().0 as nat) as usize)
    }

    /// The escape result of the pixel with index `index`.
    pub open spec fn spec_pixel_escape(&self, index: nat) -> Option<usize> {
        spec_escape_time(self.spec_map_pixel(self.spec_pixel_at(index)), self.cap() as nat)
    }

    /// Every operation that rendering the pixel with index `index` comes to
    /// can be made.
    pub open spec fn pixel_permitted(&self, index: nat) -> bool {
        &&& self.mapping_permitted(self.spec_pixel_at(index))
        &&& orbit_permitted(self.spec_map_pixel(self.spec_pixel_at(index)), self.cap() as nat)
    }

    /// Rendering the `pixels` pixels from the index `first` on cannot fail:
    /// there is no pixel and nothing is computed, or no arithmetic on the
    /// scalar ever fails, or the arithmetic is exact and each operation on
    /// each of the pixels is permitted.
    pub open spec fn can_render(&self, first: nat, pixels: nat) -> bool {
        ||| pixels == 0
        ||| arithmetic_never_fails::<T>()
        ||| (arithmetic_is_exact::<T>() && forall|index: nat|
            first <= index < first + pixels ==> #[trigger] self.pixel_permitted(index))
    }

    /// The byte at `offset` of the image's byte stream under `colorizer`.
    pub open spec fn spec_byte(&self, colorizer: Colorizer, offset: int) -> u8 {
        let bpp = colorizer.spec_bytes_per_pixel() as int;
        colorizer.spec_pixel_bytes(self.spec_pixel_escape((offset / bpp) as nat), self.cap())[offset
            % bpp]
    }

    /// The byte stream of the whole image under `colorizer`: pixel after
    /// pixel, each with the bytes that the colorizer gives its escape result.
    pub open spec fn spec_image(&self, colorizer: Colorizer) -> Seq<u8> {
        Seq::new(self.image_len(colorizer), |offset: int| self.spec_byte(colorizer, offset))
    }

    /// The stretch of the image's byte stream that starts at `offset` and is
    /// `len` bytes long.
    pub open spec fn spec_window(&self, colorizer: Colorizer, offset: int, len: int) -> Seq<u8> {
        self.spec_image(colorizer).subrange(offset, offset + len)
    }

    /// What the spans hold when each is rendered by itself, one after the
    /// other.
    pub open spec fn spec_rendered(&self, colorizer: Colorizer, spans: Seq<Span>) -> Seq<u8>
        decreases spans.len(),
    {
        if spans.len() == 0 {
            Seq::empty()
        } else {
            self.spec_window(colorizer, spans[0].offset as int, spans[0].len as int).add(
                self.spec_rendered(colorizer, spans.drop_first()),
            )
        }
    }

    /// The byte stream of a valid canvas can be addressed, whatever the
    /// colorizer.
    pub proof fn lemma_image_len_fits(&self, colorizer: Colorizer)
        requires
            self.wf(),
        ensures
            self.image_len(colorizer) <= usize::MAX,
            self.image_len(colorizer) > 0,
            colorizer.whole_pixels(self.image_len(colorizer) as int),
    {
        let pixels = self.pixel_count() as int;
        let bpp = colorizer.spec_bytes_per_pixel() as int;
        assert(0 < pixels * bpp <= pixels * 3) by (nonlinear_arith)
            requires
                0 < bpp <= 3,
                pixels == self.canvas().0 * self.canvas().1,
                self.canvas().0 > 0,
                self.canvas().1 > 0,
        ;
        vstd::arithmetic::div_mod::lemma_mod_multiples_basic(pixels, bpp);
    }

    /// Rendering a stretch of the image piece by piece gives what rendering
    /// it at once gives, however large the pieces are.
    pub proof fn lemma_pieces_render_the_stretch(
        &self,
        colorizer: Colorizer,
        offset: nat,
        len: nat,
        piece: nat,
    )
        requires
            self.wf(),
            piece > 0,
            offset + len <= self.image_len(colorizer),
        ensures
            self.spec_rendered(colorizer, spec_split(offset, len, piece)) == self.spec_window(
                colorizer,
                offset as int,
                len as int,
            ),
        decreases len,
    {
        self.lemma_image_len_fits(colorizer);
        let image = self.spec_image(colorizer);
        let spans = spec_split(offset, len, piece);
        if len > 0 {
            let first: nat = if piece < len {
                piece
            } else {
                len
            };
            let rest = spec_split(offset + first, (len - first) as nat, piece);
            self.lemma_pieces_render_the_stretch(
                colorizer,
                offset + first,
                (len - first) as nat,
                piece,
            );
            assert(spans.drop_first() =~= rest);
            let start = offset as int;
            let middle = start + first;
            let end = start + len;
            assert(image.subrange(start, middle).add(image.subrange(middle, end))
                =~= image.subrange(start, end));
        }
    }

    /// A window holds the same bytes whether it is rendered in pieces of one
    /// size or of another: how many workers share a window does not show in
    /// what they produce.
    pub proof fn lemma_piece_size_is_immaterial(
        &self,
        colorizer: Colorizer,
        window: Span,
        piece: nat,
        other_piece: nat,
    )
        requires
            self.wf(),
            piece > 0,
            other_piece > 0,
            window.end() <= self.image_len(colorizer),
        ensures
            self.spec_rendered(
                colorizer,
                spec_split(window.offset as nat, window.len as nat, piece),
            ) == self.spec_rendered(
                colorizer,
                spec_split(window.offset as nat, window.len as nat, other_piece),
            ),
    {
        self.lemma_pieces_render_the_stretch(
            colorizer,
            window.offset as nat,
            window.len as nat,
            piece,
        );
        self.lemma_pieces_render_the_stretch(
            colorizer,
            window.offset as nat,
            window.len as nat,
            other_piece,
        );
    }

    /// The windows of a run, rendered one after the other, are the image:
    /// every byte of it once, in the order of the stream, and nothing else.
    pub proof fn lemma_windows_make_the_image(&self, colorizer: Colorizer, window_size: nat)
        requires
            self.wf(),
            window_size > 0,
        ensures
            self.spec_rendered(
                colorizer,
                spec_split(0, self.image_len(colorizer), window_size),
            ) == self.spec_image(colorizer),
            self.spec_image(colorizer).len() == self.canvas().0 * self.canvas().1
                * colorizer.spec_bytes_per_pixel(),
    {
        self.lemma_pieces_render_the_stretch(colorizer, 0, self.image_len(colorizer), window_size);
        assert(self.spec_window(colorizer, 0, self.image_len(colorizer) as int)
            =~= self.spec_image(colorizer));
    }

    /// Where the bytes of the pixel with index `index` stand in the image's
    /// byte stream, and what they are: byte `channel` of the pixel is byte
    /// `index * bytes_per_pixel + channel` of the stream.
    pub proof fn lemma_pixel_in_image(&self, colorizer: Colorizer, index: nat, channel: nat)
        requires
            index < self.pixel_count(),
            channel < colorizer.spec_bytes_per_pixel(),
        ensures
            index * colorizer.spec_bytes_per_pixel() + channel < self.image_len(colorizer),
            self.spec_image(colorizer)[(index * colorizer.spec_bytes_per_pixel() + channel) as int]
                == colorizer.spec_pixel_bytes(self.spec_pixel_escape(index), self.cap())[channel as int],
    {
        let bpp = colorizer.spec_bytes_per_pixel() as int;
        let position = index * bpp + channel;
        vstd::arithmetic::div_mod::lemma_fundamental_div_mod_converse(
            position,
            bpp,
            index as int,
            channel as int,
        );
        assert(index * bpp + bpp <= self.pixel_count() * bpp) by (nonlinear_arith)
            requires
                index + 1 <= self.pixel_count(),
                bpp > 0,
        ;
    }

    /// Fills `buf` with the bytes of the image that start at the byte offset
    /// `offset` of its stream. The slice covers whole pixels and ends within
    /// the image.
    pub fn render(&self, buf: &mut [u8], offset: usize, colorizer: Colorizer)
        requires
            self.wf(),
            colorizer.whole_pixels(offset as int),
            colorizer.whole_pixels(old(buf).len() as int),
            offset + old(buf).len() <= self.image_len(colorizer),
            self.can_render(
                colorizer.spec_pixels(offset as int),
                colorizer.spec_pixels(old(buf).len() as int),
            ),
        ensures
            final(buf).len() == old(buf).len(),
            colorizer.spec_all_painted(self.cap(), final(buf)@),
            arithmetic_is_exact::<T>() ==> final(buf)@ == self.spec_window(
                colorizer,
                offset as int,
                old(buf).len() as int,
            ),
    {
        let bpp: usize = colorizer.bytes_per_pixel();
        let width: usize = self.canvas_bounds.0;
        let len: usize = buf.len();
        let first: usize = offset / bpp;
        let ghost image = self.spec_image(colorizer);
        let ghost total = self.pixel_count();
        assert(first * bpp == offset) by {
            vstd::arithmetic::div_mod::lemma_fundamental_div_mod(offset as int, bpp as int);
            assert(bpp * (offset as int / bpp as int) == first * bpp) by (nonlinear_arith)
                requires
                    first == offset as int / bpp as int,
            ;
        }
        let mut index: usize = first;
        let mut base: usize = 0;
        let ghost mut painted_pixels: int = 0;
        while base < len
            invariant
                painted_pixels * bpp == base,
                forall|pixel: int|
                    0 <= pixel < painted_pixels ==> colorizer.spec_paints(
                        self.cap(),
                        #[trigger] spec_pixel_of(buf@, bpp as nat, pixel),
                    ),
                self.wf(),
                self.can_render(first as nat, (len / bpp) as nat),
                bpp == 1 || bpp == 3,
                (len as int) % (bpp as int) == 0,
                first <= index,
                index - first == painted_pixels,
                painted_pixels * bpp + (len - base) == len,
                bpp == colorizer.spec_bytes_per_pixel(),
                width == self.canvas().0,
                image == self.spec_image(colorizer),
                total == self.pixel_count(),
                buf.len() == len,
                len == old(buf).len(),
                (len - base) % (bpp as int) == 0,
                offset + len <= total * bpp,
                index * bpp == offset + base,
                base <= len,
                arithmetic_is_exact::<T>() ==> forall|k: int|
                    0 <= k < base ==> buf@[k] == image[offset + k],
            decreases len - base,
        {
            assert(base + bpp <= len) by {
                if bpp == 3 {
                    assert((len - base) % 3 == 0);
                }
            }
            assert(index < total) by (nonlinear_arith)
                requires
                    index * bpp == offset + base,
                    base < len,
                    offset + len <= total * bpp,
                    bpp > 0,
            ;
            assert(index / width < self.canvas().1) by (nonlinear_arith)
                requires
                    index < self.canvas().0 * self.canvas().1,
                    width == self.canvas().0,
                    width > 0,
            ;
            let pixel: (usize, usize) = (index % width, index / width);
            proof {
                if !arithmetic_never_fails::<T>() {
                    let pixels = len as int / bpp as int;
                    vstd::arithmetic::div_mod::lemma_fundamental_div_mod(len as int, bpp as int);
                    assert(len == bpp * pixels);
                    assert(painted_pixels < pixels) by (nonlinear_arith)
                        requires
                            painted_pixels * bpp == base,
                            base < len,
                            len == bpp * pixels,
                            bpp > 0,
                    ;
                    assert(self.pixel_permitted(index as nat));
                }
            }
            let point: Complex<T> = self.map_pixel_to_complex_plane(&pixel);
            let escape: Option<usize> = self.escape_time(&point);
            let bytes: [u8; 3] = colorizer.pixel_bytes(escape, self.iteration_count);
            let ghost painted = colorizer.spec_pixel_bytes(escape, self.cap());
            let ghost before = buf@;
            buf[base] = bytes[0];
            if bpp == 3 {
                buf[base + 1] = bytes[1];
                buf[base + 2] = bytes[2];
            }
            proof {
                lemma_pixels_stay(before, buf@, bpp as nat, painted_pixels);
                assert(spec_pixel_of(buf@, bpp as nat, painted_pixels) =~= painted);
                assert((painted_pixels + 1) * bpp == base + bpp) by (nonlinear_arith)
                    requires
                        painted_pixels * bpp == base,
                ;
                assert((index + 1) * bpp == offset + base + bpp) by (nonlinear_arith)
                    requires
                        index * bpp == offset + base,
                ;
                assert((len - (base + bpp)) % (bpp as int) == 0) by {
                    if bpp == 3 {
                        assert((len - base) % 3 == 0);
                    }
                }
                if arithmetic_is_exact::<T>() {
                    self.lemma_pixel_in_image(colorizer, index as nat, 0);
                    if bpp == 3 {
                        self.lemma_pixel_in_image(colorizer, index as nat, 1);
                        self.lemma_pixel_in_image(colorizer, index as nat, 2);
                    }
                    assert forall|k: int| 0 <= k < base + bpp implies buf@[k] == image[offset
                        + k] by {
                        if k < base {
                            assert(buf@[k] == before[k]);
                        }
                    }
                }
            }
            base += bpp;
            index += 1;
            proof {
                painted_pixels = painted_pixels + 1;
            }
        }
        proof {
            vstd::arithmetic::div_mod::lemma_fundamental_div_mod_converse(
                len as int,
                bpp as int,
                painted_pixels,
                0,
            );
        }
    }

    /// Each of the chunks from `from` on can be rendered into a slice of its
    /// own: it is a whole number of pixels that starts at a whole pixel and
    /// ends within the image, and rendering it cannot fail.
    pub open spec fn chunks_renderable(
        &self,
        colorizer: Colorizer,
        chunks: Seq<Span>,
        from: int,
    ) -> bool {
        forall|i: int|
            from <= i < chunks.len() ==> {
                &&& colorizer.whole_pixels((#[trigger] chunks[i]).offset as int)
                &&& colorizer.whole_pixels(chunks[i].len as int)
                &&& chunks[i].end() <= self.image_len(colorizer)
                &&& self.can_render(
                    colorizer.spec_pixels(chunks[i].offset as int),
                    colorizer.spec_pixels(chunks[i].len as int),
                )
            }
    }

    /// Fills `buf` chunk by chunk: the first bytes of `buf` with the chunk
    /// `chunks[from]`, the bytes behind them with the next chunk, and so on
    /// to the last chunk. This is what the workers of a shared window do,
    /// each on its own chunk; here the chunks are rendered one after the
    /// other.
    pub fn render_chunks(
        &self,
        buf: &mut [u8],
        chunks: &Vec<Span>,
        from: usize,
        colorizer: Colorizer,
    )
        requires
            self.wf(),
            from <= chunks@.len(),
            self.chunks_renderable(colorizer, chunks@, from as int),
            old(buf).len() == spec_total_len(chunks@.subrange(from as int, chunks@.len() as int)),
            colorizer.whole_pixels(old(buf).len() as int),
        ensures
            final(buf).len() == old(buf).len(),
            colorizer.spec_all_painted(self.cap(), final(buf)@),
            arithmetic_is_exact::<T>() ==> final(buf)@ == self.spec_rendered(
                colorizer,
                chunks@.subrange(from as int, chunks@.len() as int),
            ),
        decreases chunks@.len() - from,
    {
        let ghost rest = chunks@.subrange(from as int, chunks@.len() as int);
        if from < chunks.len() {
            let chunk: Span = chunks[from];
            proof {
                assert(rest[0] == chunk);
                assert(rest.drop_first() =~= chunks@.subrange(from + 1, chunks@.len() as int));
                let bpp = colorizer.spec_bytes_per_pixel() as int;
                vstd::arithmetic::div_mod::lemma_sub_mod_noop(
                    buf.len() as int,
                    chunk.len as int,
                    bpp,
                );
                vstd::arithmetic::div_mod::lemma_small_mod(0, bpp as nat);
            }
            let (head, tail) = buf.split_at_mut(chunk.len);
            self.render(head, chunk.offset, colorizer);
            self.render_chunks(tail, chunks, from + 1, colorizer);
            proof {
                lemma_painted_concat(colorizer, self.cap(), head@, tail@);
            }
        } else {
            proof {
                assert(buf@.len() == 0);
            }
        }
    }

    pub fn get_canvas_resolution(&self) -> (pixels: usize)
        requires
            self.wf(),
        ensures
            pixels == self.pixel_count(),
    {
        assert(self.canvas().0 * self.canvas().1 <= self.canvas().0 * self.canvas().1 * 3)
            by (nonlinear_arith)
            requires
                self.canvas().0 >= 0,
                self.canvas().1 >= 0,
        ;
        self.canvas_bounds.0 * self.canvas_bounds.1
    }
}

} // verus!
