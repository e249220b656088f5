//! The window scheduler: a render program owns the window buffer and walks
//! it over the image's byte stream, one window after the other.
//!
//! A run is a loop that the caller drives. `begin` starts it. `next_window`
//! says which window is due and shrinks the buffer for the last, shorter
//! one. The window is then filled: at once by `run_singlethreaded`, or chunk
//! by chunk along `chunk_plan`, either in turn by `run_in_chunks` or at the
//! same time by workers that share out `buffer_mut`. The caller writes
//! `window_bytes` to its sink, and `advance` moves on. The run is over when
//! `next_window` has no window left, and `finish` sums it up. `render_all`
//! is such a run with the memory as its sink.

use crate::buffer_policy::{closest_multiple_over, lemma_multiple_over, spec_multiple_over};
use crate::color::Colorizer;
use crate::mandelbrot_renderer::MandelbrotRenderer;
use crate::progress::Progress;
use crate::render_info::RenderInfo;
use crate::scalar::{arithmetic_is_exact, Scalar};
use crate::span::{
    lemma_split_count, lemma_split_covers, lemma_split_keeps_units, spec_split, split, Span,
};
use std::time::Duration;
use vstd::prelude::*;

verus! {

/// What a render program is, as a value of the logic.
pub struct ProgramState<T> {
    pub renderer: MandelbrotRenderer<T>,
    /// The content of the window buffer.
    pub buffer: Seq<u8>,
    /// How many workers may share a window.
    pub threads: usize,
    pub colorizer: Colorizer,
    /// The offset in the image's byte stream at which the window in the
    /// buffer starts: the number of bytes that the run has left behind.
    pub offset: usize,
}

impl<T: Scalar> ProgramState<T> {
    /// Length of the byte stream of the whole image.
    pub open spec fn total(self) -> nat {
        self.renderer.image_len(self.colorizer)
    }

    /// The program was made of a valid renderer and for at least one worker.
    pub open spec fn configured(self) -> bool {
        &&& self.renderer.wf()
        &&& self.threads >= 1
    }

    /// A run can begin: the buffer holds a whole number of pixels, and at
    /// least one.
    pub open spec fn can_begin(self) -> bool {
        &&& self.configured()
        &&& self.buffer.len() >= self.colorizer.spec_bytes_per_pixel()
        &&& self.colorizer.whole_pixels(self.buffer.len() as int)
    }

    /// What holds throughout a run: beyond `can_begin`, the run has left a
    /// whole number of pixels behind, and no more than the image has.
    pub open spec fn wf(self) -> bool {
        &&& self.can_begin()
        &&& self.colorizer.whole_pixels(self.offset as int)
        &&& self.offset <= self.total()
    }

    /// The buffer is a window of the image: it ends within the stream.
    pub open spec fn window_ready(self) -> bool {
        &&& self.wf()
        &&& self.offset + self.buffer.len() <= self.total()
    }

    /// Filling the window cannot fail: each of its pixels can be rendered.
    pub open spec fn can_fill(self) -> bool {
        self.renderer.can_render(
            self.colorizer.spec_pixels(self.offset as int),
            self.colorizer.spec_pixels(self.buffer.len() as int),
        )
    }

    /// The stretch of the stream that the buffer stands for.
    pub open spec fn window(self) -> Span {
        Span { offset: self.offset, len: self.buffer.len() as usize }
    }

    /// The windows that the run has yet to produce, the next one first.
    pub open spec fn remaining_windows(self) -> Seq<Span> {
        spec_split(self.offset as nat, (self.total() - self.offset) as nat, self.buffer.len())
    }
}

/// The number of workers for a run where `requested` were asked for and the
/// machine can run `available` at once: what was asked for, but at least
/// one, and no more than the machine can run.
pub open spec fn spec_clamp_threads(requested: usize, available: usize) -> usize {
    if requested < 1 || available <= 1 {
        1
    } else if requested > available {
        available
    } else {
        requested
    }
}

pub fn clamp_threads(requested: usize, available: usize) -> (threads: usize)
    ensures
        threads == spec_clamp_threads(requested, available),
        threads >= 1,
{
    if requested < 1 || available <= 1 {
        1
    } else if requested > available {
        available
    } else {
        requested
    }
}

/// The length of the chunk that each worker but the last gets where
/// `threads` workers share a window of `len` bytes and a pixel has `unit`
/// bytes: one more than an even share, rounded up to whole pixels, and the
/// whole window where that would be more.
pub open spec fn spec_bytes_per_thread(len: nat, threads: nat, unit: nat) -> nat {
    let rounded = spec_multiple_over(len / threads + 1, unit);
    if rounded < len {
        rounded
    } else {
        len
    }
}

/// A chunk is a whole number of pixels, holds at least one, and is no
/// longer than the window.
pub proof fn lemma_bytes_per_thread(len: nat, threads: nat, unit: nat)
    requires
        threads >= 1,
        unit > 0,
        len >= unit,
        len % unit == 0,
    ensures
        unit <= spec_bytes_per_thread(len, threads, unit) <= len,
        spec_bytes_per_thread(len, threads, unit) % unit == 0,
        spec_bytes_per_thread(len, threads, unit) * threads >= len,
{
    let share = len / threads;
    let rounded = spec_multiple_over(share + 1, unit);
    lemma_multiple_over(share + 1, unit);
    assert(rounded >= unit) by {
        if rounded < unit {
            vstd::arithmetic::div_mod::lemma_small_mod(rounded, unit);
        }
    }
    if rounded < len {
        vstd::arithmetic::div_mod::lemma_fundamental_div_mod(len as int, threads as int);
        vstd::arithmetic::div_mod::lemma_mod_bound(len as int, threads as int);
        assert(rounded * threads >= len) by (nonlinear_arith)
            requires
                rounded >= share + 1,
                len == threads * share + len % threads,
                0 <= len % threads < threads,
        ;
    } else {
        assert(len * threads >= len) by (nonlinear_arith)
            requires
                threads >= 1,
        ;
    }
}

/// A window is never cut into more chunks than there are workers.
pub proof fn lemma_chunks_within_threads(offset: nat, len: nat, threads: nat, unit: nat)
    requires
        threads >= 1,
        unit > 0,
        len >= unit,
        len % unit == 0,
    ensures
        1 <= spec_split(offset, len, spec_bytes_per_thread(len, threads, unit)).len() <= threads,
{
    let piece = spec_bytes_per_thread(len, threads, unit);
    lemma_bytes_per_thread(len, threads, unit);
    lemma_split_count(offset, len, piece);
    let count = (len + piece - 1) / (piece as int);
    vstd::arithmetic::div_mod::lemma_fundamental_div_mod(len + piece - 1, piece as int);
    vstd::arithmetic::div_mod::lemma_mod_bound(len + piece - 1, piece as int);
    assert(1 <= count <= threads) by (nonlinear_arith)
        requires
            len + piece - 1 == piece * count + (len + piece - 1) % (piece as int),
            0 <= (len + piece - 1) % (piece as int) < piece,
            piece * threads >= len,
            len >= 1,
            piece >= 1,
            threads >= 1,
    ;
}

/// A window holds the same bytes however many workers share it: the chunks
/// for one number of workers, each rendered by itself, make up the window as
/// the chunks for any other number do, and as the window rendered in one go
/// does.
pub proof fn lemma_thread_count_is_immaterial<T: Scalar>(
    renderer: MandelbrotRenderer<T>,
    colorizer: Colorizer,
    window: Span,
    threads: nat,
    other_threads: nat,
)
    requires
        renderer.wf(),
        threads >= 1,
        other_threads >= 1,
        window.len >= colorizer.spec_bytes_per_pixel(),
        colorizer.whole_pixels(window.len as int),
        window.end() <= renderer.image_len(colorizer),
    ensures
        renderer.spec_rendered(
            colorizer,
            spec_split(
                window.offset as nat,
                window.len as nat,
                spec_bytes_per_thread(
                    window.len as nat,
                    threads,
                    colorizer.spec_bytes_per_pixel(),
                ),
            ),
        ) == renderer.spec_window(colorizer, window.offset as int, window.len as int),
        renderer.spec_rendered(
            colorizer,
            spec_split(
                window.offset as nat,
                window.len as nat,
                spec_bytes_per_thread(
                    window.len as nat,
                    other_threads,
                    colorizer.spec_bytes_per_pixel(),
                ),
            ),
        ) == renderer.spec_window(colorizer, window.offset as int, window.len as int),
{
    let unit = colorizer.spec_bytes_per_pixel();
    lemma_bytes_per_thread(window.len as nat, threads, unit);
    lemma_bytes_per_thread(window.len as nat, other_threads, unit);
    renderer.lemma_pieces_render_the_stretch(
        colorizer,
        window.offset as nat,
        window.len as nat,
        spec_bytes_per_thread(window.len as nat, threads, unit),
    );
    renderer.lemma_pieces_render_the_stretch(
        colorizer,
        window.offset as nat,
        window.len as nat,
        spec_bytes_per_thread(window.len as nat, other_threads, unit),
    );
}

/// The number of workers does not show in a run: two programs that differ
/// in nothing but that number have the same windows to produce and the same
/// total, and each window holds the same bytes whether it is filled in one
/// go or in the chunks of the one program or of the other.
pub proof fn lemma_thread_count_does_not_show_in_a_run<T: Scalar>(
    one: ProgramState<T>,
    other: ProgramState<T>,
)
    requires
        one.window_ready(),
        other == (ProgramState { threads: other.threads, ..one }),
        other.threads >= 1,
    ensures
        other.window_ready(),
        other.total() == one.total(),
        other.remaining_windows() == one.remaining_windows(),
        other.window() == one.window(),
        one.renderer.spec_rendered(
            one.colorizer,
            spec_split(
                one.offset as nat,
                one.buffer.len(),
                spec_bytes_per_thread(
                    one.buffer.len(),
                    one.threads as nat,
                    one.colorizer.spec_bytes_per_pixel(),
                ),
            ),
        ) == one.renderer.spec_window(one.colorizer, one.offset as int, one.buffer.len() as int),
        other.renderer.spec_rendered(
            other.colorizer,
            spec_split(
                other.offset as nat,
                other.buffer.len(),
                spec_bytes_per_thread(
                    other.buffer.len(),
                    other.threads as nat,
                    other.colorizer.spec_bytes_per_pixel(),
                ),
            ),
        ) == one.renderer.spec_window(one.colorizer, one.offset as int, one.buffer.len() as int),
{
    one.renderer.lemma_image_len_fits(one.colorizer);
    lemma_thread_count_is_immaterial(
        one.renderer,
        one.colorizer,
        one.window(),
        one.threads as nat,
        other.threads as nat,
    );
}

/// The pixels of a chunk are pixels of the window that the chunk lies in.
proof fn lemma_pixels_within(offset: int, len: int, chunk_offset: int, chunk_len: int, bpp: int)
    requires
        bpp > 0,
        0 <= offset <= chunk_offset,
        0 <= chunk_len,
        chunk_offset + chunk_len <= offset + len,
        offset % bpp == 0,
        len % bpp == 0,
        chunk_offset % bpp == 0,
        chunk_len % bpp == 0,
    ensures
        offset / bpp <= chunk_offset / bpp,
        chunk_offset / bpp + chunk_len / bpp <= offset / bpp + len / bpp,
{
    vstd::arithmetic::div_mod::lemma_fundamental_div_mod(offset, bpp);
    vstd::arithmetic::div_mod::lemma_fundamental_div_mod(len, bpp);
    vstd::arithmetic::div_mod::lemma_fundamental_div_mod(chunk_offset, bpp);
    vstd::arithmetic::div_mod::lemma_fundamental_div_mod(chunk_len, bpp);
    let a = offset / bpp;
    let b = len / bpp;
    let c = chunk_offset / bpp;
    let d = chunk_len / bpp;
    assert(a <= c && c + d <= a + b) by (nonlinear_arith)
        requires
            bpp > 0,
            offset == bpp * a,
            len == bpp * b,
            chunk_offset == bpp * c,
            chunk_len == bpp * d,
            offset <= chunk_offset,
            chunk_offset + chunk_len <= offset + len,
    ;
}

/// A render program: the renderer and the colorizer of a run, the window
/// buffer, and how far the run has come.
pub struct RenderProgram<T> {
    renderer: MandelbrotRenderer<T>,
    buf: Vec<u8>,
    threads_to_use: usize,
    colorizer: Colorizer,
    buf_offset: usize,
}

impl<T: Scalar> View for RenderProgram<T> {
    type V = ProgramState<T>;

    closed spec fn view(&self) -> ProgramState<T> {
        ProgramState {
            renderer: self.renderer,
            buffer: self.buf@,
            threads: self.threads_to_use,
            colorizer: self.colorizer,
            offset: self.buf_offset,
        }
    }
}

impl<T: Scalar> RenderProgram<T> {
    /// A program with a window buffer of `buf_size` zero bytes. Until a
    /// colorizer is chosen it paints every pixel black.
    pub fn new(renderer: MandelbrotRenderer<T>, buf_size: usize, threads_to_use: usize) -> (program:
        Self)
        requires
            renderer.wf(),
            threads_to_use >= 1,
        ensures
            program@.renderer == renderer,
            program@.buffer == Seq::new(buf_size as nat, |i: int| 0u8),
            program@.threads == threads_to_use,
            program@.colorizer == Colorizer::Blank,
            program@.offset == 0,
            program@.configured(),
    {
        let buf: Vec<u8> = vec![0u8; buf_size];
        Self { renderer, buf, threads_to_use, colorizer: Colorizer::Blank, buf_offset: 0 }
    }

    /// Chooses the colorizer of the runs to come.
    pub fn color_pixel(&mut self, colorizer: Colorizer)
        ensures
            final(self)@ == (ProgramState { colorizer, ..old(self)@ }),
    {
        self.colorizer = colorizer;
    }

    pub fn renderer(&self) -> (renderer: &MandelbrotRenderer<T>)
        ensures
            *renderer == self@.renderer,
    {
        &self.renderer
    }

    pub fn colorizer(&self) -> (colorizer: Colorizer)
        ensures
            colorizer == self@.colorizer,
    {
        self.colorizer
    }

    pub fn threads_to_use(&self) -> (threads: usize)
        ensures
            threads == self@.threads,
    {
        self.threads_to_use
    }

    /// The number of bytes that the run has left behind, which is the
    /// offset of the window in the buffer.
    pub fn offset(&self) -> (offset: usize)
        ensures
            offset == self@.offset,
    {
        self.buf_offset
    }

    /// Length of the byte stream of the whole image.
    pub fn total_bytes(&self) -> (total: usize)
        requires
            self@.configured(),
        ensures
            total == self@.total(),
    {
        proof {
            self.renderer.lemma_image_len_fits(self.colorizer);
        }
        let pixels: usize = self.renderer.get_canvas_resolution();
        pixels * self.colorizer.bytes_per_pixel()
    }

    /// Whether the buffer is fit for a run.
    pub fn can_begin(&self) -> (fit: bool)
        requires
            self@.configured(),
        ensures
            fit == self@.can_begin(),
    {
        let bpp: usize = self.colorizer.bytes_per_pixel();
        self.buf.len() >= bpp && self.buf.len() % bpp == 0
    }

    /// Starts a run at the first byte of the image. Nothing is done yet.
    pub fn begin(&mut self) -> (progress: Progress)
        requires
            old(self)@.can_begin(),
        ensures
            final(self)@ == (ProgramState { offset: 0, ..old(self)@ }),
            final(self)@.wf(),
            final(self)@.remaining_windows() == spec_split(
                0,
                old(self)@.total(),
                old(self)@.buffer.len(),
            ),
            progress == (Progress { done: 0, total: old(self)@.total() as usize }),
    {
        self.buf_offset = 0;
        let total: usize = self.total_bytes();
        Progress::start(total)
    }

    /// The window that is due, or `None` when the image is complete. For the
    /// last window the buffer is cut down to what is left of the image.
    pub fn next_window(&mut self) -> (window: Option<Span>)
        requires
            old(self)@.wf(),
        ensures
            final(self)@.wf(),
            final(self)@.remaining_windows() == old(self)@.remaining_windows(),
            old(self)@.offset == old(self)@.total() ==> window is None && final(self)@ == old(
                self,
            )@,
            old(self)@.offset < old(self)@.total() ==> {
                &&& window == Some(old(self)@.remaining_windows()[0])
                &&& window == Some(final(self)@.window())
                &&& final(self)@.window_ready()
                &&& final(self)@ == (ProgramState {
                    buffer: old(self)@.buffer.subrange(0, window.unwrap().len as int),
                    ..old(self)@
                })
            },
    {
        let total: usize = self.total_bytes();
        let left: usize = total - self.buf_offset;
        let ghost before = self@;
        proof {
            self.renderer.lemma_image_len_fits(self.colorizer);
        }
        if left == 0 {
            return None;
        }
        if left < self.buf.len() {
            self.buf.truncate(left);
            proof {
                let bpp = self.colorizer.spec_bytes_per_pixel() as int;
                vstd::arithmetic::div_mod::lemma_sub_mod_noop(
                    total as int,
                    self.buf_offset as int,
                    bpp,
                );
                vstd::arithmetic::div_mod::lemma_small_mod(0, bpp as nat);
                assert(left >= bpp) by {
                    if left < bpp {
                        vstd::arithmetic::div_mod::lemma_small_mod(left as nat, bpp as nat);
                    }
                }
                assert(self@.remaining_windows() =~= before.remaining_windows()) by {
                    assert(spec_split((before.offset + left) as nat, 0, left as nat).len() == 0);
                    assert(spec_split(
                        (before.offset + left) as nat,
                        0,
                        before.buffer.len(),
                    ).len() == 0);
                }
            }
        } else {
            assert(self.buf@.subrange(0, self.buf.len() as int) =~= self.buf@);
        }
        Some(Span { offset: self.buf_offset, len: self.buf.len() })
    }

    /// Fills the window in one go, on the caller's thread, and says how far
    /// the run has come with it.
    pub fn run_singlethreaded(&mut self) -> (progress: Progress)
        requires
            old(self)@.window_ready(),
            old(self)@.can_fill(),
        ensures
            final(self)@.buffer.len() == old(self)@.buffer.len(),
            final(self)@ == (ProgramState { buffer: final(self)@.buffer, ..old(self)@ }),
            old(self)@.colorizer.spec_all_painted(
                old(self)@.renderer.cap(),
                final(self)@.buffer,
            ),
            arithmetic_is_exact::<T>() ==> final(self)@.buffer == old(self)@.renderer.spec_window(
                old(self)@.colorizer,
                old(self)@.offset as int,
                old(self)@.buffer.len() as int,
            ),
            progress == (Progress {
                done: (old(self)@.offset + old(self)@.buffer.len()) as usize,
                total: old(self)@.total() as usize,
            }),
            progress.wf(),
    {
        proof {
            self.renderer.lemma_image_len_fits(self.colorizer);
        }
        let total: usize = self.total_bytes();
        self.renderer.render(self.buf.as_mut_slice(), self.buf_offset, self.colorizer);
        Progress { done: self.buf_offset + self.buf.len(), total }
    }

    /// Fills the window chunk by chunk along the plan for the workers, on
    /// the caller's thread. Each chunk is rendered into its own part of the
    /// buffer, as a worker renders it; the window comes out as
    /// `run_singlethreaded` fills it.
    pub fn run_in_chunks(&mut self) -> (progress: Progress)
        requires
            old(self)@.window_ready(),
            old(self)@.can_fill(),
        ensures
            final(self)@.buffer.len() == old(self)@.buffer.len(),
            final(self)@ == (ProgramState { buffer: final(self)@.buffer, ..old(self)@ }),
            old(self)@.colorizer.spec_all_painted(
                old(self)@.renderer.cap(),
                final(self)@.buffer,
            ),
            arithmetic_is_exact::<T>() ==> final(self)@.buffer == old(self)@.renderer.spec_window(
                old(self)@.colorizer,
                old(self)@.offset as int,
                old(self)@.buffer.len() as int,
            ),
            progress == (Progress {
                done: (old(self)@.offset + old(self)@.buffer.len()) as usize,
                total: old(self)@.total() as usize,
            }),
            progress.wf(),
    {
        proof {
            self.renderer.lemma_image_len_fits(self.colorizer);
        }
        let total: usize = self.total_bytes();
        let chunk_len: usize = self.bytes_per_thread();
        let chunks: Vec<Span> = self.chunk_plan();
        proof {
            let state = self@;
            let bpp = state.colorizer.spec_bytes_per_pixel() as int;
            lemma_split_covers(state.offset as nat, state.buffer.len(), chunk_len as nat);
            state.renderer.lemma_pieces_render_the_stretch(
                state.colorizer,
                state.offset as nat,
                state.buffer.len(),
                chunk_len as nat,
            );
            assert(chunks@.subrange(0, chunks@.len() as int) =~= chunks@);
            assert forall|i: int| 0 <= i < chunks@.len() implies state.renderer.can_render(
                state.colorizer.spec_pixels((#[trigger] chunks@[i]).offset as int),
                state.colorizer.spec_pixels(chunks@[i].len as int),
            ) by {
                lemma_pixels_within(
                    state.offset as int,
                    state.buffer.len() as int,
                    chunks@[i].offset as int,
                    chunks@[i].len as int,
                    bpp,
                );
            }
        }
        self.renderer.render_chunks(self.buf.as_mut_slice(), &chunks, 0, self.colorizer);
        Progress { done: self.buf_offset + self.buf.len(), total }
    }

    /// The length of the chunks into which the window is cut for the
    /// workers.
    pub fn bytes_per_thread(&self) -> (chunk_len: usize)
        requires
            self@.wf(),
        ensures
            chunk_len == spec_bytes_per_thread(
                self@.buffer.len(),
                self@.threads as nat,
                self@.colorizer.spec_bytes_per_pixel(),
            ),
            0 < chunk_len <= self@.buffer.len(),
            self@.colorizer.whole_pixels(chunk_len as int),
    {
        let bpp: usize = self.colorizer.bytes_per_pixel();
        let len: usize = self.buf.len();
        let share: usize = len / self.threads_to_use;
        proof {
            lemma_bytes_per_thread(len as nat, self.threads_to_use as nat, bpp as nat);
            lemma_multiple_over((share + 1) as nat, bpp as nat);
            vstd::arithmetic::div_mod::lemma_div_is_ordered_by_denominator(
                len as int,
                1,
                self.threads_to_use as int,
            );
        }
        if share >= len {
            len
        } else {
            proof {
                let rounded = spec_multiple_over((share + 1) as nat, bpp as nat) as int;
                assert(rounded <= len) by {
                    if rounded > len {
                        vstd::arithmetic::div_mod::lemma_sub_mod_noop(
                            rounded,
                            len as int,
                            bpp as int,
                        );
                        vstd::arithmetic::div_mod::lemma_small_mod(0, bpp as nat);
                        vstd::arithmetic::div_mod::lemma_small_mod(
                            (rounded - len) as nat,
                            bpp as nat,
                        );
                    }
                }
            }
            closest_multiple_over(share + 1, bpp)
        }
    }

    /// The chunks of the window, one for each worker that is needed: where
    /// each starts in the image's byte stream and how long it is. They
    /// follow one another through the window, each a whole number of pixels.
    pub fn chunk_plan(&self) -> (chunks: Vec<Span>)
        requires
            self@.window_ready(),
        ensures
            chunks@ == spec_split(
                self@.offset as nat,
                self@.buffer.len(),
                spec_bytes_per_thread(
                    self@.buffer.len(),
                    self@.threads as nat,
                    self@.colorizer.spec_bytes_per_pixel(),
                ),
            ),
            1 <= chunks@.len() <= self@.threads,
            forall|i: int|
                0 <= i < chunks@.len() ==> {
                    &&& self@.colorizer.whole_pixels((#[trigger] chunks@[i]).offset as int)
                    &&& self@.colorizer.whole_pixels(chunks@[i].len as int)
                    &&& chunks@[i].len > 0
                    &&& self@.offset <= chunks@[i].offset
                    &&& chunks@[i].end() <= self@.offset + self@.buffer.len()
                },
    {
        let chunk_len: usize = self.bytes_per_thread();
        proof {
            self.renderer.lemma_image_len_fits(self.colorizer);
            lemma_chunks_within_threads(
                self@.offset as nat,
                self@.buffer.len(),
                self@.threads as nat,
                self@.colorizer.spec_bytes_per_pixel(),
            );
            lemma_split_covers(self@.offset as nat, self@.buffer.len(), chunk_len as nat);
            lemma_split_keeps_units(
                self@.offset as nat,
                self@.buffer.len(),
                chunk_len as nat,
                self@.colorizer.spec_bytes_per_pixel(),
            );
        }
        split(self.buf_offset, self.buf.len(), chunk_len)
    }

    /// The window as it stands in the buffer, to be written out.
    pub fn window_bytes(&self) -> (bytes: &[u8])
        ensures
            bytes@ == self@.buffer,
    {
        self.buf.as_slice()
    }

    /// The buffer, for workers to fill their chunks of it.
    pub fn buffer_mut(&mut self) -> (bytes: &mut [u8])
        ensures
            bytes@ == old(self)@.buffer,
            final(self)@ == (ProgramState { buffer: final(bytes)@, ..old(self)@ }),
    {
        self.buf.as_mut_slice()
    }

    /// How far the run has come before the window in the buffer.
    pub fn progress(&self) -> (progress: Progress)
        requires
            self@.wf(),
        ensures
            progress == (Progress { done: self@.offset, total: self@.total() as usize }),
            progress.wf(),
    {
        proof {
            self.renderer.lemma_image_len_fits(self.colorizer);
        }
        Progress { done: self.buf_offset, total: self.total_bytes() }
    }

    /// Runs the program from the first byte of the image to the last, on
    /// the caller's thread, and returns what its windows held one after the
    /// other: the whole image, in memory. This is for images that fit there.
    pub fn render_all(&mut self) -> (image: Vec<u8>)
        requires
            old(self)@.can_begin(),
            old(self)@.renderer.can_render(0, old(self)@.renderer.pixel_count()),
        ensures
            image@.len() == old(self)@.total(),
            arithmetic_is_exact::<T>() ==> image@ == old(self)@.renderer.spec_image(
                old(self)@.colorizer,
            ),
            final(self)@.wf(),
            final(self)@.offset == old(self)@.total(),
            final(self)@.renderer == old(self)@.renderer,
            final(self)@.colorizer == old(self)@.colorizer,
            final(self)@.threads == old(self)@.threads,
    {
        let ghost renderer = self@.renderer;
        let ghost colorizer = self@.colorizer;
        let ghost picture = renderer.spec_image(colorizer);
        let mut image: Vec<u8> = Vec::new();
        self.begin();
        proof {
            renderer.lemma_image_len_fits(colorizer);
        }
        loop
            invariant
                self@.wf(),
                self@.renderer == renderer,
                self@.colorizer == colorizer,
                self@.threads == old(self)@.threads,
                self@.total() == old(self)@.total(),
                picture == renderer.spec_image(colorizer),
                picture.len() == self@.total(),
                self@.total() <= usize::MAX,
                renderer.can_render(0, renderer.pixel_count()),
                image@.len() == self@.offset,
                arithmetic_is_exact::<T>() ==> image@ == picture.subrange(0, self@.offset as int),
            ensures
                self@.wf(),
                self@.offset == self@.total(),
                self@.renderer == renderer,
                self@.colorizer == colorizer,
                self@.threads == old(self)@.threads,
                self@.total() == old(self)@.total(),
                image@.len() == self@.offset,
                arithmetic_is_exact::<T>() ==> image@ == picture.subrange(0, self@.offset as int),
            decreases self@.total() - self@.offset,
        {
            let ghost done = image@;
            let window: Option<Span> = self.next_window();
            if window.is_none() {
                break ;
            }
            proof {
                let bpp = colorizer.spec_bytes_per_pixel() as int;
                let first = colorizer.spec_pixels(self@.offset as int) as int;
                let pixels = colorizer.spec_pixels(self@.buffer.len() as int) as int;
                vstd::arithmetic::div_mod::lemma_fundamental_div_mod(self@.offset as int, bpp);
                vstd::arithmetic::div_mod::lemma_fundamental_div_mod(
                    self@.buffer.len() as int,
                    bpp,
                );
                assert(first + pixels <= renderer.pixel_count()) by (nonlinear_arith)
                    requires
                        self@.offset == bpp * first,
                        self@.buffer.len() == bpp * pixels,
                        self@.offset + self@.buffer.len() <= renderer.pixel_count() * bpp,
                        bpp > 0,
                ;
            }
            self.run_singlethreaded();
            image.extend_from_slice(self.window_bytes());
            proof {
                if arithmetic_is_exact::<T>() {
                    let start = self@.offset as int;
                    let end = start + self@.buffer.len();
                    assert(image@ =~= done.add(picture.subrange(start, end)));
                    assert(done.add(picture.subrange(start, end)) =~= picture.subrange(0, end));
                }
            }
            self.advance();
        }
        proof {
            if arithmetic_is_exact::<T>() {
                assert(picture.subrange(0, self@.total() as int) =~= picture);
            }
        }
        image
    }

    /// Whether the run has produced the whole image.
    pub fn is_complete(&self) -> (complete: bool)
        requires
            self@.wf(),
        ensures
            complete == (self@.offset == self@.total()),
            complete == (self@.remaining_windows().len() == 0),
    {
        proof {
            self.renderer.lemma_image_len_fits(self.colorizer);
            lemma_split_covers(
                self@.offset as nat,
                (self@.total() - self@.offset) as nat,
                self@.buffer.len(),
            );
        }
        self.buf_offset == self.total_bytes()
    }

    /// The summary of a run that is complete: the time that the caller
    /// spent filling windows, and the bytes of the whole image.
    pub fn finish(&self, elapsed: Duration) -> (info: RenderInfo)
        requires
            self@.wf(),
            self@.offset == self@.total(),
        ensures
            info.elapsed == elapsed,
            info.bytes == self@.total(),
    {
        RenderInfo::new(elapsed, self.buf_offset)
    }

    /// Leaves the window behind, once it has been written out.
    pub fn advance(&mut self)
        requires
            old(self)@.window_ready(),
        ensures
            final(self)@ == (ProgramState {
                offset: (old(self)@.offset + old(self)@.buffer.len()) as usize,
                ..old(self)@
            }),
            final(self)@.wf(),
            final(self)@.remaining_windows() == old(self)@.remaining_windows().drop_first(),
    {
        proof {
            self.renderer.lemma_image_len_fits(self.colorizer);
            let bpp = self.colorizer.spec_bytes_per_pixel() as int;
            vstd::arithmetic::div_mod::lemma_add_mod_noop(
                self.buf_offset as int,
                self.buf.len() as int,
                bpp,
            );
            vstd::arithmetic::div_mod::lemma_small_mod(0, bpp as nat);
        }
        self.buf_offset = self.buf_offset + self.buf.len();
    }
}

} // verus!
