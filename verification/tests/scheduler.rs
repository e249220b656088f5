use mandelbrot::color::Colorizer;
use mandelbrot::complex::Complex;
use mandelbrot::mandelbrot_renderer::MandelbrotRenderer;
use mandelbrot::progress::Progress;
use mandelbrot::render_program::{clamp_threads, RenderProgram};
use mandelbrot::span::Span;
use std::time::Duration;

const GRAY_IMAGE: [u8; 20] =
    [249, 249, 236, 236, 243, 249, 236, 230, 0, 185, 249, 0, 0, 0, 0, 249, 236, 230, 0, 185];

const PALETTE_IMAGE: [u8; 60] = [
    25, 7, 26, 25, 7, 26, 4, 4, 73, 4, 4, 73, 9, 1, 47, 25, 7, 26, 4, 4, 73, 0, 7, 100, 0, 0, 0,
    248, 201, 95, 25, 7, 26, 0, 0, 0, 0, 0, 0, 0, 0, 0, 0, 0, 0, 25, 7, 26, 4, 4, 73, 0, 7, 100,
    0, 0, 0, 248, 201, 95,
];

struct Run {
    bytes: Vec<u8>,
    windows: Vec<Span>,
    reports: Vec<Progress>,
}

fn view(canvas: (usize, usize), iteration_count: usize) -> MandelbrotRenderer<f64> {
    MandelbrotRenderer::new(
        canvas,
        (Complex::new(-2.23845, 1.2), Complex::new(0.83845, -1.2)),
        iteration_count,
    )
}

fn program(
    canvas: (usize, usize),
    buf_size: usize,
    threads: usize,
    colorizer: Colorizer,
) -> RenderProgram<f64> {
    let mut program = RenderProgram::new(view(canvas, 40), buf_size, threads);
    program.color_pixel(colorizer);
    program
}

fn fill_with_workers(program: &mut RenderProgram<f64>, reports: &mut Vec<Progress>) {
    let chunks = program.chunk_plan();
    assert!(chunks.len() >= 1 && chunks.len() <= program.threads_to_use());
    let renderer = program.renderer().clone();
    let colorizer = program.colorizer();
    let mut progress = program.progress();
    let (sender, receiver) = crossbeam::channel::unbounded::<usize>();
    let mut rest: &mut [u8] = program.buffer_mut();
    crossbeam::scope(|scope| {
        for chunk in chunks.iter() {
            let (head, tail) = std::mem::take(&mut rest).split_at_mut(chunk.len);
            rest = tail;
            let worker = renderer.clone();
            let offset = chunk.offset;
            let done = sender.clone();
            scope.spawn(move |_| {
                worker.render(head, offset, colorizer);
                done.send(head.len()).unwrap();
            });
        }
    })
    .unwrap();
    drop(sender);
    assert!(rest.is_empty());
    for len in receiver.iter() {
        assert!(progress.can_record(len));
        progress.record(len);
        reports.push(progress);
    }
}

fn run(program: &mut RenderProgram<f64>) -> Run {
    assert!(program.can_begin());
    let mut run = Run { bytes: Vec::new(), windows: Vec::new(), reports: Vec::new() };
    run.reports.push(program.begin());
    while let Some(window) = program.next_window() {
        assert_eq!(window.offset, program.offset());
        assert_eq!(window.len, program.window_bytes().len());
        if program.threads_to_use() == 1 {
            let progress = program.run_singlethreaded();
            run.reports.push(progress);
        } else {
            fill_with_workers(program, &mut run.reports);
        }
        run.bytes.extend_from_slice(program.window_bytes());
        run.windows.push(window);
        program.advance();
    }
    run
}

fn fraction(progress: &Progress) -> f64 {
    progress.done as f64 / progress.total as f64
}

#[test]
fn a_run_produces_the_image_in_grayscale() {
    let produced = run(&mut program((5, 4), 6, 1, Colorizer::Grayscale));
    assert_eq!(produced.bytes, GRAY_IMAGE.to_vec());
}

#[test]
fn a_run_produces_the_image_in_the_palette() {
    let produced = run(&mut program((5, 4), 21, 1, Colorizer::Palette));
    assert_eq!(produced.bytes, PALETTE_IMAGE.to_vec());
}

#[test]
fn a_program_paints_black_until_a_colorizer_is_chosen() {
    let mut blank = RenderProgram::new(view((5, 4), 40), 12, 1);
    assert!(matches!(blank.colorizer(), Colorizer::Blank));
    assert_eq!(blank.total_bytes(), 60);
    assert_eq!(run(&mut blank).bytes, vec![0u8; 60]);
}

#[test]
fn end_to_end_interior_canvas_is_black() {
    let interior: MandelbrotRenderer<f64> =
        MandelbrotRenderer::new((2, 2), (Complex::new(-0.1, 0.1), Complex::new(0.1, -0.1)), 50);
    let mut gray = RenderProgram::new(interior.clone(), 4, 1);
    gray.color_pixel(Colorizer::Grayscale);
    assert_eq!(run(&mut gray).bytes, vec![0x00u8; 4]);
    let mut rgb = RenderProgram::new(interior, 12, 1);
    rgb.color_pixel(Colorizer::Palette);
    assert_eq!(run(&mut rgb).bytes, vec![0x00u8; 12]);
}

#[test]
fn windows_follow_one_another_through_the_image() {
    let produced = run(&mut program((5, 4), 21, 1, Colorizer::Palette));
    assert_eq!(
        produced.windows,
        vec![
            Span { offset: 0, len: 21 },
            Span { offset: 21, len: 21 },
            Span { offset: 42, len: 18 },
        ]
    );
}

#[test]
fn the_buffer_shrinks_for_the_last_window_only() {
    let mut program = program((5, 4), 21, 1, Colorizer::Palette);
    program.begin();
    assert_eq!(program.next_window(), Some(Span { offset: 0, len: 21 }));
    assert_eq!(program.window_bytes().len(), 21);
    program.advance();
    assert_eq!(program.next_window(), Some(Span { offset: 21, len: 21 }));
    program.advance();
    assert_eq!(program.next_window(), Some(Span { offset: 42, len: 18 }));
    assert_eq!(program.window_bytes().len(), 18);
    program.advance();
    assert_eq!(program.offset(), 60);
    assert_eq!(program.next_window(), None);
    assert_eq!(program.window_bytes().len(), 18);
}

#[test]
fn asking_twice_gives_the_same_window() {
    let mut program = program((5, 4), 21, 1, Colorizer::Palette);
    program.begin();
    let first = program.next_window();
    assert_eq!(program.next_window(), first);
    program.advance();
    program.advance();
    let last = program.next_window();
    assert_eq!(last, Some(Span { offset: 42, len: 18 }));
    assert_eq!(program.next_window(), last);
}

#[test]
fn a_buffer_larger_than_the_image_gives_one_window() {
    let produced = run(&mut program((5, 4), 600, 1, Colorizer::Palette));
    assert_eq!(produced.windows, vec![Span { offset: 0, len: 60 }]);
    assert_eq!(produced.bytes, PALETTE_IMAGE.to_vec());
}

#[test]
fn a_window_of_one_pixel_still_completes_the_image() {
    let produced = run(&mut program((5, 4), 3, 1, Colorizer::Palette));
    assert_eq!(produced.windows.len(), 20);
    assert_eq!(produced.bytes, PALETTE_IMAGE.to_vec());
    let gray = run(&mut program((5, 4), 1, 1, Colorizer::Grayscale));
    assert_eq!(gray.windows.len(), 20);
    assert_eq!(gray.bytes, GRAY_IMAGE.to_vec());
}

#[test]
fn windows_cover_the_image_for_any_size() {
    for (width, height) in [(1usize, 1usize), (2, 2), (5, 4), (7, 3), (16, 9)] {
        for colorizer in [Colorizer::Grayscale, Colorizer::Palette] {
            let bpp = colorizer.bytes_per_pixel();
            let total = width * height * bpp;
            let mut whole = vec![0u8; total];
            view((width, height), 40).render(&mut whole, 0, colorizer);
            for pixels in [1usize, 2, 3, 5, 8, 13, 200] {
                let produced = run(&mut program((width, height), pixels * bpp, 1, colorizer));
                assert_eq!(produced.bytes.len(), total);
                assert_eq!(produced.bytes, whole);
                let mut expected_offset = 0;
                for window in produced.windows.iter() {
                    assert_eq!(window.offset, expected_offset);
                    assert!(window.len > 0 && window.len <= pixels * bpp);
                    assert_eq!(window.len % bpp, 0);
                    expected_offset += window.len;
                }
                assert_eq!(expected_offset, total);
            }
        }
    }
}

#[test]
fn one_thread_and_eight_threads_render_the_same_bytes() {
    for colorizer in [Colorizer::Grayscale, Colorizer::Palette] {
        let bpp = colorizer.bytes_per_pixel();
        for buf_size in [bpp, 7 * bpp, 20 * bpp, 144 * bpp, 1000 * bpp] {
            let single = run(&mut program((16, 9), buf_size, 1, colorizer));
            let eight = run(&mut program((16, 9), buf_size, 8, colorizer));
            assert_eq!(single.bytes, eight.bytes);
            assert_eq!(single.windows, eight.windows);
            let three = run(&mut program((16, 9), buf_size, 3, colorizer));
            assert_eq!(single.bytes, three.bytes);
        }
    }
}

#[test]
fn workers_fill_the_window_they_share() {
    let mut program = program((5, 4), 60, 4, Colorizer::Palette);
    program.begin();
    assert_eq!(program.next_window(), Some(Span { offset: 0, len: 60 }));
    let mut reports = Vec::new();
    fill_with_workers(&mut program, &mut reports);
    assert_eq!(program.window_bytes().to_vec(), PALETTE_IMAGE.to_vec());
}

#[test]
fn chunks_are_whole_pixels_one_more_than_an_even_share() {
    let mut program = program((5, 4), 60, 4, Colorizer::Palette);
    program.begin();
    program.next_window();
    // 60 / 4 + 1 = 16, rounded up to whole pixels: 18.
    assert_eq!(program.bytes_per_thread(), 18);
    assert_eq!(
        program.chunk_plan(),
        vec![
            Span { offset: 0, len: 18 },
            Span { offset: 18, len: 18 },
            Span { offset: 36, len: 18 },
            Span { offset: 54, len: 6 },
        ]
    );
}

#[test]
fn chunks_start_at_the_offset_of_the_window() {
    let mut program = program((5, 4), 24, 2, Colorizer::Palette);
    program.begin();
    program.next_window();
    program.advance();
    assert_eq!(program.next_window(), Some(Span { offset: 24, len: 24 }));
    // 24 / 2 + 1 = 13, rounded up to whole pixels: 15.
    assert_eq!(program.bytes_per_thread(), 15);
    assert_eq!(
        program.chunk_plan(),
        vec![Span { offset: 24, len: 15 }, Span { offset: 39, len: 9 }]
    );
}

#[test]
fn a_single_worker_gets_the_whole_window() {
    let mut program = program((5, 4), 21, 1, Colorizer::Palette);
    program.begin();
    program.next_window();
    assert_eq!(program.bytes_per_thread(), 21);
    assert_eq!(program.chunk_plan(), vec![Span { offset: 0, len: 21 }]);
}

#[test]
fn there_are_never_more_chunks_than_workers() {
    for threads in 1..12usize {
        for pixels in 1..40usize {
            for colorizer in [Colorizer::Grayscale, Colorizer::Palette] {
                let bpp = colorizer.bytes_per_pixel();
                let mut program = program((8, 5), pixels * bpp, threads, colorizer);
                program.begin();
                let window = program.next_window().unwrap();
                let chunks = program.chunk_plan();
                assert!(chunks.len() >= 1 && chunks.len() <= threads);
                let mut offset = window.offset;
                for chunk in chunks.iter() {
                    assert_eq!(chunk.offset, offset);
                    assert!(chunk.len > 0);
                    assert_eq!(chunk.len % bpp, 0);
                    offset += chunk.len;
                }
                assert_eq!(offset, window.offset + window.len);
            }
        }
    }
}

#[test]
fn progress_of_a_single_threaded_run_rises_to_one() {
    let produced = run(&mut program((5, 4), 21, 1, Colorizer::Palette));
    assert_eq!(
        produced.reports,
        vec![
            Progress { done: 0, total: 60 },
            Progress { done: 21, total: 60 },
            Progress { done: 42, total: 60 },
            Progress { done: 60, total: 60 },
        ]
    );
    assert_eq!(fraction(&produced.reports[0]), 0.0);
    assert_eq!(fraction(&produced.reports[1]), 0.35);
    assert_eq!(fraction(&produced.reports[3]), 1.0);
}

#[test]
fn progress_never_falls_and_ends_at_one() {
    for threads in [1usize, 2, 8] {
        for buf_size in [3usize, 21, 60, 600] {
            let produced = run(&mut program((5, 4), buf_size, threads, Colorizer::Palette));
            assert_eq!(fraction(&produced.reports[0]), 0.0);
            assert!(produced.reports.len() > produced.windows.len());
            for pair in produced.reports.windows(2) {
                assert!(fraction(&pair[0]) <= fraction(&pair[1]));
                assert!(fraction(&pair[1]) <= 1.0);
            }
            assert_eq!(fraction(produced.reports.last().unwrap()), 1.0);
            assert!(produced.reports.last().unwrap().is_complete());
        }
    }
}

#[test]
fn begin_starts_the_run_over() {
    let mut program = program((5, 4), 21, 1, Colorizer::Palette);
    let first = run(&mut program);
    assert_eq!(program.offset(), 60);
    let second = run(&mut program);
    assert_eq!(first.bytes, second.bytes);
    // The buffer is never grown back: the second run uses the last window's size.
    assert_eq!(second.windows.len(), 4);
}

#[test]
fn a_buffer_of_broken_pixels_cannot_begin() {
    assert!(!program((5, 4), 20, 1, Colorizer::Palette).can_begin());
    assert!(!program((5, 4), 2, 1, Colorizer::Palette).can_begin());
    assert!(!program((5, 4), 0, 1, Colorizer::Grayscale).can_begin());
    assert!(program((5, 4), 20, 1, Colorizer::Grayscale).can_begin());
    assert!(program((5, 4), 21, 1, Colorizer::Palette).can_begin());
}

#[test]
fn a_new_buffer_holds_zeros() {
    let program = RenderProgram::new(view((5, 4), 40), 9, 2);
    assert_eq!(program.window_bytes().to_vec(), vec![0u8; 9]);
    assert_eq!(program.threads_to_use(), 2);
    assert_eq!(program.offset(), 0);
    assert_eq!(program.renderer().get_canvas_resolution(), 20);
}

#[test]
fn total_bytes_follow_the_colorizer() {
    assert_eq!(program((5, 4), 3, 1, Colorizer::Palette).total_bytes(), 60);
    assert_eq!(program((5, 4), 3, 1, Colorizer::Grayscale).total_bytes(), 20);
}

#[test]
fn threads_are_clamped_to_what_the_machine_runs() {
    assert_eq!(clamp_threads(0, 8), 1);
    assert_eq!(clamp_threads(1, 8), 1);
    assert_eq!(clamp_threads(4, 8), 4);
    assert_eq!(clamp_threads(8, 8), 8);
    assert_eq!(clamp_threads(9, 8), 8);
    assert_eq!(clamp_threads(usize::MAX, 1), 1);
    assert_eq!(clamp_threads(3, 0), 1);
}

#[test]
fn a_complete_run_sums_up_to_the_whole_image() {
    let mut program = program((5, 4), 21, 1, Colorizer::Palette);
    program.begin();
    assert!(!program.is_complete());
    while program.next_window().is_some() {
        assert!(!program.is_complete());
        program.run_singlethreaded();
        program.advance();
    }
    assert!(program.is_complete());
    let info = program.finish(Duration::from_millis(1500));
    assert_eq!(info.bytes, 60);
    assert_eq!(info.elapsed, Duration::from_millis(1500));
}

#[test]
fn render_all_returns_the_image() {
    let mut palette = program((5, 4), 21, 1, Colorizer::Palette);
    assert_eq!(palette.render_all(), PALETTE_IMAGE.to_vec());
    assert!(palette.is_complete());
    assert_eq!(palette.offset(), 60);
    let mut gray = program((5, 4), 3, 4, Colorizer::Grayscale);
    assert_eq!(gray.render_all(), GRAY_IMAGE.to_vec());
}

#[test]
fn render_all_gives_what_a_driven_run_gives() {
    for buf_size in [3usize, 9, 21, 60, 600] {
        for threads in [1usize, 8] {
            let driven = run(&mut program((5, 4), buf_size, threads, Colorizer::Palette));
            let at_once = program((5, 4), buf_size, threads, Colorizer::Palette).render_all();
            assert_eq!(driven.bytes, at_once);
        }
    }
}

#[test]
fn chunk_by_chunk_fills_the_window_as_one_go_does() {
    for colorizer in [Colorizer::Grayscale, Colorizer::Palette] {
        let bpp = colorizer.bytes_per_pixel();
        for threads in [1usize, 2, 3, 8, 50] {
            for pixels in [1usize, 4, 7, 20] {
                let mut whole = program((5, 4), pixels * bpp, threads, colorizer);
                let mut chunked = program((5, 4), pixels * bpp, threads, colorizer);
                whole.begin();
                chunked.begin();
                while whole.next_window().is_some() {
                    assert!(chunked.next_window().is_some());
                    let at_once = whole.run_singlethreaded();
                    let in_chunks = chunked.run_in_chunks();
                    assert_eq!(at_once, in_chunks);
                    assert_eq!(whole.window_bytes(), chunked.window_bytes());
                    whole.advance();
                    chunked.advance();
                }
                assert!(chunked.next_window().is_none());
            }
        }
    }
}

#[test]
fn workers_and_chunk_by_chunk_agree() {
    let mut shared = program((16, 9), 3 * 50, 8, Colorizer::Palette);
    let mut chunked = program((16, 9), 3 * 50, 8, Colorizer::Palette);
    shared.begin();
    chunked.begin();
    let mut reports = Vec::new();
    while shared.next_window().is_some() {
        chunked.next_window();
        fill_with_workers(&mut shared, &mut reports);
        chunked.run_in_chunks();
        assert_eq!(shared.window_bytes(), chunked.window_bytes());
        shared.advance();
        chunked.advance();
    }
}
