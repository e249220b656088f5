use mandelbrot::complex::Complex;
use mandelbrot::mandelbrot_renderer::MandelbrotRenderer;

fn renderer(canvas: (usize, usize), iteration_count: usize) -> MandelbrotRenderer<f64> {
    MandelbrotRenderer::new(
        canvas,
        (Complex::new(-2.23845, 1.2), Complex::new(0.83845, -1.2)),
        iteration_count,
    )
}

#[test]
fn a_point_beyond_the_threshold_escapes_after_the_first_step() {
    let point = Complex::new(2.0, 2.0);
    assert_eq!(point.squared_magnitude(), 8.0);
    for cap in [2usize, 3, 10, 50, 1000] {
        assert_eq!(renderer((4, 3), cap).escape_time(&point), Some(1));
    }
}

#[test]
fn a_point_beyond_the_threshold_is_bounded_under_the_cap_one() {
    assert_eq!(renderer((4, 3), 1).escape_time(&Complex::new(2.0, 2.0)), None);
}

#[test]
fn every_point_is_bounded_under_the_cap_zero() {
    let still = renderer((4, 3), 0);
    assert_eq!(still.escape_time(&Complex::new(2.0, 2.0)), None);
    assert_eq!(still.escape_time(&Complex::new(0.0, 0.0)), None);
    assert_eq!(still.escape_time(&Complex::new(-100.0, 3.0e10)), None);
}

#[test]
fn the_origin_is_bounded() {
    for cap in [0usize, 1, 2, 10, 100, 1000] {
        assert_eq!(renderer((4, 3), cap).escape_time(&Complex::new(0.0, 0.0)), None);
    }
}

#[test]
fn escape_times_of_known_points() {
    assert_eq!(renderer((4, 3), 100).escape_time(&Complex::new(0.5, 0.5)), Some(5));
    assert_eq!(renderer((4, 3), 100).escape_time(&Complex::new(-0.75, 0.1)), Some(33));
    assert_eq!(renderer((4, 3), 10).escape_time(&Complex::new(1.0, 0.0)), Some(3));
    assert_eq!(renderer((4, 3), 1000).escape_time(&Complex::new(0.3, 0.5)), None);
    assert_eq!(renderer((4, 3), 1000).escape_time(&Complex::new(-2.1, 0.0)), Some(1));
}

#[test]
fn a_point_on_the_threshold_has_not_escaped() {
    // The orbit of -2 stays at distance 2 from the origin: 4 is not beyond 4.
    assert_eq!(renderer((4, 3), 1000).escape_time(&Complex::new(-2.0, 0.0)), None);
}

#[test]
fn an_escape_lies_below_the_cap() {
    let point = Complex::new(-0.75, 0.1);
    for cap in 0..60usize {
        match renderer((4, 3), cap).escape_time(&point) {
            Some(i) => {
                assert!(i < cap);
                assert_eq!(i, 33);
            },
            None => assert!(cap <= 33),
        }
    }
}

#[test]
fn columns_run_from_the_left_edge() {
    let view = renderer((4, 3), 50);
    let left = view.map_pixel_to_complex_plane(&(0, 0));
    assert_eq!(left.re, -2.23845);
    let second = view.map_pixel_to_complex_plane(&(1, 1));
    assert_eq!(second.re, -1.4692249999999998);
    let last = view.map_pixel_to_complex_plane(&(3, 2));
    assert_eq!(last.re, 0.06922499999999987);
}

#[test]
fn rows_run_from_the_top_edge() {
    let view = renderer((4, 3), 50);
    let top = view.map_pixel_to_complex_plane(&(0, 0));
    let middle = view.map_pixel_to_complex_plane(&(1, 1));
    let bottom = view.map_pixel_to_complex_plane(&(3, 2));
    assert_eq!(top.im, 1.2);
    assert_eq!(middle.im, 0.4);
    assert_eq!(bottom.im, -0.3999999999999999);
    assert!(top.im > middle.im && middle.im > bottom.im);
}

#[test]
fn the_first_pixel_samples_the_top_left_corner() {
    for canvas in [(1usize, 1usize), (1, 2), (4, 3), (640, 480)] {
        let corner = renderer(canvas, 50).map_pixel_to_complex_plane(&(0, 0));
        assert_eq!(corner.re, -2.23845);
        assert_eq!(corner.im, 1.2);
    }
}

#[test]
fn two_rows_halve_the_height() {
    let view: MandelbrotRenderer<f64> =
        MandelbrotRenderer::new((1, 2), (Complex::new(0.0, 2.0), Complex::new(2.0, 0.0)), 50);
    let upper = view.map_pixel_to_complex_plane(&(0, 0));
    assert_eq!((upper.re, upper.im), (0.0, 2.0));
    let lower = view.map_pixel_to_complex_plane(&(0, 1));
    assert_eq!((lower.re, lower.im), (0.0, 1.0));
}

#[test]
fn the_mapping_is_the_interpolation_from_the_top_left() {
    let (left, top, right, bottom) = (-2.23845f64, 1.2f64, 0.83845f64, -1.2f64);
    let view = renderer((16, 9), 50);
    for row in 0..9usize {
        for column in 0..16usize {
            let point = view.map_pixel_to_complex_plane(&(column, row));
            assert_eq!(point.re, left + (right - left) * column as f64 / 16.0);
            assert_eq!(point.im, top + (bottom - top) * row as f64 / 9.0);
        }
    }
}

#[test]
fn a_rectangle_without_area_maps_every_pixel_to_its_corner() {
    let corner = Complex::new(0.25, -0.5);
    let view: MandelbrotRenderer<f64> = MandelbrotRenderer::new((3, 2), (corner, corner), 20);
    for row in 0..2 {
        for column in 0..3 {
            let point = view.map_pixel_to_complex_plane(&(column, row));
            assert_eq!(point.re, 0.25);
            assert_eq!(point.im, -0.5);
        }
    }
}

#[test]
fn canvas_resolution_is_width_times_height() {
    assert_eq!(renderer((4, 3), 50).get_canvas_resolution(), 12);
    assert_eq!(renderer((1, 1), 50).get_canvas_resolution(), 1);
    assert_eq!(renderer((640, 480), 50).get_canvas_resolution(), 307200);
}

#[test]
fn a_clone_renders_what_the_renderer_does() {
    let first = renderer((4, 3), 100);
    let copy = first.clone();
    let point = Complex::new(0.5, 0.5);
    assert_eq!(copy.escape_time(&point), first.escape_time(&point));
    assert_eq!(copy.get_canvas_resolution(), 12);
}

#[test]
fn whole_numbers_serve_as_scalars() {
    let view: MandelbrotRenderer<u64> =
        MandelbrotRenderer::new((4, 4), (Complex::new(0, 4), Complex::new(4, 0)), 50);
    assert_eq!(view.escape_time(&Complex::new(2, 2)), Some(1));
    assert_eq!(view.escape_time(&Complex::new(0, 0)), None);
    assert_eq!(view.escape_time(&Complex::new(3, 0)), Some(1));
    // 1, 2 and then 5: the orbit of 1 is beyond the threshold at the third step.
    assert_eq!(view.escape_time(&Complex::new(1, 0)), Some(3));
    let corner = view.map_pixel_to_complex_plane(&(0, 0));
    assert_eq!((corner.re, corner.im), (0, 4));
    let lowest = view.map_pixel_to_complex_plane(&(0, 3));
    assert_eq!((lowest.re, lowest.im), (0, 1));
    let inner = view.map_pixel_to_complex_plane(&(3, 1));
    assert_eq!((inner.re, inner.im), (3, 3));
}
