use mandelbrot::color::Colorizer;
use mandelbrot::complex::Complex;
use mandelbrot::grayscale_encoder::GrayscaleEncoder;
use mandelbrot::image_header::{ColorType, ImageHeader, BIT_DEPTH};
use mandelbrot::mandelbrot_renderer::MandelbrotRenderer;
use mandelbrot::render_info::RenderInfo;
use mandelbrot::render_program::RenderProgram;
use mandelbrot::rgb_encoder::RGBEncoder;
use std::io::Write;
use std::time::Duration;

fn encode(header: &ImageHeader, colorizer: Colorizer, buf_size: usize) -> Vec<u8> {
    let mut file: Vec<u8> = Vec::new();
    {
        let mut encoder = png::Encoder::new(&mut file, header.width, header.height);
        encoder.set_color(match header.color {
            ColorType::Grayscale => png::ColorType::Grayscale,
            ColorType::Rgb => png::ColorType::Rgb,
        });
        assert_eq!(header.bit_depth, 8);
        encoder.set_depth(png::BitDepth::Eight);
        let mut writer = encoder.write_header().unwrap();
        let mut stream = writer.stream_writer_with_size(buf_size).unwrap();
        let renderer: MandelbrotRenderer<f64> = MandelbrotRenderer::new(
            (header.width as usize, header.height as usize),
            (Complex::new(-2.23845, 1.2), Complex::new(0.83845, -1.2)),
            40,
        );
        let mut program = RenderProgram::new(renderer, buf_size, 1);
        program.color_pixel(colorizer);
        program.begin();
        while program.next_window().is_some() {
            program.run_singlethreaded();
            stream.write_all(program.window_bytes()).unwrap();
            program.advance();
        }
        stream.flush().unwrap();
        stream.finish().unwrap();
    }
    file
}

fn decode(file: &[u8]) -> (png::OutputInfo, Vec<u8>) {
    let decoder = png::Decoder::new(file);
    let mut reader = decoder.read_info().unwrap();
    let mut pixels = vec![0u8; reader.output_buffer_size()];
    let info = reader.next_frame(&mut pixels).unwrap();
    pixels.truncate(info.buffer_size());
    (info, pixels)
}

#[test]
fn grayscale_header() {
    let header = GrayscaleEncoder::new((640, 480));
    assert_eq!(
        header,
        ImageHeader { width: 640, height: 480, color: ColorType::Grayscale, bit_depth: 8 }
    );
}

#[test]
fn rgb_header() {
    let header = RGBEncoder::new((5, 4));
    assert_eq!(header, ImageHeader { width: 5, height: 4, color: ColorType::Rgb, bit_depth: 8 });
}

#[test]
fn header_of_any_layout() {
    assert_eq!(BIT_DEPTH, 8);
    assert_eq!(ImageHeader::new((7, 9), ColorType::Rgb), RGBEncoder::new((7, 9)));
    assert_eq!(ImageHeader::new((7, 9), ColorType::Grayscale), GrayscaleEncoder::new((7, 9)));
    let largest = ImageHeader::new((u32::MAX as usize, 1), ColorType::Grayscale);
    assert_eq!(largest.width, u32::MAX);
    assert_eq!(largest.height, 1);
}

#[test]
fn samples_match_the_bytes_of_a_pixel() {
    assert_eq!(ColorType::Grayscale.samples(), 1);
    assert_eq!(ColorType::Rgb.samples(), 3);
    for colorizer in [
        Colorizer::Blank,
        Colorizer::Grayscale,
        Colorizer::Palette,
        Colorizer::Table([[9u8; 3]; 16]),
    ] {
        assert_eq!(colorizer.color_type().samples(), colorizer.bytes_per_pixel());
    }
    assert_eq!(Colorizer::Grayscale.color_type(), ColorType::Grayscale);
    assert_eq!(Colorizer::Palette.color_type(), ColorType::Rgb);
    assert_eq!(Colorizer::Blank.color_type(), ColorType::Rgb);
}

#[test]
fn an_rgb_image_streamed_in_windows_decodes_to_its_bytes() {
    let header = RGBEncoder::new((5, 4));
    let mut whole = vec![0u8; 60];
    let renderer: MandelbrotRenderer<f64> = MandelbrotRenderer::new(
        (5, 4),
        (Complex::new(-2.23845, 1.2), Complex::new(0.83845, -1.2)),
        40,
    );
    renderer.render(&mut whole, 0, Colorizer::Palette);
    for buf_size in [3usize, 21, 60, 600] {
        let (info, pixels) = decode(&encode(&header, Colorizer::Palette, buf_size));
        assert_eq!((info.width, info.height), (5, 4));
        assert!(info.color_type == png::ColorType::Rgb);
        assert!(info.bit_depth == png::BitDepth::Eight);
        assert_eq!(pixels, whole);
    }
}

#[test]
fn a_grayscale_image_streamed_in_windows_decodes_to_its_bytes() {
    let header = GrayscaleEncoder::new((5, 4));
    let (info, pixels) = decode(&encode(&header, Colorizer::Grayscale, 7));
    assert_eq!((info.width, info.height), (5, 4));
    assert!(info.color_type == png::ColorType::Grayscale);
    assert_eq!(
        pixels,
        vec![249, 249, 236, 236, 243, 249, 236, 230, 0, 185, 249, 0, 0, 0, 0, 249, 236, 230, 0, 185]
    );
}

#[test]
fn render_info_holds_time_and_bytes() {
    let info = RenderInfo::new(Duration::from_millis(61_234), 921_600);
    assert_eq!(info.bytes, 921_600);
    assert_eq!(info.elapsed, Duration::from_millis(61_234));
    assert_eq!(info.elapsed.as_secs() / 60, 1);
    assert_eq!(info.elapsed.as_secs() % 60, 1);
    assert_eq!(info.elapsed.as_millis() % 1000, 234);
}
