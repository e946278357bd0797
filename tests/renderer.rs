use ejf_font_generator::errors::BuildError;
use ejf_font_generator::raster::RasterGlyph;
use ejf_font_generator::renderer::{
    expand_to_rgb, get_pixels, glyph_png, render_glyph, GlyphCanvas, RenderConfig,
};

fn glyph(width: i32, rows: i32, buffer: Vec<u8>) -> RasterGlyph {
    RasterGlyph {
        width,
        rows,
        pitch: width,
        buffer,
        top: 0,
        metrics_height: 0,
        metrics_width: 0,
        bearing_x: 0,
        advance: 0,
    }
}

#[test]
fn pixels_are_placed_and_inverted() {
    // 2x2 bitmap, one column left, one right, 3 rows, top row at row 1.
    let g = glyph(2, 2, vec![0, 255, 128, 10]);
    let c = get_pixels(&g, 3, 1, 1, 1);
    assert_eq!((c.width, c.height), (4, 3));
    assert_eq!(
        c.pixels,
        vec![
            255, 255, 255, 255, //
            255, 255, 0, 255, //
            255, 127, 245, 255,
        ]
    );
}

#[test]
fn rows_outside_the_canvas_are_clipped() {
    let g = glyph(1, 3, vec![100, 200, 50]);
    let above = get_pixels(&g, 2, 0, 0, -1);
    assert_eq!(above.pixels, vec![55, 205]);
    let below = get_pixels(&g, 2, 0, 0, 1);
    assert_eq!(below.pixels, vec![255, 155]);
    let far = get_pixels(&g, 2, 0, 0, 40);
    assert_eq!(far.pixels, vec![255, 255]);
    let far_up = get_pixels(&g, 2, 0, 0, -40);
    assert_eq!(far_up.pixels, vec![255, 255]);
}

#[test]
fn zero_width_glyph_gets_one_column() {
    let g = glyph(0, 0, Vec::new());
    let c = get_pixels(&g, 5, 0, 0, 0);
    assert_eq!(c.width, 1);
    assert_eq!(c.pixels, vec![255; 5]);
}

#[test]
fn padded_rows_follow_the_pitch() {
    let mut g = glyph(1, 2, vec![10, 99, 20, 99]);
    g.pitch = 2;
    let c = get_pixels(&g, 2, 0, 0, 0);
    assert_eq!(c.pixels, vec![245, 235]);
}

#[test]
fn short_buffer_reads_as_no_ink() {
    let g = glyph(2, 2, vec![40]);
    let c = get_pixels(&g, 2, 0, 0, 0);
    assert_eq!(c.pixels, vec![215, 255, 255, 255]);
}

#[test]
fn spacing_comes_from_bearing_unless_configured() {
    let mut g = glyph(1, 1, vec![255]);
    g.bearing_x = 128; // 2 px
    g.metrics_width = 64; // 1 px
    g.advance = 384; // 6 px: 3 px remain on the right
    g.top = 1;
    let config = RenderConfig { total_height: 2, left_spacing: None, right_spacing: None, max_ascent: 1 };
    let c = render_glyph(&g, &config).unwrap();
    assert_eq!(c.width, 6);
    assert_eq!(c.pixels, vec![255, 255, 0, 255, 255, 255, 255, 255, 255, 255, 255, 255]);
    let fixed = RenderConfig { left_spacing: Some(0), right_spacing: Some(1), ..config };
    let c = render_glyph(&g, &fixed).unwrap();
    assert_eq!(c.width, 2);
    assert_eq!(c.pixels, vec![0, 255, 255, 255]);
}

#[test]
fn negative_and_huge_bearings_are_clamped() {
    let mut g = glyph(1, 1, vec![0]);
    g.bearing_x = -130;
    g.metrics_width = 64;
    g.advance = -64;
    let config = RenderConfig { total_height: 1, left_spacing: None, right_spacing: None, max_ascent: 0 };
    assert_eq!(render_glyph(&g, &config).unwrap().width, 1);
    g.bearing_x = 64 * 1000;
    g.advance = 64 * 3000;
    assert_eq!(render_glyph(&g, &config).unwrap().width, 255 + 1 + 255);
}

#[test]
fn baseline_offset_uses_max_ascent() {
    let mut g = glyph(1, 1, vec![255]);
    g.top = 2;
    let config = RenderConfig { total_height: 4, left_spacing: Some(0), right_spacing: Some(0), max_ascent: 3 };
    let c = render_glyph(&g, &config).unwrap();
    assert_eq!(c.pixels, vec![255, 0, 255, 255]);
}

#[test]
fn oversized_canvas_is_refused() {
    let g = glyph(i32::MAX, 0, Vec::new());
    let config = RenderConfig {
        total_height: u32::MAX,
        left_spacing: Some(0),
        right_spacing: Some(0),
        max_ascent: 0,
    };
    assert!(matches!(render_glyph(&g, &config), Err(BuildError::CanvasTooLarge)));
}

#[test]
fn rgb_repeats_each_pixel() {
    assert_eq!(expand_to_rgb(&vec![1, 2]), vec![1, 1, 1, 2, 2, 2]);
    assert_eq!(expand_to_rgb(&Vec::new()), Vec::<u8>::new());
}

#[test]
fn png_holds_the_canvas() {
    let canvas = GlyphCanvas { width: 2, height: 2, pixels: vec![0, 64, 128, 255] };
    let png = glyph_png(&canvas).unwrap();
    assert_eq!(&png[1..4], b"PNG");
    let img = image::load_from_memory_with_format(&png, image::ImageFormat::Png).unwrap().to_rgb8();
    assert_eq!(img.dimensions(), (2, 2));
    assert_eq!(img.into_raw(), vec![0, 0, 0, 64, 64, 64, 128, 128, 128, 255, 255, 255]);
}

#[test]
fn png_of_a_canvas_without_rows_fails() {
    let canvas = GlyphCanvas { width: 3, height: 0, pixels: Vec::new() };
    assert!(matches!(glyph_png(&canvas), Err(BuildError::ImageError(_))));
}
