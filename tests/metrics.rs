use ejf_font_generator::metrics::{
    glyph_extent, metrics_from_extents, metrics_from_font_values, GlyphExtent,
};
use ejf_font_generator::raster::RasterGlyph;

#[test]
fn font_values_scale_and_shift() {
    // y_scale 1.0: ascender 1901 units = 1901/64 px, descender -483 = 483/64 px.
    let m = metrics_from_font_values(1901, -483, 0x1_0000);
    assert_eq!(m.ascent, 29);
    assert_eq!(m.descent, 7);
    assert_eq!(m.height, 36);
    // y_scale 0.5
    let m = metrics_from_font_values(1901, -483, 0x8000);
    assert_eq!(m.ascent, 14);
    assert_eq!(m.descent, 3);
    assert_eq!(m.height, 17);
}

#[test]
fn font_values_never_negative() {
    let m = metrics_from_font_values(-640, 640, 0x1_0000);
    assert_eq!(m.ascent, 0);
    assert_eq!(m.descent, 0);
    assert_eq!(m.height, 0);
    let m = metrics_from_font_values(i16::MAX, i16::MIN, i64::MAX);
    assert_eq!(m.ascent, u16::MAX);
    assert_eq!(m.descent, u16::MAX);
    assert_eq!(m.height, m.ascent as u32 + m.descent as u32);
}

#[test]
fn extents_take_the_largest() {
    let es = vec![
        GlyphExtent { height: 10, top: 8 },
        GlyphExtent { height: 7, top: 9 },
        GlyphExtent { height: 12, top: 5 },
        GlyphExtent { height: 3, top: -2 },
    ];
    let m = metrics_from_extents(&es);
    assert_eq!(m.ascent, 9);
    assert_eq!(m.descent, 7);
    assert_eq!(m.height, 16);
    let none = metrics_from_extents(&Vec::new());
    assert_eq!((none.ascent, none.descent, none.height), (0, 0, 0));
}

#[test]
fn extent_rounds_height_down() {
    let g = RasterGlyph {
        width: 0,
        rows: 0,
        pitch: 0,
        buffer: Vec::new(),
        top: 4,
        metrics_height: 650,
        metrics_width: 0,
        bearing_x: 0,
        advance: 0,
    };
    let e = glyph_extent(&g);
    assert_eq!((e.height, e.top), (10, 4));
    let g2 = RasterGlyph { metrics_height: -1, ..g };
    assert_eq!(glyph_extent(&g2).height, -1);
}
