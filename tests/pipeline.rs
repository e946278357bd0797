use std::io::Read;

use ejf_font_generator::ejf::{build_ejf_archive, char_size_and_dpi, EjfConfig};
use ejf_font_generator::errors::BuildError;
use ejf_font_generator::metrics::{determine_metrics_from_font, determine_metrics_from_render};
use ejf_font_generator::renderer::{render_single_character, RenderConfig};

const FONT: &str = "/usr/share/fonts/truetype/dejavu/DejaVuSans.ttf";

fn config(output: &str, range: &str, add_null: Option<bool>) -> EjfConfig {
    EjfConfig {
        input: FONT.to_string(),
        output: output.to_string(),
        size: 16,
        char_range: range.to_string(),
        skip_control_characters: true,
        add_null_character: add_null,
        dpi: None,
        left_spacing: None,
        right_spacing: None,
    }
}

fn entries(bytes: Vec<u8>) -> Vec<(String, Vec<u8>)> {
    let mut archive = zip::ZipArchive::new(std::io::Cursor::new(bytes)).unwrap();
    let mut out = Vec::new();
    for i in 0..archive.len() {
        let mut file = archive.by_index(i).unwrap();
        assert_eq!(file.compression(), zip::CompressionMethod::Stored);
        let mut data = Vec::new();
        file.read_to_end(&mut data).unwrap();
        out.push((file.name().to_string(), data));
    }
    out
}

#[test]
fn build_writes_two_entries_per_character_and_header() {
    let library = freetype::Library::init().unwrap();
    let face = library.new_face(FONT, 0).unwrap();
    let calls = std::cell::RefCell::new(Vec::new());
    let (result, bytes) = build_ejf_archive(&config("out/Sans.ejf", "0x41-0x43", None), &face, |p| {
        calls.borrow_mut().push(p)
    })
    .unwrap();
    assert_eq!(result.name, "Sans");
    assert!(result.height > 0);
    assert_eq!(*calls.borrow(), vec![(1, 2), (2, 2)]);
    let e = entries(bytes);
    let names: Vec<&str> = e.iter().map(|(n, _)| n.as_str()).collect();
    assert_eq!(names, vec!["0x41", "design_0x41", "0x42", "design_0x42", "Header"]);
    assert_eq!(e[0].1, e[1].1);
    assert_eq!(e[2].1, e[3].1);
    assert_ne!(e[0].1, e[2].1);
    let img = image::load_from_memory_with_format(&e[0].1, image::ImageFormat::Png).unwrap();
    assert_eq!(img.height(), result.height);
    let header = String::from_utf8(e[4].1.clone()).unwrap();
    assert_eq!(header.matches("<Character ").count(), 2);
    assert!(header.contains("Index=\"0x41\""));
    assert!(header.contains("Index=\"0x42\""));
    assert!(!header.contains("Index=\"0x43\""));
    assert!(header.contains(&format!("Height=\"{}\"", result.height)));
    assert!(header.contains("Name=\"Sans\""));
}

#[test]
fn build_puts_null_character_first() {
    let library = freetype::Library::init().unwrap();
    let face = library.new_face(FONT, 0).unwrap();
    let (_, bytes) = build_ejf_archive(&config("Mono.ejf", "0x41", Some(true)), &face, |_| {}).unwrap();
    let e = entries(bytes);
    let names: Vec<&str> = e.iter().map(|(n, _)| n.as_str()).collect();
    assert_eq!(names, vec!["0x0", "design_0x0", "0x41", "design_0x41", "Header"]);
}

#[test]
fn build_is_repeatable_across_outputs() {
    let library = freetype::Library::init().unwrap();
    let face = library.new_face(FONT, 0).unwrap();
    let (r1, first) = build_ejf_archive(&config("a/one.ejf", "0x61-0x64", None), &face, |_| {}).unwrap();
    let (r2, second) = build_ejf_archive(&config("b/two.ejf", "0x61-0x64", None), &face, |_| {}).unwrap();
    assert_eq!(r1.height, r2.height);
    let e1 = entries(first);
    let e2 = entries(second);
    assert_eq!(e1.len(), e2.len());
    for i in 0..6 {
        assert_eq!(e1[i], e2[i]);
    }
}

#[test]
fn build_reports_bad_range_and_bad_name() {
    let library = freetype::Library::init().unwrap();
    let face = library.new_face(FONT, 0).unwrap();
    match build_ejf_archive(&config("x.ejf", "0x41-zz", None), &face, |_| {}) {
        Err(BuildError::RangeParseError(e)) => assert_eq!(e.input, "zz"),
        other => panic!("unexpected {:?}", other.map(|r| r.0)),
    }
    match build_ejf_archive(&config("fonts/..", "0x41", None), &face, |_| {}) {
        Err(BuildError::NameError) => {},
        other => panic!("unexpected {:?}", other.map(|r| r.0)),
    }
}

#[test]
fn metrics_strategies_keep_height_the_sum() {
    let library = freetype::Library::init().unwrap();
    let face = library.new_face(FONT, 0).unwrap();
    face.set_char_size(16 * 64, 0, 72, 0).unwrap();
    let m = determine_metrics_from_font(&face).unwrap();
    assert_eq!(m.height, m.ascent as u32 + m.descent as u32);
    assert!(m.ascent > 0 && m.descent > 0);
    let r = determine_metrics_from_render(&face, &['A', 'g', 'y']).unwrap();
    assert_eq!(r.height, r.ascent as u32 + r.descent as u32);
    assert!(r.ascent > 0 && r.descent > 0);
}

#[test]
fn single_character_canvas_has_the_configured_height() {
    let library = freetype::Library::init().unwrap();
    let face = library.new_face(FONT, 0).unwrap();
    face.set_char_size(16 * 64, 0, 72, 0).unwrap();
    let config = RenderConfig { total_height: 19, left_spacing: Some(1), right_spacing: Some(2), max_ascent: 15 };
    let c = render_single_character(&face, 'W', config).unwrap();
    assert_eq!(c.height, 19);
    assert_eq!(c.pixels.len(), (c.width * c.height) as usize);
    assert!(c.pixels.iter().any(|p| *p < 128));
    assert!(c.pixels.iter().any(|p| *p == 255));
}

#[test]
fn size_and_resolution_handed_to_the_engine() {
    let mut c = config("x.ejf", "0x41", None);
    assert_eq!(char_size_and_dpi(&c), (16 * 64, 72));
    c.dpi = Some(96);
    c.size = 0;
    assert_eq!(char_size_and_dpi(&c), (0, 96));
}

#[test]
fn rendered_metrics_of_no_characters_are_zero() {
    let library = freetype::Library::init().unwrap();
    let face = library.new_face(FONT, 0).unwrap();
    let m = determine_metrics_from_render(&face, &[]).unwrap();
    assert_eq!((m.ascent, m.descent, m.height), (0, 0, 0));
}
