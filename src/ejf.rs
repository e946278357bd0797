use vstd::prelude::*;

use vstd::string::*;

use crate::char_range::{char_range, chars_of, resolve_codes, codes_of};
use crate::container::{
    archive_entries, finish_archive, new_archive, start_stored_entry, stored_archive_bytes,
    write_entry_data, ArchiveWriter,
};
use crate::errors::BuildError;
use crate::header::{header_tags, tags_text, write_header, HeaderInfo};
use crate::metrics::{determine_metrics_from_font, font_metrics};
use crate::raster::set_char_size;
use crate::raster::RasterGlyph;
use crate::renderer::{
    canvas_pixels, glyph_canvas_width, glyph_image, glyph_images, glyph_png, left_spacing_of,
    offset_y_of, render_single_character, RenderConfig,
};
use crate::text::{code_name, code_string};

verus! {

broadcast use vstd::string::group_string_axioms;

/// The components of a `/`-separated path, empty ones included.
pub open spec fn split_path(p: Seq<char>) -> Seq<Seq<char>>
    decreases p.len(),
{
    if p.len() == 0 {
        seq![Seq::empty()]
    } else {
        let s = split_path(p.drop_last());
        if p.last() == '/' {
            s.push(Seq::empty())
        } else {
            s.update(s.len() - 1, s.last().push(p.last()))
        }
    }
}

/// Whether a path component stands for nothing: an empty one, or `.`.
pub open spec fn is_skipped_component(c: Seq<char>) -> bool {
    c.len() == 0 || c == seq!['.']
}

/// The last component that stands for something.
pub open spec fn last_component(comps: Seq<Seq<char>>) -> Option<Seq<char>>
    decreases comps.len(),
{
    if comps.len() == 0 {
        None
    } else if is_skipped_component(comps.last()) {
        last_component(comps.drop_last())
    } else {
        Some(comps.last())
    }
}

/// The file name at the end of a path, as `Path::file_name` gives it: none for a path
/// without components, or one that ends in `..`.
pub open spec fn file_name_of(p: Seq<char>) -> Option<Seq<char>> {
    match last_component(split_path(p)) {
        Some(c) => if c == seq!['.', '.'] {
            None
        } else {
            Some(c)
        },
        None => None,
    }
}

/// Position of the last `.` in `s`, or -1 if there is none.
pub open spec fn last_dot(s: Seq<char>) -> int
    decreases s.len(),
{
    if s.len() == 0 {
        -1
    } else if s.last() == '.' {
        s.len() - 1
    } else {
        last_dot(s.drop_last())
    }
}

/// A file name without its extension: the part before the last `.`, unless that `.`
/// opens the name.
pub open spec fn file_stem_of(name: Seq<char>) -> Seq<char> {
    let k = last_dot(name);
    if k > 0 {
        name.take(k)
    } else {
        name
    }
}

/// The name of a font written to `path`: the stem of the path's file name.
pub open spec fn font_name_of(path: Seq<char>) -> Option<Seq<char>> {
    match file_name_of(path) {
        Some(n) => Some(file_stem_of(n)),
        None => None,
    }
}

/// The name of the font written to `output_name`: its file name without the extension
/// (`fonts/Sans.ejf` gives `Sans`). A path with no file name fails with `NameError`.
pub fn get_font_name(output_name: &String) -> (r: Result<String, BuildError>)
    ensures
        font_name_of(output_name@) is None ==> r matches Err(BuildError::NameError),
        font_name_of(output_name@) matches Some(n) ==> r matches Ok(s) && s@ == n,
{
    let text = output_name.as_str();
    let v = chars_of(text);
    let ghost mut done: Seq<Seq<char>> = Seq::empty();
    let mut last: Option<(usize, usize)> = None;
    let mut st: usize = 0;
    let mut i: usize = 0;
    assert(v@.take(0) =~= Seq::<char>::empty());
    assert(v@.subrange(0, 0) =~= Seq::<char>::empty());
    loop
        invariant_except_break
            split_path(v@.take(i as int)) == done.push(v@.subrange(st as int, i as int)),
        invariant
            st <= i <= v@.len(),
            text@ == v@,
            output_name@ == v@,
            match last {
                Some((a, b)) => a <= b <= v@.len() && last_component(done) == Some(
                    v@.subrange(a as int, b as int),
                ),
                None => last_component(done) is None,
            },
        ensures
            split_path(v@) == done,
        decreases v@.len() - i,
    {
        if i == v.len() || v[i] == '/' {
            let ghost comp = v@.subrange(st as int, i as int);
            let skipped = i == st || (i - st == 1 && v[st] == '.');
            proof {
                if i - st == 1 {
                    assert(comp =~= seq![v@[st as int]]);
                    if v@[st as int] == '.' {
                        assert(comp =~= seq!['.']);
                    } else {
                        assert(comp[0] != seq!['.'][0]);
                    }
                } else {
                    assert(comp.len() != seq!['.'].len());
                }
            }
            assert(skipped == is_skipped_component(comp));
            if !skipped {
                last = Some((st, i));
            }
            proof {
                let next = done.push(comp);
                assert(next.drop_last() =~= done);
                if i < v@.len() {
                    assert(v@.take(i + 1).drop_last() =~= v@.take(i as int));
                }
                done = next;
            }
            if i == v.len() {
                assert(v@.take(i as int) =~= v@);
                break;
            }
            st = i + 1;
            assert(v@.subrange(st as int, st as int) =~= Seq::<char>::empty());
        } else {
            assert(v@.take(i + 1).drop_last() =~= v@.take(i as int));
            assert(v@.subrange(st as int, i + 1) =~= v@.subrange(st as int, i as int).push(
                v@[i as int],
            ));
        }
        i = i + 1;
    }
    match last {
        None => Err(BuildError::NameError),
        Some((a, b)) => {
            let ghost name = v@.subrange(a as int, b as int);
            if b - a == 2 && v[a] == '.' && v[a + 1] == '.' {
                assert(name =~= seq!['.', '.']);
                return Err(BuildError::NameError);
            }
            proof {
                assert(name.len() == b - a);
                if b - a == 2 {
                    assert(name[0] == v@[a as int]);
                    assert(name[1] == v@[a + 1]);
                    if name[0] == '.' {
                        assert(name[1] != seq!['.', '.'][1]);
                    } else {
                        assert(name[0] != seq!['.', '.'][0]);
                    }
                } else {
                    assert(name.len() != seq!['.', '.'].len());
                }
            }
            let mut k: usize = b;
            while k > a && v[k - 1] != '.'
                invariant
                    a <= k <= b <= v@.len(),
                    name == v@.subrange(a as int, b as int),
                    last_dot(name) == last_dot(v@.subrange(a as int, k as int)),
                decreases k,
            {
                assert(v@.subrange(a as int, k as int).drop_last() =~= v@.subrange(
                    a as int,
                    k - 1,
                ));
                k = k - 1;
            }
            assert(v@.subrange(a as int, b as int) =~= name);
            let stem = if k - a > 1 {
                assert(last_dot(v@.subrange(a as int, k as int)) == k - 1 - a);
                assert(v@.subrange(a as int, k - 1) =~= name.take(k - 1 - a));
                text.substring_char(a, k - 1)
            } else {
                proof {
                    if k == a + 1 {
                        assert(last_dot(v@.subrange(a as int, k as int)) == 0);
                    } else {
                        assert(v@.subrange(a as int, k as int).len() == 0);
                    }
                }
                text.substring_char(a, b)
            };
            Ok(String::from_str(stem))
        },
    }
}

/// Resolution used when the configuration names none, in dots per inch.
pub const DEFAULT_DPI: u32 = 72;

/// What one font build takes.
#[derive(Debug)]
pub struct EjfConfig {
    /// Path of the outline font to read.
    pub input: String,
    /// Path of the container to write; its file stem names the font.
    pub output: String,
    /// Size of the characters, in points.
    pub size: u32,
    /// Descriptor of the characters to include.
    pub char_range: String,
    /// Whether control characters are left out.
    pub skip_control_characters: bool,
    /// Whether the null character comes first (`None` is no).
    pub add_null_character: Option<bool>,
    /// Resolution, in dots per inch (`None` is `DEFAULT_DPI`).
    pub dpi: Option<u32>,
    /// Pixels left of every glyph, instead of those from its bearing.
    pub left_spacing: Option<u8>,
    /// Pixels right of every glyph, instead of those from its bearing.
    pub right_spacing: Option<u8>,
}

/// What a finished build reports: the height of its canvases and the font's name.
#[derive(Debug)]
pub struct EjfResult {
    pub height: u32,
    pub name: String,
}

/// The name of the duplicate entry of a character: `design_` and its code's name.
pub open spec fn design_name(c: char) -> Seq<char> {
    "design_"@ + code_name(c)
}

/// The two entries of each character, in order: its image under its code's name, then
/// the same bytes under its design name.
pub open spec fn glyph_entries(chars: Seq<char>, pngs: Seq<Seq<u8>>) -> Seq<(Seq<char>, Seq<u8>)>
    decreases chars.len(),
{
    if chars.len() == 0 || pngs.len() == 0 {
        Seq::empty()
    } else {
        glyph_entries(chars.drop_last(), pngs.drop_last()) + seq![
            (code_name(chars.last()), pngs.last()),
            (design_name(chars.last()), pngs.last()),
        ]
    }
}

/// The entries of a whole container: those of the characters, then the header.
pub open spec fn container_entries(
    chars: Seq<char>,
    pngs: Seq<Seq<u8>>,
    height: u32,
    name: Seq<char>,
) -> Seq<(Seq<char>, Seq<u8>)> {
    glyph_entries(chars, pngs) + seq![("Header"@, tags_text(header_tags(chars, height, name)))]
}

proof fn lemma_glyph_entries_len(chars: Seq<char>, pngs: Seq<Seq<u8>>)
    requires
        pngs.len() == chars.len(),
    ensures
        glyph_entries(chars, pngs).len() == 2 * chars.len(),
    decreases chars.len(),
{
    if chars.len() > 0 {
        lemma_glyph_entries_len(chars.drop_last(), pngs.drop_last());
    }
}

/// Containers that differ only in the font's name (so in the output path) differ only in
/// their header: the entries of the characters come first, two per character, and
/// depend on the characters and their images alone.
pub proof fn lemma_name_only_in_header(
    chars: Seq<char>,
    pngs: Seq<Seq<u8>>,
    height: u32,
    first: Seq<char>,
    second: Seq<char>,
)
    requires
        pngs.len() == chars.len(),
    ensures
        container_entries(chars, pngs, height, first).len() == 2 * chars.len() + 1,
        container_entries(chars, pngs, height, first).take(2 * chars.len() as int) == glyph_entries(
            chars,
            pngs,
        ),
        container_entries(chars, pngs, height, first).take(2 * chars.len() as int) == container_entries(
            chars,
            pngs,
            height,
            second,
        ).take(2 * chars.len() as int),
{
    lemma_glyph_entries_len(chars, pngs);
    assert(container_entries(chars, pngs, height, first).take(2 * chars.len() as int) =~= glyph_entries(
        chars,
        pngs,
    ));
    assert(container_entries(chars, pngs, height, second).take(2 * chars.len() as int) =~= glyph_entries(
        chars,
        pngs,
    ));
}

/// Whether `bytes` is the archive of a container for characters with codes `codes`:
/// each character's image is the canvas of a glyph that the engine rendered, laid out
/// on canvases `height` pixels high with the baseline `max_ascent` rows down and the
/// spacing `left`, `right` where configured; then the header with the font name `name`.
pub open spec fn is_container_of(
    bytes: Seq<u8>,
    codes: Seq<u32>,
    left: Option<u8>,
    right: Option<u8>,
    max_ascent: u16,
    height: u32,
    name: Seq<char>,
) -> bool {
    let layout = RenderConfig {
        total_height: height,
        left_spacing: left,
        right_spacing: right,
        max_ascent,
    };
    exists|chars: Seq<char>, glyphs: Seq<RasterGlyph>|
        #![trigger container_entries(chars, glyph_images(glyphs, layout), height, name)]
        codes_of(chars) == codes && glyphs.len() == chars.len() && bytes == stored_archive_bytes(
            container_entries(chars, glyph_images(glyphs, layout), height, name),
        )
}

/// Whether `ascent` and `height` are the metrics that some font-global ascender,
/// descender and y scale give: the ascent, and the ascent and descent together.
pub open spec fn is_font_layout(ascent: u16, height: u32) -> bool {
    exists|a: i16, d: i16, y: i64|
        #[trigger] font_metrics(a as int, d as int, y as int) == (
            ascent as int,
            height - ascent,
        )
}

/// Whether `bytes` is a container as a build writes it: canvases as high as the font's
/// global metrics make them, with the baseline at their ascent.
pub open spec fn is_built_container(
    bytes: Seq<u8>,
    codes: Seq<u32>,
    left: Option<u8>,
    right: Option<u8>,
    height: u32,
    name: Seq<char>,
) -> bool {
    exists|max_ascent: u16|
        is_font_layout(max_ascent, height) && #[trigger] is_container_of(
            bytes,
            codes,
            left,
            right,
            max_ascent,
            height,
            name,
        )
}

/// The character size in 26.6 points and the resolution that a build hands to the
/// rasterizer: `size * 64`, and the configured resolution or `DEFAULT_DPI`.
pub fn char_size_and_dpi(config: &EjfConfig) -> (r: (isize, u32))
    requires
        config.size * 64 <= isize::MAX,
    ensures
        r.0 == config.size * 64,
        r.1 == match config.dpi {
            Some(d) => d,
            None => DEFAULT_DPI,
        },
{
    let dpi = match config.dpi {
        Some(d) => d,
        None => DEFAULT_DPI,
    };
    (config.size as isize * 64, dpi)
}

fn add_entry(zip: &mut ArchiveWriter, name: &str, data: &Vec<u8>) -> (r: Result<(), BuildError>)
    ensures
        r is Ok ==> archive_entries(*final(zip)) == archive_entries(*old(zip)).push(
            (name@, data@),
        ),
        r is Err ==> r matches Err(BuildError::ZipWriterError(_)) || r matches Err(
            BuildError::IoError(_),
        ),
{
    match start_stored_entry(zip, name) {
        Ok(()) => {},
        Err(e) => {
            return Err(BuildError::ZipWriterError(e));
        },
    }
    let ghost started = archive_entries(*zip);
    match write_entry_data(zip, data.as_slice()) {
        Ok(()) => {},
        Err(e) => {
            return Err(BuildError::IoError(e));
        },
    }
    assert(archive_entries(*zip) =~= archive_entries(*old(zip)).push((name@, data@)));
    Ok(())
}

/// Renders every character of `chars` and adds its two entries to the container, in
/// order, reporting `(done, total)` after each character. The first character that
/// fails to render or to encode fails the call.
pub fn write_glyph_entries<F: Fn((usize, usize))>(
    zip: &mut ArchiveWriter,
    face: &freetype::Face,
    chars: &Vec<char>,
    config: &RenderConfig,
    progress_callback: &F,
) -> (r: Result<(), BuildError>)
    requires
        forall|p: (usize, usize)| progress_callback.requires((p,)),
    ensures
        chars@.len() == 0 ==> r is Ok,
        !(r matches Err(BuildError::XmlWriterError(_))),
        r is Ok ==> exists|glyphs: Seq<RasterGlyph>|
            #![trigger glyph_images(glyphs, *config)]
            glyphs.len() == chars@.len() && archive_entries(*final(zip)) == archive_entries(
                *old(zip),
            ) + glyph_entries(chars@, glyph_images(glyphs, *config)),
{
    let ghost mut glyphs: Seq<RasterGlyph> = Seq::empty();
    let ghost base = archive_entries(*zip);
    let mut i: usize = 0;
    assert(chars@.take(0) =~= Seq::<char>::empty());
    assert(glyph_images(glyphs, *config) =~= Seq::empty());
    assert(base + glyph_entries(Seq::empty(), Seq::empty()) =~= base);
    while i < chars.len()
        invariant
            i <= chars@.len(),
            glyphs.len() == i,
            forall|p: (usize, usize)| progress_callback.requires((p,)),
            archive_entries(*zip) == base + glyph_entries(
                chars@.take(i as int),
                glyph_images(glyphs, *config),
            ),
        decreases chars@.len() - i,
    {
        let c = chars[i];
        let canvas = match render_single_character(face, c, *config) {
            Ok(canvas) => canvas,
            Err(e) => {
                return Err(e);
            },
        };
        let png = match glyph_png(&canvas) {
            Ok(png) => png,
            Err(e) => {
                return Err(e);
            },
        };
        let name = code_string(c);
        let mut design = String::from_str("design_");
        design.append(name.as_str());
        let ghost before = archive_entries(*zip);
        match add_entry(zip, name.as_str(), &png) {
            Ok(()) => {},
            Err(e) => {
                return Err(e);
            },
        }
        match add_entry(zip, design.as_str(), &png) {
            Ok(()) => {},
            Err(e) => {
                return Err(e);
            },
        }
        proof {
            let g = choose|g: RasterGlyph|
                canvas.width == glyph_canvas_width(g, *config) && canvas.pixels@
                    == #[trigger] canvas_pixels(
                    g,
                    left_spacing_of(g, *config),
                    offset_y_of(g, *config),
                    canvas.width as int,
                    canvas.height as int,
                );
            assert(png@ == glyph_image(g, *config));
            let next = glyphs.push(g);
            let cs = chars@.take(i + 1);
            assert(cs.drop_last() =~= chars@.take(i as int));
            assert(glyph_images(next, *config) =~= glyph_images(glyphs, *config).push(png@));
            assert(glyph_images(next, *config).drop_last() =~= glyph_images(glyphs, *config));
            assert(cs.last() == c);
            assert(archive_entries(*zip) =~= base + glyph_entries(cs, glyph_images(next, *config)));
            glyphs = next;
        }
        i = i + 1;
        progress_callback((i, chars.len()));
    }
    assert(chars@.take(i as int) =~= chars@);
    Ok(())
}

/// Renders the characters into the container: the two entries of each character, then
/// the header describing them.
pub fn write_container<F: Fn((usize, usize))>(
    zip: &mut ArchiveWriter,
    face: &freetype::Face,
    chars: Vec<char>,
    config: &RenderConfig,
    name: &String,
    progress_callback: &F,
) -> (r: Result<(), BuildError>)
    requires
        forall|p: (usize, usize)| progress_callback.requires((p,)),
    ensures
        !(r matches Err(BuildError::XmlWriterError(_))),
        r is Ok ==> exists|glyphs: Seq<RasterGlyph>|
            #![trigger glyph_images(glyphs, *config)]
            glyphs.len() == chars@.len() && archive_entries(*final(zip)) == archive_entries(
                *old(zip),
            ) + container_entries(
                chars@,
                glyph_images(glyphs, *config),
                config.total_height,
                name@,
            ),
{
    let ghost base = archive_entries(*zip);
    let ghost cs = chars@;
    match write_glyph_entries(zip, face, &chars, config, progress_callback) {
        Ok(()) => {},
        Err(e) => {
            return Err(e);
        },
    }
    let ghost glyphs = choose|glyphs: Seq<RasterGlyph>|
        #![trigger glyph_images(glyphs, *config)]
        glyphs.len() == cs.len() && archive_entries(*zip) == base + glyph_entries(
            cs,
            glyph_images(glyphs, *config),
        );
    let ghost pngs = glyph_images(glyphs, *config);
    let header = match write_header(
        HeaderInfo { chars, height: config.total_height, name: name.clone() },
    ) {
        Ok(h) => h,
        Err(e) => {
            return Err(BuildError::XmlWriterError(e));
        },
    };
    match add_entry(zip, "Header", &header) {
        Ok(()) => {},
        Err(e) => {
            return Err(e);
        },
    }
    assert(archive_entries(*zip) =~= base + container_entries(
        cs,
        pngs,
        config.total_height,
        name@,
    ));
    Ok(())
}

/// Builds a font container in memory: resolves the characters, sizes the face, derives
/// the metrics from the font, then writes every character and the header. Gives back
/// the canvas height and the font's name, with the archive's bytes.
pub fn build_ejf_archive<F: Fn((usize, usize))>(
    config: &EjfConfig,
    face: &freetype::Face,
    progress_callback: F,
) -> (r: Result<(EjfResult, Vec<u8>), BuildError>)
    requires
        config.size * 64 <= isize::MAX,
        forall|p: (usize, usize)| progress_callback.requires((p,)),
    ensures
        !(r matches Err(BuildError::XmlWriterError(_))),
        font_name_of(config.output@) is None ==> r matches Err(BuildError::NameError),
        font_name_of(config.output@) is Some ==> match resolve_codes(
            config.char_range@,
            config.skip_control_characters,
            config.add_null_character == Some(true),
        ) {
            Err(e) => r matches Err(BuildError::RangeParseError(pe)) && pe@ == e,
            Ok(codes) => r matches Ok((res, bytes)) ==> {
                &&& res.name@ == font_name_of(config.output@)->0
                &&& is_built_container(
                    bytes@,
                    codes,
                    config.left_spacing,
                    config.right_spacing,
                    res.height,
                    res.name@,
                )
            },
        },
{
    let font_name = match get_font_name(&config.output) {
        Ok(n) => n,
        Err(e) => {
            return Err(e);
        },
    };
    let chars = match char_range(
        &config.char_range,
        config.skip_control_characters,
        config.add_null_character,
    ) {
        Ok(c) => c,
        Err(e) => {
            return Err(BuildError::RangeParseError(e));
        },
    };
    let (char_width, dpi) = char_size_and_dpi(config);
    match set_char_size(face, char_width, dpi) {
        Ok(()) => {},
        Err(e) => {
            return Err(BuildError::FreeTypeError(e));
        },
    }
    let metrics = match determine_metrics_from_font(face) {
        Ok(m) => m,
        Err(e) => {
            return Err(e);
        },
    };
    let ghost font_values = choose|a: i16, d: i16, y: i64|
        (metrics.ascent as int, metrics.descent as int) == #[trigger] font_metrics(
            a as int,
            d as int,
            y as int,
        );
    let render_config = RenderConfig {
        total_height: metrics.height,
        left_spacing: config.left_spacing,
        right_spacing: config.right_spacing,
        max_ascent: metrics.ascent,
    };
    let mut zip = new_archive();
    let ghost cs = chars@;
    match write_container(&mut zip, face, chars, &render_config, &font_name, &progress_callback) {
        Ok(()) => {},
        Err(e) => {
            return Err(e);
        },
    }
    let ghost glyphs = choose|glyphs: Seq<RasterGlyph>|
        #![trigger glyph_images(glyphs, render_config)]
        glyphs.len() == cs.len() && archive_entries(zip) == Seq::<(Seq<char>, Seq<u8>)>::empty()
            + container_entries(
            cs,
            glyph_images(glyphs, render_config),
            render_config.total_height,
            font_name@,
        );
    let ghost pngs = glyph_images(glyphs, render_config);
    assert(archive_entries(zip) =~= container_entries(cs, pngs, metrics.height, font_name@));
    let bytes = match finish_archive(zip) {
        Ok(b) => b,
        Err(e) => {
            return Err(BuildError::ZipWriterError(e));
        },
    };
    let res = EjfResult { height: metrics.height, name: font_name };
    assert(bytes@ == stored_archive_bytes(container_entries(cs, pngs, res.height, res.name@)));
    assert(render_config == RenderConfig {
        total_height: res.height,
        left_spacing: config.left_spacing,
        right_spacing: config.right_spacing,
        max_ascent: metrics.ascent,
    });
    assert(is_container_of(
        bytes@,
        codes_of(cs),
        config.left_spacing,
        config.right_spacing,
        metrics.ascent,
        res.height,
        res.name@,
    ));
    assert(font_metrics(
        font_values.0 as int,
        font_values.1 as int,
        font_values.2 as int,
    ) == (metrics.ascent as int, res.height - metrics.ascent));
    assert(is_font_layout(metrics.ascent, res.height));
    assert(is_built_container(
        bytes@,
        codes_of(cs),
        config.left_spacing,
        config.right_spacing,
        res.height,
        res.name@,
    ));
    Ok((res, bytes))
}

} // verus!
