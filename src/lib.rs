//! Converts an outline font into a bitmap-font container: resolves a descriptor of
//! character codes, derives the shared vertical metrics, paints each glyph on a canvas
//! of fixed height, and writes the glyph images with a header into a zip archive.

pub mod char_range;
pub mod container;
pub mod ejf;
pub mod errors;
pub mod header;
pub mod metrics;
pub mod raster;
pub mod renderer;
pub mod text;

pub use char_range::{char_range, parse_char, parse_single_charcode, ParseError};
pub use ejf::{build_ejf_archive, get_font_name, EjfConfig, EjfResult};
pub use errors::BuildError;
pub use header::{write_header, HeaderInfo};
pub use metrics::{determine_metrics_from_font, determine_metrics_from_render, Metrics};
pub use renderer::{get_pixels, render_single_character, GlyphCanvas, RenderConfig};
