use vstd::prelude::*;

use crate::char_range::ParseError;

verus! {

#[verifier::external_type_specification]
#[verifier::external_body]
pub struct ExXmlError(quick_xml::Error);

#[verifier::external_type_specification]
#[verifier::external_body]
pub struct ExZipError(zip::result::ZipError);

#[verifier::external_type_specification]
#[verifier::external_body]
pub struct ExIoError(std::io::Error);

#[verifier::external_type_specification]
#[verifier::external_body]
pub struct ExImageError(image::ImageError);

#[verifier::external_type_specification]
#[verifier::external_body]
pub struct ExFreeTypeError(freetype::Error);

/// Why building a font failed.
#[derive(Debug)]
pub enum BuildError {
    /// Writing the XML header of the font failed.
    XmlWriterError(quick_xml::Error),
    /// Writing the zip container of the font failed.
    ZipWriterError(zip::result::ZipError),
    /// Reading or writing the font's bytes failed.
    IoError(std::io::Error),
    /// The output path names no file whose stem could name the font.
    NameError,
    /// Encoding the image of a character failed.
    ImageError(image::ImageError),
    /// The FreeType engine failed to start, to open the font, or to render a character.
    FreeTypeError(freetype::Error),
    /// The list of characters to import could not be read.
    RangeParseError(ParseError),
    /// The font gives no metrics to size the characters with.
    MetricsError,
    /// The canvas of a character would hold more pixels than memory can address.
    CanvasTooLarge,
}

} // verus!
