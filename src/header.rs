use vstd::prelude::*;

use quick_xml::events::{BytesEnd, BytesStart, Event};
use quick_xml::Writer;
use vstd::string::*;
use vstd::utf8::encode_utf8;

use crate::text::{code_name, code_string, decimal_string, decimal_text};

verus! {

/// What the header of a font describes.
#[derive(Debug)]
pub struct HeaderInfo {
    /// The characters of the font, in order.
    pub chars: Vec<char>,
    /// Height of every character's canvas, in pixels.
    pub height: u32,
    /// Name of the font.
    pub name: String,
}

/// Which of the three tags of an element.
#[derive(Debug, PartialEq, Eq, Structural, Clone, Copy)]
pub enum TagKind {
    /// `<name ...>`
    Start,
    /// `<name .../>`
    Empty,
    /// `</name>`
    End,
}

/// One XML tag: its kind, the element's name, and the attributes in order.
#[derive(Debug)]
pub struct XmlTag {
    pub kind: TagKind,
    pub name: String,
    pub attributes: Vec<(String, String)>,
}

/// A tag as plain values.
pub type TagView = (TagKind, Seq<char>, Seq<(Seq<char>, Seq<char>)>);

pub open spec fn attributes_view(a: Seq<(String, String)>) -> Seq<(Seq<char>, Seq<char>)> {
    a.map_values(|p: (String, String)| (p.0@, p.1@))
}

impl View for XmlTag {
    type V = TagView;

    open spec fn view(&self) -> TagView {
        (self.kind, self.name@, attributes_view(self.attributes@))
    }
}

pub open spec fn tags_view(tags: Seq<XmlTag>) -> Seq<TagView> {
    tags.map_values(|t: XmlTag| t@)
}

/// A character of an attribute value as XML writes it: the five special characters as
/// entities, any other as itself.
pub open spec fn escaped_char(c: char) -> Seq<char> {
    if c == '<' {
        "&lt;"@
    } else if c == '>' {
        "&gt;"@
    } else if c == '\'' {
        "&apos;"@
    } else if c == '&' {
        "&amp;"@
    } else if c == '"' {
        "&quot;"@
    } else {
        seq![c]
    }
}

/// An attribute value as XML writes it.
pub open spec fn escape_text(s: Seq<char>) -> Seq<char>
    decreases s.len(),
{
    if s.len() == 0 {
        Seq::empty()
    } else {
        escape_text(s.drop_last()) + escaped_char(s.last())
    }
}

/// The attributes of a tag, each as ` key="value"` with the value escaped.
pub open spec fn attributes_text(attributes: Seq<(Seq<char>, Seq<char>)>) -> Seq<char>
    decreases attributes.len(),
{
    if attributes.len() == 0 {
        Seq::empty()
    } else {
        let a = attributes.last();
        attributes_text(attributes.drop_last()) + seq![' '] + a.0 + seq!['=', '"'] + escape_text(
            a.1,
        ) + seq!['"']
    }
}

/// The text of one tag: `<name attributes>`, `<name attributes/>` or `</name>`.
pub open spec fn tag_text(
    kind: TagKind,
    name: Seq<char>,
    attributes: Seq<(Seq<char>, Seq<char>)>,
) -> Seq<char> {
    match kind {
        TagKind::Start => seq!['<'] + name + attributes_text(attributes) + seq!['>'],
        TagKind::Empty => seq!['<'] + name + attributes_text(attributes) + seq!['/', '>'],
        TagKind::End => seq!['<', '/'] + name + seq!['>'],
    }
}

/// Relies on quick_xml's `Writer::write_event`, on a writer without indentation over an
/// empty buffer: the UTF-8 bytes of one tag. Names and keys go as they are; values are
/// escaped (`Attribute::from` on a pair of `&str`); an end tag takes the name only. The
/// writer only calls `write_all` on a `Vec`, which does not fail, so neither does this.
#[verifier::external_body]
fn xml_tag_bytes(tag: &XmlTag) -> (r: Result<Vec<u8>, quick_xml::Error>)
    ensures
        r is Ok,
        r matches Ok(bytes) ==> bytes@ == encode_utf8(tag_text(tag@.0, tag@.1, tag@.2)),
{
    let mut start = BytesStart::new(tag.name.as_str());
    start.extend_attributes(tag.attributes.iter().map(|(k, v)| (k.as_str(), v.as_str())));
    let event = match tag.kind {
        TagKind::Start => Event::Start(start),
        TagKind::Empty => Event::Empty(start),
        TagKind::End => Event::End(BytesEnd::new(tag.name.as_str())),
    };
    let mut writer = Writer::new(Vec::new());
    writer.write_event(event)?;
    Ok(writer.into_inner())
}

/// The bytes of a sequence of tags, one after the other.
pub open spec fn tags_text(tags: Seq<TagView>) -> Seq<u8>
    decreases tags.len(),
{
    if tags.len() == 0 {
        Seq::empty()
    } else {
        tags_text(tags.drop_last()) + encode_utf8(
            tag_text(tags.last().0, tags.last().1, tags.last().2),
        )
    }
}

pub open spec fn pair(k: &str, v: Seq<char>) -> (Seq<char>, Seq<char>) {
    (k@, v)
}

/// The `Informations` element: vendor and version.
pub open spec fn informations_tags() -> Seq<TagView> {
    seq![
        (
            TagKind::Empty,
            "Informations"@,
            seq![pair("Vendor", "IS2T"@), pair("Version", "0.8"@)],
        ),
    ]
}

/// The `FontProperties` element: the font's height and name among fixed properties,
/// and its identifier.
pub open spec fn font_properties_tags(height: u32, name: Seq<char>) -> Seq<TagView> {
    seq![
        (
            TagKind::Start,
            "FontProperties"@,
            seq![
                pair("Baseline", "13"@),
                pair("Filter", "u"@),
                pair("Height", decimal_text(height as nat)),
                pair("Name", name),
                pair("Space", "5"@),
                pair("Style", "pu"@),
                pair("Width", "-1"@),
            ],
        ),
        (TagKind::Empty, "Identifier"@, seq![pair("Value", "34"@)]),
        (TagKind::End, "FontProperties"@, Seq::empty()),
    ]
}

/// The `Character` element of one character: its code, and no extra space around it.
pub open spec fn character_tag(c: char) -> TagView {
    (
        TagKind::Empty,
        "Character"@,
        seq![pair("Index", code_name(c)), pair("LeftSpace", "0"@), pair("RightSpace", "0"@)],
    )
}

/// The `FontCharacterProperties` element: one `Character` element per character, in order.
pub open spec fn character_properties_tags(chars: Seq<char>) -> Seq<TagView> {
    seq![(TagKind::Start, "FontCharacterProperties"@, Seq::empty())] + chars.map_values(
        |c: char| character_tag(c),
    ) + seq![(TagKind::End, "FontCharacterProperties"@, Seq::empty())]
}

/// The whole header: a `FontGenerator` element around the three others.
pub open spec fn header_tags(chars: Seq<char>, height: u32, name: Seq<char>) -> Seq<TagView> {
    seq![(TagKind::Start, "FontGenerator"@, Seq::empty())] + informations_tags()
        + font_properties_tags(height, name) + character_properties_tags(chars) + seq![
        (TagKind::End, "FontGenerator"@, Seq::empty()),
    ]
}

fn attribute(k: &str, v: String) -> (r: (String, String))
    ensures
        r.0@ == k@,
        r.1@ == v@,
{
    (String::from_str(k), v)
}

fn push_tag(out: &mut Vec<XmlTag>, kind: TagKind, name: &str, attributes: Vec<(String, String)>)
    ensures
        tags_view(final(out)@) == tags_view(old(out)@).push(
            (kind, name@, attributes_view(attributes@)),
        ),
{
    let ghost before = out@;
    out.push(XmlTag { kind, name: String::from_str(name), attributes });
    assert(tags_view(out@) =~= tags_view(before).push((kind, name@, attributes_view(attributes@))));
}

fn write_informations(out: &mut Vec<XmlTag>)
    ensures
        tags_view(final(out)@) == tags_view(old(out)@) + informations_tags(),
{
    let mut a: Vec<(String, String)> = Vec::new();
    a.push(attribute("Vendor", String::from_str("IS2T")));
    a.push(attribute("Version", String::from_str("0.8")));
    let ghost before = tags_view(out@);
    push_tag(out, TagKind::Empty, "Informations", a);
    assert(attributes_view(a@) =~= seq![pair("Vendor", "IS2T"@), pair("Version", "0.8"@)]);
    assert(tags_view(out@) =~= before + informations_tags());
}

fn write_font_properties(out: &mut Vec<XmlTag>, data: &HeaderInfo)
    ensures
        tags_view(final(out)@) == tags_view(old(out)@) + font_properties_tags(
            data.height,
            data.name@,
        ),
{
    let ghost before = tags_view(out@);
    let mut a: Vec<(String, String)> = Vec::new();
    a.push(attribute("Baseline", String::from_str("13")));
    a.push(attribute("Filter", String::from_str("u")));
    a.push(attribute("Height", decimal_string(data.height)));
    a.push(attribute("Name", data.name.clone()));
    a.push(attribute("Space", String::from_str("5")));
    a.push(attribute("Style", String::from_str("pu")));
    a.push(attribute("Width", String::from_str("-1")));
    let ghost av = attributes_view(a@);
    push_tag(out, TagKind::Start, "FontProperties", a);
    let mut id: Vec<(String, String)> = Vec::new();
    id.push(attribute("Value", String::from_str("34")));
    let ghost iv = attributes_view(id@);
    push_tag(out, TagKind::Empty, "Identifier", id);
    push_tag(out, TagKind::End, "FontProperties", Vec::new());
    assert(av =~= seq![
        pair("Baseline", "13"@),
        pair("Filter", "u"@),
        pair("Height", decimal_text(data.height as nat)),
        pair("Name", data.name@),
        pair("Space", "5"@),
        pair("Style", "pu"@),
        pair("Width", "-1"@),
    ]);
    assert(iv =~= seq![pair("Value", "34"@)]);
    assert(attributes_view(Seq::<(String, String)>::empty()) =~= Seq::empty());
    assert(tags_view(out@) =~= before + font_properties_tags(data.height, data.name@));
}

fn write_character_properties(out: &mut Vec<XmlTag>, data: &HeaderInfo)
    ensures
        tags_view(final(out)@) == tags_view(old(out)@) + character_properties_tags(
            data.chars@,
        ),
{
    let ghost before = tags_view(out@);
    assert(attributes_view(Seq::<(String, String)>::empty()) =~= Seq::empty());
    push_tag(out, TagKind::Start, "FontCharacterProperties", Vec::new());
    let mut i: usize = 0;
    while i < data.chars.len()
        invariant
            i <= data.chars@.len(),
            tags_view(out@) == before + seq![
                (TagKind::Start, "FontCharacterProperties"@, Seq::<(Seq<char>, Seq<char>)>::empty()),
            ] + data.chars@.take(i as int).map_values(|c: char| character_tag(c)),
        decreases data.chars@.len() - i,
    {
        let c = data.chars[i];
        let mut a: Vec<(String, String)> = Vec::new();
        a.push(attribute("Index", code_string(c)));
        a.push(attribute("LeftSpace", String::from_str("0")));
        a.push(attribute("RightSpace", String::from_str("0")));
        let ghost av = attributes_view(a@);
        let ghost mid = tags_view(out@);
        push_tag(out, TagKind::Empty, "Character", a);
        assert(av =~= seq![pair("Index", code_name(c)), pair("LeftSpace", "0"@), pair("RightSpace", "0"@)]);
        assert(data.chars@.take(i + 1).map_values(|c: char| character_tag(c)) =~= data.chars@.take(
            i as int,
        ).map_values(|c: char| character_tag(c)).push(character_tag(c)));
        i = i + 1;
    }
    assert(data.chars@.take(i as int) =~= data.chars@);
    let ghost mid = tags_view(out@);
    push_tag(out, TagKind::End, "FontCharacterProperties", Vec::new());
    assert(tags_view(out@) =~= before + character_properties_tags(data.chars@));
}

/// The tags of the header document, in order.
pub fn header_layout(data: &HeaderInfo) -> (r: Vec<XmlTag>)
    ensures
        tags_view(r@) == header_tags(data.chars@, data.height, data.name@),
{
    let mut out: Vec<XmlTag> = Vec::new();
    assert(attributes_view(Seq::<(String, String)>::empty()) =~= Seq::empty());
    push_tag(&mut out, TagKind::Start, "FontGenerator", Vec::new());
    write_informations(&mut out);
    write_font_properties(&mut out, data);
    write_character_properties(&mut out, data);
    push_tag(&mut out, TagKind::End, "FontGenerator", Vec::new());
    assert(tags_view(out@) =~= header_tags(data.chars@, data.height, data.name@));
    out
}

/// Writes the header document of a font: a `FontGenerator` element holding the
/// `Informations`, `FontProperties` and `FontCharacterProperties` elements, with no
/// white space between tags. It always succeeds.
pub fn write_header(data: HeaderInfo) -> (r: Result<Vec<u8>, quick_xml::Error>)
    ensures
        r is Ok,
        r matches Ok(bytes) ==> bytes@ == tags_text(
            header_tags(data.chars@, data.height, data.name@),
        ),
{
    let tags = header_layout(&data);
    let mut out: Vec<u8> = Vec::new();
    let mut i: usize = 0;
    while i < tags.len()
        invariant
            i <= tags@.len(),
            tags_view(tags@) == header_tags(data.chars@, data.height, data.name@),
            out@ == tags_text(tags_view(tags@).take(i as int)),
        decreases tags@.len() - i,
    {
        let mut bytes = match xml_tag_bytes(&tags[i]) {
            Ok(b) => b,
            Err(e) => {
                return Err(e);
            },
        };
        assert(tags_view(tags@).take(i + 1).drop_last() =~= tags_view(tags@).take(i as int));
        out.append(&mut bytes);
        i = i + 1;
    }
    assert(tags_view(tags@).take(i as int) =~= tags_view(tags@));
    Ok(out)
}

} // verus!
