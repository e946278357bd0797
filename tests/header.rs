use ejf_font_generator::header::{write_header, HeaderInfo};
use ejf_font_generator::text::{code_string, decimal_string};

#[test]
fn header_lists_every_character() {
    let bytes = write_header(HeaderInfo { chars: vec!['A', 'B'], height: 20, name: "Sans".to_string() })
        .unwrap();
    let expected = [
        "<FontGenerator>",
        "<Informations Vendor=\"IS2T\" Version=\"0.8\"/>",
        "<FontProperties Baseline=\"13\" Filter=\"u\" Height=\"20\" Name=\"Sans\" Space=\"5\" Style=\"pu\" Width=\"-1\">",
        "<Identifier Value=\"34\"/>",
        "</FontProperties>",
        "<FontCharacterProperties>",
        "<Character Index=\"0x41\" LeftSpace=\"0\" RightSpace=\"0\"/>",
        "<Character Index=\"0x42\" LeftSpace=\"0\" RightSpace=\"0\"/>",
        "</FontCharacterProperties>",
        "</FontGenerator>",
    ]
    .join("");
    assert_eq!(String::from_utf8(bytes).unwrap(), expected);
}

#[test]
fn header_escapes_the_name() {
    let bytes = write_header(HeaderInfo { chars: Vec::new(), height: 0, name: "A&B\"".to_string() })
        .unwrap();
    let text = String::from_utf8(bytes).unwrap();
    assert!(text.contains("Name=\"A&amp;B&quot;\""));
    assert!(text.contains("<FontCharacterProperties></FontCharacterProperties>"));
}

#[test]
fn numbers_are_written_plainly() {
    assert_eq!(decimal_string(0), "0");
    assert_eq!(decimal_string(1234), "1234");
    assert_eq!(decimal_string(u32::MAX), "4294967295");
    assert_eq!(code_string('\0'), "0x0");
    assert_eq!(code_string('A'), "0x41");
    assert_eq!(code_string('\u{10ffff}'), "0x10ffff");
    assert_eq!(code_string('\u{abc}'), "0xabc");
}

#[test]
fn header_for_one_character() {
    let bytes = write_header(HeaderInfo { chars: vec!['A'], height: 16, name: "f".to_string() })
        .unwrap();
    let expected = [
        "<FontGenerator><Informations Vendor=\"IS2T\" Version=\"0.8\"/>",
        "<FontProperties Baseline=\"13\" Filter=\"u\" Height=\"16\" Name=\"f\" Space=\"5\" Style=\"pu\" Width=\"-1\">",
        "<Identifier Value=\"34\"/></FontProperties><FontCharacterProperties>",
        "<Character Index=\"0x41\" LeftSpace=\"0\" RightSpace=\"0\"/>",
        "</FontCharacterProperties></FontGenerator>",
    ]
    .join("");
    assert_eq!(bytes, expected.as_bytes().to_vec());
}
