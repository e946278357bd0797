use ejf_font_generator::char_range::{char_range, parse_char, parse_single_charcode};

fn codes(v: &[char]) -> Vec<u32> {
    v.iter().map(|c| *c as u32).collect()
}

fn resolve(descriptor: &str, skip: bool, add_null: Option<bool>) -> Vec<u32> {
    match char_range(&descriptor.to_string(), skip, add_null) {
        Ok(v) => codes(&v),
        Err(e) => panic!("unexpected error on {}: {}", descriptor, e.message),
    }
}

#[test]
fn single_code_reads_hex() {
    assert_eq!(parse_single_charcode("0x41").unwrap(), 0x41);
    assert_eq!(parse_single_charcode("  0x7e\t").unwrap(), 0x7e);
    assert_eq!(parse_single_charcode("0xFF").unwrap(), 0xff);
    assert_eq!(parse_single_charcode("0x0").unwrap(), 0);
}

#[test]
fn single_code_takes_one_prefix_and_no_sign() {
    let e = parse_single_charcode("0x0x41").unwrap_err();
    assert_eq!(e.input, "0x41");
    assert_eq!(e.message, "Number 0x41 could not be parsed as a hexadecimal number.");
    let e = parse_single_charcode("0x+1f").unwrap_err();
    assert_eq!(e.input, "+1f");
    assert_eq!(parse_single_charcode("0x00041").unwrap(), 0x41);
    assert_eq!(parse_single_charcode("0xffffffff").unwrap(), 0xffff_ffff);
}

#[test]
fn single_code_without_prefix_fails() {
    let e = parse_single_charcode("NN").unwrap_err();
    assert_eq!(e.input, "NN");
    assert_eq!(e.message, "Number NN doesn't start with 0x");
    let e = parse_single_charcode(" 41 ").unwrap_err();
    assert_eq!(e.input, "41");
    assert_eq!(e.message, "Number 41 doesn't start with 0x");
}

#[test]
fn single_code_with_bad_digits_fails() {
    let e = parse_single_charcode("0xZZ").unwrap_err();
    assert_eq!(e.input, "ZZ");
    assert_eq!(e.message, "Number ZZ could not be parsed as a hexadecimal number.");
    let e = parse_single_charcode("0x").unwrap_err();
    assert_eq!(e.input, "");
    assert_eq!(e.message, "Number  could not be parsed as a hexadecimal number.");
    let e = parse_single_charcode("0x100000000").unwrap_err();
    assert_eq!(e.input, "100000000");
    let e = parse_single_charcode("0x+").unwrap_err();
    assert_eq!(e.input, "+");
}

#[test]
fn parse_char_filters() {
    assert_eq!(parse_char(0x41, true), Some('A'));
    assert_eq!(parse_char(0x20, false), None);
    assert_eq!(parse_char(0x0, true), None);
    assert_eq!(parse_char(0x0, false), Some('\0'));
    assert_eq!(parse_char(0x85, true), None);
    assert_eq!(parse_char(0x85, false), Some('\u{85}'));
    assert_eq!(parse_char(0xd800, false), None);
    assert_eq!(parse_char(0x110000, false), None);
    assert_eq!(parse_char(0x1f600, true), Some('\u{1f600}'));
}

#[test]
fn span_excludes_its_end() {
    let expected: Vec<u32> = (0x40..0x50).collect();
    assert_eq!(resolve("0x40-0x50", true, None), expected);
    assert!(!resolve("0x40-0x50", true, None).contains(&0x50));
}

#[test]
fn single_token_gives_one_code() {
    assert_eq!(resolve("0x41", true, None), vec![0x41]);
    assert_eq!(resolve(" 0x7a ", false, None), vec![0x7a]);
}

#[test]
fn malformed_tokens_fail_with_the_token() {
    let e = char_range(&"not-hex".to_string(), true, None).unwrap_err();
    assert_eq!(e.input, "not");
    assert_eq!(e.message, "Number not doesn't start with 0x");
    let e = char_range(&"NN".to_string(), true, None).unwrap_err();
    assert_eq!(e.input, "NN");
    let e = char_range(&"0x41,0x42-zz".to_string(), true, None).unwrap_err();
    assert_eq!(e.input, "zz");
}

#[test]
fn joined_descriptor_is_concatenation() {
    let whole = resolve("0x0,0x40-0x50,0x60-0x80", false, None);
    let mut parts = resolve("0x0", false, None);
    parts.extend(resolve("0x40-0x50", false, None));
    parts.extend(resolve("0x60-0x80", false, None));
    assert_eq!(whole, parts);
    assert_eq!(whole.len(), 1 + 16 + 32);
    assert_eq!(whole[0], 0);
}

#[test]
fn null_character_comes_first() {
    assert_eq!(resolve("0x41", true, Some(true)), vec![0x0, 0x41]);
    assert_eq!(resolve("0x41", true, Some(false)), vec![0x41]);
}

#[test]
fn semicolons_separate_and_repeats_stay() {
    assert_eq!(resolve("0x41;0x42,0x41", true, None), vec![0x41, 0x42, 0x41]);
}

#[test]
fn space_and_controls_are_dropped() {
    assert_eq!(resolve("0x1e-0x22", true, None), vec![0x21]);
    assert_eq!(resolve("0x1e-0x22", false, None), vec![0x1e, 0x1f, 0x21]);
}

#[test]
fn reversed_span_is_empty() {
    assert_eq!(resolve("0x50-0x40", true, None), Vec::<u32>::new());
}

#[test]
fn empty_descriptor_fails() {
    let e = char_range(&"".to_string(), true, None).unwrap_err();
    assert_eq!(e.input, "");
    let e = char_range(&"0x41,".to_string(), true, None).unwrap_err();
    assert_eq!(e.input, "");
}
