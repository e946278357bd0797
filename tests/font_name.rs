use ejf_font_generator::{get_font_name, BuildError};

fn name(path: &str) -> Option<String> {
    match get_font_name(&path.to_string()) {
        Ok(n) => Some(n),
        Err(BuildError::NameError) => None,
        Err(e) => panic!("unexpected error {:?}", e),
    }
}

#[test]
fn stem_of_output_file() {
    assert_eq!(name("fonts/Sans.ejf"), Some("Sans".to_string()));
    assert_eq!(name("Sans"), Some("Sans".to_string()));
    assert_eq!(name("/tmp/out/a.tar.gz"), Some("a.tar".to_string()));
    assert_eq!(name(".hidden"), Some(".hidden".to_string()));
    assert_eq!(name("dir/name."), Some("name".to_string()));
}

#[test]
fn trailing_separators_and_dots_are_skipped() {
    assert_eq!(name("fonts/"), Some("fonts".to_string()));
    assert_eq!(name("fonts/./"), Some("fonts".to_string()));
    assert_eq!(name("a//b.ejf"), Some("b".to_string()));
}

#[test]
fn paths_without_file_name_fail() {
    assert_eq!(name(""), None);
    assert_eq!(name("/"), None);
    assert_eq!(name("."), None);
    assert_eq!(name("fonts/.."), None);
    assert_eq!(name(".."), None);
}
