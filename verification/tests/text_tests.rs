use canvas_grader::text::{chars_of, contains, family_name, family_prefix, name_le};

#[test]
fn names_compare_as_strings_do() {
    let names = ["", "a", "ab", "abc", "b", "B", "Zed, Al", "adams, zoe", "Ünal, Ö", "zz", "é", "e"];
    for a in names {
        for b in names {
            assert_eq!(name_le(a, b), a <= b, "{:?} <= {:?}", a, b);
        }
    }
}

#[test]
fn a_prefix_sorts_first() {
    assert!(name_le("Smith", "Smith, John"));
    assert!(!name_le("Smith, John", "Smith"));
    assert!(name_le("Smith, John", "Smith, John"));
    assert!(name_le("", ""));
}

#[test]
fn upper_case_sorts_before_lower_case() {
    assert!(name_le("Zed", "adams"));
    assert!(!name_le("adams", "Zed"));
}

#[test]
fn chars_of_keeps_every_character() {
    assert_eq!(chars_of("héllo"), vec!['h', 'é', 'l', 'l', 'o']);
    assert_eq!(chars_of(""), Vec::<char>::new());
}

#[test]
fn contains_finds_a_needle_anywhere() {
    assert!(contains("int main(void) { /* smith */ }", "smith"));
    assert!(contains("smith", "smith"));
    assert!(contains("xsmith", "smith"));
    assert!(contains("smithx", "smith"));
    assert!(!contains("smit", "smith"));
    assert!(!contains("s m i t h", "smith"));
    assert!(!contains("", "smith"));
}

#[test]
fn the_empty_needle_is_in_every_text() {
    assert!(contains("", ""));
    assert!(contains("abc", ""));
}

#[test]
fn contains_compares_characters_not_bytes() {
    assert!(contains("grüße aus köln", "köln"));
    assert!(!contains("grüße aus koln", "köln"));
    assert!(contains("aaab", "aab"));
}

#[test]
fn family_prefix_cuts_at_the_first_separator() {
    assert_eq!(family_prefix("smith, john"), "smith");
    assert_eq!(family_prefix("van der berg, a, b"), "van der berg");
    assert_eq!(family_prefix("madonna"), "madonna");
    assert_eq!(family_prefix(", john"), "");
    assert_eq!(family_prefix(""), "");
    assert_eq!(family_prefix("müller,x"), "müller");
}

#[test]
fn family_name_is_lower_case() {
    assert_eq!(family_name("Smith, John"), "smith");
    assert_eq!(family_name("O'NEIL, Pat"), "o'neil");
    assert_eq!(family_name("ÜNAL, Ö"), "ünal");
    assert_eq!(family_name("Cher"), "cher");
}
