use book_pictures::lines::{remove_matching_lines, LinePattern};
use book_pictures::text::{replace_enters, strip_whitespaces, text_length};

fn chars(s: &str) -> Vec<char> {
    s.chars().collect()
}

#[test]
fn strip_removes_all_white_space() {
    assert_eq!(strip_whitespaces(&chars(" a b\tc\nd\r\n e ")), chars("abcde"));
    assert_eq!(strip_whitespaces(&chars("x\u{3000}y\u{a0}z\u{2009}")), chars("xyz"));
    assert_eq!(strip_whitespaces(&chars("")), chars(""));
    assert_eq!(strip_whitespaces(&chars("żółw")), chars("żółw"));
}

#[test]
fn enters_become_spaces() {
    assert_eq!(replace_enters(&chars("a\nb\r\nc")), chars("a b  c"));
    assert_eq!(replace_enters(&chars("")), chars(""));
    assert_eq!(replace_enters(&chars("é\nżółw\r")), chars("é żółw "));
}

#[test]
fn length_counts_characters_not_bytes() {
    assert_eq!(text_length(&"żółw".as_bytes().to_vec()), 4);
    assert_eq!(text_length(&b"hello world".to_vec()), 11);
    assert_eq!(text_length(&vec![]), 0);
    assert_eq!(text_length(&vec![b'a'; 3000]), 3000);
}

#[test]
fn length_decodes_invalid_bytes_as_replacements() {
    assert_eq!(text_length(&vec![b'a', 0xff, b'b']), 3);
}

#[test]
fn length_counts_a_character_only_once_wherever_it_lies() {
    let mut bytes = vec![b'a'; 1023];
    bytes.extend_from_slice("é".as_bytes());
    assert_eq!(text_length(&bytes), 1024);
}

#[test]
fn matching_lines_are_removed() {
    let lines: Vec<String> = vec!["keep me", "drop 1", "also keep", "drop 22", ""]
        .into_iter()
        .map(String::from)
        .collect();
    let pattern = LinePattern::new(r"^drop \d+$").unwrap();
    assert_eq!(
        remove_matching_lines(&lines, &pattern),
        vec!["keep me".to_string(), "also keep".to_string(), "".to_string()]
    );
    assert!(pattern.is_match("drop 7"));
    assert!(!pattern.is_match("drop x"));
}

#[test]
fn invalid_pattern_is_refused() {
    let err = LinePattern::new("(unclosed").err().unwrap();
    assert!(!err.message.is_empty());
}
