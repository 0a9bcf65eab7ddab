use lls::word::locate_word;

#[test]
fn cursor_inside_first_word() {
    assert_eq!(locate_word("cat sat", 1), Some(String::from("cat")));
}

#[test]
fn cursor_on_boundary_space_returns_preceding_run() {
    assert_eq!(locate_word("cat sat", 3), Some(String::from("cat")));
}

#[test]
fn cursor_on_leading_punctuation_finds_no_word() {
    assert_eq!(locate_word(".x y", 0), None);
}

#[test]
fn cursor_at_start_of_second_word() {
    assert_eq!(locate_word("cat sat", 4), Some(String::from("sat")));
}

#[test]
fn cursor_inside_second_word() {
    assert_eq!(locate_word("cat sat", 5), Some(String::from("sat")));
}

#[test]
fn cursor_on_last_character_of_trailing_word() {
    assert_eq!(locate_word("cat sat", 6), Some(String::from("sat")));
}

#[test]
fn empty_line_has_no_word() {
    for cursor in [0usize, 1, 5] {
        assert_eq!(locate_word("", cursor), None);
    }
}

#[test]
fn line_without_alphabetic_characters_has_no_word() {
    for cursor in 0..10usize {
        assert_eq!(locate_word("12 34 +-", cursor), None);
    }
}

#[test]
fn cursor_beyond_line_end_has_no_word() {
    assert_eq!(locate_word("cat", 3), None);
    assert_eq!(locate_word("cat", 10), None);
}

#[test]
fn word_is_lowercased() {
    assert_eq!(locate_word("Cat", 0), Some(String::from("cat")));
}

#[test]
fn maximal_run_containing_cursor_is_returned() {
    assert_eq!(locate_word("foo,barbaz.", 7), Some(String::from("barbaz")));
}

#[test]
fn multi_character_lowercase_expansion_is_honored() {
    assert_eq!(
        locate_word("\u{130}stanbul", 1),
        Some(String::from("i\u{307}stanbul"))
    );
}
