use sov_core::text::{clone_texts, find_char, find_text, string_of, to_chars, trim};

#[test]
fn characters_of_a_text() {
    assert_eq!(to_chars("aé→"), vec!['a', 'é', '→']);
    assert_eq!(to_chars(""), Vec::<char>::new());
}

#[test]
fn text_of_some_characters() {
    let cs = to_chars("hello world");
    assert_eq!(string_of(&cs, 0, 5), "hello");
    assert_eq!(string_of(&cs, 6, 11), "world");
    assert_eq!(string_of(&cs, 4, 4), "");
}

#[test]
fn first_occurrence_of_a_character() {
    let cs = to_chars("a|b|c");
    assert_eq!(find_char(&cs, '|', 0, 5), 1);
    assert_eq!(find_char(&cs, '|', 2, 5), 1);
    assert_eq!(find_char(&cs, '|', 4, 5), 1);
    assert_eq!(find_char(&cs, '#', 0, 5), 5);
    assert_eq!(find_char(&cs, '|', 0, 1), 1);
    assert_eq!(find_char(&cs, 'a', 0, 0), 0);
}

#[test]
fn first_occurrence_of_a_text() {
    let v = vec!["x".to_string(), "y".to_string(), "x".to_string()];
    assert_eq!(find_text(&v, "x"), 0);
    assert_eq!(find_text(&v, "y"), 1);
    assert_eq!(find_text(&v, "z"), 3);
    assert_eq!(clone_texts(&v), v);
}

#[test]
fn white_space_is_taken_off_both_ends() {
    assert_eq!(trim("  a b \n"), "a b");
    assert_eq!(trim("a"), "a");
    assert_eq!(trim(""), "");
    assert_eq!(trim(" \t\r\n"), "");
    assert_eq!(trim("\u{a0}x\u{2003}"), "x");
    assert_eq!(trim("_ x _"), "_ x _");
}
