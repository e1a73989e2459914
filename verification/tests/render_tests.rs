use rungroup::render::format_count;
use rungroup::render::format_run;
use rungroup::render::format_string;
use rungroup::render::join_with_spaces;

#[test]
fn format_string_right_justifies_in_five_columns() {
    assert_eq!(format_string(42, true), "   42");
    assert_eq!(format_string(0, true), "    0");
    assert_eq!(format_string(12345, true), "12345");
}

#[test]
fn format_string_keeps_wide_values_whole() {
    assert_eq!(format_string(123456, true), "123456");
}

#[test]
fn format_string_hides_the_value_when_not_shown() {
    assert_eq!(format_string(42, false), "");
}

#[test]
fn format_count_pads_to_the_requested_width() {
    assert_eq!(format_count(7, 1), "7");
    assert_eq!(format_count(7, 3), "  7");
    assert_eq!(format_count(1000, 6), "  1000");
    assert_eq!(format_count(98765, 2), "98765");
}

#[test]
fn format_run_shows_count_in_seven_columns() {
    assert_eq!(format_run(3, &"abc".to_string(), true), "      3 abc");
    assert_eq!(format_run(1234567, &"x".to_string(), true), "1234567 x");
}

#[test]
fn format_run_without_count_is_the_line_alone() {
    assert_eq!(format_run(3, &"abc".to_string(), false), "abc");
}

#[test]
fn join_with_spaces_puts_single_spaces_between_words() {
    let words = vec!["Hello".to_string(), "world".to_string()];
    assert_eq!(join_with_spaces(&words), "Hello world");
}

#[test]
fn join_with_spaces_of_nothing_is_empty() {
    let words: Vec<String> = Vec::new();
    assert_eq!(join_with_spaces(&words), "");
}

#[test]
fn join_with_spaces_keeps_inner_content() {
    let words = vec!["a b".to_string(), String::new(), "c".to_string()];
    assert_eq!(join_with_spaces(&words), "a b  c");
}
