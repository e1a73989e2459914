use rungroup::lines::head_lines;
use rungroup::lines::split_lines;

fn owned(texts: &[&str]) -> Vec<String> {
    let mut v: Vec<String> = Vec::new();
    for t in texts {
        v.push(t.to_string());
    }
    v
}

#[test]
fn split_lines_on_newlines() {
    assert_eq!(split_lines("a\nb\nc"), owned(&["a", "b", "c"]));
}

#[test]
fn split_lines_final_terminator_is_optional() {
    assert_eq!(split_lines("a\nb\n"), owned(&["a", "b"]));
    assert_eq!(split_lines("a\nb"), owned(&["a", "b"]));
}

#[test]
fn split_lines_strips_carriage_return_before_newline() {
    assert_eq!(split_lines("a\r\nb"), owned(&["a", "b"]));
}

#[test]
fn split_lines_keeps_lone_carriage_returns() {
    assert_eq!(split_lines("a\rb"), owned(&["a\rb"]));
    assert_eq!(split_lines("a\r"), owned(&["a\r"]));
    assert_eq!(split_lines("a\r\rb\n"), owned(&["a\r\rb"]));
}

#[test]
fn split_lines_of_empty_text() {
    assert_eq!(split_lines(""), owned(&[]));
    assert_eq!(split_lines("\n"), owned(&[""]));
}

#[test]
fn head_lines_takes_a_prefix() {
    let lines = owned(&["a", "b", "c"]);
    assert_eq!(head_lines(&lines, 2), owned(&["a", "b"]));
    assert_eq!(head_lines(&lines, 0), owned(&[]));
}

#[test]
fn head_lines_is_everything_when_short() {
    let lines = owned(&["a", "b"]);
    assert_eq!(head_lines(&lines, 10), owned(&["a", "b"]));
}
