use rungroup::wc::FileInfo;

#[test]
fn counts_of_a_small_text() {
    let info = FileInfo::new("hello world\n");
    assert_eq!(info.number_lines, 1);
    assert_eq!(info.number_words, 2);
    assert_eq!(info.number_bytes, 12);
    assert_eq!(info.number_chars, 12);
}

#[test]
fn counts_of_empty_text_are_zero() {
    let info = FileInfo::new("");
    assert_eq!(info.number_lines, 0);
    assert_eq!(info.number_words, 0);
    assert_eq!(info.number_bytes, 0);
    assert_eq!(info.number_chars, 0);
}

#[test]
fn words_are_split_on_whitespace_runs() {
    let info = FileInfo::new("  one\t two  \n three\n");
    assert_eq!(info.number_words, 3);
    assert_eq!(info.number_lines, 2);
}

#[test]
fn bytes_and_chars_differ_on_multibyte_text() {
    let info = FileInfo::new("caf\u{e9}");
    assert_eq!(info.number_chars, 4);
    assert_eq!(info.number_bytes, 5);
    assert_eq!(info.number_words, 1);
    assert_eq!(info.number_lines, 1);
}

#[test]
fn add_sums_componentwise() {
    let a = FileInfo { number_lines: 1, number_words: 2, number_bytes: 3, number_chars: 4 };
    let b = FileInfo { number_lines: 10, number_words: 20, number_bytes: 30, number_chars: 40 };
    let c = a.add(b);
    assert_eq!(c.number_lines, 11);
    assert_eq!(c.number_words, 22);
    assert_eq!(c.number_bytes, 33);
    assert_eq!(c.number_chars, 44);
}

#[test]
fn sum_totals_every_entry() {
    let infos = vec![
        FileInfo::new("a b\n"),
        FileInfo::new("c\nd\n"),
        FileInfo::new(""),
    ];
    let total = FileInfo::sum(&infos);
    assert_eq!(total.number_lines, 3);
    assert_eq!(total.number_words, 4);
    assert_eq!(total.number_bytes, 8);
    assert_eq!(total.number_chars, 8);
}

#[test]
fn sum_of_no_entries_is_zero() {
    let infos: Vec<FileInfo> = Vec::new();
    let total = FileInfo::sum(&infos);
    assert_eq!(total.number_lines, 0);
    assert_eq!(total.number_words, 0);
    assert_eq!(total.number_bytes, 0);
    assert_eq!(total.number_chars, 0);
}
