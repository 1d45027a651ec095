use pqwordshelper::content::{
    append_entry, clean_text, count_lines, dedupe_text, get_word_count, text_to_append,
};

#[test]
fn append_puts_entry_on_new_line() {
    assert_eq!(append_entry("run\n", "jump"), "run\njump\n");
    assert_eq!(text_to_append("run\n", "jump"), "jump\n");
}

#[test]
fn append_adds_missing_newline_first() {
    assert_eq!(append_entry("run", "jump"), "run\njump\n");
    assert_eq!(text_to_append("run", "jump"), "\njump\n");
}

#[test]
fn append_to_empty_file_starts_with_newline() {
    assert_eq!(append_entry("", "jump"), "\njump\n");
    assert_eq!(text_to_append("", "jump"), "\njump\n");
}

#[test]
fn append_twice_appends_two_entries() {
    let once = append_entry("run", "jump");
    let twice = append_entry(&once, "walk");
    assert_eq!(twice, "run\njump\nwalk\n");
    assert!(twice.ends_with('\n'));
    assert!(!twice.ends_with("\n\n"));
}

#[test]
fn append_never_truncates() {
    for content in ["", "a", "a\n", "a\n\n", "a\r\nb"] {
        let after = append_entry(content, "x");
        assert!(after.starts_with(content));
        assert_eq!(after, format!("{}{}", content, text_to_append(content, "x")));
    }
}

#[test]
fn append_of_empty_entry_leaves_two_newlines() {
    assert_eq!(append_entry("run\n", ""), "run\n\n");
}

#[test]
fn dedupe_sorts_and_removes_repeats() {
    assert_eq!(dedupe_text("run\nrun\njump\n"), Some("jump\nrun\n".to_string()));
}

#[test]
fn dedupe_without_repeats_writes_nothing() {
    assert_eq!(dedupe_text("jump\nrun\n"), None);
    assert_eq!(dedupe_text("run\njump\n"), None);
    assert_eq!(dedupe_text(""), None);
    assert_eq!(dedupe_text("a\nb"), None);
}

#[test]
fn dedupe_removes_exactly_the_repeats() {
    let out = dedupe_text("b\na\nb\na\nc\n").unwrap();
    assert_eq!(out, "a\nb\nc\n");
    assert_eq!(count_lines("b\na\nb\na\nc\n") - count_lines(&out), 2);
}

#[test]
fn dedupe_never_grows_the_file() {
    for text in ["a\na", "a\na\n", "\n\n", "\n\na", "x\ny\nx\n", "é\né\n", "a", ""] {
        if let Some(out) = dedupe_text(text) {
            assert!(out.len() < text.len());
        }
    }
}

#[test]
fn dedupe_counts_bytes_not_characters() {
    assert_eq!(dedupe_text("é\né\n"), Some("é\n".to_string()));
    assert_eq!(dedupe_text("a\na"), Some("a\n".to_string()));
}

#[test]
fn dedupe_skips_a_result_of_equal_length() {
    assert_eq!(dedupe_text("\n\na"), None);
}

#[test]
fn dedupe_keeps_one_blank_line() {
    assert_eq!(dedupe_text("b\n\na\n\n"), Some("\na\nb\n".to_string()));
}

#[test]
fn clean_drops_blank_lines_and_sorts() {
    assert_eq!(clean_text("run\n   \njump\n\n"), "jump\nrun\n");
}

#[test]
fn clean_is_idempotent() {
    for text in ["run\n   \njump\n\n", "", "\n\n", "b\na\nb", " x \n\t\n", "a\r\n\r\n"] {
        let once = clean_text(text);
        assert_eq!(clean_text(&once), once);
    }
}

#[test]
fn clean_keeps_repeated_entries() {
    assert_eq!(clean_text("b\na\nb\n"), "a\nb\nb\n");
}

#[test]
fn clean_of_nothing_is_a_single_newline() {
    assert_eq!(clean_text(""), "\n");
    assert_eq!(clean_text("\n\n"), "\n");
    assert_eq!(clean_text(" \t \n"), "\n");
}

#[test]
fn clean_knows_unicode_white_space() {
    assert_eq!(clean_text("a\n\u{00A0}\u{2003}\u{3000}\nb\r\n\r\n"), "a\nb\r\n");
    assert_eq!(clean_text("\u{200B}\n"), "\u{200B}\n");
}

#[test]
fn clean_orders_by_code_point() {
    assert_eq!(clean_text("b\nB\na\nä\n"), "B\na\nb\nä\n");
    assert_eq!(clean_text("ab\na\nb\n"), "a\nab\nb\n");
    assert_eq!(clean_text("z\n\u{10000}\n\u{FFFF}\n"), "z\n\u{FFFF}\n\u{10000}\n");
}

#[test]
fn clean_leaves_no_blank_line() {
    let out = clean_text("x\n \n\ny\n\t\n");
    assert_eq!(out, "x\ny\n");
    assert!(out.lines().all(|l| !l.trim().is_empty()));
}

#[test]
fn lines_are_counted_as_they_end() {
    assert_eq!(count_lines(""), 0);
    assert_eq!(count_lines("\n"), 1);
    assert_eq!(count_lines("a\nb\n"), 2);
    assert_eq!(count_lines("a\nb"), 2);
    assert_eq!(count_lines("a\n\nb\n"), 3);
}

#[test]
fn word_count_adds_up_the_files() {
    let files = vec!["a\nb\n".to_string(), "c".to_string(), String::new()];
    assert_eq!(get_word_count(&files), Some(3));
    assert_eq!(get_word_count(&Vec::new()), Some(0));
}
