use pqwordshelper::prompt::{ask_for, capitalize, trim_newline, with_initial};

fn names(list: &[&str]) -> Vec<String> {
    list.iter().map(|s| s.to_string()).collect()
}

#[test]
fn capitalize_raises_the_first_letter() {
    assert_eq!(capitalize(&"type".to_string()), "Type");
    assert_eq!(capitalize(&"category".to_string()), "Category");
    assert_eq!(capitalize(&"Level".to_string()), "Level");
    assert_eq!(capitalize(&"1st".to_string()), "1st");
}

#[test]
fn capitalize_of_nothing_is_nothing() {
    assert_eq!(capitalize(&String::new()), "");
}

#[test]
fn capitalize_may_lengthen_the_text() {
    assert_eq!(capitalize(&"ßeta".to_string()), "SSeta");
    assert_eq!(capitalize(&"éa".to_string()), "Éa");
}

#[test]
fn initial_replaces_the_first_character() {
    assert_eq!(with_initial(&vec!['T'], "type"), "Type");
    assert_eq!(with_initial(&vec!['S', 'S'], "ß"), "SS");
    assert_eq!(with_initial(&vec!['X'], ""), "X");
    assert_eq!(with_initial(&Vec::new(), "abc"), "bc");
}

#[test]
fn trim_takes_off_one_line_ending() {
    let mut s = "verbs\n".to_string();
    trim_newline(&mut s);
    assert_eq!(s, "verbs");
    let mut s = "verbs\r\n".to_string();
    trim_newline(&mut s);
    assert_eq!(s, "verbs");
    let mut s = "verbs\n\n".to_string();
    trim_newline(&mut s);
    assert_eq!(s, "verbs\n");
}

#[test]
fn trim_leaves_a_line_without_newline() {
    let mut s = "verbs\r".to_string();
    trim_newline(&mut s);
    assert_eq!(s, "verbs\r");
    let mut s = " verbs ".to_string();
    trim_newline(&mut s);
    assert_eq!(s, " verbs ");
    let mut s = String::new();
    trim_newline(&mut s);
    assert_eq!(s, "");
    let mut s = "\n".to_string();
    trim_newline(&mut s);
    assert_eq!(s, "");
}

#[test]
fn a_valid_answer_is_taken() {
    let valid = names(&["easy", "hard"]);
    assert_eq!(ask_for(&valid, true, "easy\n"), Some("easy".to_string()));
    assert_eq!(ask_for(&valid, true, "hard\r\n"), Some("hard".to_string()));
}

#[test]
fn an_invalid_answer_is_asked_again() {
    let valid = names(&["easy", "hard"]);
    assert_eq!(ask_for(&valid, true, "medium\n"), None);
    assert_eq!(ask_for(&valid, true, "Easy\n"), None);
    assert_eq!(ask_for(&valid, true, " easy\n"), None);
    assert_eq!(ask_for(&valid, true, "\n"), None);
    assert_eq!(ask_for(&Vec::new(), true, "easy\n"), None);
}

#[test]
fn any_answer_is_taken_where_none_is_required() {
    let valid = names(&["easy", "hard"]);
    assert_eq!(ask_for(&valid, false, "medium\n"), Some("medium".to_string()));
    assert_eq!(ask_for(&Vec::new(), false, "\n"), Some(String::new()));
}
