use pqwordshelper::distinct::{drop_blank, drop_repeats};
use pqwordshelper::lines::{join_chars, split_into_lines};
use pqwordshelper::order::line_no_later;
use pqwordshelper::sorting::sort_lines;
use pqwordshelper::text::{blank_line, chars_of, is_whitespace, same_chars, same_text, string_of};

fn lines(list: &[&str]) -> Vec<Vec<char>> {
    list.iter().map(|s| s.chars().collect()).collect()
}

#[test]
fn characters_go_in_and_out() {
    assert_eq!(chars_of("aé\u{10000}"), vec!['a', 'é', '\u{10000}']);
    assert_eq!(string_of(&vec!['a', 'é', '\u{10000}']), "aé\u{10000}");
    assert!(same_text("abc", "abc"));
    assert!(!same_text("abc", "abd"));
    assert!(!same_text("abc", "ab"));
    assert!(same_chars(&Vec::new(), &Vec::new()));
}

#[test]
fn white_space_is_what_the_standard_library_says() {
    for code in 0u32..0x11000 {
        if let Some(c) = char::from_u32(code) {
            assert_eq!(is_whitespace(c), c.is_whitespace());
        }
    }
}

#[test]
fn blank_lines_hold_only_white_space() {
    assert!(blank_line(&Vec::new()));
    assert!(blank_line(&vec![' ', '\t', '\r']));
    assert!(!blank_line(&vec![' ', 'x', ' ']));
}

#[test]
fn order_is_that_of_the_standard_library() {
    let samples = ["", "a", "ab", "b", "B", "ä", "a\u{FFFF}", "a\u{10000}", "aa", " "];
    for a in samples {
        for b in samples {
            let x: Vec<char> = a.chars().collect();
            let y: Vec<char> = b.chars().collect();
            assert_eq!(line_no_later(&x, &y), a <= b);
        }
    }
}

#[test]
fn sorting_orders_and_keeps_every_line() {
    assert_eq!(
        sort_lines(lines(&["run", "jump", "", "run", "a", "Run"])),
        lines(&["", "Run", "a", "jump", "run", "run"])
    );
    assert_eq!(sort_lines(Vec::new()), Vec::<Vec<char>>::new());
    assert_eq!(sort_lines(lines(&["x"])), lines(&["x"]));
}

#[test]
fn sorting_agrees_with_the_standard_library() {
    let mut words: Vec<String> = Vec::new();
    let mut seed: u32 = 7;
    for _ in 0..200 {
        seed = seed.wrapping_mul(1103515245).wrapping_add(12345);
        let len = (seed >> 16) % 4;
        let mut w = String::new();
        for k in 0..len {
            seed = seed.wrapping_mul(1103515245).wrapping_add(12345);
            w.push(['a', 'b', 'é', 'Z'][((seed >> 16) as usize + k as usize) % 4]);
        }
        words.push(w);
    }
    let sorted = sort_lines(words.iter().map(|w| w.chars().collect()).collect());
    let mut expected = words.clone();
    expected.sort_unstable();
    let got: Vec<String> = sorted.iter().map(|l| l.iter().collect()).collect();
    assert_eq!(got, expected);
}

#[test]
fn repeats_next_to_each_other_are_dropped() {
    assert_eq!(drop_repeats(lines(&["a", "a", "b", "a", "a", "a"])), lines(&["a", "b", "a"]));
    assert_eq!(drop_repeats(Vec::new()), Vec::<Vec<char>>::new());
}

#[test]
fn blank_lines_are_dropped() {
    assert_eq!(drop_blank(lines(&["a", "", " ", "b", "\t"])), lines(&["a", "b"]));
}

#[test]
fn text_is_cut_at_newlines() {
    assert_eq!(split_into_lines(&"a\nb\n".chars().collect()), lines(&["a", "b"]));
    assert_eq!(split_into_lines(&"a\nb".chars().collect()), lines(&["a", "b"]));
    assert_eq!(split_into_lines(&"\n\na".chars().collect()), lines(&["", "", "a"]));
    assert_eq!(split_into_lines(&"a\n\n".chars().collect()), lines(&["a", ""]));
    assert_eq!(split_into_lines(&Vec::new()), Vec::<Vec<char>>::new());
    assert_eq!(split_into_lines(&vec!['\n']), lines(&[""]));
}

#[test]
fn lines_are_joined_with_a_separator() {
    assert_eq!(join_chars(&lines(&["a", "b", "c"]), '\n'), "a\nb\nc".chars().collect::<Vec<char>>());
    assert_eq!(join_chars(&lines(&["a"]), ','), vec!['a']);
    assert_eq!(join_chars(&lines(&["", ""]), ','), vec![',']);
    assert_eq!(join_chars(&Vec::new(), ','), Vec::<char>::new());
}

#[test]
fn cutting_agrees_with_the_standard_library() {
    for text in ["", "a", "a\n", "a\nb", "\n", "\n\n", "a\n\nb\n", "x\ny\nz"] {
        let expected: Vec<Vec<char>> = text.split_terminator('\n').map(|l| l.chars().collect()).collect();
        assert_eq!(split_into_lines(&text.chars().collect()), expected);
    }
}
