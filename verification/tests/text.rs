use block_sync::text::{chars_of, find_char, holds_at, line_bounds, stretch_free_of, string_of};

fn chars(s: &str) -> Vec<char> {
    s.chars().collect()
}

#[test]
fn the_characters_of_a_text() {
    assert_eq!(chars_of(""), Vec::<char>::new());
    assert_eq!(chars_of("a-b"), vec!['a', '-', 'b']);
    assert_eq!(chars_of("h\u{e9}\u{1F600}"), vec!['h', '\u{e9}', '\u{1F600}']);
}

#[test]
fn the_first_place_of_a_character() {
    let text = chars("mainnet-10-h1.json");
    assert_eq!(find_char(&text, '-', 0), 7);
    assert_eq!(find_char(&text, '-', 7), 7);
    assert_eq!(find_char(&text, '-', 8), 10);
    assert_eq!(find_char(&text, '-', 11), text.len());
    assert_eq!(find_char(&text, '/', 0), text.len());
    assert_eq!(find_char(&text, 'm', text.len()), text.len());
    assert_eq!(find_char(&Vec::new(), 'x', 0), 0);
}

#[test]
fn a_stretch_without_a_character() {
    let text = chars("ab-cd-ef");
    assert!(stretch_free_of(&text, '-', 0, 2));
    assert!(!stretch_free_of(&text, '-', 0, 3));
    assert!(stretch_free_of(&text, '-', 3, 5));
    assert!(!stretch_free_of(&text, '-', 2, 3));
    assert!(stretch_free_of(&text, '-', 2, 2));
    assert!(stretch_free_of(&text, 'x', 0, 8));
}

#[test]
fn a_word_at_a_place() {
    let text = chars("gs://b/x.json");
    assert!(holds_at(&text, 0, &chars("gs://")));
    assert!(!holds_at(&text, 1, &chars("gs://")));
    assert!(holds_at(&text, 8, &chars(".json")));
    assert!(!holds_at(&text, 9, &chars(".json")));
    assert!(holds_at(&text, 13, &chars("")));
    assert!(holds_at(&text, 0, &chars("")));
    assert!(!holds_at(&text, 12, &chars("nn")));
    assert!(!holds_at(&chars(""), 0, &chars("a")));
}

#[test]
fn a_stretch_as_a_string() {
    let text = chars("h\u{e9}llo-w\u{1F600}rld");
    assert_eq!(string_of(&text, 0, 5), "h\u{e9}llo");
    assert_eq!(string_of(&text, 6, 11), "w\u{1F600}rld");
    assert_eq!(string_of(&text, 5, 6), "-");
    assert_eq!(string_of(&text, 3, 3), "");
    assert_eq!(string_of(&text, 0, 11), "h\u{e9}llo-w\u{1F600}rld");
}

#[test]
fn where_the_lines_are() {
    assert_eq!(line_bounds(&chars("")), vec![(0, 0)]);
    assert_eq!(line_bounds(&chars("abc")), vec![(0, 3)]);
    assert_eq!(line_bounds(&chars("abc\n")), vec![(0, 3), (4, 4)]);
    assert_eq!(line_bounds(&chars("\n")), vec![(0, 0), (1, 1)]);
    assert_eq!(line_bounds(&chars("a\n\nbc\nd")), vec![(0, 1), (2, 2), (3, 5), (6, 7)]);
}

#[test]
fn the_lines_are_those_of_std() {
    for text in ["", "a", "a\nb", "a\nb\n", "\n\n", "x\r\ny", "\u{e9}\n\u{1F600}\n"] {
        let all = chars(text);
        let lines: Vec<String> =
            line_bounds(&all).into_iter().map(|(a, b)| string_of(&all, a, b)).collect();
        let expected: Vec<String> = text.split('\n').map(|l| l.to_string()).collect();
        assert_eq!(lines, expected, "{:?}", text);
    }
}
