use kernel_info::text::{
    char_is_whitespace, matches_at, next_line, next_word, slice_contains, split_lines,
    split_whitespace, strip_suffix_char_len, to_chars, trim_span, trimmed, Span,
};

fn pieces(text: &str, spans: &[Span]) -> Vec<String> {
    let chars = to_chars(text);
    spans.iter().map(|span| chars[span.start..span.end].iter().collect::<String>()).collect()
}

fn words_of(text: &str) -> Vec<String> {
    pieces(text, &split_whitespace(&to_chars(text)))
}

fn lines_of(text: &str) -> Vec<String> {
    pieces(text, &split_lines(&to_chars(text)))
}

#[test]
fn to_chars_keeps_every_character() {
    assert_eq!(to_chars("a\u{e9}\u{3000}z"), vec!['a', '\u{e9}', '\u{3000}', 'z']);
    assert!(to_chars("").is_empty());
}

#[test]
fn whitespace_is_the_unicode_class() {
    for c in ['\t', '\n', '\u{b}', '\u{c}', '\r', ' ', '\u{85}', '\u{a0}', '\u{1680}', '\u{2000}',
        '\u{2005}', '\u{200a}', '\u{2028}', '\u{2029}', '\u{202f}', '\u{205f}', '\u{3000}']
    {
        assert!(char_is_whitespace(c), "{:?}", c);
    }
    for c in ['a', '0', '.', '\u{8}', '\u{e}', '\u{200b}', '\u{feff}', '\u{180e}', '\u{2060}'] {
        assert!(!char_is_whitespace(c), "{:?}", c);
    }
}

#[test]
fn whitespace_agrees_with_std_on_every_char() {
    let mut code: u32 = 0;
    while code <= 0x10ffff {
        if let Some(c) = char::from_u32(code) {
            assert_eq!(char_is_whitespace(c), c.is_whitespace(), "{:?}", c);
        }
        code += 1;
    }
}

#[test]
fn words_are_split_on_runs_of_whitespace() {
    assert_eq!(words_of("  Pages active:\t 12345. \n"), vec!["Pages", "active:", "12345."]);
    assert_eq!(words_of("one"), vec!["one"]);
    assert_eq!(words_of("a\u{a0}b\u{3000}c"), vec!["a", "b", "c"]);
    assert!(words_of("").is_empty());
    assert!(words_of(" \t\r\n").is_empty());
}

#[test]
fn words_agree_with_std() {
    for text in ["", " ", "a", " a", "a ", "a b", "  a  b  ", "\ta\nb\rc", "x\u{2003}y z\u{85}"] {
        let expected: Vec<String> = text.split_whitespace().map(String::from).collect();
        assert_eq!(words_of(text), expected, "{:?}", text);
    }
}

#[test]
fn word_spans_give_positions() {
    let chars = to_chars(" ab  cde");
    assert_eq!(
        split_whitespace(&chars),
        vec![Span { start: 1, end: 3 }, Span { start: 5, end: 8 }]
    );
    assert_eq!(next_word(&chars, 0), Some(Span { start: 1, end: 3 }));
    assert_eq!(next_word(&chars, 2), Some(Span { start: 2, end: 3 }));
    assert_eq!(next_word(&chars, 3), Some(Span { start: 5, end: 8 }));
    assert_eq!(next_word(&chars, 8), None);
    assert_eq!(next_word(&chars, 100), None);
    assert_eq!(next_word(&to_chars("a  "), 1), None);
}

#[test]
fn lines_end_at_line_feeds() {
    assert_eq!(lines_of("a\nb"), vec!["a", "b"]);
    assert_eq!(lines_of("a\nb\n"), vec!["a", "b"]);
    assert_eq!(lines_of("a\n\nb"), vec!["a", "", "b"]);
    assert_eq!(lines_of("\n"), vec![""]);
    assert_eq!(lines_of("a\n\n"), vec!["a", ""]);
    assert!(lines_of("").is_empty());
}

#[test]
fn a_carriage_return_before_a_line_feed_ends_the_line() {
    assert_eq!(lines_of("a\r\nb\r\n"), vec!["a", "b"]);
    assert_eq!(lines_of("a\r\r\nb"), vec!["a\r", "b"]);
    assert_eq!(lines_of("a\rb\nc\r"), vec!["a\rb", "c\r"]);
    assert_eq!(lines_of("\r\n"), vec![""]);
}

#[test]
fn lines_agree_with_std() {
    for text in ["", "\n", "a", "a\n", "a\nb", "a\r\nb", "a\r", "\r\n\r\n", "x\n\ny\n", "\n\r\n\r"]
    {
        let expected: Vec<String> = text.lines().map(String::from).collect();
        assert_eq!(lines_of(text), expected, "{:?}", text);
    }
}

#[test]
fn next_line_steps_through_the_text() {
    let chars = to_chars("ab\r\ncd\n");
    assert_eq!(next_line(&chars, 0), Some((Span { start: 0, end: 2 }, 4)));
    assert_eq!(next_line(&chars, 4), Some((Span { start: 4, end: 6 }, 7)));
    assert_eq!(next_line(&chars, 7), None);
    assert_eq!(next_line(&chars, 1), Some((Span { start: 1, end: 2 }, 4)));
    assert_eq!(next_line(&to_chars("xy"), 0), Some((Span { start: 0, end: 2 }, 2)));
    assert_eq!(next_line(&to_chars("xy"), 9), None);
}

#[test]
fn trimming_takes_whitespace_from_both_ends() {
    assert_eq!(trimmed("  23.1.0\n"), "23.1.0");
    assert_eq!(trimmed("a b"), "a b");
    assert_eq!(trimmed("\u{3000}a b\t\r\n"), "a b");
    assert_eq!(trimmed(" \n "), "");
    assert_eq!(trimmed(""), "");
    assert_eq!(trimmed("\u{e9}t\u{e9} "), "\u{e9}t\u{e9}");
}

#[test]
fn trim_span_gives_positions() {
    assert_eq!(trim_span(&to_chars("  ab ")), Span { start: 2, end: 4 });
    assert_eq!(trim_span(&to_chars("ab")), Span { start: 0, end: 2 });
    assert_eq!(trim_span(&to_chars("   ")), Span { start: 3, end: 3 });
    assert_eq!(trim_span(&to_chars("")), Span { start: 0, end: 0 });
}

#[test]
fn one_trailing_character_is_stripped() {
    assert_eq!(strip_suffix_char_len(&to_chars("12345."), '.'), 5);
    assert_eq!(strip_suffix_char_len(&to_chars("12345..."), '.'), 7);
    assert_eq!(strip_suffix_char_len(&to_chars("12345"), '.'), 5);
    assert_eq!(strip_suffix_char_len(&to_chars("1.5"), '.'), 3);
    assert_eq!(strip_suffix_char_len(&to_chars("."), '.'), 0);
    assert_eq!(strip_suffix_char_len(&to_chars(".."), '.'), 1);
    assert_eq!(strip_suffix_char_len(&to_chars(""), '.'), 0);
    assert_eq!(strip_suffix_char_len(&to_chars("a.b."), 'b'), 4);
    assert_eq!(strip_suffix_char_len(&to_chars("a.b"), 'b'), 2);
}

#[test]
fn substring_search_finds_every_position() {
    let hay = to_chars("Pages wired down:  42.");
    assert!(slice_contains(&hay, &to_chars("Pages wired down")));
    assert!(slice_contains(&hay, &to_chars("42.")));
    assert!(slice_contains(&hay, &to_chars("")));
    assert!(slice_contains(&hay, &hay));
    assert!(!slice_contains(&hay, &to_chars("Pages active")));
    assert!(!slice_contains(&hay, &to_chars("pages wired")));
    assert!(!slice_contains(&hay, &to_chars("Pages wired down:  42..")));
    assert!(slice_contains(&to_chars(""), &to_chars("")));
    assert!(!slice_contains(&to_chars(""), &to_chars("a")));
    assert!(slice_contains(&to_chars("aab"), &to_chars("ab")));
}

#[test]
fn matches_at_checks_one_position() {
    let hay = to_chars("abcabc");
    let needle = to_chars("bc");
    assert!(matches_at(&hay, &needle, 1));
    assert!(matches_at(&hay, &needle, 4));
    assert!(!matches_at(&hay, &needle, 0));
    assert!(!matches_at(&hay, &needle, 5));
    assert!(!matches_at(&hay, &needle, 6));
    assert!(!matches_at(&hay, &needle, usize::MAX));
    assert!(matches_at(&hay, &to_chars(""), 6));
    assert!(!matches_at(&hay, &to_chars(""), 7));
}
