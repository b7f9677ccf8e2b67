use pagedown::ir::{Inline, inlines_to_plain_text};
use pagedown::layout::{pdf_safe_text, plain, tokenize};
use pagedown::text::{citation_label, is_blank, is_whitespace, title_word, to_ascii_uppercase, trim};

#[test]
fn whitespace_matches_std() {
    for c in ['\t', '\n', ' ', '\u{85}', '\u{a0}', '\u{1680}', '\u{2000}', '\u{200a}', '\u{2028}',
        '\u{2029}', '\u{202f}', '\u{205f}', '\u{3000}', 'a', '\u{200b}', '\u{180e}', '0', '\u{feff}']
    {
        assert_eq!(is_whitespace(c), c.is_whitespace(), "{:?}", c);
    }
    for u in 0u32..0x3100 {
        if let Some(c) = char::from_u32(u) {
            assert_eq!(is_whitespace(c), c.is_whitespace(), "{:?}", c);
        }
    }
}

#[test]
fn trim_and_blank_match_std() {
    for s in ["", "   ", " a b ", "\u{3000}x\u{a0}", "\tline\n", "abc"] {
        assert_eq!(trim(s), s.trim());
        assert_eq!(is_blank(s), s.trim().is_empty());
    }
}

#[test]
fn tokenize_splits_into_alternating_runs() {
    assert_eq!(tokenize("hello  world"), vec!["hello", "  ", "world"]);
    assert_eq!(tokenize(" a\tb\n"), vec![" ", "a", " ", "b", " "]);
    assert_eq!(tokenize(""), Vec::<String>::new());
    assert_eq!(tokenize("x"), vec!["x"]);
    assert_eq!(tokenize("\u{a0}\u{3000}é"), vec!["  ", "é"]);
}

#[test]
fn pdf_safe_text_expands_tabs() {
    assert_eq!(pdf_safe_text("a\tb"), "a    b");
    assert_eq!(pdf_safe_text("\t\t"), "        ");
    assert_eq!(pdf_safe_text("plain"), "plain");
}

#[test]
fn title_word_uppercases_the_first_character() {
    assert_eq!(title_word("knuth"), "Knuth");
    assert_eq!(title_word(""), "");
    assert_eq!(title_word("éclair"), "Éclair");
    assert_eq!(title_word("ßtraße"), "SStraße");
    assert_eq!(title_word("1st"), "1st");
}

#[test]
fn citation_labels_split_off_a_year() {
    assert_eq!(citation_label("doe2024"), "Doe 2024");
    assert_eq!(citation_label("knuth1984"), "Knuth 1984");
    assert_eq!(citation_label("lamport_1994"), "Lamport 1994");
    assert_eq!(citation_label("smith-jones:2001"), "Smith jones 2001");
    assert_eq!(citation_label("2024"), "2024");
    assert_eq!(citation_label("foo-bar"), "Foo bar");
    assert_eq!(citation_label("_x_"), "X");
    assert_eq!(citation_label("müller2020"), "Müller 2020");
}

#[test]
fn ascii_uppercase_leaves_other_characters() {
    assert_eq!(to_ascii_uppercase("rust-é"), "RUST-é");
}

#[test]
fn plain_text_flattens_markup() {
    let inlines = vec![
        Inline::Text("a ".to_string()),
        Inline::Link {
            href: "https://x".to_string(),
            content: vec![Inline::Strong(vec![Inline::Text("b".to_string())])],
        },
        Inline::Code("c".to_string()),
        Inline::Emphasis(vec![Inline::Math("d".to_string())]),
    ];
    assert_eq!(inlines_to_plain_text(&inlines), "a bcd");
    assert_eq!(plain(&inlines), "a bcd");
    assert_eq!(inlines[1].plain_text(), "b");
    let copy = inlines[1].clone();
    assert_eq!(copy.plain_text(), "b");
}

#[test]
fn plain_text_of_a_concatenation_is_the_concatenation() {
    let a = vec![Inline::Text("x".to_string()), Inline::Code("y".to_string())];
    let b = vec![Inline::Strikethrough(vec![Inline::Text("z".to_string())])];
    let mut ab = a.clone();
    ab.extend(b.iter().cloned());
    assert_eq!(inlines_to_plain_text(&ab), inlines_to_plain_text(&a) + &inlines_to_plain_text(&b));
}

#[test]
fn tokens_alternate_between_space_and_words() {
    let tokens = tokenize("a  bb\tc d ");
    assert_eq!(tokens.concat(), "a  bb c d ");
    for pair in tokens.windows(2) {
        assert_ne!(pair[0].starts_with(' '), pair[1].starts_with(' '));
    }
    assert!(tokens.iter().all(|t| !t.is_empty()));
}
