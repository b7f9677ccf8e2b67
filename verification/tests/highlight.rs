use pagedown::highlight::{
    assemble_code_lines, code_lines, code_syntax_name, code_theme_name, try_highlighted_code_lines, CodeSpan,
    SpanColor,
};
use syntect::highlighting::ThemeSet;
use syntect::parsing::SyntaxSet;

#[test]
fn code_lines_follow_str_lines_after_trimming() {
    assert_eq!(code_lines("a\r\nb\n\n"), vec!["a", "b"]);
    assert_eq!(code_lines("  \n"), Vec::<String>::new());
    assert_eq!(code_lines("x\n\ny"), vec!["x", "", "y"]);
    for text in ["fn main() {}\n", "a\rb\r\nc", "\n\nlead", ""] {
        let expected: Vec<String> = text.trim_end().lines().map(str::to_string).collect();
        assert_eq!(code_lines(text), expected);
    }
}

#[test]
fn highlighting_keeps_the_code_text() {
    let ss = SyntaxSet::load_defaults_newlines();
    let ts = ThemeSet::load_defaults();
    let text = "fn main() {\n    let x = 1;\n}\n";
    let lines = try_highlighted_code_lines(&ss, &ts, "InspiredGitHub", true, Some("rust"), text)
        .expect("default syntaxes include plain text");
    assert_eq!(lines.len(), 3);
    for (spans, line) in lines.iter().zip(text.trim_end().lines()) {
        let joined: String = spans.iter().map(|s| s.text.as_str()).collect();
        assert_eq!(joined, line);
        assert!(spans.iter().all(|s| matches!(s.color, SpanColor::Theme { .. })));
    }
}

#[test]
fn unknown_theme_falls_back_and_plain_mode_is_uncoloured() {
    let ss = SyntaxSet::load_defaults_newlines();
    let ts = ThemeSet::load_defaults();
    let lines = try_highlighted_code_lines(&ss, &ts, "no-such-theme", true, Some("nolang"), "a b").unwrap();
    let joined: String = lines[0].iter().map(|s| s.text.as_str()).collect();
    assert_eq!(joined, "a b");
    let plain = try_highlighted_code_lines(&ss, &ts, "InspiredGitHub", false, Some("rust"), "x\ny").unwrap();
    assert_eq!(plain.len(), 2);
    assert_eq!(plain[1].len(), 1);
    assert_eq!(plain[1][0].text, "y");
    assert_eq!(plain[1][0].color, SpanColor::Plain);
    let empty = try_highlighted_code_lines(&ss, &ts, "InspiredGitHub", true, None, "   ").unwrap();
    assert_eq!(empty.len(), 1);
    assert_eq!(empty[0][0].text, "");
}

#[test]
fn empty_theme_set_means_plain_lines() {
    let ss = SyntaxSet::load_defaults_newlines();
    let ts = ThemeSet { themes: Default::default() };
    let lines = try_highlighted_code_lines(&ss, &ts, "InspiredGitHub", true, Some("rust"), "let x = 1;").unwrap();
    assert_eq!(lines[0].len(), 1);
    assert_eq!(lines[0][0].color, SpanColor::Plain);
}

#[test]
fn syntax_set_without_plain_text_is_refused() {
    let ss = syntect::parsing::SyntaxSetBuilder::new().build();
    let ts = ThemeSet::load_defaults();
    assert!(try_highlighted_code_lines(&ss, &ts, "InspiredGitHub", true, Some("rust"), "x").is_none());
}

#[test]
fn the_syntax_follows_the_fence_language() {
    let ss = SyntaxSet::load_defaults_newlines();
    assert_eq!(code_syntax_name(&ss, Some("rs")), "Rust");
    assert_eq!(code_syntax_name(&ss, Some("RUST")), "Rust");
    assert_eq!(code_syntax_name(&ss, Some("py")), "Python");
    assert_eq!(code_syntax_name(&ss, Some("nolang")), "Plain Text");
    assert_eq!(code_syntax_name(&ss, None), "Plain Text");
}

#[test]
fn the_theme_is_the_asked_one_then_inspired_github_then_the_first() {
    let ts = ThemeSet::load_defaults();
    assert_eq!(code_theme_name(&ts, "Solarized (dark)").as_deref(), Some("Solarized (dark)"));
    assert_eq!(code_theme_name(&ts, "no-such-theme").as_deref(), Some("InspiredGitHub"));
    let mut fewer = ThemeSet::load_defaults();
    fewer.themes.remove("InspiredGitHub");
    let first = fewer.themes.keys().next().cloned();
    assert_eq!(code_theme_name(&fewer, "no-such-theme"), first);
    let empty = ThemeSet { themes: Default::default() };
    assert_eq!(code_theme_name(&empty, "InspiredGitHub"), None);
}

#[test]
fn lines_are_assembled_from_the_highlighter_outcomes() {
    let span = |t: &str| CodeSpan { text: t.to_string(), color: SpanColor::Theme { r: 1, g: 2, b: 3 } };
    let lines = vec!["ab".to_string(), "cd".to_string()];
    let out = assemble_code_lines(lines.clone(), vec![Some(vec![span("a"), span("b")]), None], true);
    assert_eq!(out.len(), 2);
    assert_eq!(out[0].len(), 2);
    assert_eq!(out[0][1].text, "b");
    assert!(out[1].is_empty());
    let plain = assemble_code_lines(lines, Vec::new(), false);
    assert_eq!(plain[1][0].text, "cd");
    assert_eq!(plain[1][0].color, SpanColor::Plain);
    let none = assemble_code_lines(Vec::new(), Vec::new(), true);
    assert_eq!(none.len(), 1);
    assert_eq!(none[0][0].text, "");
}
