use pagedown::options::{math_cache_key, parse_math_mode, parse_page_size, MathMode, MathRoute, PageSize};

#[test]
fn command_line_values_are_case_insensitive() {
    assert_eq!(parse_page_size("Letter"), Some(PageSize::Letter));
    assert_eq!(parse_page_size("A4"), Some(PageSize::A4));
    assert_eq!(parse_page_size("legal"), None);
    assert_eq!(parse_math_mode("LaTeX"), Some(MathMode::Latex));
    assert_eq!(parse_math_mode("fallback"), Some(MathMode::Fallback));
    assert_eq!(parse_math_mode("katex"), Some(MathMode::Katex));
    assert_eq!(parse_math_mode("LuaLaTeX"), Some(MathMode::Lualatex));
    assert_eq!(parse_math_mode("mathjax"), None);
}

#[test]
fn math_modes_route_to_backends() {
    assert_eq!(MathMode::Katex.route(), MathRoute::TexThenFallback);
    assert_eq!(MathMode::Lualatex.route(), MathRoute::Tex);
    assert_eq!(MathMode::Latex.route(), MathRoute::Tex);
    assert_eq!(MathMode::Fallback.route(), MathRoute::Fallback);
}

#[test]
fn math_cache_keys_separate_display_and_inline() {
    assert_eq!(math_cache_key("x^2", true), "display:x^2");
    assert_eq!(math_cache_key("x^2", false), "inline:x^2");
}

#[test]
fn latex_is_an_alias_for_lualatex() {
    let latex = parse_math_mode("latex").unwrap();
    let lualatex = parse_math_mode("lualatex").unwrap();
    assert_eq!(latex.route(), lualatex.route());
}
