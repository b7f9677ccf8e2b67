//! Math typesetting modes and the values the command line accepts.

use vstd::prelude::*;
use crate::text::{ascii_lower, chars_eq, to_ascii_lowercase};

verus! {

/// How formulas are typeset.
#[derive(Debug, Clone, Copy, PartialEq, Eq, Structural)]
pub enum MathMode {
    Katex,
    Lualatex,
    Latex,
    Fallback,
}

/// Which backends a formula goes through, in order.
#[derive(Debug, Clone, Copy, PartialEq, Eq, Structural)]
pub enum MathRoute {
    /// Typeset with TeX; if that fails, draw the plain-text fallback.
    TexThenFallback,
    /// Typeset with TeX; a failure is an error.
    Tex,
    /// Draw the plain-text fallback only.
    Fallback,
}

pub open spec fn route_of(mode: MathMode) -> MathRoute {
    match mode {
        MathMode::Katex => MathRoute::TexThenFallback,
        MathMode::Lualatex | MathMode::Latex => MathRoute::Tex,
        MathMode::Fallback => MathRoute::Fallback,
    }
}

impl MathMode {
    /// The backends this mode uses.
    pub fn route(self) -> (r: MathRoute)
        ensures
            r == route_of(self),
    {
        match self {
            MathMode::Katex => MathRoute::TexThenFallback,
            MathMode::Lualatex | MathMode::Latex => MathRoute::Tex,
            MathMode::Fallback => MathRoute::Fallback,
        }
    }
}

/// `latex` is accepted as another name for `lualatex`: both take the same
/// route.
pub proof fn law_latex_routes_as_lualatex()
    ensures
        route_of(MathMode::Latex) == route_of(MathMode::Lualatex),
        math_mode_named("latex"@) == Some(MathMode::Latex),
{
    reveal_strlit("latex");
    let v = "latex"@.map_values(|c: char| ascii_lower(c));
    assert(v =~= "latex"@);
    reveal_strlit("katex");
    reveal_strlit("lualatex");
    assert(v[0] != "katex"@[0]);
    assert(v.len() != "lualatex"@.len());
}

/// Page formats offered on the command line.
#[derive(Debug, Clone, Copy, PartialEq, Eq, Structural)]
pub enum PageSize {
    Letter,
    A4,
}

/// The page size named by a command-line value (ASCII case-insensitive).
pub open spec fn page_size_named(value: Seq<char>) -> Option<PageSize> {
    let v = value.map_values(|c: char| ascii_lower(c));
    if v == "letter"@ {
        Some(PageSize::Letter)
    } else if v == "a4"@ {
        Some(PageSize::A4)
    } else {
        None
    }
}

/// The math mode named by a command-line value (ASCII case-insensitive):
/// `katex`, `lualatex`, `latex` (the older name of the LuaLaTeX path) or
/// `fallback`.
pub open spec fn math_mode_named(value: Seq<char>) -> Option<MathMode> {
    let v = value.map_values(|c: char| ascii_lower(c));
    if v == "katex"@ {
        Some(MathMode::Katex)
    } else if v == "lualatex"@ {
        Some(MathMode::Lualatex)
    } else if v == "latex"@ {
        Some(MathMode::Latex)
    } else if v == "fallback"@ {
        Some(MathMode::Fallback)
    } else {
        None
    }
}

/// Reads the `--page-size` value; `None` for an unsupported size.
pub fn parse_page_size(value: &str) -> (r: Option<PageSize>)
    ensures
        r == page_size_named(value@),
{
    let v = to_ascii_lowercase(value);
    if chars_eq(&v, "letter") {
        Some(PageSize::Letter)
    } else if chars_eq(&v, "a4") {
        Some(PageSize::A4)
    } else {
        None
    }
}

/// Reads the `--math-mode` value; `None` for an unsupported mode.
pub fn parse_math_mode(value: &str) -> (r: Option<MathMode>)
    ensures
        r == math_mode_named(value@),
{
    let v = to_ascii_lowercase(value);
    if chars_eq(&v, "katex") {
        Some(MathMode::Katex)
    } else if chars_eq(&v, "lualatex") {
        Some(MathMode::Lualatex)
    } else if chars_eq(&v, "latex") {
        Some(MathMode::Latex)
    } else if chars_eq(&v, "fallback") {
        Some(MathMode::Fallback)
    } else {
        None
    }
}

/// The cache key of a typeset formula: its mode (`display` or `inline`), a
/// colon, and its TeX.
pub fn math_cache_key(tex: &str, display: bool) -> (r: String)
    ensures
        r@ == (if display { "display:"@ } else { "inline:"@ }) + tex@,
{
    let mut key = String::new();
    if display {
        key.append("display:");
    } else {
        key.append("inline:");
    }
    key.append(tex);
    key
}

} // verus!
