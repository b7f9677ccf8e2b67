//! Code block lines and their colours, highlighted with `syntect`.

use vstd::prelude::*;
use syntect::easy::HighlightLines;
use syntect::highlighting::{Theme, ThemeSet};
use syntect::parsing::SyntaxSet;
use crate::text::{
    all_space, ascii_lower, chars_eq, chars_of, is_space_char, is_whitespace, lemma_trim_end_drop,
    lines_in, lines_of, to_ascii_lowercase, trim_end_seq,
};

verus! {

/// The lines of a code block: its text without trailing whitespace, split
/// into lines.
pub open spec fn code_lines_of(text: Seq<char>) -> Seq<Seq<char>> {
    lines_of(trim_end_seq(text))
}

/// The lines of a code block's text, trailing whitespace removed first.
pub fn code_lines(text: &str) -> (lines: Vec<String>)
    ensures
        lines@.map_values(|l: String| l@) == code_lines_of(text@),
{
    let cs = chars_of(text);
    let mut n = cs.len();
    while n > 0 && is_whitespace(cs[n - 1])
        invariant
            n <= cs.len(),
            all_space(cs@.subrange(n as int, cs@.len() as int)),
        decreases n,
    {
        assert(cs@.subrange(n - 1, cs@.len() as int) == seq![cs@[n - 1]] + cs@.subrange(
            n as int,
            cs@.len() as int,
        ));
        n = n - 1;
    }
    proof {
        lemma_trim_end_drop(cs@, n as int);
        if n > 0 {
            assert(!is_space_char(cs@.take(n as int).last()));
        }
    }
    assert(trim_end_seq(text@) == cs@.take(n as int));
    lines_in(&cs, n)
}

/// The colour of a piece of code: a theme's foreground colour, or the plain
/// text colour used when code is not highlighted.
#[derive(Debug, Clone, Copy, PartialEq, Eq, Structural)]
pub enum SpanColor {
    Theme { r: u8, g: u8, b: u8 },
    Plain,
}

/// A piece of a code line with its colour.
#[derive(Debug)]
pub struct CodeSpan {
    pub text: String,
    pub color: SpanColor,
}

/// The text of a line of spans.
pub open spec fn spans_text(spans: Seq<CodeSpan>) -> Seq<char> {
    spans.map_values(|s: CodeSpan| s.text@).flatten()
}


#[verifier::external_type_specification]
#[verifier::external_body]
pub struct ExSyntaxSet(SyntaxSet);

#[verifier::external_type_specification]
#[verifier::external_body]
pub struct ExThemeSet(ThemeSet);

#[verifier::external_type_specification]
#[verifier::external_body]
pub struct ExTheme(Theme);

/// The names of the syntax definitions a `syntect::parsing::SyntaxSet` holds.
pub uninterp spec fn syntax_names(ss: SyntaxSet) -> Seq<Seq<char>>;

/// The keys of the theme map of a `syntect::highlighting::ThemeSet`.
pub uninterp spec fn theme_names(ts: ThemeSet) -> Set<Seq<char>>;

/// `SyntaxSet::find_syntax_by_name(name).is_some()`: the set holds a syntax
/// named exactly `name`.
#[verifier::external_body]
fn has_syntax_named(ss: &SyntaxSet, name: &str) -> (r: bool)
    ensures
        r == syntax_names(*ss).contains(name@),
{
    ss.find_syntax_by_name(name).is_some()
}

/// The file extensions of each syntax definition of a
/// `syntect::parsing::SyntaxSet`, in the order of `syntaxes()`.
pub uninterp spec fn syntax_extensions(ss: SyntaxSet) -> Seq<Seq<Seq<char>>>;

/// The names of a list of syntaxes with their extensions.
pub open spec fn list_names(l: Seq<(String, Vec<String>)>) -> Seq<Seq<char>> {
    l.map_values(|p: (String, Vec<String>)| p.0@)
}

/// The extensions of a list of syntaxes with their extensions.
pub open spec fn list_exts(l: Seq<(String, Vec<String>)>) -> Seq<Seq<Seq<char>>> {
    l.map_values(|p: (String, Vec<String>)| p.1@.map_values(|e: String| e@))
}

/// `SyntaxSet::syntaxes`: the name and file extensions of each syntax, in
/// order.
#[verifier::external_body]
fn syntax_list(ss: &SyntaxSet) -> (r: Vec<(String, Vec<String>)>)
    ensures
        list_names(r@) == syntax_names(*ss),
        list_exts(r@) == syntax_extensions(*ss),
{
    ss.syntaxes().iter().map(|s| (s.name.clone(), s.file_extensions.clone())).collect()
}

/// `a` and `b` are equal up to ASCII case (`str::eq_ignore_ascii_case`).
pub open spec fn eq_ignore_ascii_case(a: Seq<char>, b: Seq<char>) -> bool {
    a.len() == b.len() && forall|i: int| 0 <= i < a.len() ==> ascii_lower(#[trigger] a[i]) == ascii_lower(b[i])
}

/// Some extension in `exts` equals `token` up to ASCII case.
pub open spec fn has_ext(exts: Seq<Seq<char>>, token: Seq<char>) -> bool {
    exists|j: int| 0 <= j < exts.len() && eq_ignore_ascii_case(#[trigger] exts[j], token)
}

/// The last syntax below `n` with `token` among its extensions.
pub open spec fn last_ext(exts: Seq<Seq<Seq<char>>>, n: int, token: Seq<char>) -> Option<int>
    decreases n,
{
    if n <= 0 {
        None
    } else if has_ext(exts[n - 1], token) {
        Some(n - 1)
    } else {
        last_ext(exts, n - 1, token)
    }
}

/// The last syntax below `n` named `token` up to ASCII case.
pub open spec fn last_name_ci(names: Seq<Seq<char>>, n: int, token: Seq<char>) -> Option<int>
    decreases n,
{
    if n <= 0 {
        None
    } else if eq_ignore_ascii_case(names[n - 1], token) {
        Some(n - 1)
    } else {
        last_name_ci(names, n - 1, token)
    }
}

/// The last syntax below `n` named exactly `name`.
pub open spec fn last_name(names: Seq<Seq<char>>, n: int, name: Seq<char>) -> Option<int>
    decreases n,
{
    if n <= 0 {
        None
    } else if names[n - 1] == name {
        Some(n - 1)
    } else {
        last_name(names, n - 1, name)
    }
}

/// The syntax `SyntaxSet::find_syntax_by_token` finds for `token`: the last
/// syntax with a file extension equal to `token` up to ASCII case, else the
/// last one whose name is.
pub open spec fn token_syntax(names: Seq<Seq<char>>, exts: Seq<Seq<Seq<char>>>, token: Seq<char>) -> Option<int> {
    match last_ext(exts, names.len() as int, token) {
        Some(i) => Some(i),
        None => last_name_ci(names, names.len() as int, token),
    }
}

/// The syntax `SyntaxSet::find_syntax_plain_text` finds: the last one named
/// "Plain Text".
pub open spec fn plain_text_index(names: Seq<Seq<char>>) -> int {
    match last_name(names, names.len() as int, "Plain Text"@) {
        Some(i) => i,
        None => 0,
    }
}

/// The syntax a code block in language `lang` is highlighted with: the one
/// found for its language, else plain text.
pub open spec fn syntax_index_choice(names: Seq<Seq<char>>, exts: Seq<Seq<Seq<char>>>, lang: Option<Seq<char>>) -> int {
    match lang {
        Some(t) => match token_syntax(names, exts, t) {
            Some(i) => i,
            None => plain_text_index(names),
        },
        None => plain_text_index(names),
    }
}

proof fn lemma_last_name_found(names: Seq<Seq<char>>, n: int, name: Seq<char>)
    requires
        0 <= n <= names.len(),
        exists|i: int| 0 <= i < n && names[i] == name,
    ensures
        last_name(names, n, name) matches Some(i) && 0 <= i < n && names[i] == name,
    decreases n,
{
    if names[n - 1] != name {
        let i = choose|i: int| 0 <= i < n && names[i] == name;
        assert(i < n - 1);
        lemma_last_name_found(names, n - 1, name);
    }
}

proof fn lemma_last_ext_range(exts: Seq<Seq<Seq<char>>>, n: int, token: Seq<char>)
    ensures
        last_ext(exts, n, token) matches Some(i) ==> 0 <= i < n,
    decreases n,
{
    if n > 0 {
        lemma_last_ext_range(exts, n - 1, token);
    }
}

proof fn lemma_last_name_ci_range(names: Seq<Seq<char>>, n: int, token: Seq<char>)
    ensures
        last_name_ci(names, n, token) matches Some(i) ==> 0 <= i < n,
    decreases n,
{
    if n > 0 {
        lemma_last_name_ci_range(names, n - 1, token);
    }
}

fn same_chars(a: &Vec<char>, b: &Vec<char>) -> (r: bool)
    ensures
        r == (a@ == b@),
{
    if a.len() != b.len() {
        return false;
    }
    let mut i: usize = 0;
    while i < a.len()
        invariant
            i <= a.len(),
            a.len() == b.len(),
            forall|k: int| 0 <= k < i ==> a@[k] == b@[k],
        decreases a.len() - i,
    {
        if a[i] != b[i] {
            return false;
        }
        i = i + 1;
    }
    assert(a@ =~= b@);
    true
}

fn ignore_case_eq(a: &str, b: &str) -> (r: bool)
    ensures
        r == eq_ignore_ascii_case(a@, b@),
{
    let la = to_ascii_lowercase(a);
    let lb = to_ascii_lowercase(b);
    let r = same_chars(&la, &lb);
    proof {
        if r {
            assert(la@.len() == a@.len() && lb@.len() == b@.len());
            assert forall|i: int| 0 <= i < a@.len() implies ascii_lower(#[trigger] a@[i]) == ascii_lower(b@[i]) by {
                assert(la@[i] == lb@[i]);
            }
        } else if eq_ignore_ascii_case(a@, b@) {
            assert(la@ =~= lb@);
        }
    }
    r
}

fn names_equal(a: &String, b: &str) -> (r: bool)
    ensures
        r == (a@ == b@),
{
    let ca = chars_of(a.as_str());
    chars_eq(&ca, b)
}

fn has_ext_exec(exts: &Vec<String>, token: &str) -> (r: bool)
    ensures
        r == has_ext(exts@.map_values(|e: String| e@), token@),
{
    let ghost ev = exts@.map_values(|e: String| e@);
    let mut j: usize = 0;
    while j < exts.len()
        invariant
            j <= exts.len(),
            ev == exts@.map_values(|e: String| e@),
            forall|k: int| 0 <= k < j ==> !eq_ignore_ascii_case(#[trigger] ev[k], token@),
        decreases exts.len() - j,
    {
        if ignore_case_eq(exts[j].as_str(), token) {
            assert(ev[j as int] == exts@[j as int]@);
            return true;
        }
        j = j + 1;
    }
    false
}

fn find_syntax_index(list: &Vec<(String, Vec<String>)>, token: &str) -> (r: Option<usize>)
    ensures
        match r {
            Some(i) => token_syntax(list_names(list@), list_exts(list@), token@) == Some(i as int),
            None => token_syntax(list_names(list@), list_exts(list@), token@) is None,
        },
{
    let ghost names = list_names(list@);
    let ghost exts = list_exts(list@);
    let n = list.len();
    let mut i = n;
    while i > 0
        invariant
            i <= n,
            n == list.len(),
            names == list_names(list@),
            exts == list_exts(list@),
            last_ext(exts, n as int, token@) == last_ext(exts, i as int, token@),
        decreases i,
    {
        assert(exts[i - 1] == list@[i - 1].1@.map_values(|e: String| e@));
        if has_ext_exec(&list[i - 1].1, token) {
            return Some(i - 1);
        }
        i = i - 1;
    }
    let mut i = n;
    while i > 0
        invariant
            i <= n,
            n == list.len(),
            names == list_names(list@),
            exts == list_exts(list@),
            last_ext(exts, n as int, token@) is None,
            last_name_ci(names, n as int, token@) == last_name_ci(names, i as int, token@),
        decreases i,
    {
        assert(names[i - 1] == list@[i - 1].0@);
        if ignore_case_eq(list[i - 1].0.as_str(), token) {
            return Some(i - 1);
        }
        i = i - 1;
    }
    None
}

fn plain_text_position(list: &Vec<(String, Vec<String>)>) -> (r: usize)
    requires
        list_names(list@).contains("Plain Text"@),
    ensures
        r == plain_text_index(list_names(list@)),
        r < list.len(),
{
    let ghost names = list_names(list@);
    proof {
        let k = choose|k: int| 0 <= k < names.len() && names[k] == "Plain Text"@;
        lemma_last_name_found(names, names.len() as int, "Plain Text"@);
    }
    let n = list.len();
    let mut i = n;
    while i > 0
        invariant
            i <= n,
            n == list.len(),
            names == list_names(list@),
            last_name(names, n as int, "Plain Text"@) == last_name(names, i as int, "Plain Text"@),
            last_name(names, n as int, "Plain Text"@) is Some,
        decreases i,
    {
        assert(names[i - 1] == list@[i - 1].0@);
        if names_equal(&list[i - 1].0, "Plain Text") {
            return i - 1;
        }
        i = i - 1;
    }
    0
}

/// The position of the syntax a code block in language `lang` is
/// highlighted with.
fn choose_syntax(list: &Vec<(String, Vec<String>)>, lang: Option<&str>) -> (r: usize)
    requires
        list_names(list@).contains("Plain Text"@),
    ensures
        r == syntax_index_choice(list_names(list@), list_exts(list@), opt_view(lang)),
        r < list.len(),
{
    proof {
        if let Some(t) = lang {
            lemma_last_ext_range(list_exts(list@), list@.len() as int, t@);
            lemma_last_name_ci_range(list_names(list@), list@.len() as int, t@);
        }
    }
    match lang {
        Some(t) => match find_syntax_index(list, t) {
            Some(i) => i,
            None => plain_text_position(list),
        },
        None => plain_text_position(list),
    }
}

/// The view of an optional string slice.
pub open spec fn opt_view(s: Option<&str>) -> Option<Seq<char>> {
    match s {
        Some(t) => Some(t@),
        None => None,
    }
}

/// The name of the syntax a code block in language `lang` is highlighted
/// with: the one `find_syntax_by_token` finds for the language, else
/// "Plain Text".
pub fn code_syntax_name(ss: &SyntaxSet, lang: Option<&str>) -> (r: String)
    requires
        syntax_names(*ss).contains("Plain Text"@),
    ensures
        r@ == syntax_names(*ss)[syntax_index_choice(syntax_names(*ss), syntax_extensions(*ss), opt_view(lang))],
{
    let list = syntax_list(ss);
    let i = choose_syntax(&list, lang);
    list[i].0.clone()
}

/// `ThemeSet.themes.get(name)`: present exactly when the map has that key.
#[verifier::external_body]
fn theme_named<'a>(ts: &'a ThemeSet, name: &str) -> (r: Option<&'a Theme>)
    ensures
        r is Some <==> theme_names(*ts).contains(name@),
{
    ts.themes.get(name)
}

/// `a` comes before `b` in the order of `String` (code point by code point,
/// a proper prefix first).
pub open spec fn chars_lt(a: Seq<char>, b: Seq<char>) -> bool {
    exists|k: int|
        0 <= k <= a.len() && k <= b.len() && #[trigger] a.take(k) == b.take(k) && ((k == a.len() && k < b.len()) || (k
            < a.len() && k < b.len() && (a[k] as u32) < (b[k] as u32)))
}

/// `name` is the first of `names` in the order of `String`.
pub open spec fn first_name(name: Seq<char>, names: Set<Seq<char>>) -> bool {
    names.contains(name) && forall|n: Seq<char>| #[trigger] names.contains(n) && n != name ==> chars_lt(name, n)
}

proof fn lemma_lt_asymmetric(a: Seq<char>, b: Seq<char>)
    ensures
        !(chars_lt(a, b) && chars_lt(b, a)),
{
    if !(chars_lt(a, b) && chars_lt(b, a)) {
        return;
    }
    let k1 = choose|k: int|
        0 <= k <= a.len() && k <= b.len() && #[trigger] a.take(k) == b.take(k) && ((k == a.len() && k < b.len()) || (k
            < a.len() && k < b.len() && (a[k] as u32) < (b[k] as u32)));
    let k2 = choose|k: int|
        0 <= k <= b.len() && k <= a.len() && #[trigger] b.take(k) == a.take(k) && ((k == b.len() && k < a.len()) || (k
            < b.len() && k < a.len() && (b[k] as u32) < (a[k] as u32)));
    if k1 < k2 {
        assert(a.take(k2)[k1] == b.take(k2)[k1]);
    } else if k2 < k1 {
        assert(a.take(k1)[k2] == b.take(k1)[k2]);
    }
}

/// Two first names of one set are the same name.
pub proof fn law_first_name_unique(a: Seq<char>, b: Seq<char>, names: Set<Seq<char>>)
    requires
        first_name(a, names),
        first_name(b, names),
    ensures
        a == b,
{
    if a != b {
        assert(names.contains(b));
        assert(names.contains(a));
        lemma_lt_asymmetric(a, b);
    }
}

/// `ThemeSet.themes.keys().next()`: the first key of the theme map, which is
/// a `BTreeMap` ordered by `String`; `None` when the map is empty.
#[verifier::external_body]
fn first_theme_name(ts: &ThemeSet) -> (r: Option<String>)
    ensures
        match r {
            Some(name) => first_name(name@, theme_names(*ts)),
            None => theme_names(*ts) == Set::<Seq<char>>::empty(),
        },
{
    ts.themes.keys().next().cloned()
}

/// The theme code blocks are highlighted with: `code_theme` when the set has
/// it, else "InspiredGitHub" when it has that, else the first theme by name.
pub open spec fn chosen_theme(names: Set<Seq<char>>, code_theme: Seq<char>) -> Seq<char> {
    if names.contains(code_theme) {
        code_theme
    } else if names.contains("InspiredGitHub"@) {
        "InspiredGitHub"@
    } else {
        choose|n: Seq<char>| first_name(n, names)
    }
}

/// The name of the theme code blocks are highlighted with; `None` when the
/// set has no theme.
pub fn code_theme_name(ts: &ThemeSet, code_theme: &str) -> (r: Option<String>)
    ensures
        match r {
            Some(n) => n@ == chosen_theme(theme_names(*ts), code_theme@) && theme_names(*ts).contains(n@),
            None => theme_names(*ts) == Set::<Seq<char>>::empty(),
        },
{
    if theme_named(ts, code_theme).is_some() {
        Some(code_theme.to_string())
    } else if theme_named(ts, "InspiredGitHub").is_some() {
        Some("InspiredGitHub".to_string())
    } else {
        let r = first_theme_name(ts);
        proof {
            if r is Some {
                let n = r->0@;
                let names = theme_names(*ts);
                assert(first_name(n, names));
                let c = choose|m: Seq<char>| first_name(m, names);
                law_first_name_unique(n, c, names);
            }
        }
        r
    }
}

/// What syntect's `HighlightLines` gives for `lines`, highlighted in order
/// with one highlighter made for syntax number `syntax` of `ss` and theme
/// `theme` of `ts`: for each line, its pieces with their foreground colours,
/// or nothing when the line could not be parsed. The highlighter is
/// deterministic: its output depends on these arguments alone.
pub uninterp spec fn highlighted_spans(
    ss: SyntaxSet,
    ts: ThemeSet,
    syntax: int,
    theme: Seq<char>,
    lines: Seq<Seq<char>>,
) -> Seq<Option<Seq<(Seq<char>, SpanColor)>>>;

/// `s` begins with `p`.
pub open spec fn is_prefix(p: Seq<char>, s: Seq<char>) -> bool {
    p.len() <= s.len() && s.take(p.len() as int) == p
}

/// Highlights `lines` in order with one `HighlightLines` made for syntax
/// number `syntax` of `ss` (`ss.syntaxes()[syntax]`) and theme `theme` of
/// `ts`, each `(Style, &str)` piece of a line converted to a span coloured
/// with the style's foreground, and an error on a line to `None`. One
/// outcome per line; the pieces of a line are consecutive slices of it from
/// its start (the highlight iterator stops early when a scope operation
/// fails), so they spell the line or a beginning of it.
#[verifier::external_body]
fn highlight_all(ss: &SyntaxSet, ts: &ThemeSet, syntax: usize, theme: &str, lines: &Vec<String>) -> (r: Vec<
    Option<Vec<CodeSpan>>,
>)
    requires
        syntax < syntax_names(*ss).len(),
        theme_names(*ts).contains(theme@),
    ensures
        outcomes_view(r@) == highlighted_spans(*ss, *ts, syntax as int, theme@, lines@.map_values(|l: String| l@)),
        outcomes_fit(outcomes_view(r@), lines@.map_values(|l: String| l@)),
{
    let mut h = HighlightLines::new(&ss.syntaxes()[syntax], &ts.themes[theme]);
    let mut out = Vec::new();
    for line in lines {
        out.push(h.highlight_line(line, ss).ok().map(|ranges| ranges.into_iter().map(|(style, piece)| CodeSpan {
            text: piece.to_string(),
            color: SpanColor::Theme { r: style.foreground.r, g: style.foreground.g, b: style.foreground.b },
        }).collect()));
    }
    out
}

/// Model of a [`CodeSpan`]: its text and colour.
pub open spec fn span_view(s: CodeSpan) -> (Seq<char>, SpanColor) {
    (s.text@, s.color)
}

/// The models of a line of spans.
pub open spec fn spans_view(s: Seq<CodeSpan>) -> Seq<(Seq<char>, SpanColor)> {
    s.map_values(|c: CodeSpan| span_view(c))
}

/// The models of the lines of a code block.
pub open spec fn code_view(out: Seq<Vec<CodeSpan>>) -> Seq<Seq<(Seq<char>, SpanColor)>> {
    out.map_values(|l: Vec<CodeSpan>| spans_view(l@))
}

/// The models of per-line highlighting outcomes.
pub open spec fn outcomes_view(o: Seq<Option<Vec<CodeSpan>>>) -> Seq<Option<Seq<(Seq<char>, SpanColor)>>> {
    o.map_values(
        |x: Option<Vec<CodeSpan>>|
            match x {
                Some(v) => Some(spans_view(v@)),
                None => None,
            },
    )
}

/// The text of a modelled line of spans.
pub open spec fn view_text(s: Seq<(Seq<char>, SpanColor)>) -> Seq<char> {
    s.map_values(|p: (Seq<char>, SpanColor)| p.0).flatten()
}

/// Highlighting outcomes that a highlighter can give for `lines`: one per
/// line, each either a failure or spans that spell the line or a beginning of
/// it.
pub open spec fn outcomes_fit(outcomes: Seq<Option<Seq<(Seq<char>, SpanColor)>>>, lines: Seq<Seq<char>>) -> bool {
    &&& outcomes.len() == lines.len()
    &&& forall|i: int|
        0 <= i < outcomes.len() ==> (#[trigger] outcomes[i] matches Some(s) ==> is_prefix(view_text(s), lines[i]))
}

/// The lines of a code block from the highlighter's outcome for each line:
/// when highlighting, a line's spans are what the highlighter gave for it
/// (none when it failed on the line); otherwise each line is one plain span;
/// a block without lines gives one empty plain line.
pub open spec fn assembled(
    lines: Seq<Seq<char>>,
    outcomes: Seq<Option<Seq<(Seq<char>, SpanColor)>>>,
    highlighted: bool,
) -> Seq<Seq<(Seq<char>, SpanColor)>> {
    if lines.len() == 0 {
        seq![seq![(Seq::<char>::empty(), SpanColor::Plain)]]
    } else {
        Seq::new(
            lines.len(),
            |i: int|
                if highlighted {
                    match outcomes[i] {
                        Some(s) => s,
                        None => Seq::empty(),
                    }
                } else {
                    seq![(lines[i], SpanColor::Plain)]
                },
        )
    }
}

/// Builds the lines of a code block from the highlighter's outcome for each
/// of its lines (unused when not highlighting).
pub fn assemble_code_lines(lines: Vec<String>, outcomes: Vec<Option<Vec<CodeSpan>>>, highlighted: bool) -> (out: Vec<
    Vec<CodeSpan>,
>)
    requires
        highlighted ==> outcomes.len() == lines.len(),
    ensures
        code_view(out@) == assembled(lines@.map_values(|l: String| l@), outcomes_view(outcomes@), highlighted),
{
    let ghost lv = lines@.map_values(|l: String| l@);
    let ghost ov = outcomes_view(outcomes@);
    let ghost target = assembled(lv, ov, highlighted);
    let n = lines.len();
    let mut out: Vec<Vec<CodeSpan>> = Vec::new();
    if n == 0 {
        let mut line: Vec<CodeSpan> = Vec::new();
        let empty = String::new();
        assert(empty@ == Seq::<char>::empty());
        line.push(CodeSpan { text: empty, color: SpanColor::Plain });
        assert(spans_view(line@) =~= seq![(Seq::<char>::empty(), SpanColor::Plain)]);
        out.push(line);
        assert(code_view(out@) =~= target);
        return out;
    }
    let ghost ol = outcomes@;
    let mut rest = outcomes;
    assert(ol.skip(0) == ol);
    for line in it: lines
        invariant
            it.seq() == lines@,
            n == lv.len(),
            n == lines@.len(),
            lv == lines@.map_values(|l: String| l@),
            target == assembled(lv, ov, highlighted),
            ov == outcomes_view(ol),
            highlighted ==> ol.len() == n,
            highlighted ==> rest@ == ol.skip(it.index() as int),
            out.len() == it.index(),
            forall|k: int| 0 <= k < it.index() ==> spans_view(#[trigger] out@[k]@) == target[k],
    {
        let ghost idx = it.index() as int;
        assert(line@ == lv[idx]);
        if highlighted {
            let ghost before = rest@;
            let outcome = rest.remove(0);
            proof {
                assert(outcome == ol[idx]);
                assert(rest@ == ol.skip(idx + 1));
                assert(ov[idx] == match ol[idx] {
                    Some(v) => Some(spans_view(v@)),
                    None => None,
                });
            }
            let spans = match outcome {
                Some(spans) => spans,
                None => Vec::new(),
            };
            assert(spans_view(spans@) =~= target[idx]);
            out.push(spans);
        } else {
            let mut spans: Vec<CodeSpan> = Vec::new();
            spans.push(CodeSpan { text: line, color: SpanColor::Plain });
            assert(spans_view(spans@) =~= target[idx]);
            out.push(spans);
        }
    }
    assert(code_view(out@) =~= target);
    out
}

/// Splits a code block into coloured lines: its lines (see
/// [`code_lines`]) assembled (see [`assemble_code_lines`]) from what syntect
/// gives when they are highlighted with the syntax [`code_syntax_name`]
/// names and the theme [`code_theme_name`] names. Without highlighting, or
/// without any theme, lines are plain.
pub fn highlighted_code_lines(
    syntax_set: &SyntaxSet,
    theme_set: &ThemeSet,
    code_theme: &str,
    highlighting: bool,
    lang: Option<&str>,
    text: &str,
) -> (out: Vec<Vec<CodeSpan>>)
    requires
        syntax_names(*syntax_set).contains("Plain Text"@),
    ensures
        code_view(out@) == assembled(
            code_lines_of(text@),
            highlighted_spans(
                *syntax_set,
                *theme_set,
                syntax_index_choice(syntax_names(*syntax_set), syntax_extensions(*syntax_set), opt_view(lang)),
                chosen_theme(theme_names(*theme_set), code_theme@),
                code_lines_of(text@),
            ),
            highlighting && theme_names(*theme_set) != Set::<Seq<char>>::empty(),
        ),
        highlighting && theme_names(*theme_set) != Set::<Seq<char>>::empty() ==> outcomes_fit(
            highlighted_spans(
                *syntax_set,
                *theme_set,
                syntax_index_choice(syntax_names(*syntax_set), syntax_extensions(*syntax_set), opt_view(lang)),
                chosen_theme(theme_names(*theme_set), code_theme@),
                code_lines_of(text@),
            ),
            code_lines_of(text@),
        ),
{
    let list = syntax_list(syntax_set);
    let syntax = choose_syntax(&list, lang);
    let theme_name = code_theme_name(theme_set, code_theme);
    let lines = code_lines(text);
    let ghost lv = lines@.map_values(|l: String| l@);
    let ghost target = highlighted_spans(
        *syntax_set,
        *theme_set,
        syntax as int,
        chosen_theme(theme_names(*theme_set), code_theme@),
        lv,
    );
    let highlighted = highlighting && theme_name.is_some();
    let outcomes = match theme_name {
        Some(name) => if highlighting {
            highlight_all(syntax_set, theme_set, syntax, name.as_str(), &lines)
        } else {
            Vec::new()
        },
        None => Vec::new(),
    };
    proof {
        if !highlighted {
            assert(assembled(lv, outcomes_view(outcomes@), false) =~= assembled(lv, target, false));
        }
    }
    let out = assemble_code_lines(lines, outcomes, highlighted);
    out
}

/// [`highlighted_code_lines`], when the syntax set has the plain-text syntax
/// it falls back to; `None` when it has not.
pub fn try_highlighted_code_lines(
    syntax_set: &SyntaxSet,
    theme_set: &ThemeSet,
    code_theme: &str,
    highlighting: bool,
    lang: Option<&str>,
    text: &str,
) -> (out: Option<Vec<Vec<CodeSpan>>>)
    ensures
        out is Some <==> syntax_names(*syntax_set).contains("Plain Text"@),
        out matches Some(lines) ==> code_view(lines@) == assembled(
            code_lines_of(text@),
            highlighted_spans(
                *syntax_set,
                *theme_set,
                syntax_index_choice(syntax_names(*syntax_set), syntax_extensions(*syntax_set), opt_view(lang)),
                chosen_theme(theme_names(*theme_set), code_theme@),
                code_lines_of(text@),
            ),
            highlighting && theme_names(*theme_set) != Set::<Seq<char>>::empty(),
        ),
{
    if has_syntax_named(syntax_set, "Plain Text") {
        Some(highlighted_code_lines(syntax_set, theme_set, code_theme, highlighting, lang, text))
    } else {
        None
    }
}

} // verus!
