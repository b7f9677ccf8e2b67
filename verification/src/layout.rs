//! Renderer decisions that need no geometry: line tokens, font switches,
//! footnote numbers, table columns, code accents and labels.

use vstd::prelude::*;
use crate::ir::{Alignment, Block, BlockView, Document, Inline, InlineView, QuoteKind, Table, TableView, block_view, inlines_to_plain_text, inlines_view, plain_seq, table_view};
use crate::text::{all_space, ascii_lower, chars_eq, is_blank, is_space_char, is_whitespace, no_space, push_char, to_ascii_lowercase};

verus! {

/// A character as the line breaker sees it: whitespace becomes a plain space.
pub open spec fn space_normalized(c: char) -> char {
    if is_space_char(c) {
        ' '
    } else {
        c
    }
}

/// A non-empty run of plain spaces.
pub open spec fn is_space_token(t: Seq<char>) -> bool {
    t.len() > 0 && forall|i: int| 0 <= i < t.len() ==> #[trigger] t[i] == ' '
}

/// A non-empty run of characters none of which is whitespace.
pub open spec fn is_word_token(t: Seq<char>) -> bool {
    t.len() > 0 && no_space(t)
}

/// `ts` splits a text into maximal runs: each token is all spaces or all
/// non-whitespace, and neighbouring tokens are of different kinds.
pub open spec fn is_token_run(ts: Seq<Seq<char>>) -> bool {
    &&& forall|i: int| 0 <= i < ts.len() ==> is_space_token(#[trigger] ts[i]) || is_word_token(ts[i])
    &&& forall|i: int|
        0 <= i < ts.len() - 1 ==> is_space_token(#[trigger] ts[i]) != is_space_token(ts[i + 1])
}

/// The views of a list of strings.
pub open spec fn strings_view(v: Seq<String>) -> Seq<Seq<char>> {
    v.map_values(|s: String| s@)
}

proof fn lemma_word_not_space(t: Seq<char>)
    requires
        is_word_token(t),
    ensures
        !is_space_token(t),
{
    assert(!is_space_char(t[0]));
}

proof fn lemma_token_run_push(ts: Seq<Seq<char>>, t: Seq<char>)
    requires
        is_token_run(ts),
        is_space_token(t) || is_word_token(t),
        ts.len() > 0 ==> is_space_token(ts.last()) != is_space_token(t),
    ensures
        is_token_run(ts.push(t)),
{
    let r = ts.push(t);
    assert forall|i: int| 0 <= i < r.len() - 1 implies is_space_token(#[trigger] r[i])
        != is_space_token(r[i + 1]) by {
        if i < ts.len() - 1 {
            assert(r[i] == ts[i] && r[i + 1] == ts[i + 1]);
        } else {
            assert(r[i] == ts.last() && r[i + 1] == t);
        }
    }
    assert forall|i: int| 0 <= i < r.len() implies is_space_token(#[trigger] r[i]) || is_word_token(
        r[i],
    ) by {
        if i < ts.len() {
            assert(r[i] == ts[i]);
        }
    }
}

proof fn lemma_token_kind(t: Seq<char>, i: int)
    requires
        is_space_token(t) || is_word_token(t),
        0 <= i < t.len(),
    ensures
        is_space_char(t[i]) == is_space_token(t),
{
    if is_word_token(t) {
        lemma_word_not_space(t);
    }
}

proof fn lemma_flatten_front(ts: Seq<Seq<char>>, i: int)
    requires
        ts.len() > 0,
        0 <= i < ts[0].len(),
    ensures
        ts.flatten()[i] == ts[0][i],
        ts.flatten() == ts[0] + ts.drop_first().flatten(),
{
}

proof fn lemma_run_tail(ts: Seq<Seq<char>>)
    requires
        is_token_run(ts),
        ts.len() > 0,
    ensures
        is_token_run(ts.drop_first()),
{
    let r = ts.drop_first();
    assert forall|i: int| 0 <= i < r.len() - 1 implies is_space_token(#[trigger] r[i]) != is_space_token(
        r[i + 1],
    ) by {
        assert(r[i] == ts[i + 1] && r[i + 1] == ts[i + 2]);
    }
    assert forall|i: int| 0 <= i < r.len() implies is_space_token(#[trigger] r[i]) || is_word_token(r[i]) by {
        assert(r[i] == ts[i + 1]);
    }
}

/// The first token of a run is as long as the first run of same-kind
/// characters of the text.
proof fn lemma_first_token_len(ts: Seq<Seq<char>>, us: Seq<Seq<char>>)
    requires
        is_token_run(ts),
        is_token_run(us),
        ts.len() > 0,
        us.len() > 0,
        ts.flatten() == us.flatten(),
    ensures
        ts[0].len() <= us[0].len(),
{
    let s = ts.flatten();
    assert(is_space_token(ts[0]) || is_word_token(ts[0]));
    assert(is_space_token(us[0]) || is_word_token(us[0]));
    if ts[0].len() > us[0].len() {
        let p = us[0].len() as int;
        lemma_flatten_front(ts, 0);
        lemma_flatten_front(us, 0);
        lemma_token_kind(ts[0], 0);
        lemma_token_kind(us[0], 0);
        lemma_token_kind(ts[0], p);
        assert(s[p] == ts[0][p]);
        // position p lies in the second token of `us`
        assert(us.len() > 1) by {
            if us.len() == 1 {
                assert(us.drop_first().flatten() == Seq::<char>::empty());
                assert(s.len() == us[0].len());
            }
        }
        let rest = us.drop_first();
        assert(rest.flatten() == rest[0] + rest.drop_first().flatten());
        assert(rest[0] == us[1]);
        assert(us[1].len() > 0);
        assert(s[p] == us[1][0]);
        lemma_token_kind(us[1], 0);
        assert(is_space_token(us[0]) != is_space_token(us[1]));
    }
}

/// Tokenizing is unambiguous: two alternating runs of tokens that spell the
/// same text are the same sequence of tokens.
pub proof fn law_token_runs_unique(ts: Seq<Seq<char>>, us: Seq<Seq<char>>)
    requires
        is_token_run(ts),
        is_token_run(us),
        ts.flatten() == us.flatten(),
    ensures
        ts == us,
    decreases ts.len(),
{
    if ts.len() == 0 || us.len() == 0 {
        if ts.len() > 0 {
            assert(ts.flatten() == ts[0] + ts.drop_first().flatten());
            assert(ts[0].len() > 0) by {
                assert(is_space_token(ts[0]) || is_word_token(ts[0]));
            }
        }
        if us.len() > 0 {
            assert(us.flatten() == us[0] + us.drop_first().flatten());
            assert(us[0].len() > 0) by {
                assert(is_space_token(us[0]) || is_word_token(us[0]));
            }
        }
        assert(ts =~= us);
    } else {
        lemma_first_token_len(ts, us);
        lemma_first_token_len(us, ts);
        let k = ts[0].len() as int;
        assert(ts.flatten() == ts[0] + ts.drop_first().flatten());
        assert(us.flatten() == us[0] + us.drop_first().flatten());
        assert(ts[0] == ts.flatten().take(k));
        assert(us[0] == us.flatten().take(k));
        assert(ts.drop_first().flatten() == ts.flatten().skip(k));
        assert(us.drop_first().flatten() == us.flatten().skip(k));
        lemma_run_tail(ts);
        lemma_run_tail(us);
        law_token_runs_unique(ts.drop_first(), us.drop_first());
        assert(ts =~= seq![ts[0]] + ts.drop_first());
        assert(us =~= seq![us[0]] + us.drop_first());
    }
}

/// Splits `text` into alternating runs of whitespace and non-whitespace, each
/// whitespace character written as a plain space.
pub fn tokenize(text: &str) -> (tokens: Vec<String>)
    ensures
        strings_view(tokens@).flatten() == text@.map_values(|c: char| space_normalized(c)),
        is_token_run(strings_view(tokens@)),
{
    broadcast use Seq::lemma_flatten_push;

    let mut tokens: Vec<String> = Vec::new();
    let mut current = String::new();
    let mut current_is_space: Option<bool> = None;

    for ch in it: text.chars()
        invariant
            it.seq() == text@,
            strings_view(tokens@).flatten() + current@ == text@.take(it.index() as int).map_values(
                |c: char| space_normalized(c),
            ),
            is_token_run(strings_view(tokens@)),
            it.index() == 0 ==> current_is_space is None && tokens@.len() == 0 && current@.len()
                == 0,
            it.index() > 0 ==> current_is_space is Some,
            current_is_space == Some(true) ==> is_space_token(current@),
            current_is_space == Some(false) ==> is_word_token(current@),
            tokens@.len() > 0 ==> current_is_space is Some && is_space_token(
                strings_view(tokens@).last(),
            ) != current_is_space->0,
    {
        let ghost i = it.index() as int;
        let ghost old_tokens = strings_view(tokens@);
        let ghost old_current = current@;
        let is_space = is_whitespace(ch);
        let pushed = if is_space {
            ' '
        } else {
            ch
        };
        assert(pushed == space_normalized(ch));
        let same = match current_is_space {
            Some(b) => b == is_space,
            None => false,
        };
        if same {
            push_char(&mut current, pushed);
            assert(old_tokens.flatten() + old_current.push(pushed) =~= (old_tokens.flatten()
                + old_current).push(pushed));
        } else {
            if current_is_space.is_some() {
                proof {
                    if current_is_space == Some(false) {
                        lemma_word_not_space(old_current);
                    }
                    lemma_token_run_push(old_tokens, old_current);
                }
                let token = current;
                tokens.push(token);
                assert(strings_view(tokens@) == old_tokens.push(old_current));
                proof {
                    old_tokens.lemma_flatten_push(old_current);
                }
                current = String::new();
            } else {
                assert(old_current =~= Seq::<char>::empty());
                assert(old_tokens =~= Seq::<Seq<char>>::empty());
                assert(strings_view(tokens@) =~= Seq::<Seq<char>>::empty());
                assert(strings_view(tokens@).flatten() =~= old_tokens.flatten() + old_current);
            }
            push_char(&mut current, pushed);
            current_is_space = Some(is_space);
            assert(strings_view(tokens@).flatten() =~= old_tokens.flatten() + old_current);
            assert(current@ =~= seq![pushed]);
            assert(old_tokens.flatten() + old_current + seq![pushed] =~= (old_tokens.flatten()
                + old_current).push(pushed));
            assert(is_space ==> is_space_token(current@));
            assert(!is_space ==> is_word_token(current@));
        }
        assert(text@.take(i + 1).map_values(|c: char| space_normalized(c)) == text@.take(
            i,
        ).map_values(|c: char| space_normalized(c)).push(space_normalized(ch)));
    }
    let ghost before = strings_view(tokens@);
    if current_is_space.is_some() {
        let ghost last = current@;
        proof {
            if current_is_space == Some(false) {
                lemma_word_not_space(last);
            } else {
                assert(current_is_space == Some(true));
            }
            lemma_token_run_push(before, last);
        }
        tokens.push(current);
        assert(strings_view(tokens@) == before.push(last));
        proof {
            before.lemma_flatten_push(last);
        }
    } else {
        assert(current@ == Seq::<char>::empty());
        assert(before.flatten() + current@ == before.flatten());
    }
    assert(text@.take(text@.len() as int) == text@);
    tokens
}

/// Text as the PDF writer receives it: each tab becomes four spaces.
pub open spec fn pdf_safe_seq(s: Seq<char>) -> Seq<char> {
    s.map_values(|c: char| if c == '\t' { seq![' ', ' ', ' ', ' '] } else { seq![c] }).flatten()
}

/// Replaces each tab with four spaces.
pub fn pdf_safe_text(text: &str) -> (r: String)
    ensures
        r@ == pdf_safe_seq(text@),
{
    let mut r = String::new();
    for c in it: text.chars()
        invariant
            it.seq() == text@,
            r@ == pdf_safe_seq(text@.take(it.index() as int)),
    {
        let ghost i = it.index() as int;
        let ghost before = r@;
        let ghost piece = if c == '\t' { seq![' ', ' ', ' ', ' '] } else { seq![c] };
        if c == '\t' {
            push_char(&mut r, ' ');
            push_char(&mut r, ' ');
            push_char(&mut r, ' ');
            push_char(&mut r, ' ');
        } else {
            push_char(&mut r, c);
        }
        assert(r@ == before + piece);
        proof {
            let m = text@.take(i).map_values(
                |c: char| if c == '\t' { seq![' ', ' ', ' ', ' '] } else { seq![c] },
            );
            assert(text@.take(i + 1).map_values(
                |c: char| if c == '\t' { seq![' ', ' ', ' ', ' '] } else { seq![c] },
            ) == m.push(piece));
            m.lemma_flatten_push(piece);
        }
    }
    assert(text@.take(text@.len() as int) == text@);
    r
}

/// The eight built-in PDF faces the renderer draws with.
#[derive(Debug, Clone, Copy, PartialEq, Eq, Hash, Structural)]
pub enum FontFace {
    Serif,
    SerifBold,
    SerifItalic,
    Sans,
    SansBold,
    SansItalic,
    Mono,
    MonoBold,
}

/// The family of a face.
#[derive(Debug, Clone, Copy, PartialEq, Eq, Structural)]
pub enum FontFamily {
    Serif,
    Sans,
    Mono,
}

pub open spec fn family_of(f: FontFace) -> FontFamily {
    match f {
        FontFace::Serif | FontFace::SerifBold | FontFace::SerifItalic => FontFamily::Serif,
        FontFace::Sans | FontFace::SansBold | FontFace::SansItalic => FontFamily::Sans,
        FontFace::Mono | FontFace::MonoBold => FontFamily::Mono,
    }
}

/// The face for emphasised text: the italic of serif and sans faces; monospace
/// faces have no italic and stay as they are.
pub open spec fn emphasis_of(f: FontFace) -> FontFace {
    match f {
        FontFace::Serif | FontFace::SerifBold => FontFace::SerifItalic,
        FontFace::Sans | FontFace::SansBold => FontFace::SansItalic,
        other => other,
    }
}

/// The face for strong text: the bold of serif and sans faces; monospace
/// faces stay as they are.
pub open spec fn strong_of(f: FontFace) -> FontFace {
    match f {
        FontFace::Serif | FontFace::SerifItalic => FontFace::SerifBold,
        FontFace::Sans | FontFace::SansItalic => FontFace::SansBold,
        other => other,
    }
}

impl FontFace {
    pub fn family(self) -> (r: FontFamily)
        ensures
            r == family_of(self),
    {
        match self {
            FontFace::Serif | FontFace::SerifBold | FontFace::SerifItalic => FontFamily::Serif,
            FontFace::Sans | FontFace::SansBold | FontFace::SansItalic => FontFamily::Sans,
            FontFace::Mono | FontFace::MonoBold => FontFamily::Mono,
        }
    }

    /// The face that emphasis switches to.
    pub fn emphasized(self) -> (r: FontFace)
        ensures
            r == emphasis_of(self),
    {
        match self {
            FontFace::Serif | FontFace::SerifBold => FontFace::SerifItalic,
            FontFace::Sans | FontFace::SansBold => FontFace::SansItalic,
            other => other,
        }
    }

    /// The face that strong emphasis switches to.
    pub fn strengthened(self) -> (r: FontFace)
        ensures
            r == strong_of(self),
    {
        match self {
            FontFace::Serif | FontFace::SerifItalic => FontFace::SerifBold,
            FontFace::Sans | FontFace::SansItalic => FontFace::SansBold,
            other => other,
        }
    }
}

/// Emphasis and strong emphasis keep the family of a face, and applying
/// either twice is the same as applying it once.
pub proof fn law_style_switches_keep_family(f: FontFace)
    ensures
        family_of(emphasis_of(f)) == family_of(f),
        family_of(strong_of(f)) == family_of(f),
        emphasis_of(emphasis_of(f)) == emphasis_of(f),
        strong_of(strong_of(f)) == strong_of(f),
{
}

/// The title printed above a callout; a plain quote has none.
pub open spec fn quote_title_of(kind: QuoteKind) -> Option<Seq<char>> {
    match kind {
        QuoteKind::Regular => None,
        QuoteKind::Note => Some("NOTE"@),
        QuoteKind::Tip => Some("TIP"@),
        QuoteKind::Important => Some("IMPORTANT"@),
        QuoteKind::Warning => Some("WARNING"@),
        QuoteKind::Caution => Some("CAUTION"@),
    }
}

/// The title of a callout block.
pub fn quote_title(kind: QuoteKind) -> (r: Option<&'static str>)
    ensures
        match r {
            Some(t) => quote_title_of(kind) == Some(t@),
            None => quote_title_of(kind) is None,
        },
{
    match kind {
        QuoteKind::Regular => None,
        QuoteKind::Note => Some("NOTE"),
        QuoteKind::Tip => Some("TIP"),
        QuoteKind::Important => Some("IMPORTANT"),
        QuoteKind::Warning => Some("WARNING"),
        QuoteKind::Caution => Some("CAUTION"),
    }
}

/// The accent colour family of a code block, chosen by its language.
#[derive(Debug, Clone, Copy, PartialEq, Eq, Structural)]
pub enum CodeAccent {
    Rust,
    TypeScript,
    JavaScript,
    Python,
    Go,
    Swift,
    Markup,
    Stylesheet,
    Data,
    Shell,
    Sql,
    Tex,
    Neutral,
}

/// The accent for a language name already in ASCII lowercase.
pub open spec fn accent_for(lang: Seq<char>) -> CodeAccent {
    if lang == "rust"@ || lang == "rs"@ {
        CodeAccent::Rust
    } else if lang == "typescript"@ || lang == "ts"@ || lang == "tsx"@ {
        CodeAccent::TypeScript
    } else if lang == "javascript"@ || lang == "js"@ || lang == "jsx"@ {
        CodeAccent::JavaScript
    } else if lang == "python"@ || lang == "py"@ {
        CodeAccent::Python
    } else if lang == "go"@ || lang == "golang"@ {
        CodeAccent::Go
    } else if lang == "swift"@ {
        CodeAccent::Swift
    } else if lang == "html"@ || lang == "xml"@ {
        CodeAccent::Markup
    } else if lang == "css"@ || lang == "scss"@ {
        CodeAccent::Stylesheet
    } else if lang == "json"@ || lang == "yaml"@ || lang == "yml"@ || lang == "toml"@ {
        CodeAccent::Data
    } else if lang == "bash"@ || lang == "sh"@ || lang == "zsh"@ {
        CodeAccent::Shell
    } else if lang == "sql"@ {
        CodeAccent::Sql
    } else if lang == "tex"@ || lang == "latex"@ {
        CodeAccent::Tex
    } else {
        CodeAccent::Neutral
    }
}

/// The accent of a code block: its language compared case-insensitively
/// (ASCII), no language being the empty name.
pub open spec fn code_accent_of(lang: Option<Seq<char>>) -> CodeAccent {
    match lang {
        Some(l) => accent_for(l.map_values(|c: char| ascii_lower(c))),
        None => accent_for(Seq::empty()),
    }
}

proof fn lemma_accent_rust(lower: Seq<char>)
    requires
        lower == "rust"@,
    ensures
        accent_for(lower) == CodeAccent::Rust,
{
    reveal_strlit("rust");
}

proof fn lemma_accent_rs(lower: Seq<char>)
    requires
        lower == "rs"@,
    ensures
        accent_for(lower) == CodeAccent::Rust,
{
    reveal_strlit("rs");
}

proof fn lemma_accent_typescript(lower: Seq<char>)
    requires
        lower == "typescript"@,
    ensures
        accent_for(lower) == CodeAccent::TypeScript,
{
    reveal_strlit("typescript");
    assert(lower != "rust"@) by { reveal_strlit("rust"); assert(lower.len() != "rust"@.len()); }
    assert(lower != "rs"@) by { reveal_strlit("rs"); assert(lower.len() != "rs"@.len()); }
}

proof fn lemma_accent_ts(lower: Seq<char>)
    requires
        lower == "ts"@,
    ensures
        accent_for(lower) == CodeAccent::TypeScript,
{
    reveal_strlit("ts");
    assert(lower != "rust"@) by { reveal_strlit("rust"); assert(lower.len() != "rust"@.len()); }
    assert(lower != "rs"@) by { reveal_strlit("rs"); assert(lower[0] != "rs"@[0]); }
}

proof fn lemma_accent_tsx(lower: Seq<char>)
    requires
        lower == "tsx"@,
    ensures
        accent_for(lower) == CodeAccent::TypeScript,
{
    reveal_strlit("tsx");
    assert(lower != "rust"@) by { reveal_strlit("rust"); assert(lower.len() != "rust"@.len()); }
    assert(lower != "rs"@) by { reveal_strlit("rs"); assert(lower.len() != "rs"@.len()); }
}

proof fn lemma_accent_javascript(lower: Seq<char>)
    requires
        lower == "javascript"@,
    ensures
        accent_for(lower) == CodeAccent::JavaScript,
{
    reveal_strlit("javascript");
    assert(lower != "rust"@) by { reveal_strlit("rust"); assert(lower.len() != "rust"@.len()); }
    assert(lower != "rs"@) by { reveal_strlit("rs"); assert(lower.len() != "rs"@.len()); }
    assert(lower != "typescript"@) by { reveal_strlit("typescript"); assert(lower[0] != "typescript"@[0]); }
    assert(lower != "ts"@) by { reveal_strlit("ts"); assert(lower.len() != "ts"@.len()); }
    assert(lower != "tsx"@) by { reveal_strlit("tsx"); assert(lower.len() != "tsx"@.len()); }
}

proof fn lemma_accent_js(lower: Seq<char>)
    requires
        lower == "js"@,
    ensures
        accent_for(lower) == CodeAccent::JavaScript,
{
    reveal_strlit("js");
    assert(lower != "rust"@) by { reveal_strlit("rust"); assert(lower.len() != "rust"@.len()); }
    assert(lower != "rs"@) by { reveal_strlit("rs"); assert(lower[0] != "rs"@[0]); }
    assert(lower != "typescript"@) by { reveal_strlit("typescript"); assert(lower.len() != "typescript"@.len()); }
    assert(lower != "ts"@) by { reveal_strlit("ts"); assert(lower[0] != "ts"@[0]); }
    assert(lower != "tsx"@) by { reveal_strlit("tsx"); assert(lower.len() != "tsx"@.len()); }
}

proof fn lemma_accent_jsx(lower: Seq<char>)
    requires
        lower == "jsx"@,
    ensures
        accent_for(lower) == CodeAccent::JavaScript,
{
    reveal_strlit("jsx");
    assert(lower != "rust"@) by { reveal_strlit("rust"); assert(lower.len() != "rust"@.len()); }
    assert(lower != "rs"@) by { reveal_strlit("rs"); assert(lower.len() != "rs"@.len()); }
    assert(lower != "typescript"@) by { reveal_strlit("typescript"); assert(lower.len() != "typescript"@.len()); }
    assert(lower != "ts"@) by { reveal_strlit("ts"); assert(lower.len() != "ts"@.len()); }
    assert(lower != "tsx"@) by { reveal_strlit("tsx"); assert(lower[0] != "tsx"@[0]); }
}

proof fn lemma_accent_python(lower: Seq<char>)
    requires
        lower == "python"@,
    ensures
        accent_for(lower) == CodeAccent::Python,
{
    reveal_strlit("python");
    assert(lower != "rust"@) by { reveal_strlit("rust"); assert(lower.len() != "rust"@.len()); }
    assert(lower != "rs"@) by { reveal_strlit("rs"); assert(lower.len() != "rs"@.len()); }
    assert(lower != "typescript"@) by { reveal_strlit("typescript"); assert(lower.len() != "typescript"@.len()); }
    assert(lower != "ts"@) by { reveal_strlit("ts"); assert(lower.len() != "ts"@.len()); }
    assert(lower != "tsx"@) by { reveal_strlit("tsx"); assert(lower.len() != "tsx"@.len()); }
    assert(lower != "javascript"@) by { reveal_strlit("javascript"); assert(lower.len() != "javascript"@.len()); }
    assert(lower != "js"@) by { reveal_strlit("js"); assert(lower.len() != "js"@.len()); }
    assert(lower != "jsx"@) by { reveal_strlit("jsx"); assert(lower.len() != "jsx"@.len()); }
}

proof fn lemma_accent_py(lower: Seq<char>)
    requires
        lower == "py"@,
    ensures
        accent_for(lower) == CodeAccent::Python,
{
    reveal_strlit("py");
    assert(lower != "rust"@) by { reveal_strlit("rust"); assert(lower.len() != "rust"@.len()); }
    assert(lower != "rs"@) by { reveal_strlit("rs"); assert(lower[0] != "rs"@[0]); }
    assert(lower != "typescript"@) by { reveal_strlit("typescript"); assert(lower.len() != "typescript"@.len()); }
    assert(lower != "ts"@) by { reveal_strlit("ts"); assert(lower[0] != "ts"@[0]); }
    assert(lower != "tsx"@) by { reveal_strlit("tsx"); assert(lower.len() != "tsx"@.len()); }
    assert(lower != "javascript"@) by { reveal_strlit("javascript"); assert(lower.len() != "javascript"@.len()); }
    assert(lower != "js"@) by { reveal_strlit("js"); assert(lower[0] != "js"@[0]); }
    assert(lower != "jsx"@) by { reveal_strlit("jsx"); assert(lower.len() != "jsx"@.len()); }
}

proof fn lemma_accent_go(lower: Seq<char>)
    requires
        lower == "go"@,
    ensures
        accent_for(lower) == CodeAccent::Go,
{
    reveal_strlit("go");
    assert(lower != "rust"@) by { reveal_strlit("rust"); assert(lower.len() != "rust"@.len()); }
    assert(lower != "rs"@) by { reveal_strlit("rs"); assert(lower[0] != "rs"@[0]); }
    assert(lower != "typescript"@) by { reveal_strlit("typescript"); assert(lower.len() != "typescript"@.len()); }
    assert(lower != "ts"@) by { reveal_strlit("ts"); assert(lower[0] != "ts"@[0]); }
    assert(lower != "tsx"@) by { reveal_strlit("tsx"); assert(lower.len() != "tsx"@.len()); }
    assert(lower != "javascript"@) by { reveal_strlit("javascript"); assert(lower.len() != "javascript"@.len()); }
    assert(lower != "js"@) by { reveal_strlit("js"); assert(lower[0] != "js"@[0]); }
    assert(lower != "jsx"@) by { reveal_strlit("jsx"); assert(lower.len() != "jsx"@.len()); }
    assert(lower != "python"@) by { reveal_strlit("python"); assert(lower.len() != "python"@.len()); }
    assert(lower != "py"@) by { reveal_strlit("py"); assert(lower[0] != "py"@[0]); }
}

proof fn lemma_accent_golang(lower: Seq<char>)
    requires
        lower == "golang"@,
    ensures
        accent_for(lower) == CodeAccent::Go,
{
    reveal_strlit("golang");
    assert(lower != "rust"@) by { reveal_strlit("rust"); assert(lower.len() != "rust"@.len()); }
    assert(lower != "rs"@) by { reveal_strlit("rs"); assert(lower.len() != "rs"@.len()); }
    assert(lower != "typescript"@) by { reveal_strlit("typescript"); assert(lower.len() != "typescript"@.len()); }
    assert(lower != "ts"@) by { reveal_strlit("ts"); assert(lower.len() != "ts"@.len()); }
    assert(lower != "tsx"@) by { reveal_strlit("tsx"); assert(lower.len() != "tsx"@.len()); }
    assert(lower != "javascript"@) by { reveal_strlit("javascript"); assert(lower.len() != "javascript"@.len()); }
    assert(lower != "js"@) by { reveal_strlit("js"); assert(lower.len() != "js"@.len()); }
    assert(lower != "jsx"@) by { reveal_strlit("jsx"); assert(lower.len() != "jsx"@.len()); }
    assert(lower != "python"@) by { reveal_strlit("python"); assert(lower[0] != "python"@[0]); }
    assert(lower != "py"@) by { reveal_strlit("py"); assert(lower.len() != "py"@.len()); }
}

proof fn lemma_accent_swift(lower: Seq<char>)
    requires
        lower == "swift"@,
    ensures
        accent_for(lower) == CodeAccent::Swift,
{
    reveal_strlit("swift");
    assert(lower != "rust"@) by { reveal_strlit("rust"); assert(lower.len() != "rust"@.len()); }
    assert(lower != "rs"@) by { reveal_strlit("rs"); assert(lower.len() != "rs"@.len()); }
    assert(lower != "typescript"@) by { reveal_strlit("typescript"); assert(lower.len() != "typescript"@.len()); }
    assert(lower != "ts"@) by { reveal_strlit("ts"); assert(lower.len() != "ts"@.len()); }
    assert(lower != "tsx"@) by { reveal_strlit("tsx"); assert(lower.len() != "tsx"@.len()); }
    assert(lower != "javascript"@) by { reveal_strlit("javascript"); assert(lower.len() != "javascript"@.len()); }
    assert(lower != "js"@) by { reveal_strlit("js"); assert(lower.len() != "js"@.len()); }
    assert(lower != "jsx"@) by { reveal_strlit("jsx"); assert(lower.len() != "jsx"@.len()); }
    assert(lower != "python"@) by { reveal_strlit("python"); assert(lower.len() != "python"@.len()); }
    assert(lower != "py"@) by { reveal_strlit("py"); assert(lower.len() != "py"@.len()); }
    assert(lower != "go"@) by { reveal_strlit("go"); assert(lower.len() != "go"@.len()); }
    assert(lower != "golang"@) by { reveal_strlit("golang"); assert(lower.len() != "golang"@.len()); }
}

proof fn lemma_accent_html(lower: Seq<char>)
    requires
        lower == "html"@,
    ensures
        accent_for(lower) == CodeAccent::Markup,
{
    reveal_strlit("html");
    assert(lower != "rust"@) by { reveal_strlit("rust"); assert(lower[0] != "rust"@[0]); }
    assert(lower != "rs"@) by { reveal_strlit("rs"); assert(lower.len() != "rs"@.len()); }
    assert(lower != "typescript"@) by { reveal_strlit("typescript"); assert(lower.len() != "typescript"@.len()); }
    assert(lower != "ts"@) by { reveal_strlit("ts"); assert(lower.len() != "ts"@.len()); }
    assert(lower != "tsx"@) by { reveal_strlit("tsx"); assert(lower.len() != "tsx"@.len()); }
    assert(lower != "javascript"@) by { reveal_strlit("javascript"); assert(lower.len() != "javascript"@.len()); }
    assert(lower != "js"@) by { reveal_strlit("js"); assert(lower.len() != "js"@.len()); }
    assert(lower != "jsx"@) by { reveal_strlit("jsx"); assert(lower.len() != "jsx"@.len()); }
    assert(lower != "python"@) by { reveal_strlit("python"); assert(lower.len() != "python"@.len()); }
    assert(lower != "py"@) by { reveal_strlit("py"); assert(lower.len() != "py"@.len()); }
    assert(lower != "go"@) by { reveal_strlit("go"); assert(lower.len() != "go"@.len()); }
    assert(lower != "golang"@) by { reveal_strlit("golang"); assert(lower.len() != "golang"@.len()); }
    assert(lower != "swift"@) by { reveal_strlit("swift"); assert(lower.len() != "swift"@.len()); }
}

proof fn lemma_accent_xml(lower: Seq<char>)
    requires
        lower == "xml"@,
    ensures
        accent_for(lower) == CodeAccent::Markup,
{
    reveal_strlit("xml");
    assert(lower != "rust"@) by { reveal_strlit("rust"); assert(lower.len() != "rust"@.len()); }
    assert(lower != "rs"@) by { reveal_strlit("rs"); assert(lower.len() != "rs"@.len()); }
    assert(lower != "typescript"@) by { reveal_strlit("typescript"); assert(lower.len() != "typescript"@.len()); }
    assert(lower != "ts"@) by { reveal_strlit("ts"); assert(lower.len() != "ts"@.len()); }
    assert(lower != "tsx"@) by { reveal_strlit("tsx"); assert(lower[0] != "tsx"@[0]); }
    assert(lower != "javascript"@) by { reveal_strlit("javascript"); assert(lower.len() != "javascript"@.len()); }
    assert(lower != "js"@) by { reveal_strlit("js"); assert(lower.len() != "js"@.len()); }
    assert(lower != "jsx"@) by { reveal_strlit("jsx"); assert(lower[0] != "jsx"@[0]); }
    assert(lower != "python"@) by { reveal_strlit("python"); assert(lower.len() != "python"@.len()); }
    assert(lower != "py"@) by { reveal_strlit("py"); assert(lower.len() != "py"@.len()); }
    assert(lower != "go"@) by { reveal_strlit("go"); assert(lower.len() != "go"@.len()); }
    assert(lower != "golang"@) by { reveal_strlit("golang"); assert(lower.len() != "golang"@.len()); }
    assert(lower != "swift"@) by { reveal_strlit("swift"); assert(lower.len() != "swift"@.len()); }
}

proof fn lemma_accent_css(lower: Seq<char>)
    requires
        lower == "css"@,
    ensures
        accent_for(lower) == CodeAccent::Stylesheet,
{
    reveal_strlit("css");
    assert(lower != "rust"@) by { reveal_strlit("rust"); assert(lower.len() != "rust"@.len()); }
    assert(lower != "rs"@) by { reveal_strlit("rs"); assert(lower.len() != "rs"@.len()); }
    assert(lower != "typescript"@) by { reveal_strlit("typescript"); assert(lower.len() != "typescript"@.len()); }
    assert(lower != "ts"@) by { reveal_strlit("ts"); assert(lower.len() != "ts"@.len()); }
    assert(lower != "tsx"@) by { reveal_strlit("tsx"); assert(lower[0] != "tsx"@[0]); }
    assert(lower != "javascript"@) by { reveal_strlit("javascript"); assert(lower.len() != "javascript"@.len()); }
    assert(lower != "js"@) by { reveal_strlit("js"); assert(lower.len() != "js"@.len()); }
    assert(lower != "jsx"@) by { reveal_strlit("jsx"); assert(lower[0] != "jsx"@[0]); }
    assert(lower != "python"@) by { reveal_strlit("python"); assert(lower.len() != "python"@.len()); }
    assert(lower != "py"@) by { reveal_strlit("py"); assert(lower.len() != "py"@.len()); }
    assert(lower != "go"@) by { reveal_strlit("go"); assert(lower.len() != "go"@.len()); }
    assert(lower != "golang"@) by { reveal_strlit("golang"); assert(lower.len() != "golang"@.len()); }
    assert(lower != "swift"@) by { reveal_strlit("swift"); assert(lower.len() != "swift"@.len()); }
    assert(lower != "html"@) by { reveal_strlit("html"); assert(lower.len() != "html"@.len()); }
    assert(lower != "xml"@) by { reveal_strlit("xml"); assert(lower[0] != "xml"@[0]); }
}

proof fn lemma_accent_scss(lower: Seq<char>)
    requires
        lower == "scss"@,
    ensures
        accent_for(lower) == CodeAccent::Stylesheet,
{
    reveal_strlit("scss");
    assert(lower != "rust"@) by { reveal_strlit("rust"); assert(lower[0] != "rust"@[0]); }
    assert(lower != "rs"@) by { reveal_strlit("rs"); assert(lower.len() != "rs"@.len()); }
    assert(lower != "typescript"@) by { reveal_strlit("typescript"); assert(lower.len() != "typescript"@.len()); }
    assert(lower != "ts"@) by { reveal_strlit("ts"); assert(lower.len() != "ts"@.len()); }
    assert(lower != "tsx"@) by { reveal_strlit("tsx"); assert(lower.len() != "tsx"@.len()); }
    assert(lower != "javascript"@) by { reveal_strlit("javascript"); assert(lower.len() != "javascript"@.len()); }
    assert(lower != "js"@) by { reveal_strlit("js"); assert(lower.len() != "js"@.len()); }
    assert(lower != "jsx"@) by { reveal_strlit("jsx"); assert(lower.len() != "jsx"@.len()); }
    assert(lower != "python"@) by { reveal_strlit("python"); assert(lower.len() != "python"@.len()); }
    assert(lower != "py"@) by { reveal_strlit("py"); assert(lower.len() != "py"@.len()); }
    assert(lower != "go"@) by { reveal_strlit("go"); assert(lower.len() != "go"@.len()); }
    assert(lower != "golang"@) by { reveal_strlit("golang"); assert(lower.len() != "golang"@.len()); }
    assert(lower != "swift"@) by { reveal_strlit("swift"); assert(lower.len() != "swift"@.len()); }
    assert(lower != "html"@) by { reveal_strlit("html"); assert(lower[0] != "html"@[0]); }
    assert(lower != "xml"@) by { reveal_strlit("xml"); assert(lower.len() != "xml"@.len()); }
}

proof fn lemma_accent_json(lower: Seq<char>)
    requires
        lower == "json"@,
    ensures
        accent_for(lower) == CodeAccent::Data,
{
    reveal_strlit("json");
    assert(lower != "rust"@) by { reveal_strlit("rust"); assert(lower[0] != "rust"@[0]); }
    assert(lower != "rs"@) by { reveal_strlit("rs"); assert(lower.len() != "rs"@.len()); }
    assert(lower != "typescript"@) by { reveal_strlit("typescript"); assert(lower.len() != "typescript"@.len()); }
    assert(lower != "ts"@) by { reveal_strlit("ts"); assert(lower.len() != "ts"@.len()); }
    assert(lower != "tsx"@) by { reveal_strlit("tsx"); assert(lower.len() != "tsx"@.len()); }
    assert(lower != "javascript"@) by { reveal_strlit("javascript"); assert(lower.len() != "javascript"@.len()); }
    assert(lower != "js"@) by { reveal_strlit("js"); assert(lower.len() != "js"@.len()); }
    assert(lower != "jsx"@) by { reveal_strlit("jsx"); assert(lower.len() != "jsx"@.len()); }
    assert(lower != "python"@) by { reveal_strlit("python"); assert(lower.len() != "python"@.len()); }
    assert(lower != "py"@) by { reveal_strlit("py"); assert(lower.len() != "py"@.len()); }
    assert(lower != "go"@) by { reveal_strlit("go"); assert(lower.len() != "go"@.len()); }
    assert(lower != "golang"@) by { reveal_strlit("golang"); assert(lower.len() != "golang"@.len()); }
    assert(lower != "swift"@) by { reveal_strlit("swift"); assert(lower.len() != "swift"@.len()); }
    assert(lower != "html"@) by { reveal_strlit("html"); assert(lower[0] != "html"@[0]); }
    assert(lower != "xml"@) by { reveal_strlit("xml"); assert(lower.len() != "xml"@.len()); }
    assert(lower != "css"@) by { reveal_strlit("css"); assert(lower.len() != "css"@.len()); }
    assert(lower != "scss"@) by { reveal_strlit("scss"); assert(lower[0] != "scss"@[0]); }
}

proof fn lemma_accent_yaml(lower: Seq<char>)
    requires
        lower == "yaml"@,
    ensures
        accent_for(lower) == CodeAccent::Data,
{
    reveal_strlit("yaml");
    assert(lower != "rust"@) by { reveal_strlit("rust"); assert(lower[0] != "rust"@[0]); }
    assert(lower != "rs"@) by { reveal_strlit("rs"); assert(lower.len() != "rs"@.len()); }
    assert(lower != "typescript"@) by { reveal_strlit("typescript"); assert(lower.len() != "typescript"@.len()); }
    assert(lower != "ts"@) by { reveal_strlit("ts"); assert(lower.len() != "ts"@.len()); }
    assert(lower != "tsx"@) by { reveal_strlit("tsx"); assert(lower.len() != "tsx"@.len()); }
    assert(lower != "javascript"@) by { reveal_strlit("javascript"); assert(lower.len() != "javascript"@.len()); }
    assert(lower != "js"@) by { reveal_strlit("js"); assert(lower.len() != "js"@.len()); }
    assert(lower != "jsx"@) by { reveal_strlit("jsx"); assert(lower.len() != "jsx"@.len()); }
    assert(lower != "python"@) by { reveal_strlit("python"); assert(lower.len() != "python"@.len()); }
    assert(lower != "py"@) by { reveal_strlit("py"); assert(lower.len() != "py"@.len()); }
    assert(lower != "go"@) by { reveal_strlit("go"); assert(lower.len() != "go"@.len()); }
    assert(lower != "golang"@) by { reveal_strlit("golang"); assert(lower.len() != "golang"@.len()); }
    assert(lower != "swift"@) by { reveal_strlit("swift"); assert(lower.len() != "swift"@.len()); }
    assert(lower != "html"@) by { reveal_strlit("html"); assert(lower[0] != "html"@[0]); }
    assert(lower != "xml"@) by { reveal_strlit("xml"); assert(lower.len() != "xml"@.len()); }
    assert(lower != "css"@) by { reveal_strlit("css"); assert(lower.len() != "css"@.len()); }
    assert(lower != "scss"@) by { reveal_strlit("scss"); assert(lower[0] != "scss"@[0]); }
}

proof fn lemma_accent_yml(lower: Seq<char>)
    requires
        lower == "yml"@,
    ensures
        accent_for(lower) == CodeAccent::Data,
{
    reveal_strlit("yml");
    assert(lower != "rust"@) by { reveal_strlit("rust"); assert(lower.len() != "rust"@.len()); }
    assert(lower != "rs"@) by { reveal_strlit("rs"); assert(lower.len() != "rs"@.len()); }
    assert(lower != "typescript"@) by { reveal_strlit("typescript"); assert(lower.len() != "typescript"@.len()); }
    assert(lower != "ts"@) by { reveal_strlit("ts"); assert(lower.len() != "ts"@.len()); }
    assert(lower != "tsx"@) by { reveal_strlit("tsx"); assert(lower[0] != "tsx"@[0]); }
    assert(lower != "javascript"@) by { reveal_strlit("javascript"); assert(lower.len() != "javascript"@.len()); }
    assert(lower != "js"@) by { reveal_strlit("js"); assert(lower.len() != "js"@.len()); }
    assert(lower != "jsx"@) by { reveal_strlit("jsx"); assert(lower[0] != "jsx"@[0]); }
    assert(lower != "python"@) by { reveal_strlit("python"); assert(lower.len() != "python"@.len()); }
    assert(lower != "py"@) by { reveal_strlit("py"); assert(lower.len() != "py"@.len()); }
    assert(lower != "go"@) by { reveal_strlit("go"); assert(lower.len() != "go"@.len()); }
    assert(lower != "golang"@) by { reveal_strlit("golang"); assert(lower.len() != "golang"@.len()); }
    assert(lower != "swift"@) by { reveal_strlit("swift"); assert(lower.len() != "swift"@.len()); }
    assert(lower != "html"@) by { reveal_strlit("html"); assert(lower.len() != "html"@.len()); }
    assert(lower != "xml"@) by { reveal_strlit("xml"); assert(lower[0] != "xml"@[0]); }
    assert(lower != "css"@) by { reveal_strlit("css"); assert(lower[0] != "css"@[0]); }
    assert(lower != "scss"@) by { reveal_strlit("scss"); assert(lower.len() != "scss"@.len()); }
}

proof fn lemma_accent_toml(lower: Seq<char>)
    requires
        lower == "toml"@,
    ensures
        accent_for(lower) == CodeAccent::Data,
{
    reveal_strlit("toml");
    assert(lower != "rust"@) by { reveal_strlit("rust"); assert(lower[0] != "rust"@[0]); }
    assert(lower != "rs"@) by { reveal_strlit("rs"); assert(lower.len() != "rs"@.len()); }
    assert(lower != "typescript"@) by { reveal_strlit("typescript"); assert(lower.len() != "typescript"@.len()); }
    assert(lower != "ts"@) by { reveal_strlit("ts"); assert(lower.len() != "ts"@.len()); }
    assert(lower != "tsx"@) by { reveal_strlit("tsx"); assert(lower.len() != "tsx"@.len()); }
    assert(lower != "javascript"@) by { reveal_strlit("javascript"); assert(lower.len() != "javascript"@.len()); }
    assert(lower != "js"@) by { reveal_strlit("js"); assert(lower.len() != "js"@.len()); }
    assert(lower != "jsx"@) by { reveal_strlit("jsx"); assert(lower.len() != "jsx"@.len()); }
    assert(lower != "python"@) by { reveal_strlit("python"); assert(lower.len() != "python"@.len()); }
    assert(lower != "py"@) by { reveal_strlit("py"); assert(lower.len() != "py"@.len()); }
    assert(lower != "go"@) by { reveal_strlit("go"); assert(lower.len() != "go"@.len()); }
    assert(lower != "golang"@) by { reveal_strlit("golang"); assert(lower.len() != "golang"@.len()); }
    assert(lower != "swift"@) by { reveal_strlit("swift"); assert(lower.len() != "swift"@.len()); }
    assert(lower != "html"@) by { reveal_strlit("html"); assert(lower[0] != "html"@[0]); }
    assert(lower != "xml"@) by { reveal_strlit("xml"); assert(lower.len() != "xml"@.len()); }
    assert(lower != "css"@) by { reveal_strlit("css"); assert(lower.len() != "css"@.len()); }
    assert(lower != "scss"@) by { reveal_strlit("scss"); assert(lower[0] != "scss"@[0]); }
}

proof fn lemma_accent_bash(lower: Seq<char>)
    requires
        lower == "bash"@,
    ensures
        accent_for(lower) == CodeAccent::Shell,
{
    reveal_strlit("bash");
    assert(lower != "rust"@) by { reveal_strlit("rust"); assert(lower[0] != "rust"@[0]); }
    assert(lower != "rs"@) by { reveal_strlit("rs"); assert(lower.len() != "rs"@.len()); }
    assert(lower != "typescript"@) by { reveal_strlit("typescript"); assert(lower.len() != "typescript"@.len()); }
    assert(lower != "ts"@) by { reveal_strlit("ts"); assert(lower.len() != "ts"@.len()); }
    assert(lower != "tsx"@) by { reveal_strlit("tsx"); assert(lower.len() != "tsx"@.len()); }
    assert(lower != "javascript"@) by { reveal_strlit("javascript"); assert(lower.len() != "javascript"@.len()); }
    assert(lower != "js"@) by { reveal_strlit("js"); assert(lower.len() != "js"@.len()); }
    assert(lower != "jsx"@) by { reveal_strlit("jsx"); assert(lower.len() != "jsx"@.len()); }
    assert(lower != "python"@) by { reveal_strlit("python"); assert(lower.len() != "python"@.len()); }
    assert(lower != "py"@) by { reveal_strlit("py"); assert(lower.len() != "py"@.len()); }
    assert(lower != "go"@) by { reveal_strlit("go"); assert(lower.len() != "go"@.len()); }
    assert(lower != "golang"@) by { reveal_strlit("golang"); assert(lower.len() != "golang"@.len()); }
    assert(lower != "swift"@) by { reveal_strlit("swift"); assert(lower.len() != "swift"@.len()); }
    assert(lower != "html"@) by { reveal_strlit("html"); assert(lower[0] != "html"@[0]); }
    assert(lower != "xml"@) by { reveal_strlit("xml"); assert(lower.len() != "xml"@.len()); }
    assert(lower != "css"@) by { reveal_strlit("css"); assert(lower.len() != "css"@.len()); }
    assert(lower != "scss"@) by { reveal_strlit("scss"); assert(lower[0] != "scss"@[0]); }
    assert(lower != "json"@) by { reveal_strlit("json"); assert(lower[0] != "json"@[0]); }
    assert(lower != "yaml"@) by { reveal_strlit("yaml"); assert(lower[0] != "yaml"@[0]); }
    assert(lower != "yml"@) by { reveal_strlit("yml"); assert(lower.len() != "yml"@.len()); }
    assert(lower != "toml"@) by { reveal_strlit("toml"); assert(lower[0] != "toml"@[0]); }
}

proof fn lemma_accent_sh(lower: Seq<char>)
    requires
        lower == "sh"@,
    ensures
        accent_for(lower) == CodeAccent::Shell,
{
    reveal_strlit("sh");
    assert(lower != "rust"@) by { reveal_strlit("rust"); assert(lower.len() != "rust"@.len()); }
    assert(lower != "rs"@) by { reveal_strlit("rs"); assert(lower[0] != "rs"@[0]); }
    assert(lower != "typescript"@) by { reveal_strlit("typescript"); assert(lower.len() != "typescript"@.len()); }
    assert(lower != "ts"@) by { reveal_strlit("ts"); assert(lower[0] != "ts"@[0]); }
    assert(lower != "tsx"@) by { reveal_strlit("tsx"); assert(lower.len() != "tsx"@.len()); }
    assert(lower != "javascript"@) by { reveal_strlit("javascript"); assert(lower.len() != "javascript"@.len()); }
    assert(lower != "js"@) by { reveal_strlit("js"); assert(lower[0] != "js"@[0]); }
    assert(lower != "jsx"@) by { reveal_strlit("jsx"); assert(lower.len() != "jsx"@.len()); }
    assert(lower != "python"@) by { reveal_strlit("python"); assert(lower.len() != "python"@.len()); }
    assert(lower != "py"@) by { reveal_strlit("py"); assert(lower[0] != "py"@[0]); }
    assert(lower != "go"@) by { reveal_strlit("go"); assert(lower[0] != "go"@[0]); }
    assert(lower != "golang"@) by { reveal_strlit("golang"); assert(lower.len() != "golang"@.len()); }
    assert(lower != "swift"@) by { reveal_strlit("swift"); assert(lower.len() != "swift"@.len()); }
    assert(lower != "html"@) by { reveal_strlit("html"); assert(lower.len() != "html"@.len()); }
    assert(lower != "xml"@) by { reveal_strlit("xml"); assert(lower.len() != "xml"@.len()); }
    assert(lower != "css"@) by { reveal_strlit("css"); assert(lower.len() != "css"@.len()); }
    assert(lower != "scss"@) by { reveal_strlit("scss"); assert(lower.len() != "scss"@.len()); }
    assert(lower != "json"@) by { reveal_strlit("json"); assert(lower.len() != "json"@.len()); }
    assert(lower != "yaml"@) by { reveal_strlit("yaml"); assert(lower.len() != "yaml"@.len()); }
    assert(lower != "yml"@) by { reveal_strlit("yml"); assert(lower.len() != "yml"@.len()); }
    assert(lower != "toml"@) by { reveal_strlit("toml"); assert(lower.len() != "toml"@.len()); }
}

proof fn lemma_accent_zsh(lower: Seq<char>)
    requires
        lower == "zsh"@,
    ensures
        accent_for(lower) == CodeAccent::Shell,
{
    reveal_strlit("zsh");
    assert(lower != "rust"@) by { reveal_strlit("rust"); assert(lower.len() != "rust"@.len()); }
    assert(lower != "rs"@) by { reveal_strlit("rs"); assert(lower.len() != "rs"@.len()); }
    assert(lower != "typescript"@) by { reveal_strlit("typescript"); assert(lower.len() != "typescript"@.len()); }
    assert(lower != "ts"@) by { reveal_strlit("ts"); assert(lower.len() != "ts"@.len()); }
    assert(lower != "tsx"@) by { reveal_strlit("tsx"); assert(lower[0] != "tsx"@[0]); }
    assert(lower != "javascript"@) by { reveal_strlit("javascript"); assert(lower.len() != "javascript"@.len()); }
    assert(lower != "js"@) by { reveal_strlit("js"); assert(lower.len() != "js"@.len()); }
    assert(lower != "jsx"@) by { reveal_strlit("jsx"); assert(lower[0] != "jsx"@[0]); }
    assert(lower != "python"@) by { reveal_strlit("python"); assert(lower.len() != "python"@.len()); }
    assert(lower != "py"@) by { reveal_strlit("py"); assert(lower.len() != "py"@.len()); }
    assert(lower != "go"@) by { reveal_strlit("go"); assert(lower.len() != "go"@.len()); }
    assert(lower != "golang"@) by { reveal_strlit("golang"); assert(lower.len() != "golang"@.len()); }
    assert(lower != "swift"@) by { reveal_strlit("swift"); assert(lower.len() != "swift"@.len()); }
    assert(lower != "html"@) by { reveal_strlit("html"); assert(lower.len() != "html"@.len()); }
    assert(lower != "xml"@) by { reveal_strlit("xml"); assert(lower[0] != "xml"@[0]); }
    assert(lower != "css"@) by { reveal_strlit("css"); assert(lower[0] != "css"@[0]); }
    assert(lower != "scss"@) by { reveal_strlit("scss"); assert(lower.len() != "scss"@.len()); }
    assert(lower != "json"@) by { reveal_strlit("json"); assert(lower.len() != "json"@.len()); }
    assert(lower != "yaml"@) by { reveal_strlit("yaml"); assert(lower.len() != "yaml"@.len()); }
    assert(lower != "yml"@) by { reveal_strlit("yml"); assert(lower[0] != "yml"@[0]); }
    assert(lower != "toml"@) by { reveal_strlit("toml"); assert(lower.len() != "toml"@.len()); }
}

proof fn lemma_accent_sql(lower: Seq<char>)
    requires
        lower == "sql"@,
    ensures
        accent_for(lower) == CodeAccent::Sql,
{
    reveal_strlit("sql");
    assert(lower != "rust"@) by { reveal_strlit("rust"); assert(lower.len() != "rust"@.len()); }
    assert(lower != "rs"@) by { reveal_strlit("rs"); assert(lower.len() != "rs"@.len()); }
    assert(lower != "typescript"@) by { reveal_strlit("typescript"); assert(lower.len() != "typescript"@.len()); }
    assert(lower != "ts"@) by { reveal_strlit("ts"); assert(lower.len() != "ts"@.len()); }
    assert(lower != "tsx"@) by { reveal_strlit("tsx"); assert(lower[0] != "tsx"@[0]); }
    assert(lower != "javascript"@) by { reveal_strlit("javascript"); assert(lower.len() != "javascript"@.len()); }
    assert(lower != "js"@) by { reveal_strlit("js"); assert(lower.len() != "js"@.len()); }
    assert(lower != "jsx"@) by { reveal_strlit("jsx"); assert(lower[0] != "jsx"@[0]); }
    assert(lower != "python"@) by { reveal_strlit("python"); assert(lower.len() != "python"@.len()); }
    assert(lower != "py"@) by { reveal_strlit("py"); assert(lower.len() != "py"@.len()); }
    assert(lower != "go"@) by { reveal_strlit("go"); assert(lower.len() != "go"@.len()); }
    assert(lower != "golang"@) by { reveal_strlit("golang"); assert(lower.len() != "golang"@.len()); }
    assert(lower != "swift"@) by { reveal_strlit("swift"); assert(lower.len() != "swift"@.len()); }
    assert(lower != "html"@) by { reveal_strlit("html"); assert(lower.len() != "html"@.len()); }
    assert(lower != "xml"@) by { reveal_strlit("xml"); assert(lower[0] != "xml"@[0]); }
    assert(lower != "css"@) by { reveal_strlit("css"); assert(lower[0] != "css"@[0]); }
    assert(lower != "scss"@) by { reveal_strlit("scss"); assert(lower.len() != "scss"@.len()); }
    assert(lower != "json"@) by { reveal_strlit("json"); assert(lower.len() != "json"@.len()); }
    assert(lower != "yaml"@) by { reveal_strlit("yaml"); assert(lower.len() != "yaml"@.len()); }
    assert(lower != "yml"@) by { reveal_strlit("yml"); assert(lower[0] != "yml"@[0]); }
    assert(lower != "toml"@) by { reveal_strlit("toml"); assert(lower.len() != "toml"@.len()); }
    assert(lower != "bash"@) by { reveal_strlit("bash"); assert(lower.len() != "bash"@.len()); }
    assert(lower != "sh"@) by { reveal_strlit("sh"); assert(lower.len() != "sh"@.len()); }
    assert(lower != "zsh"@) by { reveal_strlit("zsh"); assert(lower[0] != "zsh"@[0]); }
}

proof fn lemma_accent_tex(lower: Seq<char>)
    requires
        lower == "tex"@,
    ensures
        accent_for(lower) == CodeAccent::Tex,
{
    reveal_strlit("tex");
    assert(lower != "rust"@) by { reveal_strlit("rust"); assert(lower.len() != "rust"@.len()); }
    assert(lower != "rs"@) by { reveal_strlit("rs"); assert(lower.len() != "rs"@.len()); }
    assert(lower != "typescript"@) by { reveal_strlit("typescript"); assert(lower.len() != "typescript"@.len()); }
    assert(lower != "ts"@) by { reveal_strlit("ts"); assert(lower.len() != "ts"@.len()); }
    assert(lower != "tsx"@) by { reveal_strlit("tsx"); assert(lower[1] != "tsx"@[1]); }
    assert(lower != "javascript"@) by { reveal_strlit("javascript"); assert(lower.len() != "javascript"@.len()); }
    assert(lower != "js"@) by { reveal_strlit("js"); assert(lower.len() != "js"@.len()); }
    assert(lower != "jsx"@) by { reveal_strlit("jsx"); assert(lower[0] != "jsx"@[0]); }
    assert(lower != "python"@) by { reveal_strlit("python"); assert(lower.len() != "python"@.len()); }
    assert(lower != "py"@) by { reveal_strlit("py"); assert(lower.len() != "py"@.len()); }
    assert(lower != "go"@) by { reveal_strlit("go"); assert(lower.len() != "go"@.len()); }
    assert(lower != "golang"@) by { reveal_strlit("golang"); assert(lower.len() != "golang"@.len()); }
    assert(lower != "swift"@) by { reveal_strlit("swift"); assert(lower.len() != "swift"@.len()); }
    assert(lower != "html"@) by { reveal_strlit("html"); assert(lower.len() != "html"@.len()); }
    assert(lower != "xml"@) by { reveal_strlit("xml"); assert(lower[0] != "xml"@[0]); }
    assert(lower != "css"@) by { reveal_strlit("css"); assert(lower[0] != "css"@[0]); }
    assert(lower != "scss"@) by { reveal_strlit("scss"); assert(lower.len() != "scss"@.len()); }
    assert(lower != "json"@) by { reveal_strlit("json"); assert(lower.len() != "json"@.len()); }
    assert(lower != "yaml"@) by { reveal_strlit("yaml"); assert(lower.len() != "yaml"@.len()); }
    assert(lower != "yml"@) by { reveal_strlit("yml"); assert(lower[0] != "yml"@[0]); }
    assert(lower != "toml"@) by { reveal_strlit("toml"); assert(lower.len() != "toml"@.len()); }
    assert(lower != "bash"@) by { reveal_strlit("bash"); assert(lower.len() != "bash"@.len()); }
    assert(lower != "sh"@) by { reveal_strlit("sh"); assert(lower.len() != "sh"@.len()); }
    assert(lower != "zsh"@) by { reveal_strlit("zsh"); assert(lower[0] != "zsh"@[0]); }
    assert(lower != "sql"@) by { reveal_strlit("sql"); assert(lower[0] != "sql"@[0]); }
}

proof fn lemma_accent_latex(lower: Seq<char>)
    requires
        lower == "latex"@,
    ensures
        accent_for(lower) == CodeAccent::Tex,
{
    reveal_strlit("latex");
    assert(lower != "rust"@) by { reveal_strlit("rust"); assert(lower.len() != "rust"@.len()); }
    assert(lower != "rs"@) by { reveal_strlit("rs"); assert(lower.len() != "rs"@.len()); }
    assert(lower != "typescript"@) by { reveal_strlit("typescript"); assert(lower.len() != "typescript"@.len()); }
    assert(lower != "ts"@) by { reveal_strlit("ts"); assert(lower.len() != "ts"@.len()); }
    assert(lower != "tsx"@) by { reveal_strlit("tsx"); assert(lower.len() != "tsx"@.len()); }
    assert(lower != "javascript"@) by { reveal_strlit("javascript"); assert(lower.len() != "javascript"@.len()); }
    assert(lower != "js"@) by { reveal_strlit("js"); assert(lower.len() != "js"@.len()); }
    assert(lower != "jsx"@) by { reveal_strlit("jsx"); assert(lower.len() != "jsx"@.len()); }
    assert(lower != "python"@) by { reveal_strlit("python"); assert(lower.len() != "python"@.len()); }
    assert(lower != "py"@) by { reveal_strlit("py"); assert(lower.len() != "py"@.len()); }
    assert(lower != "go"@) by { reveal_strlit("go"); assert(lower.len() != "go"@.len()); }
    assert(lower != "golang"@) by { reveal_strlit("golang"); assert(lower.len() != "golang"@.len()); }
    assert(lower != "swift"@) by { reveal_strlit("swift"); assert(lower[0] != "swift"@[0]); }
    assert(lower != "html"@) by { reveal_strlit("html"); assert(lower.len() != "html"@.len()); }
    assert(lower != "xml"@) by { reveal_strlit("xml"); assert(lower.len() != "xml"@.len()); }
    assert(lower != "css"@) by { reveal_strlit("css"); assert(lower.len() != "css"@.len()); }
    assert(lower != "scss"@) by { reveal_strlit("scss"); assert(lower.len() != "scss"@.len()); }
    assert(lower != "json"@) by { reveal_strlit("json"); assert(lower.len() != "json"@.len()); }
    assert(lower != "yaml"@) by { reveal_strlit("yaml"); assert(lower.len() != "yaml"@.len()); }
    assert(lower != "yml"@) by { reveal_strlit("yml"); assert(lower.len() != "yml"@.len()); }
    assert(lower != "toml"@) by { reveal_strlit("toml"); assert(lower.len() != "toml"@.len()); }
    assert(lower != "bash"@) by { reveal_strlit("bash"); assert(lower.len() != "bash"@.len()); }
    assert(lower != "sh"@) by { reveal_strlit("sh"); assert(lower.len() != "sh"@.len()); }
    assert(lower != "zsh"@) by { reveal_strlit("zsh"); assert(lower.len() != "zsh"@.len()); }
    assert(lower != "sql"@) by { reveal_strlit("sql"); assert(lower.len() != "sql"@.len()); }
}

proof fn lemma_accent_empty()
    ensures
        accent_for(Seq::<char>::empty()) == CodeAccent::Neutral,
{
    assert(Seq::<char>::empty() != "rust"@) by { reveal_strlit("rust"); assert("rust"@.len() > 0); }
    assert(Seq::<char>::empty() != "rs"@) by { reveal_strlit("rs"); assert("rs"@.len() > 0); }
    assert(Seq::<char>::empty() != "typescript"@) by { reveal_strlit("typescript"); assert("typescript"@.len() > 0); }
    assert(Seq::<char>::empty() != "ts"@) by { reveal_strlit("ts"); assert("ts"@.len() > 0); }
    assert(Seq::<char>::empty() != "tsx"@) by { reveal_strlit("tsx"); assert("tsx"@.len() > 0); }
    assert(Seq::<char>::empty() != "javascript"@) by { reveal_strlit("javascript"); assert("javascript"@.len() > 0); }
    assert(Seq::<char>::empty() != "js"@) by { reveal_strlit("js"); assert("js"@.len() > 0); }
    assert(Seq::<char>::empty() != "jsx"@) by { reveal_strlit("jsx"); assert("jsx"@.len() > 0); }
    assert(Seq::<char>::empty() != "python"@) by { reveal_strlit("python"); assert("python"@.len() > 0); }
    assert(Seq::<char>::empty() != "py"@) by { reveal_strlit("py"); assert("py"@.len() > 0); }
    assert(Seq::<char>::empty() != "go"@) by { reveal_strlit("go"); assert("go"@.len() > 0); }
    assert(Seq::<char>::empty() != "golang"@) by { reveal_strlit("golang"); assert("golang"@.len() > 0); }
    assert(Seq::<char>::empty() != "swift"@) by { reveal_strlit("swift"); assert("swift"@.len() > 0); }
    assert(Seq::<char>::empty() != "html"@) by { reveal_strlit("html"); assert("html"@.len() > 0); }
    assert(Seq::<char>::empty() != "xml"@) by { reveal_strlit("xml"); assert("xml"@.len() > 0); }
    assert(Seq::<char>::empty() != "css"@) by { reveal_strlit("css"); assert("css"@.len() > 0); }
    assert(Seq::<char>::empty() != "scss"@) by { reveal_strlit("scss"); assert("scss"@.len() > 0); }
    assert(Seq::<char>::empty() != "json"@) by { reveal_strlit("json"); assert("json"@.len() > 0); }
    assert(Seq::<char>::empty() != "yaml"@) by { reveal_strlit("yaml"); assert("yaml"@.len() > 0); }
    assert(Seq::<char>::empty() != "yml"@) by { reveal_strlit("yml"); assert("yml"@.len() > 0); }
    assert(Seq::<char>::empty() != "toml"@) by { reveal_strlit("toml"); assert("toml"@.len() > 0); }
    assert(Seq::<char>::empty() != "bash"@) by { reveal_strlit("bash"); assert("bash"@.len() > 0); }
    assert(Seq::<char>::empty() != "sh"@) by { reveal_strlit("sh"); assert("sh"@.len() > 0); }
    assert(Seq::<char>::empty() != "zsh"@) by { reveal_strlit("zsh"); assert("zsh"@.len() > 0); }
    assert(Seq::<char>::empty() != "sql"@) by { reveal_strlit("sql"); assert("sql"@.len() > 0); }
    assert(Seq::<char>::empty() != "tex"@) by { reveal_strlit("tex"); assert("tex"@.len() > 0); }
    assert(Seq::<char>::empty() != "latex"@) by { reveal_strlit("latex"); assert("latex"@.len() > 0); }
}

/// Every language name of the accent table, written in any ASCII case,
/// gives its language's accent (`rs` and `rust` Rust, `js`, `jsx` and
/// `javascript` JavaScript, and so on), and a block without a language is
/// neutral.
pub proof fn law_code_accent_aliases(lang: Seq<char>)
    ensures
        lang.map_values(|c: char| ascii_lower(c)) == "rust"@ ==> code_accent_of(Some(lang)) == CodeAccent::Rust,
        lang.map_values(|c: char| ascii_lower(c)) == "rs"@ ==> code_accent_of(Some(lang)) == CodeAccent::Rust,
        lang.map_values(|c: char| ascii_lower(c)) == "typescript"@ ==> code_accent_of(Some(lang)) == CodeAccent::TypeScript,
        lang.map_values(|c: char| ascii_lower(c)) == "ts"@ ==> code_accent_of(Some(lang)) == CodeAccent::TypeScript,
        lang.map_values(|c: char| ascii_lower(c)) == "tsx"@ ==> code_accent_of(Some(lang)) == CodeAccent::TypeScript,
        lang.map_values(|c: char| ascii_lower(c)) == "javascript"@ ==> code_accent_of(Some(lang)) == CodeAccent::JavaScript,
        lang.map_values(|c: char| ascii_lower(c)) == "js"@ ==> code_accent_of(Some(lang)) == CodeAccent::JavaScript,
        lang.map_values(|c: char| ascii_lower(c)) == "jsx"@ ==> code_accent_of(Some(lang)) == CodeAccent::JavaScript,
        lang.map_values(|c: char| ascii_lower(c)) == "python"@ ==> code_accent_of(Some(lang)) == CodeAccent::Python,
        lang.map_values(|c: char| ascii_lower(c)) == "py"@ ==> code_accent_of(Some(lang)) == CodeAccent::Python,
        lang.map_values(|c: char| ascii_lower(c)) == "go"@ ==> code_accent_of(Some(lang)) == CodeAccent::Go,
        lang.map_values(|c: char| ascii_lower(c)) == "golang"@ ==> code_accent_of(Some(lang)) == CodeAccent::Go,
        lang.map_values(|c: char| ascii_lower(c)) == "swift"@ ==> code_accent_of(Some(lang)) == CodeAccent::Swift,
        lang.map_values(|c: char| ascii_lower(c)) == "html"@ ==> code_accent_of(Some(lang)) == CodeAccent::Markup,
        lang.map_values(|c: char| ascii_lower(c)) == "xml"@ ==> code_accent_of(Some(lang)) == CodeAccent::Markup,
        lang.map_values(|c: char| ascii_lower(c)) == "css"@ ==> code_accent_of(Some(lang)) == CodeAccent::Stylesheet,
        lang.map_values(|c: char| ascii_lower(c)) == "scss"@ ==> code_accent_of(Some(lang)) == CodeAccent::Stylesheet,
        lang.map_values(|c: char| ascii_lower(c)) == "json"@ ==> code_accent_of(Some(lang)) == CodeAccent::Data,
        lang.map_values(|c: char| ascii_lower(c)) == "yaml"@ ==> code_accent_of(Some(lang)) == CodeAccent::Data,
        lang.map_values(|c: char| ascii_lower(c)) == "yml"@ ==> code_accent_of(Some(lang)) == CodeAccent::Data,
        lang.map_values(|c: char| ascii_lower(c)) == "toml"@ ==> code_accent_of(Some(lang)) == CodeAccent::Data,
        lang.map_values(|c: char| ascii_lower(c)) == "bash"@ ==> code_accent_of(Some(lang)) == CodeAccent::Shell,
        lang.map_values(|c: char| ascii_lower(c)) == "sh"@ ==> code_accent_of(Some(lang)) == CodeAccent::Shell,
        lang.map_values(|c: char| ascii_lower(c)) == "zsh"@ ==> code_accent_of(Some(lang)) == CodeAccent::Shell,
        lang.map_values(|c: char| ascii_lower(c)) == "sql"@ ==> code_accent_of(Some(lang)) == CodeAccent::Sql,
        lang.map_values(|c: char| ascii_lower(c)) == "tex"@ ==> code_accent_of(Some(lang)) == CodeAccent::Tex,
        lang.map_values(|c: char| ascii_lower(c)) == "latex"@ ==> code_accent_of(Some(lang)) == CodeAccent::Tex,
        code_accent_of(None) == CodeAccent::Neutral,
{
    let lower = lang.map_values(|c: char| ascii_lower(c));
    if lower == "rust"@ {
        lemma_accent_rust(lower);
    }
    if lower == "rs"@ {
        lemma_accent_rs(lower);
    }
    if lower == "typescript"@ {
        lemma_accent_typescript(lower);
    }
    if lower == "ts"@ {
        lemma_accent_ts(lower);
    }
    if lower == "tsx"@ {
        lemma_accent_tsx(lower);
    }
    if lower == "javascript"@ {
        lemma_accent_javascript(lower);
    }
    if lower == "js"@ {
        lemma_accent_js(lower);
    }
    if lower == "jsx"@ {
        lemma_accent_jsx(lower);
    }
    if lower == "python"@ {
        lemma_accent_python(lower);
    }
    if lower == "py"@ {
        lemma_accent_py(lower);
    }
    if lower == "go"@ {
        lemma_accent_go(lower);
    }
    if lower == "golang"@ {
        lemma_accent_golang(lower);
    }
    if lower == "swift"@ {
        lemma_accent_swift(lower);
    }
    if lower == "html"@ {
        lemma_accent_html(lower);
    }
    if lower == "xml"@ {
        lemma_accent_xml(lower);
    }
    if lower == "css"@ {
        lemma_accent_css(lower);
    }
    if lower == "scss"@ {
        lemma_accent_scss(lower);
    }
    if lower == "json"@ {
        lemma_accent_json(lower);
    }
    if lower == "yaml"@ {
        lemma_accent_yaml(lower);
    }
    if lower == "yml"@ {
        lemma_accent_yml(lower);
    }
    if lower == "toml"@ {
        lemma_accent_toml(lower);
    }
    if lower == "bash"@ {
        lemma_accent_bash(lower);
    }
    if lower == "sh"@ {
        lemma_accent_sh(lower);
    }
    if lower == "zsh"@ {
        lemma_accent_zsh(lower);
    }
    if lower == "sql"@ {
        lemma_accent_sql(lower);
    }
    if lower == "tex"@ {
        lemma_accent_tex(lower);
    }
    if lower == "latex"@ {
        lemma_accent_latex(lower);
    }
    lemma_accent_empty();
}

/// The accent depends on the language name only up to ASCII case: a name
/// and its lowercase give the same accent.
pub proof fn law_code_accent_ignores_case(lang: Seq<char>)
    ensures
        code_accent_of(Some(lang)) == code_accent_of(Some(lang.map_values(|c: char| ascii_lower(c)))),
{
    let lower = lang.map_values(|c: char| ascii_lower(c));
    assert(lower.map_values(|c: char| ascii_lower(c)) =~= lower);
}

/// Picks the accent colour family of a code block from its language.
pub fn code_accent(lang: Option<&str>) -> (r: CodeAccent)
    ensures
        r == code_accent_of(
            match lang {
                Some(l) => Some(l@),
                None => None,
            },
        ),
{
    let lower = match lang {
        Some(l) => to_ascii_lowercase(l),
        None => Vec::new(),
    };
    if chars_eq(&lower, "rust") || chars_eq(&lower, "rs") {
        CodeAccent::Rust
    } else if chars_eq(&lower, "typescript") || chars_eq(&lower, "ts") || chars_eq(&lower, "tsx") {
        CodeAccent::TypeScript
    } else if chars_eq(&lower, "javascript") || chars_eq(&lower, "js") || chars_eq(&lower, "jsx") {
        CodeAccent::JavaScript
    } else if chars_eq(&lower, "python") || chars_eq(&lower, "py") {
        CodeAccent::Python
    } else if chars_eq(&lower, "go") || chars_eq(&lower, "golang") {
        CodeAccent::Go
    } else if chars_eq(&lower, "swift") {
        CodeAccent::Swift
    } else if chars_eq(&lower, "html") || chars_eq(&lower, "xml") {
        CodeAccent::Markup
    } else if chars_eq(&lower, "css") || chars_eq(&lower, "scss") {
        CodeAccent::Stylesheet
    } else if chars_eq(&lower, "json") || chars_eq(&lower, "yaml") || chars_eq(&lower, "yml")
        || chars_eq(&lower, "toml") {
        CodeAccent::Data
    } else if chars_eq(&lower, "bash") || chars_eq(&lower, "sh") || chars_eq(&lower, "zsh") {
        CodeAccent::Shell
    } else if chars_eq(&lower, "sql") {
        CodeAccent::Sql
    } else if chars_eq(&lower, "tex") || chars_eq(&lower, "latex") {
        CodeAccent::Tex
    } else {
        CodeAccent::Neutral
    }
}

/// The labels after a number is asked for `l`: unchanged when `l` already has
/// a number, else `l` appended.
pub open spec fn with_label(s: Seq<Seq<char>>, l: Seq<char>) -> Seq<Seq<char>> {
    if s.contains(l) {
        s
    } else {
        s.push(l)
    }
}

/// Footnote numbers: labels in the order they were first seen; the label at
/// position `i` has number `i + 1`.
pub struct FootnoteNumbers {
    labels: Vec<String>,
}

impl View for FootnoteNumbers {
    type V = Seq<Seq<char>>;

    closed spec fn view(&self) -> Seq<Seq<char>> {
        strings_view(self.labels@)
    }
}

impl FootnoteNumbers {
    #[verifier::type_invariant]
    closed spec fn labels_distinct(self) -> bool {
        self@.no_duplicates()
    }

    pub fn new() -> (r: Self)
        ensures
            r@ == Seq::<Seq<char>>::empty(),
    {
        let r = FootnoteNumbers { labels: Vec::new() };
        assert(r@ == Seq::<Seq<char>>::empty());
        r
    }

    /// The number of footnote `label`, giving it the next number the first
    /// time it is seen.
    pub fn number(&mut self, label: &str) -> (n: usize)
        ensures
            final(self)@ == with_label(old(self)@, label@),
            final(self)@.no_duplicates(),
            1 <= n <= final(self)@.len(),
            final(self)@[n - 1] == label@,
            n == crate::pieces::note_number(old(self)@, label@),
    {
        proof {
            use_type_invariant(&*self);
        }
        let owned = label.to_owned();
        let mut i: usize = 0;
        while i < self.labels.len()
            invariant
                i <= self.labels.len(),
                owned@ == label@,
                self@.no_duplicates(),
                forall|k: int| 0 <= k < i ==> #[trigger] self@[k] != label@,
            decreases self.labels.len() - i,
        {
            if self.labels[i] == owned {
                assert(self@[i as int] == label@);
                proof {
                    assert(self@.contains(label@));
                    let j = self@.index_of(label@);
                    assert(0 <= j < self@.len() && self@[j] == label@);
                    assert(j == i);
                }
                return i + 1;
            }
            i = i + 1;
        }
        let ghost before = self@;
        assert(!before.contains(label@));
        let mut labels = Vec::new();
        std::mem::swap(&mut labels, &mut self.labels);
        labels.push(owned);
        assert(strings_view(labels@) == before.push(label@));
        let n = labels.len();
        self.labels = labels;
        n
    }
}

/// The labels of the footnote definitions among `blocks`, in order.
pub open spec fn footnote_labels(blocks: Seq<BlockView>) -> Seq<Seq<char>>
    decreases blocks.len(),
{
    if blocks.len() == 0 {
        Seq::empty()
    } else {
        let rest = footnote_labels(blocks.drop_last());
        match blocks.last() {
            BlockView::Footnote { label, .. } => rest.push(label),
            _ => rest,
        }
    }
}

/// The labels after numbers are asked for each of `ls` in turn.
pub open spec fn with_labels(s: Seq<Seq<char>>, ls: Seq<Seq<char>>) -> Seq<Seq<char>>
    decreases ls.len(),
{
    if ls.len() == 0 {
        s
    } else {
        with_label(with_labels(s, ls.drop_last()), ls.last())
    }
}

impl FootnoteNumbers {
    /// Numbers the footnote definitions of `doc` in document order, so that
    /// references anywhere get the number of their definition.
    pub fn index_footnotes(&mut self, doc: &Document)
        ensures
            final(self)@ == with_labels(old(self)@, footnote_labels(doc@)),
            final(self)@.no_duplicates(),
    {
        proof {
            use_type_invariant(&*self);
        }
        let ghost start = self@;
        let ghost bv = doc@;
        let mut i: usize = 0;
        while i < doc.blocks.len()
            invariant
                i <= doc.blocks.len(),
                bv == doc@,
                bv.len() == doc.blocks@.len(),
                forall|k: int| 0 <= k < bv.len() ==> #[trigger] bv[k] == block_view(doc.blocks@[k]),
                self@ == with_labels(start, footnote_labels(bv.take(i as int))),
                self@.no_duplicates(),
            decreases doc.blocks.len() - i,
        {
            let ghost before = footnote_labels(bv.take(i as int));
            assert(bv.take(i + 1).drop_last() == bv.take(i as int));
            assert(bv.take(i + 1).last() == bv[i as int]);
            if let Block::Footnote { label, .. } = &doc.blocks[i] {
                self.number(label.as_str());
                assert(footnote_labels(bv.take(i + 1)) == before.push(label@));
                assert(before.push(label@).drop_last() == before);
            }
            i = i + 1;
        }
        assert(bv.take(bv.len() as int) == bv);
    }
}

/// Numbering laws: a label asked for again keeps its number, numbers already
/// given never move, and no two labels ever share a number.
pub proof fn law_footnote_numbers_stable(s: Seq<Seq<char>>, l: Seq<char>)
    requires
        s.no_duplicates(),
    ensures
        with_label(s, l).no_duplicates(),
        s.is_prefix_of(with_label(s, l)),
        with_label(s, l).contains(l),
        s.contains(l) ==> with_label(s, l) == s,
{
    let t = with_label(s, l);
    assert(t.subrange(0, s.len() as int) == s);
    if !s.contains(l) {
        assert(t[s.len() as int] == l);
    }
}

/// The length of the longest row (0 when there is none).
pub open spec fn longest_row(rows: Seq<Seq<Seq<InlineView>>>) -> nat
    decreases rows.len(),
{
    if rows.len() == 0 {
        0
    } else {
        let rest = longest_row(rows.drop_last());
        if rows.last().len() > rest {
            rows.last().len()
        } else {
            rest
        }
    }
}

/// Number of columns a table is laid out with: the widest of the header and
/// the rows, and at least one.
pub open spec fn column_count_of(t: TableView) -> nat {
    let w = if t.header.len() > longest_row(t.rows) {
        t.header.len()
    } else {
        longest_row(t.rows)
    };
    if w > 1 {
        w
    } else {
        1
    }
}

/// The alignment of column `col`: the declared one, or none past the last.
pub open spec fn alignment_of(t: TableView, col: int) -> Alignment {
    if 0 <= col < t.alignments.len() {
        t.alignments[col]
    } else {
        Alignment::Unaligned
    }
}

impl Table {
    /// Number of columns to lay out.
    pub fn column_count(&self) -> (n: usize)
        ensures
            n == column_count_of(table_view(*self)),
    {
        let ghost rows = table_view(*self).rows;
        let mut widest: usize = 0;
        let mut i: usize = 0;
        while i < self.rows.len()
            invariant
                i <= self.rows.len(),
                rows == table_view(*self).rows,
                rows.len() == self.rows.len(),
                forall|k: int| 0 <= k < rows.len() ==> #[trigger] rows[k].len() == self.rows@[k].len(),
                widest == longest_row(rows.take(i as int)),
            decreases self.rows.len() - i,
        {
            assert(rows.take(i + 1).drop_last() == rows.take(i as int));
            let w = self.rows[i].len();
            if w > widest {
                widest = w;
            }
            i = i + 1;
        }
        assert(rows.take(rows.len() as int) == rows);
        let mut n = self.header.len();
        if widest > n {
            n = widest;
        }
        if n < 1 {
            n = 1;
        }
        n
    }

    /// The alignment of column `col`.
    pub fn alignment_at(&self, col: usize) -> (a: Alignment)
        ensures
            a == alignment_of(table_view(*self), col as int),
    {
        if col < self.alignments.len() {
            self.alignments[col]
        } else {
            Alignment::Unaligned
        }
    }
}

proof fn lemma_longest_row(rows: Seq<Seq<Seq<InlineView>>>)
    ensures
        forall|k: int| 0 <= k < rows.len() ==> #[trigger] rows[k].len() <= longest_row(rows),
    decreases rows.len(),
{
    if rows.len() > 0 {
        lemma_longest_row(rows.drop_last());
        assert forall|k: int| 0 <= k < rows.len() implies #[trigger] rows[k].len() <= longest_row(
            rows,
        ) by {
            if k < rows.len() - 1 {
                assert(rows[k] == rows.drop_last()[k]);
            }
        }
    }
}

/// Every cell of a table has a column: the column count is at least one and
/// covers the header and every row.
pub proof fn law_columns_cover_all_cells(t: TableView)
    ensures
        column_count_of(t) >= 1,
        column_count_of(t) >= t.header.len(),
        forall|k: int| 0 <= k < t.rows.len() ==> #[trigger] t.rows[k].len() <= column_count_of(t),
{
    lemma_longest_row(t.rows);
}

/// The decimal digit for `d` (`d < 10`).
pub open spec fn digit_char(d: nat) -> char {
    ((('0' as u32) as nat + d) as u32) as char
}

/// The decimal numeral of `n`, most significant digit first.
pub open spec fn decimal(n: nat) -> Seq<char>
    decreases n,
{
    if n < 10 {
        seq![digit_char(n)]
    } else {
        decimal(n / 10).push(digit_char(n % 10))
    }
}

fn push_decimal(s: &mut String, n: u64)
    ensures
        final(s)@ == old(s)@ + decimal(n as nat),
    decreases n,
{
    if n >= 10 {
        push_decimal(s, n / 10);
    }
    let d = (n % 10) as u32;
    let c = ((('0' as u32) + d) as u8) as char;
    assert(c == digit_char((n % 10) as nat));
    push_char(s, c);
}

/// The decimal numeral of `n` (what `n.to_string()` writes).
pub fn decimal_text(n: u64) -> (r: String)
    ensures
        r@ == decimal(n as nat),
{
    let mut r = String::new();
    push_decimal(&mut r, n);
    r
}

/// The label of item or note `n`: its numeral followed by a full stop.
pub fn number_label(n: u64) -> (r: String)
    ensures
        r@ == decimal(n as nat).push('.'),
{
    let mut r = decimal_text(n);
    push_char(&mut r, '.');
    r
}

/// The text drawn in place of an image that cannot be read: its alt text,
/// or its path when the alt text is blank.
pub fn placeholder_label<'a>(src: &'a str, alt: &'a str) -> (r: &'a str)
    ensures
        r@ == if all_space(alt@) {
            src@
        } else {
            alt@
        },
{
    if is_blank(alt) {
        src
    } else {
        alt
    }
}

/// The plain text of an inline sequence.
pub fn plain(inlines: &[Inline]) -> (r: String)
    ensures
        r@ == plain_seq(inlines_view(inlines@)),
{
    inlines_to_plain_text(inlines)
}

} // verus!
