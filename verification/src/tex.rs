//! TeX documents for formulas, XML escaping for SVG text, and reading
//! single-quoted attributes from an SVG header.

use vstd::prelude::*;
use crate::ir::opt_string_view;
use crate::text::{chars_of, find_char_from, lemma_find_char_first_at, push_char, string_from_range};

verus! {

/// The XML escape of one character.
pub open spec fn xml_escape_char(c: char) -> Seq<char> {
    if c == '&' {
        seq!['&', 'a', 'm', 'p', ';']
    } else if c == '<' {
        seq!['&', 'l', 't', ';']
    } else if c == '>' {
        seq!['&', 'g', 't', ';']
    } else if c == '"' {
        seq!['&', 'q', 'u', 'o', 't', ';']
    } else if c == '\'' {
        seq!['&', 'a', 'p', 'o', 's', ';']
    } else {
        seq![c]
    }
}

/// `s` with `&`, `<`, `>`, `"` and `'` written as XML entities.
pub open spec fn xml_escaped(s: Seq<char>) -> Seq<char> {
    s.map_values(|c: char| xml_escape_char(c)).flatten()
}

/// Escapes text for use inside XML (an SVG text node or attribute).
pub fn escape_xml(input: &str) -> (r: String)
    ensures
        r@ == xml_escaped(input@),
{
    broadcast use Seq::lemma_flatten_push;

    let mut r = String::new();
    for c in it: input.chars()
        invariant
            it.seq() == input@,
            r@ == xml_escaped(input@.take(it.index() as int)),
    {
        let ghost i = it.index() as int;
        let ghost before = r@;
        if c == '&' {
            r.append("&amp;");
            proof { reveal_strlit("&amp;"); }
        } else if c == '<' {
            r.append("&lt;");
            proof { reveal_strlit("&lt;"); }
        } else if c == '>' {
            r.append("&gt;");
            proof { reveal_strlit("&gt;"); }
        } else if c == '"' {
            r.append("&quot;");
            proof { reveal_strlit("&quot;"); }
        } else if c == '\'' {
            r.append("&apos;");
            proof { reveal_strlit("&apos;"); }
        } else {
            push_char(&mut r, c);
        }
        assert(r@ == before + xml_escape_char(c));
        proof {
            let m = input@.take(i).map_values(|c: char| xml_escape_char(c));
            assert(input@.take(i + 1).map_values(|c: char| xml_escape_char(c)) == m.push(
                xml_escape_char(c),
            ));
            m.lemma_flatten_push(xml_escape_char(c));
        }
    }
    assert(input@.take(input@.len() as int) == input@);
    r
}

proof fn lemma_escaped_push(s: Seq<char>, c: char)
    ensures
        xml_escaped(s.push(c)) == xml_escaped(s) + xml_escape_char(c),
{
    let m = s.map_values(|c: char| xml_escape_char(c));
    assert(s.push(c).map_values(|c: char| xml_escape_char(c)) == m.push(xml_escape_char(c)));
    m.lemma_flatten_push(xml_escape_char(c));
}

/// No markup character survives escaping: the result holds no `<`, `>`, `"`
/// or `'`.
pub proof fn law_escaped_has_no_markup(s: Seq<char>)
    ensures
        forall|i: int|
            0 <= i < xml_escaped(s).len() ==> {
                let c = #[trigger] xml_escaped(s)[i];
                c != '<' && c != '>' && c != '"' && c != '\''
            },
    decreases s.len(),
{
    if s.len() == 0 {
        assert(s.map_values(|c: char| xml_escape_char(c)) == Seq::<Seq<char>>::empty());
    } else {
        let p = s.drop_last();
        law_escaped_has_no_markup(p);
        assert(p.push(s.last()) == s);
        lemma_escaped_push(p, s.last());
        let e = xml_escape_char(s.last());
        assert forall|i: int| 0 <= i < xml_escaped(s).len() implies {
            let c = #[trigger] xml_escaped(s)[i];
            c != '<' && c != '>' && c != '"' && c != '\''
        } by {
            if i < xml_escaped(p).len() {
                assert(xml_escaped(s)[i] == xml_escaped(p)[i]);
            } else {
                assert(xml_escaped(s)[i] == e[i - xml_escaped(p).len()]);
            }
        }
    }
}

/// Reads XML text back: each of the entities `&amp;`, `&lt;`, `&gt;`,
/// `&quot;` and `&apos;` becomes its character, read from the left; every
/// other character stays.
pub open spec fn xml_unescaped(t: Seq<char>) -> Seq<char>
    decreases t.len(),
{
    if t.len() == 0 {
        Seq::empty()
    } else if t.len() >= 5 && t.take(5) == seq!['&', 'a', 'm', 'p', ';'] {
        seq!['&'] + xml_unescaped(t.skip(5))
    } else if t.len() >= 4 && t.take(4) == seq!['&', 'l', 't', ';'] {
        seq!['<'] + xml_unescaped(t.skip(4))
    } else if t.len() >= 4 && t.take(4) == seq!['&', 'g', 't', ';'] {
        seq!['>'] + xml_unescaped(t.skip(4))
    } else if t.len() >= 6 && t.take(6) == seq!['&', 'q', 'u', 'o', 't', ';'] {
        seq!['"'] + xml_unescaped(t.skip(6))
    } else if t.len() >= 6 && t.take(6) == seq!['&', 'a', 'p', 'o', 's', ';'] {
        seq!['\''] + xml_unescaped(t.skip(6))
    } else {
        seq![t[0]] + xml_unescaped(t.drop_first())
    }
}

proof fn lemma_escaped_front(s: Seq<char>)
    requires
        s.len() > 0,
    ensures
        xml_escaped(s) == xml_escape_char(s[0]) + xml_escaped(s.drop_first()),
{
    let m = s.map_values(|c: char| xml_escape_char(c));
    assert(m.drop_first() == s.drop_first().map_values(|c: char| xml_escape_char(c)));
}

/// Escaping is done character by character: the escape of a concatenation is
/// the concatenation of the escapes.
pub proof fn law_escape_concat(a: Seq<char>, b: Seq<char>)
    ensures
        xml_escaped(a + b) == xml_escaped(a) + xml_escaped(b),
{
    let ma = a.map_values(|c: char| xml_escape_char(c));
    let mb = b.map_values(|c: char| xml_escape_char(c));
    assert((a + b).map_values(|c: char| xml_escape_char(c)) == ma + mb);
    vstd::seq_lib::lemma_flatten_concat(ma, mb);
}

/// Reading escaped text back as XML gives the text that was escaped.
pub proof fn law_unescape_inverts_escape(s: Seq<char>)
    ensures
        xml_unescaped(xml_escaped(s)) == s,
    decreases s.len(),
{
    if s.len() == 0 {
        assert(s.map_values(|c: char| xml_escape_char(c)) == Seq::<Seq<char>>::empty());
    } else {
        let c = s[0];
        let rest = s.drop_first();
        lemma_escaped_front(s);
        law_unescape_inverts_escape(rest);
        let e = xml_escape_char(c);
        let r = xml_escaped(rest);
        let t = e + r;
        assert(t.skip(e.len() as int) == r);
        assert(t.take(e.len() as int) == e);
        assert(t[0] == e[0]);
        if c == '&' {
        } else if c == '<' {
            assert(t[1] == 'l');
            if t.len() >= 5 {
                assert(t.take(5)[1] == t[1]);
            }
        } else if c == '>' {
            assert(t[1] == 'g');
            if t.len() >= 5 {
                assert(t.take(5)[1] == t[1]);
            }
            assert(t.take(4)[1] == t[1]);
        } else if c == '"' {
            assert(t[1] == 'q');
            assert(t.take(5)[1] == t[1]);
            assert(t.take(4)[1] == t[1]);
        } else if c == '\'' {
            assert(t[1] == 'a');
            assert(t[2] == 'p');
            assert(t.take(5)[2] == t[2]);
            assert(t.take(4)[1] == t[1]);
            assert(t.take(6)[1] == t[1]);
            assert(t.take(6)[2] == t[2]);
        } else {
            assert(t[0] == c);
            if t.len() >= 4 {
                assert(t.take(4)[0] == t[0]);
            }
            if t.len() >= 5 {
                assert(t.take(5)[0] == t[0]);
            }
            if t.len() >= 6 {
                assert(t.take(6)[0] == t[0]);
            }
            assert(t.drop_first() == r);
        }
        assert(seq![c] + rest == s);
    }
}

/// The TeX body of a formula: `\[\displaystyle ... \]` for display math,
/// `$...$` inline.
pub open spec fn tex_body(tex: Seq<char>, display: bool) -> Seq<char> {
    if display {
        "\\[\\displaystyle\n"@ + tex + "\n\\]"@
    } else {
        "$"@ + tex + "$"@
    }
}

/// The TeX body of a formula for the LuaLaTeX path: `$\displaystyle ... $`
/// for display math, `$...$` inline.
pub open spec fn pdf_tex_body(tex: Seq<char>, display: bool) -> Seq<char> {
    if display {
        "$\\displaystyle\n"@ + tex + "\n$"@
    } else {
        "$"@ + tex + "$"@
    }
}

/// Standalone LuaLaTeX document (Latin Modern Math) that typesets one formula.
pub open spec fn pdf_tex_document(tex: Seq<char>, display: bool) -> Seq<char> {
    PDF_TEX_PREAMBLE@ + pdf_tex_body(tex, display) + TEX_CLOSING@
}

/// Standalone LaTeX document (DVI path) that typesets one formula.
pub open spec fn dvi_tex_document(tex: Seq<char>, display: bool) -> Seq<char> {
    DVI_TEX_PREAMBLE@ + tex_body(tex, display) + TEX_CLOSING@
}

pub const PDF_TEX_PREAMBLE: &'static str = "\\documentclass[preview,border=0pt]{standalone}\n\\usepackage{amsmath,amssymb,mathtools,bm}\n\\usepackage{unicode-math}\n\\setmathfont{Latin Modern Math}\n\\begin{document}\n";

pub const DVI_TEX_PREAMBLE: &'static str = "\\documentclass[preview,border=0pt]{standalone}\n\\usepackage[T1]{fontenc}\n\\usepackage{amsmath,amssymb,mathtools,bm}\n\\begin{document}\n";

pub const TEX_CLOSING: &'static str = "\n\\end{document}\n";

/// The TeX body that wraps a formula in display or inline math mode.
pub fn math_tex_body(tex: &str, display: bool) -> (r: String)
    ensures
        r@ == tex_body(tex@, display),
{
    let mut body = String::new();
    if display {
        body.append("\\[\\displaystyle\n");
        body.append(tex);
        body.append("\n\\]");
    } else {
        body.append("$");
        body.append(tex);
        body.append("$");
    }
    body
}

/// The LuaLaTeX document for a formula, typeset with `unicode-math`.
pub fn math_pdf_tex_document(tex: &str, display: bool) -> (r: String)
    ensures
        r@ == pdf_tex_document(tex@, display),
{
    let mut body = String::new();
    if display {
        body.append("$\\displaystyle\n");
        body.append(tex);
        body.append("\n$");
    } else {
        body.append("$");
        body.append(tex);
        body.append("$");
    }
    let mut doc = String::new();
    doc.append(PDF_TEX_PREAMBLE);
    doc.append(body.as_str());
    doc.append(TEX_CLOSING);
    doc
}

/// The LaTeX document for a formula, for the DVI-to-SVG path.
pub fn math_dvi_tex_document(tex: &str, display: bool) -> (r: String)
    ensures
        r@ == dvi_tex_document(tex@, display),
{
    let body = math_tex_body(tex, display);
    let mut doc = String::new();
    doc.append(DVI_TEX_PREAMBLE);
    doc.append(body.as_str());
    doc.append(TEX_CLOSING);
    doc
}

/// `needle` occurs in `hay` starting at position `i`.
pub open spec fn occurs_at(hay: Seq<char>, needle: Seq<char>, i: int) -> bool {
    0 <= i && i + needle.len() <= hay.len() && hay.subrange(i, i + needle.len()) == needle
}

/// The first position at or after `i` where `needle` occurs in `hay`.
pub open spec fn find_from(hay: Seq<char>, needle: Seq<char>, i: int) -> Option<int>
    decreases hay.len() + 1 - i,
{
    if i < 0 || i + needle.len() > hay.len() {
        None
    } else if occurs_at(hay, needle, i) {
        Some(i)
    } else {
        find_from(hay, needle, i + 1)
    }
}

/// The value of the first single-quoted attribute `attr='...'` in `svg`.
pub open spec fn svg_attr_value(svg: Seq<char>, attr: Seq<char>) -> Option<Seq<char>> {
    let needle = attr + seq!['=', '\''];
    match find_from(svg, needle, 0) {
        Some(p) => {
            let start = p + needle.len();
            match find_char_from(svg, '\'', start) {
                Some(e) => Some(svg.subrange(start, e)),
                None => None,
            }
        },
        None => None,
    }
}

/// Reading back an attribute: in a header that starts with `attr='value'`,
/// the value read for `attr` is `value` (the value holds no quote).
pub proof fn law_svg_attr_reads_back(attr: Seq<char>, value: Seq<char>, rest: Seq<char>)
    requires
        forall|i: int| 0 <= i < value.len() ==> value[i] != '\'',
    ensures
        svg_attr_value(attr + seq!['=', '\''] + value + seq!['\''] + rest, attr) == Some(value),
{
    let needle = attr + seq!['=', '\''];
    let svg = needle + value + seq!['\''] + rest;
    assert(svg.subrange(0, needle.len() as int) == needle);
    assert(occurs_at(svg, needle, 0));
    let start = needle.len() as int;
    let end = start + value.len();
    assert(svg[end] == '\'');
    assert forall|m: int| start <= m < end implies svg[m] != '\'' by {
        assert(svg[m] == value[m - start]);
    }
    lemma_find_char_first_at(svg, '\'', start, end);
    assert(svg.subrange(start, end) == value);
}

fn occurs_at_exec(hay: &Vec<char>, needle: &Vec<char>, i: usize) -> (r: bool)
    requires
        i + needle.len() <= hay.len(),
    ensures
        r == occurs_at(hay@, needle@, i as int),
{
    let m = needle.len();
    let mut j: usize = 0;
    while j < m
        invariant
            m == needle.len(),
            i + m <= hay.len(),
            j <= m,
            hay@.subrange(i as int, i + j) == needle@.take(j as int),
        decreases m - j,
    {
        if hay[i + j] != needle[j] {
            assert(hay@.subrange(i as int, i + m)[j as int] != needle@[j as int]);
            return false;
        }
        assert(hay@.subrange(i as int, i + j + 1) == hay@.subrange(i as int, i + j).push(hay@[i + j]));
        assert(needle@.take(j + 1) == needle@.take(j as int).push(needle@[j as int]));
        j = j + 1;
    }
    assert(needle@.take(m as int) == needle@);
    true
}

fn find_exec(hay: &Vec<char>, needle: &Vec<char>) -> (r: Option<usize>)
    ensures
        match r {
            Some(p) => find_from(hay@, needle@, 0) == Some(p as int),
            None => find_from(hay@, needle@, 0) is None,
        },
{
    let n = hay.len();
    let m = needle.len();
    if m > n {
        return None;
    }
    let mut i: usize = 0;
    loop
        invariant
            n == hay.len(),
            m == needle.len(),
            m <= n,
            i <= n - m,
            find_from(hay@, needle@, 0) == find_from(hay@, needle@, i as int),
        decreases n - m - i,
    {
        if occurs_at_exec(hay, needle, i) {
            return Some(i);
        }
        if i == n - m {
            assert(find_from(hay@, needle@, i + 1) is None);
            return None;
        }
        i = i + 1;
    }
}

fn find_char_exec(hay: &Vec<char>, c: char, start: usize) -> (r: Option<usize>)
    ensures
        match r {
            Some(p) => find_char_from(hay@, c, start as int) == Some(p as int) && p < hay.len(),
            None => find_char_from(hay@, c, start as int) is None,
        },
{
    let n = hay.len();
    let mut i: usize = start;
    while i < n
        invariant
            n == hay.len(),
            start <= i,
            find_char_from(hay@, c, start as int) == find_char_from(hay@, c, i as int),
        decreases n - i,
    {
        if hay[i] == c {
            return Some(i);
        }
        i = i + 1;
    }
    None
}

proof fn lemma_find_from_bounds(hay: Seq<char>, needle: Seq<char>, i: int)
    ensures
        find_from(hay, needle, i) matches Some(p) ==> i <= p && p + needle.len() <= hay.len(),
    decreases hay.len() + 1 - i,
{
    if !(i < 0 || i + needle.len() > hay.len()) && !occurs_at(hay, needle, i) {
        lemma_find_from_bounds(hay, needle, i + 1);
    }
}

proof fn lemma_find_char_from_bounds(hay: Seq<char>, c: char, i: int)
    ensures
        find_char_from(hay, c, i) matches Some(p) ==> i <= p < hay.len(),
    decreases hay.len() - i,
{
    if !(i < 0 || i >= hay.len()) && hay[i] != c {
        lemma_find_char_from_bounds(hay, c, i + 1);
    }
}

/// The value of the attribute `attr` in an SVG header written with single
/// quotes (`attr='value'`), as `dvisvgm` writes it.
pub fn svg_attr(svg: &str, attr: &str) -> (r: Option<String>)
    ensures
        opt_string_view(r) == svg_attr_value(svg@, attr@),
{
    let hay = chars_of(svg);
    let mut needle = chars_of(attr);
    needle.push('=');
    needle.push('\'');
    assert(needle@ == attr@ + seq!['=', '\'']);
    match find_exec(&hay, &needle) {
        None => None,
        Some(p) => {
            proof {
                lemma_find_from_bounds(hay@, needle@, 0);
            }
            assert(p + needle@.len() <= hay@.len());
            assert(hay@.len() == hay.len());
            let start = p + needle.len();
            match find_char_exec(&hay, '\'', start) {
                None => None,
                Some(end) => {
                    proof {
                        lemma_find_char_from_bounds(hay@, '\'', start as int);
                    }
                    Some(string_from_range(&hay, start, end))
                },
            }
        },
    }
}

/// Where the resources of an imported formula page come from.
#[derive(Debug, Clone, Copy, PartialEq, Eq, Structural)]
pub enum ResourcesSource {
    /// The page's own `Resources` entry.
    PageEntry,
    /// The first resource dictionary the page refers to by id.
    Referenced,
    /// A resource dictionary the page inherits from its parents.
    Inherited,
    /// None: an empty dictionary.
    Empty,
}

/// The first available source, in order: the page's own entry, a referenced
/// dictionary, an inherited one, else an empty dictionary.
pub open spec fn resources_source_of(has_entry: bool, has_reference: bool, has_inherited: bool) -> ResourcesSource {
    if has_entry {
        ResourcesSource::PageEntry
    } else if has_reference {
        ResourcesSource::Referenced
    } else if has_inherited {
        ResourcesSource::Inherited
    } else {
        ResourcesSource::Empty
    }
}

/// Chooses where an imported formula page takes its resources from.
pub fn resources_source(has_entry: bool, has_reference: bool, has_inherited: bool) -> (r: ResourcesSource)
    ensures
        r == resources_source_of(has_entry, has_reference, has_inherited),
{
    if has_entry {
        ResourcesSource::PageEntry
    } else if has_reference {
        ResourcesSource::Referenced
    } else if has_inherited {
        ResourcesSource::Inherited
    } else {
        ResourcesSource::Empty
    }
}

/// Resources come from the first source that exists: the page's own entry
/// whenever there is one, a referenced dictionary only without it, an
/// inherited one only without both, and an empty dictionary exactly when
/// there is none of them.
pub proof fn law_resources_first_available(has_entry: bool, has_reference: bool, has_inherited: bool)
    ensures
        has_entry ==> resources_source_of(has_entry, has_reference, has_inherited) == ResourcesSource::PageEntry,
        !has_entry && has_reference ==> resources_source_of(has_entry, has_reference, has_inherited)
            == ResourcesSource::Referenced,
        !has_entry && !has_reference && has_inherited ==> resources_source_of(has_entry, has_reference, has_inherited)
            == ResourcesSource::Inherited,
        (resources_source_of(has_entry, has_reference, has_inherited) == ResourcesSource::Empty) <==> (!has_entry
            && !has_reference && !has_inherited),
{
}

/// Inline math is the formula between single dollar signs with nothing
/// added, on both the LuaLaTeX and the DVI path; display math on the
/// LuaLaTeX path is inline math of the formula set on its own lines after
/// `\displaystyle`.
pub proof fn law_inline_math_documents(tex: Seq<char>)
    ensures
        pdf_tex_document(tex, false) == PDF_TEX_PREAMBLE@ + (seq!['$'] + tex + seq!['$']) + TEX_CLOSING@,
        dvi_tex_document(tex, false) == DVI_TEX_PREAMBLE@ + (seq!['$'] + tex + seq!['$']) + TEX_CLOSING@,
        pdf_tex_body(tex, true) == pdf_tex_body("\\displaystyle\n"@ + tex + "\n"@, false),
{
    reveal_strlit("$");
    reveal_strlit("$\\displaystyle\n");
    reveal_strlit("\\displaystyle\n");
    reveal_strlit("\n$");
    reveal_strlit("\n");
    assert("$"@ == seq!['$']);
    let d = "\\displaystyle\n"@;
    assert("$\\displaystyle\n"@ == seq!['$'] + d);
    assert("\n$"@ == "\n"@ + seq!['$']);
    assert(pdf_tex_body(tex, true) == seq!['$'] + d + tex + "\n"@ + seq!['$']);
    assert(pdf_tex_body(d + tex + "\n"@, false) == seq!['$'] + (d + tex + "\n"@) + seq!['$']);
}

} // verus!
