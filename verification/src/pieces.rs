//! The pieces a run of inline content is drawn as: what each inline shows,
//! in which face, whether it is underlined or struck through, and which link
//! it belongs to. Footnote references are numbered by first use; citations
//! show their readable label. Sizes and colours are the renderer's own.

use vstd::prelude::*;
use crate::ir::{Inline, InlineView, inline_view, inlines_view, lemma_inlines_view_index};
use crate::layout::{FontFace, FootnoteNumbers, emphasis_of, strong_of, with_label};
use crate::text::{citation_label, citation_label_of, push_char, year_split_on_char_boundary};

verus! {

/// What a piece shows.
#[derive(Debug)]
pub enum PieceKind {
    Text(String),
    Code(String),
    Math(String),
    FootnoteRef(usize),
    Citation(String),
}

/// One drawn piece of inline content.
#[derive(Debug)]
pub struct Piece {
    pub kind: PieceKind,
    pub font: FontFace,
    pub underline: bool,
    pub strike: bool,
    pub link: Option<String>,
}

/// Model of a [`PieceKind`].
pub enum PieceKindView {
    Text(Seq<char>),
    Code(Seq<char>),
    Math(Seq<char>),
    FootnoteRef(int),
    Citation(Seq<char>),
}

/// Model of a [`Piece`].
pub struct PieceView {
    pub kind: PieceKindView,
    pub font: FontFace,
    pub underline: bool,
    pub strike: bool,
    pub link: Option<Seq<char>>,
}

/// The style inline content inherits: face, underline, strike-through, and
/// the link of the outermost enclosing link.
pub struct StyleView {
    pub font: FontFace,
    pub underline: bool,
    pub strike: bool,
    pub link: Option<Seq<char>>,
}

pub open spec fn piece_kind_view(k: PieceKind) -> PieceKindView {
    match k {
        PieceKind::Text(s) => PieceKindView::Text(s@),
        PieceKind::Code(s) => PieceKindView::Code(s@),
        PieceKind::Math(s) => PieceKindView::Math(s@),
        PieceKind::FootnoteRef(n) => PieceKindView::FootnoteRef(n as int),
        PieceKind::Citation(s) => PieceKindView::Citation(s@),
    }
}

pub open spec fn opt_str_view(s: Option<String>) -> Option<Seq<char>> {
    match s {
        Some(s) => Some(s@),
        None => None,
    }
}

pub open spec fn piece_view(p: Piece) -> PieceView {
    PieceView {
        kind: piece_kind_view(p.kind),
        font: p.font,
        underline: p.underline,
        strike: p.strike,
        link: opt_str_view(p.link),
    }
}

/// The views of a list of pieces.
pub open spec fn pieces_view(s: Seq<Piece>) -> Seq<PieceView> {
    s.map_values(|p: Piece| piece_view(p))
}

/// The number a footnote reference to `l` shows when `notes` are the labels
/// numbered so far: its existing number, else the next one.
pub open spec fn note_number(notes: Seq<Seq<char>>, l: Seq<char>) -> int {
    if notes.contains(l) {
        notes.index_of(l) + 1
    } else {
        notes.len() as int + 1
    }
}

/// The text a citation of `key` shows: its readable label in parentheses.
pub open spec fn citation_text(key: Seq<char>) -> Seq<char> {
    seq!['('] + citation_label_of(key) + seq![')']
}

/// A piece that shows `kind` in the inherited style.
pub open spec fn styled(kind: PieceKindView, st: StyleView) -> PieceView {
    PieceView { kind, font: st.font, underline: st.underline, strike: st.strike, link: st.link }
}

/// A piece with its own face, neither underlined nor struck, in the
/// inherited link.
pub open spec fn plain_piece(kind: PieceKindView, font: FontFace, st: StyleView) -> PieceView {
    PieceView { kind, font, underline: false, strike: false, link: st.link }
}

/// The pieces of an inline sequence in style `st`, with the footnote labels
/// numbered so far; also the labels numbered afterwards.
pub open spec fn pieces_seq(c: Seq<InlineView>, st: StyleView, notes: Seq<Seq<char>>) -> (
    Seq<PieceView>,
    Seq<Seq<char>>,
)
    decreases c, 0nat,
{
    if c.len() == 0 {
        (Seq::empty(), notes)
    } else {
        let (p1, n1) = pieces_seq(c.drop_last(), st, notes);
        let (p2, n2) = pieces_one(c.last(), st, n1);
        (p1 + p2, n2)
    }
}

/// The pieces of one inline: text in the inherited style; code in the
/// monospace face; math in the serif face; emphasis, strong emphasis and
/// strike-through restyle their content; a link underlines its content and
/// puts it under the outermost link; a footnote reference shows its number
/// in bold sans; a citation shows its label in serif italic.
pub open spec fn pieces_one(i: InlineView, st: StyleView, notes: Seq<Seq<char>>) -> (
    Seq<PieceView>,
    Seq<Seq<char>>,
)
    decreases i, 1nat,
{
    match i {
        InlineView::Text(t) => (seq![styled(PieceKindView::Text(t), st)], notes),
        InlineView::Code(t) => (seq![plain_piece(PieceKindView::Code(t), FontFace::Mono, st)], notes),
        InlineView::Math(t) => (seq![plain_piece(PieceKindView::Math(t), FontFace::Serif, st)], notes),
        InlineView::Emphasis(c) => pieces_seq(c, StyleView { font: emphasis_of(st.font), ..st }, notes),
        InlineView::Strong(c) => pieces_seq(c, StyleView { font: strong_of(st.font), ..st }, notes),
        InlineView::Strikethrough(c) => pieces_seq(c, StyleView { strike: true, ..st }, notes),
        InlineView::Link { href, content } => pieces_seq(
            content,
            StyleView {
                underline: true,
                link: Some(
                    match st.link {
                        Some(l) => l,
                        None => href,
                    },
                ),
                ..st
            },
            notes,
        ),
        InlineView::FootnoteRef(l) => (
            seq![plain_piece(PieceKindView::FootnoteRef(note_number(notes, l)), FontFace::SansBold, st)],
            with_label(notes, l),
        ),
        InlineView::Citation(k) => (
            seq![plain_piece(PieceKindView::Citation(citation_text(k)), FontFace::SerifItalic, st)],
            notes,
        ),
    }
}

/// The style of top-level content: face `base`, no underline, no strike,
/// no link.
pub open spec fn base_style(base: FontFace) -> StyleView {
    StyleView { font: base, underline: false, strike: false, link: None }
}

/// The pieces of `c` drawn from face `base`, with the footnote labels
/// numbered so far.
pub open spec fn pieces_of(c: Seq<InlineView>, base: FontFace, notes: Seq<Seq<char>>) -> Seq<PieceView> {
    pieces_seq(c, base_style(base), notes).0
}

/// The footnote labels numbered after drawing `c`.
pub open spec fn notes_after(c: Seq<InlineView>, base: FontFace, notes: Seq<Seq<char>>) -> Seq<Seq<char>> {
    pieces_seq(c, base_style(base), notes).1
}

/// Every citation key in the content can have a four-byte year split off at
/// a character boundary (the label cannot be made otherwise).
pub open spec fn keys_ok_seq(c: Seq<InlineView>) -> bool
    decreases c, 0nat,
{
    if c.len() == 0 {
        true
    } else {
        keys_ok_seq(c.drop_last()) && keys_ok_one(c.last())
    }
}

pub open spec fn keys_ok_one(i: InlineView) -> bool
    decreases i, 1nat,
{
    match i {
        InlineView::Link { content, .. } => keys_ok_seq(content),
        InlineView::Emphasis(c) => keys_ok_seq(c),
        InlineView::Strong(c) => keys_ok_seq(c),
        InlineView::Strikethrough(c) => keys_ok_seq(c),
        InlineView::Citation(k) => year_split_on_char_boundary(k),
        _ => true,
    }
}

proof fn lemma_keys_ok_index(c: Seq<InlineView>)
    requires
        keys_ok_seq(c),
    ensures
        forall|k: int| 0 <= k < c.len() ==> keys_ok_one(#[trigger] c[k]),
    decreases c.len(),
{
    if c.len() > 0 {
        lemma_keys_ok_index(c.drop_last());
        assert forall|k: int| 0 <= k < c.len() implies keys_ok_one(#[trigger] c[k]) by {
            if k < c.len() - 1 {
                assert(c[k] == c.drop_last()[k]);
            }
        }
    }
}

/// Every piece drawn from a link's content belongs to a link: the link
/// itself, or the outermost link around it.
pub proof fn law_link_content_is_linked(c: Seq<InlineView>, st: StyleView, notes: Seq<Seq<char>>)
    requires
        st.link is Some,
    ensures
        forall|j: int|
            0 <= j < pieces_seq(c, st, notes).0.len() ==> #[trigger] pieces_seq(c, st, notes).0[j].link
                == st.link,
    decreases c, 0nat,
{
    if c.len() > 0 {
        let (p1, n1) = pieces_seq(c.drop_last(), st, notes);
        law_link_content_is_linked(c.drop_last(), st, notes);
        lemma_link_one(c.last(), st, n1);
        let (p2, n2) = pieces_one(c.last(), st, n1);
        assert forall|j: int| 0 <= j < (p1 + p2).len() implies #[trigger] (p1 + p2)[j].link == st.link by {
            if j < p1.len() {
                assert((p1 + p2)[j] == p1[j]);
            } else {
                assert((p1 + p2)[j] == p2[j - p1.len()]);
            }
        }
    }
}

proof fn lemma_link_one(i: InlineView, st: StyleView, notes: Seq<Seq<char>>)
    requires
        st.link is Some,
    ensures
        forall|j: int|
            0 <= j < pieces_one(i, st, notes).0.len() ==> #[trigger] pieces_one(i, st, notes).0[j].link
                == st.link,
    decreases i, 1nat,
{
    match i {
        InlineView::Emphasis(c) => law_link_content_is_linked(c, StyleView { font: emphasis_of(st.font), ..st }, notes),
        InlineView::Strong(c) => law_link_content_is_linked(c, StyleView { font: strong_of(st.font), ..st }, notes),
        InlineView::Strikethrough(c) => law_link_content_is_linked(c, StyleView { strike: true, ..st }, notes),
        InlineView::Link { href, content } => law_link_content_is_linked(
            content,
            StyleView { underline: true, link: Some(st.link->0), ..st },
            notes,
        ),
        _ => {},
    }
}

/// Content holding no link, at any depth.
pub open spec fn link_free_seq(c: Seq<InlineView>) -> bool
    decreases c, 0nat,
{
    if c.len() == 0 {
        true
    } else {
        link_free_seq(c.drop_last()) && link_free_one(c.last())
    }
}

pub open spec fn link_free_one(i: InlineView) -> bool
    decreases i, 1nat,
{
    match i {
        InlineView::Link { .. } => false,
        InlineView::Emphasis(c) => link_free_seq(c),
        InlineView::Strong(c) => link_free_seq(c),
        InlineView::Strikethrough(c) => link_free_seq(c),
        _ => true,
    }
}

proof fn lemma_no_underline_seq(c: Seq<InlineView>, st: StyleView, notes: Seq<Seq<char>>)
    requires
        !st.underline,
        link_free_seq(c),
    ensures
        forall|j: int|
            0 <= j < pieces_seq(c, st, notes).0.len() ==> !(#[trigger] pieces_seq(c, st, notes).0[j]).underline,
    decreases c, 0nat,
{
    if c.len() > 0 {
        let (p1, n1) = pieces_seq(c.drop_last(), st, notes);
        lemma_no_underline_seq(c.drop_last(), st, notes);
        lemma_no_underline_one(c.last(), st, n1);
        let (p2, n2) = pieces_one(c.last(), st, n1);
        assert forall|j: int| 0 <= j < (p1 + p2).len() implies !(#[trigger] (p1 + p2)[j]).underline by {
            if j < p1.len() {
                assert((p1 + p2)[j] == p1[j]);
            } else {
                assert((p1 + p2)[j] == p2[j - p1.len()]);
            }
        }
    }
}

proof fn lemma_no_underline_one(i: InlineView, st: StyleView, notes: Seq<Seq<char>>)
    requires
        !st.underline,
        link_free_one(i),
    ensures
        forall|j: int|
            0 <= j < pieces_one(i, st, notes).0.len() ==> !(#[trigger] pieces_one(i, st, notes).0[j]).underline,
    decreases i, 1nat,
{
    match i {
        InlineView::Emphasis(c) => lemma_no_underline_seq(c, StyleView { font: emphasis_of(st.font), ..st }, notes),
        InlineView::Strong(c) => lemma_no_underline_seq(c, StyleView { font: strong_of(st.font), ..st }, notes),
        InlineView::Strikethrough(c) => lemma_no_underline_seq(c, StyleView { strike: true, ..st }, notes),
        _ => {},
    }
}

/// Only links underline: content drawn from a face, with no link anywhere
/// in it, gives no underlined piece.
pub proof fn law_no_link_no_underline(c: Seq<InlineView>, base: FontFace, notes: Seq<Seq<char>>)
    requires
        link_free_seq(c),
    ensures
        forall|j: int| 0 <= j < pieces_of(c, base, notes).len() ==> !(#[trigger] pieces_of(c, base, notes)[j]).underline,
{
    lemma_no_underline_seq(c, base_style(base), notes);
}

/// Plain text drawn from a face is one piece showing that text in that face,
/// neither underlined nor struck and under no link.
pub proof fn law_plain_text_piece(t: Seq<char>, base: FontFace, notes: Seq<Seq<char>>)
    ensures
        pieces_of(seq![InlineView::Text(t)], base, notes) == seq![
            PieceView { kind: PieceKindView::Text(t), font: base, underline: false, strike: false, link: None },
        ],
        notes_after(seq![InlineView::Text(t)], base, notes) == notes,
{
    let c = seq![InlineView::Text(t)];
    let st = base_style(base);
    assert(c.drop_last() == Seq::<InlineView>::empty());
    assert(c.last() == InlineView::Text(t));
    assert(pieces_seq(Seq::<InlineView>::empty(), st, notes) == (Seq::<PieceView>::empty(), notes));
    assert(pieces_one(InlineView::Text(t), st, notes) == (seq![styled(PieceKindView::Text(t), st)], notes));
    assert(pieces_seq(c, st, notes) == (Seq::<PieceView>::empty() + seq![styled(PieceKindView::Text(t), st)], notes));
    assert(Seq::<PieceView>::empty() + seq![styled(PieceKindView::Text(t), base_style(base))] == seq![
        styled(PieceKindView::Text(t), base_style(base)),
    ]);
}

/// A link at top level puts every piece of its content under its own href,
/// underlined unless the piece has its own face (code, math, references,
/// citations).
pub proof fn law_link_pieces(href: Seq<char>, content: Seq<InlineView>, base: FontFace, notes: Seq<Seq<char>>)
    ensures
        forall|j: int|
            0 <= j < pieces_of(seq![InlineView::Link { href, content }], base, notes).len()
                ==> #[trigger] pieces_of(seq![InlineView::Link { href, content }], base, notes)[j].link
                == Some(href),
{
    let c = seq![InlineView::Link { href, content }];
    assert(c.drop_last() == Seq::<InlineView>::empty());
    let st = StyleView { underline: true, link: Some(href), ..base_style(base) };
    law_link_content_is_linked(content, st, notes);
    assert(pieces_seq(Seq::<InlineView>::empty(), base_style(base), notes) == (Seq::<PieceView>::empty(), notes));
    assert(pieces_one(InlineView::Link { href, content }, base_style(base), notes) == pieces_seq(content, st, notes));
    assert(Seq::<PieceView>::empty() + pieces_seq(content, st, notes).0 == pieces_seq(content, st, notes).0);
    assert(pieces_of(c, base, notes) == pieces_seq(content, st, notes).0);
}

// ---------------------------------------------------------------------------
// Building the pieces
// ---------------------------------------------------------------------------

struct PieceStyle {
    font: FontFace,
    underline: bool,
    strike: bool,
    link: Option<String>,
}

spec fn style_view(s: PieceStyle) -> StyleView {
    StyleView { font: s.font, underline: s.underline, strike: s.strike, link: opt_str_view(s.link) }
}

fn copy_link(link: &Option<String>) -> (r: Option<String>)
    ensures
        opt_str_view(r) == opt_str_view(*link),
{
    match link {
        Some(l) => Some(l.clone()),
        None => None,
    }
}

fn push_piece(out: &mut Vec<Piece>, p: Piece)
    ensures
        pieces_view(final(out)@) == pieces_view(old(out)@).push(piece_view(p)),
{
    let ghost before = out@;
    out.push(p);
    assert(pieces_view(out@) == pieces_view(before).push(piece_view(p)));
}

fn citation_piece_text(key: &str) -> (r: String)
    requires
        year_split_on_char_boundary(key@),
    ensures
        r@ == citation_text(key@),
{
    let label = citation_label(key);
    let mut r = String::new();
    push_char(&mut r, '(');
    r.append(label.as_str());
    push_char(&mut r, ')');
    r
}

fn pieces_of_vec(
    v: &Vec<Inline>,
    st: &PieceStyle,
    notes: &mut FootnoteNumbers,
    out: &mut Vec<Piece>,
)
    requires
        keys_ok_seq(inlines_view(v@)),
    ensures
        pieces_view(final(out)@) == pieces_view(old(out)@) + pieces_seq(
            inlines_view(v@),
            style_view(*st),
            old(notes)@,
        ).0,
        final(notes)@ == pieces_seq(inlines_view(v@), style_view(*st), old(notes)@).1,
    decreases v@, 0nat,
{
    let ghost start = pieces_view(out@);
    let ghost notes0 = notes@;
    let ghost sv = style_view(*st);
    proof {
        lemma_inlines_view_index(v@);
        lemma_keys_ok_index(inlines_view(v@));
        assert(v@.take(0) == Seq::<Inline>::empty());
        assert(inlines_view(Seq::<Inline>::empty()) == Seq::<InlineView>::empty());
    }
    let mut i: usize = 0;
    while i < v.len()
        invariant
            i <= v.len(),
            sv == style_view(*st),
            inlines_view(v@).len() == v@.len(),
            forall|k: int| 0 <= k < v@.len() ==> #[trigger] inlines_view(v@)[k] == inline_view(v@[k]),
            forall|k: int| 0 <= k < v@.len() ==> keys_ok_one(#[trigger] inlines_view(v@)[k]),
            pieces_view(out@) == start + pieces_seq(inlines_view(v@.take(i as int)), sv, notes0).0,
            notes@ == pieces_seq(inlines_view(v@.take(i as int)), sv, notes0).1,
        decreases v.len() - i,
    {
        let ghost pre = inlines_view(v@.take(i as int));
        let ghost mid_notes = notes@;
        let ghost mid_out = pieces_view(out@);
        proof {
            assert(v@.take(i + 1).drop_last() == v@.take(i as int));
            assert(v@.take(i + 1).last() == v@[i as int]);
            assert(keys_ok_one(inlines_view(v@)[i as int]));
        }
        pieces_of_one(&v[i], st, notes, out);
        proof {
            let (p1, n1) = pieces_seq(pre, sv, notes0);
            let (p2, n2) = pieces_one(inline_view(v@[i as int]), sv, n1);
            let c = inlines_view(v@.take(i + 1));
            assert(c == pre.push(inline_view(v@[i as int])));
            assert(c.drop_last() == pre);
            assert(c.last() == inline_view(v@[i as int]));
            assert(mid_notes == n1);
            assert(pieces_seq(c, sv, notes0) == (p1 + p2, n2));
            assert(pieces_view(out@) == mid_out + p2);
            assert(mid_out == start + p1);
            assert(pieces_view(out@) == start + (p1 + p2));
        }
        i = i + 1;
    }
    assert(v@.take(v.len() as int) == v@);
}

fn pieces_of_one(i: &Inline, st: &PieceStyle, notes: &mut FootnoteNumbers, out: &mut Vec<Piece>)
    requires
        keys_ok_one(inline_view(*i)),
    ensures
        pieces_view(final(out)@) == pieces_view(old(out)@) + pieces_one(
            inline_view(*i),
            style_view(*st),
            old(notes)@,
        ).0,
        final(notes)@ == pieces_one(inline_view(*i), style_view(*st), old(notes)@).1,
    decreases *i, 1nat,
{
    let ghost sv = style_view(*st);
    match i {
        Inline::Text(t) => {
            push_piece(
                out,
                Piece {
                    kind: PieceKind::Text(t.clone()),
                    font: st.font,
                    underline: st.underline,
                    strike: st.strike,
                    link: copy_link(&st.link),
                },
            );
        },
        Inline::Code(t) => {
            push_piece(
                out,
                Piece {
                    kind: PieceKind::Code(t.clone()),
                    font: FontFace::Mono,
                    underline: false,
                    strike: false,
                    link: copy_link(&st.link),
                },
            );
        },
        Inline::Math(t) => {
            push_piece(
                out,
                Piece {
                    kind: PieceKind::Math(t.clone()),
                    font: FontFace::Serif,
                    underline: false,
                    strike: false,
                    link: copy_link(&st.link),
                },
            );
        },
        Inline::Emphasis(c) => {
            let inner = PieceStyle {
                font: st.font.emphasized(),
                underline: st.underline,
                strike: st.strike,
                link: copy_link(&st.link),
            };
            pieces_of_vec(c, &inner, notes, out);
        },
        Inline::Strong(c) => {
            let inner = PieceStyle {
                font: st.font.strengthened(),
                underline: st.underline,
                strike: st.strike,
                link: copy_link(&st.link),
            };
            pieces_of_vec(c, &inner, notes, out);
        },
        Inline::Strikethrough(c) => {
            let inner = PieceStyle { font: st.font, underline: st.underline, strike: true, link: copy_link(&st.link) };
            pieces_of_vec(c, &inner, notes, out);
        },
        Inline::Link { href, content } => {
            let link = match &st.link {
                Some(l) => l.clone(),
                None => href.clone(),
            };
            let inner = PieceStyle { font: st.font, underline: true, strike: st.strike, link: Some(link) };
            pieces_of_vec(content, &inner, notes, out);
        },
        Inline::FootnoteRef(label) => {
            let n = notes.number(label.as_str());
            push_piece(
                out,
                Piece {
                    kind: PieceKind::FootnoteRef(n),
                    font: FontFace::SansBold,
                    underline: false,
                    strike: false,
                    link: copy_link(&st.link),
                },
            );
        },
        Inline::Citation(key) => {
            let text = citation_piece_text(key.as_str());
            push_piece(
                out,
                Piece {
                    kind: PieceKind::Citation(text),
                    font: FontFace::SerifItalic,
                    underline: false,
                    strike: false,
                    link: copy_link(&st.link),
                },
            );
        },
    }
}

/// The pieces that inline content is drawn as, starting from face `base`:
/// footnote references get their numbers from `notes` (a first reference
/// numbers its label), citations their readable labels.
pub fn inline_pieces(inlines: &Vec<Inline>, base: FontFace, notes: &mut FootnoteNumbers) -> (r: Vec<Piece>)
    requires
        keys_ok_seq(inlines_view(inlines@)),
    ensures
        pieces_view(r@) == pieces_of(inlines_view(inlines@), base, old(notes)@),
        final(notes)@ == notes_after(inlines_view(inlines@), base, old(notes)@),
{
    let st = PieceStyle { font: base, underline: false, strike: false, link: None };
    let mut out: Vec<Piece> = Vec::new();
    assert(pieces_view(out@) == Seq::<PieceView>::empty());
    pieces_of_vec(inlines, &st, notes, &mut out);
    assert(Seq::<PieceView>::empty() + pieces_of(inlines_view(inlines@), base, old(notes)@) == pieces_of(
        inlines_view(inlines@),
        base,
        old(notes)@,
    ));
    out
}

} // verus!
