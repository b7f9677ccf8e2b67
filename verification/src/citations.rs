//! Citation markers: `[@key]` inside running text becomes a citation inline.
//! Adjacent text runs are read as one text before the markers are found, so a
//! marker split over several text events is still recognised.

use vstd::prelude::*;
use crate::ir::{Inline, InlineView, inline_view, inlines_view, lemma_inlines_view_index, lemma_inlines_view_push};
use crate::text::{chars_of, is_space_char, is_whitespace, string_from_range};

verus! {

/// A character that may stand in a citation key: not whitespace and not a
/// bracket.
pub open spec fn key_char(c: char) -> bool {
    !is_space_char(c) && c != ']' && c != '['
}

/// The longest run of key characters at the start of `s`.
pub open spec fn key_run(s: Seq<char>) -> Seq<char>
    decreases s.len(),
{
    if s.len() > 0 && key_char(s[0]) {
        seq![s[0]] + key_run(s.drop_first())
    } else {
        Seq::empty()
    }
}

/// The key of the citation marker `[@key]` that starts `t`, if one does: a
/// non-empty run of key characters between `[@` and `]`.
pub open spec fn cite_key_at(t: Seq<char>) -> Option<Seq<char>> {
    if t.len() >= 2 && t[0] == '[' && t[1] == '@' {
        let k = key_run(t.skip(2));
        if k.len() > 0 && t.len() >= k.len() + 3 && t[k.len() + 2int] == ']' {
            Some(k)
        } else {
            None
        }
    } else {
        None
    }
}

/// A pending text run as inlines: nothing when it is empty.
pub open spec fn flush_text(acc: Seq<char>) -> Seq<InlineView> {
    if acc.len() > 0 {
        seq![InlineView::Text(acc)]
    } else {
        Seq::empty()
    }
}

/// The inlines of text `t` read from the left, with `acc` the text already
/// read and not yet emitted: each citation marker becomes a citation, the
/// characters between markers stay text.
pub open spec fn text_pieces(t: Seq<char>, acc: Seq<char>) -> Seq<InlineView>
    decreases t.len(),
{
    if t.len() == 0 {
        flush_text(acc)
    } else {
        match cite_key_at(t) {
            Some(k) => flush_text(acc) + seq![InlineView::Citation(k)] + text_pieces(
                t.skip(k.len() + 3int),
                Seq::empty(),
            ),
            None => text_pieces(t.drop_first(), acc.push(t[0])),
        }
    }
}

/// Some inline is a citation.
pub open spec fn has_citation(s: Seq<InlineView>) -> bool {
    exists|i: int| 0 <= i < s.len() && #[trigger] s[i] is Citation
}

/// A finished run of text inlines whose joined text is `acc`: when the text
/// holds a citation marker, its pieces; otherwise the run as it was.
pub open spec fn flush_run(run: Seq<InlineView>, acc: Seq<char>) -> Seq<InlineView> {
    if has_citation(text_pieces(acc, Seq::empty())) {
        text_pieces(acc, Seq::empty())
    } else {
        run
    }
}

/// The inlines of `c`, after the text inlines `run` (joined text `acc`)
/// already gathered: each maximal run of text inlines is read as one text,
/// and where that text holds citation markers the run is replaced by its
/// pieces; every other inline stays as it is, in place.
pub open spec fn cites_go(c: Seq<InlineView>, run: Seq<InlineView>, acc: Seq<char>) -> Seq<InlineView>
    decreases c.len(),
{
    if c.len() == 0 {
        flush_run(run, acc)
    } else {
        match c[0] {
            InlineView::Text(t) => cites_go(c.drop_first(), run.push(c[0]), acc + t),
            other => flush_run(run, acc) + seq![other] + cites_go(c.drop_first(), Seq::empty(), Seq::empty()),
        }
    }
}

/// Inline content with its citation markers recognised.
pub open spec fn cites(c: Seq<InlineView>) -> Seq<InlineView> {
    cites_go(c, Seq::empty(), Seq::empty())
}

/// A marker `[@key]` standing alone becomes exactly one citation of `key`.
pub proof fn law_marker_is_citation(key: Seq<char>)
    requires
        key.len() > 0,
        forall|i: int| 0 <= i < key.len() ==> key_char(#[trigger] key[i]),
    ensures
        text_pieces(seq!['[', '@'] + key + seq![']'], Seq::empty()) == seq![InlineView::Citation(key)],
{
    let t = seq!['[', '@'] + key + seq![']'];
    let s = t.skip(2);
    assert(s == key + seq![']']);
    assert(s.take(key.len() as int) == key);
    lemma_key_run(s, key.len() as int);
    assert(cite_key_at(t) == Some(key));
    assert(t.skip(key.len() + 3int) == Seq::<char>::empty());
    assert(flush_text(Seq::<char>::empty()) == Seq::<InlineView>::empty());
    assert(text_pieces(Seq::<char>::empty(), Seq::<char>::empty()) == Seq::<InlineView>::empty());
}

/// Text without an `[@` opening stays one text run.
pub proof fn law_plain_text_stays(t: Seq<char>)
    requires
        t.len() > 0,
        forall|i: int| 0 <= i < t.len() ==> #[trigger] t[i] != '[',
    ensures
        text_pieces(t, Seq::empty()) == seq![InlineView::Text(t)],
{
    lemma_no_marker(t, Seq::empty());
    assert(Seq::<char>::empty() + t == t);
}

/// The joined text of a run of text inlines (other inlines add nothing).
pub open spec fn run_text(c: Seq<InlineView>) -> Seq<char>
    decreases c.len(),
{
    if c.len() == 0 {
        Seq::empty()
    } else {
        match c[0] {
            InlineView::Text(t) => t + run_text(c.drop_first()),
            _ => run_text(c.drop_first()),
        }
    }
}

/// Text inlines none of which holds `[`.
pub open spec fn plain_texts(c: Seq<InlineView>) -> bool {
    forall|i: int|
        0 <= i < c.len() ==> (#[trigger] c[i] matches InlineView::Text(t) && forall|j: int|
            0 <= j < t.len() ==> t[j] != '[')
}

proof fn lemma_plain_run(c: Seq<InlineView>, run: Seq<InlineView>, acc: Seq<char>)
    requires
        plain_texts(c),
        forall|j: int| 0 <= j < acc.len() ==> #[trigger] acc[j] != '[',
    ensures
        cites_go(c, run, acc) == flush_run(run + c, acc + run_text(c)),
        forall|j: int| 0 <= j < run_text(c).len() ==> #[trigger] run_text(c)[j] != '[',
    decreases c.len(),
{
    if c.len() == 0 {
        assert(run + c == run);
        assert(acc + run_text(c) == acc);
    } else {
        let t = c[0]->Text_0;
        assert(c[0] matches InlineView::Text(_));
        let d = c.drop_first();
        assert(plain_texts(d)) by {
            assert forall|i: int| 0 <= i < d.len() implies (#[trigger] d[i] matches InlineView::Text(u) && forall|j: int|
                0 <= j < u.len() ==> u[j] != '[') by {
                assert(d[i] == c[i + 1]);
            }
        }
        let acc2 = acc + t;
        assert forall|j: int| 0 <= j < acc2.len() implies #[trigger] acc2[j] != '[' by {
            if j >= acc.len() {
                assert(acc2[j] == t[j - acc.len()]);
            }
        }
        lemma_plain_run(d, run.push(c[0]), acc2);
        assert(run.push(c[0]) + d == run + c);
        assert(acc2 + run_text(d) == acc + run_text(c));
        let rt = run_text(c);
        assert(rt == t + run_text(d));
        assert forall|j: int| 0 <= j < rt.len() implies #[trigger] rt[j] != '[' by {
            if j < t.len() {
                assert(rt[j] == t[j]);
            } else {
                assert(rt[j] == run_text(d)[j - t.len()]);
            }
        }
    }
}

/// Text runs without citation markers stay as they were: content made of
/// text inlines none of which holds `[` comes back unchanged.
pub proof fn law_runs_without_markers_stay(c: Seq<InlineView>)
    requires
        plain_texts(c),
    ensures
        cites(c) == c,
{
    lemma_plain_run(c, Seq::empty(), Seq::empty());
    let all = Seq::<char>::empty() + run_text(c);
    assert(all == run_text(c));
    assert(Seq::<InlineView>::empty() + c == c);
    lemma_no_marker(all, Seq::empty());
    assert(Seq::<char>::empty() + all == all);
    let p = text_pieces(all, Seq::empty());
    assert(!has_citation(p)) by {
        if has_citation(p) {
            let i = choose|i: int| 0 <= i < p.len() && #[trigger] p[i] is Citation;
            assert(p == flush_text(all));
        }
    }
}

proof fn lemma_no_marker(t: Seq<char>, acc: Seq<char>)
    requires
        forall|i: int| 0 <= i < t.len() ==> #[trigger] t[i] != '[',
    ensures
        text_pieces(t, acc) == flush_text(acc + t),
    decreases t.len(),
{
    if t.len() == 0 {
        assert(acc + t == acc);
    } else {
        assert(t[0] != '[');
        assert forall|i: int| 0 <= i < t.drop_first().len() implies #[trigger] t.drop_first()[i] != '[' by {
            assert(t.drop_first()[i] == t[i + 1]);
        }
        lemma_no_marker(t.drop_first(), acc.push(t[0]));
        assert(acc.push(t[0]) + t.drop_first() == acc + t);
    }
}

proof fn lemma_key_run(s: Seq<char>, m: int)
    requires
        0 <= m <= s.len(),
        forall|i: int| 0 <= i < m ==> key_char(#[trigger] s[i]),
        m == s.len() || !key_char(s[m]),
    ensures
        key_run(s) == s.take(m),
    decreases m,
{
    if m > 0 {
        let d = s.drop_first();
        assert forall|i: int| 0 <= i < m - 1 implies key_char(#[trigger] d[i]) by {
            assert(d[i] == s[i + 1]);
        }
        if m < s.len() {
            assert(d[m - 1] == s[m]);
        }
        lemma_key_run(d, m - 1);
        assert(seq![s[0]] + d.take(m - 1) == s.take(m));
    } else {
        assert(s.take(0) == Seq::<char>::empty());
    }
}

fn is_key_char(c: char) -> (r: bool)
    ensures
        r == key_char(c),
{
    !is_whitespace(c) && c != ']' && c != '['
}

/// Where the citation marker that starts at `i` ends: the position of its `]`.
fn citation_end(cs: &Vec<char>, i: usize) -> (r: Option<usize>)
    requires
        i < cs.len(),
    ensures
        match r {
            Some(j) => i + 2 < j < cs.len() && cite_key_at(cs@.skip(i as int)) == Some(
                cs@.subrange(i + 2, j as int),
            ),
            None => cite_key_at(cs@.skip(i as int)) is None,
        },
{
    let n = cs.len();
    let ghost t = cs@.skip(i as int);
    if i + 1 >= n || cs[i] != '[' || cs[i + 1] != '@' {
        return None;
    }
    let mut j: usize = i + 2;
    while j < n && is_key_char(cs[j])
        invariant
            n == cs.len(),
            i + 2 <= j <= n,
            forall|k: int| i + 2 <= k < j ==> key_char(#[trigger] cs@[k]),
        decreases n - j,
    {
        j = j + 1;
    }
    proof {
        let s = t.skip(2);
        let m = j - i - 2;
        assert forall|k: int| 0 <= k < m implies key_char(#[trigger] s[k]) by {
            assert(s[k] == cs@[i + 2 + k]);
        }
        if m < s.len() {
            assert(s[m] == cs@[j as int]);
        }
        lemma_key_run(s, m);
        assert(s.take(m) == cs@.subrange(i + 2, j as int));
        if j < n {
            assert(t[m + 2] == cs@[j as int]);
        }
    }
    if j > i + 2 && j < n && cs[j] == ']' {
        Some(j)
    } else {
        None
    }
}

/// Appends the inline form of a pending text run (nothing if it is empty).
fn flush_into(out: &mut Vec<Inline>, acc: &Vec<char>)
    ensures
        inlines_view(final(out)@) == inlines_view(old(out)@) + flush_text(acc@),
{
    if acc.len() > 0 {
        let text = string_from_range(acc, 0, acc.len());
        assert(acc@.subrange(0, acc@.len() as int) == acc@);
        let ghost before = out@;
        let item = Inline::Text(text);
        proof {
            lemma_inlines_view_push(before, item);
        }
        out.push(item);
    }
}

/// The inlines of the text `cs`: citation markers become citations, the text
/// between them stays text.
fn text_citations(cs: &Vec<char>) -> (r: Vec<Inline>)
    ensures
        inlines_view(r@) == text_pieces(cs@, Seq::empty()),
{
    let n = cs.len();
    let mut out: Vec<Inline> = Vec::new();
    let mut acc: Vec<char> = Vec::new();
    let mut i: usize = 0;
    assert(cs@.skip(0) == cs@);
    assert(inlines_view(out@) == Seq::<InlineView>::empty());
    while i < n
        invariant
            n == cs.len(),
            i <= n,
            inlines_view(out@) + text_pieces(cs@.skip(i as int), acc@) == text_pieces(
                cs@,
                Seq::empty(),
            ),
        decreases n - i,
    {
        let ghost s = cs@.skip(i as int);
        let ghost before = inlines_view(out@);
        match citation_end(cs, i) {
            Some(j) => {
                let ghost k = cs@.subrange(i + 2, j as int);
                flush_into(&mut out, &acc);
                let key = string_from_range(cs, i + 2, j);
                let ghost mid = out@;
                let item = Inline::Citation(key);
                proof {
                    lemma_inlines_view_push(mid, item);
                }
                out.push(item);
                proof {
                    assert(s.skip(k.len() + 3int) == cs@.skip(j + 1));
                    assert(text_pieces(s, acc@) == flush_text(acc@) + seq![InlineView::Citation(k)]
                        + text_pieces(cs@.skip(j + 1), Seq::empty()));
                    assert(inlines_view(out@) == before + flush_text(acc@) + seq![InlineView::Citation(k)]);
                }
                acc = Vec::new();
                i = j + 1;
            },
            None => {
                proof {
                    assert(s.drop_first() == cs@.skip(i + 1));
                    assert(s[0] == cs@[i as int]);
                }
                acc.push(cs[i]);
                i = i + 1;
            },
        }
    }
    proof {
        assert(cs@.skip(n as int) == Seq::<char>::empty());
    }
    flush_into(&mut out, &acc);
    out
}

proof fn lemma_inlines_view_concat(a: Seq<Inline>, b: Seq<Inline>)
    ensures
        inlines_view(a + b) == inlines_view(a) + inlines_view(b),
    decreases b.len(),
{
    if b.len() == 0 {
        assert(a + b == a);
        assert(inlines_view(b) == Seq::<InlineView>::empty());
    } else {
        lemma_inlines_view_concat(a, b.drop_last());
        assert(a + b == (a + b.drop_last()).push(b.last()));
        lemma_inlines_view_push(a + b.drop_last(), b.last());
        lemma_inlines_view_push(b.drop_last(), b.last());
        assert(b.drop_last().push(b.last()) == b);
    }
}

/// Appends the characters of `t` to `acc`.
fn append_chars(acc: &mut Vec<char>, t: &str)
    ensures
        final(acc)@ == old(acc)@ + t@,
{
    let mut cs = chars_of(t);
    acc.append(&mut cs);
}

/// Whether some inline of `v` is a citation.
fn any_citation(v: &Vec<Inline>) -> (r: bool)
    ensures
        r == has_citation(inlines_view(v@)),
{
    proof {
        lemma_inlines_view_index(v@);
    }
    let ghost iv = inlines_view(v@);
    let mut i: usize = 0;
    while i < v.len()
        invariant
            i <= v.len(),
            iv == inlines_view(v@),
            iv.len() == v@.len(),
            forall|k: int| 0 <= k < v@.len() ==> #[trigger] iv[k] == inline_view(v@[k]),
            forall|k: int| 0 <= k < i ==> !(#[trigger] iv[k] is Citation),
        decreases v.len() - i,
    {
        assert(iv[i as int] == inline_view(v@[i as int]));
        if matches!(v[i], Inline::Citation(_)) {
            assert(iv[i as int] is Citation);
            return true;
        }
        i = i + 1;
    }
    false
}

/// Appends a finished text run: its citation pieces when its text holds a
/// marker, else the run itself.
fn flush_into_out(out: &mut Vec<Inline>, run: Vec<Inline>, acc: &Vec<char>)
    ensures
        inlines_view(final(out)@) == inlines_view(old(out)@) + flush_run(inlines_view(run@), acc@),
{
    let mut pieces = text_citations(acc);
    let ghost before = out@;
    if any_citation(&pieces) {
        let ghost pv = pieces@;
        out.append(&mut pieces);
        proof {
            lemma_inlines_view_concat(before, pv);
        }
    } else {
        let mut run = run;
        let ghost rv = run@;
        out.append(&mut run);
        proof {
            lemma_inlines_view_concat(before, rv);
        }
    }
}

/// Inline content with its citation markers recognised: each run of text
/// inlines is read as one text, and a run whose text holds `[@key]` markers
/// is replaced by its pieces; other runs and inlines stay as they are.
pub fn with_citations(v: Vec<Inline>) -> (r: Vec<Inline>)
    ensures
        inlines_view(r@) == cites(inlines_view(v@)),
{
    let ghost ivs = inlines_view(v@);
    proof {
        lemma_inlines_view_index(v@);
        assert(ivs.skip(0) == ivs);
    }
    let mut out: Vec<Inline> = Vec::new();
    let mut run: Vec<Inline> = Vec::new();
    let mut acc: Vec<char> = Vec::new();
    assert(inlines_view(out@) == Seq::<InlineView>::empty());
    assert(inlines_view(run@) == Seq::<InlineView>::empty());
    for x in it: v
        invariant
            it.seq() == v@,
            ivs == inlines_view(v@),
            ivs.len() == v@.len(),
            forall|k: int| 0 <= k < v@.len() ==> #[trigger] ivs[k] == inline_view(v@[k]),
            inlines_view(out@) + cites_go(ivs.skip(it.index() as int), inlines_view(run@), acc@) == cites(ivs),
    {
        let ghost idx = it.index() as int;
        let ghost s = ivs.skip(idx);
        proof {
            assert(x == v@[idx]);
            assert(s[0] == ivs[idx]);
            assert(s.drop_first() == ivs.skip(idx + 1));
        }
        let is_text = match &x {
            Inline::Text(t) => {
                append_chars(&mut acc, t.as_str());
                true
            },
            _ => false,
        };
        if is_text {
            let ghost rb = run@;
            proof {
                lemma_inlines_view_push(rb, x);
            }
            run.push(x);
        } else {
            let ghost ov = inline_view(x);
            let ghost before = out@;
            let ghost rv = inlines_view(run@);
            let done = run;
            flush_into_out(&mut out, done, &acc);
            let ghost mid = out@;
            proof {
                lemma_inlines_view_push(mid, x);
            }
            out.push(x);
            proof {
                assert(cites_go(s, rv, acc@) == flush_run(rv, acc@) + seq![ov] + cites_go(
                    ivs.skip(idx + 1),
                    Seq::empty(),
                    Seq::empty(),
                ));
                assert(inlines_view(out@) == inlines_view(before) + flush_run(rv, acc@) + seq![ov]);
            }
            run = Vec::new();
            acc = Vec::new();
            assert(inlines_view(run@) == Seq::<InlineView>::empty());
        }
    }
    proof {
        assert(ivs.skip(ivs.len() as int) == Seq::<InlineView>::empty());
    }
    flush_into_out(&mut out, run, &acc);
    out
}

} // verus!
