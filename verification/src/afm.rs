//! Adobe font metrics files: the fields the renderer measures text with,
//! read line by line. Numbers that are not integers are handed on as text.

use vstd::prelude::*;
use crate::ir::opt_string_view;
use crate::text::{
    chars_of, find_char_from, is_ascii_digit, lemma_find_char_first_at, lemma_find_char_none,
    lines_in, lines_of, string_from_range, trim_bounds, trim_seq,
};

verus! {

/// What follows `p` in `s`, when `s` starts with `p`.
pub open spec fn strip_prefix_seq(s: Seq<char>, p: Seq<char>) -> Option<Seq<char>> {
    if p.len() <= s.len() && s.take(p.len() as int) == p {
        Some(s.skip(p.len() as int))
    } else {
        None
    }
}

/// The pieces of `s` between occurrences of `c`, as `str::split` yields them
/// (a final empty piece included).
pub open spec fn split_on(s: Seq<char>, c: char) -> Seq<Seq<char>>
    decreases s.len(),
{
    match find_char_from(s, c, 0) {
        Some(p) => if 0 <= p < s.len() {
            seq![s.take(p)] + split_on(s.skip(p + 1), c)
        } else {
            seq![s]
        },
        None => seq![s],
    }
}

/// The value of a string of decimal digits.
pub open spec fn digits_value(d: Seq<char>) -> int
    decreases d.len(),
{
    if d.len() == 0 {
        0
    } else {
        digits_value(d.drop_last()) * 10 + ((d.last() as u32) as int - 48)
    }
}

pub open spec fn all_digits(d: Seq<char>) -> bool {
    forall|i: int| 0 <= i < d.len() ==> is_ascii_digit(#[trigger] d[i])
}

/// `s` read as an `i32` the way `str::parse::<i32>` reads it: an optional
/// sign, then one or more ASCII digits, with a value in range.
pub open spec fn parse_i32_of(s: Seq<char>) -> Option<i32> {
    let neg = s.len() > 0 && s[0] == '-';
    let d = if s.len() > 0 && (s[0] == '-' || s[0] == '+') {
        s.drop_first()
    } else {
        s
    };
    if d.len() > 0 && all_digits(d) {
        let v = if neg {
            -digits_value(d)
        } else {
            digits_value(d)
        };
        if i32::MIN <= v <= i32::MAX {
            Some(v as i32)
        } else {
            None
        }
    } else {
        None
    }
}

/// The character code of a metrics line: the number of its last `C` field.
pub open spec fn afm_code_of(parts: Seq<Seq<char>>) -> Option<i32>
    decreases parts.len(),
{
    if parts.len() == 0 {
        None
    } else {
        match strip_prefix_seq(trim_seq(parts.last()), "C "@) {
            Some(v) => parse_i32_of(trim_seq(v)),
            None => afm_code_of(parts.drop_last()),
        }
    }
}

/// The width text of a metrics line: the value of its last `WX` field.
pub open spec fn afm_width_of(parts: Seq<Seq<char>>) -> Option<Seq<char>>
    decreases parts.len(),
{
    if parts.len() == 0 {
        None
    } else {
        let t = trim_seq(parts.last());
        if strip_prefix_seq(t, "C "@) is Some {
            afm_width_of(parts.drop_last())
        } else {
            match strip_prefix_seq(t, "WX "@) {
                Some(v) => Some(trim_seq(v)),
                None => afm_width_of(parts.drop_last()),
            }
        }
    }
}

/// The fields of a metrics file read so far.
pub struct AfmFieldsView {
    pub ascenders: Seq<Seq<char>>,
    pub descenders: Seq<Seq<char>>,
    pub widths: Seq<(char, Seq<char>)>,
}

/// One line of a metrics file: an `Ascender` or `Descender` value, or a
/// character metric (`C code ; WX width ; ...`) for a code from 0 to 255.
pub open spec fn afm_step(f: AfmFieldsView, line: Seq<char>) -> AfmFieldsView {
    match strip_prefix_seq(line, "Ascender "@) {
        Some(v) => AfmFieldsView { ascenders: f.ascenders.push(trim_seq(v)), ..f },
        None => match strip_prefix_seq(line, "Descender "@) {
            Some(v) => AfmFieldsView { descenders: f.descenders.push(trim_seq(v)), ..f },
            None => if strip_prefix_seq(line, "C "@) is Some {
                let parts = split_on(line, ';');
                match (afm_code_of(parts), afm_width_of(parts)) {
                    (Some(code), Some(w)) => if 0 <= code <= 255 {
                        AfmFieldsView { widths: f.widths.push((((code as u8) as char), w)), ..f }
                    } else {
                        f
                    },
                    _ => f,
                }
            } else {
                f
            },
        },
    }
}

/// The fields of the metrics file whose lines are `lines`.
pub open spec fn afm_fields_of(lines: Seq<Seq<char>>) -> AfmFieldsView
    decreases lines.len(),
{
    if lines.len() == 0 {
        AfmFieldsView { ascenders: Seq::empty(), descenders: Seq::empty(), widths: Seq::empty() }
    } else {
        afm_step(afm_fields_of(lines.drop_last()), lines.last())
    }
}

/// `cs[start..end]` starts with `lit`.
fn starts_with_lit(cs: &Vec<char>, start: usize, end: usize, lit: &str) -> (r: bool)
    requires
        start <= end <= cs.len(),
    ensures
        r == strip_prefix_seq(cs@.subrange(start as int, end as int), lit@) is Some,
{
    let p = chars_of(lit);
    let ghost s = cs@.subrange(start as int, end as int);
    if p.len() > end - start {
        return false;
    }
    let mut k: usize = 0;
    while k < p.len()
        invariant
            p@ == lit@,
            start <= end <= cs.len(),
            p.len() <= end - start,
            k <= p.len(),
            s == cs@.subrange(start as int, end as int),
            s.take(k as int) == p@.take(k as int),
        decreases p.len() - k,
    {
        if cs[start + k] != p[k] {
            assert(s.take(p.len() as int)[k as int] != p@[k as int]);
            return false;
        }
        assert(s.take(k + 1) == s.take(k as int).push(s[k as int]));
        assert(p@.take(k + 1) == p@.take(k as int).push(p@[k as int]));
        k = k + 1;
    }
    assert(p@.take(p.len() as int) == p@);
    true
}

/// The bounds of the pieces of `cs[start..end]` between occurrences of `c`.
fn split_bounds(cs: &Vec<char>, start: usize, end: usize, c: char) -> (r: Vec<(usize, usize)>)
    requires
        start <= end <= cs.len(),
    ensures
        forall|k: int| 0 <= k < r@.len() ==> r@[k].0 <= #[trigger] r@[k].1 <= cs.len(),
        r@.map_values(|b: (usize, usize)| cs@.subrange(b.0 as int, b.1 as int)) == split_on(
            cs@.subrange(start as int, end as int),
            c,
        ),
{
    let ghost s = cs@.subrange(start as int, end as int);
    let mut r: Vec<(usize, usize)> = Vec::new();
    let mut from: usize = start;
    let mut i: usize = start;
    assert(s.skip(0) == s);
    assert(r@.map_values(|b: (usize, usize)| cs@.subrange(b.0 as int, b.1 as int)) + split_on(s, c)
        == split_on(s, c));
    while i < end
        invariant
            start <= from <= i <= end <= cs.len(),
            s == cs@.subrange(start as int, end as int),
            forall|m: int| from <= m < i ==> cs@[m] != c,
            forall|k: int| 0 <= k < r@.len() ==> r@[k].0 <= #[trigger] r@[k].1 <= cs.len(),
            split_on(s, c) == r@.map_values(|b: (usize, usize)| cs@.subrange(b.0 as int, b.1 as int))
                + split_on(s.skip(from - start), c),
        decreases end - i,
    {
        if cs[i] == c {
            let ghost t = s.skip(from - start);
            let ghost before = r@.map_values(|b: (usize, usize)| cs@.subrange(b.0 as int, b.1 as int));
            proof {
                assert forall|m: int| 0 <= m < i - from implies t[m] != c by {
                    assert(t[m] == cs@[from + m]);
                }
                assert(t[i - from] == c);
                lemma_find_char_first_at(t, c, 0, i - from);
                assert(t.take(i - from) == cs@.subrange(from as int, i as int));
                assert(t.skip(i - from + 1) == s.skip(i + 1 - start));
            }
            r.push((from, i));
            assert(r@.map_values(|b: (usize, usize)| cs@.subrange(b.0 as int, b.1 as int)) == before.push(
                cs@.subrange(from as int, i as int),
            ));
            assert(before.push(cs@.subrange(from as int, i as int)) + split_on(s.skip(i + 1 - start), c)
                == before + (seq![cs@.subrange(from as int, i as int)] + split_on(
                s.skip(i + 1 - start),
                c,
            )));
            from = i + 1;
        }
        i = i + 1;
    }
    let ghost t = s.skip(from - start);
    let ghost before = r@.map_values(|b: (usize, usize)| cs@.subrange(b.0 as int, b.1 as int));
    proof {
        assert forall|m: int| 0 <= m < t.len() implies t[m] != c by {
            assert(t[m] == cs@[from + m]);
        }
        lemma_find_char_none(t, c, 0);
        assert(t == cs@.subrange(from as int, end as int));
    }
    r.push((from, end));
    assert(r@.map_values(|b: (usize, usize)| cs@.subrange(b.0 as int, b.1 as int)) == before.push(t));
    assert(before + seq![t] == before.push(t));
    r
}

proof fn lemma_digits_value_prefix(d: Seq<char>, j: int)
    requires
        all_digits(d),
        0 <= j <= d.len(),
    ensures
        0 <= digits_value(d.take(j)) <= digits_value(d),
    decreases d.len(),
{
    if j < d.len() {
        assert(all_digits(d.drop_last())) by {
            assert forall|i: int| 0 <= i < d.drop_last().len() implies is_ascii_digit(
                #[trigger] d.drop_last()[i],
            ) by {
                assert(d.drop_last()[i] == d[i]);
            }
        }
        lemma_digits_value_prefix(d.drop_last(), j);
        assert(d.drop_last().take(j) == d.take(j));
        lemma_digits_value_prefix(d.drop_last(), d.drop_last().len() as int);
        assert(d.drop_last().take(d.drop_last().len() as int) == d.drop_last());
        assert(is_ascii_digit(d.last()));
    } else {
        assert(d.take(j) == d);
        if d.len() > 0 {
            assert(all_digits(d.drop_last())) by {
                assert forall|i: int| 0 <= i < d.drop_last().len() implies is_ascii_digit(
                    #[trigger] d.drop_last()[i],
                ) by {
                    assert(d.drop_last()[i] == d[i]);
                }
            }
            lemma_digits_value_prefix(d.drop_last(), 0);
            assert(d.drop_last().take(0) == Seq::<char>::empty());
            assert(is_ascii_digit(d.last()));
        }
    }
}

/// `cs[start..end]` read as an `i32`.
fn parse_i32_range(cs: &Vec<char>, start: usize, end: usize) -> (r: Option<i32>)
    requires
        start <= end <= cs.len(),
    ensures
        r == parse_i32_of(cs@.subrange(start as int, end as int)),
{
    let ghost s = cs@.subrange(start as int, end as int);
    let mut k = start;
    let mut neg = false;
    if k < end && cs[k] == '-' {
        neg = true;
        k = k + 1;
    } else if k < end && cs[k] == '+' {
        k = k + 1;
    }
    let ghost d = cs@.subrange(k as int, end as int);
    assert(d == if s.len() > 0 && (s[0] == '-' || s[0] == '+') {
        s.drop_first()
    } else {
        s
    });
    assert(neg == (s.len() > 0 && s[0] == '-'));
    if k == end {
        return None;
    }
    let mut acc: i64 = 0;
    let mut m = k;
    while m < end
        invariant
            start <= k <= m <= end <= cs.len(),
            s == cs@.subrange(start as int, end as int),
            d == cs@.subrange(k as int, end as int),
            d == if s.len() > 0 && (s[0] == '-' || s[0] == '+') {
                s.drop_first()
            } else {
                s
            },
            neg == (s.len() > 0 && s[0] == '-'),
            all_digits(d.take(m - k)),
            acc == digits_value(d.take(m - k)),
            0 <= acc <= 2147483648,
        decreases end - m,
    {
        let c = cs[m];
        if !('0' <= c && c <= '9') {
            assert(d[m - k] == c);
            return None;
        }
        let dv = ((c as u32) - 48) as i64;
        let next = acc * 10 + dv;
        assert(d.take(m - k + 1).drop_last() == d.take(m - k));
        assert(d.take(m - k + 1).last() == c);
        assert(all_digits(d.take(m - k + 1))) by {
            assert forall|i: int| 0 <= i < m - k + 1 implies is_ascii_digit(#[trigger] d.take(m - k + 1)[i]) by {
                if i < m - k {
                    assert(d.take(m - k + 1)[i] == d.take(m - k)[i]);
                }
            }
        }
        if next > 2147483648 {
            proof {
                if all_digits(d) {
                    lemma_digits_value_prefix(d, m - k + 1);
                }
            }
            return None;
        }
        acc = next;
        m = m + 1;
    }
    assert(d.take(end - k) == d);
    if neg {
        Some((-acc) as i32)
    } else if acc <= 2147483647 {
        Some(acc as i32)
    } else {
        None
    }
}

/// A character width entry of a metrics file; the width is kept as text.
#[derive(Debug)]
pub struct AfmWidth {
    pub ch: char,
    pub width: String,
}

/// The fields of a metrics file, in file order.
#[derive(Debug)]
pub struct AfmFields {
    pub ascenders: Vec<String>,
    pub descenders: Vec<String>,
    pub widths: Vec<AfmWidth>,
}

impl View for AfmFields {
    type V = AfmFieldsView;

    open spec fn view(&self) -> AfmFieldsView {
        AfmFieldsView {
            ascenders: self.ascenders@.map_values(|a: String| a@),
            descenders: self.descenders@.map_values(|a: String| a@),
            widths: self.widths@.map_values(|w: AfmWidth| (w.ch, w.width@)),
        }
    }
}

/// The code and width text of a character metric line `cs[start..end]`.
fn char_metric(cs: &Vec<char>, start: usize, end: usize) -> (r: (Option<i32>, Option<String>))
    requires
        start <= end <= cs.len(),
    ensures
        r.0 == afm_code_of(split_on(cs@.subrange(start as int, end as int), ';')),
        opt_string_view(r.1) == afm_width_of(split_on(cs@.subrange(start as int, end as int), ';')),
{
    let parts = split_bounds(cs, start, end, ';');
    let ghost pv = parts@.map_values(|b: (usize, usize)| cs@.subrange(b.0 as int, b.1 as int));
    let mut code: Option<i32> = None;
    let mut width: Option<String> = None;
    let mut k: usize = 0;
    while k < parts.len()
        invariant
            k <= parts.len(),
            pv == parts@.map_values(|b: (usize, usize)| cs@.subrange(b.0 as int, b.1 as int)),
            forall|j: int| 0 <= j < parts@.len() ==> parts@[j].0 <= #[trigger] parts@[j].1 <= cs.len(),
            code == afm_code_of(pv.take(k as int)),
            opt_string_view(width) == afm_width_of(pv.take(k as int)),
        decreases parts.len() - k,
    {
        proof {
            reveal_strlit("C ");
            reveal_strlit("WX ");
        }
        let (a, b) = parts[k];
        assert(parts@[k as int].0 <= parts@[k as int].1 <= cs.len());
        let (ta, tb) = trim_bounds(cs, a, b);
        let ghost t = cs@.subrange(ta as int, tb as int);
        assert(pv.take(k + 1).drop_last() == pv.take(k as int));
        assert(pv.take(k + 1).last() == cs@.subrange(a as int, b as int));
        if starts_with_lit(cs, ta, tb, "C ") {
            assert(t.skip(2) == cs@.subrange(ta + 2, tb as int));
            let (va, vb) = trim_bounds(cs, ta + 2, tb);
            code = parse_i32_range(cs, va, vb);
        } else if starts_with_lit(cs, ta, tb, "WX ") {
            assert(t.skip(3) == cs@.subrange(ta + 3, tb as int));
            let (va, vb) = trim_bounds(cs, ta + 3, tb);
            width = Some(string_from_range(cs, va, vb));
        }
        k = k + 1;
    }
    assert(pv.take(parts.len() as int) == pv);
    (code, width)
}

/// Reads the ascender, descender and character width fields of a metrics
/// file, line by line and in order.
pub fn afm_fields(afm: &str) -> (f: AfmFields)
    ensures
        f@ == afm_fields_of(lines_of(afm@)),
{
    let text = chars_of(afm);
    assert(text@.take(text@.len() as int) == text@);
    let lines = lines_in(&text, text.len());
    let ghost lv = lines@.map_values(|l: String| l@);
    let mut f = AfmFields { ascenders: Vec::new(), descenders: Vec::new(), widths: Vec::new() };
    assert(f@.ascenders == Seq::<Seq<char>>::empty());
    assert(f@.descenders == Seq::<Seq<char>>::empty());
    assert(f@.widths == Seq::<(char, Seq<char>)>::empty());
    assert(lv.take(0) == Seq::<Seq<char>>::empty());
    let mut i: usize = 0;
    while i < lines.len()
        invariant
            i <= lines.len(),
            lv == lines@.map_values(|l: String| l@),
            f@ == afm_fields_of(lv.take(i as int)),
        decreases lines.len() - i,
    {
        proof {
            reveal_strlit("Ascender ");
            reveal_strlit("Descender ");
            reveal_strlit("C ");
        }
        let cs = chars_of(lines[i].as_str());
        let n = cs.len();
        let ghost before = f@;
        assert(lv.take(i + 1).drop_last() == lv.take(i as int));
        assert(lv.take(i + 1).last() == cs@);
        assert(cs@.subrange(0, n as int) == cs@);
        if starts_with_lit(&cs, 0, n, "Ascender ") {
            assert(cs@.skip(9) == cs@.subrange(9, n as int));
            let (a, b) = trim_bounds(&cs, 9, n);
            let v = string_from_range(&cs, a, b);
            f.ascenders.push(v);
            assert(f@.ascenders == before.ascenders.push(v@));
        } else if starts_with_lit(&cs, 0, n, "Descender ") {
            assert(cs@.skip(10) == cs@.subrange(10, n as int));
            let (a, b) = trim_bounds(&cs, 10, n);
            let v = string_from_range(&cs, a, b);
            f.descenders.push(v);
            assert(f@.descenders == before.descenders.push(v@));
        } else if starts_with_lit(&cs, 0, n, "C ") {
            let (code, width) = char_metric(&cs, 0, n);
            match (code, width) {
                (Some(code), Some(w)) => {
                    if 0 <= code && code <= 255 {
                        let ch = (code as u8) as char;
                        let ghost wv = w@;
                        f.widths.push(AfmWidth { ch, width: w });
                        assert(f@.widths == before.widths.push((ch, wv)));
                    }
                },
                _ => {},
            }
        }
        i = i + 1;
    }
    assert(lv.take(lines.len() as int) == lv);
    f
}

} // verus!
