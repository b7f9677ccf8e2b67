//! Character-level text helpers with their specifications: Unicode
//! whitespace, trimming, ASCII case, title case and citation labels.

use vstd::prelude::*;

verus! {

/// Unicode `White_Space` property: the characters that `char::is_whitespace` accepts.
pub open spec fn is_space_char(c: char) -> bool {
    let u = c as u32;
    ||| 0x09 <= u <= 0x0d
    ||| u == 0x20
    ||| u == 0x85
    ||| u == 0xa0
    ||| u == 0x1680
    ||| 0x2000 <= u <= 0x200a
    ||| u == 0x2028
    ||| u == 0x2029
    ||| u == 0x202f
    ||| u == 0x205f
    ||| u == 0x3000
}

/// Every character of `s` is whitespace (true of the empty sequence).
pub open spec fn all_space(s: Seq<char>) -> bool {
    forall|i: int| 0 <= i < s.len() ==> is_space_char(#[trigger] s[i])
}

/// No character of `s` is whitespace.
pub open spec fn no_space(s: Seq<char>) -> bool {
    forall|i: int| 0 <= i < s.len() ==> !is_space_char(#[trigger] s[i])
}

/// `s` with its leading whitespace removed.
pub open spec fn trim_start_seq(s: Seq<char>) -> Seq<char>
    decreases s.len(),
{
    if s.len() > 0 && is_space_char(s[0]) {
        trim_start_seq(s.drop_first())
    } else {
        s
    }
}

/// `s` with its trailing whitespace removed.
pub open spec fn trim_end_seq(s: Seq<char>) -> Seq<char>
    decreases s.len(),
{
    if s.len() > 0 && is_space_char(s.last()) {
        trim_end_seq(s.drop_last())
    } else {
        s
    }
}

/// `s` with whitespace removed at both ends, as `str::trim` gives it.
pub open spec fn trim_seq(s: Seq<char>) -> Seq<char> {
    trim_end_seq(trim_start_seq(s))
}

/// Whitespace test on one character, as `char::is_whitespace` answers it.
pub fn is_whitespace(c: char) -> (r: bool)
    ensures
        r == is_space_char(c),
{
    let u = c as u32;
    (0x09 <= u && u <= 0x0d) || u == 0x20 || u == 0x85 || u == 0xa0 || u == 0x1680 || (0x2000 <= u
        && u <= 0x200a) || u == 0x2028 || u == 0x2029 || u == 0x202f || u == 0x205f || u == 0x3000
}

/// Appends one character to a string (`String::push`).
#[verifier::external_body]
pub(crate) fn push_char(s: &mut String, c: char)
    ensures
        final(s)@ == old(s)@.push(c),
{
    s.push(c)
}

/// The characters of `s`, in order.
pub fn chars_of(s: &str) -> (v: Vec<char>)
    ensures
        v@ == s@,
{
    let mut v: Vec<char> = Vec::new();
    for c in it: s.chars()
        invariant
            it.seq() == s@,
            v@ == s@.take(it.index() as int),
    {
        v.push(c);
        assert(s@.take(it.index() + 1) == s@.take(it.index() as int).push(c));
    }
    assert(s@.take(s@.len() as int) == s@);
    v
}

/// The string made of `cs[start..end]`.
pub fn string_from_range(cs: &Vec<char>, start: usize, end: usize) -> (r: String)
    requires
        start <= end <= cs.len(),
    ensures
        r@ == cs@.subrange(start as int, end as int),
{
    let mut r = String::new();
    let mut i = start;
    while i < end
        invariant
            start <= i <= end <= cs.len(),
            r@ == cs@.subrange(start as int, i as int),
        decreases end - i,
    {
        push_char(&mut r, cs[i]);
        assert(cs@.subrange(start as int, i + 1) == cs@.subrange(start as int, i as int).push(
            cs@[i as int],
        ));
        i = i + 1;
    }
    r
}

/// True when `s` holds only whitespace: `s.trim().is_empty()`.
pub fn is_blank(s: &str) -> (r: bool)
    ensures
        r == all_space(s@),
{
    for c in it: s.chars()
        invariant
            it.seq() == s@,
            all_space(s@.take(it.index() as int)),
    {
        if !is_whitespace(c) {
            assert(s@[it.index() as int] == c);
            return false;
        }
        assert(s@.take(it.index() + 1) == s@.take(it.index() as int).push(c));
    }
    assert(s@.take(s@.len() as int) == s@);
    true
}

pub proof fn lemma_trim_start_skip(s: Seq<char>, i: int)
    requires
        0 <= i <= s.len(),
        all_space(s.take(i)),
    ensures
        trim_start_seq(s) == trim_start_seq(s.subrange(i, s.len() as int)),
    decreases i,
{
    if i > 0 {
        assert(is_space_char(s.take(i)[0]));
        assert(all_space(s.drop_first().take(i - 1))) by {
            assert forall|j: int| 0 <= j < i - 1 implies is_space_char(
                #[trigger] s.drop_first().take(i - 1)[j],
            ) by {
                assert(s.drop_first().take(i - 1)[j] == s.take(i)[j + 1]);
            }
        }
        lemma_trim_start_skip(s.drop_first(), i - 1);
        assert(s.drop_first().subrange(i - 1, s.drop_first().len() as int) == s.subrange(
            i,
            s.len() as int,
        ));
    } else {
        assert(s.subrange(0, s.len() as int) == s);
    }
}

pub proof fn lemma_trim_end_drop(s: Seq<char>, j: int)
    requires
        0 <= j <= s.len(),
        all_space(s.subrange(j, s.len() as int)),
    ensures
        trim_end_seq(s) == trim_end_seq(s.take(j)),
    decreases s.len() - j,
{
    if j < s.len() {
        assert(is_space_char(s.subrange(j, s.len() as int)[s.len() - 1 - j]));
        assert(all_space(s.drop_last().subrange(j, s.drop_last().len() as int))) by {
            assert forall|k: int| 0 <= k < s.drop_last().len() - j implies is_space_char(
                #[trigger] s.drop_last().subrange(j, s.drop_last().len() as int)[k],
            ) by {
                assert(s.drop_last().subrange(j, s.drop_last().len() as int)[k] == s.subrange(
                    j,
                    s.len() as int,
                )[k]);
            }
        }
        lemma_trim_end_drop(s.drop_last(), j);
        assert(s.drop_last().take(j) == s.take(j));
    } else {
        assert(s.take(j) == s);
    }
}

/// The bounds of `cs[start..end]` with whitespace removed at both ends.
pub fn trim_bounds(cs: &Vec<char>, start: usize, end: usize) -> (r: (usize, usize))
    requires
        start <= end <= cs.len(),
    ensures
        start <= r.0 <= r.1 <= end,
        cs@.subrange(r.0 as int, r.1 as int) == trim_seq(cs@.subrange(start as int, end as int)),
{
    let ghost s = cs@.subrange(start as int, end as int);
    let mut i: usize = start;
    while i < end && is_whitespace(cs[i])
        invariant
            start <= i <= end <= cs.len(),
            s == cs@.subrange(start as int, end as int),
            all_space(s.take(i - start)),
        decreases end - i,
    {
        assert(s.take(i - start + 1) == s.take(i - start).push(cs@[i as int]));
        i = i + 1;
    }
    proof {
        lemma_trim_start_skip(s, i - start);
        assert(s.subrange(i - start, s.len() as int) == cs@.subrange(i as int, end as int));
        if i < end {
            assert(!is_space_char(cs@.subrange(i as int, end as int)[0]));
        }
    }
    let ghost rest = cs@.subrange(i as int, end as int);
    assert(trim_start_seq(s) == rest);
    let mut j: usize = end;
    while j > i && is_whitespace(cs[j - 1])
        invariant
            start <= i <= j <= end <= cs.len(),
            rest == cs@.subrange(i as int, end as int),
            all_space(rest.subrange(j - i, rest.len() as int)),
        decreases j,
    {
        assert(rest.subrange(j - 1 - i, rest.len() as int) == seq![cs@[j - 1]] + rest.subrange(
            j - i,
            rest.len() as int,
        ));
        j = j - 1;
    }
    proof {
        lemma_trim_end_drop(rest, j - i);
        assert(rest.take(j - i) == cs@.subrange(i as int, j as int));
        if j > i {
            assert(!is_space_char(rest.take(j - i).last()));
        }
    }
    (i, j)
}

/// `s` with leading and trailing whitespace removed (`str::trim`), from its characters.
pub fn trim_chars(cs: &Vec<char>) -> (r: String)
    ensures
        r@ == trim_seq(cs@),
{
    let (i, j) = trim_bounds(cs, 0, cs.len());
    assert(cs@.subrange(0, cs@.len() as int) == cs@);
    string_from_range(cs, i, j)
}

/// `s.trim()`, as an owned string.
pub fn trim(s: &str) -> (r: String)
    ensures
        r@ == trim_seq(s@),
{
    let cs = chars_of(s);
    trim_chars(&cs)
}

/// ASCII lowercase of one character (`char::to_ascii_lowercase`).
pub open spec fn ascii_lower(c: char) -> char {
    if 'A' <= c <= 'Z' {
        ((c as u32) + 32) as char
    } else {
        c
    }
}

/// ASCII uppercase of one character (`char::to_ascii_uppercase`).
pub open spec fn ascii_upper(c: char) -> char {
    if 'a' <= c <= 'z' {
        ((c as u32) - 32) as char
    } else {
        c
    }
}

pub fn to_ascii_lower_char(c: char) -> (r: char)
    ensures
        r == ascii_lower(c),
{
    if 'A' <= c && c <= 'Z' {
        ((c as u8) + 32) as char
    } else {
        c
    }
}

pub fn to_ascii_upper_char(c: char) -> (r: char)
    ensures
        r == ascii_upper(c),
{
    if 'a' <= c && c <= 'z' {
        ((c as u8) - 32) as char
    } else {
        c
    }
}

/// `s` in ASCII lowercase (`str::to_ascii_lowercase`).
pub fn to_ascii_lowercase(s: &str) -> (r: Vec<char>)
    ensures
        r@ == s@.map_values(|c: char| ascii_lower(c)),
{
    let mut r: Vec<char> = Vec::new();
    for c in it: s.chars()
        invariant
            it.seq() == s@,
            r@ == s@.take(it.index() as int).map_values(|c: char| ascii_lower(c)),
    {
        r.push(to_ascii_lower_char(c));
        assert(s@.take(it.index() + 1).map_values(|c: char| ascii_lower(c)) == s@.take(
            it.index() as int,
        ).map_values(|c: char| ascii_lower(c)).push(ascii_lower(c)));
    }
    assert(s@.take(s@.len() as int) == s@);
    r
}

/// `s` in ASCII uppercase (`str::to_ascii_uppercase`).
pub fn to_ascii_uppercase(s: &str) -> (r: String)
    ensures
        r@ == s@.map_values(|c: char| ascii_upper(c)),
{
    let mut r = String::new();
    for c in it: s.chars()
        invariant
            it.seq() == s@,
            r@ == s@.take(it.index() as int).map_values(|c: char| ascii_upper(c)),
    {
        push_char(&mut r, to_ascii_upper_char(c));
        assert(s@.take(it.index() + 1).map_values(|c: char| ascii_upper(c)) == s@.take(
            it.index() as int,
        ).map_values(|c: char| ascii_upper(c)).push(ascii_upper(c)));
    }
    assert(s@.take(s@.len() as int) == s@);
    r
}

/// The characters `a` spell exactly the string `b`.
pub fn chars_eq(a: &Vec<char>, b: &str) -> (r: bool)
    ensures
        r == (a@ == b@),
{
    let bs = chars_of(b);
    if a.len() != bs.len() {
        return false;
    }
    let mut i: usize = 0;
    while i < a.len()
        invariant
            a.len() == bs.len(),
            bs@ == b@,
            i <= a.len(),
            a@.take(i as int) == bs@.take(i as int),
        decreases a.len() - i,
    {
        if a[i] != bs[i] {
            return false;
        }
        assert(a@.take(i + 1) == a@.take(i as int).push(a@[i as int]));
        assert(bs@.take(i + 1) == bs@.take(i as int).push(bs@[i as int]));
        i = i + 1;
    }
    assert(a@.take(a.len() as int) == a@);
    assert(bs@.take(a.len() as int) == bs@);
    true
}

/// The full Unicode uppercase mapping of a character, as `char::to_uppercase`
/// yields it.
pub uninterp spec fn uppercase_of(c: char) -> Seq<char>;

/// `char::to_uppercase`, collected. Its documentation promises one or more
/// characters, the character itself when it has no uppercase mapping, and for
/// ASCII the ASCII uppercase letter; the rest of the Unicode table is left to
/// the name `uppercase_of`.
#[verifier::external_body]
fn char_to_uppercase(c: char) -> (r: String)
    ensures
        r@ == uppercase_of(c),
        r@.len() >= 1,
        (c as u32) < 0x80 ==> r@ == seq![ascii_upper(c)],
{
    c.to_uppercase().collect()
}

/// The uppercase form of one character: the ASCII uppercase letter for an
/// ASCII character, the full Unicode mapping otherwise.
pub open spec fn upper_char(c: char) -> Seq<char> {
    if (c as u32) < 0x80 {
        seq![ascii_upper(c)]
    } else {
        uppercase_of(c)
    }
}

/// `s` with its first character in uppercase.
pub open spec fn title_case(s: Seq<char>) -> Seq<char> {
    if s.len() == 0 {
        Seq::empty()
    } else {
        upper_char(s[0]) + s.drop_first()
    }
}

/// `text` with its first character in uppercase and the rest unchanged.
pub fn title_word(text: &str) -> (r: String)
    ensures
        r@ == title_case(text@),
{
    let cs = chars_of(text);
    title_word_chars(&cs, 0, cs.len())
}

fn title_word_chars(cs: &Vec<char>, start: usize, end: usize) -> (r: String)
    requires
        start <= end <= cs.len(),
    ensures
        r@ == title_case(cs@.subrange(start as int, end as int)),
{
    if start == end {
        return String::new();
    }
    let mut r = char_to_uppercase(cs[start]);
    let rest = string_from_range(cs, start + 1, end);
    r.append(rest.as_str());
    assert(cs@.subrange(start as int, end as int).drop_first() == cs@.subrange(start + 1, end as int));
    r
}

/// Number of bytes of `c` in UTF-8.
pub open spec fn utf8_len(c: char) -> nat {
    let u = c as u32;
    if u < 0x80 {
        1
    } else if u < 0x800 {
        2
    } else if u < 0x10000 {
        3
    } else {
        4
    }
}

/// Number of bytes of `s` in UTF-8 (what `str::len` returns).
pub open spec fn byte_len(s: Seq<char>) -> nat
    decreases s.len(),
{
    if s.len() == 0 {
        0
    } else {
        byte_len(s.drop_last()) + utf8_len(s.last())
    }
}

/// A citation key character, with `_`, `-` and `:` read as spaces.
pub open spec fn cite_char(c: char) -> char {
    if c == '_' || c == '-' || c == ':' {
        ' '
    } else {
        c
    }
}

pub open spec fn is_ascii_digit(c: char) -> bool {
    '0' <= c <= '9'
}

/// The label shown for a citation key: separators become spaces; when the key
/// is longer than four bytes and ends in four ASCII digits, those digits are a
/// year set apart from the title-cased author part, otherwise the whole
/// trimmed key is title-cased.
pub open spec fn citation_label_of(key: Seq<char>) -> Seq<char> {
    let cleaned = key.map_values(|c: char| cite_char(c));
    let n = cleaned.len();
    if byte_len(cleaned) > 4 && n >= 4 && (forall|i: int|
        n - 4 <= i < n ==> is_ascii_digit(#[trigger] cleaned[i])) {
        title_case(trim_seq(cleaned.take(n - 4))) + seq![' '] + cleaned.skip(n - 4)
    } else {
        title_case(trim_seq(cleaned))
    }
}

/// The byte four bytes before the end of `key` starts a character, or the key
/// is at most four bytes long: splitting off a four-byte year is possible.
pub open spec fn year_split_on_char_boundary(key: Seq<char>) -> bool {
    byte_len(key) <= 4 || exists|k: int| 0 <= k <= key.len() && #[trigger] byte_len(key.skip(k)) == 4
}

fn utf8_len_exec(c: char) -> (r: usize)
    ensures
        r == utf8_len(c),
{
    let u = c as u32;
    if u < 0x80 {
        1
    } else if u < 0x800 {
        2
    } else if u < 0x10000 {
        3
    } else {
        4
    }
}

/// A readable label for a citation key such as `doe_2024` (shown as `Doe 2024`).
pub fn citation_label(key: &str) -> (r: String)
    requires
        year_split_on_char_boundary(key@),
    ensures
        r@ == citation_label_of(key@),
{
    let cs = chars_of(key);
    let mut cleaned: Vec<char> = Vec::new();
    let mut bytes: usize = 0;
    let mut i: usize = 0;
    while i < cs.len()
        invariant
            cs@ == key@,
            i <= cs.len(),
            cleaned@ == cs@.take(i as int).map_values(|c: char| cite_char(c)),
            bytes == if byte_len(cleaned@) > 4 { 5 } else { byte_len(cleaned@) },
        decreases cs.len() - i,
    {
        let c = cs[i];
        let d = if c == '_' || c == '-' || c == ':' {
            ' '
        } else {
            c
        };
        let ghost prev = cleaned@;
        cleaned.push(d);
        assert(cs@.take(i + 1).map_values(|c: char| cite_char(c)) == cs@.take(i as int).map_values(
            |c: char| cite_char(c),
        ).push(d));
        assert(cleaned@.drop_last() == prev);
        let w = utf8_len_exec(d);
        bytes = if bytes + w > 4 {
            5
        } else {
            bytes + w
        };
        i = i + 1;
    }
    assert(cs@.take(cs.len() as int) == cs@);
    let n = cleaned.len();
    if bytes > 4 && n >= 4 {
        let mut digits = true;
        let mut j: usize = n - 4;
        while j < n
            invariant
                n == cleaned.len(),
                n >= 4,
                n - 4 <= j <= n,
                digits == (forall|k: int| n - 4 <= k < j ==> is_ascii_digit(#[trigger] cleaned@[k])),
            decreases n - j,
        {
            let c = cleaned[j];
            if !('0' <= c && c <= '9') {
                digits = false;
            }
            j = j + 1;
        }
        if digits {
            let mut author: Vec<char> = Vec::new();
            let mut k: usize = 0;
            while k < n - 4
                invariant
                    n == cleaned.len(),
                    n >= 4,
                    k <= n - 4,
                    author@ == cleaned@.take(k as int),
                decreases n - 4 - k,
            {
                author.push(cleaned[k]);
                assert(cleaned@.take(k + 1) == cleaned@.take(k as int).push(cleaned@[k as int]));
                k = k + 1;
            }
            let trimmed = trim_chars(&author);
            let mut r = title_word(trimmed.as_str());
            push_char(&mut r, ' ');
            let year = string_from_range(&cleaned, n - 4, n);
            r.append(year.as_str());
            assert(cleaned@.subrange(n - 4, n as int) == cleaned@.skip(n - 4));
            return r;
        }
    }
    let trimmed = trim_chars(&cleaned);
    title_word(trimmed.as_str())
}

/// The first position at or after `i` where `hay` holds `c`.
pub open spec fn find_char_from(hay: Seq<char>, c: char, i: int) -> Option<int>
    decreases hay.len() - i,
{
    if i < 0 || i >= hay.len() {
        None
    } else if hay[i] == c {
        Some(i)
    } else {
        find_char_from(hay, c, i + 1)
    }
}

/// The search for `c` from `j` stops at `k` when `k` holds `c` and nothing
/// between `j` and `k` does.
pub proof fn lemma_find_char_first_at(t: Seq<char>, c: char, j: int, k: int)
    requires
        0 <= j <= k < t.len(),
        t[k] == c,
        forall|m: int| j <= m < k ==> t[m] != c,
    ensures
        find_char_from(t, c, j) == Some(k),
    decreases k - j,
{
    if j < k {
        lemma_find_char_first_at(t, c, j + 1, k);
    }
}

/// The search for `c` from `j` finds nothing when no later position holds `c`.
pub proof fn lemma_find_char_none(t: Seq<char>, c: char, j: int)
    requires
        0 <= j <= t.len(),
        forall|m: int| j <= m < t.len() ==> t[m] != c,
    ensures
        find_char_from(t, c, j) is None,
    decreases t.len() - j,
{
    if j < t.len() {
        lemma_find_char_none(t, c, j + 1);
    }
}

/// One line of `s` with a carriage return before its line feed removed.
pub open spec fn strip_cr(line: Seq<char>) -> Seq<char> {
    if line.len() > 0 && line.last() == '\r' {
        line.drop_last()
    } else {
        line
    }
}

/// The lines of `s` as `str::lines` yields them: split after each `\n`, a
/// `\r\n` ending counts as one line ending, and no empty line follows a
/// final line ending.
pub open spec fn lines_of(s: Seq<char>) -> Seq<Seq<char>>
    decreases s.len(),
{
    if s.len() == 0 {
        Seq::empty()
    } else {
        match find_char_from(s, '\n', 0) {
            None => seq![s],
            Some(p) => if 0 <= p < s.len() {
                seq![strip_cr(s.take(p))] + lines_of(s.skip(p + 1))
            } else {
                Seq::empty()
            },
        }
    }
}

fn strip_cr_exec(cs: &Vec<char>, start: usize, end: usize) -> (r: String)
    requires
        start <= end <= cs.len(),
    ensures
        r@ == strip_cr(cs@.subrange(start as int, end as int)),
{
    if end > start && cs[end - 1] == '\r' {
        assert(cs@.subrange(start as int, end as int).drop_last() == cs@.subrange(start as int, end - 1));
        string_from_range(cs, start, end - 1)
    } else {
        string_from_range(cs, start, end)
    }
}

/// The lines of `cs[..n]`, as `str::lines` yields them.
pub fn lines_in(cs: &Vec<char>, n: usize) -> (lines: Vec<String>)
    requires
        n <= cs.len(),
    ensures
        lines@.map_values(|l: String| l@) == lines_of(cs@.take(n as int)),
{
    let ghost s = cs@.take(n as int);
    let mut lines: Vec<String> = Vec::new();
    let mut start: usize = 0;
    let mut i: usize = 0;
    assert(s.skip(0) == s);
    assert(lines@.map_values(|l: String| l@) + lines_of(s) == lines_of(s));
    while i < n
        invariant
            n <= cs.len(),
            s == cs@.take(n as int),
            start <= i <= n,
            forall|m: int| start <= m < i ==> cs@[m] != '\n',
            lines_of(s) == lines@.map_values(|l: String| l@) + lines_of(s.skip(start as int)),
        decreases n - i,
    {
        if cs[i] == '\n' {
            let ghost t = s.skip(start as int);
            proof {
                assert forall|m: int| 0 <= m < i - start implies t[m] != '\n' by {
                    assert(t[m] == cs@[start + m]);
                }
                assert(t[i - start] == '\n');
                lemma_find_char_first_at(t, '\n', 0, i - start);
                assert(t.take(i - start) == cs@.subrange(start as int, i as int));
                assert(t.skip(i - start + 1) == s.skip(i + 1));
            }
            let line = strip_cr_exec(&cs, start, i);
            let ghost before = lines@.map_values(|l: String| l@);
            lines.push(line);
            assert(lines@.map_values(|l: String| l@) == before.push(line@));
            assert(before.push(line@) + lines_of(s.skip(i + 1)) == before + (seq![line@] + lines_of(s.skip(i + 1))));
            start = i + 1;
        }
        i = i + 1;
    }
    let ghost t = s.skip(start as int);
    let ghost before = lines@.map_values(|l: String| l@);
    if start < n {
        proof {
            assert forall|m: int| 0 <= m < t.len() implies t[m] != '\n' by {
                assert(t[m] == cs@[start + m]);
            }
            lemma_find_char_none(t, '\n', 0);
            assert(t == cs@.subrange(start as int, n as int));
        }
        let last = string_from_range(&cs, start, n);
        lines.push(last);
        assert(lines@.map_values(|l: String| l@) == before.push(last@));
        assert(before + seq![last@] == before.push(last@));
    } else {
        assert(t.len() == 0);
        assert(before + lines_of(t) == before);
    }
    lines
}


} // verus!
