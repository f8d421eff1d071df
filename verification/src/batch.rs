//! Batch search input: multi-line text, one track per line.
//!
//! A line is `Artist - Title` (hyphen, en dash or em dash between spaces), a bare
//! title, or an `http(s)://` URL.  Leading numbering (`1.`, `12)`), `#` comment lines
//! and ` #` trailing comments are dropped, as are empty lines.
use vstd::prelude::*;
use vstd::slice::slice_subrange;
use crate::text::{
    lemma_line_end, line_end, lines, strip_cr, ascii_lower, is_whitespace, lemma_find_first,
    lemma_trim_at, lemma_trim_unchanged, matches_at,
    chars_of, find, find_in, is_ascii_digit, is_ascii_whitespace, lemma_find_from_bounds,
    starts_with_ascii_ci, starts_with_ci, string_from_chars, trim, trim_bounds, trim_start,
};

use crate::sources::cat3;
use crate::text::{decimal, decimal_string, owned};

verus! {

broadcast use vstd::string::group_string_axioms;

/// One parsed line of batch input.
#[derive(Debug, PartialEq, Eq)]
pub struct BatchQuery {
    pub raw: String,
    pub artist: String,
    pub title: String,
    pub url: Option<String>,
}

impl Clone for BatchQuery {
    fn clone(&self) -> (r: Self)
        ensures
            r == *self,
    {
        BatchQuery {
            raw: self.raw.clone(),
            artist: self.artist.clone(),
            title: self.title.clone(),
            url: match &self.url {
                Some(u) => Some(u.clone()),
                None => None,
            },
        }
    }
}

/// Model of a [`BatchQuery`]: its fields as character sequences.
pub struct BatchQueryModel {
    pub raw: Seq<char>,
    pub artist: Seq<char>,
    pub title: Seq<char>,
    pub url: Option<Seq<char>>,
}

impl View for BatchQuery {
    type V = BatchQueryModel;

    open spec fn view(&self) -> BatchQueryModel {
        BatchQueryModel {
            raw: self.raw@,
            artist: self.artist@,
            title: self.title@,
            url: match self.url {
                Some(u) => Some(u@),
                None => None,
            },
        }
    }
}

/// The search string sent to a source for a query.
pub open spec fn spec_search_text(q: BatchQueryModel) -> Seq<char> {
    if q.artist.len() == 0 && q.title.len() == 0 {
        q.raw
    } else if q.artist.len() == 0 {
        q.title
    } else if q.title.len() == 0 {
        q.artist
    } else {
        q.artist + seq![' ', '-', ' '] + q.title
    }
}

impl BatchQuery {
    /// Full search string: `artist - title`, or whichever part is present, or the raw line.
    pub fn search_text(&self) -> (s: String)
        ensures
            s@ == spec_search_text(self@),
    {
        if self.artist.as_str().is_empty() && self.title.as_str().is_empty() {
            self.raw.clone()
        } else if self.artist.as_str().is_empty() {
            self.title.clone()
        } else if self.title.as_str().is_empty() {
            self.artist.clone()
        } else {
            let mut s = self.artist.clone();
            let sep = " - ";
            proof {
                reveal_strlit(" - ");
            }
            assert(sep@ =~= seq![' ', '-', ' ']);
            s.append(sep);
            s.append(self.title.as_str());
            s
        }
    }
}

// ---------------------------------------------------------------- specification

/// First position at or after `i` that is not ASCII whitespace.
pub open spec fn skip_ascii_ws(s: Seq<char>, i: int) -> int
    decreases s.len() - i,
{
    if 0 <= i < s.len() && is_ascii_whitespace(s[i]) {
        skip_ascii_ws(s, i + 1)
    } else {
        i
    }
}

/// First position at or after `i` that is not an ASCII digit.
pub open spec fn skip_ascii_digits(s: Seq<char>, i: int) -> int
    decreases s.len() - i,
{
    if 0 <= i < s.len() && is_ascii_digit(s[i]) {
        skip_ascii_digits(s, i + 1)
    } else {
        i
    }
}

/// Leading list numbering removed: whitespace, digits, whitespace, `.` or `)`, whitespace.
/// A line without that shape is left as it is.
pub open spec fn spec_strip_numbering(s: Seq<char>) -> Seq<char> {
    let a = skip_ascii_ws(s, 0);
    let b = skip_ascii_digits(s, a);
    if b == a {
        s
    } else {
        let c = skip_ascii_ws(s, b);
        if c >= s.len() || (s[c] != '.' && s[c] != ')') {
            s
        } else {
            s.subrange(skip_ascii_ws(s, c + 1), s.len() as int)
        }
    }
}

/// Everything from the first `" #"` on removed.
pub open spec fn spec_strip_trailing_comment(s: Seq<char>) -> Seq<char> {
    match find(s, seq![' ', '#']) {
        Some(i) => s.subrange(0, i),
        None => s,
    }
}

/// `http://` or `https://` at the start (after leading whitespace), in any ASCII case.
pub open spec fn spec_is_url(s: Seq<char>) -> bool {
    let t = trim_start(s);
    starts_with_ascii_ci(t, seq!['h', 't', 't', 'p', ':', '/', '/'])
        || starts_with_ascii_ci(t, seq!['h', 't', 't', 'p', 's', ':', '/', '/'])
}

pub open spec fn sep_hyphen() -> Seq<char> {
    seq![' ', '-', ' ']
}

pub open spec fn sep_en_dash() -> Seq<char> {
    seq![' ', '\u{2013}', ' ']
}

pub open spec fn sep_em_dash() -> Seq<char> {
    seq![' ', '\u{2014}', ' ']
}

/// A line split at a separator found at `i`.
pub open spec fn split_query(line: Seq<char>, i: int) -> BatchQueryModel {
    BatchQueryModel {
        raw: line,
        artist: trim(line.subrange(0, i)),
        title: trim(line.subrange(i + 3, line.len() as int)),
        url: None,
    }
}

/// A cleaned, non-empty line read as a query.
pub open spec fn spec_parse_single(line: Seq<char>) -> BatchQueryModel {
    if spec_is_url(line) {
        BatchQueryModel { raw: line, artist: seq![], title: seq![], url: Some(line) }
    } else if let Some(i) = find(line, sep_hyphen()) {
        split_query(line, i)
    } else if let Some(i) = find(line, sep_en_dash()) {
        split_query(line, i)
    } else if let Some(i) = find(line, sep_em_dash()) {
        split_query(line, i)
    } else {
        BatchQueryModel { raw: line, artist: seq![], title: trim(line), url: None }
    }
}

/// The query a raw input line yields, if any.
pub open spec fn spec_parse_line(line: Seq<char>) -> Option<BatchQueryModel> {
    let t = trim(spec_strip_trailing_comment(spec_strip_numbering(line)));
    if t.len() == 0 || t[0] == '#' {
        None
    } else {
        Some(spec_parse_single(t))
    }
}

/// Queries of a sequence of lines, in order.
pub open spec fn spec_parse_lines(ls: Seq<Seq<char>>) -> Seq<BatchQueryModel>
    decreases ls.len(),
{
    if ls.len() == 0 {
        seq![]
    } else {
        let rest = spec_parse_lines(ls.drop_first());
        match spec_parse_line(ls[0]) {
            Some(q) => seq![q].add(rest),
            None => rest,
        }
    }
}

/// The queries of a multi-line input.
pub open spec fn spec_parse_batch(input: Seq<char>) -> Seq<BatchQueryModel> {
    spec_parse_lines(lines(input))
}

proof fn lemma_line_end_bounds(s: Seq<char>, i: int)
    requires
        0 <= i <= s.len(),
    ensures
        i <= line_end(s, i) <= s.len(),
        forall|k: int| i <= k < line_end(s, i) ==> s[k] != '\n',
        line_end(s, i) < s.len() ==> s[line_end(s, i)] == '\n',
    decreases s.len() - i,
{
    if i < s.len() && s[i] != '\n' {
        lemma_line_end_bounds(s, i + 1);
    }
}

proof fn lemma_parse_lines_append(x: Seq<Seq<char>>, y: Seq<Seq<char>>)
    ensures
        spec_parse_lines(x + y) == spec_parse_lines(x) + spec_parse_lines(y),
    decreases x.len(),
{
    if x.len() == 0 {
        assert(x + y =~= y);
        assert(Seq::<BatchQueryModel>::empty() + spec_parse_lines(y) =~= spec_parse_lines(y));
    } else {
        assert((x + y).drop_first() =~= x.drop_first() + y);
        assert((x + y)[0] == x[0]);
        lemma_parse_lines_append(x.drop_first(), y);
        let p = spec_parse_lines(x.drop_first());
        let r = spec_parse_lines(y);
        if let Some(q) = spec_parse_line(x[0]) {
            assert(seq![q].add(p + r) =~= seq![q].add(p) + r);
        }
    }
}

proof fn lemma_parse_lines_cons(l: Seq<char>, rest: Seq<Seq<char>>)
    ensures
        spec_parse_lines(seq![l].add(rest)) == match spec_parse_line(l) {
            Some(q) => seq![q].add(spec_parse_lines(rest)),
            None => spec_parse_lines(rest),
        },
{
    assert(seq![l].add(rest).drop_first() =~= rest);
    assert(seq![l].add(rest)[0] == l);
}

proof fn lemma_skip_ws_cr(y: Seq<char>, i: int)
    requires
        0 <= i <= y.len(),
    ensures
        skip_ascii_ws(y.push('\r'), i) == if skip_ascii_ws(y, i) < y.len() {
            skip_ascii_ws(y, i)
        } else {
            y.len() as int + 1
        },
        skip_ascii_ws(y, i) <= y.len(),
    decreases y.len() - i,
{
    let s = y.push('\r');
    if i < y.len() {
        assert(s[i] == y[i]);
        if is_ascii_whitespace(y[i]) {
            lemma_skip_ws_cr(y, i + 1);
        }
    } else {
        assert(s[i] == '\r');
        assert(skip_ascii_ws(s, i + 1) == i + 1);
    }
}

proof fn lemma_skip_digits_cr(y: Seq<char>, i: int)
    requires
        0 <= i <= y.len(),
    ensures
        skip_ascii_digits(y.push('\r'), i) == skip_ascii_digits(y, i),
        i <= skip_ascii_digits(y, i) <= y.len(),
    decreases y.len() - i,
{
    let s = y.push('\r');
    if i < y.len() {
        assert(s[i] == y[i]);
        if is_ascii_digit(y[i]) {
            lemma_skip_digits_cr(y, i + 1);
        }
    } else {
        assert(s[i] == '\r');
    }
}

proof fn lemma_skip_ws_bounds(y: Seq<char>, i: int)
    requires
        0 <= i <= y.len(),
    ensures
        i <= skip_ascii_ws(y, i) <= y.len(),
    decreases y.len() - i,
{
    if i < y.len() && is_ascii_whitespace(y[i]) {
        lemma_skip_ws_bounds(y, i + 1);
    }
}

/// A `'\r'` at the end of a line survives numbering removal, or goes with everything.
proof fn lemma_strip_numbering_cr(y: Seq<char>)
    ensures
        spec_strip_numbering(y.push('\r')) == spec_strip_numbering(y).push('\r')
            || spec_strip_numbering(y.push('\r')) == spec_strip_numbering(y),
{
    let s = y.push('\r');
    let n = y.len() as int;
    lemma_skip_ws_cr(y, 0);
    let a = skip_ascii_ws(y, 0);
    lemma_skip_ws_bounds(y, 0);
    if a < n {
        lemma_skip_digits_cr(y, a);
        let b = skip_ascii_digits(y, a);
        if b != a {
            lemma_skip_ws_cr(y, b);
            lemma_skip_ws_bounds(y, b);
            let c = skip_ascii_ws(y, b);
            if c < n {
                assert(s[c] == y[c]);
                if y[c] == '.' || y[c] == ')' {
                    lemma_skip_ws_cr(y, c + 1);
                    lemma_skip_ws_bounds(y, c + 1);
                    let d = skip_ascii_ws(y, c + 1);
                    if d < n {
                        assert(s.subrange(d, n + 1) =~= y.subrange(d, n).push('\r'));
                    } else {
                        assert(s.subrange(n + 1, n + 1) =~= y.subrange(n, n));
                    }
                }
            }
        }
    } else {
        assert(skip_ascii_digits(s, n + 1) == n + 1);
        assert(skip_ascii_digits(y, n) == n);
    }
}

proof fn lemma_strip_comment_cr(w: Seq<char>)
    ensures
        spec_strip_trailing_comment(w.push('\r')) == spec_strip_trailing_comment(w).push('\r')
            || spec_strip_trailing_comment(w.push('\r')) == spec_strip_trailing_comment(w),
{
    let s = w.push('\r');
    let p = seq![' ', '#'];
    lemma_find_first(w, p);
    lemma_find_first(s, p);
    match find(s, p) {
        Some(j) => {
            lemma_matches2(s, p, j);
            lemma_matches2(w, p, j);
            assert(s[j] == w[j] && s[j + 1] == w[j + 1]);
            if let Some(i) = find(w, p) {
                lemma_matches2(w, p, i);
                lemma_matches2(s, p, i);
                assert(s[i] == w[i] && s[i + 1] == w[i + 1]);
                assert(s.subrange(0, j) =~= w.subrange(0, i));
            }
        },
        None => {
            if let Some(i) = find(w, p) {
                lemma_matches2(w, p, i);
                lemma_matches2(s, p, i);
                assert(s[i] == w[i] && s[i + 1] == w[i + 1]);
            }
        },
    }
}

proof fn lemma_trim_cr(u: Seq<char>)
    ensures
        trim(u.push('\r')) == trim(u),
{
    let s = u.push('\r');
    let n = u.len() as int;
    let r = lemma_trim_at(u);
    let r2 = lemma_trim_at(s);
    assert(is_whitespace('\r'));
    assert(s[n] == '\r');
    if r.0 < r.1 {
        assert(s[r.0] == u[r.0]);
        assert(s[r.1 - 1] == u[r.1 - 1]);
        if r2.0 < r.0 {
            assert(s[r2.0] == u[r2.0]);
            if r2.0 == r2.1 {
                assert(is_whitespace(s[r.0]));
            }
        }
        if r2.0 > r.0 {
            assert(is_whitespace(s[r.0]));
        }
        if r2.1 > r.1 {
            if r2.1 - 1 < n {
                assert(s[r2.1 - 1] == u[r2.1 - 1]);
            }
        }
        if r2.1 < r.1 {
            assert(is_whitespace(s[r.1 - 1]));
        }
        assert(s.subrange(r.0, r.1) =~= u.subrange(r.0, r.1));
    } else {
        if r2.0 < r2.1 {
            if r2.0 < n {
                assert(s[r2.0] == u[r2.0]);
                if r2.0 < r.0 {
                    assert(is_whitespace(u[r2.0]));
                } else {
                    assert(is_whitespace(u[r2.0]));
                }
            }
        }
    }
}

/// A `'\r'` at the end of a line does not change the query read from it.
proof fn lemma_parse_line_cr(y: Seq<char>)
    ensures
        spec_parse_line(y.push('\r')) == spec_parse_line(y),
{
    lemma_strip_numbering_cr(y);
    let z = spec_strip_numbering(y);
    lemma_strip_comment_cr(z);
    let w = spec_strip_trailing_comment(z);
    lemma_trim_cr(w);
}

/// The queries of input split at a line break are the queries of the part before the
/// break followed by those of the part after it: each line is read on its own, and the
/// order of lines is kept.
pub proof fn lemma_parse_batch_splits(a: Seq<char>, b: Seq<char>)
    ensures
        spec_parse_batch(a + seq!['\n'] + b) == spec_parse_batch(a) + spec_parse_batch(b),
    decreases a.len(),
{
    let c = a + seq!['\n'] + b;
    lemma_line_end_bounds(a, 0);
    let e = line_end(a, 0);
    if e < a.len() {
        assert forall|k: int| 0 <= k < e implies c[k] != '\n' by {
            assert(c[k] == a[k]);
        }
        assert(c[e] == a[e]);
        lemma_line_end(c, 0, e);
        let a2 = a.subrange(e + 1, a.len() as int);
        let c2 = a2 + seq!['\n'] + b;
        assert(c.subrange(e + 1, c.len() as int) =~= c2);
        assert(c.subrange(0, e) =~= a.subrange(0, e));
        lemma_parse_batch_splits(a2, b);
        let l = strip_cr(a.subrange(0, e));
        assert(lines(c) == seq![l].add(lines(c2)));
        assert(lines(a) == seq![l].add(lines(a2)));
        lemma_parse_lines_cons(l, lines(c2));
        lemma_parse_lines_cons(l, lines(a2));
        let pa = spec_parse_lines(lines(a2));
        let pb = spec_parse_lines(lines(b));
        if let Some(q) = spec_parse_line(l) {
            assert(seq![q].add(pa + pb) =~= seq![q].add(pa) + pb);
        }
    } else {
        assert forall|k: int| 0 <= k < a.len() implies c[k] != '\n' by {
            assert(c[k] == a[k]);
        }
        lemma_line_end(c, 0, a.len() as int);
        assert(c.subrange(0, a.len() as int) =~= a);
        assert(c.subrange(a.len() as int + 1, c.len() as int) =~= b);
        let l = strip_cr(a);
        assert(lines(c) == seq![l].add(lines(b)));
        assert(spec_parse_line(l) == spec_parse_line(a)) by {
            if a.len() > 0 && a.last() == '\r' {
                assert(a.drop_last().push('\r') =~= a);
                lemma_parse_line_cr(a.drop_last());
            }
        }
        lemma_parse_lines_cons(l, lines(b));
        let pb = spec_parse_lines(lines(b));
        if a.len() == 0 {
            assert(spec_strip_numbering(a) == a);
            assert(spec_strip_trailing_comment(a) == a) by {
                assert(find(a, seq![' ', '#']) is None);
            }
            assert(trim(a).len() == 0) by {
                assert(trim_start(a).len() <= a.len()) by {
                    crate::text::lemma_trim_start_len(a);
                }
            }
            assert(spec_parse_line(a) is None);
            assert(lines(a) =~= Seq::<Seq<char>>::empty());
            assert(Seq::<BatchQueryModel>::empty() + pb =~= pb);
        } else {
            assert(lines(a) == seq![a]);
            lemma_parse_lines_cons(a, Seq::<Seq<char>>::empty());
            assert(seq![a].add(Seq::<Seq<char>>::empty()) =~= seq![a]);
            if let Some(q) = spec_parse_line(a) {
                assert(seq![q].add(pb) =~= seq![q].add(Seq::<BatchQueryModel>::empty()) + pb);
            } else {
                assert(Seq::<BatchQueryModel>::empty() + pb =~= pb);
            }
        }
    }
}

// ---------------------------------------------------------------- reading a search text back

/// `s` has a space followed by `#` at `j`: where a trailing comment starts.
pub open spec fn comment_mark_at(s: Seq<char>, j: int) -> bool {
    s[j] == ' ' && s[j + 1] == '#'
}

/// `s` holds no `" #"`.
pub open spec fn no_comment_mark(s: Seq<char>) -> bool {
    forall|j: int| 0 <= j && j + 1 < s.len() ==> !#[trigger] comment_mark_at(s, j)
}

/// The only whitespace in `s` is the plain space.
pub open spec fn plain_spaces(s: Seq<char>) -> bool {
    forall|j: int| 0 <= j < s.len() ==> (is_whitespace(#[trigger] s[j]) ==> s[j] == ' ')
}

/// `s` starts with list numbering: ASCII digits between ASCII whitespace, then `.` or `)`.
pub open spec fn has_numbering(s: Seq<char>) -> bool {
    let a = skip_ascii_ws(s, 0);
    let b = skip_ascii_digits(s, a);
    let c = skip_ascii_ws(s, b);
    b != a && c < s.len() && (s[c] == '.' || s[c] == ')')
}

/// The query that the search text of `q` is expected to read as.
pub open spec fn search_text_query(q: BatchQueryModel) -> BatchQueryModel {
    BatchQueryModel { raw: spec_search_text(q), artist: q.artist, title: q.title, url: None }
}

proof fn lemma_matches2(s: Seq<char>, p: Seq<char>, i: int)
    requires
        p.len() == 2,
    ensures
        matches_at(s, p, i) <==> (0 <= i && i + 2 <= s.len() && s[i] == p[0] && s[i + 1] == p[1]),
{
    if 0 <= i && i + 2 <= s.len() {
        if s[i] == p[0] && s[i + 1] == p[1] {
            assert(s.subrange(i, i + 2) =~= p);
        }
        if matches_at(s, p, i) {
            assert(s.subrange(i, i + 2)[0] == s[i]);
            assert(s.subrange(i, i + 2)[1] == s[i + 1]);
        }
    }
}

proof fn lemma_matches3(s: Seq<char>, p: Seq<char>, i: int)
    requires
        p.len() == 3,
    ensures
        matches_at(s, p, i) <==> (0 <= i && i + 3 <= s.len() && s[i] == p[0] && s[i + 1] == p[1]
            && s[i + 2] == p[2]),
{
    if 0 <= i && i + 3 <= s.len() {
        if s[i] == p[0] && s[i + 1] == p[1] && s[i + 2] == p[2] {
            assert(s.subrange(i, i + 3) =~= p);
        }
        if matches_at(s, p, i) {
            assert(s.subrange(i, i + 3)[0] == s[i]);
            assert(s.subrange(i, i + 3)[1] == s[i + 1]);
            assert(s.subrange(i, i + 3)[2] == s[i + 2]);
        }
    }
}

proof fn lemma_no_mark_kept(s: Seq<char>)
    requires
        no_comment_mark(s),
    ensures
        spec_strip_trailing_comment(s) == s,
{
    let p = seq![' ', '#'];
    lemma_find_first(s, p);
    if let Some(j) = find(s, p) {
        lemma_matches2(s, p, j);
        assert(comment_mark_at(s, j));
    }
}

proof fn lemma_strip_comment_no_mark(x: Seq<char>)
    ensures
        no_comment_mark(spec_strip_trailing_comment(x)),
{
    let p = seq![' ', '#'];
    lemma_find_first(x, p);
    let y = spec_strip_trailing_comment(x);
    assert forall|j: int| 0 <= j && j + 1 < y.len() implies !#[trigger] comment_mark_at(y, j) by {
        if comment_mark_at(y, j) {
            if let Some(i) = find(x, p) {
                lemma_matches2(x, p, i);
                assert(y[j] == x[j] && y[j + 1] == x[j + 1]);
            }
            lemma_matches2(x, p, j);
        }
    }
}

proof fn lemma_no_mark_subrange(s: Seq<char>, a: int, b: int)
    requires
        0 <= a <= b <= s.len(),
        no_comment_mark(s),
    ensures
        no_comment_mark(s.subrange(a, b)),
{
    let u = s.subrange(a, b);
    assert forall|j: int| 0 <= j && j + 1 < u.len() implies !#[trigger] comment_mark_at(u, j) by {
        assert(u[j] == s[a + j] && u[j + 1] == s[a + j + 1]);
        assert(!comment_mark_at(s, a + j));
    }
}

proof fn lemma_parse_lines_member(ls: Seq<Seq<char>>, k: int) -> (j: int)
    requires
        0 <= k < spec_parse_lines(ls).len(),
    ensures
        0 <= j < ls.len(),
        spec_parse_line(ls[j]) == Some(spec_parse_lines(ls)[k]),
    decreases ls.len(),
{
    let rest = ls.drop_first();
    match spec_parse_line(ls[0]) {
        Some(q) => {
            if k == 0 {
                0
            } else {
                let j1 = lemma_parse_lines_member(rest, k - 1);
                j1 + 1
            }
        },
        None => {
            let j1 = lemma_parse_lines_member(rest, k);
            j1 + 1
        },
    }
}

/// A cleaned line (trimmed, plain spaces, no comment, no numbering, not a comment line)
/// given as the whole input is read as exactly one query.
proof fn lemma_clean_line_batch(t: Seq<char>)
    requires
        t.len() > 0,
        t[0] != '#',
        !is_whitespace(t[0]),
        !is_whitespace(t.last()),
        no_comment_mark(t),
        plain_spaces(t),
        !has_numbering(t),
    ensures
        spec_parse_batch(t) == seq![spec_parse_single(t)],
{
    assert forall|k: int| 0 <= k < t.len() implies t[k] != '\n' by {
        assert(is_whitespace('\n'));
    }
    lemma_line_end(t, 0, t.len() as int);
    assert(lines(t) == seq![t]);
    assert(spec_strip_numbering(t) == t);
    lemma_no_mark_kept(t);
    lemma_trim_unchanged(t);
    assert(spec_parse_line(t) == Some(spec_parse_single(t)));
    lemma_parse_lines_cons(t, Seq::<Seq<char>>::empty());
    assert(seq![t].add(Seq::<Seq<char>>::empty()) =~= seq![t]);
    assert(seq![spec_parse_single(t)].add(Seq::<BatchQueryModel>::empty()) =~= seq![spec_parse_single(t)]);
}

/// The artist and the title of a line split at `i`: `t[0..a]` and `t[m..]`.
proof fn lemma_split_parts(t: Seq<char>, i: int) -> (r: (int, int))
    requires
        t.len() > 0,
        !is_whitespace(t[0]),
        !is_whitespace(t.last()),
        no_comment_mark(t),
        plain_spaces(t),
        0 <= i,
        i + 3 <= t.len(),
        t[i] == ' ',
        t[i + 2] == ' ',
    ensures
        1 <= r.0 <= i,
        i + 3 <= r.1 < t.len(),
        split_query(t, i).artist == t.subrange(0, r.0),
        split_query(t, i).title == t.subrange(r.1, t.len() as int),
        !is_whitespace(t[r.0 - 1]),
        t[r.0] == ' ',
        !is_whitespace(t[r.1]),
        t[r.1] != '#',
{
    let n = t.len() as int;
    let a_src = t.subrange(0, i);
    let ra = lemma_trim_at(a_src);
    assert(a_src[0] == t[0]);
    if ra.0 > 0 || ra.0 == ra.1 {
        assert(is_whitespace(a_src[0]));
    }
    let qa = ra.1;
    assert(a_src.subrange(0, qa) =~= t.subrange(0, qa));
    assert(a_src[qa - 1] == t[qa - 1]);
    if qa < i {
        assert(is_whitespace(a_src[qa]));
        assert(a_src[qa] == t[qa]);
    }
    if i + 3 == n {
        assert(t.last() == t[i + 2]);
    }
    let b_src = t.subrange(i + 3, n);
    let bl = b_src.len() as int;
    assert(b_src[bl - 1] == t.last());
    let rb = lemma_trim_at(b_src);
    if rb.1 < bl || rb.0 == rb.1 {
        assert(is_whitespace(b_src[bl - 1]));
    }
    let m = i + 3 + rb.0;
    assert(b_src.subrange(rb.0, bl) =~= t.subrange(m, n));
    assert(b_src[rb.0] == t[m]);
    assert(t[m - 1] == ' ') by {
        if rb.0 > 0 {
            assert(is_whitespace(b_src[rb.0 - 1]));
            assert(b_src[rb.0 - 1] == t[m - 1]);
        }
    }
    if t[m] == '#' {
        assert(comment_mark_at(t, m - 1));
    }
    (qa, m)
}

/// `t[0..a] + " - " + t[m..]`.
pub open spec fn joined(t: Seq<char>, a: int, m: int) -> Seq<char> {
    t.subrange(0, a) + sep_hyphen() + t.subrange(m, t.len() as int)
}

proof fn lemma_joined_at(t: Seq<char>, a: int, m: int)
    requires
        1 <= a < m < t.len(),
    ensures
        joined(t, a, m).len() == a + 3 + (t.len() - m),
        forall|k: int| 0 <= k < a ==> #[trigger] joined(t, a, m)[k] == t[k],
        joined(t, a, m)[a] == ' ',
        joined(t, a, m)[a + 1] == '-',
        joined(t, a, m)[a + 2] == ' ',
        forall|k: int| a + 3 <= k < joined(t, a, m).len() ==> #[trigger] joined(t, a, m)[k] == t[k - a - 3 + m],
        joined(t, a, m).subrange(0, a) == t.subrange(0, a),
        joined(t, a, m).subrange(a + 3, joined(t, a, m).len() as int) == t.subrange(m, t.len() as int),
{
    let st = joined(t, a, m);
    assert(st.subrange(0, a) =~= t.subrange(0, a));
    assert(st.subrange(a + 3, st.len() as int) =~= t.subrange(m, t.len() as int));
}

#[verifier::spinoff_prover]
proof fn lemma_joined_clean(t: Seq<char>, a: int, m: int)
    requires
        1 <= a < m < t.len(),
        t[0] != '#',
        !is_whitespace(t[0]),
        !is_whitespace(t.last()),
        no_comment_mark(t),
        plain_spaces(t),
        t[m] != '#',
    ensures
        joined(t, a, m)[0] != '#',
        !is_whitespace(joined(t, a, m)[0]),
        !is_whitespace(joined(t, a, m).last()),
        no_comment_mark(joined(t, a, m)),
        plain_spaces(joined(t, a, m)),
{
    let st = joined(t, a, m);
    let sl = st.len() as int;
    lemma_joined_at(t, a, m);
    assert(st[0] == t[0]);
    assert(st[sl - 1] == t[sl - 1 - a - 3 + m]);
    assert forall|j: int| 0 <= j < sl && is_whitespace(#[trigger] st[j]) implies st[j] == ' ' by {
        if j < a {
            assert(st[j] == t[j]);
        } else if j >= a + 3 {
            assert(st[j] == t[j - a - 3 + m]);
        }
    }
    assert forall|j: int| 0 <= j && j + 1 < sl implies !#[trigger] comment_mark_at(st, j) by {
        if j + 1 < a {
            assert(st[j] == t[j] && st[j + 1] == t[j + 1]);
            assert(!comment_mark_at(t, j));
        } else if j == a + 2 {
            assert(st[j + 1] == t[m]);
        } else if j >= a + 3 {
            assert(st[j] == t[j - a - 3 + m] && st[j + 1] == t[j + 1 - a - 3 + m]);
            assert(!comment_mark_at(t, j - a - 3 + m));
        }
    }
}

proof fn lemma_joined_not_url(t: Seq<char>, a: int, m: int)
    requires
        1 <= a < m < t.len(),
        !is_whitespace(t[0]),
        !spec_is_url(t),
    ensures
        !spec_is_url(joined(t, a, m)),
{
    let st = joined(t, a, m);
    lemma_joined_at(t, a, m);
    assert(trim_start(st) == st);
    assert(trim_start(t) == t);
    let h1 = seq!['h', 't', 't', 'p', ':', '/', '/'];
    let h2 = seq!['h', 't', 't', 'p', 's', ':', '/', '/'];
    if starts_with_ascii_ci(st, h1) {
        if a < 7 {
            assert(ascii_lower(st[a]) == h1[a] as u32);
        } else {
            assert forall|k: int| 0 <= k < h1.len() implies ascii_lower(#[trigger] t[k]) == h1[k] as u32 by {
                assert(st[k] == t[k]);
            }
        }
    }
    if starts_with_ascii_ci(st, h2) {
        if a < 8 {
            assert(ascii_lower(st[a]) == h2[a] as u32);
        } else {
            assert forall|k: int| 0 <= k < h2.len() implies ascii_lower(#[trigger] t[k]) == h2[k] as u32 by {
                assert(st[k] == t[k]);
            }
        }
    }
}

proof fn lemma_joined_prefix(t: Seq<char>, a: int, m: int, k: int)
    requires
        0 <= k < a <= m <= t.len(),
    ensures
        joined(t, a, m)[k] == t[k],
        joined(t, a, m)[a] == ' ',
        joined(t, a, m)[a + 1] == '-',
        joined(t, a, m)[a + 2] == ' ',
        joined(t, a, m).len() >= a + 3,
{
}

/// `" - "` at `j` in `s`.
pub open spec fn hyphen_at(s: Seq<char>, j: int) -> bool {
    s[j] == ' ' && s[j + 1] == '-' && s[j + 2] == ' '
}

proof fn lemma_first_hyphen(s: Seq<char>, a: int)
    requires
        0 <= a,
        a + 3 <= s.len(),
        hyphen_at(s, a),
        forall|j: int| 0 <= j < a ==> !#[trigger] hyphen_at(s, j),
    ensures
        find(s, sep_hyphen()) == Some(a),
{
    let sep = sep_hyphen();
    lemma_find_first(s, sep);
    lemma_matches3(s, sep, a);
    if let Some(j) = find(s, sep) {
        lemma_matches3(s, sep, j);
        if j < a {
            assert(hyphen_at(s, j));
        }
    }
}

proof fn lemma_joined_first_sep(t: Seq<char>, i: int, a: int, m: int)
    requires
        1 <= a <= i,
        i < m < t.len(),
        t[a] == ' ',
        forall|j: int| 0 <= j < i ==> !matches_at(t, sep_hyphen(), j),
    ensures
        find(joined(t, a, m), sep_hyphen()) == Some(a),
{
    let st = joined(t, a, m);
    lemma_joined_prefix(t, a, m, 0);
    assert forall|j: int| 0 <= j < a implies !#[trigger] hyphen_at(st, j) by {
        if hyphen_at(st, j) {
            lemma_joined_prefix(t, a, m, j);
            if j + 1 < a {
                lemma_joined_prefix(t, a, m, j + 1);
                if j + 2 < a {
                    lemma_joined_prefix(t, a, m, j + 2);
                }
            }
            lemma_matches3(t, sep_hyphen(), j);
            assert(matches_at(t, sep_hyphen(), j));
        }
    }
    lemma_first_hyphen(st, a);
}

#[verifier::spinoff_prover]
proof fn lemma_split_reads_back(t: Seq<char>, i: int)
    requires
        t.len() > 0,
        t[0] != '#',
        !is_whitespace(t[0]),
        !is_whitespace(t.last()),
        no_comment_mark(t),
        plain_spaces(t),
        !spec_is_url(t),
        0 <= i,
        i + 3 <= t.len(),
        t[i] == ' ',
        t[i + 2] == ' ',
        forall|j: int| 0 <= j < i ==> !matches_at(t, sep_hyphen(), j),
        !has_numbering(spec_search_text(split_query(t, i))),
    ensures
        spec_parse_batch(spec_search_text(split_query(t, i))) == seq![search_text_query(split_query(t, i))],
{
    let q = split_query(t, i);
    let r = lemma_split_parts(t, i);
    let a = r.0;
    let m = r.1;
    let st = joined(t, a, m);
    assert(spec_search_text(q) == st);
    lemma_joined_at(t, a, m);
    lemma_joined_clean(t, a, m);
    lemma_clean_line_batch(st);
    lemma_joined_not_url(t, a, m);
    lemma_joined_first_sep(t, i, a, m);
    lemma_trim_unchanged(q.artist);
    assert(q.title[0] == t[m]);
    assert(q.title.last() == t.last());
    lemma_trim_unchanged(q.title);
    assert(spec_parse_single(st) == search_text_query(q));
}

/// A query read from batch input reads back from its own search text: given the search
/// text as input, the batch is one query with the same artist and title and the search
/// text as its line.  This holds for queries that are not URLs, whose line has no
/// whitespace but plain spaces, and whose search text does not begin with numbering.
pub proof fn lemma_search_text_reads_back(input: Seq<char>, k: int)
    requires
        0 <= k < spec_parse_batch(input).len(),
        spec_parse_batch(input)[k].url is None,
        plain_spaces(spec_parse_batch(input)[k].raw),
        !has_numbering(spec_search_text(spec_parse_batch(input)[k])),
    ensures
        spec_parse_batch(spec_search_text(spec_parse_batch(input)[k])) == seq![
            search_text_query(spec_parse_batch(input)[k]),
        ],
{
    let ls = lines(input);
    let j = lemma_parse_lines_member(ls, k);
    let q = spec_parse_batch(input)[k];
    let x = spec_strip_numbering(ls[j]);
    let y = spec_strip_trailing_comment(x);
    let t = trim(y);
    assert(t.len() > 0 && t[0] != '#' && q == spec_parse_single(t));
    assert(q.raw == t);
    assert(!spec_is_url(t));
    lemma_strip_comment_no_mark(x);
    let r = lemma_trim_at(y);
    lemma_no_mark_subrange(y, r.0, r.1);
    assert(!is_whitespace(t[0]) && !is_whitespace(t.last())) by {
        assert(t[0] == y[r.0]);
        assert(t.last() == y[r.1 - 1]);
    }
    lemma_find_first(t, sep_hyphen());
    lemma_find_first(t, sep_en_dash());
    lemma_find_first(t, sep_em_dash());
    if let Some(i) = find(t, sep_hyphen()) {
        lemma_matches3(t, sep_hyphen(), i);
        lemma_split_reads_back(t, i);
    } else if let Some(i) = find(t, sep_en_dash()) {
        lemma_matches3(t, sep_en_dash(), i);
        lemma_split_reads_back(t, i);
    } else if let Some(i) = find(t, sep_em_dash()) {
        lemma_matches3(t, sep_em_dash(), i);
        lemma_split_reads_back(t, i);
    } else {
        lemma_trim_unchanged(t);
        assert(q.title == t);
        assert(spec_search_text(q) == t);
        lemma_clean_line_batch(t);
        assert(search_text_query(q) == q);
    }
}

// ---------------------------------------------------------------- implementation

fn skip_ws_from(s: &[char], i: usize) -> (j: usize)
    requires
        i <= s@.len(),
    ensures
        j == skip_ascii_ws(s@, i as int),
        i <= j <= s@.len(),
{
    let mut j = i;
    while j < s.len() && (s[j] == ' ' || s[j] == '\t' || s[j] == '\n' || s[j] == '\x0C' || s[j]
        == '\r')
        invariant
            i <= j <= s@.len(),
            skip_ascii_ws(s@, i as int) == skip_ascii_ws(s@, j as int),
        decreases s@.len() - j,
    {
        j = j + 1;
    }
    j
}

fn skip_digits_from(s: &[char], i: usize) -> (j: usize)
    requires
        i <= s@.len(),
    ensures
        j == skip_ascii_digits(s@, i as int),
        i <= j <= s@.len(),
{
    let mut j = i;
    while j < s.len() && '0' <= s[j] && s[j] <= '9'
        invariant
            i <= j <= s@.len(),
            skip_ascii_digits(s@, i as int) == skip_ascii_digits(s@, j as int),
        decreases s@.len() - j,
    {
        j = j + 1;
    }
    j
}

/// Start of the line once its numbering is removed.
fn numbering_end(s: &[char]) -> (k: usize)
    ensures
        k <= s@.len(),
        s@.subrange(k as int, s@.len() as int) == spec_strip_numbering(s@),
{
    let n = s.len();
    assert(s@.subrange(0, n as int) =~= s@);
    let a = skip_ws_from(s, 0);
    let b = skip_digits_from(s, a);
    if b == a {
        return 0;
    }
    let c = skip_ws_from(s, b);
    if c >= n || (s[c] != '.' && s[c] != ')') {
        return 0;
    }
    skip_ws_from(s, c + 1)
}

/// End of the line once a trailing `" #"` comment is removed.
fn comment_start(s: &[char]) -> (k: usize)
    ensures
        k <= s@.len(),
        s@.subrange(0, k as int) == spec_strip_trailing_comment(s@),
{
    let pat = [' ', '#'];
    assert(pat@ =~= seq![' ', '#']);
    match find_in(s, &pat) {
        Some(i) => {
            proof {
                lemma_find_from_bounds(s@, pat@, 0);
            }
            i
        },
        None => {
            assert(s@.subrange(0, s@.len() as int) =~= s@);
            s.len()
        },
    }
}

/// Leading list numbering (`1.`, `12)`) removed.
fn strip_numbering(s: &str) -> (r: String)
    ensures
        r@ == spec_strip_numbering(s@),
{
    let cs = chars_of(s);
    let k = numbering_end(cs.as_slice());
    string_from_chars(slice_subrange(cs.as_slice(), k, cs.len()))
}

/// A trailing ` #` comment removed.
fn strip_trailing_comment(s: &str) -> (r: String)
    ensures
        r@ == spec_strip_trailing_comment(s@),
{
    let cs = chars_of(s);
    let k = comment_start(cs.as_slice());
    string_from_chars(slice_subrange(cs.as_slice(), 0, k))
}

fn is_url(s: &str) -> (b: bool)
    ensures
        b == spec_is_url(s@),
{
    let cs = chars_of(s);
    let (a, _) = trim_bounds(cs.as_slice());
    let t = slice_subrange(cs.as_slice(), a, cs.len());
    let http = ['h', 't', 't', 'p', ':', '/', '/'];
    let https = ['h', 't', 't', 'p', 's', ':', '/', '/'];
    assert(http@ =~= seq!['h', 't', 't', 'p', ':', '/', '/']);
    assert(https@ =~= seq!['h', 't', 't', 'p', 's', ':', '/', '/']);
    starts_with_ci(t, &http) || starts_with_ci(t, &https)
}

fn trimmed_string(s: &[char]) -> (r: String)
    ensures
        r@ == trim(s@),
{
    let (a, b) = trim_bounds(s);
    string_from_chars(slice_subrange(s, a, b))
}

fn split_at_sep(line: &[char], i: usize) -> (q: BatchQuery)
    requires
        i + 3 <= line@.len(),
    ensures
        q@ == split_query(line@, i as int),
{
    let n = line.len();
    BatchQuery {
        raw: string_from_chars(line),
        artist: trimmed_string(slice_subrange(line, 0, i)),
        title: trimmed_string(slice_subrange(line, i + 3, n)),
        url: None,
    }
}

fn found_sep(line: &[char], sep: &[char]) -> (r: Option<usize>)
    requires
        sep@.len() == 3,
    ensures
        r matches Some(i) ==> find(line@, sep@) == Some(i as int) && i + 3 <= line@.len(),
        r is None ==> find(line@, sep@) is None,
{
    let r = find_in(line, sep);
    proof {
        lemma_find_from_bounds(line@, sep@, 0);
    }
    r
}

/// A cleaned, non-empty line read as a query.
fn parse_single(text: &str) -> (q: BatchQuery)
    ensures
        q@ == spec_parse_single(text@),
{
    let cs = chars_of(text);
    let line = cs.as_slice();
    if is_url(text) {
        return BatchQuery {
            raw: string_from_chars(line),
            artist: String::new(),
            title: String::new(),
            url: Some(string_from_chars(line)),
        };
    }
    let hyphen = [' ', '-', ' '];
    let en = [' ', '\u{2013}', ' '];
    let em = [' ', '\u{2014}', ' '];
    assert(hyphen@ =~= sep_hyphen());
    assert(en@ =~= sep_en_dash());
    assert(em@ =~= sep_em_dash());
    if let Some(i) = found_sep(line, &hyphen) {
        return split_at_sep(line, i);
    }
    if let Some(i) = found_sep(line, &en) {
        return split_at_sep(line, i);
    }
    if let Some(i) = found_sep(line, &em) {
        return split_at_sep(line, i);
    }
    BatchQuery {
        raw: string_from_chars(line),
        artist: String::new(),
        title: trimmed_string(line),
        url: None,
    }
}

/// The query a raw input line yields, if any.
fn parse_line(line: &[char]) -> (r: Option<BatchQuery>)
    ensures
        match r {
            Some(q) => spec_parse_line(line@) == Some(q@),
            None => spec_parse_line(line@) is None,
        },
{
    let raw = string_from_chars(line);
    let stripped = strip_numbering(raw.as_str());
    let no_comment = strip_trailing_comment(stripped.as_str());
    let cs = chars_of(no_comment.as_str());
    let trimmed = trimmed_string(cs.as_slice());
    let t = chars_of(trimmed.as_str());
    if t.len() == 0 || t[0] == '#' {
        return None;
    }
    Some(parse_single(trimmed.as_str()))
}

/// Parse multi-line input into queries, one per meaningful line, in input order.
pub fn parse_batch_queries(input: &str) -> (out: Vec<BatchQuery>)
    ensures
        out@.len() == spec_parse_batch(input@).len(),
        forall|i: int| 0 <= i < out@.len() ==> #[trigger] out@[i]@ == spec_parse_batch(input@)[i],
{
    let cs = chars_of(input);
    let n = cs.len();
    let mut out: Vec<BatchQuery> = Vec::new();
    let mut pos: usize = 0;
    let ghost whole = cs@;
    assert(whole.subrange(0, n as int) =~= whole);
    while pos < n
        invariant
            whole == cs@,
            cs@ == input@,
            n == cs@.len(),
            pos <= n,
            spec_parse_batch(input@) == out@.map_values(|q: BatchQuery| q@) + spec_parse_lines(
                lines(whole.subrange(pos as int, n as int)),
            ),
        decreases n - pos,
    {
        let mut e = pos;
        while e < n && cs[e] != '\n'
            invariant
                pos <= e <= n == cs@.len(),
                forall|k: int| pos <= k < e ==> cs@[k] != '\n',
            decreases n - e,
        {
            e = e + 1;
        }
        let ghost rest = whole.subrange(pos as int, n as int);
        proof {
            lemma_line_end(rest, 0, e - pos);
        }
        let le = if e < n && e > pos && cs[e - 1] == '\r' {
            e - 1
        } else {
            e
        };
        let line = slice_subrange(cs.as_slice(), pos, le);
        proof {
            if e < n {
                assert(strip_cr(rest.subrange(0, e - pos)) =~= line@);
                assert(rest.subrange(e - pos + 1, rest.len() as int) =~= whole.subrange(
                    e + 1,
                    n as int,
                ));
            } else {
                assert(rest =~= line@);
                assert(whole.subrange(n as int, n as int) =~= Seq::<char>::empty());
            }
        }
        let ghost before = out@.map_values(|q: BatchQuery| q@);
        let ghost next_pos: int = if e < n { e + 1 } else { n as int };
        let ghost tail = lines(whole.subrange(next_pos, n as int));
        let ghost ls = lines(rest);
        proof {
            assert(whole.subrange(n as int, n as int) =~= Seq::<char>::empty());
            assert(ls =~= seq![line@].add(tail));
            assert(ls.drop_first() =~= tail);
        }
        let r = parse_line(line);
        match r {
            Some(q) => {
                out.push(q);
                assert(out@.map_values(|q: BatchQuery| q@) =~= before.push(q@));
                assert(spec_parse_lines(ls) == seq![q@].add(spec_parse_lines(tail)));
                assert(before + spec_parse_lines(ls) =~= before.push(q@) + spec_parse_lines(tail));
            },
            None => {
                assert(out@.map_values(|q: BatchQuery| q@) =~= before);
                assert(spec_parse_lines(ls) == spec_parse_lines(tail));
            },
        }
        pos = if e < n {
            e + 1
        } else {
            n
        };
    }
    assert(whole.subrange(n as int, n as int) =~= Seq::<char>::empty());
    assert(out@.map_values(|q: BatchQuery| q@) + Seq::<BatchQueryModel>::empty() =~= out@.map_values(|q: BatchQuery| q@));
    out
}

// ---------------------------------------------------------------- running a batch

/// What a batch does with one query.
pub enum BatchStep {
    /// Search the source for this text.
    Search(String),
    /// A URL line is a direct link: it is taken as it is, not searched.
    Direct(String),
}

pub fn batch_step(q: &BatchQuery) -> (r: BatchStep)
    ensures
        match q@.url {
            Some(u) => r matches BatchStep::Direct(d) && d@ == u,
            None => r matches BatchStep::Search(t) && t@ == spec_search_text(q@),
        },
{
    match &q.url {
        Some(u) => BatchStep::Direct(u.clone()),
        None => BatchStep::Search(q.search_text()),
    }
}

/// Log line announcing query `num` of `total`: `[num/total] 🔎 text`.
pub open spec fn spec_batch_query_line(num: nat, total: nat, text: Seq<char>) -> Seq<char> {
    "["@ + decimal(num) + "/"@ + decimal(total) + "] 🔎 "@ + text
}

pub fn batch_query_line(num: usize, total: usize, text: &str) -> (s: String)
    ensures
        s@ == spec_batch_query_line(num as nat, total as nat, text@),
{
    let mut s = cat3("[", decimal_string(num as u64).as_str(), "/");
    s.append(decimal_string(total as u64).as_str());
    s.append("] 🔎 ");
    s.append(text);
    s
}

/// Log line for the outcome of query `num` of `total`: the number of tracks found,
/// or the error.
pub open spec fn spec_batch_outcome_line(num: nat, total: nat, found: Result<nat, Seq<char>>) -> Seq<char> {
    match found {
        Ok(n) => "  ✓ "@ + decimal(num) + "/"@ + decimal(total) + ": найдено "@ + decimal(n),
        Err(e) => "  ✗ "@ + decimal(num) + "/"@ + decimal(total) + ": "@ + e,
    }
}

pub fn batch_outcome_line(num: usize, total: usize, found: Result<usize, &str>) -> (s: String)
    ensures
        s@ == spec_batch_outcome_line(
            num as nat,
            total as nat,
            match found {
                Ok(n) => Ok::<nat, Seq<char>>(n as nat),
                Err(e) => Err::<nat, Seq<char>>(e@),
            },
        ),
{
    let mut s = owned(
        match found {
            Ok(_) => "  ✓ ",
            Err(_) => "  ✗ ",
        },
    );
    s.append(decimal_string(num as u64).as_str());
    s.append("/");
    s.append(decimal_string(total as u64).as_str());
    match found {
        Ok(n) => {
            s.append(": найдено ");
            s.append(decimal_string(n as u64).as_str());
        },
        Err(e) => {
            s.append(": ");
            s.append(e);
        },
    }
    s
}

} // verus!
