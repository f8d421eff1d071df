//! Character-level text primitives shared by the parsers: trimming, prefix and
//! substring search, ASCII classes.  Strings are modelled by their `Seq<char>` view.
use vstd::prelude::*;
use vstd::slice::slice_subrange;

verus! {

broadcast use vstd::string::group_string_axioms;

/// View of an optional string.
pub open spec fn opt_string_view(o: Option<String>) -> Option<Seq<char>> {
    match o {
        Some(s) => Some(s@),
        None => None,
    }
}

/// `char::is_whitespace`: the Unicode `White_Space` property.
pub open spec fn is_whitespace(c: char) -> bool {
    ||| ('\t' <= c && c <= '\r')
    ||| c == ' '
    ||| c == '\u{85}'
    ||| c == '\u{a0}'
    ||| c == '\u{1680}'
    ||| ('\u{2000}' <= c && c <= '\u{200a}')
    ||| c == '\u{2028}'
    ||| c == '\u{2029}'
    ||| c == '\u{202f}'
    ||| c == '\u{205f}'
    ||| c == '\u{3000}'
}

/// `u8::is_ascii_whitespace` read on a character.
pub open spec fn is_ascii_whitespace(c: char) -> bool {
    c == ' ' || c == '\t' || c == '\n' || c == '\x0C' || c == '\r'
}

/// `u8::is_ascii_digit` read on a character.
pub open spec fn is_ascii_digit(c: char) -> bool {
    '0' <= c && c <= '9'
}

/// Code point of `char::to_ascii_lowercase(c)`.
pub open spec fn ascii_lower(c: char) -> u32 {
    if 'A' <= c && c <= 'Z' {
        ((c as u32) + 32) as u32
    } else {
        c as u32
    }
}

/// `str::trim_start`.
pub open spec fn trim_start(s: Seq<char>) -> Seq<char>
    decreases s.len(),
{
    if s.len() > 0 && is_whitespace(s[0]) {
        trim_start(s.drop_first())
    } else {
        s
    }
}

/// `str::trim_end`.
pub open spec fn trim_end(s: Seq<char>) -> Seq<char>
    decreases s.len(),
{
    if s.len() > 0 && is_whitespace(s.last()) {
        trim_end(s.drop_last())
    } else {
        s
    }
}

pub proof fn lemma_trim_start_len(s: Seq<char>)
    ensures
        trim_start(s).len() <= s.len(),
        trim_start(s) == s.subrange(s.len() - trim_start(s).len(), s.len() as int),
        trim_start(s).len() > 0 ==> !is_whitespace(trim_start(s)[0]),
    decreases s.len(),
{
    if s.len() > 0 && is_whitespace(s[0]) {
        lemma_trim_start_len(s.drop_first());
        assert(trim_start(s) =~= s.subrange(s.len() - trim_start(s).len(), s.len() as int));
    } else {
        assert(s.subrange(0, s.len() as int) =~= s);
    }
}

/// `str::trim`.
pub open spec fn trim(s: Seq<char>) -> Seq<char> {
    trim_end(trim_start(s))
}

/// `pat` occurs in `s` at position `i`.
pub open spec fn matches_at(s: Seq<char>, pat: Seq<char>, i: int) -> bool {
    0 <= i && i + pat.len() <= s.len() && s.subrange(i, i + pat.len()) == pat
}

/// First occurrence of `pat` in `s` at or after `k`.
pub open spec fn find_from(s: Seq<char>, pat: Seq<char>, k: int) -> Option<int>
    decreases s.len() + 1 - k,
{
    if k < 0 || k + pat.len() > s.len() {
        None
    } else if matches_at(s, pat, k) {
        Some(k)
    } else {
        find_from(s, pat, k + 1)
    }
}

/// `str::find` with a string pattern.
pub open spec fn find(s: Seq<char>, pat: Seq<char>) -> Option<int> {
    find_from(s, pat, 0)
}

/// `s` starts with `p`, comparing `s` in ASCII lower case (`p` is lower case).
pub open spec fn starts_with_ascii_ci(s: Seq<char>, p: Seq<char>) -> bool {
    s.len() >= p.len() && forall|k: int| 0 <= k < p.len() ==> ascii_lower(#[trigger] s[k]) == p[k] as u32
}

pub proof fn lemma_find_from_bounds(s: Seq<char>, pat: Seq<char>, k: int)
    ensures
        find_from(s, pat, k) matches Some(i) ==> k <= i && matches_at(s, pat, i),
    decreases s.len() + 1 - k,
{
    if k < 0 || k + pat.len() > s.len() {
    } else if matches_at(s, pat, k) {
    } else {
        lemma_find_from_bounds(s, pat, k + 1);
    }
}

proof fn lemma_find_from_first(s: Seq<char>, pat: Seq<char>, k: int)
    requires
        0 <= k,
    ensures
        find_from(s, pat, k) matches Some(i) ==> k <= i && matches_at(s, pat, i) && forall|j: int|
            k <= j < i ==> !matches_at(s, pat, j),
        find_from(s, pat, k) is None ==> forall|j: int| k <= j ==> !matches_at(s, pat, j),
    decreases s.len() + 1 - k,
{
    if k + pat.len() > s.len() {
    } else if matches_at(s, pat, k) {
    } else {
        lemma_find_from_first(s, pat, k + 1);
    }
}

/// `find` gives the first position where the pattern occurs, and `None` only where it
/// occurs nowhere.
pub proof fn lemma_find_first(s: Seq<char>, pat: Seq<char>)
    ensures
        find(s, pat) matches Some(i) ==> matches_at(s, pat, i) && forall|j: int|
            0 <= j < i ==> !matches_at(s, pat, j),
        find(s, pat) is None ==> forall|j: int| !matches_at(s, pat, j),
{
    lemma_find_from_first(s, pat, 0);
}

proof fn lemma_trim_start_at(s: Seq<char>) -> (p: int)
    ensures
        0 <= p <= s.len(),
        trim_start(s) == s.subrange(p, s.len() as int),
        forall|k: int| 0 <= k < p ==> is_whitespace(#[trigger] s[k]),
        p < s.len() ==> !is_whitespace(s[p]),
    decreases s.len(),
{
    if s.len() > 0 && is_whitespace(s[0]) {
        let p1 = lemma_trim_start_at(s.drop_first());
        assert(s.drop_first().subrange(p1, s.len() - 1) =~= s.subrange(p1 + 1, s.len() as int));
        assert forall|k: int| 0 <= k < p1 + 1 implies is_whitespace(#[trigger] s[k]) by {
            if k > 0 {
                assert(s[k] == s.drop_first()[k - 1]);
            }
        }
        p1 + 1
    } else {
        assert(s.subrange(0, s.len() as int) =~= s);
        0
    }
}

proof fn lemma_trim_end_at(s: Seq<char>) -> (q: int)
    ensures
        0 <= q <= s.len(),
        trim_end(s) == s.subrange(0, q),
        forall|k: int| q <= k < s.len() ==> is_whitespace(#[trigger] s[k]),
        q > 0 ==> !is_whitespace(s[q - 1]),
    decreases s.len(),
{
    if s.len() > 0 && is_whitespace(s.last()) {
        let q1 = lemma_trim_end_at(s.drop_last());
        assert(s.drop_last().subrange(0, q1) =~= s.subrange(0, q1));
        assert forall|k: int| q1 <= k < s.len() implies is_whitespace(#[trigger] s[k]) by {
            if k < s.len() - 1 {
                assert(s[k] == s.drop_last()[k]);
            }
        }
        q1
    } else {
        assert(s.subrange(0, s.len() as int) =~= s);
        s.len() as int
    }
}

/// `trim` keeps a stretch `s[a..b]`: all it drops at either end is whitespace, and a
/// non-empty result starts and ends with a character that is not whitespace.
pub proof fn lemma_trim_at(s: Seq<char>) -> (r: (int, int))
    ensures
        0 <= r.0 <= r.1 <= s.len(),
        trim(s) == s.subrange(r.0, r.1),
        forall|k: int| 0 <= k < r.0 ==> is_whitespace(#[trigger] s[k]),
        forall|k: int| r.1 <= k < s.len() ==> is_whitespace(#[trigger] s[k]),
        r.0 < r.1 ==> !is_whitespace(s[r.0]) && !is_whitespace(s[r.1 - 1]),
{
    let p = lemma_trim_start_at(s);
    let u = s.subrange(p, s.len() as int);
    let q = lemma_trim_end_at(u);
    assert(u.subrange(0, q) =~= s.subrange(p, p + q));
    assert forall|k: int| p + q <= k < s.len() implies is_whitespace(#[trigger] s[k]) by {
        assert(s[k] == u[k - p]);
    }
    if q > 0 {
        assert(s[p + q - 1] == u[q - 1]);
    }
    (p, p + q)
}

/// A string that is empty, or starts and ends with a non-whitespace character, is its
/// own trim.
pub proof fn lemma_trim_unchanged(s: Seq<char>)
    requires
        s.len() > 0 ==> !is_whitespace(s[0]) && !is_whitespace(s.last()),
    ensures
        trim(s) == s,
        trim_start(s) == s,
{
    let r = lemma_trim_at(s);
    if s.len() > 0 {
        if r.0 > 0 {
            assert(is_whitespace(s[0]));
        }
        if r.1 < s.len() {
            assert(is_whitespace(s[s.len() - 1]));
        }
    }
    assert(s.subrange(0, s.len() as int) =~= s);
}

/// Collects the characters of `s` into a vector.
pub fn chars_of(s: &str) -> (v: Vec<char>)
    ensures
        v@ == s@,
{
    let mut v: Vec<char> = Vec::new();
    for c in it: s.chars()
        invariant
            v@ == it.seq().take(it.index() as int),
    {
        v.push(c);
    }
    v
}

/// `String` made of the characters of `cs`, in order (std's `FromIterator<&char>` for `String`).
#[verifier::external_body]
pub(crate) fn string_from_chars(cs: &[char]) -> (s: String)
    ensures
        s@ == cs@,
{
    cs.iter().collect()
}

pub fn is_whitespace_char(c: char) -> (b: bool)
    ensures
        b == is_whitespace(c),
{
    ('\t' <= c && c <= '\r') || c == ' ' || c == '\u{85}' || c == '\u{a0}' || c == '\u{1680}'
        || ('\u{2000}' <= c && c <= '\u{200a}') || c == '\u{2028}' || c == '\u{2029}'
        || c == '\u{202f}' || c == '\u{205f}' || c == '\u{3000}'
}

/// Bounds `(a, b)` such that `s[a..b]` is `s` trimmed.
pub fn trim_bounds(s: &[char]) -> (r: (usize, usize))
    ensures
        r.0 <= r.1 <= s@.len(),
        s@.subrange(r.0 as int, r.1 as int) == trim(s@),
        s@.subrange(r.0 as int, s@.len() as int) == trim_start(s@),
{
    let n = s.len();
    let mut a: usize = 0;
    assert(s@.subrange(0, n as int) =~= s@);
    while a < n && is_whitespace_char(s[a])
        invariant
            a <= n == s@.len(),
            trim_start(s@) == trim_start(s@.subrange(a as int, n as int)),
        decreases n - a,
    {
        let ghost t = s@.subrange(a as int, n as int);
        assert(t.drop_first() =~= s@.subrange(a + 1, n as int));
        a = a + 1;
    }
    let ghost ts = s@.subrange(a as int, n as int);
    assert(trim_start(ts) == ts);
    let mut b: usize = n;
    while b > a && is_whitespace_char(s[b - 1])
        invariant
            a <= b <= n == s@.len(),
            trim(s@) == trim_end(s@.subrange(a as int, b as int)),
            trim_start(s@) == ts,
        decreases b,
    {
        let ghost t = s@.subrange(a as int, b as int);
        assert(t.drop_last() =~= s@.subrange(a as int, b - 1));
        b = b - 1;
    }
    (a, b)
}

/// First position of `pat` in `s`.
pub fn find_in(s: &[char], pat: &[char]) -> (r: Option<usize>)
    ensures
        r matches Some(i) ==> find(s@, pat@) == Some(i as int),
        r is None ==> find(s@, pat@) is None,
{
    let n = s.len();
    let m = pat.len();
    if m > n {
        return None;
    }
    let mut k: usize = 0;
    while k <= n - m
        invariant
            n == s@.len(),
            m == pat@.len(),
            m <= n,
            find(s@, pat@) == find_from(s@, pat@, k as int),
        decreases n - k,
    {
        let mut t: usize = 0;
        while t < m && s[k + t] == pat[t]
            invariant
                k + m <= n == s@.len(),
                m == pat@.len(),
                t <= m,
                forall|u: int| 0 <= u < t ==> s@[k + u] == pat@[u],
            decreases m - t,
        {
            t = t + 1;
        }
        if t == m {
            assert(s@.subrange(k as int, k + m) =~= pat@);
            return Some(k);
        }
        assert(!matches_at(s@, pat@, k as int)) by {
            if s@.subrange(k as int, k + m) == pat@ {
                assert(s@.subrange(k as int, k + m)[t as int] == s@[k + t]);
            }
        }
        k = k + 1;
    }
    None
}

/// `s` starts with `p` when read in ASCII lower case.
pub fn starts_with_ci(s: &[char], p: &[char]) -> (b: bool)
    ensures
        b == starts_with_ascii_ci(s@, p@),
{
    if s.len() < p.len() {
        return false;
    }
    let mut k: usize = 0;
    while k < p.len()
        invariant
            p@.len() <= s@.len(),
            k <= p@.len(),
            forall|u: int| 0 <= u < k ==> ascii_lower(#[trigger] s@[u]) == p@[u] as u32,
        decreases p@.len() - k,
    {
        let c = s[k];
        let lc_eq = if 'A' <= c && c <= 'Z' {
            (c as u32) + 32 == (p[k] as u32)
        } else {
            (c as u32) == (p[k] as u32)
        };
        if !lc_eq {
            return false;
        }
        k = k + 1;
    }
    true
}

/// The decimal digit `d` (0..9) as a character.
pub open spec fn digit_char(d: int) -> char {
    if d == 0 {
        '0'
    } else if d == 1 {
        '1'
    } else if d == 2 {
        '2'
    } else if d == 3 {
        '3'
    } else if d == 4 {
        '4'
    } else if d == 5 {
        '5'
    } else if d == 6 {
        '6'
    } else if d == 7 {
        '7'
    } else if d == 8 {
        '8'
    } else {
        '9'
    }
}

/// Decimal notation of `n`, as `{}` formats an unsigned integer.
pub open spec fn decimal(n: nat) -> Seq<char>
    decreases n,
{
    if n < 10 {
        seq![digit_char(n as int)]
    } else {
        decimal(n / 10).push(digit_char((n % 10) as int))
    }
}

/// Two-digit zero-padded decimal notation (`{:02}`).
pub open spec fn decimal_pad2(n: nat) -> Seq<char> {
    if n < 10 {
        seq!['0'].add(decimal(n))
    } else {
        decimal(n)
    }
}

pub fn digit_of(d: u64) -> (c: char)
    requires
        d < 10,
    ensures
        c == digit_char(d as int),
{
    if d == 0 {
        '0'
    } else if d == 1 {
        '1'
    } else if d == 2 {
        '2'
    } else if d == 3 {
        '3'
    } else if d == 4 {
        '4'
    } else if d == 5 {
        '5'
    } else if d == 6 {
        '6'
    } else if d == 7 {
        '7'
    } else if d == 8 {
        '8'
    } else {
        '9'
    }
}

fn push_decimal(n: u64, out: &mut Vec<char>)
    ensures
        final(out)@ == old(out)@ + decimal(n as nat),
    decreases n,
{
    if n < 10 {
        out.push(digit_of(n));
        assert(decimal(n as nat) =~= seq![digit_char(n as int)]);
    } else {
        push_decimal(n / 10, out);
        out.push(digit_of(n % 10));
    }
}

/// `n` formatted with `{}`.
pub fn decimal_string(n: u64) -> (s: String)
    ensures
        s@ == decimal(n as nat),
{
    let mut v: Vec<char> = Vec::new();
    push_decimal(n, &mut v);
    assert(v@ =~= decimal(n as nat));
    string_from_chars(v.as_slice())
}

/// `n` formatted with `{:02}`.
pub fn decimal_pad2_string(n: u64) -> (s: String)
    ensures
        s@ == decimal_pad2(n as nat),
{
    let mut v: Vec<char> = Vec::new();
    if n < 10 {
        v.push('0');
    }
    push_decimal(n, &mut v);
    assert(v@ =~= decimal_pad2(n as nat));
    string_from_chars(v.as_slice())
}

/// `hay` contains `pat` (`str::contains`).
pub open spec fn contains(hay: Seq<char>, pat: Seq<char>) -> bool {
    find(hay, pat) is Some
}

/// `str::contains` on two strings.
pub fn str_contains(hay: &str, pat: &str) -> (b: bool)
    ensures
        b == contains(hay@, pat@),
{
    let h = chars_of(hay);
    let p = chars_of(pat);
    find_in(h.as_slice(), p.as_slice()).is_some()
}

/// `s` begins with `p` (`str::starts_with`).
pub open spec fn starts_with(s: Seq<char>, p: Seq<char>) -> bool {
    p.len() <= s.len() && s.subrange(0, p.len() as int) == p
}

/// `s` ends with `p` (`str::ends_with`).
pub open spec fn ends_with(s: Seq<char>, p: Seq<char>) -> bool {
    p.len() <= s.len() && s.subrange(s.len() - p.len(), s.len() as int) == p
}

pub fn slice_starts_with(s: &[char], p: &[char]) -> (b: bool)
    ensures
        b == starts_with(s@, p@),
{
    if p.len() > s.len() {
        return false;
    }
    let mut k: usize = 0;
    while k < p.len()
        invariant
            p@.len() <= s@.len(),
            k <= p@.len(),
            forall|u: int| 0 <= u < k ==> s@[u] == p@[u],
        decreases p@.len() - k,
    {
        if s[k] != p[k] {
            assert(s@.subrange(0, p@.len() as int)[k as int] != p@[k as int]);
            return false;
        }
        k = k + 1;
    }
    assert(s@.subrange(0, p@.len() as int) =~= p@);
    true
}

pub fn slice_ends_with(s: &[char], p: &[char]) -> (b: bool)
    ensures
        b == ends_with(s@, p@),
{
    if p.len() > s.len() {
        return false;
    }
    let off = s.len() - p.len();
    let mut k: usize = 0;
    while k < p.len()
        invariant
            p@.len() <= s@.len(),
            off == s@.len() - p@.len(),
            s@.len() <= usize::MAX,
            k <= p@.len(),
            forall|u: int| 0 <= u < k ==> s@[off + u] == p@[u],
        decreases p@.len() - k,
    {
        if s[off + k] != p[k] {
            assert(s@.subrange(off as int, s@.len() as int)[k as int] != p@[k as int]);
            return false;
        }
        k = k + 1;
    }
    assert(s@.subrange(off as int, s@.len() as int) =~= p@);
    true
}

/// `str::starts_with` on two strings.
pub fn str_starts_with(s: &str, p: &str) -> (b: bool)
    ensures
        b == starts_with(s@, p@),
{
    let a = chars_of(s);
    let b = chars_of(p);
    slice_starts_with(a.as_slice(), b.as_slice())
}

/// `str::ends_with` on two strings.
pub fn str_ends_with(s: &str, p: &str) -> (b: bool)
    ensures
        b == ends_with(s@, p@),
{
    let a = chars_of(s);
    let b = chars_of(p);
    slice_ends_with(a.as_slice(), b.as_slice())
}

/// `str::to_lowercase`: Unicode lower-case mapping of every character.
pub uninterp spec fn spec_to_lowercase(s: Seq<char>) -> Seq<char>;

/// `str::to_lowercase` of std.  Its result is a function of `s` alone (the Unicode
/// case tables), named [`spec_to_lowercase`]; what that mapping is, is not stated.
#[verifier::external_body]
pub fn to_lowercase(s: &str) -> (r: String)
    ensures
        r@ == spec_to_lowercase(s@),
{
    s.to_lowercase()
}

/// `String` holding the characters of `s` (`str::to_string`).
pub fn owned(s: &str) -> (r: String)
    ensures
        r@ == s@,
{
    s.to_owned()
}

/// Index of the first `'\n'` at or after `i`, or `s.len()`.
pub open spec fn line_end(s: Seq<char>, i: int) -> int
    decreases s.len() - i,
{
    if i < 0 || i >= s.len() {
        s.len() as int
    } else if s[i] == '\n' {
        i
    } else {
        line_end(s, i + 1)
    }
}

pub proof fn lemma_line_end(s: Seq<char>, i: int, m: int)
    requires
        0 <= i <= m <= s.len(),
        forall|k: int| i <= k < m ==> s[k] != '\n',
        m == s.len() || s[m] == '\n',
    ensures
        line_end(s, i) == m,
    decreases m - i,
{
    if i < m {
        lemma_line_end(s, i + 1, m);
    }
}

/// One `'\r'` removed from the end, if there is one.
pub open spec fn strip_cr(s: Seq<char>) -> Seq<char> {
    if s.len() > 0 && s.last() == '\r' {
        s.drop_last()
    } else {
        s
    }
}

/// `str::lines`: split at `'\n'` (a `'\r'` before it is dropped); no trailing empty line.
pub open spec fn lines(s: Seq<char>) -> Seq<Seq<char>>
    decreases s.len(),
{
    if s.len() == 0 {
        seq![]
    } else {
        let e = line_end(s, 0);
        if 0 <= e < s.len() {
            seq![strip_cr(s.subrange(0, e))].add(lines(s.subrange(e + 1, s.len() as int)))
        } else {
            seq![s]
        }
    }
}


/// The lines of `cs` (as [`lines`] splits them), each as a vector of characters.
pub fn lines_of(cs: &[char]) -> (v: Vec<Vec<char>>)
    ensures
        v@.len() == lines(cs@).len(),
        forall|i: int| 0 <= i < v@.len() ==> #[trigger] v@[i]@ == lines(cs@)[i],
{
    let n = cs.len();
    let mut out: Vec<Vec<char>> = Vec::new();
    let mut pos: usize = 0;
    let ghost whole = cs@;
    assert(whole.subrange(0, n as int) =~= whole);
    while pos < n
        invariant
            whole == cs@,
            n == cs@.len(),
            pos <= n,
            lines(whole) == out@.map_values(|l: Vec<char>| l@) + lines(
                whole.subrange(pos as int, n as int),
            ),
        decreases n - pos,
    {
        let mut e = pos;
        while e < n && cs[e] != '\n'
            invariant
                pos <= e <= n == cs@.len(),
                forall|k: int| pos <= k < e ==> cs@[k] != '\n',
            decreases n - e,
        {
            e = e + 1;
        }
        let ghost rest = whole.subrange(pos as int, n as int);
        proof {
            lemma_line_end(rest, 0, e - pos);
        }
        let le = if e < n && e > pos && cs[e - 1] == '\r' {
            e - 1
        } else {
            e
        };
        let line = vstd::slice::slice_subrange(cs, pos, le);
        let ghost next_pos: int = if e < n { e + 1 } else { n as int };
        let ghost tail = lines(whole.subrange(next_pos, n as int));
        proof {
            if e < n {
                assert(strip_cr(rest.subrange(0, e - pos)) =~= line@);
                assert(rest.subrange(e - pos + 1, rest.len() as int) =~= whole.subrange(
                    e + 1,
                    n as int,
                ));
            } else {
                assert(rest =~= line@);
            }
            assert(whole.subrange(n as int, n as int) =~= Seq::<char>::empty());
            assert(lines(rest) =~= seq![line@].add(tail));
        }
        let ghost before = out@.map_values(|l: Vec<char>| l@);
        let lv = vstd::slice::slice_to_vec(line);
        out.push(lv);
        assert(out@.map_values(|l: Vec<char>| l@) =~= before.push(line@));
        assert(before + lines(rest) =~= before.push(line@) + tail);
        pos = if e < n {
            e + 1
        } else {
            n
        };
    }
    assert(whole.subrange(n as int, n as int) =~= Seq::<char>::empty());
    assert(out@.map_values(|l: Vec<char>| l@) + Seq::<Seq<char>>::empty() =~= out@.map_values(
        |l: Vec<char>| l@,
    ));
    out
}

} // verus!
