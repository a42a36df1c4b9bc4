//! Character-level text model shared by the output parsers.
//!
//! Every operation here works on a sequence of Unicode scalar values and is
//! specified by an `open spec fn` over `Seq<char>`; the executable versions
//! are proved equal to those definitions.
use vstd::prelude::*;

verus! {

// ---------------------------------------------------------------------------
// Single characters
// ---------------------------------------------------------------------------

/// The Unicode `White_Space` property, which `char::is_whitespace` tests.
pub open spec fn is_ws(c: char) -> bool {
    ||| ('\t' <= c && c <= '\r')
    ||| c == ' '
    ||| c == '\u{85}'
    ||| c == '\u{a0}'
    ||| c == '\u{1680}'
    ||| ('\u{2000}' <= c && c <= '\u{200a}')
    ||| c == '\u{2028}'
    ||| c == '\u{2029}'
    ||| c == '\u{202f}'
    ||| c == '\u{205f}'
    ||| c == '\u{3000}'
}

pub fn is_whitespace(c: char) -> (b: bool)
    ensures
        b == is_ws(c),
{
    ('\t' <= c && c <= '\r') || c == ' ' || c == '\u{85}' || c == '\u{a0}' || c == '\u{1680}'
        || ('\u{2000}' <= c && c <= '\u{200a}') || c == '\u{2028}' || c == '\u{2029}' || c
        == '\u{202f}' || c == '\u{205f}' || c == '\u{3000}'
}

/// ASCII upper-casing of one character (`char::to_ascii_uppercase`).
pub open spec fn ascii_upper(c: char) -> char {
    if 'a' <= c && c <= 'z' {
        ((c as u32) - 32) as char
    } else {
        c
    }
}

/// ASCII lower-casing of one character (`char::to_ascii_lowercase`).
pub open spec fn ascii_lower(c: char) -> char {
    if 'A' <= c && c <= 'Z' {
        ((c as u32) + 32) as char
    } else {
        c
    }
}

pub fn to_ascii_upper(c: char) -> (r: char)
    ensures
        r == ascii_upper(c),
{
    if 'a' <= c && c <= 'z' {
        ((c as u8) - 32) as char
    } else {
        c
    }
}

pub fn to_ascii_lower(c: char) -> (r: char)
    ensures
        r == ascii_lower(c),
{
    if 'A' <= c && c <= 'Z' {
        ((c as u8) + 32) as char
    } else {
        c
    }
}

/// Number of bytes in the UTF-8 encoding of `c`.
pub open spec fn char_width(c: char) -> nat {
    if (c as u32) < 0x80 {
        1
    } else if (c as u32) < 0x800 {
        2
    } else if (c as u32) < 0x10000 {
        3
    } else {
        4
    }
}

pub fn utf8_width(c: char) -> (w: usize)
    ensures
        w == char_width(c),
{
    let v = c as u32;
    if v < 0x80 {
        1
    } else if v < 0x800 {
        2
    } else if v < 0x10000 {
        3
    } else {
        4
    }
}

/// The character sequences held by a vector of character vectors.
pub open spec fn views(v: Seq<Vec<char>>) -> Seq<Seq<char>> {
    v.map_values(|x: Vec<char>| x@)
}

// ---------------------------------------------------------------------------
// Sequences: copying and comparing
// ---------------------------------------------------------------------------

pub fn str_to_chars(s: &str) -> (r: Vec<char>)
    ensures
        r@ == s@,
{
    let mut r: Vec<char> = Vec::new();
    for c in it: s.chars()
        invariant
            r@ == it.seq().take(it.index() as int),
            it.seq() == s@,
    {
        r.push(c);
    }
    r
}

/// `String` holding the characters of `v` (`Iterator::collect`).
#[verifier::external_body]
pub(crate) fn chars_to_string(v: &Vec<char>) -> (s: String)
    ensures
        s@ == v@,
{
    v.iter().collect()
}

pub fn sub_chars(s: &Vec<char>, a: usize, b: usize) -> (r: Vec<char>)
    requires
        a <= b <= s.len(),
    ensures
        r@ == s@.subrange(a as int, b as int),
{
    let mut r: Vec<char> = Vec::new();
    let mut i = a;
    while i < b
        invariant
            a <= i <= b <= s.len(),
            r@ == s@.subrange(a as int, i as int),
        decreases b - i,
    {
        r.push(s[i]);
        i = i + 1;
        assert(r@ =~= s@.subrange(a as int, i as int));
    }
    r
}

pub fn chars_eq(a: &Vec<char>, b: &Vec<char>) -> (r: bool)
    ensures
        r == (a@ == b@),
{
    if a.len() != b.len() {
        return false;
    }
    let mut i: usize = 0;
    while i < a.len()
        invariant
            a.len() == b.len(),
            i <= a.len(),
            forall|j: int| 0 <= j < i ==> a@[j] == b@[j],
        decreases a.len() - i,
    {
        if a[i] != b[i] {
            return false;
        }
        i = i + 1;
    }
    assert(a@ =~= b@);
    true
}

pub open spec fn seq_contains_char(s: Seq<char>, c: char) -> bool {
    exists|i: int| 0 <= i < s.len() && s[i] == c
}

pub fn contains_char(s: &Vec<char>, c: char) -> (r: bool)
    ensures
        r == seq_contains_char(s@, c),
{
    let mut i: usize = 0;
    while i < s.len()
        invariant
            i <= s.len(),
            forall|j: int| 0 <= j < i ==> s@[j] != c,
        decreases s.len() - i,
    {
        if s[i] == c {
            return true;
        }
        i = i + 1;
    }
    false
}

pub open spec fn starts_with(s: Seq<char>, p: Seq<char>) -> bool {
    p.len() <= s.len() && s.take(p.len() as int) == p
}

pub fn has_prefix(s: &Vec<char>, p: &Vec<char>) -> (r: bool)
    ensures
        r == starts_with(s@, p@),
{
    if p.len() > s.len() {
        return false;
    }
    let mut i: usize = 0;
    while i < p.len()
        invariant
            p.len() <= s.len(),
            i <= p.len(),
            forall|j: int| 0 <= j < i ==> s@[j] == p@[j],
        decreases p.len() - i,
    {
        if s[i] != p[i] {
            assert(s@.take(p.len() as int)[i as int] != p@[i as int]);
            return false;
        }
        i = i + 1;
    }
    assert(s@.take(p.len() as int) =~= p@);
    true
}

/// Upper-cases the ASCII letters of a sequence (`str::to_ascii_uppercase`).
pub open spec fn upper_seq(s: Seq<char>) -> Seq<char> {
    s.map_values(|c: char| ascii_upper(c))
}

pub fn to_upper_chars(s: &Vec<char>) -> (r: Vec<char>)
    ensures
        r@ == upper_seq(s@),
{
    let mut r: Vec<char> = Vec::new();
    let mut i: usize = 0;
    while i < s.len()
        invariant
            i <= s.len(),
            r@ == upper_seq(s@.take(i as int)),
        decreases s.len() - i,
    {
        r.push(to_ascii_upper(s[i]));
        i = i + 1;
        assert(r@ =~= upper_seq(s@.take(i as int)));
    }
    assert(s@.take(s.len() as int) =~= s@);
    r
}

/// ASCII case-insensitive equality (`str::eq_ignore_ascii_case`).
pub open spec fn eq_ignore_case(a: Seq<char>, b: Seq<char>) -> bool {
    a.len() == b.len() && forall|i: int| 0 <= i < a.len() ==> ascii_lower(a[i]) == ascii_lower(b[i])
}

pub fn eq_ignore_ascii_case(a: &Vec<char>, b: &Vec<char>) -> (r: bool)
    ensures
        r == eq_ignore_case(a@, b@),
{
    if a.len() != b.len() {
        return false;
    }
    let mut i: usize = 0;
    while i < a.len()
        invariant
            a.len() == b.len(),
            i <= a.len(),
            forall|j: int| 0 <= j < i ==> ascii_lower(a@[j]) == ascii_lower(b@[j]),
        decreases a.len() - i,
    {
        if to_ascii_lower(a[i]) != to_ascii_lower(b[i]) {
            return false;
        }
        i = i + 1;
    }
    true
}

// ---------------------------------------------------------------------------
// Trimming
// ---------------------------------------------------------------------------

/// Index of the first non-whitespace character at or after `i` (or `s.len()`).
pub open spec fn skip_ws_from(s: Seq<char>, i: int) -> int
    decreases s.len() - i,
{
    if i < 0 || i >= s.len() {
        i
    } else if is_ws(s[i]) {
        skip_ws_from(s, i + 1)
    } else {
        i
    }
}

/// Index of the first whitespace character at or after `i` (or `s.len()`).
pub open spec fn first_ws_from(s: Seq<char>, i: int) -> int
    decreases s.len() - i,
{
    if i < 0 || i >= s.len() {
        i
    } else if is_ws(s[i]) {
        i
    } else {
        first_ws_from(s, i + 1)
    }
}

/// Length of `s.take(j)` once trailing whitespace is removed.
pub open spec fn trim_end_len(s: Seq<char>, j: int) -> int
    decreases j,
{
    if j <= 0 || j > s.len() {
        if j <= 0 { 0 } else { j }
    } else if is_ws(s[j - 1]) {
        trim_end_len(s, j - 1)
    } else {
        j
    }
}

/// `str::trim_start`.
pub open spec fn trim_start(s: Seq<char>) -> Seq<char> {
    s.subrange(skip_ws_from(s, 0), s.len() as int)
}

/// `str::trim_end`.
pub open spec fn trim_end(s: Seq<char>) -> Seq<char> {
    s.take(trim_end_len(s, s.len() as int))
}

/// `str::trim`.
pub open spec fn trim(s: Seq<char>) -> Seq<char> {
    trim_end(trim_start(s))
}

pub proof fn lemma_skip_ws_from_bounds(s: Seq<char>, i: int)
    requires
        0 <= i <= s.len(),
    ensures
        i <= skip_ws_from(s, i) <= s.len(),
        skip_ws_from(s, i) < s.len() ==> !is_ws(s[skip_ws_from(s, i)]),
        forall|j: int| i <= j < skip_ws_from(s, i) ==> is_ws(#[trigger] s[j]),
    decreases s.len() - i,
{
    if i < s.len() && is_ws(s[i]) {
        lemma_skip_ws_from_bounds(s, i + 1);
    }
}

pub proof fn lemma_first_ws_from_bounds(s: Seq<char>, i: int)
    requires
        0 <= i <= s.len(),
    ensures
        i <= first_ws_from(s, i) <= s.len(),
        first_ws_from(s, i) < s.len() ==> is_ws(s[first_ws_from(s, i)]),
        forall|j: int| i <= j < first_ws_from(s, i) ==> !is_ws(#[trigger] s[j]),
    decreases s.len() - i,
{
    if i < s.len() && !is_ws(s[i]) {
        lemma_first_ws_from_bounds(s, i + 1);
    }
}

pub proof fn lemma_trim_end_len_bounds(s: Seq<char>, j: int)
    requires
        0 <= j <= s.len(),
    ensures
        0 <= trim_end_len(s, j) <= j,
        trim_end_len(s, j) > 0 ==> !is_ws(s[trim_end_len(s, j) - 1]),
        forall|k: int| trim_end_len(s, j) <= k < j ==> is_ws(#[trigger] s[k]),
    decreases j,
{
    if j > 0 && is_ws(s[j - 1]) {
        lemma_trim_end_len_bounds(s, j - 1);
    }
}

/// Text that neither starts nor ends with whitespace is its own trim.
pub proof fn lemma_trim_unchanged(s: Seq<char>)
    requires
        s.len() > 0,
        !is_ws(s[0]),
        !is_ws(s.last()),
    ensures
        trim(s) == s,
{
    assert(skip_ws_from(s, 0) == 0);
    assert(trim_start(s) =~= s);
    assert(trim_end_len(s, s.len() as int) == s.len());
    assert(trim_end(s) =~= s);
}

/// Trimmed text that is not empty has a first whitespace-separated field.
pub proof fn lemma_trim_has_field(s: Seq<char>)
    requires
        trim(s).len() > 0,
    ensures
        split_ws(trim(s)).len() > 0,
{
    let u = trim_start(s);
    let t = trim(s);
    lemma_skip_ws_from_bounds(s, 0);
    lemma_trim_end_len_bounds(u, u.len() as int);
    assert(u.len() > 0);
    assert(!is_ws(u[0]));
    assert(t[0] == u[0]);
    assert(skip_ws_from(t, 0) == 0);
}

pub fn skip_ws(s: &Vec<char>, i: usize) -> (r: usize)
    requires
        i <= s.len(),
    ensures
        r == skip_ws_from(s@, i as int),
{
    let mut k = i;
    while k < s.len() && is_whitespace(s[k])
        invariant
            i <= k <= s.len(),
            skip_ws_from(s@, i as int) == skip_ws_from(s@, k as int),
        decreases s.len() - k,
    {
        k = k + 1;
    }
    k
}

pub fn find_ws(s: &Vec<char>, i: usize) -> (r: usize)
    requires
        i <= s.len(),
    ensures
        r == first_ws_from(s@, i as int),
{
    let mut k = i;
    while k < s.len() && !is_whitespace(s[k])
        invariant
            i <= k <= s.len(),
            first_ws_from(s@, i as int) == first_ws_from(s@, k as int),
        decreases s.len() - k,
    {
        k = k + 1;
    }
    k
}

pub fn trim_start_chars(s: &Vec<char>) -> (r: Vec<char>)
    ensures
        r@ == trim_start(s@),
{
    let a = skip_ws(s, 0);
    proof {
        lemma_skip_ws_from_bounds(s@, 0);
    }
    sub_chars(s, a, s.len())
}

pub fn trim_end_chars(s: &Vec<char>) -> (r: Vec<char>)
    ensures
        r@ == trim_end(s@),
{
    let mut j = s.len();
    while j > 0 && is_whitespace(s[j - 1])
        invariant
            j <= s.len(),
            trim_end_len(s@, s.len() as int) == trim_end_len(s@, j as int),
        decreases j,
    {
        j = j - 1;
    }
    sub_chars(s, 0, j)
}

pub fn trim_chars(s: &Vec<char>) -> (r: Vec<char>)
    ensures
        r@ == trim(s@),
{
    let t = trim_start_chars(s);
    trim_end_chars(&t)
}

/// Removes every leading `'*'` (`str::trim_start_matches('*')`).
pub open spec fn skip_stars_from(s: Seq<char>, i: int) -> int
    decreases s.len() - i,
{
    if i < 0 || i >= s.len() {
        i
    } else if s[i] == '*' {
        skip_stars_from(s, i + 1)
    } else {
        i
    }
}

pub open spec fn trim_stars(s: Seq<char>) -> Seq<char> {
    s.subrange(skip_stars_from(s, 0), s.len() as int)
}

pub proof fn lemma_skip_stars_from_bounds(s: Seq<char>, i: int)
    requires
        0 <= i <= s.len(),
    ensures
        i <= skip_stars_from(s, i) <= s.len(),
    decreases s.len() - i,
{
    if i < s.len() && s[i] == '*' {
        lemma_skip_stars_from_bounds(s, i + 1);
    }
}

pub fn trim_stars_chars(s: &Vec<char>) -> (r: Vec<char>)
    ensures
        r@ == trim_stars(s@),
{
    let mut k: usize = 0;
    while k < s.len() && s[k] == '*'
        invariant
            k <= s.len(),
            skip_stars_from(s@, 0) == skip_stars_from(s@, k as int),
        decreases s.len() - k,
    {
        k = k + 1;
    }
    sub_chars(s, k, s.len())
}

// ---------------------------------------------------------------------------
// Splitting
// ---------------------------------------------------------------------------

/// Whitespace-separated tokens of `s` from index `i` on (`str::split_whitespace`).
pub open spec fn split_ws_from(s: Seq<char>, i: int) -> Seq<Seq<char>>
    decreases s.len() - i,
{
    if i < 0 || i > s.len() {
        seq![]
    } else {
        let a = skip_ws_from(s, i);
        if a >= s.len() {
            seq![]
        } else {
            let b = first_ws_from(s, a);
            proof {
                lemma_skip_ws_from_bounds(s, i);
                lemma_first_ws_from_bounds(s, a);
                lemma_first_ws_from_bounds(s, a + 1);
            }
            seq![s.subrange(a, b)] + split_ws_from(s, b)
        }
    }
}

pub open spec fn split_ws(s: Seq<char>) -> Seq<Seq<char>> {
    split_ws_from(s, 0)
}

pub proof fn lemma_split_ws_tokens_nonempty(s: Seq<char>, i: int)
    requires
        0 <= i <= s.len(),
    ensures
        forall|k: int|
            0 <= k < split_ws_from(s, i).len() ==> #[trigger] split_ws_from(s, i)[k].len() > 0,
    decreases s.len() - i,
{
    let a = skip_ws_from(s, i);
    lemma_skip_ws_from_bounds(s, i);
    if a < s.len() {
        let b = first_ws_from(s, a);
        lemma_first_ws_from_bounds(s, a);
        lemma_first_ws_from_bounds(s, a + 1);
        lemma_split_ws_tokens_nonempty(s, b);
        let rest = split_ws_from(s, b);
        assert forall|k: int| 0 <= k < split_ws_from(s, i).len() implies #[trigger] split_ws_from(
            s,
            i,
        )[k].len() > 0 by {
            if k > 0 {
                assert(split_ws_from(s, i)[k] == rest[k - 1]);
            }
        }
    }
}

pub fn split_whitespace(s: &Vec<char>) -> (r: Vec<Vec<char>>)
    ensures
        views(r@) == split_ws(s@),
{
    let mut r: Vec<Vec<char>> = Vec::new();
    let mut i: usize = 0;
    while i < s.len()
        invariant
            i <= s.len(),
            split_ws(s@) == views(r@) + split_ws_from(s@, i as int),
        decreases s.len() - i,
    {
        let a = skip_ws(s, i);
        proof {
            lemma_skip_ws_from_bounds(s@, i as int);
        }
        if a >= s.len() {
            i = a;
            assert(split_ws_from(s@, a as int) =~= seq![]);
        } else {
            let b = find_ws(s, a);
            proof {
                lemma_first_ws_from_bounds(s@, a as int);
                lemma_first_ws_from_bounds(s@, a + 1);
            }
            let tok = sub_chars(s, a, b);
            let ghost old_r = views(r@);
            r.push(tok);
            assert(views(r@) =~= old_r.push(tok@));
            assert(split_ws_from(s@, i as int) == seq![s@.subrange(a as int, b as int)]
                + split_ws_from(s@, b as int));
            assert(old_r + split_ws_from(s@, i as int) =~= views(r@) + split_ws_from(
                s@,
                b as int,
            ));
            i = b;
        }
    }
    assert(split_ws_from(s@, i as int) =~= seq![]);
    assert(views(r@) + seq![] =~= views(r@));
    r
}

/// Index of the first `c` at or after `i` (or `s.len()`).
pub open spec fn find_char_from(s: Seq<char>, c: char, i: int) -> int
    decreases s.len() - i,
{
    if i < 0 || i >= s.len() {
        if i < 0 { 0 } else { i }
    } else if s[i] == c {
        i
    } else {
        find_char_from(s, c, i + 1)
    }
}

pub proof fn lemma_find_char_from_bounds(s: Seq<char>, c: char, i: int)
    requires
        0 <= i <= s.len(),
    ensures
        i <= find_char_from(s, c, i) <= s.len(),
        find_char_from(s, c, i) < s.len() ==> s[find_char_from(s, c, i)] == c,
        forall|j: int| i <= j < find_char_from(s, c, i) ==> #[trigger] s[j] != c,
    decreases s.len() - i,
{
    if i < s.len() && s[i] != c {
        lemma_find_char_from_bounds(s, c, i + 1);
    }
}

pub fn find_char(s: &Vec<char>, c: char, i: usize) -> (r: usize)
    requires
        i <= s.len(),
    ensures
        r == find_char_from(s@, c, i as int),
{
    let mut k = i;
    while k < s.len() && s[k] != c
        invariant
            i <= k <= s.len(),
            find_char_from(s@, c, i as int) == find_char_from(s@, c, k as int),
        decreases s.len() - k,
    {
        k = k + 1;
    }
    k
}

/// Removes one trailing carriage return.
pub open spec fn strip_cr(l: Seq<char>) -> Seq<char> {
    if l.len() > 0 && l.last() == '\r' {
        l.drop_last()
    } else {
        l
    }
}

/// The lines of `s` from index `i` on, as `str::lines` yields them: split at
/// `'\n'`, one `'\r'` before each `'\n'` removed, no empty line after a final
/// `'\n'`.
pub open spec fn lines_from(s: Seq<char>, i: int) -> Seq<Seq<char>>
    decreases s.len() - i,
{
    if i < 0 || i >= s.len() {
        seq![]
    } else {
        let k = find_char_from(s, '\n', i);
        if k >= s.len() {
            seq![s.subrange(i, s.len() as int)]
        } else {
            proof {
                lemma_find_char_from_bounds(s, '\n', i);
            }
            seq![strip_cr(s.subrange(i, k))] + lines_from(s, k + 1)
        }
    }
}

pub open spec fn lines_of(s: Seq<char>) -> Seq<Seq<char>> {
    lines_from(s, 0)
}

/// A non-empty text without a line break is one line.
pub proof fn lemma_lines_of_single(l: Seq<char>)
    requires
        l.len() > 0,
        !l.contains('\n'),
    ensures
        lines_of(l) == seq![l],
{
    lemma_find_char_from_bounds(l, '\n', 0);
    if find_char_from(l, '\n', 0) < l.len() {
        assert(l[find_char_from(l, '\n', 0)] == '\n');
    }
    assert(l.subrange(0, l.len() as int) =~= l);
}

/// A line without a line break, followed by one, is one line (a carriage
/// return before the break removed).
pub proof fn lemma_lines_of_terminated(h: Seq<char>)
    requires
        !h.contains('\n'),
    ensures
        lines_of(h + seq!['\n']) == seq![strip_cr(h)],
{
    let p = h + seq!['\n'];
    let n = h.len() as int;
    assert forall|j: int| 0 <= j < n implies p[j] != '\n' by {
        assert(p[j] == h[j]);
        if h[j] == '\n' {
            assert(h.contains('\n'));
        }
    }
    lemma_find_char_from_bounds(p, '\n', 0);
    assert(p[n] == '\n');
    assert(find_char_from(p, '\n', 0) == n);
    assert(p.subrange(0, n) =~= h);
    assert(lines_from(p, n + 1) =~= Seq::<Seq<char>>::empty());
}

proof fn lemma_find_char_from_prefix(p: Seq<char>, q: Seq<char>, c: char, i: int)
    requires
        0 <= i <= p.len(),
        find_char_from(p, c, i) < p.len(),
    ensures
        find_char_from(p + q, c, i) == find_char_from(p, c, i),
    decreases p.len() - i,
{
    assert((p + q)[i] == p[i]);
    if p[i] != c {
        lemma_find_char_from_prefix(p, q, c, i + 1);
    }
}

proof fn lemma_find_char_from_shift(p: Seq<char>, q: Seq<char>, c: char, j: int)
    requires
        0 <= j,
    ensures
        find_char_from(p + q, c, p.len() + j) == p.len() + find_char_from(q, c, j),
    decreases q.len() - j,
{
    if j < q.len() {
        assert((p + q)[p.len() + j] == q[j]);
        if q[j] != c {
            lemma_find_char_from_shift(p, q, c, j + 1);
        }
    }
}

proof fn lemma_lines_from_shift(p: Seq<char>, q: Seq<char>, j: int)
    requires
        0 <= j,
    ensures
        lines_from(p + q, p.len() + j) == lines_from(q, j),
    decreases q.len() - j,
{
    if j < q.len() {
        let s = p + q;
        lemma_find_char_from_shift(p, q, '\n', j);
        lemma_find_char_from_bounds(q, '\n', j);
        let k = find_char_from(q, '\n', j);
        if k >= q.len() {
            assert(s.subrange(p.len() + j, s.len() as int) =~= q.subrange(j, q.len() as int));
        } else {
            assert(s.subrange(p.len() + j, p.len() + k) =~= q.subrange(j, k));
            lemma_lines_from_shift(p, q, k + 1);
        }
    }
}

proof fn lemma_lines_from_concat(p: Seq<char>, q: Seq<char>, i: int)
    requires
        p.len() > 0,
        p.last() == '\n',
        0 <= i <= p.len(),
    ensures
        lines_from(p + q, i) == lines_from(p, i) + lines_from(q, 0),
    decreases p.len() - i,
{
    let s = p + q;
    if i == p.len() {
        lemma_lines_from_shift(p, q, 0);
        assert(lines_from(p, i) =~= Seq::<Seq<char>>::empty());
        assert(Seq::<Seq<char>>::empty() + lines_from(q, 0) =~= lines_from(q, 0));
    } else {
        lemma_find_char_from_bounds(p, '\n', i);
        let k = find_char_from(p, '\n', i);
        if k >= p.len() {
            assert(p[p.len() - 1] != '\n');
        }
        lemma_find_char_from_prefix(p, q, '\n', i);
        assert(s.subrange(i, k) =~= p.subrange(i, k));
        lemma_lines_from_concat(p, q, k + 1);
        assert(lines_from(s, i) == seq![strip_cr(p.subrange(i, k))] + lines_from(s, k + 1));
        assert(lines_from(p, i) == seq![strip_cr(p.subrange(i, k))] + lines_from(p, k + 1));
        assert(seq![strip_cr(p.subrange(i, k))] + (lines_from(p, k + 1) + lines_from(q, 0))
            =~= (seq![strip_cr(p.subrange(i, k))] + lines_from(p, k + 1)) + lines_from(q, 0));
    }
}

/// Text that is empty or ends with a line break splits into lines
/// independently of what follows it.
pub proof fn lemma_lines_of_concat(p: Seq<char>, q: Seq<char>)
    requires
        p.len() == 0 || p.last() == '\n',
    ensures
        lines_of(p + q) == lines_of(p) + lines_of(q),
{
    if p.len() == 0 {
        assert(p + q =~= q);
        assert(lines_of(p) =~= Seq::<Seq<char>>::empty());
        assert(Seq::<Seq<char>>::empty() + lines_of(q) =~= lines_of(q));
    } else {
        lemma_lines_from_concat(p, q, 0);
    }
}

pub fn split_lines(s: &Vec<char>) -> (r: Vec<Vec<char>>)
    ensures
        views(r@) == lines_of(s@),
{
    let mut r: Vec<Vec<char>> = Vec::new();
    let mut i: usize = 0;
    while i < s.len()
        invariant
            i <= s.len(),
            lines_of(s@) == views(r@) + lines_from(s@, i as int),
        decreases s.len() - i,
    {
        let k = find_char(s, '\n', i);
        proof {
            lemma_find_char_from_bounds(s@, '\n', i as int);
        }
        let ghost old_r = views(r@);
        if k >= s.len() {
            let line = sub_chars(s, i, s.len());
            r.push(line);
            assert(views(r@) =~= old_r.push(line@));
            assert(old_r + lines_from(s@, i as int) =~= views(r@) + lines_from(
                s@,
                s.len() as int,
            ));
            i = s.len();
        } else {
            let mut line = sub_chars(s, i, k);
            if line.len() > 0 && line[line.len() - 1] == '\r' {
                line.pop();
                assert(line@ =~= strip_cr(s@.subrange(i as int, k as int)));
            }
            r.push(line);
            assert(views(r@) =~= old_r.push(line@));
            assert(old_r + lines_from(s@, i as int) =~= views(r@) + lines_from(
                s@,
                k + 1,
            ));
            i = k + 1;
        }
    }
    assert(lines_from(s@, i as int) =~= seq![]);
    assert(views(r@) + seq![] =~= views(r@));
    r
}

// ---------------------------------------------------------------------------
// Substring search
// ---------------------------------------------------------------------------

pub open spec fn matches_at(s: Seq<char>, p: Seq<char>, i: int) -> bool {
    0 <= i && i + p.len() <= s.len() && s.subrange(i, i + p.len()) == p
}

/// First index at or after `i` where `p` occurs in `s` (`str::find`).
pub open spec fn find_from(s: Seq<char>, p: Seq<char>, i: int) -> Option<int>
    decreases s.len() + 1 - i,
{
    if i < 0 || i + p.len() > s.len() {
        None
    } else if s.subrange(i, i + p.len()) == p {
        Some(i)
    } else {
        find_from(s, p, i + 1)
    }
}

pub open spec fn find_seq(s: Seq<char>, p: Seq<char>) -> Option<int> {
    find_from(s, p, 0)
}

pub open spec fn contains_seq(s: Seq<char>, p: Seq<char>) -> bool {
    find_seq(s, p) is Some
}

pub proof fn lemma_find_from_some(s: Seq<char>, p: Seq<char>, i: int)
    requires
        0 <= i,
    ensures
        find_from(s, p, i) matches Some(k) ==> i <= k && matches_at(s, p, k) && forall|j: int|
            i <= j < k ==> !matches_at(s, p, j),
        find_from(s, p, i) is None ==> forall|j: int| i <= j ==> !matches_at(s, p, j),
    decreases s.len() + 1 - i,
{
    if i + p.len() <= s.len() && s.subrange(i, i + p.len()) != p {
        lemma_find_from_some(s, p, i + 1);
    }
}

fn matches_here(s: &Vec<char>, p: &Vec<char>, i: usize) -> (r: bool)
    requires
        i + p.len() <= s.len(),
    ensures
        r == (s@.subrange(i as int, i + p.len()) == p@),
{
    let mut j: usize = 0;
    while j < p.len()
        invariant
            i + p.len() <= s.len(),
            j <= p.len(),
            forall|k: int| 0 <= k < j ==> s@[i + k] == p@[k],
        decreases p.len() - j,
    {
        if s[i + j] != p[j] {
            assert(s@.subrange(i as int, i + p.len())[j as int] != p@[j as int]);
            return false;
        }
        j = j + 1;
    }
    assert(s@.subrange(i as int, i + p.len()) =~= p@);
    true
}

pub fn find_chars(s: &Vec<char>, p: &Vec<char>) -> (r: Option<usize>)
    ensures
        r matches Some(k) ==> find_seq(s@, p@) == Some(k as int),
        r is None ==> find_seq(s@, p@) is None,
{
    if p.len() > s.len() {
        return None;
    }
    let limit = s.len() - p.len();
    let mut i: usize = 0;
    loop
        invariant
            p.len() <= s.len(),
            limit == s.len() - p.len(),
            i <= limit,
            find_seq(s@, p@) == find_from(s@, p@, i as int),
        decreases limit - i,
    {
        if matches_here(s, p, i) {
            return Some(i);
        }
        if i == limit {
            return None;
        }
        i = i + 1;
    }
}

pub fn contains_chars(s: &Vec<char>, p: &Vec<char>) -> (r: bool)
    ensures
        r == contains_seq(s@, p@),
{
    find_chars(s, p).is_some()
}

// ---------------------------------------------------------------------------
// Decimal numbers
// ---------------------------------------------------------------------------

pub open spec fn is_digit(c: char) -> bool {
    '0' <= c && c <= '9'
}

pub open spec fn digit_value(c: char) -> int {
    (c as u32) - ('0' as u32)
}

/// Value of a sequence of decimal digits.
pub open spec fn digits_value(d: Seq<char>) -> int
    decreases d.len(),
{
    if d.len() == 0 {
        0
    } else {
        digits_value(d.drop_last()) * 10 + digit_value(d.last())
    }
}

pub open spec fn all_digits(d: Seq<char>) -> bool {
    forall|i: int| 0 <= i < d.len() ==> is_digit(#[trigger] d[i])
}

/// The digits that `u8::from_str` reads: an optional leading `'+'` removed.
pub open spec fn unsigned_digits(s: Seq<char>) -> Seq<char> {
    if s.len() > 0 && s[0] == '+' {
        s.drop_first()
    } else {
        s
    }
}

/// `u8::from_str`: an optional `'+'`, then one or more ASCII digits whose value
/// is at most 255.
pub open spec fn parse_u8_spec(s: Seq<char>) -> Option<u8> {
    let d = unsigned_digits(s);
    if d.len() > 0 && all_digits(d) && digits_value(d) <= 255 {
        Some(digits_value(d) as u8)
    } else {
        None
    }
}

pub proof fn lemma_digits_value_monotone(d: Seq<char>, k: int)
    requires
        all_digits(d),
        0 <= k <= d.len(),
    ensures
        0 <= digits_value(d.take(k)) <= digits_value(d),
    decreases d.len(),
{
    if d.len() > 0 {
        if k == d.len() {
            assert(d.take(k) =~= d);
            lemma_digits_value_monotone(d.drop_last(), d.len() - 1);
            assert(d.drop_last().take(d.len() - 1) =~= d.drop_last());
        } else {
            assert(all_digits(d.drop_last()));
            lemma_digits_value_monotone(d.drop_last(), k);
            assert(d.drop_last().take(k) =~= d.take(k));
            lemma_digits_value_monotone(d.drop_last(), d.len() - 1);
            assert(d.drop_last().take(d.len() - 1) =~= d.drop_last());
        }
    } else {
        assert(d.take(k) =~= d);
    }
}

pub fn parse_u8(s: &Vec<char>) -> (r: Option<u8>)
    ensures
        r == parse_u8_spec(s@),
{
    let start: usize = if s.len() > 0 && s[0] == '+' {
        1
    } else {
        0
    };
    let ghost d = unsigned_digits(s@);
    assert(d =~= s@.subrange(start as int, s.len() as int));
    if start >= s.len() {
        return None;
    }
    let mut acc: u32 = 0;
    let mut i: usize = start;
    while i < s.len()
        invariant
            start < s.len(),
            start <= i <= s.len(),
            d == s@.subrange(start as int, s.len() as int),
            d == unsigned_digits(s@),
            all_digits(d.take(i - start)),
            acc == digits_value(d.take(i - start)),
            acc <= 255,
        decreases s.len() - i,
    {
        let c = s[i];
        if !('0' <= c && c <= '9') {
            assert(d[i - start] == c);
            assert(!is_digit(d[i - start]));
            assert(!all_digits(d));
            assert(parse_u8_spec(s@) is None);
            return None;
        }
        let ghost prev = d.take(i - start);
        let next = acc * 10 + ((c as u32) - ('0' as u32));
        assert(d.take(i - start + 1).drop_last() =~= prev);
        assert(all_digits(d.take(i - start + 1)));
        if next > 255 {
            proof {
                if all_digits(d) {
                    lemma_digits_value_monotone(d, i - start + 1);
                }
                assert(parse_u8_spec(s@) is None);
            }
            return None;
        }
        acc = next;
        i = i + 1;
    }
    assert(d.take(i - start) =~= d);
    Some(acc as u8)
}

// ---------------------------------------------------------------------------
// UTF-8 byte positions
// ---------------------------------------------------------------------------

/// Number of bytes in the UTF-8 encoding of `s`.
pub open spec fn byte_len(s: Seq<char>) -> nat
    decreases s.len(),
{
    if s.len() == 0 {
        0
    } else {
        char_width(s[0]) + byte_len(s.drop_first())
    }
}

pub proof fn lemma_byte_len_concat(a: Seq<char>, b: Seq<char>)
    ensures
        byte_len(a + b) == byte_len(a) + byte_len(b),
    decreases a.len(),
{
    if a.len() > 0 {
        lemma_byte_len_concat(a.drop_first(), b);
        assert((a + b).drop_first() =~= a.drop_first() + b);
    } else {
        assert(a + b =~= b);
    }
}

pub proof fn lemma_byte_len_push(a: Seq<char>, c: char)
    ensures
        byte_len(a.push(c)) == byte_len(a) + char_width(c),
{
    let one = seq![c];
    assert(one.drop_first() =~= Seq::<char>::empty());
    assert(byte_len(one) == char_width(c) + byte_len(one.drop_first()));
    lemma_byte_len_concat(a, one);
    assert(a.push(c) =~= a + one);
}

pub proof fn lemma_byte_len_split(s: Seq<char>, k: int)
    requires
        0 <= k <= s.len(),
    ensures
        byte_len(s) == byte_len(s.take(k)) + byte_len(s.skip(k)),
        byte_len(s.take(k)) <= byte_len(s),
{
    lemma_byte_len_concat(s.take(k), s.skip(k));
    assert(s.take(k) + s.skip(k) =~= s);
}

pub proof fn lemma_byte_len_subrange(s: Seq<char>, a: int, b: int)
    requires
        0 <= a <= b <= s.len(),
    ensures
        byte_len(s.subrange(a, b)) <= byte_len(s),
{
    lemma_byte_len_split(s, b);
    lemma_byte_len_split(s.take(b), a);
    assert(s.take(b).skip(a) =~= s.subrange(a, b));
}

pub proof fn lemma_encode_scalar_len(c: char)
    ensures
        vstd::utf8::encode_scalar(c as u32).len() == char_width(c),
{
    broadcast use vstd::utf8::char_is_scalar;
    assert(vstd::utf8::is_scalar(c as u32));
}

/// The byte count above is the length of the UTF-8 encoding that vstd uses for
/// `str`.
pub proof fn lemma_byte_len_encoding(s: Seq<char>)
    ensures
        byte_len(s) == vstd::utf8::encode_utf8(s).len(),
    decreases s.len(),
{
    if s.len() > 0 {
        lemma_byte_len_encoding(s.drop_first());
        lemma_encode_scalar_len(s[0]);
    }
}

/// Character index at which byte offset `b` falls, scanning from character
/// `i` at byte offset `pos`; `None` when `b` is not at a character boundary
/// or lies past the end.
pub open spec fn char_at_byte_from(s: Seq<char>, i: int, pos: int, b: int) -> Option<int>
    decreases s.len() - i,
{
    if pos == b {
        Some(i)
    } else if i < 0 || i >= s.len() || pos > b {
        None
    } else {
        char_at_byte_from(s, i + 1, pos + char_width(s[i]), b)
    }
}

/// Character index of byte offset `b` in `s`, when `b` is a character boundary.
pub open spec fn char_at_byte(s: Seq<char>, b: int) -> Option<int> {
    char_at_byte_from(s, 0, 0, b)
}

pub proof fn lemma_char_at_byte_from(s: Seq<char>, i: int, pos: int, b: int)
    requires
        0 <= i <= s.len(),
        pos == byte_len(s.take(i)),
    ensures
        char_at_byte_from(s, i, pos, b) matches Some(k) ==> i <= k <= s.len() && byte_len(
            s.take(k),
        ) == b,
    decreases s.len() - i,
{
    if pos != b && i < s.len() && pos <= b {
        lemma_byte_len_push(s.take(i), s[i]);
        assert(s.take(i).push(s[i]) =~= s.take(i + 1));
        lemma_char_at_byte_from(s, i + 1, pos + char_width(s[i]), b);
    }
}

pub proof fn lemma_char_at_byte(s: Seq<char>, b: int)
    ensures
        char_at_byte(s, b) matches Some(k) ==> 0 <= k <= s.len() && byte_len(s.take(k)) == b,
{
    assert(s.take(0) =~= Seq::<char>::empty());
    lemma_char_at_byte_from(s, 0, 0, b);
}

/// Byte offset of character `k`.
pub fn byte_offset(s: &Vec<char>, k: usize) -> (r: usize)
    requires
        k <= s.len(),
        byte_len(s@) <= usize::MAX,
    ensures
        r == byte_len(s@.take(k as int)),
{
    let mut pos: usize = 0;
    let mut i: usize = 0;
    while i < k
        invariant
            k <= s.len(),
            i <= k,
            byte_len(s@) <= usize::MAX,
            pos == byte_len(s@.take(i as int)),
        decreases k - i,
    {
        proof {
            lemma_byte_len_push(s@.take(i as int), s@[i as int]);
            assert(s@.take(i as int).push(s@[i as int]) =~= s@.take(i + 1));
            lemma_byte_len_split(s@, i + 1);
        }
        pos = pos + utf8_width(s[i]);
        i = i + 1;
    }
    pos
}

/// Byte length of the whole sequence.
pub fn byte_length(s: &Vec<char>) -> (r: usize)
    requires
        byte_len(s@) <= usize::MAX,
    ensures
        r == byte_len(s@),
{
    let r = byte_offset(s, s.len());
    assert(s@.take(s.len() as int) =~= s@);
    r
}

/// Character index of byte offset `b`, or `None` if `b` is not a boundary.
pub fn char_index_at_byte(s: &Vec<char>, b: usize) -> (r: Option<usize>)
    requires
        byte_len(s@) <= usize::MAX,
    ensures
        r matches Some(k) ==> char_at_byte(s@, b as int) == Some(k as int),
        r is None ==> char_at_byte(s@, b as int) is None,
{
    let mut pos: usize = 0;
    let mut i: usize = 0;
    proof {
        assert(s@.take(0) =~= Seq::<char>::empty());
    }
    while i < s.len() && pos < b
        invariant
            i <= s.len(),
            byte_len(s@) <= usize::MAX,
            pos == byte_len(s@.take(i as int)),
            char_at_byte(s@, b as int) == char_at_byte_from(s@, i as int, pos as int, b as int),
        decreases s.len() - i,
    {
        proof {
            lemma_byte_len_push(s@.take(i as int), s@[i as int]);
            assert(s@.take(i as int).push(s@[i as int]) =~= s@.take(i + 1));
            lemma_byte_len_split(s@, i + 1);
        }
        pos = pos + utf8_width(s[i]);
        i = i + 1;
    }
    if pos == b {
        Some(i)
    } else {
        None
    }
}

} // verus!
