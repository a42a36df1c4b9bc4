//! Parsing of the `wsl --list --verbose` table.
//!
//! The table is read line by line. When a header line holds both `NAME` and
//! `VERSION` (ASCII case-insensitively), the byte offsets of its columns cut
//! every line; otherwise each line is split at whitespace.
use vstd::prelude::*;
use crate::models::{
    InstanceState, InstanceView, WslInstance, instance_views, running_word, state_named,
    stopped_word,
};
use crate::error::WslError;
use vstd::utf8::is_ascii_chars;
use crate::text::{
    byte_len, byte_length, byte_offset, char_at_byte, char_at_byte_from, char_index_at_byte,
    chars_to_string, contains_char, contains_chars, eq_ignore_ascii_case, eq_ignore_case,
    find_char_from, find_chars, find_seq, lemma_byte_len_encoding, lemma_byte_len_split,
    lemma_byte_len_subrange, lemma_char_at_byte, lemma_find_char_from_bounds,
    lemma_find_from_some, lemma_lines_of_concat, lemma_lines_of_single, lemma_split_ws_tokens_nonempty,
    lemma_trim_end_len_bounds, lines_from, lines_of, parse_u8, parse_u8_spec, seq_contains_char,
    split_lines, split_whitespace, split_ws, str_to_chars, sub_chars, to_upper_chars, trim,
    trim_chars, trim_end, trim_end_chars, trim_end_len, trim_start, trim_start_chars, trim_stars,
    trim_stars_chars, upper_seq, views,
};

verus! {

pub open spec fn name_word() -> Seq<char> {
    seq!['N', 'A', 'M', 'E']
}

pub open spec fn version_word() -> Seq<char> {
    seq!['V', 'E', 'R', 'S', 'I', 'O', 'N']
}

pub open spec fn state_word() -> Seq<char> {
    seq!['S', 'T', 'A', 'T', 'E']
}

pub open spec fn name_lower() -> Seq<char> {
    seq!['n', 'a', 'm', 'e']
}

// ---------------------------------------------------------------------------
// Column positions
// ---------------------------------------------------------------------------

/// A line whose upper-cased form contains both `NAME` and `VERSION`.
pub open spec fn is_header_line(l: Seq<char>) -> bool {
    find_seq(upper_seq(l), name_word()) is Some && find_seq(upper_seq(l), version_word()) is Some
}

/// Index of the first header line at or after `i`.
pub open spec fn header_index_from(lines: Seq<Seq<char>>, i: int) -> Option<int>
    decreases lines.len() - i,
{
    if i < 0 || i >= lines.len() {
        None
    } else if is_header_line(lines[i]) {
        Some(i)
    } else {
        header_index_from(lines, i + 1)
    }
}

pub open spec fn name_column(l: Seq<char>) -> int {
    byte_len(l.take(find_seq(upper_seq(l), name_word()).unwrap())) as int
}

pub open spec fn version_column(l: Seq<char>) -> int {
    byte_len(l.take(find_seq(upper_seq(l), version_word()).unwrap())) as int
}

/// Byte offset of `STATE`, or the midpoint between `NAME` and `VERSION`.
pub open spec fn state_column(l: Seq<char>) -> int {
    match find_seq(upper_seq(l), state_word()) {
        Some(k) => byte_len(l.take(k)) as int,
        None => name_column(l) + (version_column(l) - name_column(l)) / 2,
    }
}

/// The midpoint (taken only without a `STATE` header) is computed with
/// unsigned arithmetic, so `VERSION` must not come before `NAME`.
pub open spec fn header_midpoint_defined(l: Seq<char>) -> bool {
    find_seq(upper_seq(l), state_word()) is Some || name_column(l) <= version_column(l)
}

/// Byte offsets of the `NAME`, `STATE` and `VERSION` columns of `text`.
pub open spec fn columns_spec(text: Seq<char>) -> Option<(int, int, int)> {
    let lines = lines_of(text);
    match header_index_from(lines, 0) {
        Some(i) => Some((name_column(lines[i]), state_column(lines[i]), version_column(lines[i]))),
        None => None,
    }
}

/// `locate_columns` computes its result without arithmetic overflow.
pub open spec fn columns_defined(text: Seq<char>) -> bool {
    let lines = lines_of(text);
    match header_index_from(lines, 0) {
        Some(i) => header_midpoint_defined(lines[i]),
        None => true,
    }
}

pub open spec fn opt_cols(c: Option<(usize, usize, usize)>) -> Option<(int, int, int)> {
    match c {
        Some((a, b, d)) => Some((a as int, b as int, d as int)),
        None => None,
    }
}

// ---------------------------------------------------------------------------
// Byte ranges
// ---------------------------------------------------------------------------

pub open spec fn clamp_start(s: Seq<char>, a: int) -> int {
    if a <= byte_len(s) {
        a
    } else {
        byte_len(s) as int
    }
}

pub open spec fn clamp_end(s: Seq<char>, a: int, b: int) -> int {
    let sa = clamp_start(s, a);
    let e = if b >= sa {
        b
    } else {
        sa
    };
    if e <= byte_len(s) {
        e
    } else {
        byte_len(s) as int
    }
}

/// Slicing bytes `a..b` (clamped to the text) would land on character
/// boundaries; `str` indexing panics otherwise.
pub open spec fn byte_slice_ok(s: Seq<char>, a: int, b: int) -> bool {
    char_at_byte(s, clamp_start(s, a)) is Some && char_at_byte(s, clamp_end(s, a, b)) is Some
}

/// The characters in the (clamped) byte range `a..b`.
pub open spec fn byte_slice(s: Seq<char>, a: int, b: int) -> Seq<char> {
    s.subrange(
        char_at_byte(s, clamp_start(s, a)).unwrap(),
        char_at_byte(s, clamp_end(s, a, b)).unwrap(),
    )
}

/// `text.get(..a)`: the characters before byte `a` when `a` is a boundary.
pub open spec fn byte_prefix(s: Seq<char>, a: int) -> Option<Seq<char>> {
    match char_at_byte(s, a) {
        Some(k) => Some(s.take(k)),
        None => None,
    }
}

pub proof fn lemma_byte_len_nonempty(s: Seq<char>)
    requires
        s.len() > 0,
    ensures
        byte_len(s) >= 1,
{
}

pub proof fn lemma_byte_len_take_monotone(s: Seq<char>, a: int, b: int)
    requires
        0 <= a < b <= s.len(),
    ensures
        byte_len(s.take(a)) < byte_len(s.take(b)),
{
    lemma_byte_len_split(s.take(b), a);
    assert(s.take(b).take(a) =~= s.take(a));
    lemma_byte_len_nonempty(s.take(b).skip(a));
}

pub proof fn lemma_char_at_byte_order(s: Seq<char>, x: int, y: int)
    requires
        x <= y,
        char_at_byte(s, x) is Some,
        char_at_byte(s, y) is Some,
    ensures
        0 <= char_at_byte(s, x).unwrap() <= char_at_byte(s, y).unwrap() <= s.len(),
{
    lemma_char_at_byte(s, x);
    lemma_char_at_byte(s, y);
    let kx = char_at_byte(s, x).unwrap();
    let ky = char_at_byte(s, y).unwrap();
    if kx > ky {
        lemma_byte_len_take_monotone(s, ky, kx);
    }
}

/// Character index of a byte offset known to be a boundary.
fn boundary_index(s: &Vec<char>, b: usize) -> (k: usize)
    requires
        byte_len(s@) <= usize::MAX,
        char_at_byte(s@, b as int) is Some,
    ensures
        char_at_byte(s@, b as int) == Some(k as int),
{
    match char_index_at_byte(s, b) {
        Some(k) => k,
        None => 0,
    }
}

/// Byte range `a..b` clamped to `s`: both ends at most its length, the end
/// not before the start.
fn clamped_range(s: &Vec<char>, a: usize, b: usize) -> (r: (usize, usize))
    requires
        byte_len(s@) <= usize::MAX,
    ensures
        r.0 == clamp_start(s@, a as int),
        r.1 == clamp_end(s@, a as int, b as int),
{
    let len = byte_length(s);
    let sa = if a <= len {
        a
    } else {
        len
    };
    let e = if b >= sa {
        b
    } else {
        sa
    };
    let eb = if e <= len {
        e
    } else {
        len
    };
    (sa, eb)
}

/// The characters of byte range `a..b` of `s`.
pub fn byte_slice_chars(s: &Vec<char>, a: usize, b: usize) -> (r: Vec<char>)
    requires
        byte_len(s@) <= usize::MAX,
        byte_slice_ok(s@, a as int, b as int),
    ensures
        r@ == byte_slice(s@, a as int, b as int),
{
    let (sa, eb) = clamped_range(s, a, b);
    let ka = boundary_index(s, sa);
    let kb = boundary_index(s, eb);
    proof {
        lemma_char_at_byte_order(s@, sa as int, eb as int);
    }
    sub_chars(s, ka, kb)
}

/// The characters of `s` before byte `a`, when `a` is a boundary.
pub fn byte_prefix_chars(s: &Vec<char>, a: usize) -> (r: Option<Vec<char>>)
    requires
        byte_len(s@) <= usize::MAX,
    ensures
        r matches Some(v) ==> byte_prefix(s@, a as int) == Some(v@),
        r is None ==> byte_prefix(s@, a as int) is None,
{
    match char_index_at_byte(s, a) {
        Some(k) => {
            proof {
                lemma_char_at_byte(s@, a as int);
            }
            Some(sub_chars(s, 0, k))
        },
        None => None,
    }
}

// ---------------------------------------------------------------------------
// Byte lengths of lines and their parts
// ---------------------------------------------------------------------------

pub proof fn lemma_lines_byte_len(s: Seq<char>, j: int)
    requires
        0 <= j,
    ensures
        forall|k: int|
            0 <= k < lines_from(s, j).len() ==> byte_len(#[trigger] lines_from(s, j)[k])
                <= byte_len(s),
    decreases s.len() - j,
{
    if j < s.len() {
        let c = find_char_from(s, '\n', j);
        lemma_find_char_from_bounds(s, '\n', j);
        if c >= s.len() {
            lemma_byte_len_subrange(s, j, s.len() as int);
        } else {
            lemma_lines_byte_len(s, c + 1);
            let first = s.subrange(j, c);
            lemma_byte_len_subrange(s, j, c);
            if first.len() > 0 && first.last() == '\r' {
                lemma_byte_len_subrange(s, j, c - 1);
                assert(first.drop_last() =~= s.subrange(j, c - 1));
            }
            let rest = lines_from(s, c + 1);
            assert forall|k: int| 0 <= k < lines_from(s, j).len() implies byte_len(
                #[trigger] lines_from(s, j)[k],
            ) <= byte_len(s) by {
                if k > 0 {
                    assert(lines_from(s, j)[k] == rest[k - 1]);
                }
            }
        }
    }
}

/// The characters of `text`, whose UTF-8 length fits in a `usize`.
pub fn text_chars(text: &str) -> (r: Vec<char>)
    ensures
        r@ == text@,
        byte_len(text@) <= usize::MAX,
{
    let bytes = text.as_bytes();
    let _n = bytes.len();
    proof {
        lemma_byte_len_encoding(text@);
    }
    str_to_chars(text)
}

/// The lines of `text`, each of byte length within `usize`.
pub fn text_lines(text: &str) -> (r: Vec<Vec<char>>)
    ensures
        views(r@) == lines_of(text@),
        forall|i: int| 0 <= i < r@.len() ==> byte_len(#[trigger] r@[i]@) <= usize::MAX,
{
    let chars = text_chars(text);
    let lines = split_lines(&chars);
    proof {
        lemma_lines_byte_len(text@, 0);
        assert forall|i: int| 0 <= i < lines@.len() implies byte_len(#[trigger] lines@[i]@)
            <= usize::MAX by {
            assert(views(lines@)[i] == lines@[i]@);
        }
    }
    lines
}

// ---------------------------------------------------------------------------
// locate_columns
// ---------------------------------------------------------------------------

/// Column offsets of a header line.
fn header_columns_exec(l: &Vec<char>) -> (r: Option<(usize, usize, usize)>)
    requires
        byte_len(l@) <= usize::MAX,
    ensures
        r is Some <==> (is_header_line(l@) && header_midpoint_defined(l@)),
        r matches Some((n, s, v)) ==> n == name_column(l@) && s == state_column(l@) && v
            == version_column(l@),
{
    let up = to_upper_chars(l);
    let name_w: Vec<char> = vec!['N', 'A', 'M', 'E'];
    let version_w: Vec<char> = vec!['V', 'E', 'R', 'S', 'I', 'O', 'N'];
    let state_w: Vec<char> = vec!['S', 'T', 'A', 'T', 'E'];
    assert(name_w@ =~= name_word());
    assert(version_w@ =~= version_word());
    assert(state_w@ =~= state_word());
    let n_idx = find_chars(&up, &name_w);
    let v_idx = find_chars(&up, &version_w);
    match (n_idx, v_idx) {
        (Some(ni), Some(vi)) => {
            proof {
                lemma_find_from_some(up@, name_w@, 0);
                lemma_find_from_some(up@, version_w@, 0);
            }
            let n = byte_offset(l, ni);
            let v = byte_offset(l, vi);
            match find_chars(&up, &state_w) {
                Some(si) => {
                    proof {
                        lemma_find_from_some(up@, state_w@, 0);
                    }
                    let s = byte_offset(l, si);
                    Some((n, s, v))
                },
                None => {
                    if v < n {
                        None
                    } else {
                        Some((n, n + (v - n) / 2, v))
                    }
                },
            }
        },
        _ => None,
    }
}

/// Finds the byte offsets of the `NAME`, `STATE` and `VERSION` columns in the
/// first line that names both `NAME` and `VERSION`. Without a `STATE` header
/// the midpoint of the other two is taken.
pub fn locate_columns(text: &str) -> (r: (Option<usize>, Option<usize>, Option<usize>))
    requires
        columns_defined(text@),
    ensures
        columns_spec(text@) matches Some((n, s, v)) ==> r.0 == Some(n as usize) && r.1 == Some(
            s as usize,
        ) && r.2 == Some(v as usize),
        columns_spec(text@) is None ==> r == (None::<usize>, None::<usize>, None::<usize>),
{
    let lines = text_lines(text);
    match locate_in_lines(&lines) {
        Some((n, s, v)) => (Some(n), Some(s), Some(v)),
        None => (None, None, None),
    }
}

fn locate_in_lines(lines: &Vec<Vec<char>>) -> (r: Option<(usize, usize, usize)>)
    requires
        forall|i: int| 0 <= i < lines@.len() ==> byte_len(#[trigger] lines@[i]@) <= usize::MAX,
        match header_index_from(views(lines@), 0) {
            Some(i) => header_midpoint_defined(views(lines@)[i]),
            None => true,
        },
    ensures
        opt_cols(r) == match header_index_from(views(lines@), 0) {
            Some(i) => Some(
                (
                    name_column(views(lines@)[i]),
                    state_column(views(lines@)[i]),
                    version_column(views(lines@)[i]),
                ),
            ),
            None => None,
        },
{
    match header_of_lines(lines) {
        Ok(c) => c,
        Err(()) => None,
    }
}

// ---------------------------------------------------------------------------
// substring
// ---------------------------------------------------------------------------

/// Bytes `start..end` of `s`, both ends first clamped to the length of `s`
/// and `end` raised to `start`.
pub fn substring(s: &str, start: usize, end: usize) -> (r: &str)
    requires
        byte_slice_ok(s@, start as int, end as int),
    ensures
        r@ == byte_slice(s@, start as int, end as int),
{
    let chars = text_chars(s);
    let (sa, eb) = clamped_range(&chars, start, end);
    let ka = boundary_index(&chars, sa);
    let kb = boundary_index(&chars, eb);
    proof {
        lemma_char_at_byte_order(s@, sa as int, eb as int);
    }
    s.substring_char(ka, kb)
}

// ---------------------------------------------------------------------------
// parse_list_text
// ---------------------------------------------------------------------------

/// The three byte ranges cut from a non-empty (right-trimmed) line all fall
/// on character boundaries.
pub open spec fn line_slices_ok(line: Seq<char>, c: (int, int, int)) -> bool {
    let t = trim_end(line);
    t.len() == 0 || (byte_slice_ok(t, c.0, c.1) && byte_slice_ok(t, c.1, c.2) && byte_slice_ok(
        t,
        c.2,
        byte_len(t) as int,
    ))
}

/// `parse_list_text` runs without a panic on `text`: the column midpoint is
/// defined and no column boundary splits a character.
pub open spec fn list_text_ok(text: Seq<char>) -> bool {
    &&& columns_defined(text)
    &&& match columns_spec(text) {
        Some(c) => forall|i: int|
            0 <= i < lines_of(text).len() ==> line_slices_ok(#[trigger] lines_of(text)[i], c),
        None => true,
    }
}

/// The fields of a right-trimmed, non-empty line: `None` for a header or a
/// line without a name.
pub open spec fn line_tokens(t: Seq<char>, cols: Option<(int, int, int)>) -> Option<
    Seq<Seq<char>>,
> {
    match cols {
        Some((ns, ss, vs)) => {
            let name = trim(byte_slice(t, ns, ss));
            let state = trim(byte_slice(t, ss, vs));
            let version = trim(byte_slice(t, vs, byte_len(t) as int));
            if name.len() == 0 || eq_ignore_case(name, name_lower()) {
                None
            } else {
                Some(seq![name, state, version])
            }
        },
        None => {
            let parts = split_ws(trim_start(trim_stars(t)));
            if parts.len() == 0 || eq_ignore_case(parts[0], name_lower()) {
                None
            } else {
                Some(parts)
            }
        },
    }
}

/// The default marker: a `*` before the `NAME` column, or a line that starts
/// with `*` when there are no columns.
pub open spec fn line_default(t: Seq<char>, cols: Option<(int, int, int)>) -> bool {
    match cols {
        Some((ns, _, _)) => match byte_prefix(t, ns) {
            Some(p) => seq_contains_char(p, '*'),
            None => false,
        },
        None => {
            let u = trim_start(t);
            u.len() > 0 && u[0] == '*'
        },
    }
}

/// The instance that one line describes: the first field is the name, the
/// last must read as a `u8` version, and with three or more fields the
/// second is the state.
pub open spec fn parse_list_line(line: Seq<char>, cols: Option<(int, int, int)>) -> Option<
    InstanceView,
> {
    let t = trim_end(line);
    if t.len() == 0 {
        None
    } else {
        match line_tokens(t, cols) {
            None => None,
            Some(tok) => if tok.len() < 2 {
                None
            } else {
                match parse_u8_spec(tok.last()) {
                    None => None,
                    Some(v) => Some(
                        InstanceView {
                            name: tok[0],
                            state: if tok.len() >= 3 {
                                state_named(tok[1])
                            } else {
                                InstanceState::Unknown
                            },
                            version: v,
                            default: line_default(t, cols),
                            distribution: None,
                            ip_address: None,
                        },
                    ),
                }
            },
        }
    }
}

/// The instances described by `lines[i..]`, in order.
pub open spec fn parse_lines_from(
    lines: Seq<Seq<char>>,
    cols: Option<(int, int, int)>,
    i: int,
) -> Seq<InstanceView>
    decreases lines.len() - i,
{
    if i < 0 || i >= lines.len() {
        seq![]
    } else {
        match parse_list_line(lines[i], cols) {
            Some(x) => seq![x] + parse_lines_from(lines, cols, i + 1),
            None => parse_lines_from(lines, cols, i + 1),
        }
    }
}

/// The instances that `parse_list_text` reads from `text`.
pub open spec fn parse_list_spec(text: Seq<char>) -> Seq<InstanceView> {
    parse_lines_from(lines_of(text), columns_spec(text), 0)
}

fn name_lower_chars() -> (r: Vec<char>)
    ensures
        r@ == name_lower(),
{
    let r: Vec<char> = vec!['n', 'a', 'm', 'e'];
    assert(r@ =~= name_lower());
    r
}

fn line_tokens_exec(t: &Vec<char>, cols: Option<(usize, usize, usize)>) -> (r: Option<
    Vec<Vec<char>>,
>)
    requires
        t@.len() > 0,
        byte_len(t@) <= usize::MAX,
        cols matches Some(c) ==> byte_slice_ok(t@, c.0 as int, c.1 as int) && byte_slice_ok(
            t@,
            c.1 as int,
            c.2 as int,
        ) && byte_slice_ok(t@, c.2 as int, byte_len(t@) as int),
    ensures
        r matches Some(v) ==> line_tokens(t@, opt_cols(cols)) == Some(views(v@)),
        r is None ==> line_tokens(t@, opt_cols(cols)) is None,
{
    let lower = name_lower_chars();
    match cols {
        Some((ns, ss, vs)) => {
            let len = byte_length(t);
            let name = trim_chars(&byte_slice_chars(t, ns, ss));
            let state = trim_chars(&byte_slice_chars(t, ss, vs));
            let version = trim_chars(&byte_slice_chars(t, vs, len));
            if name.len() == 0 || eq_ignore_ascii_case(&name, &lower) {
                None
            } else {
                let ghost (a, b, c) = (name@, state@, version@);
                let mut v: Vec<Vec<char>> = Vec::new();
                v.push(name);
                v.push(state);
                v.push(version);
                assert(views(v@) =~= seq![a, b, c]);
                Some(v)
            }
        },
        None => {
            let content = trim_start_chars(&trim_stars_chars(t));
            let parts = split_whitespace(&content);
            if parts.len() == 0 {
                None
            } else {
                assert(views(parts@)[0] == parts@[0]@);
                if eq_ignore_ascii_case(&parts[0], &lower) {
                    None
                } else {
                    Some(parts)
                }
            }
        },
    }
}

fn line_default_exec(t: &Vec<char>, cols: Option<(usize, usize, usize)>) -> (r: bool)
    requires
        byte_len(t@) <= usize::MAX,
    ensures
        r == line_default(t@, opt_cols(cols)),
{
    match cols {
        Some((ns, _, _)) => match byte_prefix_chars(t, ns) {
            Some(p) => contains_char(&p, '*'),
            None => false,
        },
        None => {
            let u = trim_start_chars(t);
            u.len() > 0 && u[0] == '*'
        },
    }
}

/// Reads one line of the table.
fn parse_list_line_exec(line: &Vec<char>, cols: Option<(usize, usize, usize)>) -> (r: Option<
    WslInstance,
>)
    requires
        byte_len(line@) <= usize::MAX,
        cols matches Some(c) ==> line_slices_ok(line@, (c.0 as int, c.1 as int, c.2 as int)),
    ensures
        r matches Some(x) ==> parse_list_line(line@, opt_cols(cols)) == Some(x@),
        r is None ==> parse_list_line(line@, opt_cols(cols)) is None,
{
    let t = trim_end_chars(line);
    if t.len() == 0 {
        return None;
    }
    proof {
        lemma_trim_end_len_bounds(line@, line@.len() as int);
        lemma_byte_len_subrange(line@, 0, t@.len() as int);
        assert(line@.subrange(0, t@.len() as int) =~= t@);
    }
    let tokens = match line_tokens_exec(&t, cols) {
        Some(tok) => tok,
        None => {
            return None;
        },
    };
    let n = tokens.len();
    if n < 2 {
        return None;
    }
    let ghost tv = views(tokens@);
    assert(tv.last() == tokens@[n - 1]@);
    let version = match parse_u8(&tokens[n - 1]) {
        Some(v) => v,
        None => {
            return None;
        },
    };
    let state = if n >= 3 {
        assert(tv[1] == tokens@[1]@);
        InstanceState::from_chars(&tokens[1])
    } else {
        InstanceState::Unknown
    };
    assert(tv[0] == tokens@[0]@);
    let default = line_default_exec(&t, cols);
    let name = chars_to_string(&tokens[0]);
    Some(
        WslInstance {
            name,
            state,
            version,
            default,
            distribution: None,
            ip_address: None,
        },
    )
}

/// Reads the instances of a `wsl --list --verbose` listing.
///
/// Lines that are blank, that carry the header, that lack a name, or whose
/// last field is not a version number (such as "no installed distributions")
/// are passed over. Never fails.
pub fn parse_list_text(text: &str) -> (r: Result<Vec<WslInstance>, WslError>)
    requires
        list_text_ok(text@),
    ensures
        r matches Ok(v) && instance_views(v@) == parse_list_spec(text@),
{
    let lines = text_lines(text);
    let cols = locate_in_lines(&lines);
    let ghost ls = views(lines@);
    let ghost cs = opt_cols(cols);
    assert(cs == columns_spec(text@));
    let mut instances: Vec<WslInstance> = Vec::new();
    let mut i: usize = 0;
    while i < lines.len()
        invariant
            ls == views(lines@),
            ls == lines_of(text@),
            cs == opt_cols(cols),
            cs == columns_spec(text@),
            list_text_ok(text@),
            i <= lines.len(),
            forall|j: int| 0 <= j < lines@.len() ==> byte_len(#[trigger] lines@[j]@) <= usize::MAX,
            parse_list_spec(text@) == instance_views(instances@) + parse_lines_from(
                ls,
                cs,
                i as int,
            ),
        decreases lines.len() - i,
    {
        assert(ls[i as int] == lines@[i as int]@);
        let ghost before = instance_views(instances@);
        match parse_list_line_exec(&lines[i], cols) {
            Some(x) => {
                let ghost xv = x@;
                instances.push(x);
                assert(instance_views(instances@) =~= before.push(xv));
                assert(before + parse_lines_from(ls, cs, i as int) =~= instance_views(instances@)
                    + parse_lines_from(ls, cs, i + 1));
            },
            None => {},
        }
        i = i + 1;
    }
    assert(parse_lines_from(ls, cs, i as int) =~= Seq::<InstanceView>::empty());
    assert(instance_views(instances@) + Seq::<InstanceView>::empty() =~= instance_views(instances@));
    Ok(instances)
}

// ---------------------------------------------------------------------------
// Checking that a listing can be parsed
// ---------------------------------------------------------------------------

fn byte_slice_ok_exec(s: &Vec<char>, a: usize, b: usize) -> (r: bool)
    requires
        byte_len(s@) <= usize::MAX,
    ensures
        r == byte_slice_ok(s@, a as int, b as int),
{
    let (sa, eb) = clamped_range(s, a, b);
    char_index_at_byte(s, sa).is_some() && char_index_at_byte(s, eb).is_some()
}

/// The first header line, or `Err` when its midpoint column is not defined.
fn header_of_lines(lines: &Vec<Vec<char>>) -> (r: Result<Option<(usize, usize, usize)>, ()>)
    requires
        forall|i: int| 0 <= i < lines@.len() ==> byte_len(#[trigger] lines@[i]@) <= usize::MAX,
    ensures
        r is Err <==> !match header_index_from(views(lines@), 0) {
            Some(i) => header_midpoint_defined(views(lines@)[i]),
            None => true,
        },
        r matches Ok(c) ==> opt_cols(c) == match header_index_from(views(lines@), 0) {
            Some(i) => Some(
                (
                    name_column(views(lines@)[i]),
                    state_column(views(lines@)[i]),
                    version_column(views(lines@)[i]),
                ),
            ),
            None => None,
        },
{
    let ghost ls = views(lines@);
    let mut i: usize = 0;
    while i < lines.len()
        invariant
            ls == views(lines@),
            i <= lines.len(),
            forall|j: int| 0 <= j < lines@.len() ==> byte_len(#[trigger] lines@[j]@) <= usize::MAX,
            header_index_from(ls, 0) == header_index_from(ls, i as int),
        decreases lines.len() - i,
    {
        assert(ls[i as int] == lines@[i as int]@);
        match header_columns_exec(&lines[i]) {
            Some(c) => {
                return Ok(Some(c));
            },
            None => {
                let up = to_upper_chars(&lines[i]);
                let name_w: Vec<char> = vec!['N', 'A', 'M', 'E'];
                let version_w: Vec<char> = vec!['V', 'E', 'R', 'S', 'I', 'O', 'N'];
                assert(name_w@ =~= name_word());
                assert(version_w@ =~= version_word());
                if contains_chars(&up, &name_w) && contains_chars(&up, &version_w) {
                    assert(header_index_from(ls, i as int) == Some(i as int));
                    return Err(());
                }
            },
        }
        i = i + 1;
    }
    Ok(None)
}

/// Whether `parse_list_text` accepts `text`: the listing's column midpoint is
/// defined and no column boundary splits a multi-byte character.
pub fn list_text_parsable(text: &str) -> (r: bool)
    ensures
        r == list_text_ok(text@),
{
    let lines = text_lines(text);
    let ghost ls = views(lines@);
    let cols = match header_of_lines(&lines) {
        Ok(c) => c,
        Err(()) => {
            return false;
        },
    };
    let (ns, ss, vs) = match cols {
        Some(c) => c,
        None => {
            return true;
        },
    };
    let ghost c = (ns as int, ss as int, vs as int);
    let mut i: usize = 0;
    while i < lines.len()
        invariant
            ls == views(lines@),
            ls == lines_of(text@),
            columns_spec(text@) == Some(c),
            c == (ns as int, ss as int, vs as int),
            i <= lines.len(),
            forall|j: int| 0 <= j < lines@.len() ==> byte_len(#[trigger] lines@[j]@) <= usize::MAX,
            forall|j: int| 0 <= j < i ==> line_slices_ok(#[trigger] ls[j], c),
        decreases lines.len() - i,
    {
        assert(ls[i as int] == lines@[i as int]@);
        let t = trim_end_chars(&lines[i]);
        if t.len() > 0 {
            proof {
                lemma_trim_end_len_bounds(lines@[i as int]@, lines@[i as int]@.len() as int);
                lemma_byte_len_subrange(lines@[i as int]@, 0, t@.len() as int);
                assert(lines@[i as int]@.subrange(0, t@.len() as int) =~= t@);
            }
            let len = byte_length(&t);
            if !(byte_slice_ok_exec(&t, ns, ss) && byte_slice_ok_exec(&t, ss, vs)
                && byte_slice_ok_exec(&t, vs, len)) {
                assert(!line_slices_ok(ls[i as int], c));
                return false;
            }
        }
        i = i + 1;
    }
    true
}

// ---------------------------------------------------------------------------
// Properties of the parsed listing
// ---------------------------------------------------------------------------

/// What every instance read from a listing satisfies.
pub open spec fn listed_instance(x: InstanceView) -> bool {
    &&& x.name.len() > 0
    &&& !eq_ignore_case(x.name, name_lower())
    &&& x.distribution is None
    &&& x.ip_address is None
}

proof fn lemma_parse_list_line_listed(line: Seq<char>, cols: Option<(int, int, int)>)
    ensures
        parse_list_line(line, cols) matches Some(x) ==> listed_instance(x),
{
    let t = trim_end(line);
    if t.len() > 0 && cols is None {
        let content = trim_start(trim_stars(t));
        lemma_split_ws_tokens_nonempty(content, 0);
    }
}

proof fn lemma_parse_lines_listed(lines: Seq<Seq<char>>, cols: Option<(int, int, int)>, i: int)
    requires
        0 <= i,
    ensures
        forall|k: int|
            0 <= k < parse_lines_from(lines, cols, i).len() ==> listed_instance(
                #[trigger] parse_lines_from(lines, cols, i)[k],
            ),
    decreases lines.len() - i,
{
    if i < lines.len() {
        lemma_parse_lines_listed(lines, cols, i + 1);
        lemma_parse_list_line_listed(lines[i], cols);
        let rest = parse_lines_from(lines, cols, i + 1);
        match parse_list_line(lines[i], cols) {
            Some(x) => {
                assert forall|k: int|
                    0 <= k < parse_lines_from(lines, cols, i).len() implies listed_instance(
                    #[trigger] parse_lines_from(lines, cols, i)[k],
                ) by {
                    if k > 0 {
                        assert(parse_lines_from(lines, cols, i)[k] == rest[k - 1]);
                    }
                }
            },
            None => {},
        }
    }
}

/// Every instance read from a listing has a non-empty name that is not the
/// `NAME` header, and no distribution or address yet: those are filled in
/// afterwards and stay empty when their commands fail.
pub proof fn lemma_listed_instances(text: Seq<char>)
    ensures
        forall|k: int|
            0 <= k < parse_list_spec(text).len() ==> listed_instance(
                #[trigger] parse_list_spec(text)[k],
            ),
{
    lemma_parse_lines_listed(lines_of(text), columns_spec(text), 0);
}

/// A listing without any line holding both `NAME` and `VERSION` is read by
/// whitespace splitting, and parsing it cannot panic.
pub proof fn lemma_headerless_listing_parsable(text: Seq<char>)
    requires
        header_index_from(lines_of(text), 0) is None,
    ensures
        columns_spec(text) is None,
        list_text_ok(text),
{
}

proof fn lemma_no_header_from(lines: Seq<Seq<char>>, j: int)
    requires
        0 <= j,
        forall|i: int| 0 <= i < lines.len() ==> !is_header_line(#[trigger] lines[i]),
    ensures
        header_index_from(lines, j) is None,
    decreases lines.len() - j,
{
    if j < lines.len() {
        lemma_no_header_from(lines, j + 1);
    }
}

proof fn lemma_parse_lines_shift(
    l1: Seq<Seq<char>>,
    l2: Seq<Seq<char>>,
    cols: Option<(int, int, int)>,
    j: int,
)
    requires
        0 <= j,
    ensures
        parse_lines_from(l1 + l2, cols, l1.len() + j) == parse_lines_from(l2, cols, j),
    decreases l2.len() - j,
{
    if j < l2.len() {
        assert((l1 + l2)[l1.len() + j] == l2[j]);
        lemma_parse_lines_shift(l1, l2, cols, j + 1);
    }
}

proof fn lemma_parse_lines_concat(
    l1: Seq<Seq<char>>,
    l2: Seq<Seq<char>>,
    cols: Option<(int, int, int)>,
    i: int,
)
    requires
        0 <= i <= l1.len(),
    ensures
        parse_lines_from(l1 + l2, cols, i) == parse_lines_from(l1, cols, i) + parse_lines_from(
            l2,
            cols,
            0,
        ),
    decreases l1.len() - i,
{
    if i == l1.len() {
        lemma_parse_lines_shift(l1, l2, cols, 0);
        assert(parse_lines_from(l1, cols, i) =~= Seq::<InstanceView>::empty());
        assert(Seq::<InstanceView>::empty() + parse_lines_from(l2, cols, 0) =~= parse_lines_from(
            l2,
            cols,
            0,
        ));
    } else {
        assert((l1 + l2)[i] == l1[i]);
        lemma_parse_lines_concat(l1, l2, cols, i + 1);
        let rest1 = parse_lines_from(l1, cols, i + 1);
        let rest2 = parse_lines_from(l2, cols, 0);
        match parse_list_line(l1[i], cols) {
            Some(x) => {
                assert(seq![x] + (rest1 + rest2) =~= (seq![x] + rest1) + rest2);
            },
            None => {},
        }
    }
}

/// Without a header line, every line of a listing is read on its own: the
/// listing of two texts, the first empty or ending with a line break, is the
/// listing of the first followed by that of the second.
pub proof fn lemma_headerless_listing_concat(a: Seq<char>, b: Seq<char>)
    requires
        a.len() == 0 || a.last() == '\n',
        forall|i: int| 0 <= i < lines_of(a).len() ==> !is_header_line(#[trigger] lines_of(a)[i]),
        forall|i: int| 0 <= i < lines_of(b).len() ==> !is_header_line(#[trigger] lines_of(b)[i]),
    ensures
        list_text_ok(a + b),
        parse_list_spec(a + b) == parse_list_spec(a) + parse_list_spec(b),
{
    lemma_lines_of_concat(a, b);
    let la = lines_of(a);
    let lb = lines_of(b);
    let l = lines_of(a + b);
    assert forall|i: int| 0 <= i < l.len() implies !is_header_line(#[trigger] l[i]) by {
        if i < la.len() {
            assert(l[i] == la[i]);
        } else {
            assert(l[i] == lb[i - la.len()]);
        }
    }
    lemma_no_header_from(l, 0);
    lemma_no_header_from(la, 0);
    lemma_no_header_from(lb, 0);
    lemma_parse_lines_concat(la, lb, None, 0);
}

// ---------------------------------------------------------------------------
// Where each instance comes from
// ---------------------------------------------------------------------------

/// The fields of a listing line: with columns, the three trimmed column
/// slices; without, the whitespace-separated words after any leading `*`.
pub open spec fn line_fields(line: Seq<char>, cols: Option<(int, int, int)>) -> Seq<Seq<char>> {
    let t = trim_end(line);
    match cols {
        Some((ns, ss, vs)) => seq![
            trim(byte_slice(t, ns, ss)),
            trim(byte_slice(t, ss, vs)),
            trim(byte_slice(t, vs, byte_len(t) as int)),
        ],
        None => split_ws(trim_start(trim_stars(t))),
    }
}

/// `x` is what `line` describes: its first field is the name, its last field
/// the version, and the state is `Running` exactly for the word `Running` in
/// the second of three or more fields, `Stopped` exactly for `Stopped` there,
/// and `Unknown` for any other word or without a state field.
pub open spec fn describes(line: Seq<char>, cols: Option<(int, int, int)>, x: InstanceView) -> bool {
    let f = line_fields(line, cols);
    &&& f.len() >= 2
    &&& x.name == f[0]
    &&& parse_u8_spec(f.last()) == Some(x.version)
    &&& (x.state == InstanceState::Running) <==> (f.len() >= 3 && f[1] == running_word())
    &&& (x.state == InstanceState::Stopped) <==> (f.len() >= 3 && f[1] == stopped_word())
}

proof fn lemma_parse_list_line_describes(line: Seq<char>, cols: Option<(int, int, int)>)
    ensures
        parse_list_line(line, cols) matches Some(x) ==> describes(line, cols, x),
{
}

proof fn lemma_parse_lines_describe(
    lines: Seq<Seq<char>>,
    cols: Option<(int, int, int)>,
    i: int,
) -> (src: Seq<int>)
    requires
        0 <= i,
    ensures
        src.len() == parse_lines_from(lines, cols, i).len(),
        forall|k: int|
            0 <= k < src.len() ==> i <= #[trigger] src[k] < lines.len() && describes(
                lines[src[k]],
                cols,
                parse_lines_from(lines, cols, i)[k],
            ),
        forall|a: int, b: int| 0 <= a < b < src.len() ==> #[trigger] src[a] < #[trigger] src[b],
    decreases lines.len() - i,
{
    if i >= lines.len() {
        Seq::empty()
    } else {
        let rest_src = lemma_parse_lines_describe(lines, cols, i + 1);
        lemma_parse_list_line_describes(lines[i], cols);
        let rest = parse_lines_from(lines, cols, i + 1);
        match parse_list_line(lines[i], cols) {
            Some(x) => {
                let src = seq![i] + rest_src;
                let all = parse_lines_from(lines, cols, i);
                assert(all == seq![x] + rest);
                assert forall|k: int| 0 <= k < src.len() implies i <= #[trigger] src[k]
                    < lines.len() && describes(lines[src[k]], cols, all[k]) by {
                    if k > 0 {
                        assert(src[k] == rest_src[k - 1]);
                        assert(all[k] == rest[k - 1]);
                    }
                }
                assert forall|a: int, b: int| 0 <= a < b < src.len() implies #[trigger] src[a]
                    < #[trigger] src[b] by {
                    assert(src[b] == rest_src[b - 1]);
                    if a > 0 {
                        assert(src[a] == rest_src[a - 1]);
                    }
                }
                src
            },
            None => rest_src,
        }
    }
}

/// Every instance read from a listing, with header columns or by whitespace,
/// is described by one of its lines, in line order: the name is that line's
/// first field, the version its last, and the state is `Running` only for the
/// word `Running`, `Stopped` only for `Stopped`, and `Unknown` for any other
/// state word (a localized one) or when the line has no state field. The
/// result gives, for each instance, the index of its line.
pub proof fn lemma_listing_from_lines(text: Seq<char>) -> (src: Seq<int>)
    ensures
        src.len() == parse_list_spec(text).len(),
        forall|k: int|
            0 <= k < src.len() ==> 0 <= #[trigger] src[k] < lines_of(text).len() && describes(
                lines_of(text)[src[k]],
                columns_spec(text),
                parse_list_spec(text)[k],
            ),
        forall|a: int, b: int| 0 <= a < b < src.len() ==> #[trigger] src[a] < #[trigger] src[b],
{
    lemma_parse_lines_describe(lines_of(text), columns_spec(text), 0)
}

/// A one-line listing without a header is read by whitespace: after any
/// leading `*` its words are name, optional state and version; it yields
/// that one instance, marked default when the line starts with `*`, unless it
/// has fewer than two words, its first word is `NAME`, or its last word is not
/// a version number.
pub proof fn lemma_one_line_listing(line: Seq<char>)
    requires
        line.len() > 0,
        !line.contains('\n'),
        !is_header_line(line),
    ensures
        ({
            let t = trim_end(line);
            let f = split_ws(trim_start(trim_stars(t)));
            if f.len() < 2 || eq_ignore_case(f[0], name_lower()) || parse_u8_spec(f.last()) is None {
                parse_list_spec(line) == Seq::<InstanceView>::empty()
            } else {
                parse_list_spec(line) == seq![
                    InstanceView {
                        name: f[0],
                        state: if f.len() >= 3 && f[1] == running_word() {
                            InstanceState::Running
                        } else if f.len() >= 3 && f[1] == stopped_word() {
                            InstanceState::Stopped
                        } else {
                            InstanceState::Unknown
                        },
                        version: parse_u8_spec(f.last()).unwrap(),
                        default: trim_start(t).len() > 0 && trim_start(t)[0] == '*',
                        distribution: None,
                        ip_address: None,
                    },
                ]
            }
        }),
{
    lemma_lines_of_single(line);
    let lines = lines_of(line);
    assert(header_index_from(lines, 1) is None);
    assert(header_index_from(lines, 0) is None);
    assert(parse_lines_from(lines, None, 1) =~= Seq::<InstanceView>::empty());
    let t = trim_end(line);
    if t.len() == 0 {
        assert(trim_stars(t) =~= t);
        assert(split_ws(trim_start(trim_stars(t))) =~= Seq::<Seq<char>>::empty());
    }
}

// ---------------------------------------------------------------------------
// ASCII listings
// ---------------------------------------------------------------------------

proof fn lemma_ascii_byte_len(s: Seq<char>)
    requires
        is_ascii_chars(s),
    ensures
        byte_len(s) == s.len(),
    decreases s.len(),
{
    if s.len() > 0 {
        assert(s[0] <= '\u{7f}');
        assert(is_ascii_chars(s.drop_first())) by {
            assert forall|i: int| 0 <= i < s.drop_first().len() implies '\0' <= #[trigger] s.drop_first()[i]
                <= '\u{7f}' by {
                assert(s.drop_first()[i] == s[i + 1]);
            }
        }
        lemma_ascii_byte_len(s.drop_first());
    }
}

proof fn lemma_ascii_char_at_byte_from(s: Seq<char>, i: int, b: int)
    requires
        is_ascii_chars(s),
        0 <= i <= b <= s.len(),
    ensures
        char_at_byte_from(s, i, i, b) == Some(b),
    decreases s.len() - i,
{
    if i < b {
        assert(s[i] <= '\u{7f}');
        lemma_ascii_char_at_byte_from(s, i + 1, b);
    }
}

/// In ASCII text every byte offset up to the length is a character boundary.
proof fn lemma_ascii_slice_ok(t: Seq<char>, x: int, y: int)
    requires
        is_ascii_chars(t),
        0 <= x,
    ensures
        byte_slice_ok(t, x, y),
{
    lemma_ascii_byte_len(t);
    let sa = clamp_start(t, x);
    let eb = clamp_end(t, x, y);
    lemma_ascii_char_at_byte_from(t, 0, sa);
    lemma_ascii_char_at_byte_from(t, 0, eb);
}

proof fn lemma_ascii_subrange(s: Seq<char>, a: int, b: int)
    requires
        is_ascii_chars(s),
        0 <= a <= b <= s.len(),
    ensures
        is_ascii_chars(s.subrange(a, b)),
{
    assert forall|i: int| 0 <= i < s.subrange(a, b).len() implies '\0' <= #[trigger] s.subrange(
        a,
        b,
    )[i] <= '\u{7f}' by {
        assert(s.subrange(a, b)[i] == s[a + i]);
    }
}

proof fn lemma_ascii_lines(s: Seq<char>, j: int)
    requires
        is_ascii_chars(s),
        0 <= j,
    ensures
        forall|k: int|
            0 <= k < lines_from(s, j).len() ==> is_ascii_chars(#[trigger] lines_from(s, j)[k]),
    decreases s.len() - j,
{
    if j < s.len() {
        let c = find_char_from(s, '\n', j);
        lemma_find_char_from_bounds(s, '\n', j);
        if c >= s.len() {
            lemma_ascii_subrange(s, j, s.len() as int);
        } else {
            lemma_ascii_lines(s, c + 1);
            let first = s.subrange(j, c);
            lemma_ascii_subrange(s, j, c);
            if first.len() > 0 && first.last() == '\r' {
                lemma_ascii_subrange(s, j, c - 1);
                assert(first.drop_last() =~= s.subrange(j, c - 1));
            }
            let rest = lines_from(s, c + 1);
            assert forall|k: int| 0 <= k < lines_from(s, j).len() implies is_ascii_chars(
                #[trigger] lines_from(s, j)[k],
            ) by {
                if k > 0 {
                    assert(lines_from(s, j)[k] == rest[k - 1]);
                }
            }
        }
    }
}

/// An ASCII listing always parses, unless its header puts `VERSION` before
/// `NAME` without a `STATE` column: no column boundary can split a character.
pub proof fn lemma_ascii_listing_parsable(text: Seq<char>)
    requires
        is_ascii_chars(text),
        columns_defined(text),
    ensures
        list_text_ok(text),
{
    let lines = lines_of(text);
    lemma_ascii_lines(text, 0);
    if let Some(h) = header_index_from(lines, 0) {
        let c = columns_spec(text).unwrap();
        assert(c.0 >= 0 && c.1 >= 0 && c.2 >= 0);
        assert forall|i: int| 0 <= i < lines.len() implies line_slices_ok(#[trigger] lines[i], c) by {
            let t = trim_end(lines[i]);
            lemma_trim_end_len_bounds(lines[i], lines[i].len() as int);
            lemma_ascii_subrange(lines[i], 0, trim_end_len(lines[i], lines[i].len() as int));
            assert(t =~= lines[i].subrange(0, trim_end_len(lines[i], lines[i].len() as int)));
            lemma_ascii_slice_ok(t, c.0, c.1);
            lemma_ascii_slice_ok(t, c.1, c.2);
            lemma_ascii_slice_ok(t, c.2, byte_len(t) as int);
        }
    }
}

} // verus!
