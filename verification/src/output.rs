//! Parsing of the smaller `wsl.exe` outputs: the online distribution list,
//! `/etc/os-release`, the running instances, and `hostname -I`.
use vstd::prelude::*;
use crate::error::WslError;
use crate::listing::{name_word, text_lines};
use crate::text::{
    find_char_from, is_ws, lemma_find_from_some, lemma_lines_of_concat, lemma_lines_of_single,
    lemma_lines_of_terminated, lemma_trim_has_field, lemma_trim_unchanged, skip_stars_from, strip_cr, lemma_find_char_from_bounds, skip_ws_from, trim_end, trim_end_len, trim_start,
    chars_to_string, contains_chars, contains_seq, has_prefix, lines_of, split_whitespace, split_ws,
    starts_with, str_to_chars, lemma_split_ws_tokens_nonempty, sub_chars, to_upper_chars, trim, trim_chars, trim_stars,
    trim_stars_chars, upper_seq, views,
};

verus! {

/// The character sequences held by a list of strings.
pub open spec fn string_views(v: Seq<String>) -> Seq<Seq<char>> {
    v.map_values(|s: String| s@)
}

// ---------------------------------------------------------------------------
// wsl --list --online
// ---------------------------------------------------------------------------

/// Distribution names in `lines[i..]`: blank lines are passed over, the first
/// line that mentions `NAME` (while `in_header`) is the header, and every
/// other line gives its first whitespace-separated field.
pub open spec fn online_from(lines: Seq<Seq<char>>, i: int, in_header: bool) -> Seq<Seq<char>>
    decreases lines.len() - i,
{
    if i < 0 || i >= lines.len() {
        seq![]
    } else {
        let t = trim(lines[i]);
        if t.len() == 0 {
            online_from(lines, i + 1, in_header)
        } else if in_header && contains_seq(upper_seq(t), name_word()) {
            online_from(lines, i + 1, false)
        } else {
            let p = split_ws(t);
            if p.len() > 0 {
                seq![p[0]] + online_from(lines, i + 1, in_header)
            } else {
                online_from(lines, i + 1, in_header)
            }
        }
    }
}

pub open spec fn online_list_spec(text: Seq<char>) -> Seq<Seq<char>> {
    online_from(lines_of(text), 0, true)
}

proof fn lemma_online_from_nonempty(lines: Seq<Seq<char>>, i: int, h: bool)
    requires
        0 <= i,
    ensures
        forall|k: int|
            0 <= k < online_from(lines, i, h).len() ==> (#[trigger] online_from(lines, i, h)[k]).len()
                > 0,
    decreases lines.len() - i,
{
    if i < lines.len() {
        let t = trim(lines[i]);
        lemma_online_from_nonempty(lines, i + 1, h);
        lemma_online_from_nonempty(lines, i + 1, false);
        if t.len() > 0 && !(h && contains_seq(upper_seq(t), name_word())) {
            lemma_split_ws_tokens_nonempty(t, 0);
            let p = split_ws(t);
            if p.len() > 0 {
                let rest = online_from(lines, i + 1, h);
                assert forall|k: int| 0 <= k < online_from(lines, i, h).len() implies (
                #[trigger] online_from(lines, i, h)[k]).len() > 0 by {
                    if k > 0 {
                        assert(online_from(lines, i, h)[k] == rest[k - 1]);
                    }
                }
            }
        }
    }
}

/// No name read from the online list is empty.
pub proof fn lemma_online_names_nonempty(text: Seq<char>)
    ensures
        forall|k: int|
            0 <= k < online_list_spec(text).len() ==> (#[trigger] online_list_spec(text)[k]).len()
                > 0,
{
    lemma_online_from_nonempty(lines_of(text), 0, true);
}

proof fn lemma_online_from_fields(lines: Seq<Seq<char>>, i: int, h: bool) -> (src: Seq<int>)
    requires
        0 <= i,
    ensures
        src.len() == online_from(lines, i, h).len(),
        forall|k: int|
            0 <= k < src.len() ==> i <= #[trigger] src[k] < lines.len() && split_ws(
                trim(lines[src[k]]),
            ).len() > 0 && online_from(lines, i, h)[k] == split_ws(trim(lines[src[k]]))[0],
        forall|a: int, b: int| 0 <= a < b < src.len() ==> #[trigger] src[a] < #[trigger] src[b],
    decreases lines.len() - i,
{
    if i >= lines.len() {
        Seq::empty()
    } else {
        let t = trim(lines[i]);
        if t.len() == 0 {
            lemma_online_from_fields(lines, i + 1, h)
        } else if h && contains_seq(upper_seq(t), name_word()) {
            lemma_online_from_fields(lines, i + 1, false)
        } else {
            let p = split_ws(t);
            let rest_src = lemma_online_from_fields(lines, i + 1, h);
            if p.len() > 0 {
                let rest = online_from(lines, i + 1, h);
                let all = online_from(lines, i, h);
                let src = seq![i] + rest_src;
                assert(all == seq![p[0]] + rest);
                assert forall|k: int| 0 <= k < src.len() implies i <= #[trigger] src[k]
                    < lines.len() && split_ws(trim(lines[src[k]])).len() > 0 && all[k] == split_ws(
                    trim(lines[src[k]]),
                )[0] by {
                    if k > 0 {
                        assert(src[k] == rest_src[k - 1]);
                        assert(all[k] == rest[k - 1]);
                    }
                }
                assert forall|a: int, b: int| 0 <= a < b < src.len() implies #[trigger] src[a]
                    < #[trigger] src[b] by {
                    assert(src[b] == rest_src[b - 1]);
                    if a > 0 {
                        assert(src[a] == rest_src[a - 1]);
                    }
                }
                src
            } else {
                rest_src
            }
        }
    }
}

/// Every name read from the online list is the whole first
/// whitespace-separated field of one of its lines, and the names come in the
/// order of their lines. The result gives, for each name, the index of its
/// line.
pub proof fn lemma_online_names_are_first_fields(text: Seq<char>) -> (src: Seq<int>)
    ensures
        src.len() == online_list_spec(text).len(),
        forall|k: int|
            0 <= k < src.len() ==> 0 <= #[trigger] src[k] < lines_of(text).len() && split_ws(
                trim(lines_of(text)[src[k]]),
            ).len() > 0 && online_list_spec(text)[k] == split_ws(trim(lines_of(text)[src[k]]))[0],
        forall|a: int, b: int| 0 <= a < b < src.len() ==> #[trigger] src[a] < #[trigger] src[b],
{
    lemma_online_from_fields(lines_of(text), 0, true)
}

/// A header line that mentions `NAME`, followed by one non-blank line, lists
/// exactly one distribution: the whole first whitespace-separated field of
/// that line.
pub proof fn lemma_online_one_entry(h: Seq<char>, l: Seq<char>)
    requires
        !h.contains('\n'),
        contains_seq(upper_seq(trim(strip_cr(h))), name_word()),
        !l.contains('\n'),
        trim(l).len() > 0,
    ensures
        split_ws(trim(l)).len() > 0,
        online_list_spec(h + seq!['\n'] + l) == seq![split_ws(trim(l))[0]],
{
    let hn = h + seq!['\n'];
    lemma_lines_of_terminated(h);
    assert(l.len() > 0);
    lemma_lines_of_single(l);
    lemma_lines_of_concat(hn, l);
    let lines = lines_of(hn + l);
    assert(lines == seq![strip_cr(h), l]);
    let th = trim(strip_cr(h));
    lemma_find_from_some(upper_seq(th), name_word(), 0);
    assert(upper_seq(th).len() == th.len());
    assert(th.len() > 0);
    lemma_trim_has_field(l);
    assert(lines[0] == strip_cr(h));
    assert(lines[1] == l);
    assert(online_from(lines, 2, false) =~= Seq::<Seq<char>>::empty());
    assert(online_from(lines, 1, false) == seq![split_ws(trim(l))[0]] + online_from(lines, 2, false));
    assert(online_from(lines, 0, true) == online_from(lines, 1, false));
}

/// Names of the distributions offered by `wsl --list --online`.
pub fn parse_online_list(text: &str) -> (r: Vec<String>)
    ensures
        string_views(r@) == online_list_spec(text@),
{
    let lines = text_lines(text);
    let ghost ls = views(lines@);
    let name_w: Vec<char> = vec!['N', 'A', 'M', 'E'];
    assert(name_w@ =~= name_word());
    let mut names: Vec<String> = Vec::new();
    let mut in_header = true;
    let mut i: usize = 0;
    while i < lines.len()
        invariant
            ls == views(lines@),
            ls == lines_of(text@),
            name_w@ == name_word(),
            i <= lines.len(),
            online_list_spec(text@) == string_views(names@) + online_from(ls, i as int, in_header),
        decreases lines.len() - i,
    {
        assert(ls[i as int] == lines@[i as int]@);
        let ghost before = string_views(names@);
        let ghost h = in_header;
        let t = trim_chars(&lines[i]);
        if t.len() == 0 {
        } else if in_header && contains_chars(&to_upper_chars(&t), &name_w) {
            in_header = false;
        } else {
            let parts = split_whitespace(&t);
            if parts.len() > 0 {
                assert(views(parts@)[0] == parts@[0]@);
                let first = chars_to_string(&parts[0]);
                names.push(first);
                assert(string_views(names@) =~= before.push(parts@[0]@));
                assert(before + online_from(ls, i as int, h) =~= string_views(names@)
                    + online_from(ls, i + 1, in_header));
            }
        }
        i = i + 1;
    }
    assert(online_from(ls, i as int, in_header) =~= Seq::<Seq<char>>::empty());
    assert(string_views(names@) + Seq::<Seq<char>>::empty() =~= string_views(names@));
    names
}

// ---------------------------------------------------------------------------
// /etc/os-release
// ---------------------------------------------------------------------------

pub open spec fn pretty_key() -> Seq<char> {
    seq!['P', 'R', 'E', 'T', 'T', 'Y', '_', 'N', 'A', 'M', 'E', '=']
}

/// One surrounding pair of quotes removed: a leading `"`, then a trailing `"`.
pub open spec fn unquote(v: Seq<char>) -> Seq<char> {
    let a = if v.len() > 0 && v[0] == '"' {
        v.drop_first()
    } else {
        v
    };
    if a.len() > 0 && a.last() == '"' {
        a.drop_last()
    } else {
        a
    }
}

/// The value of the first `PRETTY_NAME=` line in `lines[i..]`.
pub open spec fn pretty_name_from(lines: Seq<Seq<char>>, i: int) -> Option<Seq<char>>
    decreases lines.len() - i,
{
    if i < 0 || i >= lines.len() {
        None
    } else {
        let t = trim(lines[i]);
        if starts_with(t, pretty_key()) {
            Some(unquote(trim(t.skip(pretty_key().len() as int))))
        } else {
            pretty_name_from(lines, i + 1)
        }
    }
}

pub open spec fn pretty_name_spec(text: Seq<char>) -> Option<Seq<char>> {
    pretty_name_from(lines_of(text), 0)
}

fn unquote_chars(v: &Vec<char>) -> (r: Vec<char>)
    ensures
        r@ == unquote(v@),
{
    let a = if v.len() > 0 && v[0] == '"' {
        sub_chars(v, 1, v.len())
    } else {
        sub_chars(v, 0, v.len())
    };
    assert(v@.subrange(0, v@.len() as int) =~= v@);
    assert(v@.len() > 0 ==> v@.subrange(1, v@.len() as int) =~= v@.drop_first());
    if a.len() > 0 && a[a.len() - 1] == '"' {
        let r = sub_chars(&a, 0, a.len() - 1);
        assert(r@ =~= a@.drop_last());
        r
    } else {
        a
    }
}

/// The value of `PRETTY_NAME` in an `/etc/os-release` text, surrounding
/// quotes removed.
pub fn parse_os_release_pretty_name(text: &str) -> (r: Option<String>)
    ensures
        r matches Some(s) ==> pretty_name_spec(text@) == Some(s@),
        r is None ==> pretty_name_spec(text@) is None,
{
    let lines = text_lines(text);
    let ghost ls = views(lines@);
    let key: Vec<char> = vec!['P', 'R', 'E', 'T', 'T', 'Y', '_', 'N', 'A', 'M', 'E', '='];
    assert(key@ =~= pretty_key());
    let mut i: usize = 0;
    while i < lines.len()
        invariant
            ls == views(lines@),
            ls == lines_of(text@),
            key@ == pretty_key(),
            i <= lines.len(),
            pretty_name_spec(text@) == pretty_name_from(ls, i as int),
        decreases lines.len() - i,
    {
        assert(ls[i as int] == lines@[i as int]@);
        let t = trim_chars(&lines[i]);
        if has_prefix(&t, &key) {
            let rest = sub_chars(&t, key.len(), t.len());
            assert(rest@ =~= t@.skip(pretty_key().len() as int));
            let value = unquote_chars(&trim_chars(&rest));
            return Some(chars_to_string(&value));
        }
        i = i + 1;
    }
    None
}

/// `PRETTY_NAME="<s>"` on a line of its own gives back `s`.
pub proof fn lemma_pretty_name_roundtrip(s: Seq<char>)
    requires
        !s.contains('\n'),
    ensures
        pretty_name_spec(pretty_key() + seq!['"'] + s + seq!['"']) == Some(s),
{
    let q = seq!['"'] + s + seq!['"'];
    let t = pretty_key() + q;
    assert(pretty_key() + seq!['"'] + s + seq!['"'] =~= t);
    let n = t.len() as int;
    assert forall|i: int| 0 <= i < n implies t[i] != '\n' by {
        if 13 <= i < n - 1 {
            assert(t[i] == s[i - 13]);
            if s[i - 13] == '\n' {
                assert(s.contains('\n'));
            }
        }
    }
    lemma_find_char_from_bounds(t, '\n', 0);
    assert(find_char_from(t, '\n', 0) == n);
    assert(t.subrange(0, n) =~= t);
    assert(lines_of(t) == seq![t]);
    assert(lines_of(t)[0] == t);
    // trimming leaves both texts alone: they begin and end with non-blanks
    assert(skip_ws_from(t, 0) == 0);
    assert(trim_start(t) =~= t);
    assert(trim_end_len(t, n) == n);
    assert(trim_end(t) =~= t);
    assert(trim(t) == t);
    assert(t.take(12) =~= pretty_key());
    assert(starts_with(t, pretty_key()));
    assert(t.skip(12) =~= q);
    let m = q.len() as int;
    assert(skip_ws_from(q, 0) == 0);
    assert(trim_start(q) =~= q);
    assert(trim_end_len(q, m) == m);
    assert(trim_end(q) =~= q);
    assert(trim(q) == q);
    assert(q.drop_first() =~= s + seq!['"']);
    assert((s + seq!['"']).drop_last() =~= s);
    assert(unquote(q) == s);
}

/// The distribution's pretty name, or a parse error when the text has none.
pub fn parse_distribution(text: &str) -> (r: Result<String, WslError>)
    ensures
        r matches Ok(s) ==> pretty_name_spec(text@) == Some(s@),
        r is Err ==> pretty_name_spec(text@) is None,
        r matches Err(e) ==> (e matches WslError::ParseError(m) && m@
            == "PRETTY_NAME not found in /etc/os-release"@),
{
    match parse_os_release_pretty_name(text) {
        Some(s) => Ok(s),
        None => Err(WslError::ParseError(String::from_str("PRETTY_NAME not found in /etc/os-release"))),
    }
}

// ---------------------------------------------------------------------------
// wsl --list --running --quiet
// ---------------------------------------------------------------------------

/// The name a line of the running list gives: trimmed, leading `*` removed,
/// trimmed again.
pub open spec fn running_line_name(line: Seq<char>) -> Seq<char> {
    trim(trim_stars(trim(line)))
}

/// Adds the name of one line to the names found so far, once.
pub open spec fn running_step(acc: Seq<Seq<char>>, line: Seq<char>) -> Seq<Seq<char>> {
    let n = running_line_name(line);
    if n.len() > 0 && !acc.contains(n) {
        acc.push(n)
    } else {
        acc
    }
}

pub open spec fn running_fold(lines: Seq<Seq<char>>, i: int, acc: Seq<Seq<char>>) -> Seq<
    Seq<char>,
>
    decreases lines.len() - i,
{
    if i < 0 || i >= lines.len() {
        acc
    } else {
        running_fold(lines, i + 1, running_step(acc, lines[i]))
    }
}

/// The set of running instance names, each once, in order of appearance.
pub open spec fn running_names_spec(text: Seq<char>) -> Seq<Seq<char>> {
    running_fold(lines_of(text), 0, seq![])
}

proof fn lemma_running_fold(lines: Seq<Seq<char>>, i: int, acc: Seq<Seq<char>>)
    requires
        0 <= i,
        acc.no_duplicates(),
    ensures
        running_fold(lines, i, acc).no_duplicates(),
        forall|n: Seq<char>|
            #[trigger] running_fold(lines, i, acc).contains(n) <==> (acc.contains(n) || (n.len()
                > 0 && exists|k: int| i <= k < lines.len() && running_line_name(lines[k]) == n)),
    decreases lines.len() - i,
{
    if i < lines.len() {
        let next = running_step(acc, lines[i]);
        let m = running_line_name(lines[i]);
        if m.len() > 0 && !acc.contains(m) {
            assert forall|a: int, b: int| 0 <= a < b < next.len() implies next[a] != next[b] by {
                if b == acc.len() {
                    assert(acc.contains(next[a]));
                }
            }
            assert forall|n: Seq<char>| #[trigger] next.contains(n) <==> (acc.contains(n) || n
                == m) by {
                if n == m {
                    assert(next[acc.len() as int] == m);
                }
                if acc.contains(n) {
                    let j = choose|j: int| 0 <= j < acc.len() && acc[j] == n;
                    assert(next[j] == n);
                }
            }
        }
        lemma_running_fold(lines, i + 1, next);
        assert forall|n: Seq<char>| #[trigger] running_fold(lines, i, acc).contains(n) <==> (
        acc.contains(n) || (n.len() > 0 && exists|k: int|
            i <= k < lines.len() && running_line_name(lines[k]) == n)) by {
            if n.len() > 0 && exists|k: int| i <= k < lines.len() && running_line_name(lines[k]) == n {
                let k = choose|k: int| i <= k < lines.len() && running_line_name(lines[k]) == n;
                if k > i {
                    assert(i + 1 <= k < lines.len() && running_line_name(lines[k]) == n);
                }
            }
            if n.len() > 0 && exists|k: int| i + 1 <= k < lines.len() && running_line_name(lines[k]) == n {
                let k = choose|k: int| i + 1 <= k < lines.len() && running_line_name(lines[k]) == n;
                assert(i <= k < lines.len() && running_line_name(lines[k]) == n);
            }
        }
    }
}

/// The running list holds each name once, and exactly the non-empty names
/// that its lines give.
pub proof fn lemma_running_names(text: Seq<char>)
    ensures
        running_names_spec(text).no_duplicates(),
        forall|n: Seq<char>|
            #[trigger] running_names_spec(text).contains(n) <==> (n.len() > 0 && exists|k: int|
                0 <= k < lines_of(text).len() && running_line_name(lines_of(text)[k]) == n),
{
    let e: Seq<Seq<char>> = seq![];
    lemma_running_fold(lines_of(text), 0, e);
    assert forall|n: Seq<char>| !e.contains(n) by {}
}

/// The running list holds exactly the non-empty names its lines give, each
/// line read whole: trimmed, leading `*` removed, trimmed again, and nothing
/// cut from what remains.
pub proof fn lemma_running_names_whole_lines(text: Seq<char>)
    ensures
        forall|n: Seq<char>|
            #[trigger] running_names_spec(text).contains(n) <==> (n.len() > 0 && exists|k: int|
                0 <= k < lines_of(text).len() && trim(trim_stars(trim(lines_of(text)[k]))) == n),
{
    lemma_running_names(text);
}

/// A running list of one name without whitespace that does not start with
/// `*`, on a line of its own (with or without a line break, `\n` or
/// `\r\n`), gives exactly that name, whatever characters (such as `-` or
/// `.`) it holds.
pub proof fn lemma_running_one_name(n: Seq<char>, end: Seq<char>)
    requires
        n.len() > 0,
        n[0] != '*',
        forall|i: int| 0 <= i < n.len() ==> !is_ws(#[trigger] n[i]),
        end == Seq::<char>::empty() || end == seq!['\n'] || end == seq!['\r', '\n'],
    ensures
        running_names_spec(n + end) == seq![n],
{
    assert(!n.contains('\n')) by {
        if n.contains('\n') {
            let j = choose|j: int| 0 <= j < n.len() && n[j] == '\n';
            assert(is_ws(n[j]));
        }
    }
    assert(!is_ws(n[0]));
    assert(!is_ws(n.last()));
    if end.len() == 0 {
        assert(n + end =~= n);
        lemma_lines_of_single(n);
    } else if end.len() == 1 {
        lemma_lines_of_terminated(n);
        assert(strip_cr(n) == n);
    } else {
        let nr = n + seq!['\r'];
        assert(n + end =~= nr + seq!['\n']);
        assert(!nr.contains('\n')) by {
            if nr.contains('\n') {
                let j = choose|j: int| 0 <= j < nr.len() && nr[j] == '\n';
                assert(j < n.len());
                assert(nr[j] == n[j]);
            }
        }
        lemma_lines_of_terminated(nr);
        assert(nr.drop_last() =~= n);
        assert(strip_cr(nr) == n);
    }
    let lines = lines_of(n + end);
    assert(lines == seq![n]);
    lemma_trim_unchanged(n);
    assert(skip_stars_from(n, 0) == 0);
    assert(trim_stars(n) =~= n);
    assert(running_line_name(n) == n);
    let e: Seq<Seq<char>> = seq![];
    assert(!e.contains(n));
    assert(running_step(e, n) =~= seq![n]);
    assert(running_fold(lines, 1, seq![n]) == seq![n]);
}

/// Whether `names` holds a string equal to `s`.
pub fn contains_string(names: &Vec<String>, s: &String) -> (r: bool)
    ensures
        r == string_views(names@).contains(s@),
{
    let mut i: usize = 0;
    while i < names.len()
        invariant
            i <= names.len(),
            forall|j: int| 0 <= j < i ==> names@[j]@ != s@,
        decreases names.len() - i,
    {
        if names[i] == *s {
            assert(string_views(names@)[i as int] == s@);
            return true;
        }
        i = i + 1;
    }
    assert forall|j: int| 0 <= j < string_views(names@).len() implies string_views(names@)[j]
        != s@ by {
        assert(string_views(names@)[j] == names@[j]@);
    }
    false
}

/// Names of the running instances in the output of
/// `wsl --list --running --quiet`.
pub fn parse_running_names(text: &str) -> (r: Vec<String>)
    ensures
        string_views(r@) == running_names_spec(text@),
{
    let lines = text_lines(text);
    let ghost ls = views(lines@);
    let mut names: Vec<String> = Vec::new();
    let mut i: usize = 0;
    assert(string_views(names@) =~= Seq::<Seq<char>>::empty());
    while i < lines.len()
        invariant
            ls == views(lines@),
            ls == lines_of(text@),
            i <= lines.len(),
            running_names_spec(text@) == running_fold(ls, i as int, string_views(names@)),
        decreases lines.len() - i,
    {
        assert(ls[i as int] == lines@[i as int]@);
        let ghost before = string_views(names@);
        let n = trim_chars(&trim_stars_chars(&trim_chars(&lines[i])));
        if n.len() > 0 {
            let s = chars_to_string(&n);
            if !contains_string(&names, &s) {
                names.push(s);
                assert(string_views(names@) =~= before.push(n@));
            }
        }
        assert(string_views(names@) == running_step(before, ls[i as int]));
        i = i + 1;
    }
    names
}

// ---------------------------------------------------------------------------
// hostname -I
// ---------------------------------------------------------------------------

/// The first address printed by `hostname -I`.
pub fn parse_ip_address(text: &str) -> (r: Result<String, WslError>)
    ensures
        split_ws(text@).len() > 0 ==> (r matches Ok(s) && s@ == split_ws(text@)[0]),
        split_ws(text@).len() == 0 ==> (r matches Err(WslError::ParseError(m)) && m@
            == "no IP returned"@),
{
    let chars = str_to_chars(text);
    let parts = split_whitespace(&chars);
    if parts.len() > 0 {
        assert(views(parts@)[0] == parts@[0]@);
        Ok(chars_to_string(&parts[0]))
    } else {
        Err(WslError::ParseError(String::from_str("no IP returned")))
    }
}

} // verus!
