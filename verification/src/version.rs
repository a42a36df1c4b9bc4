//! The WSL version report: `Key: Value` fields from `wsl --version` and
//! `wsl --status`, merged, with the main versions picked out by keyword.
use vstd::prelude::*;
use crate::error::WslError;
use crate::listing::text_lines;
use crate::models::{
    entries_get, entries_insert, entries_insert_absent, key_index_from, lemma_get_insert_absent, opt_view, Entries, FieldMap, WslVersion,
};
use vstd::utf8::is_ascii_chars;
use crate::text::{
    ascii_lower,
    chars_to_string, contains_chars, contains_seq, find_char, find_char_from,
    lemma_find_char_from_bounds, lines_of, str_to_chars, sub_chars, trim, trim_chars, views,
};

verus! {

// ---------------------------------------------------------------------------
// Key: Value lines
// ---------------------------------------------------------------------------

/// The field one line sets: text before the first `':'` and text after it,
/// both trimmed; lines without `':'` or with an empty key set none.
pub open spec fn line_field(line: Seq<char>) -> Option<(Seq<char>, Seq<char>)> {
    let c = find_char_from(line, ':', 0);
    if c < line.len() {
        let k = trim(line.take(c));
        let v = trim(line.skip(c + 1));
        if k.len() > 0 {
            Some((k, v))
        } else {
            None
        }
    } else {
        None
    }
}

pub open spec fn fields_fold(lines: Seq<Seq<char>>, i: int, acc: Entries) -> Entries
    decreases lines.len() - i,
{
    if i < 0 || i >= lines.len() {
        acc
    } else {
        let next = match line_field(lines[i]) {
            Some((k, v)) => entries_insert(acc, k, v),
            None => acc,
        };
        fields_fold(lines, i + 1, next)
    }
}

/// The fields of `text`; a later line replaces the value of an earlier key.
pub open spec fn key_value_spec(text: Seq<char>) -> Entries {
    fields_fold(lines_of(text), 0, seq![])
}

fn line_field_exec(line: &Vec<char>) -> (r: Option<(String, String)>)
    ensures
        r matches Some((k, v)) ==> line_field(line@) == Some((k@, v@)),
        r is None ==> line_field(line@) is None,
{
    let c = find_char(line, ':', 0);
    proof {
        lemma_find_char_from_bounds(line@, ':', 0);
    }
    if c < line.len() {
        let k = trim_chars(&sub_chars(line, 0, c));
        let v = trim_chars(&sub_chars(line, c + 1, line.len()));
        assert(line@.subrange(0, c as int) =~= line@.take(c as int));
        assert(line@.subrange(c + 1, line@.len() as int) =~= line@.skip(c + 1));
        if k.len() > 0 {
            Some((chars_to_string(&k), chars_to_string(&v)))
        } else {
            None
        }
    } else {
        None
    }
}

/// Reads the `Key: Value` lines of `text`.
pub fn parse_key_value_lines(text: &str) -> (r: FieldMap)
    ensures
        r@ == key_value_spec(text@),
{
    let lines = text_lines(text);
    let ghost ls = views(lines@);
    let mut fields = FieldMap::new();
    let mut i: usize = 0;
    while i < lines.len()
        invariant
            ls == views(lines@),
            ls == lines_of(text@),
            i <= lines.len(),
            key_value_spec(text@) == fields_fold(ls, i as int, fields@),
        decreases lines.len() - i,
    {
        assert(ls[i as int] == lines@[i as int]@);
        match line_field_exec(&lines[i]) {
            Some((k, v)) => {
                fields.insert(k, v);
            },
            None => {},
        }
        i = i + 1;
    }
    fields
}

// ---------------------------------------------------------------------------
// Keyword lookup
// ---------------------------------------------------------------------------

/// `str::to_lowercase`: full Unicode lower-casing, a function of the text.
pub uninterp spec fn lowercase_of(s: Seq<char>) -> Seq<char>;

/// Calls `str::to_lowercase`. The result is named; the one fact claimed is
/// the documented one for ASCII text, whose letters `A`..`Z` become
/// `a`..`z` and whose other characters stay. Non-ASCII lower-casing (the
/// Unicode tables, final sigma) is left unsaid.
#[verifier::external_body]
fn to_lowercase(s: &str) -> (r: String)
    ensures
        r@ == lowercase_of(s@),
        is_ascii_chars(s@) ==> r@ == ascii_lowercase(s@),
{
    s.to_lowercase()
}

/// ASCII lower-casing of a sequence.
pub open spec fn ascii_lowercase(s: Seq<char>) -> Seq<char> {
    s.map_values(|c: char| ascii_lower(c))
}

/// Keys lower-cased the ASCII way.
pub open spec fn ascii_lowered_keys(e: Entries) -> Seq<Seq<char>> {
    e.map_values(|p: (Seq<char>, Seq<char>)| ascii_lowercase(p.0))
}

/// Every key is ASCII text.
pub open spec fn ascii_keys(e: Entries) -> bool {
    forall|i: int| 0 <= i < e.len() ==> is_ascii_chars(#[trigger] e[i].0)
}

pub open spec fn str_views(v: Seq<&str>) -> Seq<Seq<char>> {
    v.map_values(|s: &str| s@)
}

/// Index of the first of `keys[j..]` that contains `kw`.
pub open spec fn first_containing(keys: Seq<Seq<char>>, kw: Seq<char>, j: int) -> Option<int>
    decreases keys.len() - j,
{
    if j < 0 || j >= keys.len() {
        None
    } else if contains_seq(keys[j], kw) {
        Some(j)
    } else {
        first_containing(keys, kw, j + 1)
    }
}

/// For the first keyword (from `i` on) that some key contains, the value of
/// the first such key.
pub open spec fn select_from(
    keys: Seq<Seq<char>>,
    values: Seq<Seq<char>>,
    kws: Seq<Seq<char>>,
    i: int,
) -> Option<Seq<char>>
    decreases kws.len() - i,
{
    if i < 0 || i >= kws.len() {
        None
    } else {
        match first_containing(keys, kws[i], 0) {
            Some(j) => Some(values[j]),
            None => select_from(keys, values, kws, i + 1),
        }
    }
}

pub open spec fn entry_keys(e: Entries) -> Seq<Seq<char>> {
    e.map_values(|p: (Seq<char>, Seq<char>)| p.0)
}

pub open spec fn entry_values(e: Entries) -> Seq<Seq<char>> {
    e.map_values(|p: (Seq<char>, Seq<char>)| p.1)
}

pub open spec fn lowered_keys(e: Entries) -> Seq<Seq<char>> {
    e.map_values(|p: (Seq<char>, Seq<char>)| lowercase_of(p.0))
}

/// The value that `find_field_by_keywords` picks, keys taken lower-cased.
pub open spec fn field_by_keywords(e: Entries, kws: Seq<Seq<char>>) -> Option<Seq<char>> {
    select_from(lowered_keys(e), entry_values(e), kws, 0)
}

pub proof fn lemma_first_containing(keys: Seq<Seq<char>>, kw: Seq<char>, j: int)
    requires
        0 <= j,
    ensures
        first_containing(keys, kw, j) matches Some(m) ==> j <= m < keys.len(),
    decreases keys.len() - j,
{
    if j < keys.len() && !contains_seq(keys[j], kw) {
        lemma_first_containing(keys, kw, j + 1);
    }
}

/// Given the lower-cased keys of `fields` (in order), the value of the first
/// key that contains the first matching keyword.
pub fn select_by_keywords(lowered: &Vec<String>, fields: &FieldMap, keywords: &[&str]) -> (r:
    Option<String>)
    requires
        lowered@.len() == fields@.len(),
    ensures
        r matches Some(s) ==> select_from(
            lowered@.map_values(|k: String| k@),
            entry_values(fields@),
            str_views(keywords@),
            0,
        ) == Some(s@),
        r is None ==> select_from(
            lowered@.map_values(|k: String| k@),
            entry_values(fields@),
            str_views(keywords@),
            0,
        ) is None,
{
    let ghost keys = lowered@.map_values(|k: String| k@);
    let ghost vals = entry_values(fields@);
    let ghost kws = str_views(keywords@);
    let mut i: usize = 0;
    while i < keywords.len()
        invariant
            keys == lowered@.map_values(|k: String| k@),
            vals == entry_values(fields@),
            kws == str_views(keywords@),
            lowered@.len() == fields@.len(),
            i <= keywords@.len(),
            select_from(keys, vals, kws, 0) == select_from(keys, vals, kws, i as int),
        decreases keywords@.len() - i,
    {
        let kw = str_to_chars(keywords[i]);
        assert(kws[i as int] == kw@);
        let mut j: usize = 0;
        while j < lowered.len()
            invariant
                keys == lowered@.map_values(|k: String| k@),
                vals == entry_values(fields@),
                kws == str_views(keywords@),
                lowered@.len() == fields@.len(),
                i < keywords@.len(),
                select_from(keys, vals, kws, 0) == select_from(keys, vals, kws, i as int),
                kw@ == kws[i as int],
                j <= lowered@.len(),
                first_containing(keys, kw@, 0) == first_containing(keys, kw@, j as int),
            decreases lowered@.len() - j,
        {
            let key = str_to_chars(lowered[j].as_str());
            assert(keys[j as int] == key@);
            if contains_chars(&key, &kw) {
                return Some(fields.value(j).clone());
            }
            j = j + 1;
        }
        i = i + 1;
    }
    None
}

/// The value of the first field whose lower-cased key contains one of the
/// keywords, trying the keywords in order.
pub fn find_field_by_keywords(fields: &FieldMap, keywords: &[&str]) -> (r: Option<String>)
    ensures
        r matches Some(s) ==> field_by_keywords(fields@, str_views(keywords@)) == Some(s@),
        r is None ==> field_by_keywords(fields@, str_views(keywords@)) is None,
        ascii_keys(fields@) ==> field_by_keywords(fields@, str_views(keywords@)) == select_from(
            ascii_lowered_keys(fields@),
            entry_values(fields@),
            str_views(keywords@),
            0,
        ),
{
    let mut lowered: Vec<String> = Vec::new();
    let mut j: usize = 0;
    while j < fields.len()
        invariant
            j <= fields@.len(),
            lowered@.len() == j,
            forall|m: int| 0 <= m < j ==> #[trigger] lowered@[m]@ == lowercase_of(fields@[m].0),
            forall|m: int|
                0 <= m < j ==> is_ascii_chars(fields@[m].0) ==> #[trigger] lowered@[m]@
                    == ascii_lowercase(fields@[m].0),
        decreases fields@.len() - j,
    {
        lowered.push(to_lowercase(fields.key(j).as_str()));
        j = j + 1;
    }
    assert(lowered@.map_values(|k: String| k@) =~= lowered_keys(fields@));
    proof {
        if ascii_keys(fields@) {
            assert(lowered_keys(fields@) =~= ascii_lowered_keys(fields@));
        }
    }
    select_by_keywords(&lowered, fields, keywords)
}

// ---------------------------------------------------------------------------
// The combined report
// ---------------------------------------------------------------------------

/// `entry(k).or_insert(v)` for every field of `extra`, in order.
pub open spec fn merge_absent(base: Entries, extra: Entries, i: int) -> Entries
    decreases extra.len() - i,
{
    if i < 0 || i >= extra.len() {
        base
    } else {
        merge_absent(entries_insert_absent(base, extra[i].0, extra[i].1), extra, i + 1)
    }
}

proof fn lemma_merge_absent_get(b: Entries, e: Entries, i: int, q: Seq<char>)
    requires
        0 <= i,
    ensures
        entries_get(merge_absent(b, e, i), q) == match entries_get(b, q) {
            Some(v) => Some(v),
            None => match key_index_from(e, q, i) {
                Some(j) => Some(e[j].1),
                None => None,
            },
        },
    decreases e.len() - i,
{
    if i < e.len() {
        let b2 = entries_insert_absent(b, e[i].0, e[i].1);
        lemma_merge_absent_get(b2, e, i + 1, q);
        lemma_get_insert_absent(b, e[i].0, e[i].1, q);
        lemma_get_insert_absent(b, e[i].0, e[i].1, e[i].0);
    }
}

/// The fields of `wsl --version` take precedence: a key's merged value is its
/// `--version` value when that output has the key, else its `--status` value.
pub proof fn lemma_version_fields_take_precedence(version_text: Seq<char>, status_text: Seq<char>, key: Seq<char>)
    ensures
        entries_get(merged_fields(Some(version_text), Some(status_text)), key) == match entries_get(
            key_value_spec(version_text),
            key,
        ) {
            Some(v) => Some(v),
            None => entries_get(key_value_spec(status_text), key),
        },
{
    lemma_merge_absent_get(key_value_spec(version_text), key_value_spec(status_text), 0, key);
}

pub open spec fn version_header() -> Seq<char> {
    "--version output --\n"@
}

pub open spec fn status_header() -> Seq<char> {
    "--status output --\n"@
}

pub open spec fn wsl_keywords() -> Seq<Seq<char>> {
    seq!["wsl version"@, "wsl 版本"@]
}

pub open spec fn kernel_keywords() -> Seq<Seq<char>> {
    seq!["kernel version"@, "kernel 版本"@, "wslg version"@]
}

pub open spec fn windows_keywords() -> Seq<Seq<char>> {
    seq!["windows version"@, "windows 版本"@]
}

/// The raw text of the report before trimming.
pub open spec fn raw_spec(version_text: Option<Seq<char>>, status_text: Option<Seq<char>>) -> Seq<
    char,
> {
    let a = match version_text {
        Some(t) => version_header() + t + "\n"@,
        None => Seq::<char>::empty(),
    };
    match status_text {
        Some(t) => a + status_header() + t,
        None => a,
    }
}

/// The merged fields: those of `--version`, then the keys of `--status` that
/// `--version` does not have.
pub open spec fn merged_fields(version_text: Option<Seq<char>>, status_text: Option<Seq<char>>) -> Entries {
    let a = match version_text {
        Some(t) => key_value_spec(t),
        None => seq![],
    };
    match status_text {
        Some(t) => merge_absent(a, key_value_spec(t), 0),
        None => a,
    }
}

pub open spec fn opt_str_view(o: Option<&str>) -> Option<Seq<char>> {
    match o {
        Some(s) => Some(s@),
        None => None,
    }
}

fn merge_fields(base: &mut FieldMap, extra: FieldMap)
    ensures
        final(base)@ == merge_absent(old(base)@, extra@, 0),
{
    let mut i: usize = 0;
    while i < extra.len()
        invariant
            i <= extra@.len(),
            merge_absent(old(base)@, extra@, 0) == merge_absent(base@, extra@, i as int),
        decreases extra@.len() - i,
    {
        base.insert_if_absent(extra.key(i).clone(), extra.value(i).clone());
        i = i + 1;
    }
}

/// Builds the version report from the decoded output of `wsl --version` and
/// of `wsl --status` (`None` for a command that failed). Fails with
/// `NotAvailable` when neither output holds a field.
pub fn wsl_version_from_outputs(version_text: Option<&str>, status_text: Option<&str>) -> (r:
    Result<WslVersion, WslError>)
    ensures
        merged_fields(opt_str_view(version_text), opt_str_view(status_text)).len() == 0 ==> (r
            matches Err(WslError::NotAvailable)),
        merged_fields(opt_str_view(version_text), opt_str_view(status_text)).len() > 0 ==> (r
            matches Ok(v) && {
            let f = merged_fields(opt_str_view(version_text), opt_str_view(status_text));
            &&& v.fields@ == f
            &&& v.raw@ == trim(raw_spec(opt_str_view(version_text), opt_str_view(status_text)))
            &&& opt_view(v.wsl_version) == field_by_keywords(f, wsl_keywords())
            &&& opt_view(v.kernel_version) == field_by_keywords(f, kernel_keywords())
            &&& opt_view(v.windows_version) == field_by_keywords(f, windows_keywords())
            &&& ascii_keys(f) ==> {
                &&& field_by_keywords(f, wsl_keywords()) == select_from(
                    ascii_lowered_keys(f),
                    entry_values(f),
                    wsl_keywords(),
                    0,
                )
                &&& field_by_keywords(f, kernel_keywords()) == select_from(
                    ascii_lowered_keys(f),
                    entry_values(f),
                    kernel_keywords(),
                    0,
                )
                &&& field_by_keywords(f, windows_keywords()) == select_from(
                    ascii_lowered_keys(f),
                    entry_values(f),
                    windows_keywords(),
                    0,
                )
            }
        }),
{
    let mut raw = String::new();
    let mut fields = FieldMap::new();
    match version_text {
        Some(t) => {
            raw.append("--version output --\n");
            raw.append(t);
            raw.append("\n");
            fields = parse_key_value_lines(t);
        },
        None => {},
    }
    match status_text {
        Some(t) => {
            raw.append("--status output --\n");
            raw.append(t);
            let extra = parse_key_value_lines(t);
            merge_fields(&mut fields, extra);
        },
        None => {},
    }
    assert(raw@ =~= raw_spec(opt_str_view(version_text), opt_str_view(status_text)));
    if fields.len() == 0 {
        return Err(WslError::NotAvailable);
    }
    let wsl_kw = ["wsl version", "wsl 版本"];
    let kernel_kw = ["kernel version", "kernel 版本", "wslg version"];
    let windows_kw = ["windows version", "windows 版本"];
    assert(str_views(wsl_kw@) =~= wsl_keywords());
    assert(str_views(kernel_kw@) =~= kernel_keywords());
    assert(str_views(windows_kw@) =~= windows_keywords());
    let wsl_version = find_field_by_keywords(&fields, &wsl_kw);
    let kernel_version = find_field_by_keywords(&fields, &kernel_kw);
    let windows_version = find_field_by_keywords(&fields, &windows_kw);
    let raw_chars = str_to_chars(raw.as_str());
    let trimmed = chars_to_string(&trim_chars(&raw_chars));
    Ok(WslVersion { wsl_version, kernel_version, windows_version, fields, raw: trimmed })
}

/// The fixed report used in mock mode.
pub fn mock_wsl_version() -> (r: WslVersion)
    ensures
        opt_view(r.wsl_version) == Some("2.0.14.0"@),
        opt_view(r.kernel_version) == Some("5.15.133.1-1"@),
        opt_view(r.windows_version) == Some("10.0.22631.2861"@),
        r.fields@ == seq![
            ("WSL version"@, "2.0.14.0"@),
            ("Kernel version"@, "5.15.133.1-1"@),
            ("Windows version"@, "10.0.22631.2861"@),
        ],
        r.raw@ == "WSL version: 2.0.14.0\nKernel version: 5.15.133.1-1\nWindows version: 10.0.22631.2861"@,
{
    let mut fields = FieldMap::new();
    proof {
        reveal_strlit("WSL version");
        reveal_strlit("Kernel version");
        reveal_strlit("Windows version");
    }
    let ghost k1 = "WSL version"@;
    let ghost k2 = "Kernel version"@;
    let ghost k3 = "Windows version"@;
    assert(k1.len() != k2.len() && k2.len() != k3.len() && k1.len() != k3.len());
    fields.insert(String::from_str("WSL version"), String::from_str("2.0.14.0"));
    assert(key_index_from(fields@, k2, 1) is None);
    assert(key_index_from(fields@, k2, 0) is None);
    fields.insert(String::from_str("Kernel version"), String::from_str("5.15.133.1-1"));
    assert(key_index_from(fields@, k3, 2) is None);
    assert(key_index_from(fields@, k3, 1) is None);
    assert(key_index_from(fields@, k3, 0) is None);
    fields.insert(String::from_str("Windows version"), String::from_str("10.0.22631.2861"));
    WslVersion {
        wsl_version: Some(String::from_str("2.0.14.0")),
        kernel_version: Some(String::from_str("5.15.133.1-1")),
        windows_version: Some(String::from_str("10.0.22631.2861")),
        fields,
        raw: String::from_str(
            "WSL version: 2.0.14.0\nKernel version: 5.15.133.1-1\nWindows version: 10.0.22631.2861",
        ),
    }
}

} // verus!
