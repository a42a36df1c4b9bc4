//! Decoding of `wsl.exe` output bytes, whose encoding varies: UTF-8 with a
//! byte-order mark, UTF-16 (little- or big-endian, with a mark, or
//! little-endian recognised by its zero bytes), plain UTF-8, and GBK as the
//! last resort (the ANSI code page of Chinese Windows).
use vstd::prelude::*;
use vstd::utf8::{
    decode_utf8, has_width_1_encoding, has_width_2_encoding, has_width_3_encoding,
    last_continuation_byte, leading_byte_width_1, leading_byte_width_2, leading_byte_width_3,
    leading_byte_width_4, second_last_continuation_byte, third_last_continuation_byte, valid_utf8,
};

verus! {

// ---------------------------------------------------------------------------
// UTF-16
// ---------------------------------------------------------------------------

pub open spec fn is_high_surrogate(u: u16) -> bool {
    0xD800 <= u && u <= 0xDBFF
}

pub open spec fn is_low_surrogate(u: u16) -> bool {
    0xDC00 <= u && u <= 0xDFFF
}

/// The scalar value of a surrogate pair.
pub open spec fn pair_value(hi: u16, lo: u16) -> u32 {
    (0x10000 + (hi - 0xD800) * 0x400 + (lo - 0xDC00)) as u32
}

/// UTF-16 decoding of `u[i..]` in which every unpaired surrogate becomes
/// U+FFFD (`String::from_utf16_lossy`).
pub open spec fn utf16_lossy_from(u: Seq<u16>, i: int) -> Seq<char>
    decreases u.len() - i,
{
    if i < 0 || i >= u.len() {
        seq![]
    } else if !is_high_surrogate(u[i]) && !is_low_surrogate(u[i]) {
        seq![(u[i] as u32) as char] + utf16_lossy_from(u, i + 1)
    } else if is_high_surrogate(u[i]) && i + 1 < u.len() && is_low_surrogate(u[i + 1]) {
        seq![pair_value(u[i], u[i + 1]) as char] + utf16_lossy_from(u, i + 2)
    } else {
        seq!['\u{FFFD}'] + utf16_lossy_from(u, i + 1)
    }
}

/// `u[i..]` has no unpaired surrogate.
pub open spec fn utf16_valid_from(u: Seq<u16>, i: int) -> bool
    decreases u.len() - i,
{
    if i < 0 || i >= u.len() {
        true
    } else if !is_high_surrogate(u[i]) && !is_low_surrogate(u[i]) {
        utf16_valid_from(u, i + 1)
    } else if is_high_surrogate(u[i]) && i + 1 < u.len() && is_low_surrogate(u[i + 1]) {
        utf16_valid_from(u, i + 2)
    } else {
        false
    }
}

pub open spec fn utf16_lossy(u: Seq<u16>) -> Seq<char> {
    utf16_lossy_from(u, 0)
}

pub open spec fn utf16_valid(u: Seq<u16>) -> bool {
    utf16_valid_from(u, 0)
}

/// Calls `String::from_utf16_lossy`, which decodes UTF-16 and replaces each
/// unpaired surrogate with U+FFFD, as its documentation states.
#[verifier::external_body]
fn from_utf16_lossy(u: &[u16]) -> (r: String)
    ensures
        r@ == utf16_lossy(u@),
{
    String::from_utf16_lossy(u)
}

/// Calls `String::from_utf16`, which fails exactly when the units hold an
/// unpaired surrogate and otherwise decodes them.
#[verifier::external_body]
fn from_utf16(u: &[u16]) -> (r: Option<String>)
    ensures
        r is Some <==> utf16_valid(u@),
        r matches Some(s) ==> s@ == utf16_lossy(u@),
{
    match String::from_utf16(u) {
        Ok(s) => Some(s),
        Err(_) => None,
    }
}

// ---------------------------------------------------------------------------
// UTF-8 and GBK
// ---------------------------------------------------------------------------

/// What `String::from_utf8_lossy` makes of a byte sequence.
pub uninterp spec fn utf8_lossy(b: Seq<u8>) -> Seq<char>;

/// Calls `String::from_utf8_lossy`. Its result is named; its documentation
/// states that valid UTF-8 comes back unchanged, which is the one fact
/// claimed. How invalid sequences are replaced is left unsaid.
#[verifier::external_body]
fn from_utf8_lossy(b: &[u8]) -> (r: String)
    ensures
        r@ == utf8_lossy(b@),
        valid_utf8(b@) ==> r@ == decode_utf8(b@),
{
    String::from_utf8_lossy(b).into_owned()
}

/// Calls `String::from_utf8`, which succeeds exactly on valid UTF-8 and then
/// holds the decoded characters.
#[verifier::external_body]
fn from_utf8(b: Vec<u8>) -> (r: Option<String>)
    ensures
        r is Some <==> valid_utf8(b@),
        r matches Some(s) ==> s@ == decode_utf8(b@),
{
    match String::from_utf8(b) {
        Ok(s) => Some(s),
        Err(_) => None,
    }
}

/// What `encoding_rs::GBK.decode` makes of a byte sequence.
pub uninterp spec fn gbk_decoded(b: Seq<u8>) -> Seq<char>;

/// Calls `encoding_rs::Encoding::decode` on `GBK`; the text is named, not
/// described. That call sniffs a UTF-8 or UTF-16 byte-order mark first, which
/// the callers here have already ruled out. Its buffer-size computation
/// overflows (and panics) for inputs near `usize::MAX / 3`; `requires` keeps
/// far from that.
#[verifier::external_body]
fn gbk_decode(b: &[u8]) -> (r: String)
    requires
        b@.len() <= usize::MAX / 8,
    ensures
        r@ == gbk_decoded(b@),
{
    let (text, _, _) = encoding_rs::GBK.decode(b);
    text.into_owned()
}

// ---------------------------------------------------------------------------
// Byte pairs
// ---------------------------------------------------------------------------

pub open spec fn byte_or_zero(b: Seq<u8>, i: int) -> int {
    if 0 <= i < b.len() {
        b[i] as int
    } else {
        0
    }
}

/// The bytes read in pairs as little-endian units, a lone last byte padded
/// with zero.
pub open spec fn le_units(b: Seq<u8>) -> Seq<u16> {
    Seq::new(((b.len() + 1) / 2) as nat, |i: int| (b[2 * i] + 256 * byte_or_zero(b, 2 * i + 1)) as u16)
}

/// The bytes read in pairs as big-endian units, a lone last byte padded
/// with zero.
pub open spec fn be_units(b: Seq<u8>) -> Seq<u16> {
    Seq::new(((b.len() + 1) / 2) as nat, |i: int| (256 * b[2 * i] + byte_or_zero(b, 2 * i + 1)) as u16)
}

fn units(b: &[u8], from: usize, little_endian: bool) -> (r: Vec<u16>)
    requires
        from <= b@.len(),
    ensures
        little_endian ==> r@ == le_units(b@.skip(from as int)),
        !little_endian ==> r@ == be_units(b@.skip(from as int)),
{
    let ghost s = b@.skip(from as int);
    let mut r: Vec<u16> = Vec::new();
    let mut i: usize = from;
    while i < b.len()
        invariant
            from <= i <= b@.len(),
            s == b@.skip(from as int),
            i - from == 2 * r@.len() || (i == b@.len() && i - from + 1 == 2 * r@.len()),
            little_endian ==> forall|k: int| 0 <= k < r@.len() ==> #[trigger] r@[k] == le_units(s)[k],
            !little_endian ==> forall|k: int| 0 <= k < r@.len() ==> #[trigger] r@[k] == be_units(s)[k],
        decreases b@.len() - i,
    {
        let first = b[i];
        let second: u8 = if i + 1 < b.len() {
            b[i + 1]
        } else {
            0
        };
        let ghost k = r@.len() as int;
        assert(s[2 * k] == first);
        assert(byte_or_zero(s, 2 * k + 1) == second);
        let unit: u16 = if little_endian {
            (first as u16) + 256 * (second as u16)
        } else {
            256 * (first as u16) + (second as u16)
        };
        r.push(unit);
        if i + 1 < b.len() {
            i = i + 2;
        } else {
            i = i + 1;
        }
    }
    if little_endian {
        assert(r@ =~= le_units(s));
    } else {
        assert(r@ =~= be_units(s));
    }
    r
}

fn has_zero(b: &[u8]) -> (r: bool)
    ensures
        r == b@.contains(0u8),
{
    let mut i: usize = 0;
    while i < b.len()
        invariant
            i <= b@.len(),
            forall|k: int| 0 <= k < i ==> b@[k] != 0u8,
        decreases b@.len() - i,
    {
        if b[i] == 0 {
            assert(b@[i as int] == 0u8);
            return true;
        }
        i = i + 1;
    }
    false
}

fn bytes_from(b: &[u8], from: usize) -> (r: Vec<u8>)
    requires
        from <= b@.len(),
    ensures
        r@ == b@.skip(from as int),
{
    let mut r: Vec<u8> = Vec::new();
    let mut i = from;
    while i < b.len()
        invariant
            from <= i <= b@.len(),
            r@ == b@.subrange(from as int, i as int),
        decreases b@.len() - i,
    {
        r.push(b[i]);
        i = i + 1;
        assert(r@ =~= b@.subrange(from as int, i as int));
    }
    assert(r@ =~= b@.skip(from as int));
    r
}

// ---------------------------------------------------------------------------
// decode_output
// ---------------------------------------------------------------------------

/// The text that `decode_output` makes of `b`.
pub open spec fn decoded_text(b: Seq<u8>) -> Seq<char> {
    if b.len() == 0 {
        seq![]
    } else if b.len() >= 3 && b[0] == 0xEF && b[1] == 0xBB && b[2] == 0xBF {
        if valid_utf8(b.skip(3)) {
            decode_utf8(b.skip(3))
        } else {
            utf8_lossy(b.skip(3))
        }
    } else if b.len() >= 2 && b[0] == 0xFF && b[1] == 0xFE {
        utf16_lossy(le_units(b.skip(2)))
    } else if b.len() >= 2 && b[0] == 0xFE && b[1] == 0xFF {
        utf16_lossy(be_units(b.skip(2)))
    } else if b.contains(0u8) && utf16_valid(le_units(b)) {
        utf16_lossy(le_units(b))
    } else if valid_utf8(b) {
        decode_utf8(b)
    } else {
        gbk_decoded(b)
    }
}

/// Bytes that reach the last resort, GBK: no byte-order mark, not strict
/// UTF-16 LE with zero bytes, and not valid UTF-8.
pub open spec fn reaches_gbk(b: Seq<u8>) -> bool {
    &&& b.len() > 0
    &&& !(b.len() >= 3 && b[0] == 0xEF && b[1] == 0xBB && b[2] == 0xBF)
    &&& !(b.len() >= 2 && b[0] == 0xFF && b[1] == 0xFE)
    &&& !(b.len() >= 2 && b[0] == 0xFE && b[1] == 0xFF)
    &&& !(b.contains(0u8) && utf16_valid(le_units(b)))
    &&& !valid_utf8(b)
}

/// The inputs `decode_output` takes: any that does not reach GBK, and those
/// that do when short enough for its buffer computation.
pub open spec fn decodable(b: Seq<u8>) -> bool {
    !reaches_gbk(b) || b.len() <= usize::MAX / 8
}

/// Decodes the output of a `wsl.exe` command, trying in turn: a UTF-8 mark,
/// a UTF-16 LE mark, a UTF-16 BE mark, UTF-16 LE when the bytes contain a
/// zero and decode strictly, strict UTF-8, and finally GBK.
pub fn decode_output(bytes: &[u8]) -> (r: String)
    requires
        decodable(bytes@),
    ensures
        r@ == decoded_text(bytes@),
{
    let n = bytes.len();
    if n == 0 {
        return String::new();
    }
    if n >= 3 && bytes[0] == 0xEF && bytes[1] == 0xBB && bytes[2] == 0xBF {
        let rest = bytes_from(bytes, 3);
        return from_utf8_lossy(rest.as_slice());
    }
    if n >= 2 && bytes[0] == 0xFF && bytes[1] == 0xFE {
        let u = units(bytes, 2, true);
        return from_utf16_lossy(u.as_slice());
    }
    if n >= 2 && bytes[0] == 0xFE && bytes[1] == 0xFF {
        let u = units(bytes, 2, false);
        return from_utf16_lossy(u.as_slice());
    }
    if has_zero(bytes) {
        let u = units(bytes, 0, true);
        assert(bytes@.skip(0) =~= bytes@);
        match from_utf16(u.as_slice()) {
            Some(text) => {
                return text;
            },
            None => {},
        }
    }
    let all = bytes_from(bytes, 0);
    assert(bytes@.skip(0) =~= bytes@);
    match from_utf8(all) {
        Some(text) => text,
        None => gbk_decode(bytes),
    }
}

/// Byte-order marks, zero bytes and invalid UTF-8 aside, output is read as
/// UTF-8.
pub proof fn lemma_plain_utf8_output(b: Seq<u8>)
    requires
        b.len() > 0,
        !b.contains(0u8),
        valid_utf8(b),
        !(b.len() >= 3 && b[0] == 0xEF && b[1] == 0xBB && b[2] == 0xBF),
        !(b.len() >= 2 && b[0] == 0xFF && b[1] == 0xFE),
        !(b.len() >= 2 && b[0] == 0xFE && b[1] == 0xFF),
    ensures
        decoded_text(b) == decode_utf8(b),
{
}

// ---------------------------------------------------------------------------
// Round trips
// ---------------------------------------------------------------------------

/// The UTF-16 code units of one character.
pub open spec fn utf16_units_of(c: char) -> Seq<u16> {
    let v = c as u32;
    if v < 0x10000 {
        seq![v as u16]
    } else {
        let w = v - 0x10000;
        seq![(0xD800 + w / 0x400) as u16, (0xDC00 + w % 0x400) as u16]
    }
}

/// UTF-16 encoding of a character sequence (`str::encode_utf16`).
pub open spec fn encode_utf16(s: Seq<char>) -> Seq<u16>
    decreases s.len(),
{
    if s.len() == 0 {
        seq![]
    } else {
        utf16_units_of(s[0]) + encode_utf16(s.drop_first())
    }
}

/// Code units written as little-endian byte pairs.
pub open spec fn le_bytes(u: Seq<u16>) -> Seq<u8> {
    Seq::new(
        2 * u.len(),
        |i: int|
            if i % 2 == 0 {
                (u[i / 2] % 256) as u8
            } else {
                (u[i / 2] / 256) as u8
            },
    )
}

/// Code units written as big-endian byte pairs.
pub open spec fn be_bytes(u: Seq<u16>) -> Seq<u8> {
    Seq::new(
        2 * u.len(),
        |i: int|
            if i % 2 == 0 {
                (u[i / 2] / 256) as u8
            } else {
                (u[i / 2] % 256) as u8
            },
    )
}

proof fn lemma_le_units_of_le_bytes(u: Seq<u16>)
    ensures
        le_units(le_bytes(u)) == u,
{
    let b = le_bytes(u);
    assert forall|i: int| 0 <= i < u.len() implies #[trigger] le_units(b)[i] == u[i] by {
        assert((2 * i) % 2 == 0 && (2 * i) / 2 == i);
        assert((2 * i + 1) % 2 == 1 && (2 * i + 1) / 2 == i);
        assert(b[2 * i] == (u[i] % 256) as u8);
        assert(byte_or_zero(b, 2 * i + 1) == (u[i] / 256) as int);
    }
    assert(le_units(b) =~= u);
}

proof fn lemma_be_units_of_be_bytes(u: Seq<u16>)
    ensures
        be_units(be_bytes(u)) == u,
{
    let b = be_bytes(u);
    assert forall|i: int| 0 <= i < u.len() implies #[trigger] be_units(b)[i] == u[i] by {
        assert((2 * i) % 2 == 0 && (2 * i) / 2 == i);
        assert((2 * i + 1) % 2 == 1 && (2 * i + 1) / 2 == i);
        assert(b[2 * i] == (u[i] / 256) as u8);
        assert(byte_or_zero(b, 2 * i + 1) == (u[i] % 256) as int);
    }
    assert(be_units(b) =~= u);
}

proof fn lemma_utf16_from_shift(u: Seq<u16>, k: int, j: int)
    requires
        0 <= k <= u.len(),
        0 <= j,
    ensures
        utf16_lossy_from(u, k + j) == utf16_lossy_from(u.skip(k), j),
        utf16_valid_from(u, k + j) == utf16_valid_from(u.skip(k), j),
    decreases u.len() - (k + j),
{
    if k + j < u.len() {
        lemma_utf16_from_shift(u, k, j + 1);
        if k + j + 2 <= u.len() {
            lemma_utf16_from_shift(u, k, j + 2);
        }
        assert(u.skip(k)[j] == u[k + j]);
        if k + j + 1 < u.len() {
            assert(u.skip(k)[j + 1] == u[k + j + 1]);
        }
    }
}

proof fn lemma_utf16_units_of(c: char)
    ensures
        ({
            let us = utf16_units_of(c);
            &&& (us.len() == 1 && !is_high_surrogate(us[0]) && !is_low_surrogate(us[0]) && (
            us[0] as u32) as char == c) || (us.len() == 2 && is_high_surrogate(us[0])
                && is_low_surrogate(us[1]) && pair_value(us[0], us[1]) as char == c)
        }),
{
    broadcast use vstd::utf8::char_is_scalar, vstd::utf8::char_u32_cast;

    let v = c as u32;
    assert(vstd::utf8::is_scalar(v));
    if v >= 0x10000 {
        let w = v - 0x10000;
        assert(w < 0x100000);
        assert(w / 0x400 < 0x400);
        assert(w % 0x400 < 0x400);
        assert((w / 0x400) * 0x400 + w % 0x400 == w);
        let us = utf16_units_of(c);
        assert(pair_value(us[0], us[1]) == v);
    }
}

proof fn lemma_utf16_encode_decode(s: Seq<char>)
    ensures
        utf16_lossy(encode_utf16(s)) == s,
        utf16_valid(encode_utf16(s)),
    decreases s.len(),
{
    if s.len() > 0 {
        let us = utf16_units_of(s[0]);
        let rest = encode_utf16(s.drop_first());
        let u = us + rest;
        lemma_utf16_encode_decode(s.drop_first());
        lemma_utf16_units_of(s[0]);
        lemma_utf16_from_shift(u, us.len() as int, 0);
        assert(u.skip(us.len() as int) =~= rest);
        assert(u[0] == us[0]);
        if us.len() == 2 {
            assert(u[1] == us[1]);
        }
        assert(utf16_lossy(u) =~= seq![s[0]] + s.drop_first());
        assert(seq![s[0]] + s.drop_first() =~= s);
    }
}

/// Text written as UTF-8 after a UTF-8 byte-order mark is read back
/// unchanged (and never reaches GBK).
pub proof fn lemma_utf8_mark_roundtrip(s: Seq<char>)
    ensures
        ({
            let b = seq![0xEFu8, 0xBBu8, 0xBFu8] + vstd::utf8::encode_utf8(s);
            decoded_text(b) == s && !reaches_gbk(b)
        }),
{
    broadcast use vstd::utf8::encode_utf8_valid_utf8, vstd::utf8::encode_utf8_decode_utf8;

    let b = seq![0xEFu8, 0xBBu8, 0xBFu8] + vstd::utf8::encode_utf8(s);
    assert(b.skip(3) =~= vstd::utf8::encode_utf8(s));
}

/// Text written as UTF-16 after a little-endian byte-order mark is read back
/// unchanged (and never reaches GBK).
pub proof fn lemma_utf16_le_mark_roundtrip(s: Seq<char>)
    ensures
        ({
            let b = seq![0xFFu8, 0xFEu8] + le_bytes(encode_utf16(s));
            decoded_text(b) == s && !reaches_gbk(b)
        }),
{
    let b = seq![0xFFu8, 0xFEu8] + le_bytes(encode_utf16(s));
    assert(b.skip(2) =~= le_bytes(encode_utf16(s)));
    lemma_le_units_of_le_bytes(encode_utf16(s));
    lemma_utf16_encode_decode(s);
}

/// Text written as UTF-16 after a big-endian byte-order mark is read back
/// unchanged (and never reaches GBK).
pub proof fn lemma_utf16_be_mark_roundtrip(s: Seq<char>)
    ensures
        ({
            let b = seq![0xFEu8, 0xFFu8] + be_bytes(encode_utf16(s));
            decoded_text(b) == s && !reaches_gbk(b)
        }),
{
    let b = seq![0xFEu8, 0xFFu8] + be_bytes(encode_utf16(s));
    assert(b.skip(2) =~= be_bytes(encode_utf16(s)));
    lemma_be_units_of_be_bytes(encode_utf16(s));
    lemma_utf16_encode_decode(s);
}

/// Non-empty ASCII text written as UTF-16 LE without a mark, as `wsl.exe`
/// prints it, is read back unchanged (and never reaches GBK).
pub proof fn lemma_utf16_le_plain_roundtrip(s: Seq<char>)
    requires
        s.len() > 0,
        vstd::utf8::is_ascii_chars(s),
    ensures
        ({
            let b = le_bytes(encode_utf16(s));
            decoded_text(b) == s && !reaches_gbk(b)
        }),
{
    let u = encode_utf16(s);
    let b = le_bytes(u);
    lemma_le_units_of_le_bytes(u);
    lemma_utf16_encode_decode(s);
    assert(s[0] <= '\u{7f}');
    assert(u[0] == utf16_units_of(s[0])[0]);
    assert(u[0] < 0x80);
    assert(b[0] == (u[0] % 256) as u8);
    assert(b[1] == (u[0] / 256) as u8);
    assert(b[1] == 0u8);
    assert(b.contains(0u8));
}

/// Any text written as UTF-16 LE without a mark, as `wsl.exe` prints it, is
/// read back unchanged whenever its bytes hold a zero and do not begin like a
/// byte-order mark: the units are read little-endian, whatever the
/// characters (and such bytes never reach GBK).
pub proof fn lemma_utf16_le_unmarked_roundtrip(s: Seq<char>)
    requires
        le_bytes(encode_utf16(s)).contains(0u8),
        !(le_bytes(encode_utf16(s)).len() >= 3 && le_bytes(encode_utf16(s))[0] == 0xEF
            && le_bytes(encode_utf16(s))[1] == 0xBB && le_bytes(encode_utf16(s))[2] == 0xBF),
        !(le_bytes(encode_utf16(s)).len() >= 2 && le_bytes(encode_utf16(s))[0] == 0xFF
            && le_bytes(encode_utf16(s))[1] == 0xFE),
        !(le_bytes(encode_utf16(s)).len() >= 2 && le_bytes(encode_utf16(s))[0] == 0xFE
            && le_bytes(encode_utf16(s))[1] == 0xFF),
    ensures
        decoded_text(le_bytes(encode_utf16(s))) == s,
        !reaches_gbk(le_bytes(encode_utf16(s))),
{
    let u = encode_utf16(s);
    lemma_le_units_of_le_bytes(u);
    lemma_utf16_encode_decode(s);
}

/// Facts about the bytes of one encoded scalar.
proof fn lemma_scalar_bytes(v: u32)
    requires
        vstd::utf8::is_scalar(v),
    ensures
        ({
            let e = vstd::utf8::encode_scalar(v);
            &&& e.len() >= 1
            &&& e[0] <= 0xF7
            &&& v != 0 ==> forall|i: int| 0 <= i < e.len() ==> e[i] != 0
            &&& (e[0] == 0xEF ==> e.len() == 3)
            &&& (e.len() == 3 && e[0] == 0xEF && e[1] == 0xBB && e[2] == 0xBF ==> v == 0xFEFF)
        }),
{
    if has_width_1_encoding(v) {
        assert(v != 0 ==> leading_byte_width_1(v) != 0) by (bit_vector)
            requires
                v <= 0x7F,
        ;
        assert(leading_byte_width_1(v) <= 0x7F) by (bit_vector);
    } else if has_width_2_encoding(v) {
        assert(0xC0 <= leading_byte_width_2(v) <= 0xDF) by (bit_vector);
        assert(last_continuation_byte(v) >= 0x80) by (bit_vector);
    } else if has_width_3_encoding(v) {
        assert(0xE0 <= leading_byte_width_3(v) <= 0xEF) by (bit_vector);
        assert(second_last_continuation_byte(v) >= 0x80) by (bit_vector);
        assert(last_continuation_byte(v) >= 0x80) by (bit_vector);
        assert(leading_byte_width_3(v) == 0xEF && second_last_continuation_byte(v) == 0xBB
            && last_continuation_byte(v) == 0xBF ==> v == 0xFEFF) by (bit_vector)
            requires
                v <= 0xFFFF,
        ;
    } else {
        assert(0xF0 <= leading_byte_width_4(v) <= 0xF7) by (bit_vector)
            requires
                v <= 0x10FFFF,
        ;
        assert(third_last_continuation_byte(v) >= 0x80) by (bit_vector);
        assert(second_last_continuation_byte(v) >= 0x80) by (bit_vector);
        assert(last_continuation_byte(v) >= 0x80) by (bit_vector);
    }
}

proof fn lemma_encode_utf8_no_zero(s: Seq<char>)
    requires
        !s.contains('\0'),
    ensures
        !vstd::utf8::encode_utf8(s).contains(0u8),
    decreases s.len(),
{
    broadcast use vstd::utf8::char_is_scalar;

    if s.len() > 0 {
        let e = vstd::utf8::encode_scalar(s[0] as u32);
        let rest = vstd::utf8::encode_utf8(s.drop_first());
        assert(!s.drop_first().contains('\0')) by {
            if s.drop_first().contains('\0') {
                let j = choose|j: int| 0 <= j < s.drop_first().len() && s.drop_first()[j] == '\0';
                assert(s[j + 1] == '\0');
            }
        }
        lemma_encode_utf8_no_zero(s.drop_first());
        vstd::utf8::char_is_scalar(s[0]);
        lemma_scalar_bytes(s[0] as u32);
        assert(s[0] != '\0');
        vstd::utf8::char_u32_cast(s[0], s[0] as u32);
        vstd::utf8::char_u32_cast('\0', 0);
        assert((s[0] as u32) != 0);
        let all = e + rest;
        assert forall|i: int| 0 <= i < all.len() implies all[i] != 0u8 by {
            if i >= e.len() {
                assert(all[i] == rest[i - e.len()]);
            }
        }
    }
}

/// Text without NUL characters that does not start with U+FEFF, written as
/// UTF-8, is read back unchanged (and never reaches GBK).
pub proof fn lemma_plain_utf8_text(s: Seq<char>)
    requires
        !s.contains('\0'),
        !(s.len() > 0 && s[0] == '\u{FEFF}'),
    ensures
        decoded_text(vstd::utf8::encode_utf8(s)) == s,
        !reaches_gbk(vstd::utf8::encode_utf8(s)),
{
    broadcast use vstd::utf8::encode_utf8_valid_utf8, vstd::utf8::encode_utf8_decode_utf8,
        vstd::utf8::char_is_scalar, vstd::utf8::char_u32_cast;

    let b = vstd::utf8::encode_utf8(s);
    lemma_encode_utf8_no_zero(s);
    if s.len() > 0 {
        let e = vstd::utf8::encode_scalar(s[0] as u32);
        vstd::utf8::char_is_scalar(s[0]);
        lemma_scalar_bytes(s[0] as u32);
        vstd::utf8::char_u32_cast(s[0], s[0] as u32);
        vstd::utf8::char_u32_cast('\u{FEFF}', 0xFEFF);
        assert(b[0] == e[0]);
        if e[0] == 0xEF {
            assert(b[1] == e[1] && b[2] == e[2]);
            if b.len() >= 3 && b[1] == 0xBB && b[2] == 0xBF {
                assert((s[0] as u32) == 0xFEFF);
                assert(s[0] == '\u{FEFF}');
            }
        }
    }
}

} // verus!
