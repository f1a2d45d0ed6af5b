//! The byte encodings of typed values: what a scan looks for when the user
//! enters a value as text, and the text shown for bytes read from memory.
//!
//! Integers are little-endian two's complement; text is UTF-8 or
//! UTF-16LE. The floating-point types are not handled here.
use vstd::prelude::*;
use vstd::bytes::*;
use vstd::utf8::*;
use vstd::string::*;
use crate::text;
use crate::types::EValueType;

verus! {

broadcast use {vstd::utf8::encode_utf8_valid_utf8, vstd::utf8::encode_utf8_decode_utf8};

// ---------------------------------------------------------------------------
// Errors
// ---------------------------------------------------------------------------

/// Why a value could not be turned into bytes or bytes into text.
#[derive(Debug, Clone, Copy, PartialEq, Eq, Structural)]
pub enum ValueError {
    ParseI32,
    ParseI64,
    ParseF32,
    ParseF64,
    /// The bytes had another length than the type's size.
    ExpectedBytes(usize),
    InvalidUtf8,
    InvalidUtf16,
    UnsupportedWatched,
    UnsupportedScan,
}

/// The message of each error.
pub open spec fn error_message(e: ValueError) -> Seq<char> {
    match e {
        ValueError::ParseI32 => "Failed to parse i32"@,
        ValueError::ParseI64 => "Failed to parse i64"@,
        ValueError::ParseF32 => "Failed to parse f32"@,
        ValueError::ParseF64 => "Failed to parse f64"@,
        ValueError::ExpectedBytes(n) => "Expected "@ + text::decimal_digits(n as nat) + " bytes"@,
        ValueError::InvalidUtf8 => "Cant convert bytes to string UTF8"@,
        ValueError::InvalidUtf16 => "Cant convert bytes to string UTF16"@,
        ValueError::UnsupportedWatched => "Unsupported watched value type"@,
        ValueError::UnsupportedScan => "Unsupported scan value type"@,
    }
}

impl ValueError {
    /// The message of the error.
    pub fn message(&self) -> (s: String)
        ensures
            s@ == error_message(*self),
    {
        match self {
            ValueError::ParseI32 => text::string_of("Failed to parse i32"),
            ValueError::ParseI64 => text::string_of("Failed to parse i64"),
            ValueError::ParseF32 => text::string_of("Failed to parse f32"),
            ValueError::ParseF64 => text::string_of("Failed to parse f64"),
            ValueError::ExpectedBytes(n) => {
                let mut s = text::string_of("Expected ");
                text::push_decimal_usize(&mut s, *n);
                text::push_str(&mut s, " bytes");
                s
            },
            ValueError::InvalidUtf8 => text::string_of("Cant convert bytes to string UTF8"),
            ValueError::InvalidUtf16 => text::string_of("Cant convert bytes to string UTF16"),
            ValueError::UnsupportedWatched => text::string_of("Unsupported watched value type"),
            ValueError::UnsupportedScan => text::string_of("Unsupported scan value type"),
        }
    }
}

// ---------------------------------------------------------------------------
// UTF-16
// ---------------------------------------------------------------------------

/// A high (leading) surrogate code unit.
pub open spec fn is_high_surrogate(u: int) -> bool {
    0xD800 <= u <= 0xDBFF
}

/// A low (trailing) surrogate code unit.
pub open spec fn is_low_surrogate(u: int) -> bool {
    0xDC00 <= u <= 0xDFFF
}

/// The two little-endian bytes of a 16-bit code unit.
pub open spec fn unit_le_bytes(u: int) -> Seq<u8> {
    seq![(u % 256) as u8, (u / 256) as u8]
}

/// The UTF-16LE bytes of one char: one code unit below U+10000, a
/// surrogate pair above.
pub open spec fn char_utf16_le(c: char) -> Seq<u8> {
    let u = c as u32 as int;
    if u < 0x10000 {
        unit_le_bytes(u)
    } else {
        unit_le_bytes(0xD800 + (u - 0x10000) / 0x400) + unit_le_bytes(0xDC00 + (u - 0x10000)
            % 0x400)
    }
}

/// The UTF-16LE bytes of a char sequence, as `encode_utf16` followed by
/// `to_le_bytes` on each unit gives them.
pub open spec fn utf16_le_bytes(s: Seq<char>) -> Seq<u8>
    decreases s.len(),
{
    if s.len() == 0 {
        seq![]
    } else {
        utf16_le_bytes(s.drop_last()) + char_utf16_le(s.last())
    }
}

/// The code unit at byte offset `k`, little-endian.
pub open spec fn unit_at(b: Seq<u8>, k: int) -> int {
    b[k] as int + 256 * (b[k + 1] as int)
}

/// The char of a surrogate pair.
pub open spec fn pair_code(hi: int, lo: int) -> int {
    0x10000 + (hi - 0xD800) * 0x400 + (lo - 0xDC00)
}

/// `o` with `p` put in front of the chars it holds.
pub open spec fn prepend(p: Seq<char>, o: Option<Seq<char>>) -> Option<Seq<char>> {
    match o {
        Some(r) => Some(p + r),
        None => None,
    }
}

/// The text that UTF-16LE bytes decode to: the bytes are taken two at a
/// time as little-endian code units (a last odd byte is left out, as
/// `chunks_exact(2)` leaves it), then decoded as `String::from_utf16`
/// does; `None` where a surrogate is unpaired.
pub open spec fn decode_utf16_le(b: Seq<u8>) -> Option<Seq<char>>
    decreases b.len(),
{
    if b.len() < 2 {
        Some(seq![])
    } else {
        let u = unit_at(b, 0);
        if is_high_surrogate(u) {
            if b.len() >= 4 && is_low_surrogate(unit_at(b, 2)) {
                let c = (pair_code(u, unit_at(b, 2)) as u32) as char;
                prepend(seq![c], decode_utf16_le(b.skip(4)))
            } else {
                None
            }
        } else if is_low_surrogate(u) {
            None
        } else {
            prepend(seq![(u as u32) as char], decode_utf16_le(b.skip(2)))
        }
    }
}

/// `char::from_u32`: the char whose code is `u`, or `None` where `u` is
/// no Unicode scalar value.
#[verifier::external_body]
fn char_from_u32(u: u32) -> (r: Option<char>)
    ensures
        r is Some <==> is_scalar(u),
        r matches Some(c) ==> c as u32 == u,
{
    char::from_u32(u)
}

/// Appends the two little-endian bytes of the code unit `u`.
fn push_unit(out: &mut Vec<u8>, u: u32)
    requires
        u < 0x10000,
    ensures
        final(out)@ == old(out)@ + unit_le_bytes(u as int),
{
    out.push((u % 256) as u8);
    out.push((u / 256) as u8);
}

/// The UTF-16LE bytes of a string.
pub fn encode_utf16_le(s: &str) -> (out: Vec<u8>)
    ensures
        out@ == utf16_le_bytes(s@),
{
    let chars = text::chars_of(s);
    let mut out: Vec<u8> = Vec::new();
    let mut i: usize = 0;
    while i < chars.len()
        invariant
            i <= chars.len(),
            chars@ == s@,
            out@ == utf16_le_bytes(chars@.take(i as int)),
        decreases chars.len() - i,
    {
        let c = chars[i];
        assert(chars@.take(i + 1).drop_last() == chars@.take(i as int));
        let u = c as u32;
        proof {
            char_is_scalar(c);
        }
        if u < 0x10000 {
            push_unit(&mut out, u);
        } else {
            let v = u - 0x10000;
            push_unit(&mut out, 0xD800 + v / 0x400);
            push_unit(&mut out, 0xDC00 + v % 0x400);
        }
        i += 1;
    }
    assert(chars@.take(chars.len() as int) == chars@);
    out
}

/// The code unit at byte offset `i` of `b`.
fn read_unit(b: &[u8], i: usize) -> (u: u32)
    requires
        i + 1 < b@.len(),
    ensures
        u == unit_at(b@, i as int),
        u < 0x10000,
{
    (b[i] as u32) + 256 * (b[i + 1] as u32)
}

/// Decodes UTF-16LE bytes as `decode_utf16_le` says; `None` where a
/// surrogate is unpaired.
pub fn decode_utf16_le_bytes(b: &[u8]) -> (r: Option<Vec<char>>)
    ensures
        match r {
            Some(v) => decode_utf16_le(b@) == Some(v@),
            None => decode_utf16_le(b@) is None,
        },
{
    let n = b.len();
    let mut out: Vec<char> = Vec::new();
    let mut i: usize = 0;
    assert(b@.skip(0) == b@);
    while n - i > 1
        invariant
            i <= n == b@.len(),
            decode_utf16_le(b@) == prepend(out@, decode_utf16_le(b@.skip(i as int))),
        decreases n - i,
    {
        let ghost rest = b@.skip(i as int);
        let u = read_unit(b, i);
        assert(unit_at(rest, 0) == u);
        if 0xD800 <= u && u <= 0xDBFF {
            if n - i > 3 {
                let lo = read_unit(b, i + 2);
                assert(unit_at(rest, 2) == lo);
                if 0xDC00 <= lo && lo <= 0xDFFF {
                    let code = 0x10000 + (u - 0xD800) * 0x400 + (lo - 0xDC00);
                    assert(code == pair_code(u as int, lo as int));
                    let c = char_from_u32(code).unwrap();
                    proof {
                        char_u32_cast(c, code);
                    }
                    assert(rest.skip(4) == b@.skip(i + 4));
                    assert(out@ + (seq![c] + decode_utf16_le(b@.skip(i + 4))->0) == out@.push(c)
                        + decode_utf16_le(b@.skip(i + 4))->0);
                    out.push(c);
                    i += 4;
                } else {
                    return None;
                }
            } else {
                return None;
            }
        } else if 0xDC00 <= u && u <= 0xDFFF {
            return None;
        } else {
            let c = char_from_u32(u).unwrap();
            proof {
                char_u32_cast(c, u);
            }
            assert(rest.skip(2) == b@.skip(i + 2));
            assert(out@ + (seq![c] + decode_utf16_le(b@.skip(i + 2))->0) == out@.push(c)
                + decode_utf16_le(b@.skip(i + 2))->0);
            out.push(c);
            i += 2;
        }
    }
    assert(out@ + seq![] == out@);
    Some(out)
}

proof fn lemma_utf16_front(s: Seq<char>)
    requires
        s.len() > 0,
    ensures
        utf16_le_bytes(s) == char_utf16_le(s[0]) + utf16_le_bytes(s.drop_first()),
    decreases s.len(),
{
    if s.len() == 1 {
        assert(s.drop_last() == Seq::<char>::empty());
        assert(s.drop_first() == Seq::<char>::empty());
        assert(utf16_le_bytes(Seq::<char>::empty()) == Seq::<u8>::empty());
        assert(Seq::<u8>::empty() + char_utf16_le(s.last()) == char_utf16_le(s[0]));
        assert(char_utf16_le(s[0]) + Seq::<u8>::empty() == char_utf16_le(s[0]));
    } else {
        lemma_utf16_front(s.drop_last());
        assert(s.drop_last().drop_first() == s.drop_first().drop_last());
        assert(s.drop_first().last() == s.last());
        assert(s.drop_last()[0] == s[0]);
    }
}

/// UTF-16 round trip: the UTF-16LE bytes of any text decode back to it.
pub proof fn lemma_utf16_round_trip(s: Seq<char>)
    ensures
        decode_utf16_le(utf16_le_bytes(s)) == Some(s),
    decreases s.len(),
{
    if s.len() == 0 {
        assert(utf16_le_bytes(s) == Seq::<u8>::empty());
    } else {
        lemma_utf16_front(s);
        lemma_utf16_round_trip(s.drop_first());
        let c = s[0];
        let u = c as u32;
        char_is_scalar(c);
        let b = utf16_le_bytes(s);
        let tail = utf16_le_bytes(s.drop_first());
        if (u as int) < 0x10000 {
            assert(b.skip(2) == tail);
            assert(unit_at(b, 0) == u);
            char_u32_cast(c, u);
            assert(seq![c] + s.drop_first() == s);
        } else {
            let v = u - 0x10000;
            let hi = 0xD800 + v / 0x400;
            let lo = 0xDC00 + v % 0x400;
            assert(b.skip(4) == tail);
            assert(unit_at(b, 0) == hi);
            assert(unit_at(b, 2) == lo);
            assert(pair_code(hi, lo) == u);
            char_u32_cast(c, u);
            assert(seq![c] + s.drop_first() == s);
        }
    }
}

/// UTF-16 re-encoding: UTF-16LE bytes of even length that decode are the
/// UTF-16LE bytes of the text they decode to, so the bytes of the text
/// shown for them are those bytes again.
pub proof fn lemma_utf16_reencodes(b: Seq<u8>)
    requires
        b.len() % 2 == 0,
        decode_utf16_le(b) is Some,
    ensures
        utf16_le_bytes(decode_utf16_le(b)->0) == b,
        value_text(EValueType::Utf16String, b) matches Ok(s) && value_bytes(EValueType::Utf16String, s)
            == Ok::<Seq<u8>, ValueError>(b),
    decreases b.len(),
{
    let s = decode_utf16_le(b)->0;
    if b.len() == 0 {
        assert(b == Seq::<u8>::empty());
    } else {
        let u = unit_at(b, 0);
        if is_high_surrogate(u) {
            let lo = unit_at(b, 2);
            let code = pair_code(u, lo);
            let c = (code as u32) as char;
            lemma_utf16_reencodes(b.skip(4));
            let rest = decode_utf16_le(b.skip(4))->0;
            assert(s == seq![c] + rest);
            assert(s.drop_first() == rest);
            assert(s[0] == c);
            lemma_utf16_front(s);
            assert(0x10000 <= code <= 0x10FFFF);
            assert(c as u32 == code);
            assert((code - 0x10000) / 0x400 == u - 0xD800);
            assert((code - 0x10000) % 0x400 == lo - 0xDC00);
            assert(unit_le_bytes(u) == b.subrange(0, 2));
            assert(unit_le_bytes(lo) == b.subrange(2, 4));
            assert(char_utf16_le(c) == b.subrange(0, 4));
            assert(b.subrange(0, 4) + b.skip(4) == b);
        } else {
            let c = (u as u32) as char;
            lemma_utf16_reencodes(b.skip(2));
            let rest = decode_utf16_le(b.skip(2))->0;
            assert(s == seq![c] + rest);
            assert(s.drop_first() == rest);
            assert(s[0] == c);
            lemma_utf16_front(s);
            assert(c as u32 == u);
            assert(unit_le_bytes(u) == b.subrange(0, 2));
            assert(char_utf16_le(c) == b.subrange(0, 2));
            assert(b.subrange(0, 2) + b.skip(2) == b);
        }
    }
}

// ---------------------------------------------------------------------------
// UTF-8
// ---------------------------------------------------------------------------

/// `core::str::from_utf8`: the string slice whose bytes `v` are, where they
/// are valid UTF-8, else `None` (the error is left out).
#[verifier::external_body]
fn str_from_utf8(v: &[u8]) -> (r: Option<&str>)
    ensures
        r is Some <==> valid_utf8(v@),
        r matches Some(s) ==> s.spec_bytes() == v@,
{
    core::str::from_utf8(v).ok()
}

// ---------------------------------------------------------------------------
// Typed values
// ---------------------------------------------------------------------------

/// The bytes that the text `s` of a value of type `t` stands for: integers
/// are read from the trimmed text and stored little-endian, text is stored
/// as UTF-8 or UTF-16LE as it is.
pub open spec fn value_bytes(t: EValueType, s: Seq<char>) -> Result<Seq<u8>, ValueError> {
    match t {
        EValueType::I32 => match text::parse_integer(text::trimmed(s), true, i32::MIN as int, i32::MAX as int) {
            Some(v) => Ok(spec_u32_to_le_bytes(v as u32)),
            None => Err(ValueError::ParseI32),
        },
        EValueType::I64 => match text::parse_integer(text::trimmed(s), true, i64::MIN as int, i64::MAX as int) {
            Some(v) => Ok(spec_u64_to_le_bytes(v as u64)),
            None => Err(ValueError::ParseI64),
        },
        EValueType::Utf8String => Ok(encode_utf8(s)),
        EValueType::Utf16String => Ok(utf16_le_bytes(s)),
        _ => Err(ValueError::UnsupportedWatched),
    }
}

/// The text shown for the bytes `b` of a value of type `t`.
pub open spec fn value_text(t: EValueType, b: Seq<u8>) -> Result<Seq<char>, ValueError> {
    match t {
        EValueType::I32 => if b.len() != 4 {
            Err(ValueError::ExpectedBytes(4))
        } else {
            Ok(text::decimal_text((spec_u32_from_le_bytes(b) as i32) as int))
        },
        EValueType::I64 => if b.len() != 8 {
            Err(ValueError::ExpectedBytes(8))
        } else {
            Ok(text::decimal_text((spec_u64_from_le_bytes(b) as i64) as int))
        },
        EValueType::Utf8String => if valid_utf8(b) {
            Ok(decode_utf8(b))
        } else {
            Err(ValueError::InvalidUtf8)
        },
        EValueType::Utf16String => match decode_utf16_le(b) {
            Some(c) => Ok(c),
            None => Err(ValueError::InvalidUtf16),
        },
        _ => Err(ValueError::UnsupportedScan),
    }
}

/// The bytes that the text `value` of a value of type `t` stands for.
pub fn typed_value_to_bytes(value_type: EValueType, value: &str) -> (r: Result<Vec<u8>, ValueError>)
    requires
        !value_type.spec_is_float(),
    ensures
        match r {
            Ok(b) => value_bytes(value_type, value@) == Ok::<Seq<u8>, ValueError>(b@),
            Err(e) => value_bytes(value_type, value@) == Err::<Seq<u8>, ValueError>(e),
        },
{
    match value_type {
        EValueType::I32 => {
            let t = text::trim_str(value);
            match text::parse_integer_chars(&t, true, i32::MIN as i128, i32::MAX as i128) {
                Some(v) => {
                    let x: i32 = v as i32;
                    let u: u32 = x as u32;
                    assert(u == (v as int) as u32);
                    Ok(u32_to_le_bytes(u))
                },
                None => Err(ValueError::ParseI32),
            }
        },
        EValueType::I64 => {
            let t = text::trim_str(value);
            match text::parse_integer_chars(&t, true, i64::MIN as i128, i64::MAX as i128) {
                Some(v) => {
                    let x: i64 = v as i64;
                    let u: u64 = x as u64;
                    assert(u == (v as int) as u64);
                    Ok(u64_to_le_bytes(u))
                },
                None => Err(ValueError::ParseI64),
            }
        },
        EValueType::Utf8String => {
            let b = value.as_bytes();
            Ok(vstd::slice::slice_to_vec(b))
        },
        EValueType::Utf16String => Ok(encode_utf16_le(value)),
        _ => Err(ValueError::UnsupportedWatched),
    }
}

/// The text shown for the bytes of a value of type `t`.
pub fn typed_bytes_to_string(value_type: EValueType, bytes: &[u8]) -> (r: Result<String, ValueError>)
    requires
        !value_type.spec_is_float(),
    ensures
        match r {
            Ok(s) => value_text(value_type, bytes@) == Ok::<Seq<char>, ValueError>(s@),
            Err(e) => value_text(value_type, bytes@) == Err::<Seq<char>, ValueError>(e),
        },
{
    match value_type {
        EValueType::I32 => {
            if bytes.len() != 4 {
                return Err(ValueError::ExpectedBytes(4));
            }
            let x = u32_from_le_bytes(bytes) as i32;
            Ok(text::format_i64(x as i64))
        },
        EValueType::I64 => {
            if bytes.len() != 8 {
                return Err(ValueError::ExpectedBytes(8));
            }
            let x = u64_from_le_bytes(bytes) as i64;
            Ok(text::format_i64(x))
        },
        EValueType::Utf8String => {
            match str_from_utf8(bytes) {
                Some(s) => {
                    let r = text::string_of(s);
                    proof {
                        decode_utf8_encode_utf8(bytes@);
                    }
                    assert(encode_utf8(s@) == bytes@);
                    assert(decode_utf8(encode_utf8(s@)) == s@);
                    Ok(r)
                },
                None => Err(ValueError::InvalidUtf8),
            }
        },
        EValueType::Utf16String => {
            match decode_utf16_le_bytes(bytes) {
                Some(v) => Ok(text::string_from_chars(&v)),
                None => Err(ValueError::InvalidUtf16),
            }
        },
        _ => Err(ValueError::UnsupportedScan),
    }
}

/// How many bytes a watched value of type `t` takes; `None` for the types
/// that a watched row cannot hold.
pub open spec fn watched_size(t: EValueType) -> Option<usize> {
    match t {
        EValueType::I32 | EValueType::F32 => Some(4),
        EValueType::I64 | EValueType::F64 => Some(8),
        _ => None,
    }
}

/// How many bytes to read for a watched value of type `t`.
pub fn watched_value_size(value_type: EValueType) -> (r: Option<usize>)
    ensures
        r == watched_size(value_type),
{
    match value_type {
        EValueType::I32 | EValueType::F32 => Some(4),
        EValueType::I64 | EValueType::F64 => Some(8),
        _ => None,
    }
}

/// The text a scan compares: text types keep the input as it is, the other
/// types lose leading and trailing whitespace.
pub open spec fn normalized_input(t: EValueType, s: Seq<char>) -> Seq<char> {
    if t.spec_is_text() {
        s
    } else {
        text::trimmed(s)
    }
}

/// The input of a scan as the scan compares it.
pub fn normalize_scan_input(value_type: EValueType, input: &str) -> (r: String)
    ensures
        r@ == normalized_input(value_type, input@),
{
    if value_type.is_text() {
        text::string_of(input)
    } else {
        let t = text::trim_str(input);
        text::string_from_chars(&t)
    }
}

/// Value round trip, for the types that the library encodes: the text shown
/// for the bytes that a text stands for is that text again, in the form
/// `to_string` gives integers.
pub proof fn lemma_value_round_trip(t: EValueType, s: Seq<char>)
    requires
        t is I32 || t is I64 || t is Utf8String || t is Utf16String,
        value_bytes(t, s) is Ok,
    ensures
        value_text(t, value_bytes(t, s)->Ok_0) == Ok::<Seq<char>, ValueError>(
            match t {
                EValueType::I32 => text::decimal_text(
                    text::parse_integer(text::trimmed(s), true, i32::MIN as int, i32::MAX as int)->Some_0,
                ),
                EValueType::I64 => text::decimal_text(
                    text::parse_integer(text::trimmed(s), true, i64::MIN as int, i64::MAX as int)->Some_0,
                ),
                _ => s,
            },
        ),
{
    lemma_auto_spec_u32_to_from_le_bytes();
    lemma_auto_spec_u64_to_from_le_bytes();
    match t {
        EValueType::I32 => {
            let v = text::parse_integer(text::trimmed(s), true, i32::MIN as int, i32::MAX as int)->Some_0;
            let x = v as i32;
            assert((x as u32) as i32 == x) by (bit_vector);
        },
        EValueType::I64 => {
            let v = text::parse_integer(text::trimmed(s), true, i64::MIN as int, i64::MAX as int)->Some_0;
            let x = v as i64;
            assert((x as u64) as i64 == x) by (bit_vector);
        },
        EValueType::Utf16String => {
            lemma_utf16_round_trip(s);
        },
        _ => {},
    }
}

/// Integer text round trip: the text of a value read as type `t` reads
/// back to the same bytes, so a scan for a value's shown text finds it.
pub proof fn lemma_integer_text_reencodes(t: EValueType, b: Seq<u8>)
    requires
        t is I32 || t is I64,
        value_text(t, b) is Ok,
    ensures
        value_bytes(t, value_text(t, b)->Ok_0) == Ok::<Seq<u8>, ValueError>(b),
{
    lemma_auto_spec_u32_to_from_le_bytes();
    lemma_auto_spec_u64_to_from_le_bytes();
    let txt = value_text(t, b)->Ok_0;
    if t is I32 {
        let x = spec_u32_from_le_bytes(b) as i32;
        text::lemma_decimal_text_parses_back(x as int, true);
        lemma_trim_plain_decimal(x as int);
        let y = spec_u32_from_le_bytes(b);
        assert(x as u32 == y) by (bit_vector)
            requires
                x == y as i32,
        ;
    } else {
        let x = spec_u64_from_le_bytes(b) as i64;
        text::lemma_decimal_text_parses_back(x as int, true);
        lemma_trim_plain_decimal(x as int);
        let y = spec_u64_from_le_bytes(b);
        assert(x as u64 == y) by (bit_vector)
            requires
                x == y as i64,
        ;
    }
}

proof fn lemma_trim_plain_decimal(v: int)
    ensures
        text::trimmed(text::decimal_text(v)) == text::decimal_text(v),
{
    text::lemma_decimal_text_parses_back(v, true);
    let s = text::decimal_text(v);
    assert(s.len() > 0);
    assert(!text::is_white_space(s[0])) by {
        if v < 0 {
            assert(s[0] == '-');
        }
    }
    assert(!text::is_white_space(s.last())) by {
        if v < 0 {
            assert(s.drop_first().last() == s.last());
        }
        assert(text::is_digit(s.last()));
    }
}

} // verus!
