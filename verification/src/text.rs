//! Character-level text handling: whitespace trimming, decimal integer
//! parsing and formatting, and the helpers that build `String`s from chars.
use vstd::prelude::*;

verus! {

// ---------------------------------------------------------------------------
// Strings and chars
// ---------------------------------------------------------------------------

/// `String::push`: appends one char to the end of the string.
#[verifier::external_body]
pub(crate) fn string_push(s: &mut String, c: char)
    ensures
        final(s)@ == old(s)@.push(c),
{
    s.push(c);
}

/// The chars of a string slice, in order.
pub fn chars_of(s: &str) -> (v: Vec<char>)
    ensures
        v@ == s@,
{
    let mut v: Vec<char> = Vec::new();
    for c in it: s.chars()
        invariant
            v@ == it.seq().take(it.index() as int),
    {
        v.push(c);
    }
    v
}

/// Appends the chars of `v` to `s`.
pub fn push_chars(s: &mut String, v: &Vec<char>)
    ensures
        final(s)@ == old(s)@ + v@,
{
    let mut i: usize = 0;
    while i < v.len()
        invariant
            i <= v.len(),
            s@ == old(s)@ + v@.take(i as int),
        decreases v.len() - i,
    {
        string_push(s, v[i]);
        assert(v@.take(i + 1) == v@.take(i as int).push(v@[i as int]));
        i += 1;
    }
    assert(v@.take(v.len() as int) == v@);
}

/// A string holding exactly the chars of `v`.
pub fn string_from_chars(v: &Vec<char>) -> (s: String)
    ensures
        s@ == v@,
{
    let mut s = String::new();
    push_chars(&mut s, v);
    s
}

/// Appends the chars of a string slice to `s`.
pub fn push_str(s: &mut String, t: &str)
    ensures
        final(s)@ == old(s)@ + t@,
{
    s.append(t);
}

/// A fresh `String` holding the chars of `t`.
pub fn string_of(t: &str) -> (s: String)
    ensures
        s@ == t@,
{
    t.to_owned()
}

// ---------------------------------------------------------------------------
// Whitespace and trimming
// ---------------------------------------------------------------------------

/// The Unicode `White_Space` property, which `char::is_whitespace` and
/// `str::trim` go by.
pub open spec fn is_white_space(c: char) -> bool {
    let u = c as u32;
    ||| 0x09 <= u <= 0x0D
    ||| u == 0x20
    ||| u == 0x85
    ||| u == 0xA0
    ||| u == 0x1680
    ||| 0x2000 <= u <= 0x200A
    ||| u == 0x2028
    ||| u == 0x2029
    ||| u == 0x202F
    ||| u == 0x205F
    ||| u == 0x3000
}

/// Whether `c` is a whitespace char.
pub fn is_whitespace(c: char) -> (r: bool)
    ensures
        r == is_white_space(c),
{
    let u = c as u32;
    (0x09 <= u && u <= 0x0D) || u == 0x20 || u == 0x85 || u == 0xA0 || u == 0x1680 || (0x2000 <= u
        && u <= 0x200A) || u == 0x2028 || u == 0x2029 || u == 0x202F || u == 0x205F || u == 0x3000
}

/// `s` without its leading whitespace.
pub open spec fn trim_start(s: Seq<char>) -> Seq<char>
    decreases s.len(),
{
    if s.len() > 0 && is_white_space(s[0]) {
        trim_start(s.drop_first())
    } else {
        s
    }
}

/// `s` without its trailing whitespace.
pub open spec fn trim_end(s: Seq<char>) -> Seq<char>
    decreases s.len(),
{
    if s.len() > 0 && is_white_space(s.last()) {
        trim_end(s.drop_last())
    } else {
        s
    }
}

/// `s` without leading and trailing whitespace, as `str::trim` gives it.
pub open spec fn trimmed(s: Seq<char>) -> Seq<char> {
    trim_end(trim_start(s))
}

/// The chars of `v` without leading and trailing whitespace.
pub fn trim_chars(v: &Vec<char>) -> (r: Vec<char>)
    ensures
        r@ == trimmed(v@),
{
    let n = v.len();
    let mut i: usize = 0;
    assert(v@.skip(0) == v@);
    while i < n && is_whitespace(v[i])
        invariant
            i <= n == v.len(),
            trim_start(v@) == trim_start(v@.skip(i as int)),
        decreases n - i,
    {
        assert(v@.skip(i as int).drop_first() == v@.skip(i + 1));
        i += 1;
    }
    assert(trim_start(v@) == v@.skip(i as int)) by {
        if i == n {
            assert(v@.skip(i as int).len() == 0);
        }
    }
    let ghost front = v@.skip(i as int);
    let mut j: usize = n;
    while j > i && is_whitespace(v[j - 1])
        invariant
            i <= j <= n == v.len(),
            front == v@.skip(i as int),
            trim_end(front) == trim_end(v@.subrange(i as int, j as int)),
        decreases j - i,
    {
        assert(v@.subrange(i as int, j as int).drop_last() == v@.subrange(i as int, j - 1));
        j -= 1;
    }
    let mut r: Vec<char> = Vec::new();
    let mut k: usize = i;
    while k < j
        invariant
            i <= k <= j <= n == v.len(),
            r@ == v@.subrange(i as int, k as int),
        decreases j - k,
    {
        r.push(v[k]);
        assert(v@.subrange(i as int, k + 1) == v@.subrange(i as int, k as int).push(v@[k as int]));
        k += 1;
    }
    r
}

/// The chars of `s` without leading and trailing whitespace.
pub fn trim_str(s: &str) -> (r: Vec<char>)
    ensures
        r@ == trimmed(s@),
{
    let v = chars_of(s);
    trim_chars(&v)
}

// ---------------------------------------------------------------------------
// Decimal integers
// ---------------------------------------------------------------------------

/// An ASCII decimal digit.
pub open spec fn is_digit(c: char) -> bool {
    48 <= (c as u32) <= 57
}

/// The value of an ASCII decimal digit.
pub open spec fn digit_value(c: char) -> int {
    (c as u32) - 48
}

/// The char of a decimal digit `0 <= d < 10`.
pub open spec fn digit_char(d: int) -> char {
    ((d + 48) as u8) as char
}

/// Every char of `s` is an ASCII decimal digit.
pub open spec fn all_digits(s: Seq<char>) -> bool {
    forall|i: int| 0 <= i < s.len() ==> is_digit(#[trigger] s[i])
}

/// The number that a run of decimal digits spells.
pub open spec fn digits_value(s: Seq<char>) -> int
    decreases s.len(),
{
    if s.len() == 0 {
        0
    } else {
        digits_value(s.drop_last()) * 10 + digit_value(s.last())
    }
}

/// The integer that `s` spells in the form that the integer `from_str`
/// accepts: an optional sign followed by one or more ASCII digits. A `-`
/// is accepted only where `signed` holds, as for the signed types; the
/// unsigned types reject it.
pub open spec fn decimal_value(s: Seq<char>, signed: bool) -> Option<int> {
    if s.len() > 0 && (s[0] == '+' || (signed && s[0] == '-')) {
        let body = s.drop_first();
        if body.len() > 0 && all_digits(body) {
            Some(
                if s[0] == '-' {
                    -digits_value(body)
                } else {
                    digits_value(body)
                },
            )
        } else {
            None
        }
    } else if s.len() > 0 && all_digits(s) {
        Some(digits_value(s))
    } else {
        None
    }
}

/// What parsing `s` as an integer type with bounds `min..=max` gives:
/// the value, or `None` where `s` is malformed or the value overflows.
pub open spec fn parse_integer(s: Seq<char>, signed: bool, min: int, max: int) -> Option<int> {
    match decimal_value(s, signed) {
        Some(v) => if min <= v <= max {
            Some(v)
        } else {
            None
        },
        None => None,
    }
}

proof fn lemma_digits_value_nonneg(s: Seq<char>)
    requires
        all_digits(s),
    ensures
        digits_value(s) >= 0,
    decreases s.len(),
{
    if s.len() > 0 {
        lemma_digits_value_nonneg(s.drop_last());
    }
}

/// Reads `v` as an integer within `min..=max`, the way `from_str` does for
/// an integer type with those bounds.
pub fn parse_integer_chars(v: &Vec<char>, signed: bool, min: i128, max: i128) -> (r: Option<i128>)
    requires
        -0x1_0000_0000_0000_0000 <= min <= 0 <= max <= 0x1_0000_0000_0000_0000,
    ensures
        match r {
            Some(x) => parse_integer(v@, signed, min as int, max as int) == Some(x as int),
            None => parse_integer(v@, signed, min as int, max as int) is None,
        },
{
    let n = v.len();
    if n == 0 {
        return None;
    }
    let first = v[0];
    let has_sign = first == '+' || (signed && first == '-');
    let negative = signed && first == '-';
    let start: usize = if has_sign {
        1
    } else {
        0
    };
    if start >= n {
        return None;
    }
    let ghost body = v@.skip(start as int);
    assert(has_sign ==> body == v@.drop_first());
    assert(!has_sign ==> body == v@);
    let cap: u128 = 0x2_0000_0000_0000_0000;
    let mut mag: u128 = 0;
    let mut k: usize = start;
    while k < n
        invariant
            start <= k <= n == v.len(),
            body == v@.skip(start as int),
            cap == 0x2_0000_0000_0000_0000,
            mag <= cap,
            n > 0,
            has_sign <==> (v@[0] == '+' || (signed && v@[0] == '-')),
            negative <==> (signed && v@[0] == '-'),
            start == (if has_sign { 1usize } else { 0usize }),
            all_digits(body.take(k - start)),
            mag == (if digits_value(body.take(k - start)) >= cap {
                cap as int
            } else {
                digits_value(body.take(k - start))
            }),
        decreases n - k,
    {
        let c = v[k];
        let u = c as u32;
        if !(48 <= u && u <= 57) {
            assert(body[k - start] == c);
            assert(!all_digits(body));
            assert(has_sign <==> (v@[0] == '+' || (signed && v@[0] == '-')));
            assert(decimal_value(v@, signed) is None);
            return None;
        }
        let d = (u - 48) as u128;
        let ghost prev = body.take(k - start);
        let ghost next = body.take(k - start + 1);
        assert(next.drop_last() == prev);
        assert(next.last() == c);
        proof {
            lemma_digits_value_nonneg(prev);
        }
        assert(digits_value(next) == digits_value(prev) * 10 + d);
        if mag >= cap {
            assert(digits_value(next) >= cap) by (nonlinear_arith)
                requires
                    digits_value(prev) >= cap,
                    digits_value(next) == digits_value(prev) * 10 + d,
                    d >= 0,
                    cap > 0,
            ;
        } else {
            let t = mag * 10 + d;
            if t > cap {
                mag = cap;
            } else {
                mag = t;
            }
        }
        assert(all_digits(next)) by {
            assert forall|i: int| 0 <= i < next.len() implies is_digit(#[trigger] next[i]) by {
                if i < prev.len() {
                    assert(next[i] == prev[i]);
                }
            }
        }
        k += 1;
    }
    assert(body.take(n - start) == body);
    if mag >= cap {
        return None;
    }
    let value: i128 = if negative {
        -(mag as i128)
    } else {
        mag as i128
    };
    if value < min || value > max {
        return None;
    }
    Some(value)
}

/// The decimal digits of `n`, most significant first, without leading zeros.
pub open spec fn decimal_digits(n: nat) -> Seq<char>
    decreases n,
{
    if n < 10 {
        seq![digit_char(n as int)]
    } else {
        decimal_digits(n / 10).push(digit_char((n % 10) as int))
    }
}

/// The text that `to_string` gives for an integer `v`: its decimal digits,
/// after a `-` where `v` is negative.
pub open spec fn decimal_text(v: int) -> Seq<char> {
    if v < 0 {
        seq!['-'] + decimal_digits((-v) as nat)
    } else {
        decimal_digits(v as nat)
    }
}

/// Appends the char of the decimal digit `d`.
fn push_digit(s: &mut String, d: u64)
    requires
        d < 10,
    ensures
        final(s)@ == old(s)@.push(digit_char(d as int)),
{
    let b: u8 = d as u8 + 48;
    let c: char = b as char;
    assert(c == digit_char(d as int));
    string_push(s, c);
}

/// Appends the decimal digits of `n`.
pub fn push_decimal_digits(s: &mut String, n: u64)
    ensures
        final(s)@ == old(s)@ + decimal_digits(n as nat),
    decreases n,
{
    if n < 10 {
        push_digit(s, n);
        assert(old(s)@.push(digit_char(n as int)) == old(s)@ + seq![digit_char(n as int)]);
    } else {
        push_decimal_digits(s, n / 10);
        push_digit(s, n % 10);
        assert(old(s)@ + decimal_digits((n / 10) as nat) + seq![digit_char((n % 10) as int)]
            == old(s)@ + decimal_digits((n / 10) as nat).push(digit_char((n % 10) as int)));
    }
}

/// Appends the decimal text of `v`.
pub fn push_decimal_i64(s: &mut String, v: i64)
    ensures
        final(s)@ == old(s)@ + decimal_text(v as int),
{
    if v < 0 {
        string_push(s, '-');
        let m: u64 = (-(v as i128)) as u64;
        push_decimal_digits(s, m);
        assert(old(s)@.push('-') + decimal_digits(m as nat) == old(s)@ + (seq!['-']
            + decimal_digits(m as nat)));
    } else {
        push_decimal_digits(s, v as u64);
    }
}

/// Appends the decimal digits of a `usize`.
pub fn push_decimal_usize(s: &mut String, n: usize)
    ensures
        final(s)@ == old(s)@ + decimal_digits(n as nat),
{
    push_decimal_digits(s, n as u64);
}

/// The decimal text of `v`, as `to_string` writes it.
pub fn format_i64(v: i64) -> (s: String)
    ensures
        s@ == decimal_text(v as int),
{
    let mut s = String::new();
    push_decimal_i64(&mut s, v);
    s
}

proof fn lemma_decimal_digits_read_back(n: nat)
    ensures
        decimal_digits(n).len() > 0,
        all_digits(decimal_digits(n)),
        digits_value(decimal_digits(n)) == n,
    decreases n,
{
    let s = decimal_digits(n);
    if n < 10 {
        assert(s[0] == digit_char(n as int));
        assert(is_digit(s[0]));
        assert(s.drop_last() == Seq::<char>::empty());
        assert(digit_value(s.last()) == n);
        assert(digits_value(s.drop_last()) == 0);
    } else {
        lemma_decimal_digits_read_back(n / 10);
        let p = decimal_digits(n / 10);
        assert(s.drop_last() == p);
        assert forall|i: int| 0 <= i < s.len() implies is_digit(#[trigger] s[i]) by {
            if i < p.len() {
                assert(s[i] == p[i]);
            }
        }
        assert(s.last() == digit_char((n % 10) as int));
        assert(digit_value(s.last()) == n % 10);
        assert(digits_value(s) == digits_value(p) * 10 + digit_value(s.last()));
        assert(n == (n / 10) * 10 + n % 10);
    }
}

/// Integer text round trip: reading back the decimal text of any integer
/// gives that integer, so a value formatted by `to_string` parses to itself.
pub proof fn lemma_decimal_text_parses_back(v: int, signed: bool)
    requires
        signed || v >= 0,
    ensures
        decimal_value(decimal_text(v), signed) == Some(v),
{
    if v < 0 {
        let m = (-v) as nat;
        lemma_decimal_digits_read_back(m);
        let t = decimal_text(v);
        assert(t.drop_first() == decimal_digits(m));
    } else {
        lemma_decimal_digits_read_back(v as nat);
        let t = decimal_text(v);
        assert(is_digit(t[0]));
    }
}

} // verus!
