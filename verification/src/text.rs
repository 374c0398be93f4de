//! Text helpers: decimal numbers written and read back, texts trimmed and split,
//! and the equality of string slices.
use vstd::prelude::*;
use vstd::string::*;
use vstd::utf8::*;

verus! {

pub const ZERO: u8 = 48;

/// The digit character of `d`, for `d` below ten.
pub open spec fn digit_char(d: int) -> char {
    (48 + d) as char
}

/// `n` written in base ten, without leading zeros.
pub open spec fn decimal(n: nat) -> Seq<char>
    decreases n,
{
    if n < 10 {
        seq![digit_char(n as int)]
    } else {
        decimal(n / 10).push(digit_char((n % 10) as int))
    }
}

/// `n` written in base ten, with a minus sign if it is negative.
pub open spec fn signed_decimal(n: int) -> Seq<char> {
    if n < 0 {
        seq!['-'] + decimal((-n) as nat)
    } else {
        decimal(n as nat)
    }
}

/// The ASCII bytes of `decimal(n)`.
pub open spec fn decimal_bytes(n: nat) -> Seq<u8>
    decreases n,
{
    if n < 10 {
        seq![(48 + n) as u8]
    } else {
        decimal_bytes(n / 10).push((48 + n % 10) as u8)
    }
}

pub open spec fn is_digit(b: u8) -> bool {
    48 <= b <= 57
}

pub open spec fn all_digits(bytes: Seq<u8>) -> bool {
    forall|i: int| 0 <= i < bytes.len() ==> is_digit(#[trigger] bytes[i])
}

/// Whether no byte stands before the digit zero.
pub open spec fn none_below_zero(bytes: Seq<u8>) -> bool {
    forall|i: int| 0 <= i < bytes.len() ==> #[trigger] bytes[i] >= 48
}

/// The number that a run of ASCII digits denotes; the empty run denotes zero.
pub open spec fn digits_value(bytes: Seq<u8>) -> nat
    decreases bytes.len(),
{
    if bytes.len() == 0 {
        0
    } else {
        (digits_value(bytes.drop_last()) * 10 + (bytes.last() - 48)) as nat
    }
}

/// What reading `bytes` as an unsigned number gives: an optional plus sign,
/// then one or more digits and nothing else.
pub open spec fn unsigned_value(bytes: Seq<u8>) -> Option<nat> {
    let digits = if bytes.len() > 0 && bytes[0] == 43 {
        bytes.skip(1)
    } else {
        bytes
    };
    if digits.len() > 0 && all_digits(digits) {
        Some(digits_value(digits))
    } else {
        None
    }
}

/// What reading `bytes` as a signed number gives: an optional plus or minus
/// sign, then one or more digits and nothing else.
pub open spec fn signed_value(bytes: Seq<u8>) -> Option<int> {
    if bytes.len() > 0 && bytes[0] == 45 {
        let digits = bytes.skip(1);
        if digits.len() > 0 && all_digits(digits) {
            Some(-(digits_value(digits) as int))
        } else {
            None
        }
    } else {
        match unsigned_value(bytes) {
            Some(v) => Some(v as int),
            None => None,
        }
    }
}

/// `signed_value`, where it is in the range of an `i32`.
pub open spec fn i32_value(text: Seq<char>) -> Option<i32> {
    match signed_value(encode_utf8(text)) {
        Some(v) => if i32::MIN <= v <= i32::MAX {
            Some(v as i32)
        } else {
            None
        },
        None => None,
    }
}

/// `unsigned_value`, where it is in the range of a `usize`.
pub open spec fn usize_value(bytes: Seq<u8>) -> Option<usize> {
    match unsigned_value(bytes) {
        Some(v) => if v <= usize::MAX {
            Some(v as usize)
        } else {
            None
        },
        None => None,
    }
}

/// Writing a number in base ten gives digits only, and they denote the number.
pub proof fn lemma_decimal_bytes(n: nat)
    ensures
        decimal_bytes(n).len() > 0,
        all_digits(decimal_bytes(n)),
        digits_value(decimal_bytes(n)) == n,
    decreases n,
{
    let d = decimal_bytes(n);
    if n < 10 {
        assert(d.drop_last() =~= Seq::<u8>::empty());
        assert(digits_value(d.drop_last()) == 0);
    } else {
        lemma_decimal_bytes(n / 10);
        assert(d.drop_last() =~= decimal_bytes(n / 10));
        assert forall|i: int| 0 <= i < d.len() implies is_digit(#[trigger] d[i]) by {
            if i < d.len() - 1 {
                assert(d[i] == decimal_bytes(n / 10)[i]);
            }
        }
    }
}

/// `decimal_bytes` is what `decimal` becomes on the wire.
pub proof fn lemma_decimal_encoded(n: nat)
    ensures
        is_ascii_chars(decimal(n)),
        decimal(n).len() == decimal_bytes(n).len(),
        encode_utf8(decimal(n)) == decimal_bytes(n),
    decreases n,
{
    lemma_decimal_cast(n);
    is_ascii_chars_encode_utf8(decimal(n));
    assert(encode_utf8(decimal(n)) =~= decimal_bytes(n));
}

proof fn lemma_decimal_cast(n: nat)
    ensures
        is_ascii_chars(decimal(n)),
        decimal(n).len() == decimal_bytes(n).len(),
        forall|i: int| 0 <= i < decimal(n).len() ==> #[trigger] decimal(n)[i] as u8 == decimal_bytes(n)[i],
    decreases n,
{
    if n >= 10 {
        lemma_decimal_cast(n / 10);
    }
}

/// Digits do not stand before the digit zero.
pub proof fn lemma_digits_none_below_zero(bytes: Seq<u8>)
    requires
        all_digits(bytes),
    ensures
        none_below_zero(bytes),
{
    assert forall|j: int| 0 <= j < bytes.len() implies #[trigger] bytes[j] >= 48 by {
        assert(is_digit(bytes[j]));
    }
}

/// Text whose bytes are all below 128 is ASCII.
pub proof fn lemma_ascii_bytes(text: Seq<char>)
    requires
        forall|i: int| 0 <= i < encode_utf8(text).len() ==> #[trigger] encode_utf8(text)[i] < 128,
    ensures
        is_ascii_chars(text),
    decreases text.len(),
{
    if text.len() > 0 {
        let rest = text.drop_first();
        let first = encode_scalar(text[0] as u32);
        let bytes = encode_utf8(text);
        let scalar = text[0] as u32;
        char_is_scalar(text[0]);
        char_u32_cast(text[0], scalar);
        assert(bytes == first + encode_utf8(rest));
        assert(bytes[0] == first[0]);
        assert(bytes[0] < 128);
        assert((0xC0u8 | ((scalar >> 6) & 0x1F) as u8) >= 0xC0) by (bit_vector);
        assert((0xE0u8 | ((scalar >> 12) & 0x0F) as u8) >= 0xC0) by (bit_vector);
        assert((0xF0u8 | ((scalar >> 18) & 0x7) as u8) >= 0xC0) by (bit_vector);
        assert forall|i: int| 0 <= i < encode_utf8(rest).len() implies #[trigger] encode_utf8(rest)[i] < 128 by {
            assert(bytes[first.len() + i] == encode_utf8(rest)[i]);
        }
        lemma_ascii_bytes(rest);
        assert forall|i: int| 0 <= i < text.len() implies '\0' <= #[trigger] text[i] <= '\u{7f}' by {
            if i > 0 {
                assert(text[i] == rest[i - 1]);
            }
        }
    }
}

/// Two different numbers are written differently.
pub proof fn lemma_decimal_injective(m: nat, n: nat)
    ensures
        decimal(m) == decimal(n) ==> m == n,
{
    lemma_decimal_encoded(m);
    lemma_decimal_encoded(n);
    lemma_decimal_bytes(m);
    lemma_decimal_bytes(n);
}

/// A run of digits denotes at least what any of its prefixes denotes.
pub proof fn lemma_digits_value_prefix(bytes: Seq<u8>, k: int)
    requires
        0 <= k <= bytes.len(),
        none_below_zero(bytes),
    ensures
        digits_value(bytes.take(k)) <= digits_value(bytes),
    decreases bytes.len() - k,
{
    if k < bytes.len() {
        lemma_digits_value_prefix(bytes, k + 1);
        assert(bytes.take(k + 1).drop_last() =~= bytes.take(k));
        assert(bytes[k] >= 48);
    } else {
        assert(bytes.take(k) =~= bytes);
    }
}

fn digit_text(d: u64) -> (r: &'static str)
    requires
        d < 10,
    ensures
        r@ == seq![digit_char(d as int)],
{
    proof {
        reveal_strlit("0");
        reveal_strlit("1");
        reveal_strlit("2");
        reveal_strlit("3");
        reveal_strlit("4");
        reveal_strlit("5");
        reveal_strlit("6");
        reveal_strlit("7");
        reveal_strlit("8");
        reveal_strlit("9");
    }
    let r: &'static str = match d {
        0 => "0",
        1 => "1",
        2 => "2",
        3 => "3",
        4 => "4",
        5 => "5",
        6 => "6",
        7 => "7",
        8 => "8",
        _ => "9",
    };
    assert(r@ =~= seq![digit_char(d as int)]);
    r
}

/// `n` in base ten.
pub fn decimal_text(n: u64) -> (r: String)
    ensures
        r@ == decimal(n as nat),
    decreases n,
{
    if n < 10 {
        digit_text(n).to_owned()
    } else {
        let mut r: String = decimal_text(n / 10);
        r.append(digit_text(n % 10));
        r
    }
}

/// `n` in base ten, with a minus sign if it is negative.
pub fn signed_decimal_text(n: i32) -> (r: String)
    ensures
        r@ == signed_decimal(n as int),
{
    if n < 0 {
        proof {
            reveal_strlit("-");
        }
        let mut r: String = "-".to_owned();
        let magnitude: i64 = -(n as i64);
        let digits: String = decimal_text(magnitude as u64);
        r.append(digits.as_str());
        assert(r@ =~= signed_decimal(n as int));
        r
    } else {
        decimal_text(n as u64)
    }
}

/// Reads `bytes[from..]` as digits. `None` where it holds anything else, or
/// denotes more than `limit`.
pub fn read_digits(bytes: &[u8], from: usize, limit: u64) -> (r: Option<u64>)
    requires
        from <= bytes@.len(),
    ensures
        r matches Some(v) ==> all_digits(bytes@.skip(from as int)) && digits_value(bytes@.skip(from as int)) == v
            && v <= limit,
        r is None ==> !all_digits(bytes@.skip(from as int)) || digits_value(bytes@.skip(from as int)) > limit,
{
    let ghost digits = bytes@.skip(from as int);
    let mut k: usize = from;
    while k < bytes.len()
        invariant
            from <= k <= bytes@.len(),
            digits == bytes@.skip(from as int),
            forall|i: int| 0 <= i < k - from ==> is_digit(#[trigger] digits[i]),
        decreases bytes@.len() - k,
    {
        if bytes[k] < 48 || bytes[k] > 57 {
            assert(!is_digit(digits[k - from]));
            return None;
        }
        k = k + 1;
    }
    let mut i: usize = from;
    let mut v: u64 = 0;
    assert(digits.take(0) =~= Seq::<u8>::empty());
    while i < bytes.len()
        invariant
            from <= i <= bytes@.len(),
            digits == bytes@.skip(from as int),
            all_digits(digits),
            v == digits_value(digits.take(i - from)),
            v <= limit,
        decreases bytes@.len() - i,
    {
        assert(bytes@[i as int] == digits[i - from]);
        assert(is_digit(digits[i - from]));
        let d: u64 = (bytes[i] - ZERO) as u64;
        assert(digits.take(i + 1 - from).drop_last() =~= digits.take(i - from));
        assert(digits.take(i + 1 - from).last() == digits[i - from]);
        proof {
            lemma_digits_none_below_zero(digits);
            lemma_digits_value_prefix(digits, i + 1 - from);
        }
        if limit < d || v > (limit - d) / 10 {
            return None;
        }
        v = v * 10 + d;
        i = i + 1;
    }
    assert(digits.take(i - from) =~= digits);
    Some(v)
}

/// Reads an `i32` as `str::parse` does: an optional sign, then digits only.
pub fn parse_i32(text: &str) -> (r: Option<i32>)
    ensures
        r == i32_value(text@),
{
    let bytes: &[u8] = text.as_bytes();
    if bytes.len() == 0 {
        return None;
    }
    assert(bytes@.skip(0) =~= bytes@);
    if bytes[0] == 45 {
        if bytes.len() == 1 {
            return None;
        }
        match read_digits(bytes, 1, 2_147_483_648) {
            Some(v) => Some((-(v as i64)) as i32),
            None => None,
        }
    } else {
        let from: usize = if bytes[0] == 43 {
            1
        } else {
            0
        };
        if from == bytes.len() {
            return None;
        }
        match read_digits(bytes, from, 2_147_483_647) {
            Some(v) => Some(v as i32),
            None => None,
        }
    }
}

/// Reads a `usize` as `str::parse` does: an optional plus sign, then digits
/// only.
pub fn parse_usize(bytes: &[u8]) -> (r: Option<usize>)
    ensures
        r == usize_value(bytes@),
{
    if bytes.len() == 0 {
        return None;
    }
    assert(bytes@.skip(0) =~= bytes@);
    let from: usize = if bytes[0] == 43 {
        1
    } else {
        0
    };
    if from == bytes.len() {
        return None;
    }
    match read_digits(bytes, from, usize::MAX as u64) {
        Some(v) => Some(v as usize),
        None => None,
    }
}

/// The characters that Unicode counts as white space.
pub open spec fn is_white_space(c: char) -> bool {
    let n = c as u32;
    9 <= n <= 13 || n == 32 || n == 0x85 || n == 0xA0 || n == 0x1680 || 0x2000 <= n <= 0x200A || n == 0x2028 || n
        == 0x2029 || n == 0x202F || n == 0x205F || n == 0x3000
}

/// A text without the white space in front of it.
pub open spec fn trimmed_start(text: Seq<char>) -> Seq<char>
    decreases text.len(),
{
    if text.len() > 0 && is_white_space(text[0]) {
        trimmed_start(text.skip(1))
    } else {
        text
    }
}

/// A text without the white space behind it.
pub open spec fn trimmed_end(text: Seq<char>) -> Seq<char>
    decreases text.len(),
{
    if text.len() > 0 && is_white_space(text.last()) {
        trimmed_end(text.drop_last())
    } else {
        text
    }
}

/// A text without the white space around it.
pub open spec fn trimmed(text: Seq<char>) -> Seq<char> {
    trimmed_end(trimmed_start(text))
}

fn white_space(c: char) -> (r: bool)
    ensures
        r == is_white_space(c),
{
    let n: u32 = c as u32;
    (9 <= n && n <= 13) || n == 32 || n == 0x85 || n == 0xA0 || n == 0x1680 || (0x2000 <= n && n <= 0x200A) || n
        == 0x2028 || n == 0x2029 || n == 0x202F || n == 0x205F || n == 0x3000
}

/// A text without the white space around it.
pub fn trim(text: &str) -> (r: String)
    ensures
        r@ == trimmed(text@),
{
    let n: usize = text.unicode_len();
    let mut from: usize = 0;
    assert(text@.skip(0) =~= text@);
    while from < n && white_space(text.get_char(from))
        invariant
            n == text@.len(),
            from <= n,
            trimmed_start(text@) == trimmed_start(text@.skip(from as int)),
        decreases n - from,
    {
        assert(text@.skip(from as int).skip(1) =~= text@.skip(from + 1));
        from = from + 1;
    }
    assert(trimmed_start(text@) == text@.skip(from as int));
    let mut to: usize = n;
    assert(text@.subrange(from as int, n as int) =~= text@.skip(from as int));
    while from < to && white_space(text.get_char(to - 1))
        invariant
            n == text@.len(),
            from <= to <= n,
            trimmed(text@) == trimmed_end(text@.subrange(from as int, to as int)),
        decreases to,
    {
        assert(text@.subrange(from as int, to as int).drop_last() =~= text@.subrange(from as int, to - 1));
        to = to - 1;
    }
    text.substring_char(from, to).to_owned()
}

/// The pieces of a text between commas.
pub open spec fn pieces(text: Seq<char>) -> Seq<Seq<char>>
    decreases text.len(),
{
    if text.len() == 0 {
        seq![seq![]]
    } else {
        let before = pieces(text.drop_last());
        if text.last() == ',' {
            before.push(seq![])
        } else {
            before.drop_last().push(before.last().push(text.last()))
        }
    }
}

/// The pieces of a text between commas, without the white space around each.
pub fn split_list(text: &str) -> (r: Vec<String>)
    ensures
        r@.map_values(|s: String| s@) == pieces(text@).map_values(|s: Seq<char>| trimmed(s)),
{
    let n: usize = text.unicode_len();
    let mut r: Vec<String> = Vec::new();
    let mut from: usize = 0;
    let mut i: usize = 0;
    assert(text@.take(0) =~= seq![]);
    assert(text@.subrange(0, 0) =~= seq![]);
    assert(pieces(text@.take(0)) =~= seq![text@.subrange(0, 0)]);
    while i < n
        invariant
            n == text@.len(),
            from <= i <= n,
            pieces(text@.take(i as int)).len() == r@.len() + 1,
            pieces(text@.take(i as int)).last() == text@.subrange(from as int, i as int),
            forall|k: int|
                0 <= k < r@.len() ==> (#[trigger] r@[k])@ == trimmed(pieces(text@.take(i as int))[k]),
        decreases n - i,
    {
        assert(text@.take(i + 1).drop_last() =~= text@.take(i as int));
        assert(text@.take(i + 1).last() == text@[i as int]);
        let ghost before = pieces(text@.take(i as int));
        if text.get_char(i) == ',' {
            let piece: String = trim(text.substring_char(from, i));
            r.push(piece);
            from = i + 1;
            assert(text@.subrange(from as int, i + 1) =~= seq![]);
        } else {
            assert(text@.subrange(from as int, i + 1) =~= text@.subrange(from as int, i as int).push(text@[i as int]));
        }
        i = i + 1;
    }
    assert(text@.take(n as int) =~= text@);
    let piece: String = trim(text.substring_char(from, n));
    r.push(piece);
    assert(r@.map_values(|s: String| s@) =~= pieces(text@).map_values(|s: Seq<char>| trimmed(s)));
    r
}

/// Whether two byte slices hold the same bytes.
pub fn bytes_eq(a: &[u8], b: &[u8]) -> (r: bool)
    ensures
        r == (a@ == b@),
{
    if a.len() != b.len() {
        return false;
    }
    let mut i: usize = 0;
    while i < a.len()
        invariant
            a@.len() == b@.len(),
            i <= a@.len(),
            forall|j: int| 0 <= j < i ==> a@[j] == b@[j],
        decreases a@.len() - i,
    {
        if a[i] != b[i] {
            return false;
        }
        i = i + 1;
    }
    assert(a@ =~= b@);
    true
}

/// Whether two string slices hold the same text.
pub fn text_eq(a: &str, b: &str) -> (r: bool)
    ensures
        r == (a@ == b@),
{
    proof {
        encode_utf8_decode_utf8(a@);
        encode_utf8_decode_utf8(b@);
    }
    bytes_eq(a.as_bytes(), b.as_bytes())
}

} // verus!
