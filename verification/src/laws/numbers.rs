//! Numbers and texts.
use vstd::arithmetic::power::{lemma_pow0, pow};
use vstd::prelude::*;
use vstd::utf8::*;

use crate::text::{
    all_digits, decimal, decimal_bytes, digits_value, i32_value, is_digit, is_white_space,
    lemma_decimal_bytes, lemma_decimal_encoded, pieces, signed_decimal, signed_value, trimmed,
    trimmed_end, trimmed_start, unsigned_value, usize_value,
};
use crate::utils::caster::is_uint;

verus! {

/// A number is read by the places of its digits: what stands in front of `k`
/// digits counts ten times as much for each of them, a single digit counts what
/// it says, and nothing counts nothing.
pub proof fn digits_count_by_their_place(front: Seq<u8>, back: Seq<u8>, digit: u8)
    requires
        forall|i: int| 0 <= i < front.len() ==> #[trigger] front[i] >= 0x30,
        forall|i: int| 0 <= i < back.len() ==> #[trigger] back[i] >= 0x30,
        digit >= 0x30,
    ensures
        digits_value(front + back) == digits_value(front) * pow(10, back.len()) + digits_value(back),
        digits_value(seq![digit]) == digit - 0x30,
        digits_value(seq![]) == 0,
    decreases back.len(),
{
    reveal_with_fuel(digits_value, 2);
    assert(seq![digit].drop_last() =~= seq![]);
    if back.len() == 0 {
        assert(front + back =~= front);
        lemma_pow0(10);
    } else {
        let short = back.drop_last();
        digits_count_by_their_place(front, short, digit);
        assert((front + back).drop_last() =~= front + short);
        reveal(pow);
        let a: int = digits_value(front) as int;
        let p: int = pow(10, short.len());
        assert(pow(10, back.len()) == 10 * p);
        assert(a * (10 * p) == (a * p) * 10) by (nonlinear_arith);
        assert(back.last() == back[back.len() - 1]);
    }
}

/// Digits are the bytes from `0` to `9`, and nothing else is.
pub proof fn digits_are_zero_to_nine(bytes: Seq<u8>)
    ensures
        all_digits(bytes) <==> forall|i: int| 0 <= i < bytes.len() ==> 0x30 <= #[trigger] bytes[i] <= 0x39,
{
    if forall|i: int| 0 <= i < bytes.len() ==> 0x30 <= #[trigger] bytes[i] <= 0x39 {
        assert forall|i: int| 0 <= i < bytes.len() implies is_digit(#[trigger] bytes[i]) by {}
    }
    if all_digits(bytes) {
        assert forall|i: int| 0 <= i < bytes.len() implies 0x30 <= #[trigger] bytes[i] <= 0x39 by {
            assert(is_digit(bytes[i]));
        }
    }
}

/// A number that is written reads back, is written in digits only, and has no
/// leading zero but that of zero itself.
pub proof fn written_number_reads_back(n: nat)
    ensures
        digits_value(decimal_bytes(n)) == n,
        encode_utf8(decimal(n)) == decimal_bytes(n),
        forall|i: int| 0 <= i < decimal_bytes(n).len() ==> 0x30 <= #[trigger] decimal_bytes(n)[i] <= 0x39,
        decimal_bytes(n).len() >= 1,
        decimal_bytes(n)[0] == 0x30 ==> n == 0 && decimal_bytes(n).len() == 1,
    decreases n,
{
    lemma_decimal_bytes(n);
    lemma_decimal_encoded(n);
    digits_are_zero_to_nine(decimal_bytes(n));
    if n >= 10 {
        written_number_reads_back(n / 10);
    }
}

/// A signed number that is written reads back.
pub proof fn written_integer_reads_back(n: i32)
    ensures
        i32_value(signed_decimal(n as int)) == Some(n),
        n < 0 ==> signed_decimal(n as int) == seq!['-'] + decimal((-n) as nat),
        n >= 0 ==> signed_decimal(n as int) == decimal(n as nat),
{
    let magnitude: nat = if n < 0 {
        (-n) as nat
    } else {
        n as nat
    };
    let digits = decimal_bytes(magnitude);
    written_number_reads_back(magnitude);
    lemma_decimal_bytes(magnitude);
    let text = signed_decimal(n as int);
    if n < 0 {
        assert(is_ascii_chars(text)) by {
            lemma_decimal_encoded(magnitude);
            assert forall|i: int| 0 <= i < text.len() implies '\0' <= #[trigger] text[i] <= '\u{7f}' by {
                if i > 0 {
                    assert(text[i] == decimal(magnitude)[i - 1]);
                }
            }
        }
        lemma_decimal_encoded(magnitude);
        is_ascii_chars_encode_utf8(text);
        is_ascii_chars_encode_utf8(decimal(magnitude));
        assert(encode_utf8(text) =~= seq![45u8] + digits) by {
            assert forall|i: int| 0 < i < text.len() implies encode_utf8(text)[i] == digits[i - 1] by {
                assert(text[i] == decimal(magnitude)[i - 1]);
                assert(encode_utf8(decimal(magnitude))[i - 1] == decimal(magnitude)[i - 1] as u8);
            }
        }
        assert(encode_utf8(text).skip(1) =~= digits);
    } else {
        assert(is_digit(digits[0]));
    }
}

/// A number may have a sign in front of its digits: a plus changes nothing, and
/// a minus, where one is allowed, turns it round.
pub proof fn signs_are_read(digits: Seq<u8>)
    requires
        digits.len() > 0,
        forall|i: int| 0 <= i < digits.len() ==> 0x30 <= #[trigger] digits[i] <= 0x39,
    ensures
        unsigned_value(digits) == Some(digits_value(digits)),
        unsigned_value(seq![0x2b] + digits) == Some(digits_value(digits)),
        unsigned_value(seq![0x2d] + digits) is None,
        signed_value(digits) == Some(digits_value(digits) as int),
        signed_value(seq![0x2b] + digits) == Some(digits_value(digits) as int),
        signed_value(seq![0x2d] + digits) == Some(-(digits_value(digits) as int)),
{
    digits_are_zero_to_nine(digits);
    let plus = seq![0x2bu8] + digits;
    let minus = seq![0x2du8] + digits;
    assert(plus.skip(1) =~= digits);
    assert(minus.skip(1) =~= digits);
    assert(!is_digit(minus[0]));
}

/// Anything but a sign and digits is no number: nothing, a lone sign, or a text
/// with any other byte in it.
pub proof fn other_bytes_are_no_number(bytes: Seq<u8>, i: int)
    ensures
        bytes.len() == 0 ==> unsigned_value(bytes) is None && signed_value(bytes) is None,
        bytes.len() == 1 && !(0x30 <= bytes[0] <= 0x39) ==> unsigned_value(bytes) is None && signed_value(bytes)
            is None,
        0 < i < bytes.len() && !(0x30 <= bytes[i] <= 0x39) ==> unsigned_value(bytes) is None && signed_value(bytes)
            is None,
        0 < bytes.len() && !(0x30 <= bytes[0] <= 0x39) && bytes[0] != 0x2b ==> unsigned_value(bytes) is None,
        0 < bytes.len() && !(0x30 <= bytes[0] <= 0x39) && bytes[0] != 0x2b && bytes[0] != 0x2d ==> signed_value(
            bytes,
        ) is None,
{
    if bytes.len() > 0 {
        assert(!(0x30 <= bytes[0] <= 0x39) ==> !is_digit(bytes[0]));
    }
    if 0 < i < bytes.len() && !(0x30 <= bytes[i] <= 0x39) {
        assert(!is_digit(bytes[i]));
        assert(bytes.skip(1)[i - 1] == bytes[i]);
    }
}

/// A number is read exactly where its type can hold it.
pub proof fn numbers_are_read_within_their_range(text: Seq<char>, bytes: Seq<u8>, v: i32, u: usize)
    ensures
        i32_value(text) == Some(v) <==> signed_value(encode_utf8(text)) == Some(v as int),
        i32_value(text) is None <==> match signed_value(encode_utf8(text)) {
            Some(w) => w < -0x8000_0000 || w > 0x7fff_ffff,
            None => true,
        },
        usize_value(bytes) == Some(u) <==> unsigned_value(bytes) == Some(u as nat),
        usize_value(bytes) is None <==> match unsigned_value(bytes) {
            Some(w) => w > usize::MAX,
            None => true,
        },
        is_uint(bytes) <==> (forall|i: int| 0 <= i < bytes.len() ==> #[trigger] bytes[i] >= 0x30) && digits_value(
            bytes,
        ) < 0x1_0000_0000,
{
}

/// The white space of Unicode.
pub proof fn white_space_is_that_of_unicode(c: char)
    ensures
        is_white_space(c) <==> {
            ||| c == '\t' || c == '\n' || c == '\u{b}' || c == '\u{c}' || c == '\r' || c == ' '
            ||| c == '\u{85}' || c == '\u{a0}' || c == '\u{1680}' || c == '\u{2000}' || c == '\u{2001}'
            ||| c == '\u{2002}' || c == '\u{2003}' || c == '\u{2004}' || c == '\u{2005}' || c == '\u{2006}'
            ||| c == '\u{2007}' || c == '\u{2008}' || c == '\u{2009}' || c == '\u{200a}' || c == '\u{2028}'
            ||| c == '\u{2029}' || c == '\u{202f}' || c == '\u{205f}' || c == '\u{3000}'
        },
{
}

proof fn lemma_trimmed_start(front: Seq<char>, rest: Seq<char>)
    requires
        forall|i: int| 0 <= i < front.len() ==> is_white_space(#[trigger] front[i]),
        rest.len() > 0 ==> !is_white_space(rest[0]),
    ensures
        trimmed_start(front + rest) == rest,
    decreases front.len(),
{
    if front.len() == 0 {
        assert(front + rest =~= rest);
    } else {
        assert((front + rest)[0] == front[0]);
        assert((front + rest).skip(1) =~= front.skip(1) + rest);
        assert forall|i: int| 0 <= i < front.skip(1).len() implies is_white_space(#[trigger] front.skip(1)[i]) by {
            assert(front.skip(1)[i] == front[i + 1]);
        }
        lemma_trimmed_start(front.skip(1), rest);
    }
}

proof fn lemma_trimmed_end(rest: Seq<char>, back: Seq<char>)
    requires
        forall|i: int| 0 <= i < back.len() ==> is_white_space(#[trigger] back[i]),
        rest.len() > 0 ==> !is_white_space(rest.last()),
    ensures
        trimmed_end(rest + back) == rest,
    decreases back.len(),
{
    if back.len() == 0 {
        assert(rest + back =~= rest);
    } else {
        assert((rest + back).last() == back[back.len() - 1]);
        assert((rest + back).drop_last() =~= rest + back.drop_last());
        assert forall|i: int| 0 <= i < back.drop_last().len() implies is_white_space(
            #[trigger] back.drop_last()[i],
        ) by {
            assert(back.drop_last()[i] == back[i]);
        }
        lemma_trimmed_end(rest, back.drop_last());
    }
}

/// Trimming takes away the white space around a text, and nothing else.
pub proof fn trimming_takes_what_is_around(front: Seq<char>, text: Seq<char>, back: Seq<char>)
    requires
        forall|i: int| 0 <= i < front.len() ==> is_white_space(#[trigger] front[i]),
        forall|i: int| 0 <= i < back.len() ==> is_white_space(#[trigger] back[i]),
        text.len() > 0 ==> !is_white_space(text[0]) && !is_white_space(text.last()),
    ensures
        trimmed(front + text + back) == text,
{
    if text.len() > 0 {
        assert(front + text + back =~= front + (text + back));
        assert((text + back)[0] == text[0]);
        lemma_trimmed_start(front, text + back);
        lemma_trimmed_end(text, back);
    } else {
        let all = front + text + back;
        assert(all =~= all + seq![]);
        assert forall|i: int| 0 <= i < all.len() implies is_white_space(#[trigger] all[i]) by {
            if i < front.len() {
                assert(all[i] == front[i]);
            } else {
                assert(all[i] == back[i - front.len()]);
            }
        }
        lemma_trimmed_start(all, seq![]);
        assert(trimmed(all) =~= text);
    }
}

/// Texts with a comma between each two.
pub open spec fn with_commas(parts: Seq<Seq<char>>) -> Seq<char>
    decreases parts.len(),
{
    if parts.len() == 0 {
        seq![]
    } else if parts.len() == 1 {
        parts[0]
    } else {
        with_commas(parts.drop_last()).push(',') + parts.last()
    }
}

proof fn lemma_last_part(parts: Seq<Seq<char>>, c: char)
    requires
        parts.len() > 0,
    ensures
        with_commas(parts.drop_last().push(parts.last().push(c))) == with_commas(parts).push(c),
{
    let longer = parts.drop_last().push(parts.last().push(c));
    assert(longer.drop_last() =~= parts.drop_last());
    assert(with_commas(longer) =~= with_commas(parts).push(c));
}

/// The pieces of a list hold no comma, and with commas between them they make up
/// the list.
pub proof fn pieces_make_up_the_list(text: Seq<char>)
    ensures
        with_commas(pieces(text)) == text,
        pieces(text).len() >= 1,
        forall|i: int| 0 <= i < pieces(text).len() ==> !(#[trigger] pieces(text)[i]).contains(','),
    decreases text.len(),
{
    let parts = pieces(text);
    if text.len() == 0 {
        assert(with_commas(parts) =~= text);
    } else {
        let before = pieces(text.drop_last());
        pieces_make_up_the_list(text.drop_last());
        if text.last() == ',' {
            assert(parts.drop_last() =~= before);
            assert(with_commas(parts) =~= text);
            assert forall|i: int| 0 <= i < parts.len() implies !(#[trigger] parts[i]).contains(',') by {
                if i < before.len() {
                    assert(parts[i] == before[i]);
                }
            }
        } else {
            lemma_last_part(before, text.last());
            assert(text.drop_last().push(text.last()) =~= text);
            assert forall|i: int| 0 <= i < parts.len() implies !(#[trigger] parts[i]).contains(',') by {
                if i < before.len() - 1 {
                    assert(parts[i] == before[i]);
                } else {
                    let last = before[before.len() - 1];
                    assert(parts[i] == last.push(text.last()));
                    if parts[i].contains(',') {
                        let j = choose|j: int| 0 <= j < parts[i].len() && parts[i][j] == ',';
                        assert(last[j] == ',');
                        assert(last.contains(','));
                    }
                }
            }
        }
    }
}

} // verus!
