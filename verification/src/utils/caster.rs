//! Reading an unsigned number.
use vstd::prelude::*;

use crate::text::{digits_value, lemma_digits_value_prefix, none_below_zero};

verus! {

/// Whether `parse_uint` reads a value: no byte stands before the digit zero,
/// and the number fits in 32 bits.
pub open spec fn is_uint(value: Seq<u8>) -> bool {
    none_below_zero(value) && digits_value(value) <= u32::MAX
}

/// The number that the bytes denote.
pub fn parse_uint(value: &[u8]) -> (result: u32)
    requires
        is_uint(value@),
    ensures
        result == digits_value(value@),
{
    let mut result: u32 = 0;
    let mut i: usize = 0;
    assert(value@.take(0) =~= Seq::<u8>::empty());
    while i < value.len()
        invariant
            i <= value@.len(),
            is_uint(value@),
            result == digits_value(value@.take(i as int)),
        decreases value@.len() - i,
    {
        proof {
            lemma_digits_value_prefix(value@, i + 1);
            assert(value@.take(i + 1).drop_last() =~= value@.take(i as int));
            assert(value@[i as int] >= 48);
        }
        result = result * 10 + (value[i] - 48) as u32;
        i = i + 1;
    }
    assert(value@.take(i as int) =~= value@);
    result
}

/// Whether `parse_uint` reads `value`.
pub fn can_parse_uint(value: &[u8]) -> (r: bool)
    ensures
        r == is_uint(value@),
{
    let mut i: usize = 0;
    while i < value.len()
        invariant
            i <= value@.len(),
            forall|j: int| 0 <= j < i ==> #[trigger] value@[j] >= 48,
        decreases value@.len() - i,
    {
        if value[i] < 48 {
            return false;
        }
        i = i + 1;
    }
    let mut result: u64 = 0;
    let mut k: usize = 0;
    assert(value@.take(0) =~= Seq::<u8>::empty());
    while k < value.len()
        invariant
            k <= value@.len(),
            none_below_zero(value@),
            result == digits_value(value@.take(k as int)),
            result <= u32::MAX,
        decreases value@.len() - k,
    {
        proof {
            lemma_digits_value_prefix(value@, k + 1);
            assert(value@.take(k + 1).drop_last() =~= value@.take(k as int));
            assert(value@[k as int] >= 48);
        }
        result = result * 10 + (value[k] - 48) as u64;
        if result > 4_294_967_295 {
            return false;
        }
        k = k + 1;
    }
    assert(value@.take(k as int) =~= value@);
    true
}

} // verus!
