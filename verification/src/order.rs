use vstd::prelude::*;

verus! {

/// Whether a single-precision bit pattern encodes NaN: all exponent bits set
/// and a non-zero fraction.
pub open spec fn is_nan_bits(bits: u32) -> bool {
    (bits & 0x7fff_ffffu32) > 0x7f80_0000u32
}

/// The signed magnitude of a single-precision bit pattern: the bits below
/// the sign bit, negated when the sign bit is set. Both zeros have signed
/// magnitude 0. Single-precision values that are not NaN are ordered as
/// their signed magnitudes.
pub open spec fn signed_magnitude(bits: u32) -> int {
    let mag = (bits & 0x7fff_ffffu32) as int;
    if bits & 0x8000_0000u32 != 0 {
        -mag
    } else {
        mag
    }
}

/// The order key of a non-NaN bit pattern: its signed magnitude shifted into
/// the unsigned range.
pub open spec fn key_of(bits: u32) -> int {
    signed_magnitude(bits) + 0x8000_0000
}

/// The order key of a single-precision bit pattern, `None` for NaN. Keys
/// compare as the values they encode; both zeros share one key.
pub fn order_key(bits: u32) -> (k: Option<u32>)
    ensures
        k is None <==> is_nan_bits(bits),
        k matches Some(v) ==> v == key_of(bits),
{
    let mag = bits & 0x7fff_ffffu32;
    if mag > 0x7f80_0000u32 {
        None
    } else if bits & 0x8000_0000u32 != 0 {
        Some(0x8000_0000u32 - mag)
    } else {
        Some(0x8000_0000u32 + mag)
    }
}

/// The key of a value on the left of a strict comparison (`value < bound`):
/// NaN gets the greatest key, below which no key lies, so that a NaN is
/// never found smaller, as with floating-point comparison.
pub fn key_or_greatest(bits: u32) -> (k: u32)
    ensures
        is_nan_bits(bits) ==> k == u32::MAX,
        !is_nan_bits(bits) ==> k == key_of(bits),
{
    match order_key(bits) {
        Some(k) => k,
        None => u32::MAX,
    }
}

/// The key of a value on the right of a strict comparison (`value < bound`):
/// NaN gets the least key, below which no key lies, so that nothing is found
/// smaller than a NaN, as with floating-point comparison.
pub fn key_or_least(bits: u32) -> (k: u32)
    ensures
        is_nan_bits(bits) ==> k == 0,
        !is_nan_bits(bits) ==> k == key_of(bits),
{
    match order_key(bits) {
        Some(k) => k,
        None => 0,
    }
}

/// Keys of values that are not NaN lie strictly between the keys given to
/// NaN on either side of a comparison, so a NaN compares as neither smaller
/// nor larger than any of them.
pub proof fn lemma_nan_keys_are_outside(bits: u32)
    requires
        !is_nan_bits(bits),
    ensures
        0 < key_of(bits) < u32::MAX,
{
    assert(bits & 0x7fff_ffffu32 <= 0x7fff_ffffu32) by (bit_vector);
}

/// Order keys preserve the order of the values they encode, in both
/// directions, and equal values get equal keys.
pub proof fn lemma_key_order(a: u32, b: u32)
    requires
        !is_nan_bits(a),
        !is_nan_bits(b),
    ensures
        key_of(a) < key_of(b) <==> signed_magnitude(a) < signed_magnitude(b),
        key_of(a) == key_of(b) <==> signed_magnitude(a) == signed_magnitude(b),
        0 <= key_of(a) <= u32::MAX,
{
    assert(a & 0x7fff_ffffu32 <= 0x7fff_ffffu32) by (bit_vector);
}

/// Positive and negative zero share their key.
pub proof fn lemma_zeros_share_key()
    ensures
        key_of(0) == key_of(0x8000_0000),
{
    assert(0u32 & 0x7fff_ffffu32 == 0) by (bit_vector);
    assert(0x8000_0000u32 & 0x7fff_ffffu32 == 0) by (bit_vector);
    assert(0x8000_0000u32 & 0x8000_0000u32 != 0) by (bit_vector);
    assert(0u32 & 0x8000_0000u32 == 0) by (bit_vector);
}

/// The order of single-precision values, read off their bit patterns: a
/// value with the sign bit set and a non-zero magnitude is negative, any
/// other is non-negative (both zeros are zero); negatives lie below
/// non-negatives; non-negatives are ordered by magnitude and negatives by
/// magnitude reversed.
pub open spec fn value_below(a: u32, b: u32) -> bool {
    let ma = a & 0x7fff_ffffu32;
    let mb = b & 0x7fff_ffffu32;
    let neg_a = a & 0x8000_0000u32 != 0 && ma != 0;
    let neg_b = b & 0x8000_0000u32 != 0 && mb != 0;
    if neg_a && neg_b {
        mb < ma
    } else if neg_a {
        true
    } else if neg_b {
        false
    } else {
        ma < mb
    }
}

/// Keys compare as the values: for bit patterns that are not NaN (magnitude
/// at most that of infinity), one key is below another exactly when its value
/// is below the other value, and keys are equal exactly when the values are
/// (both zeros being one value). Negative values get keys below the key of
/// zero, `0x8000_0000`, and non-negative ones keys at or above it.
pub proof fn lemma_keys_follow_values(a: u32, b: u32)
    requires
        a & 0x7fff_ffffu32 <= 0x7f80_0000u32,
        b & 0x7fff_ffffu32 <= 0x7f80_0000u32,
    ensures
        !is_nan_bits(a),
        key_of(a) < key_of(b) <==> value_below(a, b),
        key_of(a) == key_of(b) <==> (!value_below(a, b) && !value_below(b, a)),
        (a & 0x8000_0000u32 != 0 && a & 0x7fff_ffffu32 != 0) ==> key_of(a) < 0x8000_0000,
        !(a & 0x8000_0000u32 != 0 && a & 0x7fff_ffffu32 != 0) ==> key_of(a) >= 0x8000_0000,
        key_of(0) == 0x8000_0000,
{
    assert(0u32 & 0x7fff_ffffu32 == 0) by (bit_vector);
    assert(0u32 & 0x8000_0000u32 == 0) by (bit_vector);
}

/// NaN, and only NaN, has no key: the key is missing exactly when the
/// magnitude bits exceed those of infinity.
pub proof fn lemma_nan_is_above_infinity(bits: u32)
    ensures
        is_nan_bits(bits) <==> (bits & 0x7fff_ffffu32) > 0x7f80_0000u32,
        !is_nan_bits(0x7f80_0000u32),
        !is_nan_bits(0xff80_0000u32),
{
    assert(0x7f80_0000u32 & 0x7fff_ffffu32 == 0x7f80_0000u32) by (bit_vector);
    assert(0xff80_0000u32 & 0x7fff_ffffu32 == 0x7f80_0000u32) by (bit_vector);
}

} // verus!
