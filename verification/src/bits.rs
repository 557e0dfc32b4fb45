use vstd::prelude::*;

verus! {

/// Whether bit `i` of `b` is set (bits at `i >= 64` are never set).
pub open spec fn bit(b: u64, i: u64) -> bool {
    (b >> i) & 1 == 1
}

/// No bit of zero is set.
pub proof fn lemma_bit_zero(i: u64)
    ensures
        !bit(0, i),
{
    assert((0u64 >> i) & 1 != 1) by (bit_vector);
}

/// No bit at or beyond 64 is set.
pub proof fn lemma_bit_high(b: u64, i: u64)
    requires
        i >= 64,
    ensures
        !bit(b, i),
{
    assert(i >= 64 ==> (b >> i) & 1 != 1) by (bit_vector);
}

/// The bits of `a & b` are those set in both.
pub proof fn lemma_bit_and(a: u64, b: u64, i: u64)
    ensures
        bit(a & b, i) == (bit(a, i) && bit(b, i)),
{
    assert(((a & b) >> i) & 1 == 1 <==> ((a >> i) & 1 == 1 && (b >> i) & 1 == 1)) by (bit_vector);
}

/// The bits of `a | b` are those set in either.
pub proof fn lemma_bit_or(a: u64, b: u64, i: u64)
    ensures
        bit(a | b, i) == (bit(a, i) || bit(b, i)),
{
    assert(((a | b) >> i) & 1 == 1 <==> ((a >> i) & 1 == 1 || (b >> i) & 1 == 1)) by (bit_vector);
}

/// The bits below 64 of `!a` are those not set in `a`.
pub proof fn lemma_bit_not(a: u64, i: u64)
    requires
        i < 64,
    ensures
        bit(!a, i) == !bit(a, i),
{
    assert(i < 64 ==> (((!a) >> i) & 1 == 1 <==> !((a >> i) & 1 == 1))) by (bit_vector);
}

/// Shifting left by `s` moves bit `i - s` to `i`.
pub proof fn lemma_bit_shl(a: u64, s: u64, i: u64)
    requires
        s < 64,
    ensures
        bit(a << s, i) == (s <= i && i < 64 && bit(a, (i - s) as u64)),
{
    assert(s < 64 ==> ((((a << s) >> i) & 1 == 1) <==> (s <= i && i < 64 && ((a >> ((i - s) as u64)) & 1 == 1)))) by (bit_vector);
}

/// Shifting right by `s` moves bit `i + s` to `i`.
pub proof fn lemma_bit_shr(a: u64, s: u64, i: u64)
    requires
        s < 64,
        i < 64,
    ensures
        bit(a >> s, i) == bit(a, (i + s) as u64),
{
    assert(s < 64 && i < 64 ==> ((((a >> s) >> i) & 1 == 1) <==> ((a >> ((i + s) as u64)) & 1 == 1))) by (bit_vector);
}

/// `1 << s` has bit `s` set, and no other.
pub proof fn lemma_bit_single(s: u64, i: u64)
    requires
        s < 64,
    ensures
        bit(1u64 << s, i) == (i == s),
{
    assert(s < 64 ==> ((((1u64 << s) >> i) & 1 == 1) <==> i == s)) by (bit_vector);
}

/// `(1 << n) - 1` has the bits below `n` set, and no other.
pub proof fn lemma_bit_low(n: u64, i: u64)
    requires
        n < 64,
    ensures
        bit(((1u64 << n) - 1) as u64, i) == (i < n),
{
    assert(n < 64 ==> (((((1u64 << n) - 1) as u64 >> i) & 1 == 1) <==> i < n)) by (bit_vector);
}

/// A boolean as a word has bit 0 set if it is true, and no other.
pub proof fn lemma_bit_bool(m: bool, i: u64)
    ensures
        bit(if m { 1u64 } else { 0u64 }, i) == (m && i == 0),
{
    assert(((1u64 >> i) & 1 == 1) <==> i == 0) by (bit_vector);
    lemma_bit_zero(i);
}

/// Two words with the same bits are equal.
pub proof fn lemma_bit_ext(a: u64, b: u64)
    requires
        forall|i: u64| i < 64 ==> bit(a, i) == bit(b, i),
    ensures
        a == b,
{
    assert forall|i: u64| i < 64 implies #[trigger] ((a >> i) & 1) == ((b >> i) & 1) by {
        assert(bit(a, i) == bit(b, i));
        assert((a >> i) & 1 == 1 || (a >> i) & 1 == 0) by (bit_vector);
        assert((b >> i) & 1 == 1 || (b >> i) & 1 == 0) by (bit_vector);
    }
    lemma_ext_aux(a, b);
}

/// Words whose bits agree at every position are equal.
proof fn lemma_ext_aux(a: u64, b: u64)
    requires
        forall|i: u64| i < 64 ==> #[trigger] ((a >> i) & 1) == ((b >> i) & 1),
    ensures
        a == b,
{
    let x = a ^ b;
    assert forall|i: u64| i < 64 implies #[trigger] ((x >> i) & 1) == 0 by {
        assert(((a >> i) & 1) == ((b >> i) & 1));
        assert(((a >> i) & 1) == ((b >> i) & 1) ==> (((a ^ b) >> i) & 1) == 0) by (bit_vector);
    }
    lemma_zero_from_bits(x);
    assert(a ^ b == 0u64 ==> a == b) by (bit_vector);
}

/// A word with no bit set is zero.
proof fn lemma_zero_from_bits(x: u64)
    requires
        forall|i: u64| i < 64 ==> #[trigger] ((x >> i) & 1) == 0,
    ensures
        x == 0,
{
    lemma_low_bits_clear(x, 64);
    assert((x >> 64u64) << 64u64 == x ==> x == 0) by (bit_vector);
}

/// Clearing the bits below `k` of a word with no bit set leaves it unchanged.
proof fn lemma_low_bits_clear(x: u64, k: u64)
    requires
        k <= 64,
        forall|i: u64| i < 64 ==> #[trigger] ((x >> i) & 1) == 0,
    ensures
        (x >> k) << k == x,
    decreases k,
{
    if k == 0 {
        assert((x >> 0u64) << 0u64 == x) by (bit_vector);
    } else {
        let j = (k - 1) as u64;
        lemma_low_bits_clear(x, j);
        assert((x >> j) & 1 == 0);
        assert(j < 64 && (x >> j) << j == x && (x >> j) & 1 == 0 ==> (x >> ((j + 1) as u64)) << ((j + 1) as u64) == x) by (bit_vector);
    }
}

} // verus!
