//! Bits and bit ranges of a word.
//!
//! A word is a `u128`; one of a narrower type has no bits above that type's. The accessors
//! are stated both by their formula and bit by bit.

use vstd::prelude::*;

verus! {

/// Whether bit `i` of `v` is set.
pub open spec fn bit(v: u128, i: int) -> bool {
    0 <= i < 128 && (v >> (i as u128)) & 1u128 == 1u128
}

/// The word whose lowest `n` bits are set.
pub open spec fn ones(n: int) -> u128 {
    if n >= 128 {
        0xffff_ffff_ffff_ffff_ffff_ffff_ffff_ffffu128
    } else if n <= 0 {
        0
    } else {
        ((1u128 << (n as u128)) - 1) as u128
    }
}

/// `v` moved up by `n` bits, in a word of 128 bits.
pub open spec fn up(v: u128, n: int) -> u128 {
    v << (n as u128)
}

/// The word of a single bit.
pub open spec fn word_of(value: bool) -> u128 {
    if value {
        1
    } else {
        0
    }
}

/// The mask of bits `high` down to `low`.
pub open spec fn mask_of(high: int, low: int) -> u128 {
    up(ones(high - low + 1), low)
}

/// The value of bits `high` down to `low`.
pub open spec fn field_of(v: u128, high: int, low: int) -> u128 {
    (v >> (low as u128)) & ones(high - low + 1)
}

/// `v` with bits `high` down to `low` replaced by the lowest bits of `x`.
pub open spec fn with_field(v: u128, high: int, low: int, x: u128) -> u128 {
    (v & !mask_of(high, low)) | up(x & ones(high - low + 1), low)
}

/// `v` with bits `high` down to `low` replaced by those of `x`.
pub open spec fn with_unshifted(v: u128, high: int, low: int, x: u128) -> u128 {
    (v & !mask_of(high, low)) | (x & mask_of(high, low))
}

/// Whether `v` has no bit from bit `n` on.
pub open spec fn fits(v: u128, n: int) -> bool {
    v & !ones(n) == 0
}

/// The bits of a union.
pub proof fn bit_or(a: u128, b: u128, i: int)
    ensures
        bit(a | b, i) <==> bit(a, i) || bit(b, i),
{
    if 0 <= i < 128 {
        let k = i as u128;
        assert(((a | b) >> k) & 1u128 == 1u128 <==> (a >> k) & 1u128 == 1u128 || (b >> k) & 1u128
            == 1u128) by (bit_vector);
    }
}

/// The bits of an intersection.
pub proof fn bit_and(a: u128, b: u128, i: int)
    ensures
        bit(a & b, i) <==> bit(a, i) && bit(b, i),
{
    if 0 <= i < 128 {
        let k = i as u128;
        assert(((a & b) >> k) & 1u128 == 1u128 <==> (a >> k) & 1u128 == 1u128 && (b >> k) & 1u128
            == 1u128) by (bit_vector);
    }
}

/// The bits of a complement.
pub proof fn bit_not(a: u128, i: int)
    ensures
        bit(!a, i) <==> 0 <= i < 128 && !bit(a, i),
{
    if 0 <= i < 128 {
        let k = i as u128;
        assert((!a >> k) & 1u128 == 1u128 <==> (a >> k) & 1u128 != 1u128) by (bit_vector)
            requires
                k < 128,
        ;
    }
}

/// The bits of a word moved up.
pub proof fn bit_up(a: u128, n: int, i: int)
    requires
        0 <= n < 128,
    ensures
        bit(up(a, n), i) <==> i < 128 && bit(a, i - n),
{
    if 0 <= i < 128 {
        let k = i as u128;
        let s = n as u128;
        if i < n {
            assert(((a << s) >> k) & 1u128 != 1u128) by (bit_vector)
                requires
                    k < s,
                    s < 128,
            ;
        } else {
            let d = (i - n) as u128;
            assert(((a << s) >> k) & 1u128 == 1u128 <==> (a >> d) & 1u128 == 1u128) by (bit_vector)
                requires
                    k < 128,
                    s < 128,
                    s <= k,
                    d == k - s,
            ;
        }
    }
}

/// The bits of a word moved down.
pub proof fn bit_down(a: u128, n: int, i: int)
    requires
        0 <= n < 128,
    ensures
        bit(a >> (n as u128), i) <==> 0 <= i && bit(a, i + n),
{
    if 0 <= i < 128 {
        let k = i as u128;
        let s = n as u128;
        if i + n >= 128 {
            assert(((a >> s) >> k) & 1u128 != 1u128) by (bit_vector)
                requires
                    k + s >= 128,
                    k < 128,
                    s < 128,
            ;
        } else {
            let d = (i + n) as u128;
            assert(((a >> s) >> k) & 1u128 == 1u128 <==> (a >> d) & 1u128 == 1u128) by (bit_vector)
                requires
                    d == k + s,
                    d < 128,
            ;
        }
    }
}

/// The lowest `n` bits are set, and no other.
pub proof fn bit_ones(n: int, i: int)
    ensures
        bit(ones(n), i) <==> 0 <= i < 128 && i < n,
{
    if 0 <= i < 128 {
        let k = i as u128;
        if n >= 128 {
            assert((0xffff_ffff_ffff_ffff_ffff_ffff_ffff_ffffu128 >> k) & 1u128 == 1u128)
                by (bit_vector)
                requires
                    k < 128,
            ;
        } else if n <= 0 {
            assert((0u128 >> k) & 1u128 != 1u128) by (bit_vector);
        } else {
            let s = n as u128;
            let m = ones(n);
            assert(1u128 << s >= 1) by (bit_vector)
                requires
                    s < 128,
            ;
            assert((m >> k) & 1u128 == 1u128 <==> k < s) by (bit_vector)
                requires
                    m == (1u128 << s) - 1,
                    k < 128,
                    s < 128,
            ;
        }
    }
}

/// No bit of zero is set.
pub proof fn bit_zero(i: int)
    ensures
        !bit(0, i),
{
    if 0 <= i < 128 {
        let k = i as u128;
        assert((0u128 >> k) & 1u128 != 1u128) by (bit_vector);
    }
}

/// A word other than zero has a bit.
proof fn lemma_some_bit(v: u128, n: int) -> (i: int)
    requires
        v != 0,
        0 <= n <= 128,
        n < 128 ==> v >> (n as u128) == 0,
    ensures
        bit(v, i),
    decreases n,
{
    if n == 0 {
        assert(v >> 0u128 == v) by (bit_vector);
        0
    } else {
        let k = (n - 1) as u128;
        if v >> k == 0 {
            lemma_some_bit(v, n - 1)
        } else {
            if n < 128 {
                let s = n as u128;
                assert((v >> k) & 1u128 == 1u128) by (bit_vector)
                    requires
                        v >> k != 0,
                        v >> s == 0,
                        s == k + 1,
                        s < 128,
                ;
            } else {
                assert((v >> k) & 1u128 == 1u128) by (bit_vector)
                    requires
                        v >> k != 0,
                        k == 127,
                ;
            }
            n - 1
        }
    }
}

/// Words with the same bits are the same.
pub proof fn same_bits(a: u128, b: u128)
    requires
        forall|i: int| bit(a, i) == bit(b, i),
    ensures
        a == b,
{
    if a != b {
        assert(a ^ b != 0) by (bit_vector)
            requires
                a != b,
        ;
        let i = lemma_some_bit(a ^ b, 128);
        let k = i as u128;
        assert((a >> k) & 1u128 == 1u128 <==> (b >> k) & 1u128 != 1u128) by (bit_vector)
            requires
                ((a ^ b) >> k) & 1u128 == 1u128,
        ;
        assert(bit(a, i) == bit(b, i));
    }
}

/// A word fits in `n` bits if and only if no bit from bit `n` on is set.
pub proof fn bit_fits(v: u128, n: int)
    ensures
        fits(v, n) <==> forall|i: int| i >= n ==> !bit(v, i),
{
    assert forall|i: int| #[trigger] bit(v & !ones(n), i) <==> i >= n && bit(v, i) by {
        bit_and(v, !ones(n), i);
        bit_not(ones(n), i);
        bit_ones(n, i);
    }
    if fits(v, n) {
        assert forall|i: int| i >= n implies !bit(v, i) by {
            bit_zero(i);
            assert(bit(v & !ones(n), i) <==> i >= n && bit(v, i));
        }
    }
    if forall|i: int| i >= n ==> !bit(v, i) {
        assert forall|i: int| bit(v & !ones(n), i) == bit(0, i) by {
            bit_zero(i);
            assert(bit(v & !ones(n), i) <==> i >= n && bit(v, i));
        }
        same_bits(v & !ones(n), 0);
    }
}

/// The bits of a mask.
pub proof fn bit_mask(high: int, low: int, i: int)
    requires
        0 <= low <= high < 128,
    ensures
        bit(mask_of(high, low), i) <==> low <= i <= high,
{
    bit_up(ones(high - low + 1), low, i);
    bit_ones(high - low + 1, i - low);
}

/// The bits of a field's value.
pub proof fn bit_field(v: u128, high: int, low: int, i: int)
    requires
        0 <= low <= high < 128,
    ensures
        bit(field_of(v, high, low), i) <==> 0 <= i <= high - low && bit(v, low + i),
{
    bit_and(v >> (low as u128), ones(high - low + 1), i);
    bit_down(v, low, i);
    bit_ones(high - low + 1, i);
}

/// The bits of a word with a field replaced.
pub proof fn bit_with_field(v: u128, high: int, low: int, x: u128, i: int)
    requires
        0 <= low <= high < 128,
    ensures
        bit(with_field(v, high, low, x), i) <==> if low <= i <= high {
            bit(x, i - low)
        } else {
            bit(v, i)
        },
{
    let m = mask_of(high, low);
    let y = x & ones(high - low + 1);
    bit_or(v & !m, up(y, low), i);
    bit_and(v, !m, i);
    bit_not(m, i);
    bit_mask(high, low, i);
    bit_up(y, low, i);
    bit_and(x, ones(high - low + 1), i - low);
    bit_ones(high - low + 1, i - low);
}

/// The bits of a word with a field replaced where it stands.
pub proof fn bit_with_unshifted(v: u128, high: int, low: int, x: u128, i: int)
    requires
        0 <= low <= high < 128,
    ensures
        bit(with_unshifted(v, high, low, x), i) <==> if low <= i <= high {
            bit(x, i)
        } else {
            bit(v, i)
        },
{
    let m = mask_of(high, low);
    bit_or(v & !m, x & m, i);
    bit_and(v, !m, i);
    bit_not(m, i);
    bit_mask(high, low, i);
    bit_and(x, m, i);
}

/// The mask of `high - low + 1` bits, from bit 0 on.
pub fn shifted_mask(high: usize, low: usize) -> (r: u128)
    requires
        low <= high < 128,
    ensures
        r == ones(high - low + 1),
        forall|i: int| #[trigger] bit(r, i) <==> 0 <= i <= high - low,
{
    let width = high - low + 1;
    proof {
        assert forall|i: int| #[trigger] bit(ones(width as int), i) <==> 0 <= i <= high
            - low by {
            bit_ones(width as int, i);
        }
    }
    if width == 128 {
        0xffff_ffff_ffff_ffff_ffff_ffff_ffff_ffff
    } else {
        let s: u128 = width as u128;
        proof {
            assert(1u128 << s >= 1) by (bit_vector)
                requires
                    s < 128,
            ;
        }
        (1u128 << s) - 1
    }
}

/// Bit `n` of a word.
pub fn get_bit(v: u128, n: usize) -> (r: bool)
    requires
        n < 128,
    ensures
        r == bit(v, n as int),
{
    (v >> (n as u128)) & 1 == 1
}

/// Sets bit `n` of a word to the given value.
pub fn set_bit(v: &mut u128, n: usize, value: bool)
    requires
        n < 128,
    ensures
        *final(v) == with_field(*old(v), n as int, n as int, word_of(value)),
        forall|i: int| #[trigger] bit(*final(v), i) <==> if i == n {
            value
        } else {
            bit(*old(v), i)
        },
{
    let x: u128 = if value {
        1
    } else {
        0
    };
    proof {
        assert forall|i: int| #[trigger] bit(
            with_field(*v, n as int, n as int, x),
            i,
        ) <==> if i == n {
            value
        } else {
            bit(*v, i)
        } by {
            bit_with_field(*v, n as int, n as int, x, i);
            assert((1u128 >> 0u128) & 1u128 == 1u128 && (0u128 >> 0u128) & 1u128 != 1u128)
                by (bit_vector);
        }
    }
    set_field(v, n, n, true, x);
}

/// The value of bits `high` down to `low` of a word: moved down to bit 0 if `shifted`, else
/// where they stand.
pub fn get_field(v: u128, high: usize, low: usize, shifted: bool) -> (r: u128)
    requires
        low <= high < 128,
    ensures
        shifted ==> r == field_of(v, high as int, low as int),
        !shifted ==> r == v & mask_of(high as int, low as int),
        forall|i: int| #[trigger]
            bit(r, i) <==> if shifted {
                0 <= i <= high - low && bit(v, low + i)
            } else {
                low <= i <= high && bit(v, i)
            },
{
    let mask = shifted_mask(high, low);
    proof {
        assert forall|i: int| #[trigger]
            bit(field_of(v, high as int, low as int), i) <==> 0 <= i <= high - low && bit(
                v,
                low + i,
            ) by {
            bit_field(v, high as int, low as int, i);
        }
        assert forall|i: int| #[trigger]
            bit(v & mask_of(high as int, low as int), i) <==> low <= i <= high && bit(v, i) by {
            bit_and(v, mask_of(high as int, low as int), i);
            bit_mask(high as int, low as int, i);
        }
    }
    if shifted {
        (v >> (low as u128)) & mask
    } else {
        v & (mask << (low as u128))
    }
}

/// Replaces bits `high` down to `low` of a word: by the lowest bits of `x` if `shifted`, else
/// by the bits of `x` at the same places.
pub fn set_field(v: &mut u128, high: usize, low: usize, shifted: bool, x: u128)
    requires
        low <= high < 128,
    ensures
        shifted ==> *final(v) == with_field(*old(v), high as int, low as int, x),
        !shifted ==> *final(v) == with_unshifted(*old(v), high as int, low as int, x),
        forall|i: int| #[trigger]
            bit(*final(v), i) <==> if !(low <= i <= high) {
                bit(*old(v), i)
            } else if shifted {
                bit(x, i - low)
            } else {
                bit(x, i)
            },
{
    let mask = shifted_mask(high, low);
    proof {
        assert forall|i: int| #[trigger]
            bit(with_field(*v, high as int, low as int, x), i) <==> if low <= i <= high {
                bit(x, i - low)
            } else {
                bit(*v, i)
            } by {
            bit_with_field(*v, high as int, low as int, x, i);
        }
        assert forall|i: int| #[trigger]
            bit(with_unshifted(*v, high as int, low as int, x), i) <==> if low <= i <= high {
                bit(x, i)
            } else {
                bit(*v, i)
            } by {
            bit_with_unshifted(*v, high as int, low as int, x, i);
        }
    }
    let rest = *v & !(mask << (low as u128));
    if shifted {
        *v = rest | ((x & mask) << (low as u128));
        proof {
            assert(*v == with_field(*old(v), high as int, low as int, x));
        }
    } else {
        *v = rest | (x & (mask << (low as u128)));
        proof {
            assert(*v == with_unshifted(*old(v), high as int, low as int, x));
        }
    }
}

} // verus!
