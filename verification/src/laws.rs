//! What holds of every register, whatever its layout.

use crate::base::BaseType;
use crate::register::{placed, stays, RegisterView};
use crate::word::{
    bit, bit_and, bit_field, bit_fits, bit_mask, bit_not, bit_ones, bit_or, bit_up,
    bit_with_field, bit_with_unshifted, bit_zero, field_of, fits, mask_of, ones, same_bits, up,
    word_of,
};
use vstd::prelude::*;

verus! {

/// The bits of a number moved to where its field stands.
pub(crate) proof fn lemma_placed_bits(base: BaseType, v: u128, low: int, i: int)
    requires
        0 <= low < base.bits(),
    ensures
        bit(placed(base, v, low), i) <==> i < base.bits() && bit(v, i - low),
{
    let m = ones(base.bits() as int);
    bit_and(up(v & m, low), m, i);
    bit_ones(base.bits() as int, i);
    bit_up(v & m, low, i);
    bit_and(v, m, i - low);
    bit_ones(base.bits() as int, i - low);
}

/// A number that stays within its field has no bit elsewhere.
proof fn lemma_stays_bits(base: BaseType, v: u128, high: int, low: int, i: int)
    requires
        0 <= low <= high < base.bits(),
        stays(base, v, high, low),
        bit(placed(base, v, low), i),
    ensures
        low <= i <= high,
{
    let p = placed(base, v, low);
    bit_and(p, !mask_of(high, low), i);
    bit_not(mask_of(high, low), i);
    bit_mask(high, low, i);
    bit_zero(i);
}

/// The bits of reserved field `j` stay within it.
proof fn lemma_reserved_bits(r: RegisterView, j: int, k: int)
    requires
        r.well_formed(),
        0 <= j < r.reserved.len(),
    ensures
        bit(r.reserved_bits(j), k) <==> r.reserved[j].covers(k) && bit(
            r.reserved[j].value,
            k - r.reserved[j].low_bit,
        ),
{
    let f = r.reserved[j];
    lemma_placed_bits(r.base, f.value, f.low_bit as int, k);
    if bit(r.reserved_bits(j), k) {
        lemma_stays_bits(r.base, f.value, f.high_bit as int, f.low_bit as int, k);
    }
}

/// The default of field `i` stays within it.
proof fn lemma_default_bits(r: RegisterView, i: int, k: int)
    requires
        r.well_formed(),
        0 <= i < r.fields.len(),
        r.fields[i].has_default,
    ensures
        bit(r.default_bits(i), k) <==> r.fields[i].covers(k) && bit(
            r.fields[i].metadata.default,
            k - r.fields[i].low(),
        ),
{
    let f = r.fields[i];
    lemma_placed_bits(r.base, f.metadata.default, f.low(), k);
    if bit(r.default_bits(i), k) {
        lemma_stays_bits(r.base, f.metadata.default, f.high(), f.low(), k);
    }
}

/// The reserved bits of the first `n` reserved fields.
proof fn lemma_reserved_at(r: RegisterView, n: int, k: int)
    requires
        r.well_formed(),
        0 <= n <= r.reserved.len(),
    ensures
        forall|j: int|
            0 <= j < n && (#[trigger] r.reserved[j]).covers(k) ==> {
                let one = bit(r.reserved[j].value, k - r.reserved[j].low_bit);
                bit(r.rsvd1_of(n), k) == one && bit(r.rsvd0_of(n), k) == !one
            },
        (forall|j: int| 0 <= j < n ==> !(#[trigger] r.reserved[j]).covers(k)) ==> !bit(
            r.rsvd1_of(n),
            k,
        ) && !bit(r.rsvd0_of(n), k),
    decreases n,
{
    if n == 0 {
        bit_zero(k);
    } else {
        let f = r.reserved[n - 1];
        let v = r.reserved_bits(n - 1);
        lemma_reserved_at(r, n - 1, k);
        lemma_reserved_bits(r, n - 1, k);
        bit_or(r.rsvd1_of(n - 1), v, k);
        bit_or(r.rsvd0_of(n - 1), !v & r.reserved_mask(n - 1), k);
        bit_and(!v, r.reserved_mask(n - 1), k);
        bit_not(v, k);
        bit_mask(f.high_bit as int, f.low_bit as int, k);
    }
}

/// Each bit of a reserved field is a reserved-as-1 bit or a reserved-as-0 bit, as the field's
/// value has it, and no other bit is either.
pub proof fn reserved_masks_follow_the_values(r: RegisterView, k: int)
    requires
        r.well_formed(),
    ensures
        forall|j: int|
            0 <= j < r.reserved.len() && (#[trigger] r.reserved[j]).covers(k) ==> {
                let one = bit(r.reserved[j].value, k - r.reserved[j].low_bit);
                bit(r.rsvd1(), k) == one && bit(r.rsvd0(), k) == !one
            },
        (forall|j: int| 0 <= j < r.reserved.len() ==> !(#[trigger] r.reserved[j]).covers(k))
            ==> !bit(r.rsvd1(), k) && !bit(r.rsvd0(), k),
{
    lemma_reserved_at(r, r.reserved.len() as int, k);
}

/// No bit is reserved both ways.
pub proof fn reserved_masks_are_disjoint(r: RegisterView)
    requires
        r.well_formed(),
    ensures
        r.rsvd1() & r.rsvd0() == 0,
{
    assert forall|k: int| bit(r.rsvd1() & r.rsvd0(), k) == bit(0, k) by {
        bit_zero(k);
        bit_and(r.rsvd1(), r.rsvd0(), k);
        reserved_masks_follow_the_values(r, k);
        if exists|j: int| 0 <= j < r.reserved.len() && (#[trigger] r.reserved[j]).covers(k) {
            let j = choose|j: int|
                0 <= j < r.reserved.len() && (#[trigger] r.reserved[j]).covers(k);
            assert(r.reserved[j].covers(k));
        }
    }
    same_bits(r.rsvd1() & r.rsvd0(), 0);
}

/// A named field has no reserved bit.
proof fn lemma_named_not_reserved(r: RegisterView, i: int, k: int)
    requires
        r.well_formed(),
        0 <= i < r.fields.len(),
        r.fields[i].covers(k),
    ensures
        !bit(r.rsvd1(), k),
        !bit(r.rsvd0(), k),
{
    reserved_masks_follow_the_values(r, k);
    assert forall|j: int| 0 <= j < r.reserved.len() implies !(#[trigger] r.reserved[j]).covers(
        k,
    ) by {
        let f = r.fields[i];
        let g = r.reserved[j];
        assert(f.high() < g.low_bit || g.high_bit < f.low());
    }
}

/// The masks of two named fields share no bit.
pub proof fn field_masks_are_disjoint(r: RegisterView, i: int, j: int)
    requires
        r.well_formed(),
        0 <= i < r.fields.len(),
        0 <= j < r.fields.len(),
        i != j,
    ensures
        mask_of(r.fields[i].high(), r.fields[i].low()) & mask_of(
            r.fields[j].high(),
            r.fields[j].low(),
        ) == 0,
{
    let f = r.fields[i];
    let g = r.fields[j];
    let a = mask_of(f.high(), f.low());
    let b = mask_of(g.high(), g.low());
    assert forall|k: int| bit(a & b, k) == bit(0, k) by {
        bit_zero(k);
        bit_and(a, b, k);
        bit_mask(f.high(), f.low(), k);
        bit_mask(g.high(), g.low(), k);
    }
    same_bits(a & b, 0);
}

/// The mask of a named field shares no bit with the reserved masks.
pub proof fn field_masks_avoid_reserved(r: RegisterView, i: int)
    requires
        r.well_formed(),
        0 <= i < r.fields.len(),
    ensures
        mask_of(r.fields[i].high(), r.fields[i].low()) & (r.rsvd1() | r.rsvd0()) == 0,
{
    let f = r.fields[i];
    let a = mask_of(f.high(), f.low());
    let b = r.rsvd1() | r.rsvd0();
    assert forall|k: int| bit(a & b, k) == bit(0, k) by {
        bit_zero(k);
        bit_and(a, b, k);
        bit_or(r.rsvd1(), r.rsvd0(), k);
        bit_mask(f.high(), f.low(), k);
        if f.covers(k) {
            lemma_named_not_reserved(r, i, k);
        }
    }
    same_bits(a & b, 0);
}

/// A word respects the reserved bits if and only if each of them is as its field's value has
/// it.
pub proof fn respecting_is_having_the_values(r: RegisterView, v: u128)
    requires
        r.well_formed(),
    ensures
        r.respects(v) <==> forall|j: int, k: int|
            0 <= j < r.reserved.len() && #[trigger] r.reserved[j].covers(k) ==> (bit(v, k)
                <==> bit(r.reserved[j].value, k - r.reserved[j].low_bit)),
{
    let (one, zero) = (r.rsvd1(), r.rsvd0());
    assert forall|k: int|
        (#[trigger] bit(v & one, k) <==> bit(v, k) && bit(one, k)) && (bit(!v & zero, k)
            <==> !bit(v, k) && bit(zero, k)) by {
        bit_and(v, one, k);
        bit_and(!v, zero, k);
        bit_not(v, k);
    }
    if r.respects(v) {
        assert forall|j: int, k: int|
            0 <= j < r.reserved.len() && #[trigger] r.reserved[j].covers(k) implies (bit(v, k)
            <==> bit(r.reserved[j].value, k - r.reserved[j].low_bit)) by {
            reserved_masks_follow_the_values(r, k);
            assert(bit(v & one, k) <==> bit(v, k) && bit(one, k));
        }
    }
    if forall|j: int, k: int|
        0 <= j < r.reserved.len() && #[trigger] r.reserved[j].covers(k) ==> (bit(v, k)
            <==> bit(r.reserved[j].value, k - r.reserved[j].low_bit)) {
        assert forall|k: int|
            bit(v & one, k) == bit(one, k) && bit(!v & zero, k) == bit(zero, k) by {
            assert(bit(v & one, k) <==> bit(v, k) && bit(one, k));
            reserved_masks_follow_the_values(r, k);
            if exists|j: int| 0 <= j < r.reserved.len() && #[trigger] r.reserved[j].covers(k) {
                let j = choose|j: int|
                    0 <= j < r.reserved.len() && #[trigger] r.reserved[j].covers(k);
                assert(r.reserved[j].covers(k));
            } else {
                assert forall|j: int| 0 <= j < r.reserved.len() implies !(
                #[trigger] r.reserved[j]).covers(k) by {}
            }
        }
        same_bits(v & one, one);
        same_bits(!v & zero, zero);
    }
}

/// A word respects the reserved bits if and only if it has every reserved-as-1 bit set and no
/// reserved-as-0 bit.
pub proof fn respecting_by_masks(r: RegisterView, v: u128)
    ensures
        r.respects(v) <==> v & r.rsvd1() == r.rsvd1() && v & r.rsvd0() == 0,
{
    let zero = r.rsvd0();
    assert(!v & zero == zero <==> v & zero == 0) by (bit_vector);
}

/// The bits that a setter leaves and those that it takes from its argument.
proof fn lemma_set_bits(r: RegisterView, v: u128, i: int, x: u128, k: int)
    requires
        r.well_formed(),
        0 <= i < r.fields.len(),
    ensures
        bit(r.set_of(v, i, x), k) <==> if !r.fields[i].covers(k) {
            bit(v, k)
        } else if r.fields[i].unshifted {
            bit(x, k)
        } else {
            bit(x, k - r.fields[i].low())
        },
{
    let f = r.fields[i];
    if f.unshifted {
        bit_with_unshifted(v, f.high(), f.low(), x, k);
    } else {
        bit_with_field(v, f.high(), f.low(), x, k);
    }
}

/// The bits that a getter returns.
proof fn lemma_get_bits(r: RegisterView, v: u128, i: int, k: int)
    requires
        r.well_formed(),
        0 <= i < r.fields.len(),
    ensures
        bit(r.get_of(v, i), k) <==> if r.fields[i].unshifted {
            r.fields[i].covers(k) && bit(v, k)
        } else {
            0 <= k < r.fields[i].width() && bit(v, r.fields[i].low() + k)
        },
{
    let f = r.fields[i];
    if f.unshifted {
        bit_and(v, mask_of(f.high(), f.low()), k);
        bit_mask(f.high(), f.low(), k);
    } else {
        bit_field(v, f.high(), f.low(), k);
    }
}

/// A getter returns what its setter wrote: the bits of it that belong to the field.
pub proof fn get_returns_what_set_wrote(r: RegisterView, v: u128, i: int, x: u128)
    requires
        r.well_formed(),
        0 <= i < r.fields.len(),
    ensures
        r.get_of(r.set_of(v, i, x), i) == if r.fields[i].unshifted {
            x & mask_of(r.fields[i].high(), r.fields[i].low())
        } else {
            x & ones(r.fields[i].width())
        },
{
    let f = r.fields[i];
    let w = r.set_of(v, i, x);
    let m = if f.unshifted {
        mask_of(f.high(), f.low())
    } else {
        ones(f.width())
    };
    assert forall|k: int| bit(r.get_of(w, i), k) == bit(x & m, k) by {
        lemma_get_bits(r, w, i, k);
        lemma_set_bits(r, v, i, x, k);
        lemma_set_bits(r, v, i, x, f.low() + k);
        bit_and(x, m, k);
        bit_mask(f.high(), f.low(), k);
        bit_ones(f.width(), k);
    }
    same_bits(r.get_of(w, i), x & m);
}

/// A setter leaves every other field as it is.
pub proof fn set_leaves_other_fields(r: RegisterView, v: u128, i: int, x: u128, j: int)
    requires
        r.well_formed(),
        0 <= i < r.fields.len(),
        0 <= j < r.fields.len(),
        i != j,
    ensures
        r.get_of(r.set_of(v, i, x), j) == r.get_of(v, j),
        r.value_of(r.set_of(v, i, x), j) == r.value_of(v, j),
{
    let g = r.fields[j];
    let w = r.set_of(v, i, x);
    assert forall|k: int|
        bit(r.get_of(w, j), k) == bit(r.get_of(v, j), k) && bit(r.value_of(w, j), k) == bit(
            r.value_of(v, j),
            k,
        ) by {
        lemma_get_bits(r, w, j, k);
        lemma_get_bits(r, v, j, k);
        lemma_set_bits(r, v, i, x, k);
        lemma_set_bits(r, v, i, x, g.low() + k);
        bit_field(w, g.high(), g.low(), k);
        bit_field(v, g.high(), g.low(), k);
        let f = r.fields[i];
        assert(f.low() > g.high() || g.low() > f.high());
    }
    same_bits(r.get_of(w, j), r.get_of(v, j));
    same_bits(r.value_of(w, j), r.value_of(v, j));
}

/// A setter leaves every bit outside its field as it is, among them the reserved ones, and the
/// word still fits the base type.
pub proof fn set_leaves_the_rest(r: RegisterView, v: u128, i: int, x: u128)
    requires
        r.well_formed(),
        0 <= i < r.fields.len(),
    ensures
        forall|k: int|
            !r.fields[i].covers(k) ==> #[trigger] bit(r.set_of(v, i, x), k) == bit(v, k),
        r.respects(r.set_of(v, i, x)) == r.respects(v),
        fits(v, r.base.bits() as int) ==> fits(r.set_of(v, i, x), r.base.bits() as int),
{
    let f = r.fields[i];
    let w = r.set_of(v, i, x);
    assert forall|k: int| !f.covers(k) implies #[trigger] bit(w, k) == bit(v, k) by {
        lemma_set_bits(r, v, i, x, k);
    }
    let (one, zero) = (r.rsvd1(), r.rsvd0());
    assert forall|k: int| bit(w & one, k) == bit(v & one, k) by {
        bit_and(w, one, k);
        bit_and(v, one, k);
        if f.covers(k) {
            lemma_named_not_reserved(r, i, k);
        } else {
            assert(bit(w, k) == bit(v, k));
        }
    }
    assert forall|k: int| bit(!w & zero, k) == bit(!v & zero, k) by {
        bit_and(!w, zero, k);
        bit_and(!v, zero, k);
        bit_not(w, k);
        bit_not(v, k);
        if f.covers(k) {
            lemma_named_not_reserved(r, i, k);
        } else {
            assert(bit(w, k) == bit(v, k));
        }
    }
    same_bits(w & one, v & one);
    same_bits(!w & zero, !v & zero);
    bit_fits(v, r.base.bits() as int);
    bit_fits(w, r.base.bits() as int);
}

/// Writing back what was read changes nothing.
pub proof fn set_of_get_changes_nothing(r: RegisterView, v: u128, i: int)
    requires
        r.well_formed(),
        0 <= i < r.fields.len(),
    ensures
        r.set_of(v, i, r.get_of(v, i)) == v,
{
    let f = r.fields[i];
    let x = r.get_of(v, i);
    assert forall|k: int| bit(r.set_of(v, i, x), k) == bit(v, k) by {
        lemma_set_bits(r, v, i, x, k);
        lemma_get_bits(r, v, i, k);
        lemma_get_bits(r, v, i, k - f.low());
    }
    same_bits(r.set_of(v, i, x), v);
}

/// Of two writes to a field, the last one counts.
pub proof fn last_set_counts(r: RegisterView, v: u128, i: int, x: u128, y: u128)
    requires
        r.well_formed(),
        0 <= i < r.fields.len(),
    ensures
        r.set_of(r.set_of(v, i, x), i, y) == r.set_of(v, i, y),
{
    let w = r.set_of(v, i, x);
    assert forall|k: int| bit(r.set_of(w, i, y), k) == bit(r.set_of(v, i, y), k) by {
        lemma_set_bits(r, w, i, y, k);
        lemma_set_bits(r, v, i, y, k);
        lemma_set_bits(r, v, i, x, k);
    }
    same_bits(r.set_of(w, i, y), r.set_of(v, i, y));
}

/// The order in which two fields are written does not matter.
pub proof fn setters_commute(r: RegisterView, v: u128, i: int, x: u128, j: int, y: u128)
    requires
        r.well_formed(),
        0 <= i < r.fields.len(),
        0 <= j < r.fields.len(),
        i != j,
    ensures
        r.set_of(r.set_of(v, i, x), j, y) == r.set_of(r.set_of(v, j, y), i, x),
{
    let a = r.set_of(v, i, x);
    let b = r.set_of(v, j, y);
    assert forall|k: int| bit(r.set_of(a, j, y), k) == bit(r.set_of(b, i, x), k) by {
        lemma_set_bits(r, a, j, y, k);
        lemma_set_bits(r, v, i, x, k);
        lemma_set_bits(r, b, i, x, k);
        lemma_set_bits(r, v, j, y, k);
        let f = r.fields[i];
        let g = r.fields[j];
        assert(f.low() > g.high() || g.low() > f.high());
    }
    same_bits(r.set_of(a, j, y), r.set_of(b, i, x));
}

/// An unshifted getter returns the field's value where it stands, any other getter returns it
/// moved down to bit 0.
pub proof fn unshifted_get_is_value_in_place(r: RegisterView, v: u128, i: int)
    requires
        r.well_formed(),
        0 <= i < r.fields.len(),
    ensures
        r.get_of(v, i) == if r.fields[i].unshifted {
            up(r.value_of(v, i), r.fields[i].low())
        } else {
            r.value_of(v, i)
        },
{
    let f = r.fields[i];
    if f.unshifted {
        let x = field_of(v, f.high(), f.low());
        assert forall|k: int| bit(r.get_of(v, i), k) == bit(up(x, f.low()), k) by {
            lemma_get_bits(r, v, i, k);
            bit_up(x, f.low(), k);
            bit_field(v, f.high(), f.low(), k - f.low());
        }
        same_bits(r.get_of(v, i), up(x, f.low()));
    }
}

/// The value of a single bit is 1 if the bit is set, else 0; writing 1 sets it, and writing 0
/// clears it.
pub proof fn flag_is_its_bit(r: RegisterView, v: u128, i: int, value: bool)
    requires
        r.well_formed(),
        0 <= i < r.fields.len(),
        r.fields[i].is_flag(),
    ensures
        r.get_of(v, i) == word_of(bit(v, r.fields[i].low())),
        bit(r.set_of(v, i, word_of(value)), r.fields[i].low()) == value,
{
    let f = r.fields[i];
    assert forall|b: bool, k: int| #[trigger] bit(word_of(b), k) <==> b && k == 0 by {
        bit_zero(k);
        bit_ones(1, k);
        assert(1u128 << 1u128 == 2) by (bit_vector);
    }
    let x = word_of(bit(v, f.low()));
    assert forall|k: int| bit(r.get_of(v, i), k) == bit(x, k) by {
        lemma_get_bits(r, v, i, k);
    }
    same_bits(r.get_of(v, i), x);
    lemma_set_bits(r, v, i, word_of(value), f.low());
}

/// A new word has every field at 0, and the reserved bits as they are meant.
pub proof fn new_word_has_only_reserved_bits(r: RegisterView)
    requires
        r.well_formed(),
    ensures
        r.respects(r.rsvd1()),
        fits(r.rsvd1(), r.base.bits() as int),
        forall|i: int| 0 <= i < r.fields.len() ==> #[trigger] r.get_of(r.rsvd1(), i) == 0,
        forall|i: int| 0 <= i < r.fields.len() ==> #[trigger] r.value_of(r.rsvd1(), i) == 0,
{
    let v = r.rsvd1();
    assert forall|j: int, k: int|
        0 <= j < r.reserved.len() && #[trigger] r.reserved[j].covers(k) implies (bit(v, k)
        <==> bit(r.reserved[j].value, k - r.reserved[j].low_bit)) by {
        reserved_masks_follow_the_values(r, k);
    }
    respecting_is_having_the_values(r, v);
    lemma_reserved_fit(r);
    assert forall|i: int| 0 <= i < r.fields.len() implies #[trigger] r.get_of(v, i) == 0
        && r.value_of(v, i) == 0 by {
        let f = r.fields[i];
        assert forall|k: int|
            bit(r.get_of(v, i), k) == bit(0, k) && bit(r.value_of(v, i), k) == bit(0, k) by {
            bit_zero(k);
            lemma_get_bits(r, v, i, k);
            bit_field(v, f.high(), f.low(), k);
            if f.covers(k) {
                lemma_named_not_reserved(r, i, k);
            }
            if f.covers(f.low() + k) {
                lemma_named_not_reserved(r, i, f.low() + k);
            }
        }
        same_bits(r.get_of(v, i), 0);
        same_bits(r.value_of(v, i), 0);
    }
    assert forall|i: int| 0 <= i < r.fields.len() implies #[trigger] r.value_of(v, i) == 0 by {
        assert(r.get_of(v, i) == 0);
    }
}

/// The reserved masks fit the base type.
proof fn lemma_reserved_fit(r: RegisterView)
    requires
        r.well_formed(),
    ensures
        fits(r.rsvd1(), r.base.bits() as int),
        fits(r.rsvd0(), r.base.bits() as int),
{
    let n = r.base.bits() as int;
    assert forall|k: int| k >= n implies !#[trigger] bit(r.rsvd1(), k) && !bit(
        r.rsvd0(),
        k,
    ) by {
        reserved_masks_follow_the_values(r, k);
        assert forall|j: int| 0 <= j < r.reserved.len() implies !(
        #[trigger] r.reserved[j]).covers(k) by {}
    }
    assert forall|k: int| k >= n implies !#[trigger] bit(r.rsvd0(), k) by {
        assert(!bit(r.rsvd1(), k));
    }
    bit_fits(r.rsvd1(), n);
    bit_fits(r.rsvd0(), n);
}

/// The default word of the first `n` fields.
proof fn lemma_default_at(r: RegisterView, n: int, k: int)
    requires
        r.well_formed(),
        0 <= n <= r.fields.len(),
    ensures
        forall|i: int|
            0 <= i < n && (#[trigger] r.fields[i]).covers(k) ==> bit(r.default_of(n), k) == bit(
                r.fields[i].metadata.default,
                k - r.fields[i].low(),
            ),
        (forall|i: int| 0 <= i < n ==> !(#[trigger] r.fields[i]).covers(k)) ==> bit(
            r.default_of(n),
            k,
        ) == bit(r.rsvd1(), k),
    decreases n,
{
    if n > 0 {
        let f = r.fields[n - 1];
        lemma_default_at(r, n - 1, k);
        if f.has_default {
            lemma_default_bits(r, n - 1, k);
            bit_or(r.default_of(n - 1), r.default_bits(n - 1), k);
        }
        if f.covers(k) {
            lemma_named_not_reserved(r, n - 1, k);
            bit_zero(k - f.low());
        }
    }
}

/// Each bit of the default word is as the default of its field has it, where a field without
/// one counts as 0, and as a new word has it where no field stands.
pub proof fn default_word_follows_the_defaults(r: RegisterView, k: int)
    requires
        r.well_formed(),
    ensures
        forall|i: int|
            0 <= i < r.fields.len() && (#[trigger] r.fields[i]).covers(k) ==> bit(
                r.default_word(),
                k,
            ) == bit(r.fields[i].metadata.default, k - r.fields[i].low()),
        (forall|i: int| 0 <= i < r.fields.len() ==> !(#[trigger] r.fields[i]).covers(k)) ==> bit(
            r.default_word(),
            k,
        ) == bit(r.rsvd1(), k),
{
    lemma_default_at(r, r.fields.len() as int, k);
}

/// The default word has every field at its default, and the reserved bits as they are meant.
pub proof fn default_word_has_defaults(r: RegisterView)
    requires
        r.well_formed(),
    ensures
        r.respects(r.default_word()),
        fits(r.default_word(), r.base.bits() as int),
        forall|i: int|
            0 <= i < r.fields.len() ==> #[trigger] r.value_of(r.default_word(), i)
                == r.fields[i].metadata.default & ones(r.fields[i].width()),
{
    let v = r.default_word();
    let n = r.base.bits() as int;
    assert forall|j: int, k: int|
        0 <= j < r.reserved.len() && #[trigger] r.reserved[j].covers(k) implies (bit(v, k)
        <==> bit(r.reserved[j].value, k - r.reserved[j].low_bit)) by {
        reserved_masks_follow_the_values(r, k);
        default_word_follows_the_defaults(r, k);
        assert forall|i: int| 0 <= i < r.fields.len() implies !(#[trigger] r.fields[i]).covers(
            k,
        ) by {
            let f = r.fields[i];
            let g = r.reserved[j];
            assert(f.high() < g.low_bit || g.high_bit < f.low());
        }
    }
    respecting_is_having_the_values(r, v);
    lemma_reserved_fit(r);
    bit_fits(r.rsvd1(), n);
    assert forall|k: int| k >= n implies !bit(v, k) by {
        default_word_follows_the_defaults(r, k);
        assert forall|i: int| 0 <= i < r.fields.len() implies !(#[trigger] r.fields[i]).covers(
            k,
        ) by {}
    }
    bit_fits(v, n);
    assert forall|i: int| 0 <= i < r.fields.len() implies #[trigger] r.value_of(v, i)
        == r.fields[i].metadata.default & ones(r.fields[i].width()) by {
        let f = r.fields[i];
        let d = f.metadata.default & ones(f.width());
        assert forall|k: int| bit(r.value_of(v, i), k) == bit(d, k) by {
            bit_field(v, f.high(), f.low(), k);
            default_word_follows_the_defaults(r, f.low() + k);
            bit_and(f.metadata.default, ones(f.width()), k);
            bit_ones(f.width(), k);
            assert(f.low() + k - f.low() == k);
        }
        same_bits(r.value_of(v, i), d);
    }
}

} // verus!
