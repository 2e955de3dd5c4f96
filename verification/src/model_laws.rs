//! What a layout's declarations mean for its words.

use crate::base::BaseType;
use crate::bitfield::Field;
use crate::instance::{assertion_of, entries_of};
use crate::laws::{default_word_has_defaults, lemma_placed_bits};
use crate::layout::LayoutView;
use crate::radix::{Radix, literal_of};
use crate::register::{
    DefaultError, RegisterView, default_fits, first_misfit, placed, register_is_well_formed,
    register_of, stays,
};
use crate::word::{
    bit, bit_and, bit_field, bit_mask, bit_not, bit_ones, bit_with_field, bit_with_unshifted,
    bit_zero, field_of, fits, mask_of, ones, same_bits,
};
use vstd::prelude::*;

verus! {

/// The register of a layout has the layout's name and base type, and a field for each named
/// field, with its name, its bounds, and all that was declared of it: it has a default exactly
/// where one was declared, and then it is the given one. It has a reserved field for each of the
/// layout's, with the given value.
pub proof fn register_follows_the_layout(
    layout: LayoutView,
    defaults: Seq<u128>,
    values: Seq<u128>,
)
    requires
        register_of(layout, defaults, values) is Ok,
    ensures
        ({
            let r = register_of(layout, defaults, values)->Ok_0;
            let all = ones(layout.ty.base.ty.bits() as int);
            &&& r.name == layout.ty.ident
            &&& r.base == layout.ty.base.ty
            &&& r.fields.len() == layout.named.len()
            &&& forall|i: int|
                0 <= i < layout.named.len() ==> {
                    let f = #[trigger] r.fields[i];
                    let d = layout.named[i];
                    &&& f.metadata.name == d.name->0
                    &&& f.metadata.high_bit == d.high_bit
                    &&& f.metadata.low_bit == d.low_bit
                    &&& f.unshifted == d.unshifted
                    &&& f.has_repr == (d.repr is Some)
                    &&& f.has_default == (d.default is Some)
                    &&& d.default is Some ==> f.metadata.default == defaults[i] & all
                    &&& d.default is None ==> f.metadata.default == 0
                }
            &&& r.reserved.len() == layout.reserved.len()
            &&& forall|i: int|
                0 <= i < layout.reserved.len() ==> {
                    let f = #[trigger] r.reserved[i];
                    let d = layout.reserved[i];
                    &&& f.high_bit == d.high_bit
                    &&& f.low_bit == d.low_bit
                    &&& f.value == values[i] & all
                }
        }),
{
}

/// A number stays within a field if and only if each of its bits that the shift keeps is one of
/// the field's.
pub proof fn staying_is_having_no_bit_outside(base: BaseType, v: u128, high: int, low: int)
    requires
        0 <= low <= high < base.bits(),
    ensures
        stays(base, v, high, low) <==> forall|k: int|
            0 <= k && low + k < base.bits() && #[trigger] bit(v, k) ==> low + k <= high,
{
    let p = placed(base, v, low);
    let m = mask_of(high, low);
    assert forall|k: int| #[trigger]
        bit(p & !m, k) <==> low <= k < base.bits() && bit(v, k - low) && k > high by {
        bit_and(p, !m, k);
        bit_not(m, k);
        bit_mask(high, low, k);
        lemma_placed_bits(base, v, low, k);
    }
    if stays(base, v, high, low) {
        assert forall|k: int|
            0 <= k && low + k < base.bits() && #[trigger] bit(v, k) implies low + k <= high by {
            bit_zero(low + k);
            assert(bit(p & !m, low + k) <==> low + k > high && bit(v, low + k - low));
        }
    }
    if forall|k: int|
        0 <= k && low + k < base.bits() && #[trigger] bit(v, k) ==> low + k <= high {
        assert forall|k: int| bit(p & !m, k) == bit(0, k) by {
            bit_zero(k);
            assert(bit(p & !m, k) <==> low <= k < base.bits() && bit(v, k - low) && k > high);
        }
        same_bits(p & !m, 0);
    }
}

/// The first misfit is one, and none comes before it; without one, every default fits.
proof fn lemma_first_misfit(base: BaseType, fields: Seq<Field>, values: Seq<u128>, n: int)
    requires
        0 <= n <= fields.len(),
    ensures
        match first_misfit(base, fields, values, n) {
            Some(i) => 0 <= i < n && !default_fits(base, fields[i], values[i]) && forall|j: int|
                0 <= j < i ==> default_fits(base, #[trigger] fields[j], values[j]),
            None => forall|j: int|
                0 <= j < n ==> default_fits(base, #[trigger] fields[j], values[j]),
        },
    decreases n,
{
    if n > 0 {
        lemma_first_misfit(base, fields, values, n - 1);
    }
}

/// Whether a declared default, or a reserved value, has a bit that is not the field's.
pub open spec fn exceeds(base: BaseType, f: Field, value: u128) -> bool {
    f.default is Some && exists|k: int|
        0 <= k && f.low_bit + k < base.bits() && #[trigger] bit(value, k) && f.low_bit + k
            > f.high_bit
}

/// Fitting is not exceeding.
proof fn lemma_fits_is_not_exceeding(base: BaseType, f: Field, value: u128)
    requires
        f.low_bit <= f.high_bit < base.bits(),
    ensures
        default_fits(base, f, value) <==> !exceeds(base, f, value),
{
    staying_is_having_no_bit_outside(base, value, f.high_bit as int, f.low_bit as int);
    if f.default is Some && !stays(base, value, f.high_bit as int, f.low_bit as int) {
        let k = choose|k: int|
            0 <= k && f.low_bit + k < base.bits() && #[trigger] bit(value, k) && !(f.low_bit + k
                <= f.high_bit);
        assert(bit(value, k));
    }
}

/// A layout is evaluated if and only if no default and no reserved value exceeds its field.
/// Otherwise the first that does is reported, the named fields before the reserved ones.
pub proof fn evaluated_if_and_only_if_nothing_exceeds(
    layout: LayoutView,
    defaults: Seq<u128>,
    values: Seq<u128>,
)
    requires
        layout.well_formed(),
        layout.named.len() <= usize::MAX,
        layout.reserved.len() <= usize::MAX,
    ensures
        ({
            let base = layout.ty.base.ty;
            match register_of(layout, defaults, values) {
                Ok(_) => {
                    &&& forall|i: int|
                        0 <= i < layout.named.len() ==> !exceeds(
                            base,
                            #[trigger] layout.named[i],
                            defaults[i],
                        )
                    &&& forall|i: int|
                        0 <= i < layout.reserved.len() ==> !exceeds(
                            base,
                            #[trigger] layout.reserved[i],
                            values[i],
                        )
                },
                Err(DefaultError::Named(n)) => {
                    &&& n < layout.named.len()
                    &&& exceeds(base, layout.named[n as int], defaults[n as int])
                    &&& forall|i: int|
                        0 <= i < n ==> !exceeds(base, #[trigger] layout.named[i], defaults[i])
                },
                Err(DefaultError::Reserved(n)) => {
                    &&& n < layout.reserved.len()
                    &&& exceeds(base, layout.reserved[n as int], values[n as int])
                    &&& forall|i: int|
                        0 <= i < n ==> !exceeds(base, #[trigger] layout.reserved[i], values[i])
                    &&& forall|i: int|
                        0 <= i < layout.named.len() ==> !exceeds(
                            base,
                            #[trigger] layout.named[i],
                            defaults[i],
                        )
                },
            }
        }),
{
    let base = layout.base();
    lemma_first_misfit(base, layout.named, defaults, layout.named.len() as int);
    lemma_first_misfit(base, layout.reserved, values, layout.reserved.len() as int);
    assert forall|i: int| 0 <= i < layout.named.len() implies (default_fits(
        base,
        #[trigger] layout.named[i],
        defaults[i],
    ) <==> !exceeds(base, layout.named[i], defaults[i])) by {
        assert(layout.named[i].well_formed());
        lemma_fits_is_not_exceeding(base, layout.named[i], defaults[i]);
    }
    assert forall|i: int| 0 <= i < layout.reserved.len() implies (default_fits(
        base,
        #[trigger] layout.reserved[i],
        values[i],
    ) <==> !exceeds(base, layout.reserved[i], values[i])) by {
        assert(layout.reserved[i].well_formed());
        lemma_fits_is_not_exceeding(base, layout.reserved[i], values[i]);
    }
}

/// In the default word every named field has the default that was given for it, or 0 if none was
/// declared: exactly, if the default fits in the field's width.
pub proof fn default_word_has_the_given_defaults(
    layout: LayoutView,
    defaults: Seq<u128>,
    values: Seq<u128>,
    i: int,
)
    requires
        layout.well_formed(),
        register_of(layout, defaults, values) is Ok,
        0 <= i < layout.named.len(),
    ensures
        ({
            let r = register_of(layout, defaults, values)->Ok_0;
            let f = layout.named[i];
            let value = field_of(r.default_word(), f.high_bit as int, f.low_bit as int);
            &&& f.default is None ==> value == 0
            &&& f.default is Some ==> value == defaults[i] & ones(f.high_bit - f.low_bit + 1)
            &&& f.default is Some && fits(defaults[i], f.high_bit - f.low_bit + 1) ==> value
                == defaults[i]
        }),
{
    let r = register_of(layout, defaults, values)->Ok_0;
    let f = layout.named[i];
    register_is_well_formed(layout, defaults, values);
    default_word_has_defaults(r);
    let v = r.value_of(r.default_word(), i);
    assert(f.well_formed());
    let w = ones(f.high_bit - f.low_bit + 1);
    let all = ones(layout.base().bits() as int);
    let d = defaults[i];
    assert(v == r.fields[i].metadata.default & w);
    if f.default is None {
        assert(0u128 & w == 0) by (bit_vector);
    } else {
        assert forall|k: int| bit((d & all) & w, k) == bit(d & w, k) by {
            bit_and(d & all, w, k);
            bit_and(d, all, k);
            bit_and(d, w, k);
            bit_ones(f.high_bit - f.low_bit + 1, k);
            bit_ones(layout.base().bits() as int, k);
        }
        same_bits((d & all) & w, d & w);
        assert(d & !w == 0 ==> d & w == d) by (bit_vector);
    }
}

/// The value that a default constant has: the given default moved up to the field's low bit. It
/// has no bit outside the field.
pub proof fn default_constants_have_the_given_defaults(
    layout: LayoutView,
    defaults: Seq<u128>,
    values: Seq<u128>,
    i: int,
    k: int,
)
    requires
        layout.well_formed(),
        register_of(layout, defaults, values) is Ok,
        0 <= i < layout.named.len(),
        layout.named[i].default is Some,
    ensures
        ({
            let r = register_of(layout, defaults, values)->Ok_0;
            let f = layout.named[i];
            bit(r.default_bits(i), k) <==> f.low_bit <= k <= f.high_bit && bit(
                defaults[i],
                k - f.low_bit,
            )
        }),
{
    let r = register_of(layout, defaults, values)->Ok_0;
    let f = layout.named[i];
    let base = layout.base();
    let all = ones(base.bits() as int);
    assert(f.well_formed());
    register_is_well_formed(layout, defaults, values);
    let d = r.fields[i].metadata.default;
    lemma_placed_bits(base, d, f.low_bit as int, k);
    bit_and(defaults[i], all, k - f.low_bit);
    bit_ones(base.bits() as int, k - f.low_bit);
    staying_is_having_no_bit_outside(base, d, f.high_bit as int, f.low_bit as int);
}

/// The value that the constant of a reserved field has: its value moved up to its low bit.
pub proof fn reserved_constants_have_the_given_values(
    layout: LayoutView,
    defaults: Seq<u128>,
    values: Seq<u128>,
    i: int,
    k: int,
)
    requires
        layout.well_formed(),
        register_of(layout, defaults, values) is Ok,
        0 <= i < layout.reserved.len(),
    ensures
        ({
            let r = register_of(layout, defaults, values)->Ok_0;
            let f = layout.reserved[i];
            bit(r.reserved_bits(i), k) <==> f.low_bit <= k <= f.high_bit && bit(
                values[i],
                k - f.low_bit,
            )
        }),
{
    let r = register_of(layout, defaults, values)->Ok_0;
    let f = layout.reserved[i];
    let base = layout.base();
    let all = ones(base.bits() as int);
    assert(f.well_formed());
    register_is_well_formed(layout, defaults, values);
    let d = r.reserved[i].value;
    lemma_placed_bits(base, d, f.low_bit as int, k);
    bit_and(values[i], all, k - f.low_bit);
    bit_ones(base.bits() as int, k - f.low_bit);
    staying_is_having_no_bit_outside(base, d, f.high_bit as int, f.low_bit as int);
}

/// What the accessors of a declared field do to a word: the getter returns the bits of the
/// declared range, in place if the field is unshifted, else moved down to bit 0, and the setter
/// replaces those bits alone, by those of its argument at the same places if the field is
/// unshifted, else by its lowest ones.
pub proof fn accessors_go_by_the_declared_bits(
    layout: LayoutView,
    defaults: Seq<u128>,
    values: Seq<u128>,
    i: int,
    v: u128,
    x: u128,
)
    requires
        layout.well_formed(),
        register_of(layout, defaults, values) is Ok,
        0 <= i < layout.named.len(),
    ensures
        ({
            let r = register_of(layout, defaults, values)->Ok_0;
            let (high, low) = (layout.named[i].high_bit as int, layout.named[i].low_bit as int);
            if layout.named[i].unshifted {
                &&& r.get_of(v, i) == v & mask_of(high, low)
                &&& r.set_of(v, i, x) == (v & !mask_of(high, low)) | (x & mask_of(high, low))
                &&& forall|k: int| #[trigger]
                    bit(r.get_of(v, i), k) <==> low <= k <= high && bit(v, k)
                &&& forall|k: int| #[trigger]
                    bit(r.set_of(v, i, x), k) <==> if low <= k <= high {
                        bit(x, k)
                    } else {
                        bit(v, k)
                    }
            } else {
                &&& r.get_of(v, i) == (v >> (low as u128)) & ones(high - low + 1)
                &&& r.set_of(v, i, x) == (v & !mask_of(high, low)) | ((x & ones(high - low + 1))
                    << (low as u128))
                &&& forall|k: int| #[trigger]
                    bit(r.get_of(v, i), k) <==> 0 <= k <= high - low && bit(v, low + k)
                &&& forall|k: int| #[trigger]
                    bit(r.set_of(v, i, x), k) <==> if low <= k <= high {
                        bit(x, k - low)
                    } else {
                        bit(v, k)
                    }
            }
        }),
{
    let r = register_of(layout, defaults, values)->Ok_0;
    let (high, low) = (layout.named[i].high_bit as int, layout.named[i].low_bit as int);
    assert(layout.named[i].well_formed());
    if layout.named[i].unshifted {
        assert forall|k: int| #[trigger]
            bit(r.get_of(v, i), k) <==> low <= k <= high && bit(v, k) by {
            bit_and(v, mask_of(high, low), k);
            bit_mask(high, low, k);
        }
        assert forall|k: int| #[trigger]
            bit(r.set_of(v, i, x), k) <==> if low <= k <= high {
                bit(x, k)
            } else {
                bit(v, k)
            } by {
            bit_with_unshifted(v, high, low, x, k);
        }
    } else {
        assert forall|k: int| #[trigger]
            bit(r.get_of(v, i), k) <==> 0 <= k <= high - low && bit(v, low + k) by {
            bit_field(v, high, low, k);
        }
        assert forall|k: int| #[trigger]
            bit(r.set_of(v, i, x), k) <==> if low <= k <= high {
                bit(x, k - low)
            } else {
                bit(v, k)
            } by {
            bit_with_field(v, high, low, x, k);
        }
    }
}

/// Iteration gives each field once, in order, with its metadata and its value: bit `k` of the
/// value is bit `k` of the field, and no bit from the field's width on is set. It is what the
/// getter returns of a field that is not unshifted.
pub proof fn iteration_gives_every_value(r: RegisterView, v: u128, i: int)
    requires
        r.well_formed(),
        0 <= i < r.fields.len(),
    ensures
        ({
            let entries = entries_of(r, v, 0, r.fields.len() as int);
            let f = r.fields[i];
            &&& entries.len() == r.fields.len()
            &&& entries[i].0 == f.metadata
            &&& forall|k: int| #[trigger]
                bit(entries[i].1, k) <==> 0 <= k < f.metadata.high_bit - f.metadata.low_bit + 1
                    && bit(v, f.metadata.low_bit + k)
            &&& !f.unshifted ==> entries[i].1 == r.get_of(v, i)
        }),
{
    let f = r.fields[i];
    assert forall|k: int| #[trigger]
        bit(field_of(v, f.high(), f.low()), k) <==> 0 <= k < f.high() - f.low() + 1 && bit(
            v,
            f.low() + k,
        ) by {
        bit_field(v, f.high(), f.low(), k);
    }
}

/// The fields between two places are those of the whole at these places.
pub proof fn iteration_between_two_places(r: RegisterView, v: u128, from: int, to: int, i: int)
    requires
        0 <= from <= to <= r.fields.len(),
        0 <= i < to - from,
    ensures
        entries_of(r, v, from, to).len() == to - from,
        entries_of(r, v, from, to)[i] == entries_of(r, v, 0, r.fields.len() as int)[from + i],
{
}

/// The message about a word that does not respect the reserved bits names the word, and the mask
/// that it fails: that of the reserved-as-1 bits if one of them is unset, else that of the
/// reserved-as-0 bits, one of which is set.
pub proof fn assertions_name_the_word_and_the_mask(r: RegisterView, v: u128)
    requires
        !r.respects(v),
    ensures
        ({
            let word = literal_of(v as nat, Radix::LowerHex);
            let one = literal_of(r.rsvd1() as nat, Radix::LowerHex);
            let zero = literal_of(r.rsvd0() as nat, Radix::LowerHex);
            let head = "from(): Invalid base value ("@;
            if v & r.rsvd1() != r.rsvd1() {
                assertion_of(r, v) == head + word + ") has reserved-as-"@ + "1"@ + " bits ("@ + one
                    + ") "@ + "unset"@
            } else {
                v & r.rsvd0() != 0 && assertion_of(r, v) == head + word + ") has reserved-as-"@
                    + "0"@ + " bits ("@ + zero + ") "@ + "set"@
            }
        }),
{
    crate::laws::respecting_by_masks(r, v);
}

} // verus!
