//! Which fields make a layout.

use crate::base::BaseType;
use crate::bitfield::Field;
use crate::layout::{
    ascends, disjoint, first_overlap, layout_of_fields, lemma_no_overlap, lemma_same_members,
    overlap, sort_by_low, sorting_is_stable,
};
use crate::syntax::{Chars, Texts};
use crate::typedef::TypeDef;
use vstd::prelude::*;

verus! {

/// Whether every field is well formed.
pub open spec fn all_well_formed(fields: Seq<Field>) -> bool {
    forall|i: int| 0 <= i < fields.len() ==> (#[trigger] fields[i]).well_formed()
}

/// Whether no two fields share a bit.
pub open spec fn separate(fields: Seq<Field>) -> bool {
    forall|i: int, j: int|
        0 <= i < fields.len() && 0 <= j < fields.len() && i != j ==> disjoint(
            #[trigger] fields[i],
            #[trigger] fields[j],
        )
}

/// Whether every field is within a type.
pub open spec fn within(base: BaseType, fields: Seq<Field>) -> bool {
    forall|i: int| 0 <= i < fields.len() ==> (#[trigger] fields[i]).high_bit < base.bits()
}

/// A field that stands at two places counts at least twice.
proof fn lemma_counts_twice(s: Seq<Field>, i: int, j: int)
    requires
        0 <= i < j < s.len(),
        s[i] == s[j],
    ensures
        s.to_multiset().count(s[i]) >= 2,
    decreases s.len(),
{
    broadcast use vstd::seq_lib::group_to_multiset_ensures;

    let init = s.drop_last();
    assert(s =~= init.push(s.last()));
    if j == s.len() - 1 {
        assert(init[i] == s[i]);
        assert(init.contains(s[i]));
    } else {
        lemma_counts_twice(init, i, j);
    }
}

/// A field that counts at least twice stands at two places.
proof fn lemma_stands_twice(s: Seq<Field>, f: Field) -> (r: (int, int))
    requires
        s.to_multiset().count(f) >= 2,
    ensures
        0 <= r.0 < r.1 < s.len(),
        s[r.0] == f,
        s[r.1] == f,
    decreases s.len(),
{
    broadcast use vstd::seq_lib::group_to_multiset_ensures;

    if s.len() == 0 {
        assert(s =~= Seq::empty());
        (0, 0)
    } else {
        let init = s.drop_last();
        assert(s =~= init.push(s.last()));
        if s.last() == f {
            assert(init.contains(f));
            (choose|k: int| 0 <= k < init.len() && init[k] == f, s.len() - 1)
        } else {
            lemma_stands_twice(init, f)
        }
    }
}

/// A reported overlap is one of neighbours.
proof fn lemma_some_overlap(sorted: Seq<Field>) -> (k: int)
    requires
        first_overlap(sorted) is Some,
    ensures
        0 <= k < sorted.len() - 1,
        overlap(sorted[k], sorted[k + 1]),
    decreases sorted.len(),
{
    if first_overlap(sorted.drop_last()) is Some {
        lemma_some_overlap(sorted.drop_last())
    } else {
        sorted.len() - 2
    }
}

/// Separate fields stay separate in another order.
proof fn lemma_separate_anywhere(a: Seq<Field>, b: Seq<Field>, p: int, q: int)
    requires
        a.to_multiset() == b.to_multiset(),
        separate(a),
        0 <= p < q < b.len(),
    ensures
        disjoint(b[p], b[q]),
{
    let (f, g) = (b[p], b[q]);
    if f == g {
        lemma_counts_twice(b, p, q);
        let (i, j) = lemma_stands_twice(a, f);
        assert(disjoint(a[i], a[j]));
    } else {
        lemma_same_members(a, b, f);
        lemma_same_members(a, b, g);
        assert(b.contains(f) && b.contains(g));
        let i = choose|i: int| 0 <= i < a.len() && a[i] == f;
        let j = choose|j: int| 0 <= j < a.len() && a[j] == g;
        assert(disjoint(a[i], a[j]));
    }
}

/// Sorted fields are well formed as the unsorted ones are.
proof fn lemma_sorted_well_formed(fields: Seq<Field>)
    requires
        all_well_formed(fields),
    ensures
        all_well_formed(sort_by_low(fields)),
{
    let sorted = sort_by_low(fields);
    sorting_is_stable(fields);
    assert forall|i: int| 0 <= i < sorted.len() implies (#[trigger] sorted[i]).well_formed() by {
        lemma_same_members(sorted, fields, sorted[i]);
        assert(sorted.contains(sorted[i]));
        let k = choose|k: int| 0 <= k < fields.len() && fields[k] == sorted[i];
        assert(fields[k].well_formed());
    }
}

/// Fields make a layout if and only if no two of them share a bit and none exceeds the base
/// type.
pub proof fn accepted_if_and_only_if_separate(ty: TypeDef<Chars, Texts>, fields: Seq<Field>)
    requires
        all_well_formed(fields),
    ensures
        layout_of_fields(ty, fields) is Ok <==> separate(fields) && within(ty.base.ty, fields),
{
    let sorted = sort_by_low(fields);
    let base = ty.base.ty;
    sorting_is_stable(fields);
    lemma_sorted_well_formed(fields);
    if layout_of_fields(ty, fields) is Ok {
        lemma_no_overlap(sorted);
        assert(separate(sorted));
        assert forall|i: int, j: int|
            0 <= i < fields.len() && 0 <= j < fields.len() && i != j implies disjoint(
            #[trigger] fields[i],
            #[trigger] fields[j],
        ) by {
            if i < j {
                lemma_separate_anywhere(sorted, fields, i, j);
            } else {
                lemma_separate_anywhere(sorted, fields, j, i);
            }
        }
        assert forall|i: int| 0 <= i < fields.len() implies (#[trigger] fields[i]).high_bit
            < base.bits() by {
            lemma_same_members(sorted, fields, fields[i]);
            assert(fields.contains(fields[i]));
            let k = choose|k: int| 0 <= k < sorted.len() && sorted[k] == fields[i];
            let n = sorted.len() - 1;
            assert(sorted[n].well_formed());
            if k < n {
                assert(sorted[k].high_bit < sorted[n].low_bit);
            }
        }
    }
    if separate(fields) && within(base, fields) {
        if first_overlap(sorted) is Some {
            let k = lemma_some_overlap(sorted);
            lemma_separate_anywhere(fields, sorted, k, k + 1);
            assert(sorted[k].well_formed() && sorted[k + 1].well_formed());
            assert(sorted[k].low_bit <= sorted[k + 1].low_bit);
        }
        if sorted.len() > 0 {
            lemma_same_members(sorted, fields, sorted.last());
            assert(sorted.contains(sorted.last()));
            let k = choose|k: int| 0 <= k < fields.len() && fields[k] == sorted.last();
            assert(fields[k].high_bit < base.bits());
        }
    }
}

/// Two sorted arrangements of the same fields are the same, if no two fields begin at the same
/// bit.
proof fn lemma_one_order(a: Seq<Field>, b: Seq<Field>)
    requires
        a.to_multiset() == b.to_multiset(),
        forall|i: int, j: int|
            0 <= i < j < a.len() ==> (#[trigger] a[i]).low_bit < (#[trigger] a[j]).low_bit,
        ascends(b),
    ensures
        a == b,
    decreases a.len(),
{
    broadcast use vstd::seq_lib::group_to_multiset_ensures;

    assert(a.len() == a.to_multiset().len() && b.len() == b.to_multiset().len());
    if a.len() == 0 {
        assert(a =~= b);
    } else {
        let (x, y) = (a.last(), b.last());
        lemma_same_members(a, b, x);
        lemma_same_members(a, b, y);
        assert(a.contains(x) && b.contains(y));
        let p = choose|p: int| 0 <= p < a.len() && a[p] == y;
        let q = choose|q: int| 0 <= q < b.len() && b[q] == x;
        if p < a.len() - 1 {
            assert(a[p].low_bit < a[a.len() - 1].low_bit);
        }
        if q < b.len() - 1 {
            assert(b[q].low_bit <= b[b.len() - 1].low_bit);
        }
        assert(x == y);
        let (c, d) = (a.drop_last(), b.drop_last());
        assert(a =~= c.push(x) && b =~= d.push(x));
        assert(c.to_multiset() =~= d.to_multiset()) by {
            assert(c.to_multiset().insert(x) == d.to_multiset().insert(x));
            assert forall|f: Field| c.to_multiset().count(f) == d.to_multiset().count(f) by {
                assert(c.to_multiset().insert(x).count(f) == d.to_multiset().insert(x).count(f));
            }
        }
        assert forall|i: int, j: int| 0 <= i < j < c.len() implies (#[trigger] c[i]).low_bit < (
        #[trigger] c[j]).low_bit by {
            assert(a[i].low_bit < a[j].low_bit);
        }
        assert(ascends(d)) by {
            assert forall|i: int, j: int| 0 <= i < j < d.len() implies (#[trigger] d[i]).low_bit
                <= (#[trigger] d[j]).low_bit by {
                assert(b[i].low_bit <= b[j].low_bit);
            }
        }
        lemma_one_order(c, d);
    }
}

/// The order in which the fields of a layout are declared does not matter.
pub proof fn declaration_order_does_not_matter(
    ty: TypeDef<Chars, Texts>,
    fields: Seq<Field>,
    other: Seq<Field>,
)
    requires
        all_well_formed(fields),
        fields.to_multiset() == other.to_multiset(),
        layout_of_fields(ty, fields) is Ok,
    ensures
        layout_of_fields(ty, other) == layout_of_fields(ty, fields),
{
    let sorted = sort_by_low(fields);
    sorting_is_stable(fields);
    sorting_is_stable(other);
    lemma_sorted_well_formed(fields);
    lemma_no_overlap(sorted);
    assert forall|i: int, j: int| 0 <= i < j < sorted.len() implies (
    #[trigger] sorted[i]).low_bit < (#[trigger] sorted[j]).low_bit by {
        assert(sorted[i].well_formed());
        assert(sorted[i].high_bit < sorted[j].low_bit);
    }
    lemma_one_order(sorted, sort_by_low(other));
}

} // verus!
