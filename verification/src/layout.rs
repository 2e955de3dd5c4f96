//! A whole layout: a struct and its bitfields, in order and without overlaps.

use crate::base::BaseType;
use crate::bitfield::{Bitfield, Field, head_field_of};
use crate::error::{Error, outcome};
use crate::syntax::{Chars, Texts, read_trees, tree_count, trees_of};
use crate::text::{decimal, decimal_of};
use crate::typedef::{TypeDef, head_typedef_of};
use vstd::prelude::*;

verus! {

/// The message about tokens that stand where curly braces should.
pub const EXPECTED_BRACES: &'static str = "expected curly braces";

/// The message about a text that ends where curly braces should stand.
pub const MISSING_BRACES: &'static str = "unexpected end of input, expected curly braces";

/// The message about tokens behind the bitfields.
pub const UNEXPECTED_INSIDE: &'static str = "unexpected token, expected `}`";

/// The message about tokens behind the layout.
pub const UNEXPECTED_TOKEN: &'static str = "unexpected token";

/// The bitfields of a layout, in the order of their declaration.
pub struct Bitfields(pub Vec<Bitfield<String, Vec<String>>>);

impl DeepView for Bitfields {
    type V = Seq<Field>;

    open spec fn deep_view(&self) -> Seq<Field> {
        self.0.deep_view()
    }
}

/// The first of two messages.
pub open spec fn first_late(first: Option<Chars>, next: Option<Chars>) -> Option<Chars> {
    if first is Some {
        first
    } else {
        next
    }
}

/// The fields that `text` declares, one statement after the other, and the first message about
/// tokens that are left over in a group inside one of them.
pub open spec fn fields_of(text: Chars) -> Result<(Seq<Field>, Option<Chars>), Error<Chars>>
    decreases tree_count(text),
{
    match trees_of(text) {
        Err(message) => Err(Error::Syntax(message)),
        Ok(trees) => if trees.len == 0 {
            Ok((Seq::empty(), None))
        } else {
            match head_field_of(text) {
                Err(e) => Err(e),
                Ok((f, rest, late)) => if tree_count(rest) < tree_count(text) {
                    after(seq![f], late, fields_of(rest))
                } else {
                    Err(Error::Syntax(UNEXPECTED_TOKEN@))
                },
            }
        },
    }
}

/// `first` with its message, followed by what `rest` gives.
pub open spec fn after(
    first: Seq<Field>,
    late: Option<Chars>,
    rest: Result<(Seq<Field>, Option<Chars>), Error<Chars>>,
) -> Result<(Seq<Field>, Option<Chars>), Error<Chars>> {
    match rest {
        Ok((fields, next)) => Ok((first + fields, first_late(late, next))),
        Err(e) => Err(e),
    }
}

impl Bitfields {
    /// Parses the bitfields that fill a text. Tokens that are left over in a group inside a
    /// declaration do not keep the others from being read: the fields come with the first
    /// message about them.
    pub fn parse(text: &str) -> (r: Result<(Self, Option<String>), Error<String>>)
        ensures
            outcome(r) == fields_of(text@),
            r matches Ok((fields, late)) ==> forall|i: int|
                0 <= i < fields.deep_view().len() ==> (
                #[trigger] fields.deep_view()[i]).well_formed(),
    {
        let mut fields: Vec<Bitfield<String, Vec<String>>> = Vec::new();
        let mut first: Option<String> = None;
        let mut rest = text.to_owned();
        proof {
            match fields_of(text@) {
                Ok((all, _)) => {
                    assert(fields.deep_view() + all =~= all);
                },
                Err(_) => {},
            }
        }
        loop
            invariant
                fields_of(text@) == after(
                    fields.deep_view(),
                    first.deep_view(),
                    fields_of(rest@),
                ),
                forall|i: int|
                    0 <= i < fields.deep_view().len() ==> (
                    #[trigger] fields.deep_view()[i]).well_formed(),
            decreases tree_count(rest@),
        {
            let trees = match read_trees(rest.as_str()) {
                Ok(trees) => trees,
                Err(message) => {
                    return Err(Error::Syntax(message));
                },
            };
            if trees.len == 0 {
                proof {
                    assert(fields.deep_view() + Seq::empty() =~= fields.deep_view());
                }
                return Ok((Bitfields(fields), first));
            }
            match Bitfield::parse(rest.as_str()) {
                Ok((f, more, late)) => {
                    let ghost before = fields.deep_view();
                    fields.push(f);
                    if first.is_none() {
                        first = late;
                    }
                    proof {
                        assert(fields.deep_view() =~= before.push(f.deep_view()));
                        match fields_of(more@) {
                            Ok((tail, _)) => {
                                assert(before + (seq![f.deep_view()] + tail) =~= before.push(
                                    f.deep_view(),
                                ) + tail);
                            },
                            Err(_) => {},
                        }
                    }
                    rest = more;
                },
                Err(e) => {
                    return Err(e);
                },
            }
        }
    }
}

/// `sorted` with `f` inserted behind the last field that does not begin above it.
pub open spec fn insert_by_low(sorted: Seq<Field>, f: Field) -> Seq<Field>
    decreases sorted.len(),
{
    if sorted.len() == 0 || sorted.last().low_bit <= f.low_bit {
        sorted.push(f)
    } else {
        insert_by_low(sorted.drop_last(), f).push(sorted.last())
    }
}

/// `fields`, sorted by their low bits.
pub open spec fn sort_by_low(fields: Seq<Field>) -> Seq<Field>
    decreases fields.len(),
{
    if fields.len() == 0 {
        fields
    } else {
        insert_by_low(sort_by_low(fields.drop_last()), fields.last())
    }
}

/// Whether the low bits of `fields` ascend.
pub open spec fn ascends(fields: Seq<Field>) -> bool {
    forall|i: int, j: int|
        0 <= i < j < fields.len() ==> (#[trigger] fields[i]).low_bit <= (
        #[trigger] fields[j]).low_bit
}

/// The fields that begin at a given bit.
pub open spec fn begins_at(low: usize) -> spec_fn(Field) -> bool {
    |f: Field| f.low_bit == low
}

/// Inserting keeps the order, and puts the field behind those that begin at the same bit.
proof fn lemma_insert_by_low(sorted: Seq<Field>, f: Field)
    requires
        ascends(sorted),
    ensures
        ascends(insert_by_low(sorted, f)),
        insert_by_low(sorted, f).len() == sorted.len() + 1,
        insert_by_low(sorted, f).last().low_bit == f.low_bit || sorted.len() > 0 && insert_by_low(
            sorted,
            f,
        ).last() == sorted.last(),
        insert_by_low(sorted, f).to_multiset() =~= sorted.to_multiset().insert(f),
        forall|low: usize|
            #![trigger begins_at(low)]
            insert_by_low(sorted, f).filter(begins_at(low)) =~= sorted.push(f).filter(
                begins_at(low),
            ),
    decreases sorted.len(),
{
    broadcast use vstd::seq_lib::group_to_multiset_ensures;

    reveal(Seq::filter);
    let r = insert_by_low(sorted, f);
    if sorted.len() == 0 || sorted.last().low_bit <= f.low_bit {
        assert(ascends(r));
    } else {
        let init = sorted.drop_last();
        let last = sorted.last();
        let inner = insert_by_low(init, f);
        lemma_insert_by_low(init, f);
        assert(r == inner.push(last));
        assert(sorted =~= init.push(last));
        assert forall|i: int, j: int| 0 <= i < j < r.len() implies (#[trigger] r[i]).low_bit <= (
        #[trigger] r[j]).low_bit by {
            if j == r.len() - 1 {
                assert(inner[i].low_bit <= inner.last().low_bit);
                if init.len() > 0 {
                    assert(sorted[init.len() - 1].low_bit <= sorted[init.len() as int].low_bit);
                }
            }
        }
        assert forall|low: usize| #![trigger begins_at(low)] r.filter(begins_at(low))
            =~= sorted.push(f).filter(begins_at(low)) by {
            let p = begins_at(low);
            assert(r.drop_last() =~= inner);
            assert(sorted.push(f).drop_last() =~= sorted);
            assert(init.push(f).drop_last() =~= init);
            assert(inner.filter(p) == init.push(f).filter(p));
            assert(!(p(last) && p(f)));
            assert(sorted.filter(p) == if p(last) {
                init.filter(p).push(last)
            } else {
                init.filter(p)
            });
        }
    }
}

/// Sorting orders the fields by their low bits, keeps each of them, and keeps the order of
/// those that begin at the same bit.
pub proof fn sorting_is_stable(fields: Seq<Field>)
    ensures
        ascends(sort_by_low(fields)),
        sort_by_low(fields).to_multiset() =~= fields.to_multiset(),
        forall|low: usize|
            #![trigger begins_at(low)]
            sort_by_low(fields).filter(begins_at(low)) =~= fields.filter(begins_at(low)),
    decreases fields.len(),
{
    broadcast use vstd::seq_lib::group_to_multiset_ensures;

    reveal(Seq::filter);
    if fields.len() > 0 {
        let init = fields.drop_last();
        sorting_is_stable(init);
        lemma_insert_by_low(sort_by_low(init), fields.last());
        assert(fields =~= init.push(fields.last()));
        assert forall|low: usize| #![trigger begins_at(low)] sort_by_low(fields).filter(
            begins_at(low),
        ) =~= fields.filter(begins_at(low)) by {
            let p = begins_at(low);
            assert(sort_by_low(init).push(fields.last()).drop_last() =~= sort_by_low(init));
        }
    }
}

/// Inserting is insertion before the fields that begin above.
proof fn lemma_insert_position(sorted: Seq<Field>, f: Field, at: int)
    requires
        0 <= at <= sorted.len(),
        at > 0 ==> sorted[at - 1].low_bit <= f.low_bit,
        forall|j: int| at <= j < sorted.len() ==> (#[trigger] sorted[j]).low_bit > f.low_bit,
    ensures
        insert_by_low(sorted, f) =~= sorted.insert(at, f),
    decreases sorted.len(),
{
    if at < sorted.len() {
        lemma_insert_position(sorted.drop_last(), f, at);
    }
}

/// Sorts fields by their low bits.
pub fn sort_fields(fields: Vec<Bitfield<String, Vec<String>>>) -> (r: Vec<
    Bitfield<String, Vec<String>>,
>)
    ensures
        r.deep_view() == sort_by_low(fields.deep_view()),
        ascends(r.deep_view()),
        r.deep_view().to_multiset() == fields.deep_view().to_multiset(),
        forall|low: usize|
            #![trigger begins_at(low)]
            r.deep_view().filter(begins_at(low)) == fields.deep_view().filter(begins_at(low)),
{
    let ghost all = fields.deep_view();
    let mut fields = fields;
    let mut sorted: Vec<Bitfield<String, Vec<String>>> = Vec::new();
    let ghost mut done: int = 0;
    proof {
        assert(all.skip(0) =~= all);
        assert(all.take(0) =~= Seq::empty());
        assert(sorted.deep_view() =~= Seq::empty());
    }
    while fields.len() > 0
        invariant
            0 <= done <= all.len(),
            fields.deep_view() =~= all.skip(done),
            sorted.deep_view() == sort_by_low(all.take(done)),
        decreases fields.len(),
    {
        let ghost rest = fields.deep_view();
        let ghost before = sorted.deep_view();
        let f = fields.remove(0);
        proof {
            assert(fields.deep_view() =~= rest.remove(0));
            assert(f.deep_view() == rest[0]);
            assert(rest[0] == all[done]);
            assert(all.take(done + 1).drop_last() =~= all.take(done));
        }
        let mut at: usize = sorted.len();
        while at > 0 && sorted[at - 1].low_bit > f.low_bit
            invariant
                at <= sorted.len(),
                before == sorted.deep_view(),
                forall|j: int|
                    at <= j < sorted.len() ==> (#[trigger] before[j]).low_bit > f.low_bit,
            decreases at,
        {
            proof {
                assert(before[at - 1] == sorted[at - 1].deep_view());
            }
            at = at - 1;
        }
        proof {
            if at > 0 {
                assert(before[at - 1] == sorted[at - 1].deep_view());
            }
            lemma_insert_position(before, f.deep_view(), at as int);
        }
        let ghost fv = f.deep_view();
        sorted.insert(at, f);
        proof {
            assert(sorted.deep_view() =~= before.insert(at as int, fv));
            done = done + 1;
        }
    }
    proof {
        assert(all.take(done) =~= all);
        sorting_is_stable(all);
    }
    sorted
}

/// Whether two neighbours overlap.
pub open spec fn overlap(curr: Field, next: Field) -> bool {
    curr.high_bit >= next.low_bit
}

/// How a message describes a field: its name, what it is, and where.
pub open spec fn describe_of(f: Field) -> Chars {
    Bitfield::<String, Vec<String>>::display_name_of(f) + " ("@ + Bitfield::<
        String,
        Vec<String>,
    >::display_kind_of(f) + " "@ + Bitfield::<String, Vec<String>>::display_range_of(f) + ")"@
}

/// Describes a field in a message.
pub fn describe(f: &Bitfield<String, Vec<String>>) -> (r: String)
    ensures
        r@ == describe_of(f.deep_view()),
{
    let mut r = f.display_name();
    r.append(" (");
    r.append(f.display_kind());
    r.append(" ");
    r.append(f.display_range().as_str());
    r.append(")");
    r
}

/// That `next` overlaps with `curr`.
pub open spec fn overlap_error(curr: Field, next: Field) -> Error<Chars> {
    Error::Layout {
        message: describe_of(next) + " overlaps with "@ + describe_of(curr),
        at: next.text,
    }
}

/// The first overlap of neighbours among sorted fields.
pub open spec fn first_overlap(sorted: Seq<Field>) -> Option<Error<Chars>>
    decreases sorted.len(),
{
    if sorted.len() < 2 {
        None
    } else if first_overlap(sorted.drop_last()) is Some {
        first_overlap(sorted.drop_last())
    } else if overlap(sorted[sorted.len() - 2], sorted.last()) {
        Some(overlap_error(sorted[sorted.len() - 2], sorted.last()))
    } else {
        None
    }
}

/// The first overlap of a list is that of any longer list.
proof fn lemma_first_overlap_prefix(sorted: Seq<Field>, i: int)
    requires
        0 <= i <= sorted.len(),
        first_overlap(sorted.take(i)) is Some,
    ensures
        first_overlap(sorted) == first_overlap(sorted.take(i)),
    decreases sorted.len(),
{
    if i == sorted.len() {
        assert(sorted.take(i) =~= sorted);
    } else {
        assert(sorted.drop_last().take(i) =~= sorted.take(i));
        lemma_first_overlap_prefix(sorted.drop_last(), i);
    }
}

/// Looks for an overlap among sorted fields.
pub fn check_overlap(sorted: &Vec<Bitfield<String, Vec<String>>>) -> (r: Option<Error<String>>)
    ensures
        r.deep_view() == first_overlap(sorted.deep_view()),
{
    let ghost all = sorted.deep_view();
    if sorted.len() < 2 {
        return None;
    }
    let mut i: usize = 1;
    while i < sorted.len()
        invariant
            all == sorted.deep_view(),
            1 <= i <= sorted.len(),
            first_overlap(all.take(i as int)) is None,
        decreases sorted.len() - i,
    {
        let curr = &sorted[i - 1];
        let next = &sorted[i];
        proof {
            let upto = all.take(i + 1);
            assert(upto.drop_last() =~= all.take(i as int));
            assert(upto.last() == next.deep_view());
            assert(upto[upto.len() - 2] == curr.deep_view());
        }
        if curr.high_bit >= next.low_bit {
            proof {
                lemma_first_overlap_prefix(all, i + 1);
            }
            let mut message = describe(next);
            message.append(" overlaps with ");
            message.append(describe(curr).as_str());
            return Some(Error::at(message.as_str(), next.text.as_str()));
        }
        i = i + 1;
    }
    proof {
        assert(all.take(i as int) =~= all);
    }
    None
}

/// That the last of the sorted fields exceeds the base type, if it does.
pub open spec fn excess(base: BaseType, sorted: Seq<Field>) -> Option<Error<Chars>> {
    if sorted.len() > 0 && sorted.last().high_bit >= base.bits() {
        Some(
            Error::Layout {
                message: "high bit "@ + decimal_of(sorted.last().high_bit as nat)
                    + " exceeds the highest possible value of "@ + decimal_of(
                    (base.bits() - 1) as nat,
                ),
                at: sorted.last().text,
            },
        )
    } else {
        None
    }
}

/// The fields that have a name.
pub open spec fn is_named() -> spec_fn(Field) -> bool {
    |f: Field| f.name is Some
}

/// The reserved fields that have a value.
pub open spec fn is_reserved_as() -> spec_fn(Field) -> bool {
    |f: Field| f.name is None && f.default is Some
}

/// A layout: the named fields, and the reserved ones that have a value, both from the highest
/// down.
pub struct Layout {
    pub ty: TypeDef<String, Vec<String>>,
    pub named: Vec<Bitfield<String, Vec<String>>>,
    pub reserved: Vec<Bitfield<String, Vec<String>>>,
}

/// A layout, in contracts.
pub struct LayoutView {
    pub ty: TypeDef<Chars, Texts>,
    pub named: Seq<Field>,
    pub reserved: Seq<Field>,
}

impl DeepView for Layout {
    type V = LayoutView;

    open spec fn deep_view(&self) -> LayoutView {
        LayoutView {
            ty: self.ty.deep_view(),
            named: self.named.deep_view(),
            reserved: self.reserved.deep_view(),
        }
    }
}

/// Whether two fields share no bit.
pub open spec fn disjoint(a: Field, b: Field) -> bool {
    a.high_bit < b.low_bit || b.high_bit < a.low_bit
}

/// Whether `fields` descend without overlaps.
pub open spec fn descends(fields: Seq<Field>) -> bool {
    forall|i: int, j: int|
        0 <= i < j < fields.len() ==> (#[trigger] fields[i]).low_bit > (
        #[trigger] fields[j]).high_bit
}

impl LayoutView {
    /// The base type.
    pub open spec fn base(self) -> BaseType {
        self.ty.base.ty
    }

    /// Whether `f` is a field of the layout that has a name or a value.
    pub open spec fn has(self, f: Field) -> bool {
        self.named.contains(f) || self.reserved.contains(f)
    }

    /// What holds of every layout: the fields fit the base type, descend, and share no bit.
    pub open spec fn well_formed(self) -> bool {
        &&& descends(self.named)
        &&& descends(self.reserved)
        &&& forall|i: int|
            0 <= i < self.named.len() ==> {
                let f = #[trigger] self.named[i];
                f.well_formed() && f.name is Some && f.high_bit < self.base().bits()
            }
        &&& forall|i: int|
            0 <= i < self.reserved.len() ==> {
                let f = #[trigger] self.reserved[i];
                f.well_formed() && f.name is None && f.default is Some && f.high_bit
                    < self.base().bits()
            }
        &&& forall|i: int, j: int|
            0 <= i < self.named.len() && 0 <= j < self.reserved.len() ==> disjoint(
                #[trigger] self.named[i],
                #[trigger] self.reserved[j],
            )
    }
}

/// The layout of the given fields over a type.
pub open spec fn layout_of_fields(ty: TypeDef<Chars, Texts>, fields: Seq<Field>) -> Result<
    LayoutView,
    Error<Chars>,
> {
    let sorted = sort_by_low(fields);
    match (first_overlap(sorted), excess(ty.base.ty, sorted)) {
        (Some(e), _) => Err(e),
        (None, Some(e)) => Err(e),
        (None, None) => Ok(
            LayoutView {
                ty,
                named: sorted.reverse().filter(is_named()),
                reserved: sorted.reverse().filter(is_reserved_as()),
            },
        ),
    }
}

/// The text in the curly braces that `text` begins with, and whether more follows them.
pub open spec fn braced_of(text: Chars) -> Result<(Chars, bool), Error<Chars>> {
    match trees_of(text) {
        Err(message) => Err(Error::Syntax(message)),
        Ok(trees) => match trees.group {
            Some((true, inner)) => Ok((inner, trees.len > 1)),
            _ => if trees.len == 0 {
                Err(Error::Syntax(MISSING_BRACES@))
            } else {
                Err(Error::Syntax(EXPECTED_BRACES@))
            },
        },
    }
}

/// The layout that `text` defines: in curly braces, a struct and, in curly braces again, its
/// bitfields. Tokens that are left over count last: first those in a group inside the struct or
/// a bitfield, then those behind the bitfields, then those behind the layout.
pub open spec fn layout_of(text: Chars) -> Result<LayoutView, Error<Chars>> {
    match braced_of(text) {
        Err(e) => Err(e),
        Ok((outer, more_outside)) => match head_typedef_of(outer) {
            Err(e) => Err(e),
            Ok((ty, rest, late)) => match braced_of(rest) {
                Err(e) => Err(e),
                Ok((inner, more_inside)) => match fields_of(inner) {
                    Err(e) => Err(e),
                    Ok((fields, next)) => match layout_of_fields(ty, fields) {
                        Err(e) => Err(e),
                        Ok(layout) => if first_late(late, next) is Some {
                            Err(Error::Syntax(first_late(late, next)->0))
                        } else if more_inside {
                            Err(Error::Syntax(UNEXPECTED_INSIDE@))
                        } else if more_outside {
                            Err(Error::Syntax(UNEXPECTED_TOKEN@))
                        } else {
                            Ok(layout)
                        },
                    },
                },
            },
        },
    }
}

/// Sorted fields without an overlap of neighbours share no bit at all.
pub(crate) proof fn lemma_no_overlap(sorted: Seq<Field>)
    requires
        first_overlap(sorted) is None,
        forall|i: int| 0 <= i < sorted.len() ==> (#[trigger] sorted[i]).well_formed(),
    ensures
        forall|i: int, j: int|
            0 <= i < j < sorted.len() ==> (#[trigger] sorted[i]).high_bit < (
            #[trigger] sorted[j]).low_bit,
    decreases sorted.len(),
{
    if sorted.len() >= 2 {
        let init = sorted.drop_last();
        assert forall|i: int| 0 <= i < init.len() implies (#[trigger] init[i]).well_formed() by {
            assert(init[i] == sorted[i]);
        }
        lemma_no_overlap(init);
        assert forall|i: int, j: int| 0 <= i < j < sorted.len() implies (
        #[trigger] sorted[i]).high_bit < (#[trigger] sorted[j]).low_bit by {
            let n = init.len() - 1;
            assert(sorted[n].well_formed());
            if j < sorted.len() - 1 {
                assert(init[i].high_bit < init[j].low_bit);
            } else if i < n {
                assert(init[i].high_bit < init[n].low_bit);
            }
        }
    }
}

/// Dropping fields keeps the order.
proof fn lemma_filter_descends(fields: Seq<Field>, p: spec_fn(Field) -> bool)
    requires
        descends(fields),
    ensures
        descends(fields.filter(p)),
        forall|i: int|
            0 <= i < fields.filter(p).len() ==> p(#[trigger] fields.filter(p)[i])
                && fields.contains(fields.filter(p)[i]),
    decreases fields.len(),
{
    reveal(Seq::filter);
    if fields.len() > 0 {
        let init = fields.drop_last();
        assert(descends(init)) by {
            assert forall|i: int, j: int| 0 <= i < j < init.len() implies (
            #[trigger] init[i]).low_bit > (#[trigger] init[j]).high_bit by {
                assert(fields[i].low_bit > fields[j].high_bit);
            }
        }
        lemma_filter_descends(init, p);
        let kept = init.filter(p);
        let r = fields.filter(p);
        assert forall|i: int| 0 <= i < r.len() implies p(#[trigger] r[i]) && fields.contains(
            r[i],
        ) by {
            if i < kept.len() {
                let k = choose|k: int| 0 <= k < init.len() && init[k] == kept[i];
                assert(fields[k] == r[i]);
            } else {
                assert(fields[fields.len() - 1] == r[i]);
            }
        }
        assert forall|i: int, j: int| 0 <= i < j < r.len() implies (#[trigger] r[i]).low_bit > (
        #[trigger] r[j]).high_bit by {
            if j < kept.len() {
                assert(kept[i].low_bit > kept[j].high_bit);
            } else {
                let k = choose|k: int| 0 <= k < init.len() && init[k] == kept[i];
                assert(fields[k].low_bit > fields[fields.len() - 1].high_bit);
            }
        }
    }
}

/// An accepted layout is well formed: its fields fit the base type, descend, and share no
/// bit. It holds each declared field that has a name or a value, and no other.
pub proof fn accepted_layout_is_well_formed(ty: TypeDef<Chars, Texts>, fields: Seq<Field>)
    requires
        forall|i: int| 0 <= i < fields.len() ==> (#[trigger] fields[i]).well_formed(),
        layout_of_fields(ty, fields) is Ok,
    ensures
        layout_of_fields(ty, fields)->Ok_0.well_formed(),
        forall|f: Field| #[trigger]
            layout_of_fields(ty, fields)->Ok_0.named.contains(f) <==> fields.contains(f)
                && f.name is Some,
        forall|f: Field| #[trigger]
            layout_of_fields(ty, fields)->Ok_0.reserved.contains(f) <==> fields.contains(f)
                && f.name is None && f.default is Some,
{
    let sorted = sort_by_low(fields);
    let down = sorted.reverse();
    let layout = layout_of_fields(ty, fields)->Ok_0;
    sorting_is_stable(fields);
    assert forall|f: Field| #[trigger] sorted.contains(f) <==> fields.contains(f) by {
        lemma_same_members(sorted, fields, f);
    }
    assert forall|i: int| 0 <= i < sorted.len() implies (#[trigger] sorted[i]).well_formed() by {
        assert(sorted.contains(sorted[i]));
        let k = choose|k: int| 0 <= k < fields.len() && fields[k] == sorted[i];
        assert(fields[k].well_formed());
    }
    lemma_no_overlap(sorted);
    assert(descends(down)) by {
        assert forall|i: int, j: int| 0 <= i < j < down.len() implies (
        #[trigger] down[i]).low_bit > (#[trigger] down[j]).high_bit by {
            let n = sorted.len() - 1;
            assert(sorted[n - j].high_bit < sorted[n - i].low_bit);
        }
    }
    lemma_filter_descends(down, is_named());
    lemma_filter_descends(down, is_reserved_as());
    assert forall|f: Field| #[trigger] down.contains(f) <==> fields.contains(f) by {
        if down.contains(f) {
            let k = choose|k: int| 0 <= k < down.len() && down[k] == f;
            assert(sorted[sorted.len() - 1 - k] == f);
            assert(sorted.contains(f));
        }
        if fields.contains(f) {
            assert(sorted.contains(f));
            let k = choose|k: int| 0 <= k < sorted.len() && sorted[k] == f;
            assert(down[sorted.len() - 1 - k] == f);
        }
    }
    assert forall|f: Field| down.contains(f) implies f.well_formed() && f.high_bit
        < ty.base.ty.bits() by {
        let k = choose|k: int| 0 <= k < down.len() && down[k] == f;
        let i = sorted.len() - 1 - k;
        assert(sorted[i] == f);
        assert(sorted[i].well_formed());
        if i < sorted.len() - 1 {
            assert(sorted[i].high_bit < sorted[sorted.len() - 1].low_bit);
            assert(sorted[sorted.len() - 1].well_formed());
        }
    }
    assert forall|i: int, j: int|
        0 <= i < layout.named.len() && 0 <= j < layout.reserved.len() implies disjoint(
        #[trigger] layout.named[i],
        #[trigger] layout.reserved[j],
    ) by {
        let a = layout.named[i];
        let b = layout.reserved[j];
        assert(down.contains(a) && down.contains(b));
        let ka = choose|k: int| 0 <= k < down.len() && down[k] == a;
        let kb = choose|k: int| 0 <= k < down.len() && down[k] == b;
        if ka < kb {
            assert(down[ka].low_bit > down[kb].high_bit);
        } else {
            assert(down[kb].low_bit > down[ka].high_bit);
        }
    }
    assert forall|f: Field| #[trigger] layout.named.contains(f) <==> fields.contains(f)
        && f.name is Some by {
        lemma_filter_members(down, is_named(), f);
        assert(down.contains(f) <==> fields.contains(f));
    }
    assert forall|f: Field| #[trigger] layout.reserved.contains(f) <==> fields.contains(f)
        && f.name is None && f.default is Some by {
        lemma_filter_members(down, is_reserved_as(), f);
        assert(down.contains(f) <==> fields.contains(f));
    }
}

/// Sequences with the same multiset have the same members.
pub(crate) proof fn lemma_same_members(a: Seq<Field>, b: Seq<Field>, f: Field)
    requires
        a.to_multiset() == b.to_multiset(),
    ensures
        a.contains(f) <==> b.contains(f),
{
    broadcast use vstd::seq_lib::group_to_multiset_ensures;

    assert(a.contains(f) <==> a.to_multiset().count(f) > 0);
    assert(b.contains(f) <==> b.to_multiset().count(f) > 0);
}

/// A filtered sequence holds the members that pass.
proof fn lemma_filter_members(s: Seq<Field>, p: spec_fn(Field) -> bool, f: Field)
    ensures
        s.filter(p).contains(f) <==> s.contains(f) && p(f),
    decreases s.len(),
{
    reveal(Seq::filter);
    if s.len() > 0 {
        let init = s.drop_last();
        lemma_filter_members(init, p, f);
        let kept = init.filter(p);
        let r = s.filter(p);
        if r.contains(f) {
            let k = choose|k: int| 0 <= k < r.len() && r[k] == f;
            if k < kept.len() {
                assert(kept[k] == f);
                let m = choose|m: int| 0 <= m < init.len() && init[m] == f;
                assert(s[m] == f);
            } else {
                assert(s[s.len() - 1] == f);
            }
        }
        if s.contains(f) && p(f) {
            let m = choose|m: int| 0 <= m < s.len() && s[m] == f;
            if m < init.len() {
                assert(init[m] == f);
                let k = choose|k: int| 0 <= k < kept.len() && kept[k] == f;
                assert(r[k] == f);
            } else {
                assert(r[r.len() - 1] == f);
            }
        }
    }
}

impl Layout {
    /// Lays out fields over a type: none may overlap with another or exceed the base type.
    pub fn from_fields(
        ty: TypeDef<String, Vec<String>>,
        fields: Vec<Bitfield<String, Vec<String>>>,
    ) -> (r: Result<Self, Error<String>>)
        requires
            forall|i: int|
                0 <= i < fields.deep_view().len() ==> (
                #[trigger] fields.deep_view()[i]).well_formed(),
        ensures
            outcome(r) == layout_of_fields(ty.deep_view(), fields.deep_view()),
            r matches Ok(layout) ==> layout.deep_view().well_formed(),
    {
        let ghost declared = fields.deep_view();
        let mut fields = sort_fields(fields);
        let ghost sorted = fields.deep_view();
        if let Some(e) = check_overlap(&fields) {
            return Err(e);
        }
        let highest_possible = ty.base.ty.high_bit();
        if fields.len() > 0 {
            let highest = &fields[fields.len() - 1];
            proof {
                assert(sorted.last() == highest.deep_view());
            }
            if highest.high_bit > highest_possible {
                let mut message = "high bit ".to_owned();
                message.append(decimal(highest.high_bit).as_str());
                message.append(" exceeds the highest possible value of ");
                message.append(decimal(highest_possible).as_str());
                return Err(Error::at(message.as_str(), highest.text.as_str()));
            }
        }
        let mut named: Vec<Bitfield<String, Vec<String>>> = Vec::new();
        let mut reserved: Vec<Bitfield<String, Vec<String>>> = Vec::new();
        let ghost mut done: Seq<Field> = Seq::empty();
        proof {
            reveal(Seq::filter);
            assert(named.deep_view() =~= done.filter(is_named()));
            assert(reserved.deep_view() =~= done.filter(is_reserved_as()));
            assert(sorted.take(sorted.len() as int) =~= sorted);
            assert(sorted.skip(sorted.len() as int).reverse() =~= done);
        }
        while fields.len() > 0
            invariant
                fields.deep_view().len() <= sorted.len(),
                fields.deep_view() =~= sorted.take(fields.deep_view().len() as int),
                done =~= sorted.skip(fields.deep_view().len() as int).reverse(),
                named.deep_view() == done.filter(is_named()),
                reserved.deep_view() == done.filter(is_reserved_as()),
            decreases fields.len(),
        {
            let ghost n = fields.deep_view().len();
            let ghost before = fields.deep_view();
            let ghost old_named = named.deep_view();
            let ghost old_reserved = reserved.deep_view();
            if let Some(field) = fields.pop() {
                let ghost f = field.deep_view();
                proof {
                    reveal(Seq::filter);
                    assert(f == before[n - 1]);
                    assert(fields.deep_view() =~= before.take(n - 1));
                    assert(sorted.skip(n - 1).reverse() =~= done.push(f));
                    assert(done.push(f).drop_last() =~= done);
                    done = done.push(f);
                }
                if field.is_reserved() {
                    if field.default.is_some() {
                        reserved.push(field);
                        proof {
                            assert(reserved.deep_view() =~= old_reserved.push(f));
                        }
                    }
                } else {
                    named.push(field);
                    proof {
                        assert(named.deep_view() =~= old_named.push(f));
                    }
                }
            }
        }
        proof {
            assert(done =~= sorted.reverse());
            accepted_layout_is_well_formed(ty.deep_view(), declared);
        }
        Ok(Layout { ty, named, reserved })
    }

    /// Parses a layout.
    pub fn parse(text: &str) -> (r: Result<Self, Error<String>>)
        ensures
            outcome(r) == layout_of(text@),
            r matches Ok(layout) ==> layout.deep_view().well_formed(),
    {
        let (outer, more_outside) = match braced(text) {
            Ok(parts) => parts,
            Err(e) => {
                return Err(e);
            },
        };
        let (ty, rest, late) = match TypeDef::parse(outer.as_str()) {
            Ok(parts) => parts,
            Err(e) => {
                return Err(e);
            },
        };
        let (inner, more_inside) = match braced(rest.as_str()) {
            Ok(parts) => parts,
            Err(e) => {
                return Err(e);
            },
        };
        let (fields, next) = match Bitfields::parse(inner.as_str()) {
            Ok(fields) => fields,
            Err(e) => {
                return Err(e);
            },
        };
        let layout = match Layout::from_fields(ty, fields.0) {
            Ok(layout) => layout,
            Err(e) => {
                return Err(e);
            },
        };
        if let Some(message) = late {
            return Err(Error::Syntax(message));
        }
        if let Some(message) = next {
            return Err(Error::Syntax(message));
        }
        if more_inside {
            return Err(Error::Syntax(UNEXPECTED_INSIDE.to_owned()));
        }
        if more_outside {
            return Err(Error::Syntax(UNEXPECTED_TOKEN.to_owned()));
        }
        Ok(layout)
    }
}

/// Finds the curly braces that a text begins with: what they hold, and whether more follows.
pub fn braced(text: &str) -> (r: Result<(String, bool), Error<String>>)
    ensures
        outcome(r) == braced_of(text@),
{
    match read_trees(text) {
        Ok(trees) => {
            let more = trees.len > 1;
            match trees.group {
                Some((true, inner)) => Ok((inner, more)),
                _ => {
                    if trees.len == 0 {
                        Err(Error::Syntax(MISSING_BRACES.to_owned()))
                    } else {
                        Err(Error::Syntax(EXPECTED_BRACES.to_owned()))
                    }
                },
            }
        },
        Err(message) => Err(Error::Syntax(message)),
    }
}

} // verus!
