//! The source text that a layout stands for.

use crate::accessors::{accessors_of, bare, bare_of, check_raw, is_raw};
use crate::bitfield::{Bitfield, Field};
use crate::constants::constants_of;
use crate::error::{Error, outcome};
use crate::format::fmt_impls_of;
use crate::layout::{Layout, LayoutView, layout_of};
use crate::pieces::{Piece, each};
use crate::syntax::{Chars, Texts};
use crate::text::{concat_all, concat_of, fill, fill_of, join, uppercase, uppercase_of};
use crate::typedef::TypeDef;
use vstd::prelude::*;

verus! {

/// A representation of a field's values: its integral type and its definition.
pub const BITFIELD_REPR: &'static str = "
#[repr($0)]
#[derive(
    Debug,
    Eq,
    PartialEq,
    ::zerocopy::Immutable,
    ::zerocopy::IntoBytes,
    ::zerocopy::TryFromBytes,
)]
$1
";

/// The iterators of a layout: the type's name, the base type, the iterator's name, and the
/// visibility.
pub const ITERATORS: &'static str = "
#[doc(hidden)]
$3 struct $2($1, usize, usize);

impl ::core::iter::Iterator for $2 {
    type Item = (&'static ::bitfld::FieldMetadata<$1>, $1);

    fn next(&mut self) -> Option<Self::Item> {
        if self.1 >= self.2 {
            return None;
        }
        let metadata = &$0::FIELDS[self.1];
        let shifted_mask = $1::MAX
            >> ($1::BITS as usize - 1 - (metadata.high_bit - metadata.low_bit));
        let value = (self.0 >> metadata.low_bit) & shifted_mask;
        self.1 += 1;
        Some((metadata, value))
    }
}

impl ::core::iter::DoubleEndedIterator for $2 {
    fn next_back(&mut self) -> Option<Self::Item> {
        if self.1 >= self.2 {
            return None;
        }
        self.2 -= 1;
        let metadata = &$0::FIELDS[self.2];
        let shifted_mask = $1::MAX
            >> ($1::BITS as usize - 1 - (metadata.high_bit - metadata.low_bit));
        let value = (self.0 >> metadata.low_bit) & shifted_mask;
        Some((metadata, value))
    }
}

impl $0 {
    /// Returns an iterator over
    /// ([metadata][`bitfld::FieldMetadata`], value) pairs for each
    /// field.
    pub fn iter(&self) -> $2 {
        $2(self.0, 0, Self::NUM_FIELDS)
    }
}

impl ::core::iter::IntoIterator for $0 {
    type Item = (&'static ::bitfld::FieldMetadata<$1>, $1);
    type IntoIter = $2;

    fn into_iter(self) -> Self::IntoIter { $2(self.0, 0, Self::NUM_FIELDS) }
}

impl<'a> ::core::iter::IntoIterator for &'a $0 {
    type Item = (&'static ::bitfld::FieldMetadata<$1>, $1);
    type IntoIter = $2;

    fn into_iter(self) -> Self::IntoIter { $2(self.0, 0, $0::NUM_FIELDS) }
}
";

/// The whole of a layout: the struct, its name, the constants, the accessors, the base type,
/// the iterators, and the formatting.
pub const LAYOUT: &'static str = "
#[derive(Copy, Clone, Eq, PartialEq)]
$0

impl $1 {
    $2

    /// Creates a new instance with reserved-as-1 bits set and
    /// all other bits zeroed (i.e., with a value of
    /// [`Self::RSVD1_MASK`]).
    pub const fn new() -> Self {
        Self(Self::RSVD1_MASK)
    }

    $3
}

impl ::core::default::Default for $1 {
    /// Returns an instance with the default bits set (i.e,. with a
    /// value of [`Self::DEFAULT`].
    fn default() -> Self {
        Self(Self::DEFAULT)
    }
}

impl ::core::convert::From<$4> for $1 {
    // `RSVD{0,1}_MASK` may be zero, in which case the following
    // mask conditions might be trivially true.
    #[allow(clippy::bad_bit_mask)]
    fn from(value: $4) -> Self {
        debug_assert!(
            value & Self::RSVD1_MASK == Self::RSVD1_MASK,
            \"from(): Invalid base value ({value:#x}) has reserved-as-1 bits ({:#x}) unset\",
            Self::RSVD1_MASK,
        );
        debug_assert!(
            !value & Self::RSVD0_MASK == Self::RSVD0_MASK,
            \"from(): Invalid base value ({value:#x}) has reserved-as-0 bits ({:#x}) set\",
            Self::RSVD0_MASK,
        );
        Self(value)
    }
}

impl ::core::ops::Deref for $1 {
    type Target = $4;

    fn deref(&self) -> &Self::Target {
        &self.0
    }
}

impl ::core::ops::DerefMut for $1 {
    fn deref_mut(&mut self) -> &mut Self::Target {
        &mut self.0
    }
}

$5

$6
";

/// Writes the representation of a field's values that `item` defines, over the integral type
/// `attr`.
pub fn bitfield_repr(attr: &str, item: &str) -> (r: String)
    ensures
        r@ == fill_of(BITFIELD_REPR@, seq![attr@, item@]),
{
    let args = vec![attr, item];
    proof {
        assert(args.deep_view() =~= seq![attr@, item@]);
    }
    fill(BITFIELD_REPR, &args)
}

/// The struct of a layout. Without a `repr` of its own it is transparent.
pub open spec fn struct_text_of(ty: TypeDef<Chars, Texts>) -> Chars {
    concat_of(ty.attrs) + (if ty.repr {
        ""@
    } else {
        "#[repr(transparent)] "@
    }) + ty.body
}

/// Writes the struct of a layout.
fn struct_text(ty: &TypeDef<String, Vec<String>>) -> (r: String)
    ensures
        r@ == struct_text_of(ty.deep_view()),
{
    let mut r = concat_all(&ty.attrs);
    r.append(
        if ty.repr {
            ""
        } else {
            "#[repr(transparent)] "
        },
    );
    r.append(ty.body.as_str());
    r
}

/// The iterators of a layout.
pub open spec fn iter_impl_of(layout: LayoutView) -> Chars {
    fill_of(
        ITERATORS@,
        seq![
            layout.ty.ident,
            layout.ty.base.def,
            bare_of(layout.ty.ident) + "Iter"@,
            layout.ty.vis,
        ],
    )
}

/// The accessors of a field of the given type.
pub open spec fn accessors_in(ty: TypeDef<Chars, Texts>) -> spec_fn(Field) -> Chars {
    |f: Field| accessors_of(f, ty)
}

/// Writes the accessors of named fields of the given type.
struct Accessors<'a>(&'a TypeDef<String, Vec<String>>);

impl<'a> Piece for Accessors<'a> {
    closed spec fn admits(&self, f: Field) -> bool {
        f.name is Some && f.well_formed() && f.width() <= 128
    }

    closed spec fn of(&self) -> spec_fn(Field) -> Chars {
        accessors_in(self.0.deep_view())
    }

    fn write(&self, f: &Bitfield<String, Vec<String>>) -> (r: String) {
        f.getter_and_setter(self.0)
    }
}

/// The source text of a layout.
pub open spec fn expansion_of(layout: LayoutView) -> Chars {
    fill_of(
        LAYOUT@,
        seq![
            struct_text_of(layout.ty),
            layout.ty.ident,
            constants_of(layout),
            concat_of(layout.named.map_values(accessors_in(layout.ty))),
            layout.ty.base.def,
            iter_impl_of(layout),
            fmt_impls_of(layout),
        ],
    )
}

impl Layout {
    /// Writes the iterators over the metadata and the value of each field.
    pub fn iter_impl(&self) -> (r: String)
        ensures
            r@ == iter_impl_of(self.deep_view()),
    {
        let iter_type = join(bare(self.ty.ident.as_str()).as_str(), "Iter");
        let args = vec![
            self.ty.ident.as_str(),
            self.ty.base.def.as_str(),
            iter_type.as_str(),
            self.ty.vis.as_str(),
        ];
        proof {
            assert(args.deep_view() =~= seq![
                self.ty.ident@,
                self.ty.base.def@,
                iter_type@,
                self.ty.vis@,
            ]);
        }
        fill(ITERATORS, &args)
    }

    /// Writes the accessors of all named fields.
    pub fn getters_and_setters(&self) -> (r: String)
        requires
            self.deep_view().well_formed(),
        ensures
            r@ == concat_of(
                self.deep_view().named.map_values(accessors_in(self.deep_view().ty)),
            ),
    {
        each(&Accessors(&self.ty), &self.named)
    }

    /// Appends the source text of the layout: the struct, its constants, constructors,
    /// accessors and conversions, its iterators, and its formatting.
    pub fn to_tokens(&self, tokens: &mut String)
        requires
            self.deep_view().well_formed(),
            self.deep_view().names_constants(),
        ensures
            final(tokens)@ == old(tokens)@ + expansion_of(self.deep_view()),
    {
        let type_def = struct_text(&self.ty);
        let constants = self.constants();
        let getters_and_setters = self.getters_and_setters();
        let iter_impl = self.iter_impl();
        let fmt_impls = self.fmt_impls();
        let args = vec![
            type_def.as_str(),
            self.ty.ident.as_str(),
            constants.as_str(),
            getters_and_setters.as_str(),
            self.ty.base.def.as_str(),
            iter_impl.as_str(),
            fmt_impls.as_str(),
        ];
        proof {
            assert(args.deep_view() =~= seq![
                type_def@,
                self.ty.ident@,
                constants@,
                getters_and_setters@,
                self.ty.base.def@,
                iter_impl@,
                fmt_impls@,
            ]);
        }
        tokens.append(fill(LAYOUT, &args).as_str());
    }
}

/// The first of the named fields whose name is a raw identifier.
pub open spec fn first_raw(fields: Seq<Field>) -> Option<Chars>
    decreases fields.len(),
{
    if fields.len() == 0 {
        None
    } else if first_raw(fields.drop_last()) is Some {
        first_raw(fields.drop_last())
    } else {
        match fields.last().name {
            Some(name) if is_raw(name) => Some(name),
            _ => None,
        }
    }
}

/// The first raw name of some fields is that of more fields.
proof fn lemma_first_raw_prefix(fields: Seq<Field>, i: int)
    requires
        0 <= i <= fields.len(),
        first_raw(fields.take(i)) is Some,
    ensures
        first_raw(fields) == first_raw(fields.take(i)),
    decreases fields.len(),
{
    if i == fields.len() {
        assert(fields.take(i) =~= fields);
    } else {
        assert(fields.drop_last().take(i) =~= fields.take(i));
        lemma_first_raw_prefix(fields.drop_last(), i);
    }
}

/// Looks for a raw name.
fn find_raw(fields: &Vec<Bitfield<String, Vec<String>>>) -> (r: Option<String>)
    ensures
        r.deep_view() == first_raw(fields.deep_view()),
        r is None ==> forall|i: int|
            0 <= i < fields.deep_view().len() ==> match (#[trigger] fields.deep_view()[i]).name {
                Some(name) => !is_raw(name),
                None => true,
            },
{
    let ghost all = fields.deep_view();
    let mut i: usize = 0;
    while i < fields.len()
        invariant
            all == fields.deep_view(),
            i <= fields.len(),
            first_raw(all.take(i as int)) is None,
            forall|j: int|
                0 <= j < i ==> match (#[trigger] all[j]).name {
                    Some(name) => !is_raw(name),
                    None => true,
                },
        decreases fields.len() - i,
    {
        proof {
            assert(all[i as int] == fields[i as int].deep_view());
            assert(all.take(i + 1).drop_last() =~= all.take(i as int));
            assert(all.take(i + 1).last() == all[i as int]);
        }
        if let Some(name) = &fields[i].name {
            if check_raw(name.as_str()) {
                proof {
                    lemma_first_raw_prefix(all, i + 1);
                }
                return Some(name.clone());
            }
        }
        i = i + 1;
    }
    proof {
        assert(all.take(i as int) =~= all);
    }
    None
}

/// The source text that the layout in `text` stands for. No constant can be named after a raw
/// identifier.
pub open spec fn expanded_of(text: Chars) -> Result<Chars, Error<Chars>> {
    match layout_of(text) {
        Err(e) => Err(e),
        Ok(layout) => match first_raw(layout.named) {
            Some(name) => Err(Error::RawName(uppercase_of(name))),
            None => Ok(expansion_of(layout)),
        },
    }
}

/// Writes the source text that a layout stands for.
pub fn layout(text: &str) -> (r: Result<String, Error<String>>)
    ensures
        outcome(r) == expanded_of(text@),
{
    match Layout::parse(text) {
        Ok(layout) => {
            if let Some(name) = find_raw(&layout.named) {
                return Err(Error::RawName(uppercase(name.as_str())));
            }
            let mut tokens = String::new();
            layout.to_tokens(&mut tokens);
            Ok(tokens)
        },
        Err(e) => Err(e),
    }
}

} // verus!
