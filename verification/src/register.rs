//! Layouts at work: masks, defaults, and the accessors of a word.

use crate::base::BaseType;
use crate::bitfield::{Bitfield, Field};
use crate::layout::{Layout, LayoutView};
use crate::syntax::Chars;
use crate::text::same;
use crate::word::{
    bit, bit_mask, field_of, fits, mask_of, ones, shifted_mask, up, with_field, with_unshifted,
};
use vstd::prelude::*;

verus! {

/// What is known of a named field. Contracts speak of `FieldMetadata<Seq<char>>`.
pub struct FieldMetadata<T> {
    pub name: T,
    pub high_bit: usize,
    pub low_bit: usize,
    /// The default; 0 if there is none.
    pub default: u128,
}

impl DeepView for FieldMetadata<String> {
    type V = FieldMetadata<Chars>;

    open spec fn deep_view(&self) -> FieldMetadata<Chars> {
        FieldMetadata {
            name: self.name@,
            high_bit: self.high_bit,
            low_bit: self.low_bit,
            default: self.default,
        }
    }
}

/// A named field of a register.
pub struct RegisterField<T> {
    pub metadata: FieldMetadata<T>,
    /// Whether the field has a default of its own.
    pub has_default: bool,
    /// Whether the accessors leave the field's bits where they are.
    pub unshifted: bool,
    /// Whether a type of its own represents the field's values.
    pub has_repr: bool,
}

impl DeepView for RegisterField<String> {
    type V = RegisterField<Chars>;

    open spec fn deep_view(&self) -> RegisterField<Chars> {
        RegisterField {
            metadata: self.metadata.deep_view(),
            has_default: self.has_default,
            unshifted: self.unshifted,
            has_repr: self.has_repr,
        }
    }
}

impl<T> RegisterField<T> {
    /// The high bit, in contracts.
    pub open spec fn high(self) -> int {
        self.metadata.high_bit as int
    }

    /// The low bit, in contracts.
    pub open spec fn low(self) -> int {
        self.metadata.low_bit as int
    }

    /// The number of bits.
    pub open spec fn width(self) -> int {
        self.high() - self.low() + 1
    }

    /// Whether bit `i` is one of the field's.
    pub open spec fn covers(self, i: int) -> bool {
        self.low() <= i <= self.high()
    }

    /// Whether the accessors are those of a single bit.
    pub open spec fn is_flag(self) -> bool {
        self.width() == 1 && !self.unshifted
    }
}

/// A reserved field that has a value.
#[derive(Clone, Copy)]
pub struct Reserved {
    pub high_bit: usize,
    pub low_bit: usize,
    pub value: u128,
}

impl Reserved {
    /// Whether bit `i` is one of the field's.
    pub open spec fn covers(self, i: int) -> bool {
        self.low_bit <= i <= self.high_bit
    }
}

/// A layout whose defaults have been evaluated.
pub struct Register {
    /// The name of the layout's type.
    pub name: String,
    pub base: BaseType,
    pub fields: Vec<RegisterField<String>>,
    pub reserved: Vec<Reserved>,
}

/// A layout whose defaults have been evaluated, in contracts.
pub struct RegisterView {
    pub name: Chars,
    pub base: BaseType,
    pub fields: Seq<RegisterField<Chars>>,
    pub reserved: Seq<Reserved>,
}

impl DeepView for Register {
    type V = RegisterView;

    open spec fn deep_view(&self) -> RegisterView {
        RegisterView {
            name: self.name@,
            base: self.base,
            fields: self.fields.deep_view(),
            reserved: self.reserved@,
        }
    }
}

/// A default that does not fit its field.
#[derive(Clone, Copy, Debug, PartialEq, Eq, Structural)]
pub enum DefaultError {
    /// That of the named field of the given index.
    Named(usize),
    /// That of the reserved field of the given index.
    Reserved(usize),
}

/// A number as one of the base type, as `as` converts it.
pub open spec fn cast(base: BaseType, v: u128) -> u128 {
    v & ones(base.bits() as int)
}

/// A number of the base type moved up to bit `low`, in a word of that type.
pub open spec fn placed(base: BaseType, v: u128, low: int) -> u128 {
    cast(base, up(cast(base, v), low))
}

/// Whether a number, moved to where its field stands, stays within that field.
pub open spec fn stays(base: BaseType, v: u128, high: int, low: int) -> bool {
    placed(base, v, low) & !mask_of(high, low) == 0
}

/// The field of a register that a named field of a layout becomes.
pub open spec fn register_field_of(base: BaseType, f: Field, default: u128) -> RegisterField<
    Chars,
> {
    RegisterField {
        metadata: FieldMetadata {
            name: f.name->0,
            high_bit: f.high_bit,
            low_bit: f.low_bit,
            default: if f.default is Some {
                cast(base, default)
            } else {
                0
            },
        },
        has_default: f.default is Some,
        unshifted: f.unshifted,
        has_repr: f.repr is Some,
    }
}

/// The reserved field of a register that one of a layout becomes.
pub open spec fn reserved_of(base: BaseType, f: Field, value: u128) -> Reserved {
    Reserved { high_bit: f.high_bit, low_bit: f.low_bit, value: cast(base, value) }
}

/// Whether the default of a field, if it has one, fits.
pub open spec fn default_fits(base: BaseType, f: Field, default: u128) -> bool {
    f.default is Some ==> stays(base, default, f.high_bit as int, f.low_bit as int)
}

/// The first of the first `n` fields whose default does not fit.
pub open spec fn first_misfit(
    base: BaseType,
    fields: Seq<Field>,
    values: Seq<u128>,
    n: int,
) -> Option<int>
    decreases n,
{
    if n <= 0 {
        None
    } else if first_misfit(base, fields, values, n - 1) is Some {
        first_misfit(base, fields, values, n - 1)
    } else if !default_fits(base, fields[n - 1], values[n - 1]) {
        Some(n - 1)
    } else {
        None
    }
}

/// The register of a layout. `defaults` holds the values of the named fields' defaults,
/// `values` those of the reserved fields.
pub open spec fn register_of(
    layout: LayoutView,
    defaults: Seq<u128>,
    values: Seq<u128>,
) -> Result<RegisterView, DefaultError> {
    let base = layout.base();
    match (
        first_misfit(base, layout.named, defaults, layout.named.len() as int),
        first_misfit(base, layout.reserved, values, layout.reserved.len() as int),
    ) {
        (Some(i), _) => Err(DefaultError::Named(i as usize)),
        (None, Some(i)) => Err(DefaultError::Reserved(i as usize)),
        (None, None) => Ok(
            RegisterView {
                name: layout.ty.ident,
                base,
                fields: Seq::new(
                    layout.named.len(),
                    |i: int| register_field_of(base, layout.named[i], defaults[i]),
                ),
                reserved: Seq::new(
                    layout.reserved.len(),
                    |i: int| reserved_of(base, layout.reserved[i], values[i]),
                ),
            },
        ),
    }
}

impl RegisterView {
    /// What holds of every register: its fields fit the base type and share no bit, those
    /// with a name descend, and the defaults stay within their fields.
    pub open spec fn well_formed(self) -> bool {
        &&& forall|i: int|
            0 <= i < self.fields.len() ==> {
                let f = #[trigger] self.fields[i];
                &&& f.low() <= f.high() < self.base.bits()
                &&& fits(f.metadata.default, self.base.bits() as int)
                &&& f.has_default ==> stays(self.base, f.metadata.default, f.high(), f.low())
                &&& !f.has_default ==> f.metadata.default == 0
                &&& f.has_repr ==> f.width() > 1 && !f.unshifted
            }
        &&& forall|i: int|
            0 <= i < self.reserved.len() ==> {
                let f = #[trigger] self.reserved[i];
                &&& f.low_bit <= f.high_bit < self.base.bits()
                &&& fits(f.value, self.base.bits() as int)
                &&& stays(self.base, f.value, f.high_bit as int, f.low_bit as int)
            }
        &&& forall|i: int, j: int|
            0 <= i < j < self.fields.len() ==> (#[trigger] self.fields[i]).low() > (
            #[trigger] self.fields[j]).high()
        &&& forall|i: int, j: int|
            0 <= i < j < self.reserved.len() ==> (#[trigger] self.reserved[i]).low_bit > (
            #[trigger] self.reserved[j]).high_bit
        &&& forall|i: int, j: int|
            0 <= i < self.fields.len() && 0 <= j < self.reserved.len() ==> {
                let f = #[trigger] self.fields[i];
                let r = #[trigger] self.reserved[j];
                f.high() < r.low_bit || r.high_bit < f.low()
            }
    }

    /// The bits that reserved field `i` has set.
    pub open spec fn reserved_bits(self, i: int) -> u128 {
        placed(self.base, self.reserved[i].value, self.reserved[i].low_bit as int)
    }

    /// The mask of reserved field `i`.
    pub open spec fn reserved_mask(self, i: int) -> u128 {
        mask_of(self.reserved[i].high_bit as int, self.reserved[i].low_bit as int)
    }

    /// The reserved-as-1 bits of the first `n` reserved fields.
    pub open spec fn rsvd1_of(self, n: int) -> u128
        decreases n,
    {
        if n <= 0 {
            0
        } else {
            self.rsvd1_of(n - 1) | self.reserved_bits(n - 1)
        }
    }

    /// The reserved-as-0 bits of the first `n` reserved fields.
    pub open spec fn rsvd0_of(self, n: int) -> u128
        decreases n,
    {
        if n <= 0 {
            0
        } else {
            self.rsvd0_of(n - 1) | (!self.reserved_bits(n - 1) & self.reserved_mask(n - 1))
        }
    }

    /// The mask of all reserved-as-1 bits.
    pub open spec fn rsvd1(self) -> u128 {
        self.rsvd1_of(self.reserved.len() as int)
    }

    /// The mask of all reserved-as-0 bits.
    pub open spec fn rsvd0(self) -> u128 {
        self.rsvd0_of(self.reserved.len() as int)
    }

    /// The default of field `i`, moved to where the field stands.
    pub open spec fn default_bits(self, i: int) -> u128 {
        placed(self.base, self.fields[i].metadata.default, self.fields[i].low())
    }

    /// The reserved-as-1 bits with the defaults of the first `n` fields.
    pub open spec fn default_of(self, n: int) -> u128
        decreases n,
    {
        if n <= 0 {
            self.rsvd1()
        } else if self.fields[n - 1].has_default {
            self.default_of(n - 1) | self.default_bits(n - 1)
        } else {
            self.default_of(n - 1)
        }
    }

    /// The default value of the layout: the reserved-as-1 bits and the fields' defaults.
    pub open spec fn default_word(self) -> u128 {
        self.default_of(self.fields.len() as int)
    }

    /// Whether a word has the reserved bits as they are meant.
    pub open spec fn respects(self, v: u128) -> bool {
        v & self.rsvd1() == self.rsvd1() && !v & self.rsvd0() == self.rsvd0()
    }

    /// The value of field `i` in a word, moved down to bit 0.
    pub open spec fn value_of(self, v: u128, i: int) -> u128 {
        field_of(v, self.fields[i].high(), self.fields[i].low())
    }

    /// What the getter of field `i` returns of a word.
    pub open spec fn get_of(self, v: u128, i: int) -> u128 {
        let f = self.fields[i];
        if f.unshifted {
            v & mask_of(f.high(), f.low())
        } else {
            field_of(v, f.high(), f.low())
        }
    }

    /// What the setter of field `i` makes of a word.
    pub open spec fn set_of(self, v: u128, i: int, x: u128) -> u128 {
        let f = self.fields[i];
        if f.unshifted {
            with_unshifted(v, f.high(), f.low(), x)
        } else {
            with_field(v, f.high(), f.low(), x)
        }
    }
}

/// Converting a number twice is converting it once.
proof fn lemma_cast_twice(base: BaseType, v: u128)
    ensures
        cast(base, cast(base, v)) == cast(base, v),
        fits(cast(base, v), base.bits() as int),
{
    let m = ones(base.bits() as int);
    assert((v & m) & m == v & m && (v & m) & !m == 0) by (bit_vector);
}

/// No earlier misfit, no misfit: every default fits.
proof fn lemma_no_misfit(base: BaseType, fields: Seq<Field>, values: Seq<u128>, n: int)
    requires
        first_misfit(base, fields, values, n) is None,
    ensures
        forall|i: int| 0 <= i < n ==> default_fits(base, #[trigger] fields[i], values[i]),
    decreases n,
{
    if n > 0 {
        lemma_no_misfit(base, fields, values, n - 1);
    }
}

/// The first misfit of some fields is that of more fields.
proof fn lemma_misfit_prefix(base: BaseType, fields: Seq<Field>, values: Seq<u128>, m: int, n: int)
    requires
        m <= n,
        first_misfit(base, fields, values, m) is Some,
    ensures
        first_misfit(base, fields, values, n) == first_misfit(base, fields, values, m),
    decreases n,
{
    if m < n {
        lemma_misfit_prefix(base, fields, values, m, n - 1);
    }
}

/// The register of a well formed layout is well formed.
pub proof fn register_is_well_formed(layout: LayoutView, defaults: Seq<u128>, values: Seq<u128>)
    requires
        layout.well_formed(),
    ensures
        register_of(layout, defaults, values) matches Ok(r) ==> r.well_formed(),
{
    if let Ok(r) = register_of(layout, defaults, values) {
        let base = layout.base();
        lemma_no_misfit(base, layout.named, defaults, layout.named.len() as int);
        lemma_no_misfit(base, layout.reserved, values, layout.reserved.len() as int);
        assert forall|i: int| 0 <= i < r.fields.len() implies {
            let f = #[trigger] r.fields[i];
            &&& f.low() <= f.high() < base.bits()
            &&& fits(f.metadata.default, base.bits() as int)
            &&& f.has_default ==> stays(base, f.metadata.default, f.high(), f.low())
            &&& !f.has_default ==> f.metadata.default == 0
            &&& f.has_repr ==> f.width() > 1 && !f.unshifted
        } by {
            let f = layout.named[i];
            assert(f.well_formed());
            assert(default_fits(base, layout.named[i], defaults[i]));
            lemma_cast_twice(base, defaults[i]);
            let m = ones(base.bits() as int);
            assert(0u128 & !m == 0) by (bit_vector);
        }
        assert forall|i: int| 0 <= i < r.reserved.len() implies {
            let f = #[trigger] r.reserved[i];
            &&& f.low_bit <= f.high_bit < base.bits()
            &&& fits(f.value, base.bits() as int)
            &&& stays(base, f.value, f.high_bit as int, f.low_bit as int)
        } by {
            assert(layout.reserved[i].well_formed());
            assert(default_fits(base, layout.reserved[i], values[i]));
            lemma_cast_twice(base, values[i]);
        }
        assert forall|i: int, j: int| 0 <= i < j < r.fields.len() implies (
        #[trigger] r.fields[i]).low() > (#[trigger] r.fields[j]).high() by {
            assert(layout.named[i].low_bit > layout.named[j].high_bit);
        }
        assert forall|i: int, j: int| 0 <= i < j < r.reserved.len() implies (
        #[trigger] r.reserved[i]).low_bit > (#[trigger] r.reserved[j]).high_bit by {
            assert(layout.reserved[i].low_bit > layout.reserved[j].high_bit);
        }
        assert forall|i: int, j: int|
            0 <= i < r.fields.len() && 0 <= j < r.reserved.len() implies {
            let f = #[trigger] r.fields[i];
            let g = #[trigger] r.reserved[j];
            f.high() < g.low_bit || g.high_bit < f.low()
        } by {
            assert(crate::layout::disjoint(layout.named[i], layout.reserved[j]));
        }
    }
}

/// The mask of a whole word of a type.
fn base_mask(base: BaseType) -> (r: u128)
    ensures
        r == ones(base.bits() as int),
{
    shifted_mask(base.high_bit(), 0)
}

/// Moves a number to where its field stands.
fn place(base: BaseType, v: u128, low: usize) -> (r: u128)
    requires
        low < base.bits(),
    ensures
        r == placed(base, v, low as int),
{
    let m = base_mask(base);
    ((v & m) << (low as u128)) & m
}

/// Looks for a default that does not fit its field.
fn find_misfit(base: BaseType, fields: &Vec<Bitfield<String, Vec<String>>>, values: &Vec<u128>)
    -> (r: Option<usize>)
    requires
        values.len() == fields.len(),
        forall|i: int|
            0 <= i < fields.deep_view().len() ==> {
                let f = #[trigger] fields.deep_view()[i];
                f.well_formed() && f.high_bit < base.bits()
            },
    ensures
        match r {
            Some(i) => first_misfit(base, fields.deep_view(), values@, fields.len() as int) == Some(
                i as int,
            ),
            None => first_misfit(base, fields.deep_view(), values@, fields.len() as int) is None,
        },
{
    let ghost all = fields.deep_view();
    let mut i: usize = 0;
    while i < fields.len()
        invariant
            all == fields.deep_view(),
            values.len() == fields.len(),
            i <= fields.len(),
            first_misfit(base, all, values@, i as int) is None,
            forall|i: int|
                0 <= i < all.len() ==> {
                    let f = #[trigger] all[i];
                    f.well_formed() && f.high_bit < base.bits()
                },
        decreases fields.len() - i,
    {
        let f = &fields[i];
        proof {
            assert(all[i as int] == f.deep_view());
        }
        if f.default.is_some() {
            let mask = shifted_mask(f.high_bit, f.low_bit) << (f.low_bit as u128);
            if place(base, values[i], f.low_bit) & !mask != 0 {
                proof {
                    lemma_misfit_prefix(base, all, values@, i + 1, fields.len() as int);
                }
                return Some(i);
            }
        }
        i = i + 1;
    }
    None
}

impl Register {
    /// Evaluates a layout, given the value of each named field's default and of each reserved
    /// field; an entry for a field without a default is not looked at. Every value must stay
    /// within its field.
    pub fn from_layout(layout: &Layout, defaults: &Vec<u128>, values: &Vec<u128>) -> (r: Result<
        Register,
        DefaultError,
    >)
        requires
            layout.deep_view().well_formed(),
            defaults.len() == layout.named.len(),
            values.len() == layout.reserved.len(),
        ensures
            match r {
                Ok(register) => register_of(layout.deep_view(), defaults@, values@) == Ok::<
                    _,
                    DefaultError,
                >(register.deep_view()) && register.deep_view().well_formed(),
                Err(e) => register_of(layout.deep_view(), defaults@, values@) == Err::<
                    RegisterView,
                    _,
                >(e),
            },
    {
        let ghost lv = layout.deep_view();
        let base = layout.ty.base.ty;
        if let Some(i) = find_misfit(base, &layout.named, defaults) {
            return Err(DefaultError::Named(i));
        }
        if let Some(i) = find_misfit(base, &layout.reserved, values) {
            return Err(DefaultError::Reserved(i));
        }
        let m = base_mask(base);
        let mut fields: Vec<RegisterField<String>> = Vec::new();
        let mut i: usize = 0;
        while i < layout.named.len()
            invariant
                lv == layout.deep_view(),
                lv.well_formed(),
                base == lv.base(),
                m == ones(base.bits() as int),
                defaults.len() == layout.named.len(),
                i <= layout.named.len(),
                fields.len() == i,
                forall|j: int|
                    0 <= j < i ==> (#[trigger] fields[j]).deep_view() == register_field_of(
                        base,
                        lv.named[j],
                        defaults[j],
                    ),
            decreases layout.named.len() - i,
        {
            let f = &layout.named[i];
            proof {
                assert(lv.named[i as int] == f.deep_view());
            }
            let name = match &f.name {
                Some(name) => name.clone(),
                None => String::new(),
            };
            let has_default = f.default.is_some();
            let default: u128 = if has_default {
                defaults[i] & m
            } else {
                0
            };
            let metadata = FieldMetadata {
                name,
                high_bit: f.high_bit,
                low_bit: f.low_bit,
                default,
            };
            let field = RegisterField {
                metadata,
                has_default,
                unshifted: f.unshifted,
                has_repr: f.repr.is_some(),
            };
            fields.push(field);
            i = i + 1;
        }
        let mut reserved: Vec<Reserved> = Vec::new();
        let mut i: usize = 0;
        while i < layout.reserved.len()
            invariant
                lv == layout.deep_view(),
                base == lv.base(),
                m == ones(base.bits() as int),
                values.len() == layout.reserved.len(),
                i <= layout.reserved.len(),
                reserved.len() == i,
                forall|j: int|
                    0 <= j < i ==> #[trigger] reserved[j] == reserved_of(
                        base,
                        lv.reserved[j],
                        values[j],
                    ),
            decreases layout.reserved.len() - i,
        {
            let f = &layout.reserved[i];
            proof {
                assert(lv.reserved[i as int] == f.deep_view());
            }
            reserved.push(
                Reserved { high_bit: f.high_bit, low_bit: f.low_bit, value: values[i] & m },
            );
            i = i + 1;
        }
        let register = Register { name: layout.ty.ident.clone(), base, fields, reserved };
        proof {
            let rv = register_of(lv, defaults@, values@)->Ok_0;
            assert(register.deep_view().fields =~= rv.fields);
            assert(register.deep_view().reserved =~= rv.reserved);
            register_is_well_formed(lv, defaults@, values@);
        }
        Ok(register)
    }

    /// The mask of all reserved-as-1 bits.
    pub fn rsvd1_mask(&self) -> (r: u128)
        requires
            self.deep_view().well_formed(),
        ensures
            r == self.deep_view().rsvd1(),
    {
        let ghost rv = self.deep_view();
        let mut v: u128 = 0;
        let mut i: usize = 0;
        while i < self.reserved.len()
            invariant
                rv == self.deep_view(),
                rv.well_formed(),
                i <= self.reserved.len(),
                v == rv.rsvd1_of(i as int),
            decreases self.reserved.len() - i,
        {
            let f = self.reserved[i];
            proof {
                assert(rv.reserved[i as int] == f);
            }
            v = v | place(self.base, f.value, f.low_bit);
            i = i + 1;
        }
        v
    }

    /// The mask of all reserved-as-0 bits.
    pub fn rsvd0_mask(&self) -> (r: u128)
        requires
            self.deep_view().well_formed(),
        ensures
            r == self.deep_view().rsvd0(),
    {
        let ghost rv = self.deep_view();
        let mut v: u128 = 0;
        let mut i: usize = 0;
        while i < self.reserved.len()
            invariant
                rv == self.deep_view(),
                rv.well_formed(),
                i <= self.reserved.len(),
                v == rv.rsvd0_of(i as int),
            decreases self.reserved.len() - i,
        {
            let f = self.reserved[i];
            proof {
                assert(rv.reserved[i as int] == f);
            }
            let mask = shifted_mask(f.high_bit, f.low_bit) << (f.low_bit as u128);
            v = v | (!place(self.base, f.value, f.low_bit) & mask);
            i = i + 1;
        }
        v
    }

    /// The default value of the layout, combining all field defaults and reserved-as values.
    pub fn default_word(&self) -> (r: u128)
        requires
            self.deep_view().well_formed(),
        ensures
            r == self.deep_view().default_word(),
    {
        let ghost rv = self.deep_view();
        let mut v: u128 = self.rsvd1_mask();
        let mut i: usize = 0;
        while i < self.fields.len()
            invariant
                rv == self.deep_view(),
                rv.well_formed(),
                i <= self.fields.len(),
                v == rv.default_of(i as int),
            decreases self.fields.len() - i,
        {
            let f = &self.fields[i];
            proof {
                assert(rv.fields[i as int] == f.deep_view());
            }
            if f.has_default {
                v = v | place(self.base, f.metadata.default, f.metadata.low_bit);
            }
            i = i + 1;
        }
        v
    }

    /// The bits that the reserved field at the given bits has set, if there is such a field.
    pub fn reserved_bits(&self, high_bit: usize, low_bit: usize) -> (r: Option<u128>)
        requires
            self.deep_view().well_formed(),
        ensures
            match r {
                Some(v) => exists|i: int|
                    0 <= i < self.reserved.len() && self.reserved[i].high_bit == high_bit
                        && self.reserved[i].low_bit == low_bit && v
                        == #[trigger] self.deep_view().reserved_bits(i),
                None => forall|i: int|
                    0 <= i < self.reserved.len() ==> !((#[trigger] self.reserved[i]).high_bit
                        == high_bit && self.reserved[i].low_bit == low_bit),
            },
    {
        let ghost rv = self.deep_view();
        let mut i: usize = 0;
        while i < self.reserved.len()
            invariant
                rv == self.deep_view(),
                rv.well_formed(),
                i <= self.reserved.len(),
                forall|j: int|
                    0 <= j < i ==> !((#[trigger] self.reserved[j]).high_bit == high_bit
                        && self.reserved[j].low_bit == low_bit),
            decreases self.reserved.len() - i,
        {
            let f = self.reserved[i];
            proof {
                assert(rv.reserved[i as int] == f);
            }
            if f.high_bit == high_bit && f.low_bit == low_bit {
                let v = place(self.base, f.value, f.low_bit);
                proof {
                    assert(v == rv.reserved_bits(i as int));
                }
                return Some(v);
            }
            i = i + 1;
        }
        None
    }

    /// The unshifted bitmask of field `i`.
    pub fn mask(&self, i: usize) -> (r: u128)
        requires
            self.deep_view().well_formed(),
            i < self.fields.len(),
        ensures
            r == mask_of(
                self.deep_view().fields[i as int].high(),
                self.deep_view().fields[i as int].low(),
            ),
            forall|k: int| #[trigger] bit(r, k) <==> self.deep_view().fields[i as int].covers(k),
    {
        let f = &self.fields[i];
        proof {
            assert(self.deep_view().fields[i as int] == f.deep_view());
        }
        let r = shifted_mask(f.metadata.high_bit, f.metadata.low_bit) << (
        f.metadata.low_bit as u128);
        proof {
            assert(r == mask_of(f.high(), f.low()));
            assert forall|k: int| #[trigger] bit(r, k) <==> f.covers(k) by {
                bit_mask(f.high(), f.low(), k);
            }
        }
        r
    }

    /// The bit shift of field `i`: its low bit.
    pub fn shift(&self, i: usize) -> (r: usize)
        requires
            i < self.fields.len(),
        ensures
            r == self.deep_view().fields[i as int].low(),
    {
        self.fields[i].metadata.low_bit
    }

    /// The pre-shifted default of field `i`, if it has one.
    pub fn field_default(&self, i: usize) -> (r: Option<u128>)
        requires
            self.deep_view().well_formed(),
            i < self.fields.len(),
        ensures
            r == (if self.deep_view().fields[i as int].has_default {
                Some(self.deep_view().default_bits(i as int))
            } else {
                None
            }),
    {
        let f = &self.fields[i];
        proof {
            assert(self.deep_view().fields[i as int] == f.deep_view());
        }
        if f.has_default {
            Some(place(self.base, f.metadata.default, f.metadata.low_bit))
        } else {
            None
        }
    }

    /// The index of the first field of the given name.
    pub fn index_of(&self, name: &str) -> (r: Option<usize>)
        ensures
            match r {
                Some(i) => i < self.fields.len() && self.fields[i as int].metadata.name@ == name@
                    && forall|j: int|
                    0 <= j < i ==> (#[trigger] self.fields[j]).metadata.name@ != name@,
                None => forall|j: int|
                    0 <= j < self.fields.len() ==> (#[trigger] self.fields[j]).metadata.name@
                        != name@,
            },
    {
        let mut i: usize = 0;
        while i < self.fields.len()
            invariant
                i <= self.fields.len(),
                forall|j: int| 0 <= j < i ==> (#[trigger] self.fields[j]).metadata.name@ != name@,
            decreases self.fields.len() - i,
        {
            if same(self.fields[i].metadata.name.as_str(), name) {
                return Some(i);
            }
            i = i + 1;
        }
        None
    }
}

} // verus!
