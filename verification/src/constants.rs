//! The source text of a layout's constants.

use crate::accessors::is_raw;
use crate::bitfield::{Bitfield, Field};
use crate::layout::{Layout, LayoutView};
use crate::pieces::{Piece, each};
use crate::syntax::Chars;
use crate::text::{
    concat_of, decimal, decimal_of, fill, fill_of, quoted, quoted_of, suffixed, suffixed_of,
    uppercase, uppercase_of,
};
use vstd::prelude::*;

verus! {

/// The constants of every named field: the doc of the mask, the field's name in upper case,
/// the base type, the mask, the low bit, and the doc of the shift.
pub const FIELD_CONSTANTS: &'static str = "
#[doc = $0]
pub const $1_MASK: $2 = ($3 << $4);
#[doc = $5]
pub const $1_SHIFT: usize = $4;
";

/// The constant of a default: its doc, the field's name in upper case, the base type, the
/// default, and the low bit.
pub const DEFAULT_CONSTANT: &'static str = "
#[doc = $0]
pub const $1_DEFAULT: $2 = (($3) as $2) << $4;
";

/// The mask of a field's bits, from bit 0 on: the base type, the high bit, and the low bit.
pub const SHIFTED_MASK: &'static str = "::bitfld::shifted_mask!($0, $1, $2)";

/// The check of a default: the default, the base type, the low bit, and the mask.
pub const DEFAULT_CHECK: &'static str = "
const { assert!((($0) as $1) << $2 & !($3 << $2) == 0) }
";

/// Setting a default: the field's name in upper case.
pub const DEFAULT_STATEMENT: &'static str = "
{ v |= Self::$0_DEFAULT; }
";

/// The metadata of a field: the base type, the name, the high bit, the low bit, and the
/// default.
pub const FIELD_METADATA: &'static str = "
::bitfld::FieldMetadata::<$0>{
    name: $1,
    high_bit: $2,
    low_bit: $3,
    default: $4 as $0,
},
";

/// The constant of a reserved field: its high bit, its low bit, the base type, and the value.
pub const RESERVED_CONSTANT: &'static str = "
const RSVD_$0_$1: $2 = ($3 as $2) << $1;
";

/// The check of a reserved value: the value, the base type, the low bit, and the mask.
pub const RESERVED_CHECK: &'static str = "
const { assert!(($0 as $1) << $2 & !($3 << $2) == 0) }
";

/// Setting the reserved-as-1 bits of a field: its high bit and its low bit.
pub const RESERVED_1_STATEMENT: &'static str = "
{ v |= Self::RSVD_$0_$1; }
";

/// Setting the reserved-as-0 bits of a field: its high bit, its low bit, and the mask.
pub const RESERVED_0_STATEMENT: &'static str = "
{ v |= !Self::RSVD_$0_$1 & ($2 << $1); }
";

/// The list of all metadata: the number of fields, the base type, and the metadata.
pub const FIELDS: &'static str = "
#[doc(hidden)]
const NUM_FIELDS: usize = $0;
/// Metadata of all named fields in the layout.
pub const FIELDS: [::bitfld::FieldMetadata::<$1>; $0] = [
    $2
];
";

/// The function that makes the compiler evaluate the checks.
pub const CHECK_DEFAULTS: &'static str = "
#[forbid(overflowing_literals)]
const fn check_defaults() -> () {
    $0
}
";

/// The constants of a layout: the base type, the statements of the three words, the constants
/// of the fields, the list of metadata, and the check function.
pub const CONSTANTS: &'static str = "
/// Mask of all reserved-as-1 bits.
pub const RSVD1_MASK: $0 = {
    let mut v: $0 = 0;
    $1
    v
};
/// Mask of all reserved-as-0 bits.
pub const RSVD0_MASK: $0 = {
    let mut v: $0 = 0;
    $2
    v
};
/// The default value of the layout, combining all field
/// defaults and reserved-as values.
pub const DEFAULT: $0 = {
    let mut v: $0 = Self::RSVD1_MASK;
    $3
    v
};

$4
$5
$6
$7
";

/// The doc of a constant: what comes before the field's name, and what after it.
pub open spec fn constant_doc_of(before: Chars, name: Chars, after: Chars) -> Chars {
    quoted_of(before + "`"@ + name + "`"@ + after)
}

/// Writes the doc of a constant.
fn constant_doc(before: &str, name: &str, after: &str) -> (r: String)
    ensures
        r@ == constant_doc_of(before@, name@, after@),
{
    let mut r = before.to_owned();
    r.append("`");
    r.append(name);
    r.append("`");
    r.append(after);
    quoted(r.as_str())
}

/// The mask of a field's bits, from bit 0 on.
pub open spec fn shifted_mask_of(base: Chars, f: Field) -> Chars {
    fill_of(
        SHIFTED_MASK@,
        seq![base, suffixed_of(f.high_bit as nat), decimal_of(f.low_bit as nat)],
    )
}

/// Writes the mask of a field's bits.
fn shifted_mask(base: &str, f: &Bitfield<String, Vec<String>>) -> (r: String)
    ensures
        r@ == shifted_mask_of(base@, f.deep_view()),
{
    let high = suffixed(f.high_bit);
    let low = decimal(f.low_bit);
    let args = vec![base, high.as_str(), low.as_str()];
    proof {
        assert(args.deep_view() =~= seq![base@, high@, low@]);
    }
    fill(SHIFTED_MASK, &args)
}

/// Whether constants can be named after a field.
pub open spec fn names_constants(f: Field) -> bool {
    f.name matches Some(name) && !is_raw(name)
}

/// The constants of a named field.
pub open spec fn field_constants_of(base: Chars) -> spec_fn(Field) -> Chars {
    |f: Field|
        {
            let name = f.name->0;
            let upper = uppercase_of(name);
            let low = decimal_of(f.low_bit as nat);
            fill_of(
                FIELD_CONSTANTS@,
                seq![
                    constant_doc_of("Unshifted bitmask of "@, name, "."@),
                    upper,
                    base,
                    shifted_mask_of(base, f),
                    low,
                    constant_doc_of("Bit shift (i.e., the low bit) of "@, name, "."@),
                ],
            ) + match f.default {
                Some(default) => fill_of(
                    DEFAULT_CONSTANT@,
                    seq![
                        constant_doc_of("Pre-shifted default value of the "@, name, " field."@),
                        upper,
                        base,
                        default,
                        low,
                    ],
                ),
                None => ""@,
            }
        }
}

/// Writes the constants of named fields over the given base type.
struct FieldConstants<'a>(&'a str);

impl<'a> Piece for FieldConstants<'a> {
    closed spec fn admits(&self, f: Field) -> bool {
        names_constants(f)
    }

    closed spec fn of(&self) -> spec_fn(Field) -> Chars {
        field_constants_of(self.0@)
    }

    fn write(&self, f: &Bitfield<String, Vec<String>>) -> (r: String) {
        let base = self.0;
        let name = f.name.as_ref().unwrap().as_str();
        let upper = uppercase(name);
        let mask = shifted_mask(base, f);
        let low = decimal(f.low_bit);
        let mask_doc = constant_doc("Unshifted bitmask of ", name, ".");
        let shift_doc = constant_doc("Bit shift (i.e., the low bit) of ", name, ".");
        let args = vec![
            mask_doc.as_str(),
            upper.as_str(),
            base,
            mask.as_str(),
            low.as_str(),
            shift_doc.as_str(),
        ];
        proof {
            assert(args.deep_view() =~= seq![mask_doc@, upper@, base@, mask@, low@, shift_doc@]);
        }
        let mut r = fill(FIELD_CONSTANTS, &args);
        match &f.default {
            Some(default) => {
                let doc = constant_doc("Pre-shifted default value of the ", name, " field.");
                let args = vec![
                    doc.as_str(),
                    upper.as_str(),
                    base,
                    default.as_str(),
                    low.as_str(),
                ];
                proof {
                    assert(args.deep_view() =~= seq![doc@, upper@, base@, default@, low@]);
                }
                r.append(fill(DEFAULT_CONSTANT, &args).as_str());
            },
            None => {
                r.append("");
            },
        }
        r
    }
}

/// The check of a named field's default, if it has one.
pub open spec fn default_check_of(base: Chars) -> spec_fn(Field) -> Chars {
    |f: Field|
        match f.default {
            Some(default) => fill_of(
                DEFAULT_CHECK@,
                seq![default, base, decimal_of(f.low_bit as nat), shifted_mask_of(base, f)],
            ),
            None => ""@,
        }
}

/// Writes the checks of defaults over the given base type.
struct DefaultChecks<'a>(&'a str);

impl<'a> Piece for DefaultChecks<'a> {
    closed spec fn admits(&self, f: Field) -> bool {
        true
    }

    closed spec fn of(&self) -> spec_fn(Field) -> Chars {
        default_check_of(self.0@)
    }

    fn write(&self, f: &Bitfield<String, Vec<String>>) -> (r: String) {
        let base = self.0;
        match &f.default {
            Some(default) => {
                let low = decimal(f.low_bit);
                let mask = shifted_mask(base, f);
                let args = vec![default.as_str(), base, low.as_str(), mask.as_str()];
                proof {
                    assert(args.deep_view() =~= seq![default@, base@, low@, mask@]);
                }
                fill(DEFAULT_CHECK, &args)
            },
            None => "".to_owned(),
        }
    }
}

/// The statement that sets a named field's default, if it has one.
pub open spec fn default_statement_of() -> spec_fn(Field) -> Chars {
    |f: Field|
        match f.default {
            Some(_) => fill_of(DEFAULT_STATEMENT@, seq![uppercase_of(f.name->0)]),
            None => ""@,
        }
}

/// Writes the statements that set the defaults.
struct DefaultStatements;

impl Piece for DefaultStatements {
    closed spec fn admits(&self, f: Field) -> bool {
        names_constants(f)
    }

    closed spec fn of(&self) -> spec_fn(Field) -> Chars {
        default_statement_of()
    }

    fn write(&self, f: &Bitfield<String, Vec<String>>) -> (r: String) {
        match &f.default {
            Some(_) => {
                let upper = uppercase(f.name.as_ref().unwrap().as_str());
                let args = vec![upper.as_str()];
                proof {
                    assert(args.deep_view() =~= seq![upper@]);
                }
                fill(DEFAULT_STATEMENT, &args)
            },
            None => "".to_owned(),
        }
    }
}

/// The metadata of a named field.
pub open spec fn field_metadata_of(base: Chars) -> spec_fn(Field) -> Chars {
    |f: Field|
        fill_of(
            FIELD_METADATA@,
            seq![
                base,
                quoted_of(f.name->0),
                decimal_of(f.high_bit as nat),
                decimal_of(f.low_bit as nat),
                match f.default {
                    Some(default) => default,
                    None => "0"@,
                },
            ],
        )
}

/// Writes the metadata of named fields over the given base type.
struct Metadata<'a>(&'a str);

impl<'a> Piece for Metadata<'a> {
    closed spec fn admits(&self, f: Field) -> bool {
        f.name is Some
    }

    closed spec fn of(&self) -> spec_fn(Field) -> Chars {
        field_metadata_of(self.0@)
    }

    fn write(&self, f: &Bitfield<String, Vec<String>>) -> (r: String) {
        let name = quoted(f.name.as_ref().unwrap().as_str());
        let high = decimal(f.high_bit);
        let low = decimal(f.low_bit);
        let default = match &f.default {
            Some(default) => default.as_str(),
            None => "0",
        };
        let args = vec![self.0, name.as_str(), high.as_str(), low.as_str(), default];
        proof {
            let f = f.deep_view();
            assert(args.deep_view() =~= seq![
                self.0@,
                quoted_of(f.name->0),
                decimal_of(f.high_bit as nat),
                decimal_of(f.low_bit as nat),
                match f.default {
                    Some(default) => default,
                    None => "0"@,
                },
            ]);
        }
        fill(FIELD_METADATA, &args)
    }
}

/// The constant of a reserved field.
pub open spec fn reserved_constant_of(base: Chars) -> spec_fn(Field) -> Chars {
    |f: Field|
        fill_of(
            RESERVED_CONSTANT@,
            seq![
                decimal_of(f.high_bit as nat),
                decimal_of(f.low_bit as nat),
                base,
                f.default->0,
            ],
        )
}

/// Writes the constants of reserved fields over the given base type.
struct ReservedConstants<'a>(&'a str);

impl<'a> Piece for ReservedConstants<'a> {
    closed spec fn admits(&self, f: Field) -> bool {
        f.default is Some
    }

    closed spec fn of(&self) -> spec_fn(Field) -> Chars {
        reserved_constant_of(self.0@)
    }

    fn write(&self, f: &Bitfield<String, Vec<String>>) -> (r: String) {
        let high = decimal(f.high_bit);
        let low = decimal(f.low_bit);
        let value = f.default.as_ref().unwrap();
        let args = vec![high.as_str(), low.as_str(), self.0, value.as_str()];
        proof {
            assert(args.deep_view() =~= seq![high@, low@, self.0@, value@]);
        }
        fill(RESERVED_CONSTANT, &args)
    }
}

/// The check of a reserved field's value.
pub open spec fn reserved_check_of(base: Chars) -> spec_fn(Field) -> Chars {
    |f: Field|
        fill_of(
            RESERVED_CHECK@,
            seq![f.default->0, base, decimal_of(f.low_bit as nat), shifted_mask_of(base, f)],
        )
}

/// Writes the checks of reserved values over the given base type.
struct ReservedChecks<'a>(&'a str);

impl<'a> Piece for ReservedChecks<'a> {
    closed spec fn admits(&self, f: Field) -> bool {
        f.default is Some
    }

    closed spec fn of(&self) -> spec_fn(Field) -> Chars {
        reserved_check_of(self.0@)
    }

    fn write(&self, f: &Bitfield<String, Vec<String>>) -> (r: String) {
        let base = self.0;
        let value = f.default.as_ref().unwrap();
        let low = decimal(f.low_bit);
        let mask = shifted_mask(base, f);
        let args = vec![value.as_str(), base, low.as_str(), mask.as_str()];
        proof {
            assert(args.deep_view() =~= seq![value@, base@, low@, mask@]);
        }
        fill(RESERVED_CHECK, &args)
    }
}

/// The statement that sets the reserved-as-1 bits of a field.
pub open spec fn reserved_1_of() -> spec_fn(Field) -> Chars {
    |f: Field|
        fill_of(
            RESERVED_1_STATEMENT@,
            seq![decimal_of(f.high_bit as nat), decimal_of(f.low_bit as nat)],
        )
}

/// Writes the statements that set the reserved-as-1 bits.
struct Reserved1Statements;

impl Piece for Reserved1Statements {
    closed spec fn admits(&self, f: Field) -> bool {
        true
    }

    closed spec fn of(&self) -> spec_fn(Field) -> Chars {
        reserved_1_of()
    }

    fn write(&self, f: &Bitfield<String, Vec<String>>) -> (r: String) {
        let high = decimal(f.high_bit);
        let low = decimal(f.low_bit);
        let args = vec![high.as_str(), low.as_str()];
        proof {
            assert(args.deep_view() =~= seq![high@, low@]);
        }
        fill(RESERVED_1_STATEMENT, &args)
    }
}

/// The statement that sets the reserved-as-0 bits of a field.
pub open spec fn reserved_0_of(base: Chars) -> spec_fn(Field) -> Chars {
    |f: Field|
        fill_of(
            RESERVED_0_STATEMENT@,
            seq![
                decimal_of(f.high_bit as nat),
                decimal_of(f.low_bit as nat),
                shifted_mask_of(base, f),
            ],
        )
}

/// Writes the statements that set the reserved-as-0 bits, over the given base type.
struct Reserved0Statements<'a>(&'a str);

impl<'a> Piece for Reserved0Statements<'a> {
    closed spec fn admits(&self, f: Field) -> bool {
        true
    }

    closed spec fn of(&self) -> spec_fn(Field) -> Chars {
        reserved_0_of(self.0@)
    }

    fn write(&self, f: &Bitfield<String, Vec<String>>) -> (r: String) {
        let high = decimal(f.high_bit);
        let low = decimal(f.low_bit);
        let mask = shifted_mask(self.0, f);
        let args = vec![high.as_str(), low.as_str(), mask.as_str()];
        proof {
            assert(args.deep_view() =~= seq![high@, low@, mask@]);
        }
        fill(RESERVED_0_STATEMENT, &args)
    }
}

/// Whether some field has a default.
pub open spec fn some_default(fields: Seq<Field>) -> bool {
    exists|i: int| 0 <= i < fields.len() && (#[trigger] fields[i]).default is Some
}

/// Looks for a field with a default.
fn find_default(fields: &Vec<Bitfield<String, Vec<String>>>) -> (r: bool)
    ensures
        r == some_default(fields.deep_view()),
{
    let ghost all = fields.deep_view();
    let mut i: usize = 0;
    while i < fields.len()
        invariant
            all == fields.deep_view(),
            i <= fields.len(),
            forall|j: int| 0 <= j < i ==> (#[trigger] all[j]).default is None,
        decreases fields.len() - i,
    {
        proof {
            assert(all[i as int] == fields[i as int].deep_view());
        }
        if fields[i].default.is_some() {
            return true;
        }
        i = i + 1;
    }
    false
}

/// The function that checks the defaults and the reserved values, if there is one.
pub open spec fn check_defaults_of(layout: LayoutView) -> Chars {
    let base = layout.ty.base.def;
    if some_default(layout.named) || layout.reserved.len() > 0 {
        fill_of(
            CHECK_DEFAULTS@,
            seq![
                concat_of(layout.named.map_values(default_check_of(base))) + concat_of(
                    layout.reserved.map_values(reserved_check_of(base)),
                ),
            ],
        )
    } else {
        ""@
    }
}

/// The list of the metadata of all named fields.
pub open spec fn field_list_of(layout: LayoutView) -> Chars {
    let base = layout.ty.base.def;
    fill_of(
        FIELDS@,
        seq![
            suffixed_of(layout.named.len()),
            base,
            concat_of(layout.named.map_values(field_metadata_of(base))),
        ],
    )
}

/// The constants of a layout.
pub open spec fn constants_of(layout: LayoutView) -> Chars {
    let base = layout.ty.base.def;
    fill_of(
        CONSTANTS@,
        seq![
            base,
            concat_of(layout.reserved.map_values(reserved_1_of())),
            concat_of(layout.reserved.map_values(reserved_0_of(base))),
            concat_of(layout.named.map_values(default_statement_of())),
            concat_of(layout.named.map_values(field_constants_of(base))),
            concat_of(layout.reserved.map_values(reserved_constant_of(base))),
            field_list_of(layout),
            check_defaults_of(layout),
        ],
    )
}

impl LayoutView {
    /// Whether constants can be named after every named field.
    pub open spec fn names_constants(self) -> bool {
        forall|i: int| 0 <= i < self.named.len() ==> names_constants(#[trigger] self.named[i])
    }
}

impl Layout {
    /// Writes the function that checks the defaults and the reserved values, if there is
    /// anything to check.
    fn check_defaults(&self) -> (r: String)
        requires
            self.deep_view().well_formed(),
        ensures
            r@ == check_defaults_of(self.deep_view()),
    {
        let base = self.ty.base.def.as_str();
        if find_default(&self.named) || self.reserved.len() > 0 {
            let mut checks = each(&DefaultChecks(base), &self.named);
            checks.append(each(&ReservedChecks(base), &self.reserved).as_str());
            let args = vec![checks.as_str()];
            proof {
                assert(args.deep_view() =~= seq![checks@]);
            }
            fill(CHECK_DEFAULTS, &args)
        } else {
            "".to_owned()
        }
    }

    /// Writes the list of the metadata of all named fields.
    fn field_list(&self) -> (r: String)
        requires
            self.deep_view().well_formed(),
        ensures
            r@ == field_list_of(self.deep_view()),
    {
        let base = self.ty.base.def.as_str();
        let len = suffixed(self.named.len());
        let metadata = each(&Metadata(base), &self.named);
        let args = vec![len.as_str(), base, metadata.as_str()];
        proof {
            assert(args.deep_view() =~= seq![len@, base@, metadata@]);
        }
        fill(FIELDS, &args)
    }

    /// Writes the constants of the layout: its reserved masks and its default, a mask, a
    /// shift and a default for each named field, a value for each reserved one, the metadata
    /// of all named fields, and the checks that every default and value fits.
    pub fn constants(&self) -> (r: String)
        requires
            self.deep_view().well_formed(),
            self.deep_view().names_constants(),
        ensures
            r@ == constants_of(self.deep_view()),
    {
        let base = self.ty.base.def.as_str();
        let rsvd1 = each(&Reserved1Statements, &self.reserved);
        let rsvd0 = each(&Reserved0Statements(base), &self.reserved);
        let defaults = each(&DefaultStatements, &self.named);
        let named = each(&FieldConstants(base), &self.named);
        let reserved = each(&ReservedConstants(base), &self.reserved);
        let list = self.field_list();
        let checks = self.check_defaults();
        let args = vec![
            base,
            rsvd1.as_str(),
            rsvd0.as_str(),
            defaults.as_str(),
            named.as_str(),
            reserved.as_str(),
            list.as_str(),
            checks.as_str(),
        ];
        proof {
            assert(args.deep_view() =~= seq![
                base@,
                rsvd1@,
                rsvd0@,
                defaults@,
                named@,
                reserved@,
                list@,
                checks@,
            ]);
        }
        fill(CONSTANTS, &args)
    }
}

} // verus!
