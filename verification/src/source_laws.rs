//! What the source text of a layout says, for every layout.
//!
//! Each law gives a text in full, from the parts of the declaration alone.

use crate::accessors::{accessors_of, bare_of};
use crate::base::BaseType;
use crate::bitfield::{Bitfield, Field};
use crate::constants::{
    check_defaults_of, constants_of, default_check_of, default_statement_of, field_constants_of,
    field_list_of, field_metadata_of, reserved_0_of, reserved_1_of, reserved_check_of,
    reserved_constant_of,
};
use crate::expand::{accessors_in, expansion_of, iter_impl_of, struct_text_of, BITFIELD_REPR};
use crate::format::{bound_of, bounds_of, fmt_fn_of, fmt_impls_of, format_field_of};
use crate::layout::LayoutView;
use crate::shapes::{
    lemma_bitfield_repr, lemma_check_defaults, lemma_constants, lemma_default_check,
    lemma_default_constant, lemma_default_statement, lemma_field_constants,
    lemma_field_metadata, lemma_fields, lemma_flag_accessors, lemma_format_bound,
    lemma_format_field, lemma_format_function, lemma_format_impls, lemma_format_repr,
    lemma_get_field, lemma_getter, lemma_iterators, lemma_layout, lemma_repr_getter,
    lemma_repr_setter, lemma_reserved_0_statement, lemma_reserved_1_statement,
    lemma_reserved_check, lemma_reserved_constant, lemma_set_field, lemma_setter,
    lemma_shifted_mask,
};
use crate::syntax::{Chars, Texts};
use crate::text::{concat_of, decimal_of, fill_of, uppercase_of};
use crate::typedef::TypeDef;
use vstd::prelude::*;

verus! {

/// Whether a type is the narrowest that holds the given number of bits.
pub open spec fn narrowest(b: BaseType, width: int) -> bool {
    width <= b.bits() && forall|c: BaseType| #[trigger] c.bits() < b.bits() ==> c.bits() < width
}

/// There is one narrowest type.
proof fn lemma_narrowest(b: BaseType, width: int)
    requires
        narrowest(b, width),
    ensures
        b == Bitfield::minimum_width_of(width),
{
    assert(BaseType::U8.bits() == 8 && BaseType::U16.bits() == 16 && BaseType::U32.bits() == 32
        && BaseType::U64.bits() == 64 && BaseType::U128.bits() == 128);
}

/// The accessors of a single bit: they take and return a `bool`, and read and write the bit of
/// that position.
pub proof fn accessors_of_a_bit(f: Field, ty: TypeDef<Chars, Texts>)
    requires
        f.high_bit == f.low_bit,
        !f.unshifted,
    ensures
        ({
            let docs = concat_of(f.doc_attrs);
            let name = f.name->0;
            let setter = "set_"@ + bare_of(name);
            let range = if f.high_bit == f.low_bit {
                decimal_of(f.low_bit as nat)
            } else {
                "["@ + decimal_of(f.high_bit as nat) + ":"@ + decimal_of(f.low_bit as nat) + "]"@
            };
            let qualifier = if f.unshifted {
                "unshifted "@
            } else {
                ""@
            };
            let get_doc = "\""@ + ("The "@ + qualifier + "value of `"@ + ty.ident + range + "`."@)
                + "\""@;
            let set_doc = "\""@ + ("Sets the "@ + qualifier + "value of `"@ + ty.ident + range
                + "`."@) + "\""@;
            let low = decimal_of(f.low_bit as nat) + "usize"@;
            accessors_of(f, ty) == concat_of(
                seq![
                    "\n"@,
                    docs,
                    "\n#[doc = "@,
                    get_doc,
                    "]\n#[inline]\npub const fn "@,
                    name,
                    "(&self) -> bool {\n    ::bitfld::get_bit!(self.0, "@,
                    low,
                    ")\n}\n\n"@,
                    docs,
                    "\n#[doc = "@,
                    set_doc,
                    "]\n#[inline]\npub const fn "@,
                    setter,
                    "(&mut self, value: bool) -> &mut Self {\n    ::bitfld::set_bit!(self.0, "@,
                    low,
                    ", value);\n    self\n}\n"@,
                ],
            )
        }),
{
    let name = f.name->0;
    let range = decimal_of(f.low_bit as nat);
    lemma_flag_accessors(
        concat_of(f.doc_attrs),
        "\""@ + ("The "@ + ""@ + "value of `"@ + ty.ident + range + "`."@) + "\""@,
        name,
        range + "usize"@,
        "\""@ + ("Sets the "@ + ""@ + "value of `"@ + ty.ident + range + "`."@) + "\""@,
        "set_"@ + bare_of(name),
    );
}

/// The accessors of a field without a representation. They hand its bits to the runtime with
/// its own bounds, moved down unless the field is unshifted; the type is the base type if it is
/// unshifted, else the narrowest that holds the field.
pub proof fn accessors_of_a_field(f: Field, ty: TypeDef<Chars, Texts>, b: BaseType)
    requires
        f.high_bit != f.low_bit || f.unshifted,
        f.repr is None,
        narrowest(b, f.width()),
    ensures
        ({
            let docs = concat_of(f.doc_attrs);
            let name = f.name->0;
            let setter = "set_"@ + bare_of(name);
            let range = if f.high_bit == f.low_bit {
                decimal_of(f.low_bit as nat)
            } else {
                "["@ + decimal_of(f.high_bit as nat) + ":"@ + decimal_of(f.low_bit as nat) + "]"@
            };
            let qualifier = if f.unshifted {
                "unshifted "@
            } else {
                ""@
            };
            let get_doc = "\""@ + ("The "@ + qualifier + "value of `"@ + ty.ident + range + "`."@)
                + "\""@;
            let set_doc = "\""@ + ("Sets the "@ + qualifier + "value of `"@ + ty.ident + range
                + "`."@) + "\""@;
            let base = ty.base.def;
            let high = decimal_of(f.high_bit as nat) + "usize"@;
            let low = decimal_of(f.low_bit as nat) + "usize"@;
            let clamped = if f.unshifted {
                base
            } else {
                b.name_of()
            };
            let shifted = if f.unshifted {
                "false"@
            } else {
                "true"@
            };
            let get = concat_of(
                seq![
                    "::bitfld::get_field!("@,
                    base,
                    ", "@,
                    clamped,
                    ", "@,
                    high,
                    ", "@,
                    low,
                    ", "@,
                    shifted,
                    ", self.0)"@,
                ],
            );
            let set = concat_of(
                seq![
                    "::bitfld::set_field!("@,
                    base,
                    ", "@,
                    high,
                    ", "@,
                    low,
                    ", "@,
                    shifted,
                    ", self.0, value)"@,
                ],
            );
            accessors_of(f, ty) == concat_of(
                seq![
                    "\n"@,
                    docs,
                    "\n#[doc = "@,
                    get_doc,
                    "]\n#[inline]\npub const fn "@,
                    name,
                    "(&self) -> "@,
                    clamped,
                    " {\n    "@,
                    get,
                    "\n}\n"@,
                ],
            ) + concat_of(
                seq![
                    "\n#[doc = "@,
                    set_doc,
                    "]\n#[inline]\npub const fn "@,
                    setter,
                    "(&mut self, value: "@,
                    clamped,
                    ") -> &mut Self {\n    let value = value as "@,
                    base,
                    ";\n    "@,
                    set,
                    " ;\n    self\n}\n"@,
                ],
            )
        }),
{
    lemma_narrowest(b, f.width());
    let name = f.name->0;
    let base = ty.base.def;
    let range = Bitfield::display_range_of(f);
    let qualifier = if f.unshifted {
        "unshifted "@
    } else {
        ""@
    };
    let get_doc = "\""@ + ("The "@ + qualifier + "value of `"@ + ty.ident + range + "`."@) + "\""@;
    let set_doc = "\""@ + ("Sets the "@ + qualifier + "value of `"@ + ty.ident + range + "`."@)
        + "\""@;
    let high = decimal_of(f.high_bit as nat) + "usize"@;
    let low = decimal_of(f.low_bit as nat) + "usize"@;
    let clamped = if f.unshifted {
        base
    } else {
        b.name_of()
    };
    let shifted = if f.unshifted {
        "false"@
    } else {
        "true"@
    };
    lemma_get_field(base, clamped, high, low, shifted);
    lemma_set_field(base, high, low, shifted);
    let get = concat_of(
        seq![
            "::bitfld::get_field!("@,
            base,
            ", "@,
            clamped,
            ", "@,
            high,
            ", "@,
            low,
            ", "@,
            shifted,
            ", self.0)"@,
        ],
    );
    let set = concat_of(
        seq![
            "::bitfld::set_field!("@,
            base,
            ", "@,
            high,
            ", "@,
            low,
            ", "@,
            shifted,
            ", self.0, value)"@,
        ],
    );
    lemma_getter(concat_of(f.doc_attrs), get_doc, name, clamped, get);
    lemma_setter(set_doc, "set_"@ + bare_of(name), clamped, base, set);
}

/// The accessors of a field with a representation: the getter returns the representation, or the
/// bits that it lacks, and the setter takes it.
pub proof fn accessors_of_a_represented_field(f: Field, ty: TypeDef<Chars, Texts>, b: BaseType)
    requires
        f.high_bit != f.low_bit || f.unshifted,
        f.repr is Some,
        narrowest(b, f.width()),
    ensures
        ({
            let docs = concat_of(f.doc_attrs);
            let name = f.name->0;
            let setter = "set_"@ + bare_of(name);
            let range = if f.high_bit == f.low_bit {
                decimal_of(f.low_bit as nat)
            } else {
                "["@ + decimal_of(f.high_bit as nat) + ":"@ + decimal_of(f.low_bit as nat) + "]"@
            };
            let qualifier = if f.unshifted {
                "unshifted "@
            } else {
                ""@
            };
            let get_doc = "\""@ + ("The "@ + qualifier + "value of `"@ + ty.ident + range + "`."@)
                + "\""@;
            let set_doc = "\""@ + ("Sets the "@ + qualifier + "value of `"@ + ty.ident + range
                + "`."@) + "\""@;
            let base = ty.base.def;
            let high = decimal_of(f.high_bit as nat) + "usize"@;
            let low = decimal_of(f.low_bit as nat) + "usize"@;
            let clamped = if f.unshifted {
                base
            } else {
                b.name_of()
            };
            let shifted = if f.unshifted {
                "false"@
            } else {
                "true"@
            };
            let repr = f.repr->0;
            let get = concat_of(
                seq![
                    "::bitfld::get_field!("@,
                    base,
                    ", "@,
                    clamped,
                    ", "@,
                    high,
                    ", "@,
                    low,
                    ", "@,
                    shifted,
                    ", self.0)"@,
                ],
            );
            let set = concat_of(
                seq![
                    "::bitfld::set_field!("@,
                    base,
                    ", "@,
                    high,
                    ", "@,
                    low,
                    ", "@,
                    shifted,
                    ", self.0, value)"@,
                ],
            );
            accessors_of(f, ty) == concat_of(
                seq![
                    "\n"@,
                    docs,
                    "\n#[doc = "@,
                    get_doc,
                    "]\n#[inline]\npub fn "@,
                    name,
                    "(&self) -> ::core::result::Result<"@,
                    repr,
                    ", ::bitfld::InvalidBits<"@,
                    clamped,
                    ">>\nwhere\n    "@,
                    repr,
                    ": ::zerocopy::TryFromBytes,\n{\n    use ::zerocopy::IntoBytes;\n    use ::zerocopy::TryFromBytes;\n    let value = "@,
                    get,
                    " ;\n    "@,
                    repr,
                    "::try_read_from_bytes(value.as_bytes())\n        .map_err(|_| ::bitfld::InvalidBits(value))\n}\n"@,
                ],
            ) + concat_of(
                seq![
                    "\n#[doc = "@,
                    set_doc,
                    "]\n#[inline]\npub fn "@,
                    setter,
                    "(&mut self, value: "@,
                    repr,
                    ") -> &mut Self\nwhere\n    "@,
                    repr,
                    ": ::zerocopy::IntoBytes + ::zerocopy::Immutable\n{\n    use ::zerocopy::IntoBytes;\n    use ::zerocopy::FromBytes;\n    const { assert!(::core::mem::size_of::<"@,
                    repr,
                    ">() == ::core::mem::size_of::<"@,
                    clamped,
                    ">()) }\n    let value = "@,
                    clamped,
                    "::read_from_bytes(value.as_bytes()).unwrap() as "@,
                    base,
                    ";\n    "@,
                    set,
                    " ;\n    self\n}\n"@,
                ],
            )
        }),
{
    lemma_narrowest(b, f.width());
    let name = f.name->0;
    let base = ty.base.def;
    let range = Bitfield::display_range_of(f);
    let qualifier = if f.unshifted {
        "unshifted "@
    } else {
        ""@
    };
    let get_doc = "\""@ + ("The "@ + qualifier + "value of `"@ + ty.ident + range + "`."@) + "\""@;
    let set_doc = "\""@ + ("Sets the "@ + qualifier + "value of `"@ + ty.ident + range + "`."@)
        + "\""@;
    let high = decimal_of(f.high_bit as nat) + "usize"@;
    let low = decimal_of(f.low_bit as nat) + "usize"@;
    let clamped = if f.unshifted {
        base
    } else {
        b.name_of()
    };
    let shifted = if f.unshifted {
        "false"@
    } else {
        "true"@
    };
    lemma_get_field(base, clamped, high, low, shifted);
    lemma_set_field(base, high, low, shifted);
    let get = concat_of(
        seq![
            "::bitfld::get_field!("@,
            base,
            ", "@,
            clamped,
            ", "@,
            high,
            ", "@,
            low,
            ", "@,
            shifted,
            ", self.0)"@,
        ],
    );
    let set = concat_of(
        seq![
            "::bitfld::set_field!("@,
            base,
            ", "@,
            high,
            ", "@,
            low,
            ", "@,
            shifted,
            ", self.0, value)"@,
        ],
    );
    lemma_repr_getter(concat_of(f.doc_attrs), get_doc, name, f.repr->0, clamped, get);
    lemma_repr_setter(set_doc, "set_"@ + bare_of(name), f.repr->0, clamped, base, set);
}

/// The constants of a named field: its mask, moved up to its low bit, the low bit itself, and
/// its default, if it has one, moved up to the low bit as well.
pub proof fn constants_of_a_field(base: Chars, f: Field)
    ensures
        ({
            let name = f.name->0;
            let upper = uppercase_of(name);
            let low = decimal_of(f.low_bit as nat);
            let mask = concat_of(
                seq![
                    "::bitfld::shifted_mask!("@,
                    base,
                    ", "@,
                    decimal_of(f.high_bit as nat) + "usize"@,
                    ", "@,
                    low,
                    ")"@,
                ],
            );
            let mask_doc = "\""@ + ("Unshifted bitmask of "@ + "`"@ + name + "`"@ + "."@) + "\""@;
            let shift_doc = "\""@ + ("Bit shift (i.e., the low bit) of "@ + "`"@ + name + "`"@
                + "."@) + "\""@;
            let default_doc = "\""@ + ("Pre-shifted default value of the "@ + "`"@ + name + "`"@
                + " field."@) + "\""@;
            let default = f.default->0;
            (field_constants_of(base))(f) == concat_of(
                seq![
                    "\n#[doc = "@,
                    mask_doc,
                    "]\npub const "@,
                    upper,
                    "_MASK: "@,
                    base,
                    " = ("@,
                    mask,
                    " << "@,
                    low,
                    ");\n#[doc = "@,
                    shift_doc,
                    "]\npub const "@,
                    upper,
                    "_SHIFT: usize = "@,
                    low,
                    ";\n"@,
                ],
            ) + if f.default is Some {
                concat_of(
                    seq![
                        "\n#[doc = "@,
                        default_doc,
                        "]\npub const "@,
                        upper,
                        "_DEFAULT: "@,
                        base,
                        " = (("@,
                        default,
                        ") as "@,
                        base,
                        ") << "@,
                        low,
                        ";\n"@,
                    ],
                )
            } else {
                ""@
            }
        }),
{
    let name = f.name->0;
    let upper = uppercase_of(name);
    let low = decimal_of(f.low_bit as nat);
    lemma_shifted_mask(base, decimal_of(f.high_bit as nat) + "usize"@, low);
    let mask = concat_of(
        seq![
            "::bitfld::shifted_mask!("@,
            base,
            ", "@,
            decimal_of(f.high_bit as nat) + "usize"@,
            ", "@,
            low,
            ")"@,
        ],
    );
    lemma_field_constants(
        "\""@ + ("Unshifted bitmask of "@ + "`"@ + name + "`"@ + "."@) + "\""@,
        upper,
        base,
        mask,
        low,
        "\""@ + ("Bit shift (i.e., the low bit) of "@ + "`"@ + name + "`"@ + "."@) + "\""@,
    );
    if f.default is Some {
        lemma_default_constant(
            "\""@ + ("Pre-shifted default value of the "@ + "`"@ + name + "`"@ + " field."@) + "\""@,
            upper,
            base,
            f.default->0,
            low,
        );
    }
}

/// The check of a default: moved up to the field's low bit, it has no bit outside the field's
/// mask. A field without a default has no check and no statement; one with a default is set in
/// the default word.
pub proof fn defaults_are_checked_and_set(base: Chars, f: Field)
    ensures
        f.default is None ==> (default_check_of(base))(f) == ""@ && (default_statement_of())(f)
            == ""@,
        f.default is Some ==> ({
            let default = f.default->0;
            let low = decimal_of(f.low_bit as nat);
            let mask = concat_of(
                seq![
                    "::bitfld::shifted_mask!("@,
                    base,
                    ", "@,
                    decimal_of(f.high_bit as nat) + "usize"@,
                    ", "@,
                    low,
                    ")"@,
                ],
            );
            (default_check_of(base))(f) == concat_of(
                seq![
                    "\nconst { assert!((("@,
                    default,
                    ") as "@,
                    base,
                    ") << "@,
                    low,
                    " & !("@,
                    mask,
                    " << "@,
                    low,
                    ") == 0) }\n"@,
                ],
            )
        }),
        f.default is Some ==> ({
            let upper = uppercase_of(f.name->0);
            (default_statement_of())(f) == concat_of(
                seq![
                    "\n{ v |= Self::"@,
                    upper,
                    "_DEFAULT; }\n"@,
                ],
            )
        }),
{
    if f.default is Some {
        let low = decimal_of(f.low_bit as nat);
        lemma_shifted_mask(base, decimal_of(f.high_bit as nat) + "usize"@, low);
        let mask = concat_of(
            seq![
                "::bitfld::shifted_mask!("@,
                base,
                ", "@,
                decimal_of(f.high_bit as nat) + "usize"@,
                ", "@,
                low,
                ")"@,
            ],
        );
        lemma_default_check(f.default->0, base, low, mask);
        lemma_default_statement(uppercase_of(f.name->0));
    }
}

/// The metadata of a field: its name, its bounds, and its default, or 0 if it has none.
pub proof fn metadata_of_a_field(base: Chars, f: Field)
    ensures
        ({
            let name = "\""@ + f.name->0 + "\""@;
            let high = decimal_of(f.high_bit as nat);
            let low = decimal_of(f.low_bit as nat);
            let default = if f.default is Some {
                f.default->0
            } else {
                "0"@
            };
            (field_metadata_of(base))(f) == concat_of(
                seq![
                    "\n::bitfld::FieldMetadata::<"@,
                    base,
                    ">{\n    name: "@,
                    name,
                    ",\n    high_bit: "@,
                    high,
                    ",\n    low_bit: "@,
                    low,
                    ",\n    default: "@,
                    default,
                    " as "@,
                    base,
                    ",\n},\n"@,
                ],
            )
        }),
{
    let default = if f.default is Some {
        f.default->0
    } else {
        "0"@
    };
    lemma_field_metadata(
        base,
        "\""@ + f.name->0 + "\""@,
        decimal_of(f.high_bit as nat),
        decimal_of(f.low_bit as nat),
        default,
    );
    let args = seq![
        base,
        "\""@ + f.name->0 + "\""@,
        decimal_of(f.high_bit as nat),
        decimal_of(f.low_bit as nat),
        default,
    ];
    assert(args =~= seq![
        base,
        "\""@ + f.name->0 + "\""@,
        decimal_of(f.high_bit as nat),
        decimal_of(f.low_bit as nat),
        match f.default {
            Some(default) => default,
            None => "0"@,
        },
    ]);
}

/// The constant, the check and the statements of a reserved field: its value moved up to its low
/// bit, which must stay within its mask; that constant, and what the mask has besides.
pub proof fn source_of_a_reserved_field(base: Chars, f: Field)
    ensures
        ({
            let high = decimal_of(f.high_bit as nat);
            let low = decimal_of(f.low_bit as nat);
            let value = f.default->0;
            let mask = concat_of(
                seq![
                    "::bitfld::shifted_mask!("@,
                    base,
                    ", "@,
                    decimal_of(f.high_bit as nat) + "usize"@,
                    ", "@,
                    low,
                    ")"@,
                ],
            );
            &&& (reserved_constant_of(base))(f) == concat_of(
                seq![
                    "\nconst RSVD_"@,
                    high,
                    "_"@,
                    low,
                    ": "@,
                    base,
                    " = ("@,
                    value,
                    " as "@,
                    base,
                    ") << "@,
                    low,
                    ";\n"@,
                ],
            )
            &&& (reserved_check_of(base))(f) == concat_of(
                seq![
                    "\nconst { assert!(("@,
                    value,
                    " as "@,
                    base,
                    ") << "@,
                    low,
                    " & !("@,
                    mask,
                    " << "@,
                    low,
                    ") == 0) }\n"@,
                ],
            )
            &&& (reserved_1_of())(f) == concat_of(
                seq![
                    "\n{ v |= Self::RSVD_"@,
                    high,
                    "_"@,
                    low,
                    "; }\n"@,
                ],
            )
            &&& (reserved_0_of(base))(f) == concat_of(
                seq![
                    "\n{ v |= !Self::RSVD_"@,
                    high,
                    "_"@,
                    low,
                    " & ("@,
                    mask,
                    " << "@,
                    low,
                    "); }\n"@,
                ],
            )
        }),
{
    let high = decimal_of(f.high_bit as nat);
    let value = f.default->0;
    let low = decimal_of(f.low_bit as nat);
    lemma_shifted_mask(base, decimal_of(f.high_bit as nat) + "usize"@, low);
    let mask = concat_of(
        seq![
            "::bitfld::shifted_mask!("@,
            base,
            ", "@,
            decimal_of(f.high_bit as nat) + "usize"@,
            ", "@,
            low,
            ")"@,
        ],
    );
    lemma_reserved_constant(high, low, base, value);
    lemma_reserved_check(value, base, low, mask);
    lemma_reserved_1_statement(high, low);
    lemma_reserved_0_statement(high, low, mask);
}

/// The constants of a layout: the three words from the statements of all its fields, the
/// constants of each field, the metadata of all of them with their number, and, if there is a
/// default or a reserved value, the function that checks them all.
pub proof fn constants_of_a_layout(layout: LayoutView)
    ensures
        ({
            let base = layout.ty.base.def;
            let rsvd1 = concat_of(layout.reserved.map_values(reserved_1_of()));
            let rsvd0 = concat_of(layout.reserved.map_values(reserved_0_of(base)));
            let defaults = concat_of(layout.named.map_values(default_statement_of()));
            let named = concat_of(layout.named.map_values(field_constants_of(base)));
            let reserved = concat_of(layout.reserved.map_values(reserved_constant_of(base)));
            let metadata = concat_of(layout.named.map_values(field_metadata_of(base)));
            let len = decimal_of(layout.named.len()) + "usize"@;
            let list = concat_of(
                seq![
                    "\n#[doc(hidden)]\nconst NUM_FIELDS: usize = "@,
                    len,
                    ";\n/// Metadata of all named fields in the layout.\npub const FIELDS: [::bitfld::FieldMetadata::<"@,
                    base,
                    ">; "@,
                    len,
                    "] = [\n    "@,
                    metadata,
                    "\n];\n"@,
                ],
            );
            let all = concat_of(layout.named.map_values(default_check_of(base))) + concat_of(
                layout.reserved.map_values(reserved_check_of(base)),
            );
            let checks = if (exists|i: int|
                0 <= i < layout.named.len() && (#[trigger] layout.named[i]).default is Some)
                || layout.reserved.len() > 0 {
                concat_of(
                    seq![
                        "\n#[forbid(overflowing_literals)]\nconst fn check_defaults() -> () {\n    "@,
                        all,
                        "\n}\n"@,
                    ],
                )
            } else {
                ""@
            };
            constants_of(layout) == concat_of(
                seq![
                    "\n/// Mask of all reserved-as-1 bits.\npub const RSVD1_MASK: "@,
                    base,
                    " = {\n    let mut v: "@,
                    base,
                    " = 0;\n    "@,
                    rsvd1,
                    "\n    v\n};\n/// Mask of all reserved-as-0 bits.\npub const RSVD0_MASK: "@,
                    base,
                    " = {\n    let mut v: "@,
                    base,
                    " = 0;\n    "@,
                    rsvd0,
                    "\n    v\n};\n/// The default value of the layout, combining all field\n/// defaults and reserved-as values.\npub const DEFAULT: "@,
                    base,
                    " = {\n    let mut v: "@,
                    base,
                    " = Self::RSVD1_MASK;\n    "@,
                    defaults,
                    "\n    v\n};\n\n"@,
                    named,
                    "\n"@,
                    reserved,
                    "\n"@,
                    list,
                    "\n"@,
                    checks,
                    "\n"@,
                ],
            )
        }),
{
    let base = layout.ty.base.def;
    let metadata = concat_of(layout.named.map_values(field_metadata_of(base)));
    lemma_fields(decimal_of(layout.named.len()) + "usize"@, base, metadata);
    lemma_check_defaults(
        concat_of(layout.named.map_values(default_check_of(base))) + concat_of(
            layout.reserved.map_values(reserved_check_of(base)),
        ),
    );
    lemma_constants(
        base,
        concat_of(layout.reserved.map_values(reserved_1_of())),
        concat_of(layout.reserved.map_values(reserved_0_of(base))),
        concat_of(layout.named.map_values(default_statement_of())),
        concat_of(layout.named.map_values(field_constants_of(base))),
        concat_of(layout.reserved.map_values(reserved_constant_of(base))),
        field_list_of(layout),
        check_defaults_of(layout),
    );
}

/// The formatting of a field: its name and its value, with the specifier of the trait if it has
/// more than one bit; a representation is written with `{:#?}`, and the bits that it lacks as
/// `InvalidBits`.
pub proof fn formatting_of_a_field(specifier: Chars, f: Field)
    requires
        f.well_formed(),
    ensures
        ({
            let name = f.name->0;
            let given = if f.high_bit == f.low_bit {
                ""@
            } else {
                specifier
            };
            let ok = "\""@ + ("{indent}"@ + name + ": {"@ + ":#?"@ + "},{sep}"@) + "\""@;
            let err = "\""@ + ("{indent}"@ + name + ": InvalidBits({"@ + given + "}),{sep}"@)
                + "\""@;
            let format = "\""@ + ("{indent}"@ + name + ": {"@ + given + "},{sep}"@) + "\""@;
            (format_field_of(specifier))(f) == if f.repr is Some {
                concat_of(
                    seq![
                        "\n{\n    match self."@,
                        name,
                        "() {\n        Ok(value) => write!(f, "@,
                        ok,
                        ", value),\n        Err(invalid) => write!(f, "@,
                        err,
                        ", invalid.0),\n    }?;\n}\n"@,
                    ],
                )
            } else {
                concat_of(
                    seq![
                        "\n{ write!(f, "@,
                        format,
                        ", self."@,
                        name,
                        "())?; }\n"@,
                    ],
                )
            }
        }),
{
    let name = f.name->0;
    let given = if f.high_bit == f.low_bit {
        ""@
    } else {
        specifier
    };
    lemma_format_repr(
        name,
        "\""@ + ("{indent}"@ + name + ": {"@ + ":#?"@ + "},{sep}"@) + "\""@,
        "\""@ + ("{indent}"@ + name + ": InvalidBits({"@ + given + "}),{sep}"@) + "\""@,
    );
    lemma_format_field("\""@ + ("{indent}"@ + name + ": {"@ + given + "},{sep}"@) + "\""@, name);
}

/// The formatting of a layout: the name of its type and each named field in turn, bounded by
/// `Debug` for each representation.
pub proof fn formatting_of_a_layout(layout: LayoutView, specifier: Chars)
    ensures
        ({
            let bounds = if exists|i: int|
                0 <= i < layout.named.len() && (#[trigger] layout.named[i]).repr is Some {
                "where "@ + concat_of(layout.named.map_values(bound_of()))
            } else {
                ""@
            };
            let ident = "\""@ + layout.ty.ident + "\""@;
            let fields = concat_of(layout.named.map_values(format_field_of(specifier)));
            fmt_fn_of(layout, specifier) == concat_of(
                seq![
                    "\nfn fmt(&self, f: &mut ::core::fmt::Formatter<'_>) -> ::core::fmt::Result\n"@,
                    bounds,
                    "\n{\n    let (sep, indent) = if f.alternate() {\n        ('\\n', \"    \")\n    } else {\n        (' ', \"\")\n    };\n    write!(f, \"{} {{{sep}\", "@,
                    ident,
                    ")?;\n    "@,
                    fields,
                    "\n    write!(f, \"}}\")\n}\n"@,
                ],
            )
        }),
        forall|f: Field|
            f.repr is Some ==> #[trigger] (bound_of())(f) == concat_of(
                seq![""@, f.repr->0, ": ::core::fmt::Debug,"@],
            ),
        forall|f: Field| f.repr is None ==> #[trigger] (bound_of())(f) == ""@,
{
    lemma_format_function(
        bounds_of(layout.named),
        "\""@ + layout.ty.ident + "\""@,
        concat_of(layout.named.map_values(format_field_of(specifier))),
    );
    assert forall|f: Field| f.repr is Some implies #[trigger] (bound_of())(f) == concat_of(
        seq![""@, f.repr->0, ": ::core::fmt::Debug,"@],
    ) by {
        lemma_format_bound(f.repr->0);
    }
}

/// Each formatting trait has the specifier of its own radix, and `Debug` is `LowerHex`.
pub proof fn formatting_traits_of_a_layout(layout: LayoutView)
    ensures
        ({
            let ident = layout.ty.ident;
            let binary = fmt_fn_of(layout, ":#b"@);
            let lower = fmt_fn_of(layout, ":#x"@);
            let upper = fmt_fn_of(layout, ":#X"@);
            let octal = fmt_fn_of(layout, ":#o"@);
            fmt_impls_of(layout) == concat_of(
                seq![
                    "\nimpl ::core::fmt::Debug for "@,
                    ident,
                    " {\n    fn fmt(&self, f: &mut ::core::fmt::Formatter<'_>) -> ::core::fmt::Result {\n        ::core::fmt::LowerHex::fmt(self, f)\n    }\n}\n\nimpl ::core::fmt::Binary for "@,
                    ident,
                    " {\n    "@,
                    binary,
                    "\n}\n\nimpl ::core::fmt::LowerHex for "@,
                    ident,
                    " {\n    "@,
                    lower,
                    "\n}\n\nimpl ::core::fmt::UpperHex for "@,
                    ident,
                    " {\n    "@,
                    upper,
                    "\n}\n\nimpl ::core::fmt::Octal for "@,
                    ident,
                    " {\n    "@,
                    octal,
                    "\n}\n"@,
                ],
            )
        }),
{
    lemma_format_impls(
        layout.ty.ident,
        fmt_fn_of(layout, ":#b"@),
        fmt_fn_of(layout, ":#x"@),
        fmt_fn_of(layout, ":#X"@),
        fmt_fn_of(layout, ":#o"@),
    );
}

/// The iterators of a layout go over all its fields, take from both ends, and hand out the
/// value of a field moved down to bit 0.
pub proof fn iterators_of_a_layout(layout: LayoutView)
    ensures
        ({
            let ident = layout.ty.ident;
            let base = layout.ty.base.def;
            let iter = bare_of(ident) + "Iter"@;
            let vis = layout.ty.vis;
            iter_impl_of(layout) == concat_of(
                seq![
                    "\n#[doc(hidden)]\n"@,
                    vis,
                    " struct "@,
                    iter,
                    "("@,
                    base,
                    ", usize, usize);\n\nimpl ::core::iter::Iterator for "@,
                    iter,
                    " {\n    type Item = (&'static ::bitfld::FieldMetadata<"@,
                    base,
                    ">, "@,
                    base,
                    ");\n\n    fn next(&mut self) -> Option<Self::Item> {\n        if self.1 >= self.2 {\n            return None;\n        }\n        let metadata = &"@,
                    ident,
                    "::FIELDS[self.1];\n        let shifted_mask = "@,
                    base,
                    "::MAX\n            >> ("@,
                    base,
                    "::BITS as usize - 1 - (metadata.high_bit - metadata.low_bit));\n        let value = (self.0 >> metadata.low_bit) & shifted_mask;\n        self.1 += 1;\n        Some((metadata, value))\n    }\n}\n\nimpl ::core::iter::DoubleEndedIterator for "@,
                    iter,
                    " {\n    fn next_back(&mut self) -> Option<Self::Item> {\n        if self.1 >= self.2 {\n            return None;\n        }\n        self.2 -= 1;\n        let metadata = &"@,
                    ident,
                    "::FIELDS[self.2];\n        let shifted_mask = "@,
                    base,
                    "::MAX\n            >> ("@,
                    base,
                    "::BITS as usize - 1 - (metadata.high_bit - metadata.low_bit));\n        let value = (self.0 >> metadata.low_bit) & shifted_mask;\n        Some((metadata, value))\n    }\n}\n\nimpl "@,
                    ident,
                    " {\n    /// Returns an iterator over\n    /// ([metadata][`bitfld::FieldMetadata`], value) pairs for each\n    /// field.\n    pub fn iter(&self) -> "@,
                    iter,
                    " {\n        "@,
                    iter,
                    "(self.0, 0, Self::NUM_FIELDS)\n    }\n}\n\nimpl ::core::iter::IntoIterator for "@,
                    ident,
                    " {\n    type Item = (&'static ::bitfld::FieldMetadata<"@,
                    base,
                    ">, "@,
                    base,
                    ");\n    type IntoIter = "@,
                    iter,
                    ";\n\n    fn into_iter(self) -> Self::IntoIter { "@,
                    iter,
                    "(self.0, 0, Self::NUM_FIELDS) }\n}\n\nimpl<'a> ::core::iter::IntoIterator for &'a "@,
                    ident,
                    " {\n    type Item = (&'static ::bitfld::FieldMetadata<"@,
                    base,
                    ">, "@,
                    base,
                    ");\n    type IntoIter = "@,
                    iter,
                    ";\n\n    fn into_iter(self) -> Self::IntoIter { "@,
                    iter,
                    "(self.0, 0, "@,
                    ident,
                    "::NUM_FIELDS) }\n}\n"@,
                ],
            )
        }),
{
    lemma_iterators(
        layout.ty.ident,
        layout.ty.base.def,
        bare_of(layout.ty.ident) + "Iter"@,
        layout.ty.vis,
    );
}

/// The source of a layout: the struct with its attributes, transparent unless it has a `repr`,
/// and all that goes with it.
pub proof fn source_of_a_layout(layout: LayoutView)
    ensures
        ({
            let ident = layout.ty.ident;
            let base = layout.ty.base.def;
            let def = concat_of(layout.ty.attrs) + (if layout.ty.repr {
                ""@
            } else {
                "#[repr(transparent)] "@
            }) + layout.ty.body;
            let constants = constants_of(layout);
            let accessors = concat_of(
                layout.named.map_values(|f: Field| accessors_of(f, layout.ty)),
            );
            let iterators = iter_impl_of(layout);
            let formatting = fmt_impls_of(layout);
            expansion_of(layout) == concat_of(
                seq![
                    "\n#[derive(Copy, Clone, Eq, PartialEq)]\n"@,
                    def,
                    "\n\nimpl "@,
                    ident,
                    " {\n    "@,
                    constants,
                    "\n\n    /// Creates a new instance with reserved-as-1 bits set and\n    /// all other bits zeroed (i.e., with a value of\n    /// [`Self::RSVD1_MASK`]).\n    pub const fn new() -> Self {\n        Self(Self::RSVD1_MASK)\n    }\n\n    "@,
                    accessors,
                    "\n}\n\nimpl ::core::default::Default for "@,
                    ident,
                    " {\n    /// Returns an instance with the default bits set (i.e,. with a\n    /// value of [`Self::DEFAULT`].\n    fn default() -> Self {\n        Self(Self::DEFAULT)\n    }\n}\n\nimpl ::core::convert::From<"@,
                    base,
                    "> for "@,
                    ident,
                    " {\n    // `RSVD{0,1}_MASK` may be zero, in which case the following\n    // mask conditions might be trivially true.\n    #[allow(clippy::bad_bit_mask)]\n    fn from(value: "@,
                    base,
                    ") -> Self {\n        debug_assert!(\n            value & Self::RSVD1_MASK == Self::RSVD1_MASK,\n            \"from(): Invalid base value ({value:#x}) has reserved-as-1 bits ({:#x}) unset\",\n            Self::RSVD1_MASK,\n        );\n        debug_assert!(\n            !value & Self::RSVD0_MASK == Self::RSVD0_MASK,\n            \"from(): Invalid base value ({value:#x}) has reserved-as-0 bits ({:#x}) set\",\n            Self::RSVD0_MASK,\n        );\n        Self(value)\n    }\n}\n\nimpl ::core::ops::Deref for "@,
                    ident,
                    " {\n    type Target = "@,
                    base,
                    ";\n\n    fn deref(&self) -> &Self::Target {\n        &self.0\n    }\n}\n\nimpl ::core::ops::DerefMut for "@,
                    ident,
                    " {\n    fn deref_mut(&mut self) -> &mut Self::Target {\n        &mut self.0\n    }\n}\n\n"@,
                    iterators,
                    "\n\n"@,
                    formatting,
                    "\n"@,
                ],
            )
        }),
{
    let accessors = layout.named.map_values(|f: Field| accessors_of(f, layout.ty));
    assert(layout.named.map_values(accessors_in(layout.ty)) =~= accessors);
    lemma_layout(
        struct_text_of(layout.ty),
        layout.ty.ident,
        constants_of(layout),
        concat_of(accessors),
        layout.ty.base.def,
        iter_impl_of(layout),
        fmt_impls_of(layout),
    );
}

/// The source of a representation.
pub proof fn source_of_a_representation(attr: Chars, item: Chars)
    ensures
        fill_of(BITFIELD_REPR@, seq![attr, item]) == concat_of(
            seq![
                "\n#[repr("@,
                attr,
                ")]\n#[derive(\n    Debug,\n    Eq,\n    PartialEq,\n    ::zerocopy::Immutable,\n    ::zerocopy::IntoBytes,\n    ::zerocopy::TryFromBytes,\n)]\n"@,
                item,
                "\n"@,
            ],
        ),
{
    lemma_bitfield_repr(attr, item);
}

} // verus!
