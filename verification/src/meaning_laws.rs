//! That the generated source does what the model of a layout does: the numerals and literals in
//! it, read back, give the model's accessors and constants.

use crate::accessors::accessors_of;
use crate::bitfield::Bitfield;
use crate::constants::{field_constants_of, reserved_constant_of};
use crate::layout::LayoutView;
use crate::register::{RegisterView, cast, placed, register_is_well_formed, register_of};
use crate::source_laws::{
    accessors_of_a_bit, accessors_of_a_field, accessors_of_a_represented_field,
    constants_of_a_field, narrowest, source_of_a_reserved_field,
};
use crate::syntax::Chars;
use crate::templates::{
    holds, joined_parts_are_held, joined_run_is_held, joining_splits, numerals_denote,
};
use crate::text::{concat_of, decimal_of, number_of, uppercase_of};
use crate::word::{bit, field_of, mask_of, ones, up, with_field, with_unshifted, word_of};
use vstd::prelude::*;

verus! {

/// What `get_field!` gives of a word: bits `high` down to `low`, moved down to bit 0 if `shifted`.
pub open spec fn got(v: u128, high: nat, low: nat, shifted: bool) -> u128 {
    if shifted {
        field_of(v, high as int, low as int)
    } else {
        v & mask_of(high as int, low as int)
    }
}

/// What `set_field!` makes of a word: bits `high` down to `low` replaced, by the lowest bits of `x`
/// if `shifted`, else by its bits at the same places.
pub open spec fn put(v: u128, high: nat, low: nat, shifted: bool, x: u128) -> u128 {
    if shifted {
        with_field(v, high as int, low as int, x)
    } else {
        with_unshifted(v, high as int, low as int, x)
    }
}

/// A call of `get_field!`.
pub open spec fn get_call(
    base: Chars,
    ty: Chars,
    high: Chars,
    low: Chars,
    shifted: Chars,
) -> Chars {
    concat_of(
        seq![
            "::bitfld::get_field!("@,
            base,
            ", "@,
            ty,
            ", "@,
            high + "usize"@,
            ", "@,
            low + "usize"@,
            ", "@,
            shifted,
            ", self.0)"@,
        ],
    )
}

/// A call of `set_field!`.
pub open spec fn set_call(base: Chars, high: Chars, low: Chars, shifted: Chars) -> Chars {
    concat_of(
        seq![
            "::bitfld::set_field!("@,
            base,
            ", "@,
            high + "usize"@,
            ", "@,
            low + "usize"@,
            ", "@,
            shifted,
            ", self.0, value)"@,
        ],
    )
}

/// Whether a text reads and writes field `i` of a word as the model does: it has a call of each
/// macro, and the numerals and the literal in both, read back, give what the model gives.
pub open spec fn accesses(
    text: Chars,
    base: Chars,
    ty: Chars,
    high: Chars,
    low: Chars,
    shifted: Chars,
    r: RegisterView,
    i: int,
) -> bool {
    &&& holds(text, get_call(base, ty, high, low, shifted))
    &&& holds(text, set_call(base, high, low, shifted))
    &&& number_of(high) is Some && number_of(low) is Some
    &&& shifted == "true"@ || shifted == "false"@
    &&& forall|v: u128| #[trigger]
        r.get_of(v, i) == got(v, number_of(high)->0, number_of(low)->0, shifted == "true"@)
    &&& forall|v: u128, x: u128| #[trigger]
        r.set_of(v, i, x) == put(v, number_of(high)->0, number_of(low)->0, shifted == "true"@, x)
}

/// The accessors in the source of a field that is no single bit, or is unshifted, do what the
/// model's do.
pub proof fn accessors_do_what_the_model_does(
    layout: LayoutView,
    defaults: Seq<u128>,
    values: Seq<u128>,
    i: int,
)
    requires
        layout.well_formed(),
        register_of(layout, defaults, values) is Ok,
        0 <= i < layout.named.len(),
        layout.named[i].high_bit != layout.named[i].low_bit || layout.named[i].unshifted,
    ensures
        ({
            let r = register_of(layout, defaults, values)->Ok_0;
            exists|ty: Chars, high: Chars, low: Chars, shifted: Chars| #[trigger]
                accesses(
                    accessors_of(layout.named[i], layout.ty),
                    layout.ty.base.def,
                    ty,
                    high,
                    low,
                    shifted,
                    r,
                    i,
                )
        }),
{
    let r = register_of(layout, defaults, values)->Ok_0;
    let f = layout.named[i];
    let base = layout.ty.base.def;
    let b = Bitfield::minimum_width_of(f.width());
    let high = decimal_of(f.high_bit as nat);
    let low = decimal_of(f.low_bit as nat);
    let ty = if f.unshifted {
        base
    } else {
        b.name_of()
    };
    let shifted = if f.unshifted {
        "false"@
    } else {
        "true"@
    };
    reveal_strlit("true");
    reveal_strlit("false");
    assert("true"@.len() != "false"@.len());
    assert(f.well_formed());
    assert(narrowest(b, f.width()));
    numerals_denote(f.high_bit as nat);
    numerals_denote(f.low_bit as nat);
    let text = accessors_of(f, layout.ty);
    let get = get_call(base, ty, high, low, shifted);
    let set = set_call(base, high, low, shifted);
    let range = Bitfield::display_range_of(f);
    let docs = concat_of(f.doc_attrs);
    let name = f.name->0;
    let setter = "set_"@ + crate::accessors::bare_of(name);
    let qualifier = if f.unshifted {
        "unshifted "@
    } else {
        ""@
    };
    let get_doc = "\""@ + ("The "@ + qualifier + "value of `"@ + layout.ty.ident + range + "`."@)
        + "\""@;
    let set_doc = "\""@ + ("Sets the "@ + qualifier + "value of `"@ + layout.ty.ident + range
        + "`."@) + "\""@;
    if f.repr is None {
        accessors_of_a_field(f, layout.ty, b);
        let a = seq![
            "\n"@,
            docs,
            "\n#[doc = "@,
            get_doc,
            "]\n#[inline]\npub const fn "@,
            name,
            "(&self) -> "@,
            ty,
            " {\n    "@,
            get,
            "\n}\n"@,
        ];
        let c = seq![
            "\n#[doc = "@,
            set_doc,
            "]\n#[inline]\npub const fn "@,
            setter,
            "(&mut self, value: "@,
            ty,
            ") -> &mut Self {\n    let value = value as "@,
            base,
            ";\n    "@,
            set,
            " ;\n    self\n}\n"@,
        ];
        joining_splits(a, c);
        assert((a + c)[9] == get && (a + c)[20] == set);
        joined_parts_are_held(a + c, 9);
        joined_parts_are_held(a + c, 20);
    } else {
        accessors_of_a_represented_field(f, layout.ty, b);
        let repr = f.repr->0;
        let a = seq![
            "\n"@,
            docs,
            "\n#[doc = "@,
            get_doc,
            "]\n#[inline]\npub fn "@,
            name,
            "(&self) -> ::core::result::Result<"@,
            repr,
            ", ::bitfld::InvalidBits<"@,
            ty,
            ">>\nwhere\n    "@,
            repr,
            ": ::zerocopy::TryFromBytes,\n{\n    use ::zerocopy::IntoBytes;\n    use ::zerocopy::TryFromBytes;\n    let value = "@,
            get,
            " ;\n    "@,
            repr,
            "::try_read_from_bytes(value.as_bytes())\n        .map_err(|_| ::bitfld::InvalidBits(value))\n}\n"@,
        ];
        let c = seq![
            "\n#[doc = "@,
            set_doc,
            "]\n#[inline]\npub fn "@,
            setter,
            "(&mut self, value: "@,
            repr,
            ") -> &mut Self\nwhere\n    "@,
            repr,
            ": ::zerocopy::IntoBytes + ::zerocopy::Immutable\n{\n    use ::zerocopy::IntoBytes;\n    use ::zerocopy::FromBytes;\n    const { assert!(::core::mem::size_of::<"@,
            repr,
            ">() == ::core::mem::size_of::<"@,
            ty,
            ">()) }\n    let value = "@,
            ty,
            "::read_from_bytes(value.as_bytes()).unwrap() as "@,
            base,
            ";\n    "@,
            set,
            " ;\n    self\n}\n"@,
        ];
        joining_splits(a, c);
        assert((a + c)[13] == get && (a + c)[34] == set);
        joined_parts_are_held(a + c, 13);
        joined_parts_are_held(a + c, 34);
    }
    assert(accesses(
        text,
        base,
        ty,
        high,
        low,
        shifted,
        r,
        i,
    ));
}

/// Whether a text reads and writes the bit that a numeral in it denotes.
pub open spec fn accesses_bit(text: Chars, low: Chars, n: nat) -> bool {
    &&& holds(
        text,
        concat_of(
            seq![
                "(&self) -> bool {\n    ::bitfld::get_bit!(self.0, "@,
                low + "usize"@,
                ")\n}\n\n"@,
            ],
        ),
    )
    &&& holds(
        text,
        concat_of(
            seq![
                "(&mut self, value: bool) -> &mut Self {\n    ::bitfld::set_bit!(self.0, "@,
                low + "usize"@,
                ", value);\n    self\n}\n"@,
            ],
        ),
    )
    &&& number_of(low) == Some(n)
}

/// The accessors in the source of a single bit read and write the bit that the model's do.
pub proof fn accessors_of_a_bit_do_what_the_model_does(
    layout: LayoutView,
    defaults: Seq<u128>,
    values: Seq<u128>,
    i: int,
    v: u128,
)
    requires
        layout.well_formed(),
        register_of(layout, defaults, values) is Ok,
        0 <= i < layout.named.len(),
        layout.named[i].high_bit == layout.named[i].low_bit,
        !layout.named[i].unshifted,
    ensures
        ({
            let r = register_of(layout, defaults, values)->Ok_0;
            exists|low: Chars, n: nat| #[trigger]
                accesses_bit(accessors_of(layout.named[i], layout.ty), low, n) && r.get_of(v, i)
                    == word_of(bit(v, n as int))
        }),
{
    let r = register_of(layout, defaults, values)->Ok_0;
    let f = layout.named[i];
    register_is_well_formed(layout, defaults, values);
    crate::laws::flag_is_its_bit(r, v, i, true);
    numerals_denote(f.low_bit as nat);
    accessors_of_a_bit(f, layout.ty);
    let low = decimal_of(f.low_bit as nat);
    let docs = concat_of(f.doc_attrs);
    let name = f.name->0;
    let get_doc = "\""@ + ("The "@ + ""@ + "value of `"@ + layout.ty.ident + low + "`."@) + "\""@;
    let set_doc = "\""@ + ("Sets the "@ + ""@ + "value of `"@ + layout.ty.ident + low + "`."@)
        + "\""@;
    let a = seq!["\n"@, docs, "\n#[doc = "@, get_doc, "]\n#[inline]\npub const fn "@, name];
    let get = seq![
        "(&self) -> bool {\n    ::bitfld::get_bit!(self.0, "@,
        low + "usize"@,
        ")\n}\n\n"@,
    ];
    let b = seq![
        docs,
        "\n#[doc = "@,
        set_doc,
        "]\n#[inline]\npub const fn "@,
        "set_"@ + crate::accessors::bare_of(name),
    ];
    let set = seq![
        "(&mut self, value: bool) -> &mut Self {\n    ::bitfld::set_bit!(self.0, "@,
        low + "usize"@,
        ", value);\n    self\n}\n"@,
    ];
    let none = Seq::<Chars>::empty();
    joined_run_is_held(a, get, b + set);
    joined_run_is_held(a + get + b, set, none);
    let all = seq![
        "\n"@,
        docs,
        "\n#[doc = "@,
        get_doc,
        "]\n#[inline]\npub const fn "@,
        name,
        "(&self) -> bool {\n    ::bitfld::get_bit!(self.0, "@,
        low + "usize"@,
        ")\n}\n\n"@,
        docs,
        "\n#[doc = "@,
        set_doc,
        "]\n#[inline]\npub const fn "@,
        "set_"@ + crate::accessors::bare_of(name),
        "(&mut self, value: bool) -> &mut Self {\n    ::bitfld::set_bit!(self.0, "@,
        low + "usize"@,
        ", value);\n    self\n}\n"@,
    ];
    assert(a + get + (b + set) =~= all);
    assert(a + get + b + set + none =~= all);
    assert(accesses_bit(accessors_of(f, layout.ty), low, f.low_bit as nat));
}

/// Whether a text defines a constant as a given expression, moved up by the bits that a numeral in
/// it denotes.
pub open spec fn defines_default(
    text: Chars,
    upper: Chars,
    base: Chars,
    default: Chars,
    low: Chars,
    n: nat,
) -> bool {
    &&& holds(
        text,
        concat_of(
            seq![
                "]\npub const "@,
                upper,
                "_DEFAULT: "@,
                base,
                " = (("@,
                default,
                ") as "@,
                base,
                ") << "@,
                low,
                ";\n"@,
            ],
        ),
    )
    &&& number_of(low) == Some(n)
}

/// Converting a number to the base type before it is moved changes nothing.
proof fn lemma_placed_cast(r: RegisterView, v: u128, low: int)
    ensures
        placed(r.base, cast(r.base, v), low) == placed(r.base, v, low),
{
    let m = ones(r.base.bits() as int);
    assert((v & m) & m == v & m) by (bit_vector);
}

/// The default constant in the source of a field has the value that it has in the model: the
/// declared expression as one of the base type, moved up by the numeral behind it.
pub proof fn default_constants_have_the_values_of_the_model(
    layout: LayoutView,
    defaults: Seq<u128>,
    values: Seq<u128>,
    i: int,
)
    requires
        layout.well_formed(),
        register_of(layout, defaults, values) is Ok,
        0 <= i < layout.named.len(),
        layout.named[i].default is Some,
    ensures
        ({
            let r = register_of(layout, defaults, values)->Ok_0;
            let f = layout.named[i];
            let base = layout.ty.base.def;
            exists|low: Chars, n: nat| #[trigger]
                defines_default(
                    (field_constants_of(base))(f),
                    uppercase_of(f.name->0),
                    base,
                    f.default->0,
                    low,
                    n,
                ) && r.default_bits(i) == cast(r.base, up(cast(r.base, defaults[i]), n as int))
        }),
{
    let r = register_of(layout, defaults, values)->Ok_0;
    let f = layout.named[i];
    let base = layout.ty.base.def;
    let name = f.name->0;
    let upper = uppercase_of(name);
    let low = decimal_of(f.low_bit as nat);
    numerals_denote(f.low_bit as nat);
    lemma_placed_cast(r, defaults[i], f.low_bit as int);
    constants_of_a_field(base, f);
    let mask = concat_of(
        seq![
            "::bitfld::shifted_mask!("@,
            base,
            ", "@,
            decimal_of(f.high_bit as nat) + "usize"@,
            ", "@,
            low,
            ")"@,
        ],
    );
    let a = seq![
        "\n#[doc = "@,
        "\""@ + ("Unshifted bitmask of "@ + "`"@ + name + "`"@ + "."@) + "\""@,
        "]\npub const "@,
        upper,
        "_MASK: "@,
        base,
        " = ("@,
        mask,
        " << "@,
        low,
        ");\n#[doc = "@,
        "\""@ + ("Bit shift (i.e., the low bit) of "@ + "`"@ + name + "`"@ + "."@) + "\""@,
        "]\npub const "@,
        upper,
        "_SHIFT: usize = "@,
        low,
        ";\n"@,
    ];
    let b = seq![
        "\n#[doc = "@,
        "\""@ + ("Pre-shifted default value of the "@ + "`"@ + name + "`"@ + " field."@) + "\""@,
    ];
    let run = seq![
        "]\npub const "@,
        upper,
        "_DEFAULT: "@,
        base,
        " = (("@,
        f.default->0,
        ") as "@,
        base,
        ") << "@,
        low,
        ";\n"@,
    ];
    let none = Seq::<Chars>::empty();
    let whole = seq![
        "\n#[doc = "@,
        "\""@ + ("Pre-shifted default value of the "@ + "`"@ + name + "`"@ + " field."@) + "\""@,
        "]\npub const "@,
        upper,
        "_DEFAULT: "@,
        base,
        " = (("@,
        f.default->0,
        ") as "@,
        base,
        ") << "@,
        low,
        ";\n"@,
    ];
    joining_splits(a, whole);
    joined_run_is_held(a + b, run, none);
    assert(a + b + run + none =~= a + whole);
    assert(defines_default(
        (field_constants_of(base))(f),
        upper,
        base,
        f.default->0,
        low,
        f.low_bit as nat,
    ));
}

/// Whether a text defines the constant of a reserved field as a given value, moved up by the bits
/// that a numeral in it denotes.
pub open spec fn defines_reserved(
    text: Chars,
    high: Chars,
    base: Chars,
    value: Chars,
    low: Chars,
    n: nat,
) -> bool {
    &&& text == concat_of(
        seq![
            "\nconst RSVD_"@,
            high,
            "_"@,
            low,
            ": "@,
            base,
            " = ("@,
            value,
            " as "@,
            base,
            ") << "@,
            low,
            ";\n"@,
        ],
    )
    &&& number_of(low) == Some(n)
}

/// The constant in the source of a reserved field has the value that it has in the model.
pub proof fn reserved_constants_have_the_values_of_the_model(
    layout: LayoutView,
    defaults: Seq<u128>,
    values: Seq<u128>,
    i: int,
)
    requires
        layout.well_formed(),
        register_of(layout, defaults, values) is Ok,
        0 <= i < layout.reserved.len(),
    ensures
        ({
            let r = register_of(layout, defaults, values)->Ok_0;
            let f = layout.reserved[i];
            let base = layout.ty.base.def;
            exists|low: Chars, n: nat| #[trigger]
                defines_reserved(
                    (reserved_constant_of(base))(f),
                    decimal_of(f.high_bit as nat),
                    base,
                    f.default->0,
                    low,
                    n,
                ) && r.reserved_bits(i) == cast(r.base, up(cast(r.base, values[i]), n as int))
        }),
{
    let r = register_of(layout, defaults, values)->Ok_0;
    let f = layout.reserved[i];
    let base = layout.ty.base.def;
    let low = decimal_of(f.low_bit as nat);
    numerals_denote(f.low_bit as nat);
    lemma_placed_cast(r, values[i], f.low_bit as int);
    source_of_a_reserved_field(base, f);
    assert(defines_reserved(
        (reserved_constant_of(base))(f),
        decimal_of(f.high_bit as nat),
        base,
        f.default->0,
        low,
        f.low_bit as nat,
    ));
}

} // verus!
