//! The texts that the templates of the generated source fill to, part by part.

use crate::accessors::{
    FLAG_ACCESSORS, GETTER, GET_FIELD, REPR_GETTER, REPR_SETTER, SETTER, SET_FIELD,
};
use crate::constants::{
    CHECK_DEFAULTS, CONSTANTS, DEFAULT_CHECK, DEFAULT_CONSTANT, DEFAULT_STATEMENT, FIELDS,
    FIELD_CONSTANTS, FIELD_METADATA, RESERVED_0_STATEMENT, RESERVED_1_STATEMENT, RESERVED_CHECK,
    RESERVED_CONSTANT, SHIFTED_MASK,
};
use crate::expand::{BITFIELD_REPR, ITERATORS, LAYOUT};
use crate::format::{FORMAT_BOUND, FORMAT_FIELD, FORMAT_FUNCTION, FORMAT_IMPLS, FORMAT_REPR};
use crate::syntax::Chars;
use crate::templates::{lemma_finish, lemma_start, lemma_step};
use crate::text::{concat_of, fill_of};
use vstd::prelude::*;

verus! {

/// The text of the accessors of a single bit.
pub(crate) proof fn lemma_flag_accessors(
    docs: Chars,
    get_doc: Chars,
    name: Chars,
    bit: Chars,
    set_doc: Chars,
    setter: Chars,
)
    ensures
        fill_of(FLAG_ACCESSORS@, seq![docs, get_doc, name, bit, set_doc, setter]) == concat_of(
            seq![
                "\n"@,
                docs,
                "\n#[doc = "@,
                get_doc,
                "]\n#[inline]\npub const fn "@,
                name,
                "(&self) -> bool {\n    ::bitfld::get_bit!(self.0, "@,
                bit,
                ")\n}\n\n"@,
                docs,
                "\n#[doc = "@,
                set_doc,
                "]\n#[inline]\npub const fn "@,
                setter,
                "(&mut self, value: bool) -> &mut Self {\n    ::bitfld::set_bit!(self.0, "@,
                bit,
                ", value);\n    self\n}\n"@,
            ],
        ),
{
    let t = FLAG_ACCESSORS@;
    let args = seq![docs, get_doc, name, bit, set_doc, setter];
    reveal_strlit("
$0
#[doc = $1]
#[inline]
pub const fn $2(&self) -> bool {
    ::bitfld::get_bit!(self.0, $3)
}

$0
#[doc = $4]
#[inline]
pub const fn $5(&mut self, value: bool) -> &mut Self {
    ::bitfld::set_bit!(self.0, $3, value);
    self
}
");
    reveal_strlit("\n");
    reveal_strlit("\n#[doc = ");
    reveal_strlit("]\n#[inline]\npub const fn ");
    reveal_strlit("(&self) -> bool {\n    ::bitfld::get_bit!(self.0, ");
    reveal_strlit(")\n}\n\n");
    reveal_strlit("(&mut self, value: bool) -> &mut Self {\n    ::bitfld::set_bit!(self.0, ");
    reveal_strlit(", value);\n    self\n}\n");
    let parts = Seq::<Chars>::empty();
    lemma_start(t, args);
    lemma_step(t, args, parts, 0, "\n"@, 0);
    let parts = parts.push("\n"@).push(docs);
    lemma_step(t, args, parts, 3, "\n#[doc = "@, 1);
    let parts = parts.push("\n#[doc = "@).push(get_doc);
    lemma_step(t, args, parts, 14, "]\n#[inline]\npub const fn "@, 2);
    let parts = parts.push("]\n#[inline]\npub const fn "@).push(name);
    lemma_step(t, args, parts, 41, "(&self) -> bool {\n    ::bitfld::get_bit!(self.0, "@, 3);
    let parts = parts.push("(&self) -> bool {\n    ::bitfld::get_bit!(self.0, "@).push(bit);
    lemma_step(t, args, parts, 92, ")\n}\n\n"@, 0);
    let parts = parts.push(")\n}\n\n"@).push(docs);
    lemma_step(t, args, parts, 99, "\n#[doc = "@, 4);
    let parts = parts.push("\n#[doc = "@).push(set_doc);
    lemma_step(t, args, parts, 110, "]\n#[inline]\npub const fn "@, 5);
    let parts = parts.push("]\n#[inline]\npub const fn "@).push(setter);
    lemma_step(t, args, parts, 137, "(&mut self, value: bool) -> &mut Self {\n    ::bitfld::set_bit!(self.0, "@, 3);
    let parts = parts.push("(&mut self, value: bool) -> &mut Self {\n    ::bitfld::set_bit!(self.0, "@).push(bit);
    lemma_finish(t, args, parts, 210, ", value);\n    self\n}\n"@);
    assert(parts.push(", value);\n    self\n}\n"@) =~= seq![
        "\n"@,
        docs,
        "\n#[doc = "@,
        get_doc,
        "]\n#[inline]\npub const fn "@,
        name,
        "(&self) -> bool {\n    ::bitfld::get_bit!(self.0, "@,
        bit,
        ")\n}\n\n"@,
        docs,
        "\n#[doc = "@,
        set_doc,
        "]\n#[inline]\npub const fn "@,
        setter,
        "(&mut self, value: bool) -> &mut Self {\n    ::bitfld::set_bit!(self.0, "@,
        bit,
        ", value);\n    self\n}\n"@,
    ]);
}

/// The text of the reading of a field.
pub(crate) proof fn lemma_get_field(
    base: Chars,
    clamped: Chars,
    high: Chars,
    low: Chars,
    shifted: Chars,
)
    ensures
        fill_of(GET_FIELD@, seq![base, clamped, high, low, shifted]) == concat_of(
            seq![
                "::bitfld::get_field!("@,
                base,
                ", "@,
                clamped,
                ", "@,
                high,
                ", "@,
                low,
                ", "@,
                shifted,
                ", self.0)"@,
            ],
        ),
{
    let t = GET_FIELD@;
    let args = seq![base, clamped, high, low, shifted];
    reveal_strlit("::bitfld::get_field!($0, $1, $2, $3, $4, self.0)");
    reveal_strlit("::bitfld::get_field!(");
    reveal_strlit(", ");
    reveal_strlit(", self.0)");
    let parts = Seq::<Chars>::empty();
    lemma_start(t, args);
    lemma_step(t, args, parts, 0, "::bitfld::get_field!("@, 0);
    let parts = parts.push("::bitfld::get_field!("@).push(base);
    lemma_step(t, args, parts, 23, ", "@, 1);
    let parts = parts.push(", "@).push(clamped);
    lemma_step(t, args, parts, 27, ", "@, 2);
    let parts = parts.push(", "@).push(high);
    lemma_step(t, args, parts, 31, ", "@, 3);
    let parts = parts.push(", "@).push(low);
    lemma_step(t, args, parts, 35, ", "@, 4);
    let parts = parts.push(", "@).push(shifted);
    lemma_finish(t, args, parts, 39, ", self.0)"@);
    assert(parts.push(", self.0)"@) =~= seq![
        "::bitfld::get_field!("@,
        base,
        ", "@,
        clamped,
        ", "@,
        high,
        ", "@,
        low,
        ", "@,
        shifted,
        ", self.0)"@,
    ]);
}

/// The text of the writing of a field.
pub(crate) proof fn lemma_set_field(base: Chars, high: Chars, low: Chars, shifted: Chars)
    ensures
        fill_of(SET_FIELD@, seq![base, high, low, shifted]) == concat_of(
            seq![
                "::bitfld::set_field!("@,
                base,
                ", "@,
                high,
                ", "@,
                low,
                ", "@,
                shifted,
                ", self.0, value)"@,
            ],
        ),
{
    let t = SET_FIELD@;
    let args = seq![base, high, low, shifted];
    reveal_strlit("::bitfld::set_field!($0, $1, $2, $3, self.0, value)");
    reveal_strlit("::bitfld::set_field!(");
    reveal_strlit(", ");
    reveal_strlit(", self.0, value)");
    let parts = Seq::<Chars>::empty();
    lemma_start(t, args);
    lemma_step(t, args, parts, 0, "::bitfld::set_field!("@, 0);
    let parts = parts.push("::bitfld::set_field!("@).push(base);
    lemma_step(t, args, parts, 23, ", "@, 1);
    let parts = parts.push(", "@).push(high);
    lemma_step(t, args, parts, 27, ", "@, 2);
    let parts = parts.push(", "@).push(low);
    lemma_step(t, args, parts, 31, ", "@, 3);
    let parts = parts.push(", "@).push(shifted);
    lemma_finish(t, args, parts, 35, ", self.0, value)"@);
    assert(parts.push(", self.0, value)"@) =~= seq![
        "::bitfld::set_field!("@,
        base,
        ", "@,
        high,
        ", "@,
        low,
        ", "@,
        shifted,
        ", self.0, value)"@,
    ]);
}

/// The text of the getter of a field with a representation.
pub(crate) proof fn lemma_repr_getter(
    docs: Chars,
    doc: Chars,
    name: Chars,
    repr: Chars,
    clamped: Chars,
    get: Chars,
)
    ensures
        fill_of(REPR_GETTER@, seq![docs, doc, name, repr, clamped, get]) == concat_of(
            seq![
                "\n"@,
                docs,
                "\n#[doc = "@,
                doc,
                "]\n#[inline]\npub fn "@,
                name,
                "(&self) -> ::core::result::Result<"@,
                repr,
                ", ::bitfld::InvalidBits<"@,
                clamped,
                ">>\nwhere\n    "@,
                repr,
                ": ::zerocopy::TryFromBytes,\n{\n    use ::zerocopy::IntoBytes;\n    use ::zerocopy::TryFromBytes;\n    let value = "@,
                get,
                " ;\n    "@,
                repr,
                "::try_read_from_bytes(value.as_bytes())\n        .map_err(|_| ::bitfld::InvalidBits(value))\n}\n"@,
            ],
        ),
{
    let t = REPR_GETTER@;
    let args = seq![docs, doc, name, repr, clamped, get];
    reveal_strlit("
$0
#[doc = $1]
#[inline]
pub fn $2(&self) -> ::core::result::Result<$3, ::bitfld::InvalidBits<$4>>
where
    $3: ::zerocopy::TryFromBytes,
{
    use ::zerocopy::IntoBytes;
    use ::zerocopy::TryFromBytes;
    let value = $5 ;
    $3::try_read_from_bytes(value.as_bytes())
        .map_err(|_| ::bitfld::InvalidBits(value))
}
");
    reveal_strlit("\n");
    reveal_strlit("\n#[doc = ");
    reveal_strlit("]\n#[inline]\npub fn ");
    reveal_strlit("(&self) -> ::core::result::Result<");
    reveal_strlit(", ::bitfld::InvalidBits<");
    reveal_strlit(">>\nwhere\n    ");
    reveal_strlit(": ::zerocopy::TryFromBytes,\n{\n    use ::zerocopy::IntoBytes;\n    use ::zerocopy::TryFromBytes;\n    let value = ");
    reveal_strlit(" ;\n    ");
    reveal_strlit("::try_read_from_bytes(value.as_bytes())\n        .map_err(|_| ::bitfld::InvalidBits(value))\n}\n");
    let parts = Seq::<Chars>::empty();
    lemma_start(t, args);
    lemma_step(t, args, parts, 0, "\n"@, 0);
    let parts = parts.push("\n"@).push(docs);
    lemma_step(t, args, parts, 3, "\n#[doc = "@, 1);
    let parts = parts.push("\n#[doc = "@).push(doc);
    lemma_step(t, args, parts, 14, "]\n#[inline]\npub fn "@, 2);
    let parts = parts.push("]\n#[inline]\npub fn "@).push(name);
    lemma_step(t, args, parts, 35, "(&self) -> ::core::result::Result<"@, 3);
    let parts = parts.push("(&self) -> ::core::result::Result<"@).push(repr);
    lemma_step(t, args, parts, 71, ", ::bitfld::InvalidBits<"@, 4);
    let parts = parts.push(", ::bitfld::InvalidBits<"@).push(clamped);
    lemma_step(t, args, parts, 97, ">>\nwhere\n    "@, 3);
    let parts = parts.push(">>\nwhere\n    "@).push(repr);
    lemma_step(t, args, parts, 112, ": ::zerocopy::TryFromBytes,\n{\n    use ::zerocopy::IntoBytes;\n    use ::zerocopy::TryFromBytes;\n    let value = "@, 5);
    let parts = parts.push(": ::zerocopy::TryFromBytes,\n{\n    use ::zerocopy::IntoBytes;\n    use ::zerocopy::TryFromBytes;\n    let value = "@).push(get);
    lemma_step(t, args, parts, 225, " ;\n    "@, 3);
    let parts = parts.push(" ;\n    "@).push(repr);
    lemma_finish(t, args, parts, 234, "::try_read_from_bytes(value.as_bytes())\n        .map_err(|_| ::bitfld::InvalidBits(value))\n}\n"@);
    assert(parts.push("::try_read_from_bytes(value.as_bytes())\n        .map_err(|_| ::bitfld::InvalidBits(value))\n}\n"@) =~= seq![
        "\n"@,
        docs,
        "\n#[doc = "@,
        doc,
        "]\n#[inline]\npub fn "@,
        name,
        "(&self) -> ::core::result::Result<"@,
        repr,
        ", ::bitfld::InvalidBits<"@,
        clamped,
        ">>\nwhere\n    "@,
        repr,
        ": ::zerocopy::TryFromBytes,\n{\n    use ::zerocopy::IntoBytes;\n    use ::zerocopy::TryFromBytes;\n    let value = "@,
        get,
        " ;\n    "@,
        repr,
        "::try_read_from_bytes(value.as_bytes())\n        .map_err(|_| ::bitfld::InvalidBits(value))\n}\n"@,
    ]);
}

/// The text of the getter of a field.
pub(crate) proof fn lemma_getter(docs: Chars, doc: Chars, name: Chars, clamped: Chars, get: Chars)
    ensures
        fill_of(GETTER@, seq![docs, doc, name, clamped, get]) == concat_of(
            seq![
                "\n"@,
                docs,
                "\n#[doc = "@,
                doc,
                "]\n#[inline]\npub const fn "@,
                name,
                "(&self) -> "@,
                clamped,
                " {\n    "@,
                get,
                "\n}\n"@,
            ],
        ),
{
    let t = GETTER@;
    let args = seq![docs, doc, name, clamped, get];
    reveal_strlit("
$0
#[doc = $1]
#[inline]
pub const fn $2(&self) -> $3 {
    $4
}
");
    reveal_strlit("\n");
    reveal_strlit("\n#[doc = ");
    reveal_strlit("]\n#[inline]\npub const fn ");
    reveal_strlit("(&self) -> ");
    reveal_strlit(" {\n    ");
    reveal_strlit("\n}\n");
    let parts = Seq::<Chars>::empty();
    lemma_start(t, args);
    lemma_step(t, args, parts, 0, "\n"@, 0);
    let parts = parts.push("\n"@).push(docs);
    lemma_step(t, args, parts, 3, "\n#[doc = "@, 1);
    let parts = parts.push("\n#[doc = "@).push(doc);
    lemma_step(t, args, parts, 14, "]\n#[inline]\npub const fn "@, 2);
    let parts = parts.push("]\n#[inline]\npub const fn "@).push(name);
    lemma_step(t, args, parts, 41, "(&self) -> "@, 3);
    let parts = parts.push("(&self) -> "@).push(clamped);
    lemma_step(t, args, parts, 54, " {\n    "@, 4);
    let parts = parts.push(" {\n    "@).push(get);
    lemma_finish(t, args, parts, 63, "\n}\n"@);
    assert(parts.push("\n}\n"@) =~= seq![
        "\n"@,
        docs,
        "\n#[doc = "@,
        doc,
        "]\n#[inline]\npub const fn "@,
        name,
        "(&self) -> "@,
        clamped,
        " {\n    "@,
        get,
        "\n}\n"@,
    ]);
}

/// The text of the setter of a field with a representation.
pub(crate) proof fn lemma_repr_setter(
    doc: Chars,
    name: Chars,
    repr: Chars,
    clamped: Chars,
    base: Chars,
    set: Chars,
)
    ensures
        fill_of(REPR_SETTER@, seq![doc, name, repr, clamped, base, set]) == concat_of(
            seq![
                "\n#[doc = "@,
                doc,
                "]\n#[inline]\npub fn "@,
                name,
                "(&mut self, value: "@,
                repr,
                ") -> &mut Self\nwhere\n    "@,
                repr,
                ": ::zerocopy::IntoBytes + ::zerocopy::Immutable\n{\n    use ::zerocopy::IntoBytes;\n    use ::zerocopy::FromBytes;\n    const { assert!(::core::mem::size_of::<"@,
                repr,
                ">() == ::core::mem::size_of::<"@,
                clamped,
                ">()) }\n    let value = "@,
                clamped,
                "::read_from_bytes(value.as_bytes()).unwrap() as "@,
                base,
                ";\n    "@,
                set,
                " ;\n    self\n}\n"@,
            ],
        ),
{
    let t = REPR_SETTER@;
    let args = seq![doc, name, repr, clamped, base, set];
    reveal_strlit("
#[doc = $0]
#[inline]
pub fn $1(&mut self, value: $2) -> &mut Self
where
    $2: ::zerocopy::IntoBytes + ::zerocopy::Immutable
{
    use ::zerocopy::IntoBytes;
    use ::zerocopy::FromBytes;
    const { assert!(::core::mem::size_of::<$2>() == ::core::mem::size_of::<$3>()) }
    let value = $3::read_from_bytes(value.as_bytes()).unwrap() as $4;
    $5 ;
    self
}
");
    reveal_strlit("\n#[doc = ");
    reveal_strlit("]\n#[inline]\npub fn ");
    reveal_strlit("(&mut self, value: ");
    reveal_strlit(") -> &mut Self\nwhere\n    ");
    reveal_strlit(": ::zerocopy::IntoBytes + ::zerocopy::Immutable\n{\n    use ::zerocopy::IntoBytes;\n    use ::zerocopy::FromBytes;\n    const { assert!(::core::mem::size_of::<");
    reveal_strlit(">() == ::core::mem::size_of::<");
    reveal_strlit(">()) }\n    let value = ");
    reveal_strlit("::read_from_bytes(value.as_bytes()).unwrap() as ");
    reveal_strlit(";\n    ");
    reveal_strlit(" ;\n    self\n}\n");
    let parts = Seq::<Chars>::empty();
    lemma_start(t, args);
    lemma_step(t, args, parts, 0, "\n#[doc = "@, 0);
    let parts = parts.push("\n#[doc = "@).push(doc);
    lemma_step(t, args, parts, 11, "]\n#[inline]\npub fn "@, 1);
    let parts = parts.push("]\n#[inline]\npub fn "@).push(name);
    lemma_step(t, args, parts, 32, "(&mut self, value: "@, 2);
    let parts = parts.push("(&mut self, value: "@).push(repr);
    lemma_step(t, args, parts, 53, ") -> &mut Self\nwhere\n    "@, 2);
    let parts = parts.push(") -> &mut Self\nwhere\n    "@).push(repr);
    lemma_step(t, args, parts, 80, ": ::zerocopy::IntoBytes + ::zerocopy::Immutable\n{\n    use ::zerocopy::IntoBytes;\n    use ::zerocopy::FromBytes;\n    const { assert!(::core::mem::size_of::<"@, 2);
    let parts = parts.push(": ::zerocopy::IntoBytes + ::zerocopy::Immutable\n{\n    use ::zerocopy::IntoBytes;\n    use ::zerocopy::FromBytes;\n    const { assert!(::core::mem::size_of::<"@).push(repr);
    lemma_step(t, args, parts, 237, ">() == ::core::mem::size_of::<"@, 3);
    let parts = parts.push(">() == ::core::mem::size_of::<"@).push(clamped);
    lemma_step(t, args, parts, 269, ">()) }\n    let value = "@, 3);
    let parts = parts.push(">()) }\n    let value = "@).push(clamped);
    lemma_step(t, args, parts, 294, "::read_from_bytes(value.as_bytes()).unwrap() as "@, 4);
    let parts = parts.push("::read_from_bytes(value.as_bytes()).unwrap() as "@).push(base);
    lemma_step(t, args, parts, 344, ";\n    "@, 5);
    let parts = parts.push(";\n    "@).push(set);
    lemma_finish(t, args, parts, 352, " ;\n    self\n}\n"@);
    assert(parts.push(" ;\n    self\n}\n"@) =~= seq![
        "\n#[doc = "@,
        doc,
        "]\n#[inline]\npub fn "@,
        name,
        "(&mut self, value: "@,
        repr,
        ") -> &mut Self\nwhere\n    "@,
        repr,
        ": ::zerocopy::IntoBytes + ::zerocopy::Immutable\n{\n    use ::zerocopy::IntoBytes;\n    use ::zerocopy::FromBytes;\n    const { assert!(::core::mem::size_of::<"@,
        repr,
        ">() == ::core::mem::size_of::<"@,
        clamped,
        ">()) }\n    let value = "@,
        clamped,
        "::read_from_bytes(value.as_bytes()).unwrap() as "@,
        base,
        ";\n    "@,
        set,
        " ;\n    self\n}\n"@,
    ]);
}

/// The text of the setter of a field.
pub(crate) proof fn lemma_setter(doc: Chars, name: Chars, clamped: Chars, base: Chars, set: Chars)
    ensures
        fill_of(SETTER@, seq![doc, name, clamped, base, set]) == concat_of(
            seq![
                "\n#[doc = "@,
                doc,
                "]\n#[inline]\npub const fn "@,
                name,
                "(&mut self, value: "@,
                clamped,
                ") -> &mut Self {\n    let value = value as "@,
                base,
                ";\n    "@,
                set,
                " ;\n    self\n}\n"@,
            ],
        ),
{
    let t = SETTER@;
    let args = seq![doc, name, clamped, base, set];
    reveal_strlit("
#[doc = $0]
#[inline]
pub const fn $1(&mut self, value: $2) -> &mut Self {
    let value = value as $3;
    $4 ;
    self
}
");
    reveal_strlit("\n#[doc = ");
    reveal_strlit("]\n#[inline]\npub const fn ");
    reveal_strlit("(&mut self, value: ");
    reveal_strlit(") -> &mut Self {\n    let value = value as ");
    reveal_strlit(";\n    ");
    reveal_strlit(" ;\n    self\n}\n");
    let parts = Seq::<Chars>::empty();
    lemma_start(t, args);
    lemma_step(t, args, parts, 0, "\n#[doc = "@, 0);
    let parts = parts.push("\n#[doc = "@).push(doc);
    lemma_step(t, args, parts, 11, "]\n#[inline]\npub const fn "@, 1);
    let parts = parts.push("]\n#[inline]\npub const fn "@).push(name);
    lemma_step(t, args, parts, 38, "(&mut self, value: "@, 2);
    let parts = parts.push("(&mut self, value: "@).push(clamped);
    lemma_step(t, args, parts, 59, ") -> &mut Self {\n    let value = value as "@, 3);
    let parts = parts.push(") -> &mut Self {\n    let value = value as "@).push(base);
    lemma_step(t, args, parts, 103, ";\n    "@, 4);
    let parts = parts.push(";\n    "@).push(set);
    lemma_finish(t, args, parts, 111, " ;\n    self\n}\n"@);
    assert(parts.push(" ;\n    self\n}\n"@) =~= seq![
        "\n#[doc = "@,
        doc,
        "]\n#[inline]\npub const fn "@,
        name,
        "(&mut self, value: "@,
        clamped,
        ") -> &mut Self {\n    let value = value as "@,
        base,
        ";\n    "@,
        set,
        " ;\n    self\n}\n"@,
    ]);
}

/// The text of the constants of a field.
pub(crate) proof fn lemma_field_constants(
    mask_doc: Chars,
    upper: Chars,
    base: Chars,
    mask: Chars,
    low: Chars,
    shift_doc: Chars,
)
    ensures
        fill_of(FIELD_CONSTANTS@, seq![mask_doc, upper, base, mask, low, shift_doc]) == concat_of(
            seq![
                "\n#[doc = "@,
                mask_doc,
                "]\npub const "@,
                upper,
                "_MASK: "@,
                base,
                " = ("@,
                mask,
                " << "@,
                low,
                ");\n#[doc = "@,
                shift_doc,
                "]\npub const "@,
                upper,
                "_SHIFT: usize = "@,
                low,
                ";\n"@,
            ],
        ),
{
    let t = FIELD_CONSTANTS@;
    let args = seq![mask_doc, upper, base, mask, low, shift_doc];
    reveal_strlit("
#[doc = $0]
pub const $1_MASK: $2 = ($3 << $4);
#[doc = $5]
pub const $1_SHIFT: usize = $4;
");
    reveal_strlit("\n#[doc = ");
    reveal_strlit("]\npub const ");
    reveal_strlit("_MASK: ");
    reveal_strlit(" = (");
    reveal_strlit(" << ");
    reveal_strlit(");\n#[doc = ");
    reveal_strlit("_SHIFT: usize = ");
    reveal_strlit(";\n");
    let parts = Seq::<Chars>::empty();
    lemma_start(t, args);
    lemma_step(t, args, parts, 0, "\n#[doc = "@, 0);
    let parts = parts.push("\n#[doc = "@).push(mask_doc);
    lemma_step(t, args, parts, 11, "]\npub const "@, 1);
    let parts = parts.push("]\npub const "@).push(upper);
    lemma_step(t, args, parts, 25, "_MASK: "@, 2);
    let parts = parts.push("_MASK: "@).push(base);
    lemma_step(t, args, parts, 34, " = ("@, 3);
    let parts = parts.push(" = ("@).push(mask);
    lemma_step(t, args, parts, 40, " << "@, 4);
    let parts = parts.push(" << "@).push(low);
    lemma_step(t, args, parts, 46, ");\n#[doc = "@, 5);
    let parts = parts.push(");\n#[doc = "@).push(shift_doc);
    lemma_step(t, args, parts, 59, "]\npub const "@, 1);
    let parts = parts.push("]\npub const "@).push(upper);
    lemma_step(t, args, parts, 73, "_SHIFT: usize = "@, 4);
    let parts = parts.push("_SHIFT: usize = "@).push(low);
    lemma_finish(t, args, parts, 91, ";\n"@);
    assert(parts.push(";\n"@) =~= seq![
        "\n#[doc = "@,
        mask_doc,
        "]\npub const "@,
        upper,
        "_MASK: "@,
        base,
        " = ("@,
        mask,
        " << "@,
        low,
        ");\n#[doc = "@,
        shift_doc,
        "]\npub const "@,
        upper,
        "_SHIFT: usize = "@,
        low,
        ";\n"@,
    ]);
}

/// The text of the constant of a default.
pub(crate) proof fn lemma_default_constant(
    doc: Chars,
    upper: Chars,
    base: Chars,
    default: Chars,
    low: Chars,
)
    ensures
        fill_of(DEFAULT_CONSTANT@, seq![doc, upper, base, default, low]) == concat_of(
            seq![
                "\n#[doc = "@,
                doc,
                "]\npub const "@,
                upper,
                "_DEFAULT: "@,
                base,
                " = (("@,
                default,
                ") as "@,
                base,
                ") << "@,
                low,
                ";\n"@,
            ],
        ),
{
    let t = DEFAULT_CONSTANT@;
    let args = seq![doc, upper, base, default, low];
    reveal_strlit("
#[doc = $0]
pub const $1_DEFAULT: $2 = (($3) as $2) << $4;
");
    reveal_strlit("\n#[doc = ");
    reveal_strlit("]\npub const ");
    reveal_strlit("_DEFAULT: ");
    reveal_strlit(" = ((");
    reveal_strlit(") as ");
    reveal_strlit(") << ");
    reveal_strlit(";\n");
    let parts = Seq::<Chars>::empty();
    lemma_start(t, args);
    lemma_step(t, args, parts, 0, "\n#[doc = "@, 0);
    let parts = parts.push("\n#[doc = "@).push(doc);
    lemma_step(t, args, parts, 11, "]\npub const "@, 1);
    let parts = parts.push("]\npub const "@).push(upper);
    lemma_step(t, args, parts, 25, "_DEFAULT: "@, 2);
    let parts = parts.push("_DEFAULT: "@).push(base);
    lemma_step(t, args, parts, 37, " = (("@, 3);
    let parts = parts.push(" = (("@).push(default);
    lemma_step(t, args, parts, 44, ") as "@, 2);
    let parts = parts.push(") as "@).push(base);
    lemma_step(t, args, parts, 51, ") << "@, 4);
    let parts = parts.push(") << "@).push(low);
    lemma_finish(t, args, parts, 58, ";\n"@);
    assert(parts.push(";\n"@) =~= seq![
        "\n#[doc = "@,
        doc,
        "]\npub const "@,
        upper,
        "_DEFAULT: "@,
        base,
        " = (("@,
        default,
        ") as "@,
        base,
        ") << "@,
        low,
        ";\n"@,
    ]);
}

/// The text of the mask of a field.
pub(crate) proof fn lemma_shifted_mask(base: Chars, high: Chars, low: Chars)
    ensures
        fill_of(SHIFTED_MASK@, seq![base, high, low]) == concat_of(
            seq![
                "::bitfld::shifted_mask!("@,
                base,
                ", "@,
                high,
                ", "@,
                low,
                ")"@,
            ],
        ),
{
    let t = SHIFTED_MASK@;
    let args = seq![base, high, low];
    reveal_strlit("::bitfld::shifted_mask!($0, $1, $2)");
    reveal_strlit("::bitfld::shifted_mask!(");
    reveal_strlit(", ");
    reveal_strlit(")");
    let parts = Seq::<Chars>::empty();
    lemma_start(t, args);
    lemma_step(t, args, parts, 0, "::bitfld::shifted_mask!("@, 0);
    let parts = parts.push("::bitfld::shifted_mask!("@).push(base);
    lemma_step(t, args, parts, 26, ", "@, 1);
    let parts = parts.push(", "@).push(high);
    lemma_step(t, args, parts, 30, ", "@, 2);
    let parts = parts.push(", "@).push(low);
    lemma_finish(t, args, parts, 34, ")"@);
    assert(parts.push(")"@) =~= seq![
        "::bitfld::shifted_mask!("@,
        base,
        ", "@,
        high,
        ", "@,
        low,
        ")"@,
    ]);
}

/// The text of the check of a default.
pub(crate) proof fn lemma_default_check(default: Chars, base: Chars, low: Chars, mask: Chars)
    ensures
        fill_of(DEFAULT_CHECK@, seq![default, base, low, mask]) == concat_of(
            seq![
                "\nconst { assert!((("@,
                default,
                ") as "@,
                base,
                ") << "@,
                low,
                " & !("@,
                mask,
                " << "@,
                low,
                ") == 0) }\n"@,
            ],
        ),
{
    let t = DEFAULT_CHECK@;
    let args = seq![default, base, low, mask];
    reveal_strlit("
const { assert!((($0) as $1) << $2 & !($3 << $2) == 0) }
");
    reveal_strlit("\nconst { assert!(((");
    reveal_strlit(") as ");
    reveal_strlit(") << ");
    reveal_strlit(" & !(");
    reveal_strlit(" << ");
    reveal_strlit(") == 0) }\n");
    let parts = Seq::<Chars>::empty();
    lemma_start(t, args);
    lemma_step(t, args, parts, 0, "\nconst { assert!((("@, 0);
    let parts = parts.push("\nconst { assert!((("@).push(default);
    lemma_step(t, args, parts, 21, ") as "@, 1);
    let parts = parts.push(") as "@).push(base);
    lemma_step(t, args, parts, 28, ") << "@, 2);
    let parts = parts.push(") << "@).push(low);
    lemma_step(t, args, parts, 35, " & !("@, 3);
    let parts = parts.push(" & !("@).push(mask);
    lemma_step(t, args, parts, 42, " << "@, 2);
    let parts = parts.push(" << "@).push(low);
    lemma_finish(t, args, parts, 48, ") == 0) }\n"@);
    assert(parts.push(") == 0) }\n"@) =~= seq![
        "\nconst { assert!((("@,
        default,
        ") as "@,
        base,
        ") << "@,
        low,
        " & !("@,
        mask,
        " << "@,
        low,
        ") == 0) }\n"@,
    ]);
}

/// The text of the setting of a default.
pub(crate) proof fn lemma_default_statement(upper: Chars)
    ensures
        fill_of(DEFAULT_STATEMENT@, seq![upper]) == concat_of(
            seq![
                "\n{ v |= Self::"@,
                upper,
                "_DEFAULT; }\n"@,
            ],
        ),
{
    let t = DEFAULT_STATEMENT@;
    let args = seq![upper];
    reveal_strlit("
{ v |= Self::$0_DEFAULT; }
");
    reveal_strlit("\n{ v |= Self::");
    reveal_strlit("_DEFAULT; }\n");
    let parts = Seq::<Chars>::empty();
    lemma_start(t, args);
    lemma_step(t, args, parts, 0, "\n{ v |= Self::"@, 0);
    let parts = parts.push("\n{ v |= Self::"@).push(upper);
    lemma_finish(t, args, parts, 16, "_DEFAULT; }\n"@);
    assert(parts.push("_DEFAULT; }\n"@) =~= seq![
        "\n{ v |= Self::"@,
        upper,
        "_DEFAULT; }\n"@,
    ]);
}

/// The text of the metadata of a field.
pub(crate) proof fn lemma_field_metadata(
    base: Chars,
    name: Chars,
    high: Chars,
    low: Chars,
    default: Chars,
)
    ensures
        fill_of(FIELD_METADATA@, seq![base, name, high, low, default]) == concat_of(
            seq![
                "\n::bitfld::FieldMetadata::<"@,
                base,
                ">{\n    name: "@,
                name,
                ",\n    high_bit: "@,
                high,
                ",\n    low_bit: "@,
                low,
                ",\n    default: "@,
                default,
                " as "@,
                base,
                ",\n},\n"@,
            ],
        ),
{
    let t = FIELD_METADATA@;
    let args = seq![base, name, high, low, default];
    reveal_strlit("
::bitfld::FieldMetadata::<$0>{
    name: $1,
    high_bit: $2,
    low_bit: $3,
    default: $4 as $0,
},
");
    reveal_strlit("\n::bitfld::FieldMetadata::<");
    reveal_strlit(">{\n    name: ");
    reveal_strlit(",\n    high_bit: ");
    reveal_strlit(",\n    low_bit: ");
    reveal_strlit(",\n    default: ");
    reveal_strlit(" as ");
    reveal_strlit(",\n},\n");
    let parts = Seq::<Chars>::empty();
    lemma_start(t, args);
    lemma_step(t, args, parts, 0, "\n::bitfld::FieldMetadata::<"@, 0);
    let parts = parts.push("\n::bitfld::FieldMetadata::<"@).push(base);
    lemma_step(t, args, parts, 29, ">{\n    name: "@, 1);
    let parts = parts.push(">{\n    name: "@).push(name);
    lemma_step(t, args, parts, 44, ",\n    high_bit: "@, 2);
    let parts = parts.push(",\n    high_bit: "@).push(high);
    lemma_step(t, args, parts, 62, ",\n    low_bit: "@, 3);
    let parts = parts.push(",\n    low_bit: "@).push(low);
    lemma_step(t, args, parts, 79, ",\n    default: "@, 4);
    let parts = parts.push(",\n    default: "@).push(default);
    lemma_step(t, args, parts, 96, " as "@, 0);
    let parts = parts.push(" as "@).push(base);
    lemma_finish(t, args, parts, 102, ",\n},\n"@);
    assert(parts.push(",\n},\n"@) =~= seq![
        "\n::bitfld::FieldMetadata::<"@,
        base,
        ">{\n    name: "@,
        name,
        ",\n    high_bit: "@,
        high,
        ",\n    low_bit: "@,
        low,
        ",\n    default: "@,
        default,
        " as "@,
        base,
        ",\n},\n"@,
    ]);
}

/// The text of the constant of a reserved field.
pub(crate) proof fn lemma_reserved_constant(high: Chars, low: Chars, base: Chars, value: Chars)
    ensures
        fill_of(RESERVED_CONSTANT@, seq![high, low, base, value]) == concat_of(
            seq![
                "\nconst RSVD_"@,
                high,
                "_"@,
                low,
                ": "@,
                base,
                " = ("@,
                value,
                " as "@,
                base,
                ") << "@,
                low,
                ";\n"@,
            ],
        ),
{
    let t = RESERVED_CONSTANT@;
    let args = seq![high, low, base, value];
    reveal_strlit("
const RSVD_$0_$1: $2 = ($3 as $2) << $1;
");
    reveal_strlit("\nconst RSVD_");
    reveal_strlit("_");
    reveal_strlit(": ");
    reveal_strlit(" = (");
    reveal_strlit(" as ");
    reveal_strlit(") << ");
    reveal_strlit(";\n");
    let parts = Seq::<Chars>::empty();
    lemma_start(t, args);
    lemma_step(t, args, parts, 0, "\nconst RSVD_"@, 0);
    let parts = parts.push("\nconst RSVD_"@).push(high);
    lemma_step(t, args, parts, 14, "_"@, 1);
    let parts = parts.push("_"@).push(low);
    lemma_step(t, args, parts, 17, ": "@, 2);
    let parts = parts.push(": "@).push(base);
    lemma_step(t, args, parts, 21, " = ("@, 3);
    let parts = parts.push(" = ("@).push(value);
    lemma_step(t, args, parts, 27, " as "@, 2);
    let parts = parts.push(" as "@).push(base);
    lemma_step(t, args, parts, 33, ") << "@, 1);
    let parts = parts.push(") << "@).push(low);
    lemma_finish(t, args, parts, 40, ";\n"@);
    assert(parts.push(";\n"@) =~= seq![
        "\nconst RSVD_"@,
        high,
        "_"@,
        low,
        ": "@,
        base,
        " = ("@,
        value,
        " as "@,
        base,
        ") << "@,
        low,
        ";\n"@,
    ]);
}

/// The text of the check of a reserved value.
pub(crate) proof fn lemma_reserved_check(value: Chars, base: Chars, low: Chars, mask: Chars)
    ensures
        fill_of(RESERVED_CHECK@, seq![value, base, low, mask]) == concat_of(
            seq![
                "\nconst { assert!(("@,
                value,
                " as "@,
                base,
                ") << "@,
                low,
                " & !("@,
                mask,
                " << "@,
                low,
                ") == 0) }\n"@,
            ],
        ),
{
    let t = RESERVED_CHECK@;
    let args = seq![value, base, low, mask];
    reveal_strlit("
const { assert!(($0 as $1) << $2 & !($3 << $2) == 0) }
");
    reveal_strlit("\nconst { assert!((");
    reveal_strlit(" as ");
    reveal_strlit(") << ");
    reveal_strlit(" & !(");
    reveal_strlit(" << ");
    reveal_strlit(") == 0) }\n");
    let parts = Seq::<Chars>::empty();
    lemma_start(t, args);
    lemma_step(t, args, parts, 0, "\nconst { assert!(("@, 0);
    let parts = parts.push("\nconst { assert!(("@).push(value);
    lemma_step(t, args, parts, 20, " as "@, 1);
    let parts = parts.push(" as "@).push(base);
    lemma_step(t, args, parts, 26, ") << "@, 2);
    let parts = parts.push(") << "@).push(low);
    lemma_step(t, args, parts, 33, " & !("@, 3);
    let parts = parts.push(" & !("@).push(mask);
    lemma_step(t, args, parts, 40, " << "@, 2);
    let parts = parts.push(" << "@).push(low);
    lemma_finish(t, args, parts, 46, ") == 0) }\n"@);
    assert(parts.push(") == 0) }\n"@) =~= seq![
        "\nconst { assert!(("@,
        value,
        " as "@,
        base,
        ") << "@,
        low,
        " & !("@,
        mask,
        " << "@,
        low,
        ") == 0) }\n"@,
    ]);
}

/// The text of the setting of reserved-as-1 bits.
pub(crate) proof fn lemma_reserved_1_statement(high: Chars, low: Chars)
    ensures
        fill_of(RESERVED_1_STATEMENT@, seq![high, low]) == concat_of(
            seq![
                "\n{ v |= Self::RSVD_"@,
                high,
                "_"@,
                low,
                "; }\n"@,
            ],
        ),
{
    let t = RESERVED_1_STATEMENT@;
    let args = seq![high, low];
    reveal_strlit("
{ v |= Self::RSVD_$0_$1; }
");
    reveal_strlit("\n{ v |= Self::RSVD_");
    reveal_strlit("_");
    reveal_strlit("; }\n");
    let parts = Seq::<Chars>::empty();
    lemma_start(t, args);
    lemma_step(t, args, parts, 0, "\n{ v |= Self::RSVD_"@, 0);
    let parts = parts.push("\n{ v |= Self::RSVD_"@).push(high);
    lemma_step(t, args, parts, 21, "_"@, 1);
    let parts = parts.push("_"@).push(low);
    lemma_finish(t, args, parts, 24, "; }\n"@);
    assert(parts.push("; }\n"@) =~= seq![
        "\n{ v |= Self::RSVD_"@,
        high,
        "_"@,
        low,
        "; }\n"@,
    ]);
}

/// The text of the setting of reserved-as-0 bits.
pub(crate) proof fn lemma_reserved_0_statement(high: Chars, low: Chars, mask: Chars)
    ensures
        fill_of(RESERVED_0_STATEMENT@, seq![high, low, mask]) == concat_of(
            seq![
                "\n{ v |= !Self::RSVD_"@,
                high,
                "_"@,
                low,
                " & ("@,
                mask,
                " << "@,
                low,
                "); }\n"@,
            ],
        ),
{
    let t = RESERVED_0_STATEMENT@;
    let args = seq![high, low, mask];
    reveal_strlit("
{ v |= !Self::RSVD_$0_$1 & ($2 << $1); }
");
    reveal_strlit("\n{ v |= !Self::RSVD_");
    reveal_strlit("_");
    reveal_strlit(" & (");
    reveal_strlit(" << ");
    reveal_strlit("); }\n");
    let parts = Seq::<Chars>::empty();
    lemma_start(t, args);
    lemma_step(t, args, parts, 0, "\n{ v |= !Self::RSVD_"@, 0);
    let parts = parts.push("\n{ v |= !Self::RSVD_"@).push(high);
    lemma_step(t, args, parts, 22, "_"@, 1);
    let parts = parts.push("_"@).push(low);
    lemma_step(t, args, parts, 25, " & ("@, 2);
    let parts = parts.push(" & ("@).push(mask);
    lemma_step(t, args, parts, 31, " << "@, 1);
    let parts = parts.push(" << "@).push(low);
    lemma_finish(t, args, parts, 37, "); }\n"@);
    assert(parts.push("); }\n"@) =~= seq![
        "\n{ v |= !Self::RSVD_"@,
        high,
        "_"@,
        low,
        " & ("@,
        mask,
        " << "@,
        low,
        "); }\n"@,
    ]);
}

/// The text of the list of all metadata.
pub(crate) proof fn lemma_fields(len: Chars, base: Chars, metadata: Chars)
    ensures
        fill_of(FIELDS@, seq![len, base, metadata]) == concat_of(
            seq![
                "\n#[doc(hidden)]\nconst NUM_FIELDS: usize = "@,
                len,
                ";\n/// Metadata of all named fields in the layout.\npub const FIELDS: [::bitfld::FieldMetadata::<"@,
                base,
                ">; "@,
                len,
                "] = [\n    "@,
                metadata,
                "\n];\n"@,
            ],
        ),
{
    let t = FIELDS@;
    let args = seq![len, base, metadata];
    reveal_strlit("
#[doc(hidden)]
const NUM_FIELDS: usize = $0;
/// Metadata of all named fields in the layout.
pub const FIELDS: [::bitfld::FieldMetadata::<$1>; $0] = [
    $2
];
");
    reveal_strlit("\n#[doc(hidden)]\nconst NUM_FIELDS: usize = ");
    reveal_strlit(";\n/// Metadata of all named fields in the layout.\npub const FIELDS: [::bitfld::FieldMetadata::<");
    reveal_strlit(">; ");
    reveal_strlit("] = [\n    ");
    reveal_strlit("\n];\n");
    let parts = Seq::<Chars>::empty();
    lemma_start(t, args);
    lemma_step(t, args, parts, 0, "\n#[doc(hidden)]\nconst NUM_FIELDS: usize = "@, 0);
    let parts = parts.push("\n#[doc(hidden)]\nconst NUM_FIELDS: usize = "@).push(len);
    lemma_step(t, args, parts, 44, ";\n/// Metadata of all named fields in the layout.\npub const FIELDS: [::bitfld::FieldMetadata::<"@, 1);
    let parts = parts.push(";\n/// Metadata of all named fields in the layout.\npub const FIELDS: [::bitfld::FieldMetadata::<"@).push(base);
    lemma_step(t, args, parts, 141, ">; "@, 0);
    let parts = parts.push(">; "@).push(len);
    lemma_step(t, args, parts, 146, "] = [\n    "@, 2);
    let parts = parts.push("] = [\n    "@).push(metadata);
    lemma_finish(t, args, parts, 158, "\n];\n"@);
    assert(parts.push("\n];\n"@) =~= seq![
        "\n#[doc(hidden)]\nconst NUM_FIELDS: usize = "@,
        len,
        ";\n/// Metadata of all named fields in the layout.\npub const FIELDS: [::bitfld::FieldMetadata::<"@,
        base,
        ">; "@,
        len,
        "] = [\n    "@,
        metadata,
        "\n];\n"@,
    ]);
}

/// The text of the function that holds the checks.
pub(crate) proof fn lemma_check_defaults(checks: Chars)
    ensures
        fill_of(CHECK_DEFAULTS@, seq![checks]) == concat_of(
            seq![
                "\n#[forbid(overflowing_literals)]\nconst fn check_defaults() -> () {\n    "@,
                checks,
                "\n}\n"@,
            ],
        ),
{
    let t = CHECK_DEFAULTS@;
    let args = seq![checks];
    reveal_strlit("
#[forbid(overflowing_literals)]
const fn check_defaults() -> () {
    $0
}
");
    reveal_strlit("\n#[forbid(overflowing_literals)]\nconst fn check_defaults() -> () {\n    ");
    reveal_strlit("\n}\n");
    let parts = Seq::<Chars>::empty();
    lemma_start(t, args);
    lemma_step(t, args, parts, 0, "\n#[forbid(overflowing_literals)]\nconst fn check_defaults() -> () {\n    "@, 0);
    let parts = parts.push("\n#[forbid(overflowing_literals)]\nconst fn check_defaults() -> () {\n    "@).push(checks);
    lemma_finish(t, args, parts, 73, "\n}\n"@);
    assert(parts.push("\n}\n"@) =~= seq![
        "\n#[forbid(overflowing_literals)]\nconst fn check_defaults() -> () {\n    "@,
        checks,
        "\n}\n"@,
    ]);
}

/// The text of the constants of a layout.
pub(crate) proof fn lemma_constants(
    base: Chars,
    rsvd1: Chars,
    rsvd0: Chars,
    defaults: Chars,
    named: Chars,
    reserved: Chars,
    list: Chars,
    checks: Chars,
)
    ensures
        fill_of(CONSTANTS@, seq![base, rsvd1, rsvd0, defaults, named, reserved, list, checks]) == concat_of(
            seq![
                "\n/// Mask of all reserved-as-1 bits.\npub const RSVD1_MASK: "@,
                base,
                " = {\n    let mut v: "@,
                base,
                " = 0;\n    "@,
                rsvd1,
                "\n    v\n};\n/// Mask of all reserved-as-0 bits.\npub const RSVD0_MASK: "@,
                base,
                " = {\n    let mut v: "@,
                base,
                " = 0;\n    "@,
                rsvd0,
                "\n    v\n};\n/// The default value of the layout, combining all field\n/// defaults and reserved-as values.\npub const DEFAULT: "@,
                base,
                " = {\n    let mut v: "@,
                base,
                " = Self::RSVD1_MASK;\n    "@,
                defaults,
                "\n    v\n};\n\n"@,
                named,
                "\n"@,
                reserved,
                "\n"@,
                list,
                "\n"@,
                checks,
                "\n"@,
            ],
        ),
{
    let t = CONSTANTS@;
    let args = seq![base, rsvd1, rsvd0, defaults, named, reserved, list, checks];
    reveal_strlit("
/// Mask of all reserved-as-1 bits.
pub const RSVD1_MASK: $0 = {
    let mut v: $0 = 0;
    $1
    v
};
/// Mask of all reserved-as-0 bits.
pub const RSVD0_MASK: $0 = {
    let mut v: $0 = 0;
    $2
    v
};
/// The default value of the layout, combining all field
/// defaults and reserved-as values.
pub const DEFAULT: $0 = {
    let mut v: $0 = Self::RSVD1_MASK;
    $3
    v
};

$4
$5
$6
$7
");
    reveal_strlit("\n/// Mask of all reserved-as-1 bits.\npub const RSVD1_MASK: ");
    reveal_strlit(" = {\n    let mut v: ");
    reveal_strlit(" = 0;\n    ");
    reveal_strlit("\n    v\n};\n/// Mask of all reserved-as-0 bits.\npub const RSVD0_MASK: ");
    reveal_strlit("\n    v\n};\n/// The default value of the layout, combining all field\n/// defaults and reserved-as values.\npub const DEFAULT: ");
    reveal_strlit(" = Self::RSVD1_MASK;\n    ");
    reveal_strlit("\n    v\n};\n\n");
    reveal_strlit("\n");
    let parts = Seq::<Chars>::empty();
    lemma_start(t, args);
    lemma_step(t, args, parts, 0, "\n/// Mask of all reserved-as-1 bits.\npub const RSVD1_MASK: "@, 0);
    let parts = parts.push("\n/// Mask of all reserved-as-1 bits.\npub const RSVD1_MASK: "@).push(base);
    lemma_step(t, args, parts, 61, " = {\n    let mut v: "@, 0);
    let parts = parts.push(" = {\n    let mut v: "@).push(base);
    lemma_step(t, args, parts, 83, " = 0;\n    "@, 1);
    let parts = parts.push(" = 0;\n    "@).push(rsvd1);
    lemma_step(t, args, parts, 95, "\n    v\n};\n/// Mask of all reserved-as-0 bits.\npub const RSVD0_MASK: "@, 0);
    let parts = parts.push("\n    v\n};\n/// Mask of all reserved-as-0 bits.\npub const RSVD0_MASK: "@).push(base);
    lemma_step(t, args, parts, 165, " = {\n    let mut v: "@, 0);
    let parts = parts.push(" = {\n    let mut v: "@).push(base);
    lemma_step(t, args, parts, 187, " = 0;\n    "@, 2);
    let parts = parts.push(" = 0;\n    "@).push(rsvd0);
    lemma_step(t, args, parts, 199, "\n    v\n};\n/// The default value of the layout, combining all field\n/// defaults and reserved-as values.\npub const DEFAULT: "@, 0);
    let parts = parts.push("\n    v\n};\n/// The default value of the layout, combining all field\n/// defaults and reserved-as values.\npub const DEFAULT: "@).push(base);
    lemma_step(t, args, parts, 324, " = {\n    let mut v: "@, 0);
    let parts = parts.push(" = {\n    let mut v: "@).push(base);
    lemma_step(t, args, parts, 346, " = Self::RSVD1_MASK;\n    "@, 3);
    let parts = parts.push(" = Self::RSVD1_MASK;\n    "@).push(defaults);
    lemma_step(t, args, parts, 373, "\n    v\n};\n\n"@, 4);
    let parts = parts.push("\n    v\n};\n\n"@).push(named);
    lemma_step(t, args, parts, 386, "\n"@, 5);
    let parts = parts.push("\n"@).push(reserved);
    lemma_step(t, args, parts, 389, "\n"@, 6);
    let parts = parts.push("\n"@).push(list);
    lemma_step(t, args, parts, 392, "\n"@, 7);
    let parts = parts.push("\n"@).push(checks);
    lemma_finish(t, args, parts, 395, "\n"@);
    assert(parts.push("\n"@) =~= seq![
        "\n/// Mask of all reserved-as-1 bits.\npub const RSVD1_MASK: "@,
        base,
        " = {\n    let mut v: "@,
        base,
        " = 0;\n    "@,
        rsvd1,
        "\n    v\n};\n/// Mask of all reserved-as-0 bits.\npub const RSVD0_MASK: "@,
        base,
        " = {\n    let mut v: "@,
        base,
        " = 0;\n    "@,
        rsvd0,
        "\n    v\n};\n/// The default value of the layout, combining all field\n/// defaults and reserved-as values.\npub const DEFAULT: "@,
        base,
        " = {\n    let mut v: "@,
        base,
        " = Self::RSVD1_MASK;\n    "@,
        defaults,
        "\n    v\n};\n\n"@,
        named,
        "\n"@,
        reserved,
        "\n"@,
        list,
        "\n"@,
        checks,
        "\n"@,
    ]);
}

/// The text of the formatting of a field with a representation.
pub(crate) proof fn lemma_format_repr(name: Chars, ok: Chars, err: Chars)
    ensures
        fill_of(FORMAT_REPR@, seq![name, ok, err]) == concat_of(
            seq![
                "\n{\n    match self."@,
                name,
                "() {\n        Ok(value) => write!(f, "@,
                ok,
                ", value),\n        Err(invalid) => write!(f, "@,
                err,
                ", invalid.0),\n    }?;\n}\n"@,
            ],
        ),
{
    let t = FORMAT_REPR@;
    let args = seq![name, ok, err];
    reveal_strlit("
{
    match self.$0() {
        Ok(value) => write!(f, $1, value),
        Err(invalid) => write!(f, $2, invalid.0),
    }?;
}
");
    reveal_strlit("\n{\n    match self.");
    reveal_strlit("() {\n        Ok(value) => write!(f, ");
    reveal_strlit(", value),\n        Err(invalid) => write!(f, ");
    reveal_strlit(", invalid.0),\n    }?;\n}\n");
    let parts = Seq::<Chars>::empty();
    lemma_start(t, args);
    lemma_step(t, args, parts, 0, "\n{\n    match self."@, 0);
    let parts = parts.push("\n{\n    match self."@).push(name);
    lemma_step(t, args, parts, 20, "() {\n        Ok(value) => write!(f, "@, 1);
    let parts = parts.push("() {\n        Ok(value) => write!(f, "@).push(ok);
    lemma_step(t, args, parts, 58, ", value),\n        Err(invalid) => write!(f, "@, 2);
    let parts = parts.push(", value),\n        Err(invalid) => write!(f, "@).push(err);
    lemma_finish(t, args, parts, 104, ", invalid.0),\n    }?;\n}\n"@);
    assert(parts.push(", invalid.0),\n    }?;\n}\n"@) =~= seq![
        "\n{\n    match self."@,
        name,
        "() {\n        Ok(value) => write!(f, "@,
        ok,
        ", value),\n        Err(invalid) => write!(f, "@,
        err,
        ", invalid.0),\n    }?;\n}\n"@,
    ]);
}

/// The text of the formatting of a field.
pub(crate) proof fn lemma_format_field(format: Chars, name: Chars)
    ensures
        fill_of(FORMAT_FIELD@, seq![format, name]) == concat_of(
            seq![
                "\n{ write!(f, "@,
                format,
                ", self."@,
                name,
                "())?; }\n"@,
            ],
        ),
{
    let t = FORMAT_FIELD@;
    let args = seq![format, name];
    reveal_strlit("
{ write!(f, $0, self.$1())?; }
");
    reveal_strlit("\n{ write!(f, ");
    reveal_strlit(", self.");
    reveal_strlit("())?; }\n");
    let parts = Seq::<Chars>::empty();
    lemma_start(t, args);
    lemma_step(t, args, parts, 0, "\n{ write!(f, "@, 0);
    let parts = parts.push("\n{ write!(f, "@).push(format);
    lemma_step(t, args, parts, 15, ", self."@, 1);
    let parts = parts.push(", self."@).push(name);
    lemma_finish(t, args, parts, 24, "())?; }\n"@);
    assert(parts.push("())?; }\n"@) =~= seq![
        "\n{ write!(f, "@,
        format,
        ", self."@,
        name,
        "())?; }\n"@,
    ]);
}

/// The text of the bound on a representation.
pub(crate) proof fn lemma_format_bound(repr: Chars)
    ensures
        fill_of(FORMAT_BOUND@, seq![repr]) == concat_of(
            seq![
                ""@,
                repr,
                ": ::core::fmt::Debug,"@,
            ],
        ),
{
    let t = FORMAT_BOUND@;
    let args = seq![repr];
    reveal_strlit("$0: ::core::fmt::Debug,");
    reveal_strlit("");
    reveal_strlit(": ::core::fmt::Debug,");
    let parts = Seq::<Chars>::empty();
    lemma_start(t, args);
    lemma_step(t, args, parts, 0, ""@, 0);
    let parts = parts.push(""@).push(repr);
    lemma_finish(t, args, parts, 2, ": ::core::fmt::Debug,"@);
    assert(parts.push(": ::core::fmt::Debug,"@) =~= seq![
        ""@,
        repr,
        ": ::core::fmt::Debug,"@,
    ]);
}

/// The text of the formatting function.
pub(crate) proof fn lemma_format_function(bounds: Chars, ident: Chars, fields: Chars)
    ensures
        fill_of(FORMAT_FUNCTION@, seq![bounds, ident, fields]) == concat_of(
            seq![
                "\nfn fmt(&self, f: &mut ::core::fmt::Formatter<'_>) -> ::core::fmt::Result\n"@,
                bounds,
                "\n{\n    let (sep, indent) = if f.alternate() {\n        ('\\n', \"    \")\n    } else {\n        (' ', \"\")\n    };\n    write!(f, \"{} {{{sep}\", "@,
                ident,
                ")?;\n    "@,
                fields,
                "\n    write!(f, \"}}\")\n}\n"@,
            ],
        ),
{
    let t = FORMAT_FUNCTION@;
    let args = seq![bounds, ident, fields];
    reveal_strlit("
fn fmt(&self, f: &mut ::core::fmt::Formatter<'_>) -> ::core::fmt::Result
$0
{
    let (sep, indent) = if f.alternate() {
        ('\\n', \"    \")
    } else {
        (' ', \"\")
    };
    write!(f, \"{} {{{sep}\", $1)?;
    $2
    write!(f, \"}}\")
}
");
    reveal_strlit("\nfn fmt(&self, f: &mut ::core::fmt::Formatter<'_>) -> ::core::fmt::Result\n");
    reveal_strlit("\n{\n    let (sep, indent) = if f.alternate() {\n        ('\\n', \"    \")\n    } else {\n        (' ', \"\")\n    };\n    write!(f, \"{} {{{sep}\", ");
    reveal_strlit(")?;\n    ");
    reveal_strlit("\n    write!(f, \"}}\")\n}\n");
    let parts = Seq::<Chars>::empty();
    lemma_start(t, args);
    lemma_step(t, args, parts, 0, "\nfn fmt(&self, f: &mut ::core::fmt::Formatter<'_>) -> ::core::fmt::Result\n"@, 0);
    let parts = parts.push("\nfn fmt(&self, f: &mut ::core::fmt::Formatter<'_>) -> ::core::fmt::Result\n"@).push(bounds);
    lemma_step(t, args, parts, 76, "\n{\n    let (sep, indent) = if f.alternate() {\n        ('\\n', \"    \")\n    } else {\n        (' ', \"\")\n    };\n    write!(f, \"{} {{{sep}\", "@, 1);
    let parts = parts.push("\n{\n    let (sep, indent) = if f.alternate() {\n        ('\\n', \"    \")\n    } else {\n        (' ', \"\")\n    };\n    write!(f, \"{} {{{sep}\", "@).push(ident);
    lemma_step(t, args, parts, 213, ")?;\n    "@, 2);
    let parts = parts.push(")?;\n    "@).push(fields);
    lemma_finish(t, args, parts, 223, "\n    write!(f, \"}}\")\n}\n"@);
    assert(parts.push("\n    write!(f, \"}}\")\n}\n"@) =~= seq![
        "\nfn fmt(&self, f: &mut ::core::fmt::Formatter<'_>) -> ::core::fmt::Result\n"@,
        bounds,
        "\n{\n    let (sep, indent) = if f.alternate() {\n        ('\\n', \"    \")\n    } else {\n        (' ', \"\")\n    };\n    write!(f, \"{} {{{sep}\", "@,
        ident,
        ")?;\n    "@,
        fields,
        "\n    write!(f, \"}}\")\n}\n"@,
    ]);
}

/// The text of the formatting traits.
pub(crate) proof fn lemma_format_impls(
    ident: Chars,
    binary: Chars,
    lower: Chars,
    upper: Chars,
    octal: Chars,
)
    ensures
        fill_of(FORMAT_IMPLS@, seq![ident, binary, lower, upper, octal]) == concat_of(
            seq![
                "\nimpl ::core::fmt::Debug for "@,
                ident,
                " {\n    fn fmt(&self, f: &mut ::core::fmt::Formatter<'_>) -> ::core::fmt::Result {\n        ::core::fmt::LowerHex::fmt(self, f)\n    }\n}\n\nimpl ::core::fmt::Binary for "@,
                ident,
                " {\n    "@,
                binary,
                "\n}\n\nimpl ::core::fmt::LowerHex for "@,
                ident,
                " {\n    "@,
                lower,
                "\n}\n\nimpl ::core::fmt::UpperHex for "@,
                ident,
                " {\n    "@,
                upper,
                "\n}\n\nimpl ::core::fmt::Octal for "@,
                ident,
                " {\n    "@,
                octal,
                "\n}\n"@,
            ],
        ),
{
    let t = FORMAT_IMPLS@;
    let args = seq![ident, binary, lower, upper, octal];
    reveal_strlit("
impl ::core::fmt::Debug for $0 {
    fn fmt(&self, f: &mut ::core::fmt::Formatter<'_>) -> ::core::fmt::Result {
        ::core::fmt::LowerHex::fmt(self, f)
    }
}

impl ::core::fmt::Binary for $0 {
    $1
}

impl ::core::fmt::LowerHex for $0 {
    $2
}

impl ::core::fmt::UpperHex for $0 {
    $3
}

impl ::core::fmt::Octal for $0 {
    $4
}
");
    reveal_strlit("\nimpl ::core::fmt::Debug for ");
    reveal_strlit(" {\n    fn fmt(&self, f: &mut ::core::fmt::Formatter<'_>) -> ::core::fmt::Result {\n        ::core::fmt::LowerHex::fmt(self, f)\n    }\n}\n\nimpl ::core::fmt::Binary for ");
    reveal_strlit(" {\n    ");
    reveal_strlit("\n}\n\nimpl ::core::fmt::LowerHex for ");
    reveal_strlit("\n}\n\nimpl ::core::fmt::UpperHex for ");
    reveal_strlit("\n}\n\nimpl ::core::fmt::Octal for ");
    reveal_strlit("\n}\n");
    let parts = Seq::<Chars>::empty();
    lemma_start(t, args);
    lemma_step(t, args, parts, 0, "\nimpl ::core::fmt::Debug for "@, 0);
    let parts = parts.push("\nimpl ::core::fmt::Debug for "@).push(ident);
    lemma_step(t, args, parts, 31, " {\n    fn fmt(&self, f: &mut ::core::fmt::Formatter<'_>) -> ::core::fmt::Result {\n        ::core::fmt::LowerHex::fmt(self, f)\n    }\n}\n\nimpl ::core::fmt::Binary for "@, 0);
    let parts = parts.push(" {\n    fn fmt(&self, f: &mut ::core::fmt::Formatter<'_>) -> ::core::fmt::Result {\n        ::core::fmt::LowerHex::fmt(self, f)\n    }\n}\n\nimpl ::core::fmt::Binary for "@).push(ident);
    lemma_step(t, args, parts, 197, " {\n    "@, 1);
    let parts = parts.push(" {\n    "@).push(binary);
    lemma_step(t, args, parts, 206, "\n}\n\nimpl ::core::fmt::LowerHex for "@, 0);
    let parts = parts.push("\n}\n\nimpl ::core::fmt::LowerHex for "@).push(ident);
    lemma_step(t, args, parts, 243, " {\n    "@, 2);
    let parts = parts.push(" {\n    "@).push(lower);
    lemma_step(t, args, parts, 252, "\n}\n\nimpl ::core::fmt::UpperHex for "@, 0);
    let parts = parts.push("\n}\n\nimpl ::core::fmt::UpperHex for "@).push(ident);
    lemma_step(t, args, parts, 289, " {\n    "@, 3);
    let parts = parts.push(" {\n    "@).push(upper);
    lemma_step(t, args, parts, 298, "\n}\n\nimpl ::core::fmt::Octal for "@, 0);
    let parts = parts.push("\n}\n\nimpl ::core::fmt::Octal for "@).push(ident);
    lemma_step(t, args, parts, 332, " {\n    "@, 4);
    let parts = parts.push(" {\n    "@).push(octal);
    lemma_finish(t, args, parts, 341, "\n}\n"@);
    assert(parts.push("\n}\n"@) =~= seq![
        "\nimpl ::core::fmt::Debug for "@,
        ident,
        " {\n    fn fmt(&self, f: &mut ::core::fmt::Formatter<'_>) -> ::core::fmt::Result {\n        ::core::fmt::LowerHex::fmt(self, f)\n    }\n}\n\nimpl ::core::fmt::Binary for "@,
        ident,
        " {\n    "@,
        binary,
        "\n}\n\nimpl ::core::fmt::LowerHex for "@,
        ident,
        " {\n    "@,
        lower,
        "\n}\n\nimpl ::core::fmt::UpperHex for "@,
        ident,
        " {\n    "@,
        upper,
        "\n}\n\nimpl ::core::fmt::Octal for "@,
        ident,
        " {\n    "@,
        octal,
        "\n}\n"@,
    ]);
}

/// The text of a representation.
pub(crate) proof fn lemma_bitfield_repr(attr: Chars, item: Chars)
    ensures
        fill_of(BITFIELD_REPR@, seq![attr, item]) == concat_of(
            seq![
                "\n#[repr("@,
                attr,
                ")]\n#[derive(\n    Debug,\n    Eq,\n    PartialEq,\n    ::zerocopy::Immutable,\n    ::zerocopy::IntoBytes,\n    ::zerocopy::TryFromBytes,\n)]\n"@,
                item,
                "\n"@,
            ],
        ),
{
    let t = BITFIELD_REPR@;
    let args = seq![attr, item];
    reveal_strlit("
#[repr($0)]
#[derive(
    Debug,
    Eq,
    PartialEq,
    ::zerocopy::Immutable,
    ::zerocopy::IntoBytes,
    ::zerocopy::TryFromBytes,
)]
$1
");
    reveal_strlit("\n#[repr(");
    reveal_strlit(")]\n#[derive(\n    Debug,\n    Eq,\n    PartialEq,\n    ::zerocopy::Immutable,\n    ::zerocopy::IntoBytes,\n    ::zerocopy::TryFromBytes,\n)]\n");
    reveal_strlit("\n");
    let parts = Seq::<Chars>::empty();
    lemma_start(t, args);
    lemma_step(t, args, parts, 0, "\n#[repr("@, 0);
    let parts = parts.push("\n#[repr("@).push(attr);
    lemma_step(t, args, parts, 10, ")]\n#[derive(\n    Debug,\n    Eq,\n    PartialEq,\n    ::zerocopy::Immutable,\n    ::zerocopy::IntoBytes,\n    ::zerocopy::TryFromBytes,\n)]\n"@, 1);
    let parts = parts.push(")]\n#[derive(\n    Debug,\n    Eq,\n    PartialEq,\n    ::zerocopy::Immutable,\n    ::zerocopy::IntoBytes,\n    ::zerocopy::TryFromBytes,\n)]\n"@).push(item);
    lemma_finish(t, args, parts, 146, "\n"@);
    assert(parts.push("\n"@) =~= seq![
        "\n#[repr("@,
        attr,
        ")]\n#[derive(\n    Debug,\n    Eq,\n    PartialEq,\n    ::zerocopy::Immutable,\n    ::zerocopy::IntoBytes,\n    ::zerocopy::TryFromBytes,\n)]\n"@,
        item,
        "\n"@,
    ]);
}

/// The text of the iterators.
pub(crate) proof fn lemma_iterators(ident: Chars, base: Chars, iter: Chars, vis: Chars)
    ensures
        fill_of(ITERATORS@, seq![ident, base, iter, vis]) == concat_of(
            seq![
                "\n#[doc(hidden)]\n"@,
                vis,
                " struct "@,
                iter,
                "("@,
                base,
                ", usize, usize);\n\nimpl ::core::iter::Iterator for "@,
                iter,
                " {\n    type Item = (&'static ::bitfld::FieldMetadata<"@,
                base,
                ">, "@,
                base,
                ");\n\n    fn next(&mut self) -> Option<Self::Item> {\n        if self.1 >= self.2 {\n            return None;\n        }\n        let metadata = &"@,
                ident,
                "::FIELDS[self.1];\n        let shifted_mask = "@,
                base,
                "::MAX\n            >> ("@,
                base,
                "::BITS as usize - 1 - (metadata.high_bit - metadata.low_bit));\n        let value = (self.0 >> metadata.low_bit) & shifted_mask;\n        self.1 += 1;\n        Some((metadata, value))\n    }\n}\n\nimpl ::core::iter::DoubleEndedIterator for "@,
                iter,
                " {\n    fn next_back(&mut self) -> Option<Self::Item> {\n        if self.1 >= self.2 {\n            return None;\n        }\n        self.2 -= 1;\n        let metadata = &"@,
                ident,
                "::FIELDS[self.2];\n        let shifted_mask = "@,
                base,
                "::MAX\n            >> ("@,
                base,
                "::BITS as usize - 1 - (metadata.high_bit - metadata.low_bit));\n        let value = (self.0 >> metadata.low_bit) & shifted_mask;\n        Some((metadata, value))\n    }\n}\n\nimpl "@,
                ident,
                " {\n    /// Returns an iterator over\n    /// ([metadata][`bitfld::FieldMetadata`], value) pairs for each\n    /// field.\n    pub fn iter(&self) -> "@,
                iter,
                " {\n        "@,
                iter,
                "(self.0, 0, Self::NUM_FIELDS)\n    }\n}\n\nimpl ::core::iter::IntoIterator for "@,
                ident,
                " {\n    type Item = (&'static ::bitfld::FieldMetadata<"@,
                base,
                ">, "@,
                base,
                ");\n    type IntoIter = "@,
                iter,
                ";\n\n    fn into_iter(self) -> Self::IntoIter { "@,
                iter,
                "(self.0, 0, Self::NUM_FIELDS) }\n}\n\nimpl<'a> ::core::iter::IntoIterator for &'a "@,
                ident,
                " {\n    type Item = (&'static ::bitfld::FieldMetadata<"@,
                base,
                ">, "@,
                base,
                ");\n    type IntoIter = "@,
                iter,
                ";\n\n    fn into_iter(self) -> Self::IntoIter { "@,
                iter,
                "(self.0, 0, "@,
                ident,
                "::NUM_FIELDS) }\n}\n"@,
            ],
        ),
{
    let t = ITERATORS@;
    let args = seq![ident, base, iter, vis];
    reveal_strlit("
#[doc(hidden)]
$3 struct $2($1, usize, usize);

impl ::core::iter::Iterator for $2 {
    type Item = (&'static ::bitfld::FieldMetadata<$1>, $1);

    fn next(&mut self) -> Option<Self::Item> {
        if self.1 >= self.2 {
            return None;
        }
        let metadata = &$0::FIELDS[self.1];
        let shifted_mask = $1::MAX
            >> ($1::BITS as usize - 1 - (metadata.high_bit - metadata.low_bit));
        let value = (self.0 >> metadata.low_bit) & shifted_mask;
        self.1 += 1;
        Some((metadata, value))
    }
}

impl ::core::iter::DoubleEndedIterator for $2 {
    fn next_back(&mut self) -> Option<Self::Item> {
        if self.1 >= self.2 {
            return None;
        }
        self.2 -= 1;
        let metadata = &$0::FIELDS[self.2];
        let shifted_mask = $1::MAX
            >> ($1::BITS as usize - 1 - (metadata.high_bit - metadata.low_bit));
        let value = (self.0 >> metadata.low_bit) & shifted_mask;
        Some((metadata, value))
    }
}

impl $0 {
    /// Returns an iterator over
    /// ([metadata][`bitfld::FieldMetadata`], value) pairs for each
    /// field.
    pub fn iter(&self) -> $2 {
        $2(self.0, 0, Self::NUM_FIELDS)
    }
}

impl ::core::iter::IntoIterator for $0 {
    type Item = (&'static ::bitfld::FieldMetadata<$1>, $1);
    type IntoIter = $2;

    fn into_iter(self) -> Self::IntoIter { $2(self.0, 0, Self::NUM_FIELDS) }
}

impl<'a> ::core::iter::IntoIterator for &'a $0 {
    type Item = (&'static ::bitfld::FieldMetadata<$1>, $1);
    type IntoIter = $2;

    fn into_iter(self) -> Self::IntoIter { $2(self.0, 0, $0::NUM_FIELDS) }
}
");
    reveal_strlit("\n#[doc(hidden)]\n");
    reveal_strlit(" struct ");
    reveal_strlit("(");
    reveal_strlit(", usize, usize);\n\nimpl ::core::iter::Iterator for ");
    reveal_strlit(" {\n    type Item = (&'static ::bitfld::FieldMetadata<");
    reveal_strlit(">, ");
    reveal_strlit(");\n\n    fn next(&mut self) -> Option<Self::Item> {\n        if self.1 >= self.2 {\n            return None;\n        }\n        let metadata = &");
    reveal_strlit("::FIELDS[self.1];\n        let shifted_mask = ");
    reveal_strlit("::MAX\n            >> (");
    reveal_strlit("::BITS as usize - 1 - (metadata.high_bit - metadata.low_bit));\n        let value = (self.0 >> metadata.low_bit) & shifted_mask;\n        self.1 += 1;\n        Some((metadata, value))\n    }\n}\n\nimpl ::core::iter::DoubleEndedIterator for ");
    reveal_strlit(" {\n    fn next_back(&mut self) -> Option<Self::Item> {\n        if self.1 >= self.2 {\n            return None;\n        }\n        self.2 -= 1;\n        let metadata = &");
    reveal_strlit("::FIELDS[self.2];\n        let shifted_mask = ");
    reveal_strlit("::BITS as usize - 1 - (metadata.high_bit - metadata.low_bit));\n        let value = (self.0 >> metadata.low_bit) & shifted_mask;\n        Some((metadata, value))\n    }\n}\n\nimpl ");
    reveal_strlit(" {\n    /// Returns an iterator over\n    /// ([metadata][`bitfld::FieldMetadata`], value) pairs for each\n    /// field.\n    pub fn iter(&self) -> ");
    reveal_strlit(" {\n        ");
    reveal_strlit("(self.0, 0, Self::NUM_FIELDS)\n    }\n}\n\nimpl ::core::iter::IntoIterator for ");
    reveal_strlit(");\n    type IntoIter = ");
    reveal_strlit(";\n\n    fn into_iter(self) -> Self::IntoIter { ");
    reveal_strlit("(self.0, 0, Self::NUM_FIELDS) }\n}\n\nimpl<'a> ::core::iter::IntoIterator for &'a ");
    reveal_strlit("(self.0, 0, ");
    reveal_strlit("::NUM_FIELDS) }\n}\n");
    let parts = Seq::<Chars>::empty();
    lemma_start(t, args);
    lemma_step(t, args, parts, 0, "\n#[doc(hidden)]\n"@, 3);
    let parts = parts.push("\n#[doc(hidden)]\n"@).push(vis);
    lemma_step(t, args, parts, 18, " struct "@, 2);
    let parts = parts.push(" struct "@).push(iter);
    lemma_step(t, args, parts, 28, "("@, 1);
    let parts = parts.push("("@).push(base);
    lemma_step(t, args, parts, 31, ", usize, usize);\n\nimpl ::core::iter::Iterator for "@, 2);
    let parts = parts.push(", usize, usize);\n\nimpl ::core::iter::Iterator for "@).push(iter);
    lemma_step(t, args, parts, 83, " {\n    type Item = (&'static ::bitfld::FieldMetadata<"@, 1);
    let parts = parts.push(" {\n    type Item = (&'static ::bitfld::FieldMetadata<"@).push(base);
    lemma_step(t, args, parts, 138, ">, "@, 1);
    let parts = parts.push(">, "@).push(base);
    lemma_step(t, args, parts, 143, ");\n\n    fn next(&mut self) -> Option<Self::Item> {\n        if self.1 >= self.2 {\n            return None;\n        }\n        let metadata = &"@, 0);
    let parts = parts.push(");\n\n    fn next(&mut self) -> Option<Self::Item> {\n        if self.1 >= self.2 {\n            return None;\n        }\n        let metadata = &"@).push(ident);
    lemma_step(t, args, parts, 285, "::FIELDS[self.1];\n        let shifted_mask = "@, 1);
    let parts = parts.push("::FIELDS[self.1];\n        let shifted_mask = "@).push(base);
    lemma_step(t, args, parts, 332, "::MAX\n            >> ("@, 1);
    let parts = parts.push("::MAX\n            >> ("@).push(base);
    lemma_step(t, args, parts, 356, "::BITS as usize - 1 - (metadata.high_bit - metadata.low_bit));\n        let value = (self.0 >> metadata.low_bit) & shifted_mask;\n        self.1 += 1;\n        Some((metadata, value))\n    }\n}\n\nimpl ::core::iter::DoubleEndedIterator for "@, 2);
    let parts = parts.push("::BITS as usize - 1 - (metadata.high_bit - metadata.low_bit));\n        let value = (self.0 >> metadata.low_bit) & shifted_mask;\n        self.1 += 1;\n        Some((metadata, value))\n    }\n}\n\nimpl ::core::iter::DoubleEndedIterator for "@).push(iter);
    lemma_step(t, args, parts, 591, " {\n    fn next_back(&mut self) -> Option<Self::Item> {\n        if self.1 >= self.2 {\n            return None;\n        }\n        self.2 -= 1;\n        let metadata = &"@, 0);
    let parts = parts.push(" {\n    fn next_back(&mut self) -> Option<Self::Item> {\n        if self.1 >= self.2 {\n            return None;\n        }\n        self.2 -= 1;\n        let metadata = &"@).push(ident);
    lemma_step(t, args, parts, 758, "::FIELDS[self.2];\n        let shifted_mask = "@, 1);
    let parts = parts.push("::FIELDS[self.2];\n        let shifted_mask = "@).push(base);
    lemma_step(t, args, parts, 805, "::MAX\n            >> ("@, 1);
    let parts = parts.push("::MAX\n            >> ("@).push(base);
    lemma_step(t, args, parts, 829, "::BITS as usize - 1 - (metadata.high_bit - metadata.low_bit));\n        let value = (self.0 >> metadata.low_bit) & shifted_mask;\n        Some((metadata, value))\n    }\n}\n\nimpl "@, 0);
    let parts = parts.push("::BITS as usize - 1 - (metadata.high_bit - metadata.low_bit));\n        let value = (self.0 >> metadata.low_bit) & shifted_mask;\n        Some((metadata, value))\n    }\n}\n\nimpl "@).push(ident);
    lemma_step(t, args, parts, 1005, " {\n    /// Returns an iterator over\n    /// ([metadata][`bitfld::FieldMetadata`], value) pairs for each\n    /// field.\n    pub fn iter(&self) -> "@, 2);
    let parts = parts.push(" {\n    /// Returns an iterator over\n    /// ([metadata][`bitfld::FieldMetadata`], value) pairs for each\n    /// field.\n    pub fn iter(&self) -> "@).push(iter);
    lemma_step(t, args, parts, 1152, " {\n        "@, 2);
    let parts = parts.push(" {\n        "@).push(iter);
    lemma_step(t, args, parts, 1165, "(self.0, 0, Self::NUM_FIELDS)\n    }\n}\n\nimpl ::core::iter::IntoIterator for "@, 0);
    let parts = parts.push("(self.0, 0, Self::NUM_FIELDS)\n    }\n}\n\nimpl ::core::iter::IntoIterator for "@).push(ident);
    lemma_step(t, args, parts, 1242, " {\n    type Item = (&'static ::bitfld::FieldMetadata<"@, 1);
    let parts = parts.push(" {\n    type Item = (&'static ::bitfld::FieldMetadata<"@).push(base);
    lemma_step(t, args, parts, 1297, ">, "@, 1);
    let parts = parts.push(">, "@).push(base);
    lemma_step(t, args, parts, 1302, ");\n    type IntoIter = "@, 2);
    let parts = parts.push(");\n    type IntoIter = "@).push(iter);
    lemma_step(t, args, parts, 1327, ";\n\n    fn into_iter(self) -> Self::IntoIter { "@, 2);
    let parts = parts.push(";\n\n    fn into_iter(self) -> Self::IntoIter { "@).push(iter);
    lemma_step(t, args, parts, 1375, "(self.0, 0, Self::NUM_FIELDS) }\n}\n\nimpl<'a> ::core::iter::IntoIterator for &'a "@, 0);
    let parts = parts.push("(self.0, 0, Self::NUM_FIELDS) }\n}\n\nimpl<'a> ::core::iter::IntoIterator for &'a "@).push(ident);
    lemma_step(t, args, parts, 1456, " {\n    type Item = (&'static ::bitfld::FieldMetadata<"@, 1);
    let parts = parts.push(" {\n    type Item = (&'static ::bitfld::FieldMetadata<"@).push(base);
    lemma_step(t, args, parts, 1511, ">, "@, 1);
    let parts = parts.push(">, "@).push(base);
    lemma_step(t, args, parts, 1516, ");\n    type IntoIter = "@, 2);
    let parts = parts.push(");\n    type IntoIter = "@).push(iter);
    lemma_step(t, args, parts, 1541, ";\n\n    fn into_iter(self) -> Self::IntoIter { "@, 2);
    let parts = parts.push(";\n\n    fn into_iter(self) -> Self::IntoIter { "@).push(iter);
    lemma_step(t, args, parts, 1589, "(self.0, 0, "@, 0);
    let parts = parts.push("(self.0, 0, "@).push(ident);
    lemma_finish(t, args, parts, 1603, "::NUM_FIELDS) }\n}\n"@);
    assert(parts.push("::NUM_FIELDS) }\n}\n"@) =~= seq![
        "\n#[doc(hidden)]\n"@,
        vis,
        " struct "@,
        iter,
        "("@,
        base,
        ", usize, usize);\n\nimpl ::core::iter::Iterator for "@,
        iter,
        " {\n    type Item = (&'static ::bitfld::FieldMetadata<"@,
        base,
        ">, "@,
        base,
        ");\n\n    fn next(&mut self) -> Option<Self::Item> {\n        if self.1 >= self.2 {\n            return None;\n        }\n        let metadata = &"@,
        ident,
        "::FIELDS[self.1];\n        let shifted_mask = "@,
        base,
        "::MAX\n            >> ("@,
        base,
        "::BITS as usize - 1 - (metadata.high_bit - metadata.low_bit));\n        let value = (self.0 >> metadata.low_bit) & shifted_mask;\n        self.1 += 1;\n        Some((metadata, value))\n    }\n}\n\nimpl ::core::iter::DoubleEndedIterator for "@,
        iter,
        " {\n    fn next_back(&mut self) -> Option<Self::Item> {\n        if self.1 >= self.2 {\n            return None;\n        }\n        self.2 -= 1;\n        let metadata = &"@,
        ident,
        "::FIELDS[self.2];\n        let shifted_mask = "@,
        base,
        "::MAX\n            >> ("@,
        base,
        "::BITS as usize - 1 - (metadata.high_bit - metadata.low_bit));\n        let value = (self.0 >> metadata.low_bit) & shifted_mask;\n        Some((metadata, value))\n    }\n}\n\nimpl "@,
        ident,
        " {\n    /// Returns an iterator over\n    /// ([metadata][`bitfld::FieldMetadata`], value) pairs for each\n    /// field.\n    pub fn iter(&self) -> "@,
        iter,
        " {\n        "@,
        iter,
        "(self.0, 0, Self::NUM_FIELDS)\n    }\n}\n\nimpl ::core::iter::IntoIterator for "@,
        ident,
        " {\n    type Item = (&'static ::bitfld::FieldMetadata<"@,
        base,
        ">, "@,
        base,
        ");\n    type IntoIter = "@,
        iter,
        ";\n\n    fn into_iter(self) -> Self::IntoIter { "@,
        iter,
        "(self.0, 0, Self::NUM_FIELDS) }\n}\n\nimpl<'a> ::core::iter::IntoIterator for &'a "@,
        ident,
        " {\n    type Item = (&'static ::bitfld::FieldMetadata<"@,
        base,
        ">, "@,
        base,
        ");\n    type IntoIter = "@,
        iter,
        ";\n\n    fn into_iter(self) -> Self::IntoIter { "@,
        iter,
        "(self.0, 0, "@,
        ident,
        "::NUM_FIELDS) }\n}\n"@,
    ]);
}

/// The text of a layout.
pub(crate) proof fn lemma_layout(
    def: Chars,
    ident: Chars,
    constants: Chars,
    accessors: Chars,
    base: Chars,
    iterators: Chars,
    formatting: Chars,
)
    ensures
        fill_of(LAYOUT@, seq![def, ident, constants, accessors, base, iterators, formatting]) == concat_of(
            seq![
                "\n#[derive(Copy, Clone, Eq, PartialEq)]\n"@,
                def,
                "\n\nimpl "@,
                ident,
                " {\n    "@,
                constants,
                "\n\n    /// Creates a new instance with reserved-as-1 bits set and\n    /// all other bits zeroed (i.e., with a value of\n    /// [`Self::RSVD1_MASK`]).\n    pub const fn new() -> Self {\n        Self(Self::RSVD1_MASK)\n    }\n\n    "@,
                accessors,
                "\n}\n\nimpl ::core::default::Default for "@,
                ident,
                " {\n    /// Returns an instance with the default bits set (i.e,. with a\n    /// value of [`Self::DEFAULT`].\n    fn default() -> Self {\n        Self(Self::DEFAULT)\n    }\n}\n\nimpl ::core::convert::From<"@,
                base,
                "> for "@,
                ident,
                " {\n    // `RSVD{0,1}_MASK` may be zero, in which case the following\n    // mask conditions might be trivially true.\n    #[allow(clippy::bad_bit_mask)]\n    fn from(value: "@,
                base,
                ") -> Self {\n        debug_assert!(\n            value & Self::RSVD1_MASK == Self::RSVD1_MASK,\n            \"from(): Invalid base value ({value:#x}) has reserved-as-1 bits ({:#x}) unset\",\n            Self::RSVD1_MASK,\n        );\n        debug_assert!(\n            !value & Self::RSVD0_MASK == Self::RSVD0_MASK,\n            \"from(): Invalid base value ({value:#x}) has reserved-as-0 bits ({:#x}) set\",\n            Self::RSVD0_MASK,\n        );\n        Self(value)\n    }\n}\n\nimpl ::core::ops::Deref for "@,
                ident,
                " {\n    type Target = "@,
                base,
                ";\n\n    fn deref(&self) -> &Self::Target {\n        &self.0\n    }\n}\n\nimpl ::core::ops::DerefMut for "@,
                ident,
                " {\n    fn deref_mut(&mut self) -> &mut Self::Target {\n        &mut self.0\n    }\n}\n\n"@,
                iterators,
                "\n\n"@,
                formatting,
                "\n"@,
            ],
        ),
{
    let t = LAYOUT@;
    let args = seq![def, ident, constants, accessors, base, iterators, formatting];
    reveal_strlit("
#[derive(Copy, Clone, Eq, PartialEq)]
$0

impl $1 {
    $2

    /// Creates a new instance with reserved-as-1 bits set and
    /// all other bits zeroed (i.e., with a value of
    /// [`Self::RSVD1_MASK`]).
    pub const fn new() -> Self {
        Self(Self::RSVD1_MASK)
    }

    $3
}

impl ::core::default::Default for $1 {
    /// Returns an instance with the default bits set (i.e,. with a
    /// value of [`Self::DEFAULT`].
    fn default() -> Self {
        Self(Self::DEFAULT)
    }
}

impl ::core::convert::From<$4> for $1 {
    // `RSVD{0,1}_MASK` may be zero, in which case the following
    // mask conditions might be trivially true.
    #[allow(clippy::bad_bit_mask)]
    fn from(value: $4) -> Self {
        debug_assert!(
            value & Self::RSVD1_MASK == Self::RSVD1_MASK,
            \"from(): Invalid base value ({value:#x}) has reserved-as-1 bits ({:#x}) unset\",
            Self::RSVD1_MASK,
        );
        debug_assert!(
            !value & Self::RSVD0_MASK == Self::RSVD0_MASK,
            \"from(): Invalid base value ({value:#x}) has reserved-as-0 bits ({:#x}) set\",
            Self::RSVD0_MASK,
        );
        Self(value)
    }
}

impl ::core::ops::Deref for $1 {
    type Target = $4;

    fn deref(&self) -> &Self::Target {
        &self.0
    }
}

impl ::core::ops::DerefMut for $1 {
    fn deref_mut(&mut self) -> &mut Self::Target {
        &mut self.0
    }
}

$5

$6
");
    reveal_strlit("\n#[derive(Copy, Clone, Eq, PartialEq)]\n");
    reveal_strlit("\n\nimpl ");
    reveal_strlit(" {\n    ");
    reveal_strlit("\n\n    /// Creates a new instance with reserved-as-1 bits set and\n    /// all other bits zeroed (i.e., with a value of\n    /// [`Self::RSVD1_MASK`]).\n    pub const fn new() -> Self {\n        Self(Self::RSVD1_MASK)\n    }\n\n    ");
    reveal_strlit("\n}\n\nimpl ::core::default::Default for ");
    reveal_strlit(" {\n    /// Returns an instance with the default bits set (i.e,. with a\n    /// value of [`Self::DEFAULT`].\n    fn default() -> Self {\n        Self(Self::DEFAULT)\n    }\n}\n\nimpl ::core::convert::From<");
    reveal_strlit("> for ");
    reveal_strlit(" {\n    // `RSVD{0,1}_MASK` may be zero, in which case the following\n    // mask conditions might be trivially true.\n    #[allow(clippy::bad_bit_mask)]\n    fn from(value: ");
    reveal_strlit(") -> Self {\n        debug_assert!(\n            value & Self::RSVD1_MASK == Self::RSVD1_MASK,\n            \"from(): Invalid base value ({value:#x}) has reserved-as-1 bits ({:#x}) unset\",\n            Self::RSVD1_MASK,\n        );\n        debug_assert!(\n            !value & Self::RSVD0_MASK == Self::RSVD0_MASK,\n            \"from(): Invalid base value ({value:#x}) has reserved-as-0 bits ({:#x}) set\",\n            Self::RSVD0_MASK,\n        );\n        Self(value)\n    }\n}\n\nimpl ::core::ops::Deref for ");
    reveal_strlit(" {\n    type Target = ");
    reveal_strlit(";\n\n    fn deref(&self) -> &Self::Target {\n        &self.0\n    }\n}\n\nimpl ::core::ops::DerefMut for ");
    reveal_strlit(" {\n    fn deref_mut(&mut self) -> &mut Self::Target {\n        &mut self.0\n    }\n}\n\n");
    reveal_strlit("\n\n");
    reveal_strlit("\n");
    let parts = Seq::<Chars>::empty();
    lemma_start(t, args);
    lemma_step(t, args, parts, 0, "\n#[derive(Copy, Clone, Eq, PartialEq)]\n"@, 0);
    let parts = parts.push("\n#[derive(Copy, Clone, Eq, PartialEq)]\n"@).push(def);
    lemma_step(t, args, parts, 41, "\n\nimpl "@, 1);
    let parts = parts.push("\n\nimpl "@).push(ident);
    lemma_step(t, args, parts, 50, " {\n    "@, 2);
    let parts = parts.push(" {\n    "@).push(constants);
    lemma_step(t, args, parts, 59, "\n\n    /// Creates a new instance with reserved-as-1 bits set and\n    /// all other bits zeroed (i.e., with a value of\n    /// [`Self::RSVD1_MASK`]).\n    pub const fn new() -> Self {\n        Self(Self::RSVD1_MASK)\n    }\n\n    "@, 3);
    let parts = parts.push("\n\n    /// Creates a new instance with reserved-as-1 bits set and\n    /// all other bits zeroed (i.e., with a value of\n    /// [`Self::RSVD1_MASK`]).\n    pub const fn new() -> Self {\n        Self(Self::RSVD1_MASK)\n    }\n\n    "@).push(accessors);
    lemma_step(t, args, parts, 285, "\n}\n\nimpl ::core::default::Default for "@, 1);
    let parts = parts.push("\n}\n\nimpl ::core::default::Default for "@).push(ident);
    lemma_step(t, args, parts, 325, " {\n    /// Returns an instance with the default bits set (i.e,. with a\n    /// value of [`Self::DEFAULT`].\n    fn default() -> Self {\n        Self(Self::DEFAULT)\n    }\n}\n\nimpl ::core::convert::From<"@, 4);
    let parts = parts.push(" {\n    /// Returns an instance with the default bits set (i.e,. with a\n    /// value of [`Self::DEFAULT`].\n    fn default() -> Self {\n        Self(Self::DEFAULT)\n    }\n}\n\nimpl ::core::convert::From<"@).push(base);
    lemma_step(t, args, parts, 525, "> for "@, 1);
    let parts = parts.push("> for "@).push(ident);
    lemma_step(t, args, parts, 533, " {\n    // `RSVD{0,1}_MASK` may be zero, in which case the following\n    // mask conditions might be trivially true.\n    #[allow(clippy::bad_bit_mask)]\n    fn from(value: "@, 4);
    let parts = parts.push(" {\n    // `RSVD{0,1}_MASK` may be zero, in which case the following\n    // mask conditions might be trivially true.\n    #[allow(clippy::bad_bit_mask)]\n    fn from(value: "@).push(base);
    lemma_step(t, args, parts, 705, ") -> Self {\n        debug_assert!(\n            value & Self::RSVD1_MASK == Self::RSVD1_MASK,\n            \"from(): Invalid base value ({value:#x}) has reserved-as-1 bits ({:#x}) unset\",\n            Self::RSVD1_MASK,\n        );\n        debug_assert!(\n            !value & Self::RSVD0_MASK == Self::RSVD0_MASK,\n            \"from(): Invalid base value ({value:#x}) has reserved-as-0 bits ({:#x}) set\",\n            Self::RSVD0_MASK,\n        );\n        Self(value)\n    }\n}\n\nimpl ::core::ops::Deref for "@, 1);
    let parts = parts.push(") -> Self {\n        debug_assert!(\n            value & Self::RSVD1_MASK == Self::RSVD1_MASK,\n            \"from(): Invalid base value ({value:#x}) has reserved-as-1 bits ({:#x}) unset\",\n            Self::RSVD1_MASK,\n        );\n        debug_assert!(\n            !value & Self::RSVD0_MASK == Self::RSVD0_MASK,\n            \"from(): Invalid base value ({value:#x}) has reserved-as-0 bits ({:#x}) set\",\n            Self::RSVD0_MASK,\n        );\n        Self(value)\n    }\n}\n\nimpl ::core::ops::Deref for "@).push(ident);
    lemma_step(t, args, parts, 1203, " {\n    type Target = "@, 4);
    let parts = parts.push(" {\n    type Target = "@).push(base);
    lemma_step(t, args, parts, 1226, ";\n\n    fn deref(&self) -> &Self::Target {\n        &self.0\n    }\n}\n\nimpl ::core::ops::DerefMut for "@, 1);
    let parts = parts.push(";\n\n    fn deref(&self) -> &Self::Target {\n        &self.0\n    }\n}\n\nimpl ::core::ops::DerefMut for "@).push(ident);
    lemma_step(t, args, parts, 1326, " {\n    fn deref_mut(&mut self) -> &mut Self::Target {\n        &mut self.0\n    }\n}\n\n"@, 5);
    let parts = parts.push(" {\n    fn deref_mut(&mut self) -> &mut Self::Target {\n        &mut self.0\n    }\n}\n\n"@).push(iterators);
    lemma_step(t, args, parts, 1411, "\n\n"@, 6);
    let parts = parts.push("\n\n"@).push(formatting);
    lemma_finish(t, args, parts, 1415, "\n"@);
    assert(parts.push("\n"@) =~= seq![
        "\n#[derive(Copy, Clone, Eq, PartialEq)]\n"@,
        def,
        "\n\nimpl "@,
        ident,
        " {\n    "@,
        constants,
        "\n\n    /// Creates a new instance with reserved-as-1 bits set and\n    /// all other bits zeroed (i.e., with a value of\n    /// [`Self::RSVD1_MASK`]).\n    pub const fn new() -> Self {\n        Self(Self::RSVD1_MASK)\n    }\n\n    "@,
        accessors,
        "\n}\n\nimpl ::core::default::Default for "@,
        ident,
        " {\n    /// Returns an instance with the default bits set (i.e,. with a\n    /// value of [`Self::DEFAULT`].\n    fn default() -> Self {\n        Self(Self::DEFAULT)\n    }\n}\n\nimpl ::core::convert::From<"@,
        base,
        "> for "@,
        ident,
        " {\n    // `RSVD{0,1}_MASK` may be zero, in which case the following\n    // mask conditions might be trivially true.\n    #[allow(clippy::bad_bit_mask)]\n    fn from(value: "@,
        base,
        ") -> Self {\n        debug_assert!(\n            value & Self::RSVD1_MASK == Self::RSVD1_MASK,\n            \"from(): Invalid base value ({value:#x}) has reserved-as-1 bits ({:#x}) unset\",\n            Self::RSVD1_MASK,\n        );\n        debug_assert!(\n            !value & Self::RSVD0_MASK == Self::RSVD0_MASK,\n            \"from(): Invalid base value ({value:#x}) has reserved-as-0 bits ({:#x}) set\",\n            Self::RSVD0_MASK,\n        );\n        Self(value)\n    }\n}\n\nimpl ::core::ops::Deref for "@,
        ident,
        " {\n    type Target = "@,
        base,
        ";\n\n    fn deref(&self) -> &Self::Target {\n        &self.0\n    }\n}\n\nimpl ::core::ops::DerefMut for "@,
        ident,
        " {\n    fn deref_mut(&mut self) -> &mut Self::Target {\n        &mut self.0\n    }\n}\n\n"@,
        iterators,
        "\n\n"@,
        formatting,
        "\n"@,
    ]);
}

} // verus!
