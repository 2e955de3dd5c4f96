//! The source text of a field's getter and setter.

use crate::bitfield::{Bitfield, Field};
use crate::syntax::{Chars, Texts};
use crate::text::{
    characters, concat_all, concat_of, fill, fill_of, join, quoted, quoted_of, suffixed, suffixed_of,
};
use crate::typedef::TypeDef;
use vstd::prelude::*;

verus! {

/// The accessors of a single bit: the field's docs, the getter's doc, the field's name, its
/// bit, the setter's doc and the setter's name.
pub const FLAG_ACCESSORS: &'static str = "
$0
#[doc = $1]
#[inline]
pub const fn $2(&self) -> bool {
    ::bitfld::get_bit!(self.0, $3)
}

$0
#[doc = $4]
#[inline]
pub const fn $5(&mut self, value: bool) -> &mut Self {
    ::bitfld::set_bit!(self.0, $3, value);
    self
}
";

/// Reading a field: the base type, the field's type, its high and low bit, and whether it is
/// shifted.
pub const GET_FIELD: &'static str = "::bitfld::get_field!($0, $1, $2, $3, $4, self.0)";

/// Writing a field: the base type, the field's high and low bit, and whether it is shifted.
pub const SET_FIELD: &'static str = "::bitfld::set_field!($0, $1, $2, $3, self.0, value)";

/// The getter of a field with a representation: the field's docs, the getter's doc, the
/// field's name, its representation, its type, and how it is read.
pub const REPR_GETTER: &'static str = "
$0
#[doc = $1]
#[inline]
pub fn $2(&self) -> ::core::result::Result<$3, ::bitfld::InvalidBits<$4>>
where
    $3: ::zerocopy::TryFromBytes,
{
    use ::zerocopy::IntoBytes;
    use ::zerocopy::TryFromBytes;
    let value = $5 ;
    $3::try_read_from_bytes(value.as_bytes())
        .map_err(|_| ::bitfld::InvalidBits(value))
}
";

/// The getter of any other field: the field's docs, the getter's doc, the field's name, its
/// type, and how it is read.
pub const GETTER: &'static str = "
$0
#[doc = $1]
#[inline]
pub const fn $2(&self) -> $3 {
    $4
}
";

/// The setter of a field with a representation: the setter's doc and name, the field's
/// representation and type, the base type, and how it is written.
pub const REPR_SETTER: &'static str = "
#[doc = $0]
#[inline]
pub fn $1(&mut self, value: $2) -> &mut Self
where
    $2: ::zerocopy::IntoBytes + ::zerocopy::Immutable
{
    use ::zerocopy::IntoBytes;
    use ::zerocopy::FromBytes;
    const { assert!(::core::mem::size_of::<$2>() == ::core::mem::size_of::<$3>()) }
    let value = $3::read_from_bytes(value.as_bytes()).unwrap() as $4;
    $5 ;
    self
}
";

/// The setter of any other field: the setter's doc and name, the field's type, the base type,
/// and how it is written.
pub const SETTER: &'static str = "
#[doc = $0]
#[inline]
pub const fn $1(&mut self, value: $2) -> &mut Self {
    let value = value as $3;
    $4 ;
    self
}
";

/// Whether a name is a raw identifier.
pub open spec fn is_raw(name: Chars) -> bool {
    name.len() >= 2 && name[0] == 'r' && name[1] == '#'
}

/// A name without the mark of a raw identifier.
pub open spec fn bare_of(name: Chars) -> Chars {
    if is_raw(name) {
        name.skip(2)
    } else {
        name
    }
}

/// What the docs of the accessors say of the field's value: `The ` or `Sets the `, and what
/// follows.
pub open spec fn accessor_doc_of(head: Chars, f: Field, ident: Chars) -> Chars {
    quoted_of(
        head + (if f.unshifted {
            "unshifted "@
        } else {
            ""@
        }) + "value of `"@ + ident + Bitfield::display_range_of(f) + "`."@,
    )
}

/// The type of the values of a field that is no single bit.
pub open spec fn clamped_type_of(f: Field, base: Chars) -> Chars {
    if f.unshifted {
        base
    } else {
        Bitfield::minimum_width_of(f.width()).name_of()
    }
}

/// Whether the accessors move the field's bits, as a literal.
pub open spec fn shifted_of(f: Field) -> Chars {
    if f.unshifted {
        "false"@
    } else {
        "true"@
    }
}

/// The getter of a field that is no single bit.
pub open spec fn getter_of(f: Field, ty: TypeDef<Chars, Texts>) -> Chars {
    let docs = concat_of(f.doc_attrs);
    let doc = accessor_doc_of("The "@, f, ty.ident);
    let clamped = clamped_type_of(f, ty.base.def);
    let get = fill_of(
        GET_FIELD@,
        seq![
            ty.base.def,
            clamped,
            suffixed_of(f.high_bit as nat),
            suffixed_of(f.low_bit as nat),
            shifted_of(f),
        ],
    );
    match f.repr {
        Some(repr) => fill_of(REPR_GETTER@, seq![docs, doc, f.name->0, repr, clamped, get]),
        None => fill_of(GETTER@, seq![docs, doc, f.name->0, clamped, get]),
    }
}

/// The setter of a field that is no single bit.
pub open spec fn setter_of(f: Field, ty: TypeDef<Chars, Texts>) -> Chars {
    let doc = accessor_doc_of("Sets the "@, f, ty.ident);
    let name = "set_"@ + bare_of(f.name->0);
    let clamped = clamped_type_of(f, ty.base.def);
    let set = fill_of(
        SET_FIELD@,
        seq![
            ty.base.def,
            suffixed_of(f.high_bit as nat),
            suffixed_of(f.low_bit as nat),
            shifted_of(f),
        ],
    );
    match f.repr {
        Some(repr) => fill_of(REPR_SETTER@, seq![doc, name, repr, clamped, ty.base.def, set]),
        None => fill_of(SETTER@, seq![doc, name, clamped, ty.base.def, set]),
    }
}

/// The accessors of a named field.
pub open spec fn accessors_of(f: Field, ty: TypeDef<Chars, Texts>) -> Chars {
    if f.width() == 1 && !f.unshifted {
        fill_of(
            FLAG_ACCESSORS@,
            seq![
                concat_of(f.doc_attrs),
                accessor_doc_of("The "@, f, ty.ident),
                f.name->0,
                suffixed_of(f.low_bit as nat),
                accessor_doc_of("Sets the "@, f, ty.ident),
                "set_"@ + bare_of(f.name->0),
            ],
        )
    } else {
        getter_of(f, ty) + setter_of(f, ty)
    }
}

/// Checks whether a name is a raw identifier.
pub fn check_raw(name: &str) -> (r: bool)
    ensures
        r == is_raw(name@),
{
    let chars = characters(name);
    chars.len() >= 2 && chars[0] == 'r' && chars[1] == '#'
}

/// Takes off the mark of a raw identifier.
pub fn bare(name: &str) -> (r: String)
    ensures
        r@ == bare_of(name@),
{
    if !check_raw(name) {
        return name.to_owned();
    }
    let chars = characters(name);
    let mut r = String::new();
    let mut i: usize = 2;
    while i < chars.len()
        invariant
            chars@ == name@,
            2 <= i <= chars.len(),
            r@ =~= name@.subrange(2, i as int),
        decreases chars.len() - i,
    {
        r.push(chars[i]);
        i = i + 1;
    }
    proof {
        assert(name@.subrange(2, i as int) =~= name@.skip(2));
    }
    r
}

impl Bitfield<String, Vec<String>> {
    /// Writes the doc of an accessor.
    fn accessor_doc(&self, head: &str, ident: &str) -> (r: String)
        ensures
            r@ == accessor_doc_of(head@, self.deep_view(), ident@),
    {
        let mut doc = head.to_owned();
        doc.append(
            if self.unshifted {
                "unshifted "
            } else {
                ""
            },
        );
        doc.append("value of `");
        doc.append(ident);
        doc.append(self.display_range().as_str());
        doc.append("`.");
        quoted(doc.as_str())
    }

    /// Writes the getter of a field that is no single bit.
    fn getter(&self, ty: &TypeDef<String, Vec<String>>, clamped: &str) -> (r: String)
        requires
            self.name is Some,
            clamped@ == clamped_type_of(self.deep_view(), ty.base.def@),
        ensures
            r@ == getter_of(self.deep_view(), ty.deep_view()),
    {
        let docs = concat_all(&self.doc_attrs);
        let doc = self.accessor_doc("The ", ty.ident.as_str());
        let name = self.name.as_ref().unwrap();
        let high = suffixed(self.high_bit);
        let low = suffixed(self.low_bit);
        let shifted = if self.unshifted {
            "false"
        } else {
            "true"
        };
        let args = vec![ty.base.def.as_str(), clamped, high.as_str(), low.as_str(), shifted];
        proof {
            let f = self.deep_view();
            assert(args.deep_view() =~= seq![
                ty.base.def@,
                clamped@,
                suffixed_of(f.high_bit as nat),
                suffixed_of(f.low_bit as nat),
                shifted_of(f),
            ]);
        }
        let get = fill(GET_FIELD, &args);
        match &self.repr {
            Some(repr) => {
                let args = vec![
                    docs.as_str(),
                    doc.as_str(),
                    name.as_str(),
                    repr.as_str(),
                    clamped,
                    get.as_str(),
                ];
                proof {
                    assert(args.deep_view() =~= seq![docs@, doc@, name@, repr@, clamped@, get@]);
                }
                fill(REPR_GETTER, &args)
            },
            None => {
                let args = vec![docs.as_str(), doc.as_str(), name.as_str(), clamped, get.as_str()];
                proof {
                    assert(args.deep_view() =~= seq![docs@, doc@, name@, clamped@, get@]);
                }
                fill(GETTER, &args)
            },
        }
    }

    /// Writes the setter of a field that is no single bit.
    fn setter(&self, ty: &TypeDef<String, Vec<String>>, clamped: &str) -> (r: String)
        requires
            self.name is Some,
            clamped@ == clamped_type_of(self.deep_view(), ty.base.def@),
        ensures
            r@ == setter_of(self.deep_view(), ty.deep_view()),
    {
        let doc = self.accessor_doc("Sets the ", ty.ident.as_str());
        let name = join("set_", bare(self.name.as_ref().unwrap().as_str()).as_str());
        let base = ty.base.def.as_str();
        let high = suffixed(self.high_bit);
        let low = suffixed(self.low_bit);
        let shifted = if self.unshifted {
            "false"
        } else {
            "true"
        };
        let args = vec![base, high.as_str(), low.as_str(), shifted];
        proof {
            let f = self.deep_view();
            assert(args.deep_view() =~= seq![
                ty.base.def@,
                suffixed_of(f.high_bit as nat),
                suffixed_of(f.low_bit as nat),
                shifted_of(f),
            ]);
        }
        let set = fill(SET_FIELD, &args);
        match &self.repr {
            Some(repr) => {
                let args = vec![
                    doc.as_str(),
                    name.as_str(),
                    repr.as_str(),
                    clamped,
                    base,
                    set.as_str(),
                ];
                proof {
                    assert(args.deep_view() =~= seq![doc@, name@, repr@, clamped@, base@, set@]);
                }
                fill(REPR_SETTER, &args)
            },
            None => {
                let args = vec![doc.as_str(), name.as_str(), clamped, base, set.as_str()];
                proof {
                    assert(args.deep_view() =~= seq![doc@, name@, clamped@, base@, set@]);
                }
                fill(SETTER, &args)
            },
        }
    }

    /// Writes the getter and the setter of a named field: those of a single bit take and
    /// return a `bool`, those of an unshifted field the base type, and those of any other
    /// field the narrowest type that holds its values, or its representation.
    pub fn getter_and_setter(&self, ty: &TypeDef<String, Vec<String>>) -> (r: String)
        requires
            self.name is Some,
            self.deep_view().well_formed(),
            self.deep_view().width() <= 128,
        ensures
            r@ == accessors_of(self.deep_view(), ty.deep_view()),
    {
        let width = self.bit_width();
        if width == 1 && !self.unshifted {
            let docs = concat_all(&self.doc_attrs);
            let get_doc = self.accessor_doc("The ", ty.ident.as_str());
            let set_doc = self.accessor_doc("Sets the ", ty.ident.as_str());
            let name = self.name.as_ref().unwrap();
            let setter_name = join("set_", bare(name.as_str()).as_str());
            let low = suffixed(self.low_bit);
            let args = vec![
                docs.as_str(),
                get_doc.as_str(),
                name.as_str(),
                low.as_str(),
                set_doc.as_str(),
                setter_name.as_str(),
            ];
            proof {
                assert(args.deep_view() =~= seq![
                    docs@,
                    get_doc@,
                    name@,
                    low@,
                    set_doc@,
                    setter_name@,
                ]);
            }
            return fill(FLAG_ACCESSORS, &args);
        }
        let clamped = if self.unshifted {
            ty.base.def.as_str()
        } else {
            self.minimum_width_integral_type().name()
        };
        let mut r = self.getter(ty, clamped);
        r.append(self.setter(ty, clamped).as_str());
        r
    }
}

} // verus!
