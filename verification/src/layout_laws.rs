//! Which texts define a layout, which layout that is, and what is said of the others.

use crate::accessors::{bare_of, is_raw};
use crate::base::{BaseType, BaseTypeDef, base_of, base_of_form};
use crate::bitfield::{Field, head_field_of};
use crate::error::Error;
use crate::expand::{expanded_of, expansion_of, first_raw};
use crate::layout::{
    LayoutView, braced_of, fields_of, first_overlap, layout_of, layout_of_fields,
    sort_by_low,
};
use crate::syntax::{
    Chars, NestedMetas, StructItem, Texts, TypeForm, attribute_of, metas_of, shape_of, struct_of,
    tree_count, trees_of, type_of,
};
use crate::text::{decimal_of, uppercase_of};
use crate::typedef::{
    StructAttrView, StructDeclView, TypeDef, attrs_error, first_derived, head_typedef_of,
    struct_attrs_of, struct_decl_of, typedef_of,
};
use vstd::prelude::*;

verus! {

/// The name of a base type is `u` and its number of bits, and names no other type; nothing else
/// names one. The number of bits is a power of two, from 8 to 128.
pub proof fn base_types_are_named_by_their_bits(b: BaseType, name: Chars)
    ensures
        b.name_of() == "u"@ + decimal_of(b.bits()),
        BaseType::named(name) == Some(b) <==> name == b.name_of(),
        b.bits() == 8 || b.bits() == 16 || b.bits() == 32 || b.bits() == 64 || b.bits() == 128,
{
    reveal_strlit("u");
    reveal_strlit("u8");
    reveal_strlit("u16");
    reveal_strlit("u32");
    reveal_strlit("u64");
    reveal_strlit("u128");
    reveal_with_fuel(decimal_of, 3);
    assert("u8"@.len() == 2 && "u16"@.len() == 3 && "u128"@.len() == 4);
    assert("u16"@[1] == '1' && "u32"@[1] == '3' && "u64"@[1] == '6');
    assert(decimal_of(8) =~= seq!['8']);
    assert(decimal_of(16) =~= seq!['1', '6']);
    assert(decimal_of(32) =~= seq!['3', '2']);
    assert(decimal_of(64) =~= seq!['6', '4']);
    assert(decimal_of(12) =~= seq!['1', '2']);
    assert(decimal_of(128) =~= seq!['1', '2', '8']);
    assert(b.name_of() =~= "u"@ + decimal_of(b.bits()));
}

/// A type is taken as a base type if and only if it is a path without `<..>::` whose text is the
/// name of one.
pub proof fn base_types_are_named_by_paths(def: Chars, form: TypeForm<Chars, Texts>, b: BaseType)
    ensures
        base_of_form(def, form) == Ok::<_, Error<Chars>>(BaseTypeDef { def, ty: b })
            <==> match form {
            TypeForm::Path { qualified, text, .. } => !qualified && text == b.name_of(),
            _ => false,
        },
        base_of_form(def, form) matches Ok(base) ==> base.def == def,
        base_of_form(def, form) matches Err(e) ==> e == (Error::Layout {
            message: "base type must be an unsigned integral type"@,
            at: def,
        }),
        type_of(def) matches Err(message) ==> base_of(def) == Err::<BaseTypeDef<Chars>, _>(
            Error::Syntax(message),
        ),
        type_of(def) == Ok::<_, Chars>(form) ==> match trees_of(def) {
            Ok(trees) => if trees.len == 1 {
                base_of(def) == base_of_form(def, form)
            } else {
                base_of(def) == Err::<BaseTypeDef<Chars>, _>(
                    Error::Layout {
                        message: "base type must be an unsigned integral type"@,
                        at: def,
                    },
                )
            },
            Err(message) => base_of(def) == Err::<BaseTypeDef<Chars>, _>(Error::Syntax(message)),
        },
{
    match form {
        TypeForm::Path { text, .. } => {
            base_types_are_named_by_their_bits(b, text);
        },
        _ => {},
    }
}

/// Whether a path names a trait that every layout has.
pub open spec fn redundant(path: Chars) -> bool {
    seq!["Copy"@, "Clone"@, "Debug"@, "Default"@, "Eq"@, "PartialEq"@].contains(path)
}

/// Whether a list of derives is accepted.
pub open spec fn derives_more(metas: NestedMetas<Chars, Texts>) -> bool {
    &&& metas.error is None
    &&& forall|i: int| 0 <= i < metas.paths.len() ==> !redundant(#[trigger] metas.paths[i])
}

/// The redundant paths are those of the six traits.
proof fn lemma_redundant(path: Chars)
    ensures
        redundant(path) <==> crate::typedef::is_derived(path),
{
    let all = seq!["Copy"@, "Clone"@, "Debug"@, "Default"@, "Eq"@, "PartialEq"@];
    assert(all[0] == "Copy"@ && all[1] == "Clone"@ && all[2] == "Debug"@ && all[3] == "Default"@
        && all[4] == "Eq"@ && all[5] == "PartialEq"@);
    if crate::typedef::is_derived(path) {
        assert(exists|i: int| 0 <= i < all.len() && all[i] == path);
    }
}

/// The first redundant derive is found, and none where there is none.
pub proof fn the_first_redundant_derive_is_found(paths: Texts)
    ensures
        match first_derived(paths) {
            Some(path) => exists|n: int|
                #![trigger paths[n]]
                0 <= n < paths.len() && paths[n] == path && redundant(path) && forall|i: int|
                    0 <= i < n ==> !redundant(#[trigger] paths[i]),
            None => forall|i: int| 0 <= i < paths.len() ==> !redundant(#[trigger] paths[i]),
        },
    decreases paths.len(),
{
    if paths.len() > 0 {
        let init = paths.drop_last();
        the_first_redundant_derive_is_found(init);
        lemma_redundant(paths.last());
        match first_derived(init) {
            Some(path) => {
                let n = choose|n: int|
                    #![trigger init[n]]
                    0 <= n < init.len() && init[n] == path && redundant(path) && forall|i: int|
                        0 <= i < n ==> !redundant(#[trigger] init[i]);
                assert(paths[n] == path);
                assert forall|i: int| 0 <= i < n implies !redundant(#[trigger] paths[i]) by {
                    assert(init[i] == paths[i]);
                }
            },
            None => {
                assert forall|i: int| 0 <= i < paths.len() - 1 implies !redundant(
                    #[trigger] paths[i],
                ) by {
                    assert(init[i] == paths[i]);
                }
                assert(paths[paths.len() - 1] == paths.last());
            },
        }
    }
}

/// The first attribute with an error decides, and it is an error in a list of derives: that one of
/// them is redundant, or else the parser's.
pub proof fn derives_are_checked_in_order(attrs: Seq<StructAttrView>)
    ensures
        match attrs_error(attrs) {
            None => forall|i: int|
                0 <= i < attrs.len() ==> ((#[trigger] attrs[i]).metas is Some ==> derives_more(
                    attrs[i].metas->0,
                )),
            Some(e) => exists|n: int|
                #![trigger attrs[n]]
                {
                    &&& 0 <= n < attrs.len()
                    &&& attrs[n].metas is Some
                    &&& !derives_more(attrs[n].metas->0)
                    &&& forall|i: int|
                        0 <= i < n ==> ((#[trigger] attrs[i]).metas is Some ==> derives_more(
                            attrs[i].metas->0,
                        ))
                    &&& match first_derived(attrs[n].metas->0.paths) {
                        Some(path) => e == (Error::Layout {
                            message: "layout! already derives "@ + path,
                            at: path,
                        }),
                        None => e == Error::Syntax(attrs[n].metas->0.error->0),
                    }
                },
        },
    decreases attrs.len(),
{
    if attrs.len() > 0 {
        let init = attrs.drop_last();
        derives_are_checked_in_order(init);
        match attrs_error(init) {
            None => {
                assert forall|i: int|
                    0 <= i < attrs.len() - 1 && (
                    #[trigger] attrs[i]).metas is Some implies derives_more(attrs[i].metas->0) by {
                    assert(init[i] == attrs[i]);
                }
                let n = attrs.len() - 1;
                assert(attrs[n] == attrs.last());
                if let Some(metas) = attrs.last().metas {
                    the_first_redundant_derive_is_found(metas.paths);
                }
            },
            Some(e) => {
                let n = choose|n: int|
                    #![trigger init[n]]
                    {
                        &&& 0 <= n < init.len()
                        &&& init[n].metas is Some
                        &&& !derives_more(init[n].metas->0)
                        &&& forall|i: int|
                            0 <= i < n ==> ((#[trigger] init[i]).metas is Some ==> derives_more(
                                init[i].metas->0,
                            ))
                        &&& match first_derived(init[n].metas->0.paths) {
                            Some(path) => e == (Error::Layout {
                                message: "layout! already derives "@ + path,
                                at: path,
                            }),
                            None => e == Error::Syntax(init[n].metas->0.error->0),
                        }
                    };
                assert(attrs[n] == init[n]);
                assert forall|i: int|
                    0 <= i < n && (#[trigger] attrs[i]).metas is Some implies derives_more(
                    attrs[i].metas->0,
                ) by {
                    assert(init[i] == attrs[i]);
                }
            },
        }
    }
}

/// Whether every list of derives of a struct is accepted.
pub open spec fn all_derive_more(attrs: Seq<StructAttrView>) -> bool {
    forall|i: int|
        0 <= i < attrs.len() ==> ((#[trigger] attrs[i]).metas is Some ==> derives_more(
            attrs[i].metas->0,
        ))
}

/// Whether a struct has one field, whose type is read, and that is a base type.
pub open spec fn wraps(d: StructDeclView) -> bool {
    &&& d.shape.types is Some
    &&& d.shape.types->0.len() == 1
    &&& d.base is Some
    &&& base_of_form(d.shape.types->0[0], d.base->0) is Ok
}

/// A struct defines a type if and only if it is a tuple struct of a base type without parameters
/// and `where` clause that derives nothing that every layout has. The type has the attributes,
/// body, visibility and name of the struct, and is that base type.
pub proof fn structs_define_types(d: StructDeclView)
    ensures
        typedef_of(d) is Ok <==> all_derive_more(d.attrs) && wraps(d) && d.shape.generics.len() == 0
            && d.where_clause is None,
        typedef_of(d) matches Ok(ty) ==> {
            &&& ty.attrs.len() == d.attrs.len()
            &&& forall|i: int|
                0 <= i < d.attrs.len() ==> #[trigger] ty.attrs[i] == d.attrs[i].text
            &&& ty.repr <==> exists|i: int|
                0 <= i < d.attrs.len() && (#[trigger] d.attrs[i]).path == Some("repr"@)
            &&& ty.body == d.body
            &&& ty.vis == d.shape.vis
            &&& ty.ident == d.shape.ident
            &&& ty.base.def == d.shape.types->0[0]
            &&& base_of_form(d.shape.types->0[0], d.base->0) == Ok::<_, Error<Chars>>(ty.base)
        },
{
    derives_are_checked_in_order(d.attrs);
    if typedef_of(d) is Ok {
        let repr = typedef_of(d)->Ok_0.repr;
        if repr {
            let i = choose|i: int|
                0 <= i < d.attrs.len() && crate::typedef::is_repr(#[trigger] d.attrs[i]);
            assert(d.attrs[i].path == Some("repr"@));
        }
        if exists|i: int| 0 <= i < d.attrs.len() && (#[trigger] d.attrs[i]).path == Some("repr"@) {
            let i = choose|i: int|
                0 <= i < d.attrs.len() && (#[trigger] d.attrs[i]).path == Some("repr"@);
            assert(crate::typedef::is_repr(d.attrs[i]));
        }
    }
}

/// What is reported of a struct that defines no type.
pub proof fn structs_that_are_refused(d: StructDeclView)
    ensures
        !all_derive_more(d.attrs) ==> typedef_of(d) == Err::<TypeDef<Chars, Texts>, _>(
            attrs_error(d.attrs)->0,
        ),
        all_derive_more(d.attrs) ==> {
            let fields = d.shape.fields;
            match d.shape.types {
                None => typedef_of(d) == refusal(
                    "bitfld type must be defined as a tuple struct"@,
                    fields,
                ),
                Some(types) => {
                    &&& types.len() == 0 ==> typedef_of(d) == refusal(
                        "no base type provided"@,
                        fields,
                    )
                    &&& types.len() > 1 ==> typedef_of(d) == refusal(
                        "too many tuple fields; only the base type should be provided"@,
                        fields,
                    )
                    &&& types.len() == 1 && d.base is Some && !wraps(d) ==> typedef_of(d)
                        == refusal("base type must be an unsigned integral type"@, types[0])
                },
            }
        },
        all_derive_more(d.attrs) && wraps(d) && d.shape.generics.len() > 0 ==> typedef_of(d)
            == refusal("generic parameters are not supported"@, d.shape.generics),
        all_derive_more(d.attrs) && wraps(d) && d.shape.generics.len() == 0
            && d.where_clause is Some ==> typedef_of(d) == refusal(
            "generic parameters are not supported"@,
            d.where_clause->0,
        ),
{
    derives_are_checked_in_order(d.attrs);
}

/// That a part of a struct is refused.
pub open spec fn refusal(message: Chars, at: Chars) -> Result<TypeDef<Chars, Texts>, Error<Chars>> {
    Err(Error::Layout { message, at })
}

/// The parser's message about an attribute that cannot be read, or about the list of a `derive`.
pub open spec fn malformed(text: Chars) -> Option<Chars> {
    match attribute_of(text) {
        Err(message) => Some(message),
        Ok(path) => match metas_of(text) {
            Err(message) if path == Some("derive"@) => Some(message),
            _ => None,
        },
    }
}

/// Attributes are read one by one; the list of a `derive` is read, and that of no other. The first
/// attribute that is malformed is reported.
pub proof fn attributes_of_a_struct(texts: Texts)
    ensures
        struct_attrs_of(texts) matches Ok(attrs) ==> {
            &&& attrs.len() == texts.len()
            &&& forall|i: int|
                0 <= i < texts.len() ==> {
                    let attr = #[trigger] attrs[i];
                    &&& attr.text == texts[i]
                    &&& attribute_of(texts[i]) == Ok::<_, Chars>(attr.path)
                    &&& attr.path == Some("derive"@) ==> attr.metas is Some && metas_of(texts[i])
                        == Ok::<_, Chars>(attr.metas->0)
                    &&& attr.path != Some("derive"@) ==> attr.metas is None
                }
        },
        struct_attrs_of(texts) matches Err(message) ==> exists|n: int|
            #![trigger texts[n]]
            0 <= n < texts.len() && malformed(texts[n]) == Some(message) && forall|i: int|
                0 <= i < n ==> malformed(#[trigger] texts[i]) is None,
    decreases texts.len(),
{
    if texts.len() > 0 {
        let init = texts.drop_last();
        attributes_of_a_struct(init);
        assert(texts[texts.len() - 1] == texts.last());
        match struct_attrs_of(init) {
            Ok(attrs) => {
                assert forall|i: int| 0 <= i < texts.len() - 1 implies malformed(
                    #[trigger] texts[i],
                ) is None by {
                    assert(attrs[i].text == init[i] && init[i] == texts[i]);
                }
            },
            Err(message) => {
                let n = choose|n: int|
                    #![trigger init[n]]
                    0 <= n < init.len() && malformed(init[n]) == Some(message) && forall|i: int|
                        0 <= i < n ==> malformed(#[trigger] init[i]) is None;
                assert(texts[n] == init[n]);
                assert forall|i: int| 0 <= i < n implies malformed(#[trigger] texts[i]) is None by {
                    assert(init[i] == texts[i]);
                }
            },
        }
    }
}

/// A struct item is taken apart without loss: its attributes, its body, its `where` clause, its
/// shape, and the type of its only field.
pub proof fn structs_are_taken_apart(item: StructItem<Chars, Texts>)
    ensures
        struct_decl_of(item) matches Ok(d) ==> {
            &&& struct_attrs_of(item.attrs) == Ok::<_, Chars>(d.attrs)
            &&& shape_of(item.body) == Ok::<_, Chars>(d.shape)
            &&& d.body == item.body
            &&& d.where_clause == item.where_clause
            &&& d.shape.types is Some && d.shape.types->0.len() == 1 ==> d.base is Some && type_of(
                d.shape.types->0[0],
            ) == Ok::<_, Chars>(d.base->0)
        },
        struct_attrs_of(item.attrs) is Ok && shape_of(item.body) is Ok ==> {
            let types = shape_of(item.body)->Ok_0.types;
            struct_decl_of(item) is Ok <==> (types is Some && types->0.len() == 1 ==> type_of(
                types->0[0],
            ) is Ok)
        },
        struct_decl_of(item) matches Err(message) ==> match (
            struct_attrs_of(item.attrs),
            shape_of(item.body),
        ) {
            (Err(e), _) => message == e,
            (Ok(_), Err(e)) => message == e,
            (Ok(_), Ok(shape)) => type_of(shape.types->0[0]) == Err::<TypeForm<Chars, Texts>, _>(
                message,
            ),
        },
        struct_attrs_of(item.attrs) is Err || shape_of(item.body) is Err ==> struct_decl_of(
            item,
        ) is Err,
{
}

/// The type at the head of a text is that of the struct there; what follows the struct is left,
/// and its leftovers are handed on.
pub proof fn types_are_read_by_struct(text: Chars)
    ensures
        head_typedef_of(text) is Ok <==> (struct_of(text) is Ok && struct_decl_of(
            struct_of(text)->Ok_0,
        ) is Ok && typedef_of(struct_decl_of(struct_of(text)->Ok_0)->Ok_0) is Ok),
        head_typedef_of(text) matches Ok((ty, rest, late)) ==> {
            let item = struct_of(text)->Ok_0;
            &&& typedef_of(struct_decl_of(item)->Ok_0) == Ok::<_, Error<Chars>>(ty)
            &&& rest == item.rest
            &&& late == item.late
        },
        head_typedef_of(text) matches Err(e) ==> {
            ||| struct_of(text) matches Err(message) && e == Error::Syntax(message)
            ||| struct_of(text) matches Ok(item) && struct_decl_of(item) matches Err(message) && e
                == Error::Syntax(message)
            ||| struct_of(text) matches Ok(item) && struct_decl_of(item) matches Ok(d)
                && typedef_of(d) == Err::<TypeDef<Chars, Texts>, _>(e)
        },
{
}

/// How a message describes a field.
pub open spec fn described(f: Field) -> Chars {
    (match f.name {
        Some(name) => "`"@ + name + "`"@,
        None => "reserved"@,
    }) + " ("@ + (if f.high_bit == f.low_bit {
        "bit"@
    } else {
        "field"@
    }) + " "@ + (if f.high_bit == f.low_bit {
        decimal_of(f.low_bit as nat)
    } else {
        "["@ + decimal_of(f.high_bit as nat) + ":"@ + decimal_of(f.low_bit as nat) + "]"@
    }) + ")"@
}

/// Whether field `n` of a list begins below the end of the one before it.
pub open spec fn runs_into(sorted: Seq<Field>, n: int) -> bool {
    0 < n < sorted.len() && sorted[n - 1].high_bit >= sorted[n].low_bit
}

/// What is reported of field `n` of a list.
pub open spec fn overlap_at(sorted: Seq<Field>, n: int) -> Error<Chars> {
    Error::Layout {
        message: described(sorted[n]) + " overlaps with "@ + described(sorted[n - 1]),
        at: sorted[n].text,
    }
}

/// Of sorted fields the first that begins below the end of the one before it is reported, by both
/// their descriptions; where there is none, nothing is.
pub proof fn the_first_overlap_is_reported(sorted: Seq<Field>)
    ensures
        match first_overlap(sorted) {
            None => forall|n: int| !#[trigger] runs_into(sorted, n),
            Some(e) => exists|n: int| #[trigger]
                runs_into(sorted, n) && e == overlap_at(sorted, n) && forall|i: int|
                    i < n ==> !#[trigger] runs_into(sorted, i),
        },
    decreases sorted.len(),
{
    if sorted.len() >= 2 {
        let init = sorted.drop_last();
        let last = sorted.len() - 1;
        the_first_overlap_is_reported(init);
        assert forall|n: int| n < last implies #[trigger] runs_into(sorted, n) == runs_into(
            init,
            n,
        ) by {}
        match first_overlap(init) {
            None => {
                assert(runs_into(sorted, last) == (sorted[last - 1].high_bit
                    >= sorted[last].low_bit));
                if first_overlap(sorted) is Some {
                    assert(first_overlap(sorted) == Some(overlap_at(sorted, last)));
                    assert(runs_into(sorted, last));
                }
            },
            Some(e) => {
                let n = choose|n: int| #[trigger]
                    runs_into(init, n) && e == overlap_at(init, n) && forall|i: int|
                        i < n ==> !#[trigger] runs_into(init, i);
                assert(sorted[n] == init[n] && sorted[n - 1] == init[n - 1]);
                assert(runs_into(sorted, n));
                assert(overlap_at(init, n) == overlap_at(sorted, n));
            },
        }
    }
}

/// What is reported of fields that make no layout: the first overlap, else that the highest field
/// exceeds the base type. The others make one of the named fields and of the reserved ones that
/// have a value.
pub proof fn fields_make_layouts(ty: TypeDef<Chars, Texts>, fields: Seq<Field>)
    ensures
        ({
            let sorted = sort_by_low(fields);
            let highest = sorted.last();
            let bits = ty.base.ty.bits();
            if first_overlap(sorted) is Some {
                layout_of_fields(ty, fields) == Err::<LayoutView, _>(first_overlap(sorted)->0)
            } else if fields.len() > 0 && highest.high_bit >= bits {
                layout_of_fields(ty, fields) == Err::<LayoutView, _>(
                    Error::Layout {
                        message: "high bit "@ + decimal_of(highest.high_bit as nat)
                            + " exceeds the highest possible value of "@ + decimal_of(
                            (bits - 1) as nat,
                        ),
                        at: highest.text,
                    },
                )
            } else {
                layout_of_fields(ty, fields) == Ok::<_, Error<Chars>>(
                    LayoutView {
                        ty,
                        named: sorted.reverse().filter(|f: Field| f.name is Some),
                        reserved: sorted.reverse().filter(
                            |f: Field| f.name is None && f.default is Some,
                        ),
                    },
                )
            }
        }),
{
    broadcast use vstd::seq_lib::group_to_multiset_ensures;

    crate::layout::sorting_is_stable(fields);
    assert(sort_by_low(fields).len() == fields.len()) by {
        assert(sort_by_low(fields).to_multiset().len() == fields.to_multiset().len());
    }
    assert(crate::layout::is_named() =~= |f: Field| f.name is Some);
    assert(crate::layout::is_reserved_as() =~= |f: Field| f.name is None && f.default is Some);
}

/// The fields of a text are those of its statements, one after the other: none of an empty text,
/// else the first and those of what follows it. The first error decides, and of the messages about
/// leftovers the first is kept.
pub proof fn fields_follow_each_other(text: Chars)
    ensures
        trees_of(text) matches Err(message) ==> fields_of(text) == Err::<
            (Seq<Field>, Option<Chars>),
            _,
        >(Error::Syntax(message)),
        trees_of(text) matches Ok(trees) ==> {
            if trees.len == 0 {
                fields_of(text) == Ok::<_, Error<Chars>>((Seq::<Field>::empty(), None::<Chars>))
            } else {
                match head_field_of(text) {
                    Err(e) => fields_of(text) == Err::<(Seq<Field>, Option<Chars>), _>(e),
                    Ok((f, rest, late)) => tree_count(rest) < tree_count(text) ==> match fields_of(
                        rest,
                    ) {
                        Err(e) => fields_of(text) == Err::<(Seq<Field>, Option<Chars>), _>(e),
                        Ok((fields, next)) => fields_of(text) matches Ok((all, first)) && all
                            == seq![f] + fields && (late is Some ==> first == late) && (
                        late is None ==> first == next),
                    },
                }
            }
        },
{
}

/// Curly braces are opened if and only if they come first.
pub proof fn braces_are_opened(text: Chars)
    ensures
        match trees_of(text) {
            Err(message) => braced_of(text) == Err::<(Chars, bool), _>(Error::Syntax(message)),
            Ok(trees) => {
                &&& trees.group matches Some((true, inner)) ==> braced_of(text) == Ok::<
                    _,
                    Error<Chars>,
                >((inner, trees.len > 1))
                &&& !(trees.group matches Some((true, _))) && trees.len == 0 ==> braced_of(text)
                    == Err::<(Chars, bool), _>(
                    Error::Syntax("unexpected end of input, expected curly braces"@),
                )
                &&& !(trees.group matches Some((true, _))) && trees.len > 0 ==> braced_of(text)
                    == Err::<(Chars, bool), _>(Error::Syntax("expected curly braces"@))
            },
        },
{
}

/// Whether `text` defines the given layout: braces with nothing behind them, in which a struct
/// stands and braces with nothing behind them, in which the fields stand.
pub open spec fn defines(
    text: Chars,
    layout: LayoutView,
    outer: Chars,
    rest: Chars,
    inner: Chars,
    fields: Seq<Field>,
) -> bool {
    &&& braced_of(text) == Ok::<_, Error<Chars>>((outer, false))
    &&& head_typedef_of(outer) == Ok::<_, Error<Chars>>((layout.ty, rest, None::<Chars>))
    &&& braced_of(rest) == Ok::<_, Error<Chars>>((inner, false))
    &&& fields_of(inner) == Ok::<_, Error<Chars>>((fields, None::<Chars>))
    &&& layout_of_fields(layout.ty, fields) == Ok::<_, Error<Chars>>(layout)
}

/// A text is a layout if and only if it defines one.
pub proof fn texts_define_layouts(text: Chars, layout: LayoutView)
    ensures
        layout_of(text) == Ok::<_, Error<Chars>>(layout) <==> exists|
            outer: Chars,
            rest: Chars,
            inner: Chars,
            fields: Seq<Field>,
        |
            defines(text, layout, outer, rest, inner, fields),
{
    if layout_of(text) == Ok::<_, Error<Chars>>(layout) {
        let outer = braced_of(text)->Ok_0.0;
        let (ty, rest, _) = head_typedef_of(outer)->Ok_0;
        let inner = braced_of(rest)->Ok_0.0;
        let fields = fields_of(inner)->Ok_0.0;
        assert(layout.ty == ty);
        assert(defines(text, layout, outer, rest, inner, fields));
    }
}

/// What is reported of a text whose parts would make a layout, but for tokens that are left over:
/// those in a group of the struct, else of a field, else those behind the fields, else those behind
/// all.
pub proof fn leftovers_are_refused(
    text: Chars,
    outer: Chars,
    outside: bool,
    ty: TypeDef<Chars, Texts>,
    rest: Chars,
    late: Option<Chars>,
    inner: Chars,
    inside: bool,
    fields: Seq<Field>,
    next: Option<Chars>,
)
    requires
        braced_of(text) == Ok::<_, Error<Chars>>((outer, outside)),
        head_typedef_of(outer) == Ok::<_, Error<Chars>>((ty, rest, late)),
        braced_of(rest) == Ok::<_, Error<Chars>>((inner, inside)),
        fields_of(inner) == Ok::<_, Error<Chars>>((fields, next)),
    ensures
        layout_of_fields(ty, fields) matches Err(e) ==> layout_of(text) == Err::<LayoutView, _>(e),
        layout_of_fields(ty, fields) is Ok ==> {
            &&& late is Some ==> layout_of(text) == Err::<LayoutView, _>(Error::Syntax(late->0))
            &&& late is None && next is Some ==> layout_of(text) == Err::<LayoutView, _>(
                Error::Syntax(next->0),
            )
            &&& late is None && next is None && inside ==> layout_of(text) == Err::<LayoutView, _>(
                Error::Syntax("unexpected token, expected `}`"@),
            )
            &&& late is None && next is None && !inside && outside ==> layout_of(text) == Err::<
                LayoutView,
                _,
            >(Error::Syntax("unexpected token"@))
            &&& late is None && next is None && !inside && !outside ==> layout_of(text)
                == layout_of_fields(ty, fields)
        },
{
}

/// The first part of a text that cannot be read decides.
pub proof fn the_first_error_is_reported(text: Chars)
    ensures
        braced_of(text) matches Err(e) ==> layout_of(text) == Err::<LayoutView, _>(e),
        braced_of(text) matches Ok((outer, _)) ==> {
            &&& head_typedef_of(outer) matches Err(e) ==> layout_of(text) == Err::<LayoutView, _>(e)
            &&& head_typedef_of(outer) matches Ok((ty, rest, _)) ==> {
                &&& braced_of(rest) matches Err(e) ==> layout_of(text) == Err::<LayoutView, _>(e)
                &&& braced_of(rest) matches Ok((inner, _)) ==> (fields_of(inner) matches Err(e)
                    ==> layout_of(text) == Err::<LayoutView, _>(e))
            }
        },
{
}

/// A raw identifier is `r#` and a name, of which the name is left; any other is left as it is.
pub proof fn raw_names_lose_their_mark(name: Chars)
    ensures
        is_raw("r#"@ + name) && bare_of("r#"@ + name) == name,
        is_raw(name) ==> name == "r#"@ + bare_of(name),
        !is_raw(name) ==> bare_of(name) == name,
{
    reveal_strlit("r#");
    assert(("r#"@ + name).skip(2) =~= name);
    if is_raw(name) {
        assert(name =~= "r#"@ + name.skip(2));
    }
}

/// The first raw name is found, and none where there is none.
pub proof fn the_first_raw_name_is_found(fields: Seq<Field>)
    ensures
        match first_raw(fields) {
            Some(name) => exists|n: int|
                #![trigger fields[n]]
                0 <= n < fields.len() && fields[n].name == Some(name) && is_raw(name) && forall|
                    i: int,
                |
                    0 <= i < n ==> !raw_named(#[trigger] fields[i]),
            None => forall|i: int| 0 <= i < fields.len() ==> !raw_named(#[trigger] fields[i]),
        },
    decreases fields.len(),
{
    if fields.len() > 0 {
        let init = fields.drop_last();
        the_first_raw_name_is_found(init);
        match first_raw(init) {
            Some(name) => {
                let n = choose|n: int|
                    #![trigger init[n]]
                    0 <= n < init.len() && init[n].name == Some(name) && is_raw(name) && forall|
                        i: int,
                    |
                        0 <= i < n ==> !raw_named(#[trigger] init[i]);
                assert(fields[n] == init[n]);
                assert forall|i: int| 0 <= i < n implies !raw_named(#[trigger] fields[i]) by {
                    assert(init[i] == fields[i]);
                }
            },
            None => {
                assert forall|i: int| 0 <= i < fields.len() - 1 implies !raw_named(
                    #[trigger] fields[i],
                ) by {
                    assert(init[i] == fields[i]);
                }
                assert(fields[fields.len() - 1] == fields.last());
            },
        }
    }
}

/// Whether the name of a field is a raw identifier.
pub open spec fn raw_named(f: Field) -> bool {
    match f.name {
        Some(name) => is_raw(name),
        None => false,
    }
}

/// A text has the source of the layout that it defines, unless a name is raw: then the first such
/// name is reported, in upper case. A text that defines none is reported as it is parsed.
pub proof fn layouts_are_expanded(text: Chars)
    ensures
        layout_of(text) matches Err(e) ==> expanded_of(text) == Err::<Chars, _>(e),
        layout_of(text) matches Ok(layout) ==> {
            &&& expanded_of(text) is Ok <==> forall|i: int|
                0 <= i < layout.named.len() ==> !raw_named(#[trigger] layout.named[i])
            &&& expanded_of(text) matches Ok(source) ==> source == expansion_of(layout)
            &&& expanded_of(text) matches Err(e) ==> exists|n: int|
                #![trigger layout.named[n]]
                0 <= n < layout.named.len() && raw_named(layout.named[n]) && (forall|i: int|
                    0 <= i < n ==> !raw_named(#[trigger] layout.named[i])) && e == Error::RawName(
                    uppercase_of(layout.named[n].name->0),
                )
        },
{
    if let Ok(layout) = layout_of(text) {
        the_first_raw_name_is_found(layout.named);
    }
}

} // verus!
