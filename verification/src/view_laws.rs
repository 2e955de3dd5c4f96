//! That contracts speak of what is there: the view of a value has every part of it, as it is.

use crate::base::BaseTypeDef;
use crate::bitfield::Bitfield;
use crate::declaration::{
    ArgumentDecl, ArgumentForm, AttributeDecl, BitsDecl, BitsForm, Declaration, NameForm, TypeDecl,
};
use crate::error::{Error, outcome};
use crate::layout::{Bitfields, Layout};
use crate::register::{FieldMetadata, Register, RegisterField};
use crate::syntax::{
    Argument, Chars, Init, Local, NestedMetas, Pattern, Statement, StructItem, StructShape, Texts,
    Trees, TypeForm, parsed,
};
use crate::typedef::{StructAttr, StructDecl, TypeDef};
use vstd::prelude::*;

verus! {

/// Whether texts are the views of strings, in the same order.
pub open spec fn lists(texts: Texts, strings: Seq<String>) -> bool {
    &&& texts.len() == strings.len()
    &&& forall|i: int| 0 <= i < strings.len() ==> #[trigger] texts[i] == strings[i]@
}

/// Whether a text is the view of a string, or both are missing.
pub open spec fn agrees(text: Option<Chars>, string: Option<String>) -> bool {
    match (text, string) {
        (Some(text), Some(string)) => text == string@,
        (None, None) => true,
        _ => false,
    }
}

/// The view of a bitfield.
pub proof fn view_of_a_bitfield(f: Bitfield<String, Vec<String>>)
    ensures
        f.deep_view().text == f.text@,
        agrees(f.deep_view().name, f.name),
        f.deep_view().high_bit == f.high_bit,
        f.deep_view().low_bit == f.low_bit,
        agrees(f.deep_view().repr, f.repr),
        lists(f.deep_view().doc_attrs, f.doc_attrs@),
        f.deep_view().unshifted == f.unshifted,
        agrees(f.deep_view().default, f.default),
{
}

/// The view of a type definition.
pub proof fn view_of_a_type_definition(ty: TypeDef<String, Vec<String>>)
    ensures
        lists(ty.deep_view().attrs, ty.attrs@),
        ty.deep_view().repr == ty.repr,
        ty.deep_view().body == ty.body@,
        ty.deep_view().vis == ty.vis@,
        ty.deep_view().ident == ty.ident@,
        ty.deep_view().base == ty.base.deep_view(),
{
}

/// The view of a base type.
pub proof fn view_of_a_base_type(base: BaseTypeDef<String>)
    ensures
        base.deep_view().def == base.def@,
        base.deep_view().ty == base.ty,
{
}

/// The view of a layout, and of a list of bitfields.
pub proof fn view_of_a_layout(layout: Layout, fields: Bitfields)
    ensures
        layout.deep_view().ty == layout.ty.deep_view(),
        layout.deep_view().named.len() == layout.named.len(),
        forall|i: int|
            0 <= i < layout.named.len() ==> #[trigger] layout.deep_view().named[i]
                == layout.named[i].deep_view(),
        layout.deep_view().reserved.len() == layout.reserved.len(),
        forall|i: int|
            0 <= i < layout.reserved.len() ==> #[trigger] layout.deep_view().reserved[i]
                == layout.reserved[i].deep_view(),
        fields.deep_view().len() == fields.0.len(),
        forall|i: int|
            0 <= i < fields.0.len() ==> #[trigger] fields.deep_view()[i] == fields.0[i].deep_view(),
{
}

/// The view of a register, of one of its fields, and of the metadata of one.
pub proof fn view_of_a_register(
    r: Register,
    f: RegisterField<String>,
    metadata: FieldMetadata<String>,
)
    ensures
        r.deep_view().name == r.name@,
        r.deep_view().base == r.base,
        r.deep_view().fields.len() == r.fields.len(),
        forall|i: int|
            0 <= i < r.fields.len() ==> #[trigger] r.deep_view().fields[i]
                == r.fields[i].deep_view(),
        r.deep_view().reserved == r.reserved@,
        f.deep_view().metadata == f.metadata.deep_view(),
        f.deep_view().has_default == f.has_default,
        f.deep_view().unshifted == f.unshifted,
        f.deep_view().has_repr == f.has_repr,
        metadata.deep_view().name == metadata.name@,
        metadata.deep_view().high_bit == metadata.high_bit,
        metadata.deep_view().low_bit == metadata.low_bit,
        metadata.deep_view().default == metadata.default,
{
}

/// The view of an error.
pub proof fn view_of_an_error(e: Error<String>)
    ensures
        match (e, e.deep_view()) {
            (Error::Syntax(a), Error::Syntax(b)) => b == a@,
            (Error::Layout { message, at }, Error::Layout { message: m, at: a }) => m == message@
                && a == at@,
            (Error::RawName(a), Error::RawName(b)) => b == a@,
            _ => false,
        },
{
}

/// The view of a result: it succeeds if and only if the result does, with the view of its value,
/// else with that of its error.
pub proof fn view_of_a_result<T: DeepView>(r: Result<T, Error<String>>, p: Result<T, String>)
    ensures
        match r {
            Ok(t) => outcome(r) == Ok::<_, Error<Chars>>(t.deep_view()),
            Err(e) => outcome(r) == Err::<T::V, _>(e.deep_view()),
        },
        match p {
            Ok(t) => parsed(p) == Ok::<_, Chars>(t.deep_view()),
            Err(e) => parsed(p) == Err::<T::V, _>(e@),
        },
{
}

/// The view of a declaration.
pub proof fn view_of_a_declaration(d: Declaration)
    ensures
        d.deep_view().text == d.text@,
        d.deep_view().attrs.len() == d.attrs.len(),
        forall|i: int|
            0 <= i < d.attrs.len() ==> #[trigger] d.deep_view().attrs[i] == d.attrs[i].deep_view(),
        d.deep_view().pat == d.pat@,
        d.deep_view().name == d.name.deep_view(),
        d.bits is None ==> d.deep_view().bits is None,
        d.bits matches Some(bits) ==> d.deep_view().bits == Some(bits.deep_view()),
        d.ty is None ==> d.deep_view().ty is None,
        d.ty matches Some(ty) ==> d.deep_view().ty == Some(ty.deep_view()),
        d.init is None ==> d.deep_view().init is None,
        d.init matches Some(init) ==> d.deep_view().init == Some(init.deep_view()),
{
}

/// The views of the parts of a declaration.
pub proof fn views_of_the_parts_of_a_declaration(
    attr: AttributeDecl<String>,
    bits: BitsDecl<String>,
    arg: ArgumentDecl<String>,
    ty: TypeDecl,
    name: NameForm<String>,
    init: Init<String>,
)
    ensures
        agrees(attr.deep_view().path, attr.path),
        attr.deep_view().text == attr.text@,
        bits.deep_view().text == bits.text@,
        match (bits.form, bits.deep_view().form) {
            (BitsForm::Range { high, low }, BitsForm::Range { high: h, low: l }) => agrees(h, high)
                && agrees(l, low),
            (BitsForm::Bit(a), BitsForm::Bit(b)) => agrees(b, a),
            (BitsForm::Other, BitsForm::Other) => true,
            _ => false,
        },
        arg.deep_view().text == arg.text@,
        match (arg.form, arg.deep_view().form) {
            (ArgumentForm::Integer(a), ArgumentForm::Integer(b)) => b == a@,
            (ArgumentForm::Type(a), ArgumentForm::Type(b)) => b == a@,
            (ArgumentForm::Other, ArgumentForm::Other) => true,
            _ => false,
        },
        ty.deep_view().text == ty.text@,
        agrees(ty.deep_view().head, ty.head),
        ty.args is None ==> ty.deep_view().args is None,
        ty.args matches Some(args) ==> {
            &&& ty.deep_view().args is Some
            &&& ty.deep_view().args->0.len() == args.len()
            &&& forall|i: int|
                0 <= i < args.len() ==> #[trigger] ty.deep_view().args->0[i] == args[i].deep_view()
        },
        match (name, name.deep_view()) {
            (
                NameForm::Ident { by_ref, mutable, ident },
                NameForm::Ident { by_ref: r, mutable: m, ident: i },
            ) => r == by_ref && m == mutable && i == ident@,
            (NameForm::Wild, NameForm::Wild) => true,
            (NameForm::Other, NameForm::Other) => true,
            _ => false,
        },
        init.deep_view().expr == init.expr@,
        init.deep_view().diverges == init.diverges,
{
}

/// The view of a struct, and of one of its attributes.
pub proof fn view_of_a_struct(d: StructDecl, attr: StructAttr)
    ensures
        d.deep_view().attrs.len() == d.attrs.len(),
        forall|i: int|
            0 <= i < d.attrs.len() ==> #[trigger] d.deep_view().attrs[i] == d.attrs[i].deep_view(),
        d.deep_view().body == d.body@,
        agrees(d.deep_view().where_clause, d.where_clause),
        d.deep_view().shape == d.shape.deep_view(),
        d.base is None ==> d.deep_view().base is None,
        d.base matches Some(base) ==> d.deep_view().base == Some(base.deep_view()),
        agrees(attr.deep_view().path, attr.path),
        attr.deep_view().text == attr.text@,
        attr.metas is None ==> attr.deep_view().metas is None,
        attr.metas matches Some(metas) ==> attr.deep_view().metas == Some(metas.deep_view()),
{
}

/// The views of what a parser gives of a struct.
pub proof fn views_of_a_parsed_struct(
    item: StructItem<String, Vec<String>>,
    shape: StructShape<String, Vec<String>>,
    metas: NestedMetas<String, Vec<String>>,
    form: TypeForm<String, Vec<String>>,
)
    ensures
        lists(item.deep_view().attrs, item.attrs@),
        item.deep_view().body == item.body@,
        agrees(item.deep_view().where_clause, item.where_clause),
        item.deep_view().rest == item.rest@,
        agrees(item.deep_view().late, item.late),
        shape.deep_view().vis == shape.vis@,
        shape.deep_view().ident == shape.ident@,
        shape.deep_view().fields == shape.fields@,
        shape.types is None ==> shape.deep_view().types is None,
        shape.types matches Some(types) ==> shape.deep_view().types is Some && lists(
            shape.deep_view().types->0,
            types@,
        ),
        shape.deep_view().generics == shape.generics@,
        lists(metas.deep_view().paths, metas.paths@),
        agrees(metas.deep_view().error, metas.error),
        match (form, form.deep_view()) {
            (
                TypeForm::Path { qualified, leading, segments, text, head, args },
                TypeForm::Path {
                    qualified: q,
                    leading: l,
                    segments: s,
                    text: t,
                    head: h,
                    args: a,
                },
            ) => q == qualified && l == leading && s == segments && t == text@ && h == head@
                && match (args, a) {
                (Some(args), Some(a)) => lists(a, args@),
                (None, None) => true,
                _ => false,
            },
            (TypeForm::Other, TypeForm::Other) => true,
            _ => false,
        },
{
}

/// The views of what a parser gives of a statement.
pub proof fn views_of_a_parsed_statement(
    trees: Trees<String>,
    stmt: Statement<String>,
    local: Local<String, Vec<String>>,
    pattern: Pattern<String>,
    arg: Argument<String>,
)
    ensures
        trees.deep_view().len == trees.len,
        trees.group is None ==> trees.deep_view().group is None,
        trees.group matches Some((braces, text)) ==> trees.deep_view().group == Some(
            (braces, text@),
        ),
        stmt.deep_view().text == stmt.text@,
        stmt.init is None ==> stmt.deep_view().init is None,
        stmt.init matches Some(init) ==> stmt.deep_view().init == Some(init.deep_view()),
        stmt.deep_view().rest == stmt.rest@,
        agrees(stmt.deep_view().late, stmt.late),
        lists(local.deep_view().attrs, local.attrs@),
        local.deep_view().pat == local.pat@,
        agrees(local.deep_view().ty, local.ty),
        match (pattern, pattern.deep_view()) {
            (
                Pattern::Name { by_ref, mutable, ident, sub },
                Pattern::Name { by_ref: r, mutable: m, ident: i, sub: s },
            ) => r == by_ref && m == mutable && i == ident@ && agrees(s, sub),
            (Pattern::Wild, Pattern::Wild) => true,
            (Pattern::Literal(a), Pattern::Literal(b)) => b == a@,
            (
                Pattern::Range { start, limits, end },
                Pattern::Range { start: s, limits: l, end: e },
            ) => s == start@ && l == limits@ && e == end@,
            (Pattern::Other, Pattern::Other) => true,
            _ => false,
        },
        match (arg, arg.deep_view()) {
            (Argument::Const(a), Argument::Const(b)) => b == a@,
            (Argument::Type(a), Argument::Type(b)) => b == a@,
            (Argument::Other, Argument::Other) => true,
            _ => false,
        },
{
}

} // verus!
