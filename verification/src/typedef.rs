//! The struct that a layout defines.

use crate::base::{BaseTypeDef, base_of_form};
use crate::error::{Error, outcome};
use crate::syntax::{
    Chars, NestedMetas, StructItem, StructShape, Texts, TypeForm, attribute_of, metas_of, parsed,
    read_attribute, read_metas, read_shape, read_struct, read_type, shape_of, struct_of, type_of,
};
use crate::text::{join, same};
use vstd::prelude::*;

verus! {

/// The head of the message about a derive that every layout has.
pub const ALREADY_DERIVES: &'static str = "layout! already derives ";

/// The message about a struct without a field.
pub const NO_BASE_TYPE: &'static str = "no base type provided";

/// The message about a struct with several fields.
pub const TOO_MANY_FIELDS: &'static str = "too many tuple fields; only the base type should be provided";

/// The message about a struct that is no tuple struct.
pub const NO_TUPLE_STRUCT: &'static str = "bitfld type must be defined as a tuple struct";

/// The message about a generic struct.
pub const NO_GENERICS: &'static str = "generic parameters are not supported";

/// An attribute of a struct.
pub struct StructAttr {
    /// The path, if it is a single identifier.
    pub path: Option<String>,
    /// The attribute itself.
    pub text: String,
    /// What it lists, if it is a `derive`.
    pub metas: Option<NestedMetas<String, Vec<String>>>,
}

/// An attribute of a struct, in contracts.
pub struct StructAttrView {
    pub path: Option<Chars>,
    pub text: Chars,
    pub metas: Option<NestedMetas<Chars, Texts>>,
}

impl DeepView for StructAttr {
    type V = StructAttrView;

    open spec fn deep_view(&self) -> StructAttrView {
        StructAttrView {
            path: self.path.deep_view(),
            text: self.text@,
            metas: self.metas.deep_view(),
        }
    }
}

/// A struct that may define a layout.
pub struct StructDecl {
    pub attrs: Vec<StructAttr>,
    /// The struct without its attributes.
    pub body: String,
    /// The `where` clause, if there is one.
    pub where_clause: Option<String>,
    pub shape: StructShape<String, Vec<String>>,
    /// The form of the only field's type, if there is one field.
    pub base: Option<TypeForm<String, Vec<String>>>,
}

/// A struct that may define a layout, in contracts.
pub struct StructDeclView {
    pub attrs: Seq<StructAttrView>,
    pub body: Chars,
    pub where_clause: Option<Chars>,
    pub shape: StructShape<Chars, Texts>,
    pub base: Option<TypeForm<Chars, Texts>>,
}

impl DeepView for StructDecl {
    type V = StructDeclView;

    open spec fn deep_view(&self) -> StructDeclView {
        StructDeclView {
            attrs: self.attrs.deep_view(),
            body: self.body@,
            where_clause: self.where_clause.deep_view(),
            shape: self.shape.deep_view(),
            base: self.base.deep_view(),
        }
    }
}

/// The attribute of a struct that `text` is.
pub open spec fn struct_attr_of(text: Chars) -> Result<StructAttrView, Chars> {
    match attribute_of(text) {
        Err(message) => Err(message),
        Ok(path) => if path == Some("derive"@) {
            match metas_of(text) {
                Err(message) => Err(message),
                Ok(metas) => Ok(StructAttrView { path, text, metas: Some(metas) }),
            }
        } else {
            Ok(StructAttrView { path, text, metas: None })
        },
    }
}

/// The attributes of a struct that `texts` are.
pub open spec fn struct_attrs_of(texts: Texts) -> Result<Seq<StructAttrView>, Chars>
    decreases texts.len(),
{
    if texts.len() == 0 {
        Ok(Seq::empty())
    } else {
        match (struct_attrs_of(texts.drop_last()), struct_attr_of(texts.last())) {
            (Ok(attrs), Ok(attr)) => Ok(attrs.push(attr)),
            (Ok(_), Err(e)) => Err(e),
            (Err(e), _) => Err(e),
        }
    }
}

/// The form of the only field's type.
pub open spec fn base_form_of(shape: StructShape<Chars, Texts>) -> Result<
    Option<TypeForm<Chars, Texts>>,
    Chars,
> {
    match shape.types {
        Some(types) if types.len() == 1 => match type_of(types[0]) {
            Ok(form) => Ok(Some(form)),
            Err(message) => Err(message),
        },
        _ => Ok(None),
    }
}

/// The parts of a struct item.
pub open spec fn struct_decl_of(item: StructItem<Chars, Texts>) -> Result<StructDeclView, Chars> {
    match (struct_attrs_of(item.attrs), shape_of(item.body)) {
        (Err(e), _) => Err(e),
        (Ok(_), Err(e)) => Err(e),
        (Ok(attrs), Ok(shape)) => match base_form_of(shape) {
            Err(e) => Err(e),
            Ok(base) => Ok(
                StructDeclView {
                    attrs,
                    body: item.body,
                    where_clause: item.where_clause,
                    shape,
                    base,
                },
            ),
        },
    }
}

/// The first malformed attribute decides.
proof fn lemma_struct_attrs_prefix(texts: Texts, i: int)
    requires
        0 <= i <= texts.len(),
        struct_attrs_of(texts.take(i)) is Err,
    ensures
        struct_attrs_of(texts) == struct_attrs_of(texts.take(i)),
    decreases texts.len(),
{
    if i == texts.len() {
        assert(texts.take(i) =~= texts);
    } else {
        assert(texts.drop_last().take(i) =~= texts.take(i));
        lemma_struct_attrs_prefix(texts.drop_last(), i);
    }
}

/// Reads an attribute of a struct.
pub fn read_struct_attr(text: &str) -> (r: Result<StructAttr, String>)
    ensures
        parsed(r) == struct_attr_of(text@),
{
    let path = match read_attribute(text) {
        Ok(path) => path,
        Err(message) => {
            return Err(message);
        },
    };
    let derive = match &path {
        Some(path) => same(path.as_str(), "derive"),
        None => false,
    };
    let metas = if derive {
        match read_metas(text) {
            Ok(metas) => Some(metas),
            Err(message) => {
                return Err(message);
            },
        }
    } else {
        None
    };
    Ok(StructAttr { path, text: text.to_owned(), metas })
}

/// Reads the attributes of a struct.
pub fn read_struct_attrs(texts: &Vec<String>) -> (r: Result<Vec<StructAttr>, String>)
    ensures
        parsed(r) == struct_attrs_of(texts.deep_view()),
{
    let ghost all = texts.deep_view();
    let mut attrs: Vec<StructAttr> = Vec::new();
    let mut i: usize = 0;
    proof {
        assert(attrs.deep_view() =~= Seq::empty());
    }
    while i < texts.len()
        invariant
            all == texts.deep_view(),
            i <= texts.len(),
            struct_attrs_of(all.take(i as int)) == Ok::<_, Chars>(attrs.deep_view()),
        decreases texts.len() - i,
    {
        let ghost before = attrs.deep_view();
        proof {
            assert(all.take(i + 1).drop_last() =~= all.take(i as int));
            assert(all.take(i + 1).last() == texts[i as int]@);
        }
        match read_struct_attr(texts[i].as_str()) {
            Ok(attr) => {
                attrs.push(attr);
                proof {
                    assert(attrs.deep_view() =~= before.push(attr.deep_view()));
                }
            },
            Err(message) => {
                proof {
                    lemma_struct_attrs_prefix(all, i + 1);
                }
                return Err(message);
            },
        }
        i = i + 1;
    }
    proof {
        assert(all.take(i as int) =~= all);
    }
    Ok(attrs)
}

/// Reads the parts of a struct item.
pub fn read_struct_decl(item: &StructItem<String, Vec<String>>) -> (r: Result<StructDecl, String>)
    ensures
        parsed(r) == struct_decl_of(item.deep_view()),
{
    let attrs = match read_struct_attrs(&item.attrs) {
        Ok(attrs) => attrs,
        Err(message) => {
            return Err(message);
        },
    };
    let shape = match read_shape(item.body.as_str()) {
        Ok(shape) => shape,
        Err(message) => {
            return Err(message);
        },
    };
    let mut base = None;
    if let Some(types) = &shape.types {
        if types.len() == 1 {
            match read_type(types[0].as_str()) {
                Ok(form) => {
                    base = Some(form);
                },
                Err(message) => {
                    return Err(message);
                },
            }
        }
    }
    let where_clause = match &item.where_clause {
        Some(where_clause) => Some(where_clause.clone()),
        None => None,
    };
    Ok(StructDecl { attrs, body: item.body.clone(), where_clause, shape, base })
}

/// The struct that a layout defines. Contracts speak of `TypeDef<Seq<char>, Seq<Seq<char>>>`.
pub struct TypeDef<T, L> {
    /// The attributes, as written.
    pub attrs: L,
    /// Whether one of them is a `repr`.
    pub repr: bool,
    /// The struct without its attributes.
    pub body: T,
    pub vis: T,
    pub ident: T,
    pub base: BaseTypeDef<T>,
}

impl DeepView for TypeDef<String, Vec<String>> {
    type V = TypeDef<Chars, Texts>;

    open spec fn deep_view(&self) -> TypeDef<Chars, Texts> {
        TypeDef {
            attrs: self.attrs.deep_view(),
            repr: self.repr,
            body: self.body@,
            vis: self.vis@,
            ident: self.ident@,
            base: self.base.deep_view(),
        }
    }
}

/// Whether every layout has a trait of the given name.
pub open spec fn is_derived(path: Chars) -> bool {
    ||| path == "Copy"@
    ||| path == "Clone"@
    ||| path == "Debug"@
    ||| path == "Default"@
    ||| path == "Eq"@
    ||| path == "PartialEq"@
}

/// The error in a list of derives: the first that every layout has, else the parser's.
pub open spec fn derive_error(metas: NestedMetas<Chars, Texts>) -> Option<Error<Chars>> {
    match first_derived(metas.paths) {
        Some(path) => Some(Error::Layout { message: ALREADY_DERIVES@ + path, at: path }),
        None => match metas.error {
            Some(message) => Some(Error::Syntax(message)),
            None => None,
        },
    }
}

/// The first of `paths` that every layout has.
pub open spec fn first_derived(paths: Texts) -> Option<Chars>
    decreases paths.len(),
{
    if paths.len() == 0 {
        None
    } else if first_derived(paths.drop_last()) is Some {
        first_derived(paths.drop_last())
    } else if is_derived(paths.last()) {
        Some(paths.last())
    } else {
        None
    }
}

/// Whether an attribute's path is `repr`.
pub open spec fn is_repr(attr: StructAttrView) -> bool {
    attr.path == Some("repr"@)
}

/// The first error in the attributes of a struct.
pub open spec fn attrs_error(attrs: Seq<StructAttrView>) -> Option<Error<Chars>>
    decreases attrs.len(),
{
    if attrs.len() == 0 {
        None
    } else if attrs_error(attrs.drop_last()) is Some {
        attrs_error(attrs.drop_last())
    } else {
        match attrs.last().metas {
            Some(metas) => derive_error(metas),
            None => None,
        }
    }
}

/// The base type of a struct.
pub open spec fn struct_base_of(d: StructDeclView) -> Result<BaseTypeDef<Chars>, Error<Chars>> {
    match (d.shape.types, d.base) {
        (None, _) => Err(Error::Layout { message: NO_TUPLE_STRUCT@, at: d.shape.fields }),
        (Some(types), _) if types.len() == 0 => Err(
            Error::Layout { message: NO_BASE_TYPE@, at: d.shape.fields },
        ),
        (Some(types), Some(form)) if types.len() == 1 => base_of_form(types[0], form),
        (Some(_), _) => Err(Error::Layout { message: TOO_MANY_FIELDS@, at: d.shape.fields }),
    }
}

/// The type that a struct defines.
pub open spec fn typedef_of(d: StructDeclView) -> Result<TypeDef<Chars, Texts>, Error<Chars>> {
    match (attrs_error(d.attrs), struct_base_of(d)) {
        (Some(e), _) => Err(e),
        (None, Err(e)) => Err(e),
        (None, Ok(base)) => if d.shape.generics.len() > 0 {
            Err(Error::Layout { message: NO_GENERICS@, at: d.shape.generics })
        } else if d.where_clause is Some {
            Err(Error::Layout { message: NO_GENERICS@, at: d.where_clause->0 })
        } else {
            Ok(
                TypeDef {
                    attrs: d.attrs.map_values(|a: StructAttrView| a.text),
                    repr: exists|i: int| 0 <= i < d.attrs.len() && is_repr(#[trigger] d.attrs[i]),
                    body: d.body,
                    vis: d.shape.vis,
                    ident: d.shape.ident,
                    base,
                },
            )
        },
    }
}

/// The type at the head of `text`, what follows it, and the message about tokens that are left
/// over in a group inside it.
pub open spec fn head_typedef_of(text: Chars) -> Result<
    (TypeDef<Chars, Texts>, Chars, Option<Chars>),
    Error<Chars>,
> {
    match struct_of(text) {
        Err(message) => Err(Error::Syntax(message)),
        Ok(item) => match struct_decl_of(item) {
            Err(message) => Err(Error::Syntax(message)),
            Ok(d) => match typedef_of(d) {
                Err(e) => Err(e),
                Ok(ty) => Ok((ty, item.rest, item.late)),
            },
        },
    }
}

/// The first redundant derive of a list is that of any longer list.
proof fn lemma_first_derived_prefix(paths: Texts, i: int)
    requires
        0 <= i <= paths.len(),
        first_derived(paths.take(i)) is Some,
    ensures
        first_derived(paths) == first_derived(paths.take(i)),
    decreases paths.len(),
{
    if i == paths.len() {
        assert(paths.take(i) =~= paths);
    } else {
        assert(paths.drop_last().take(i) =~= paths.take(i));
        lemma_first_derived_prefix(paths.drop_last(), i);
    }
}

/// The first error of a list of attributes is that of any longer list.
proof fn lemma_attrs_error_prefix(attrs: Seq<StructAttrView>, i: int)
    requires
        0 <= i <= attrs.len(),
        attrs_error(attrs.take(i)) is Some,
    ensures
        attrs_error(attrs) == attrs_error(attrs.take(i)),
    decreases attrs.len(),
{
    if i == attrs.len() {
        assert(attrs.take(i) =~= attrs);
    } else {
        assert(attrs.drop_last().take(i) =~= attrs.take(i));
        lemma_attrs_error_prefix(attrs.drop_last(), i);
    }
}

/// Checks a list of derives.
pub fn check_derive(metas: &NestedMetas<String, Vec<String>>) -> (r: Option<Error<String>>)
    ensures
        r.deep_view() == derive_error(metas.deep_view()),
{
    let ghost all = metas.paths.deep_view();
    let mut i: usize = 0;
    while i < metas.paths.len()
        invariant
            all == metas.paths.deep_view(),
            i <= metas.paths.len(),
            first_derived(all.take(i as int)) is None,
        decreases metas.paths.len() - i,
    {
        let path = metas.paths[i].as_str();
        proof {
            assert(all.take(i + 1).drop_last() =~= all.take(i as int));
            assert(all.take(i + 1).last() == path@);
        }
        if same(path, "Copy") || same(path, "Clone") || same(path, "Debug") || same(path, "Default")
            || same(path, "Eq") || same(path, "PartialEq") {
            proof {
                lemma_first_derived_prefix(all, i + 1);
            }
            return Some(Error::at(join(ALREADY_DERIVES, path).as_str(), path));
        }
        i = i + 1;
    }
    proof {
        assert(all.take(i as int) =~= all);
    }
    match &metas.error {
        Some(message) => Some(Error::Syntax(message.clone())),
        None => None,
    }
}

impl TypeDef<String, Vec<String>> {
    /// Takes a struct as the type of a layout: a tuple struct over a base type, without
    /// generics, and without a derive that every layout has.
    pub fn from_struct(d: &StructDecl) -> (r: Result<Self, Error<String>>)
        ensures
            outcome(r) == typedef_of(d.deep_view()),
    {
        let ghost all = d.attrs.deep_view();
        let mut repr = false;
        let mut attrs: Vec<String> = Vec::new();
        let mut i: usize = 0;
        while i < d.attrs.len()
            invariant
                all == d.attrs.deep_view(),
                i <= d.attrs.len(),
                attrs_error(all.take(i as int)) is None,
                repr == (exists|j: int| 0 <= j < i && is_repr(#[trigger] all[j])),
                attrs.deep_view() =~= all.take(i as int).map_values(|a: StructAttrView| a.text),
            decreases d.attrs.len() - i,
        {
            let attr = &d.attrs[i];
            let ghost before = attrs.deep_view();
            proof {
                assert(all.take(i + 1).drop_last() =~= all.take(i as int));
                assert(all[i as int] == attr.deep_view());
            }
            if let Some(metas) = &attr.metas {
                if let Some(e) = check_derive(metas) {
                    proof {
                        lemma_attrs_error_prefix(all, i + 1);
                    }
                    return Err(e);
                }
            }
            let is_repr_attr = match &attr.path {
                Some(path) => same(path.as_str(), "repr"),
                None => false,
            };
            if is_repr_attr {
                repr = true;
            }
            attrs.push(attr.text.clone());
            proof {
                assert(attrs.deep_view() =~= before.push(attr.text@));
            }
            i = i + 1;
        }
        proof {
            assert(all.take(i as int) =~= all);
        }
        let base = match (&d.shape.types, &d.base) {
            (None, _) => {
                return Err(Error::at(NO_TUPLE_STRUCT, d.shape.fields.as_str()));
            },
            (Some(types), form) => {
                if types.len() == 0 {
                    return Err(Error::at(NO_BASE_TYPE, d.shape.fields.as_str()));
                }
                match form {
                    Some(form) if types.len() == 1 => match BaseTypeDef::from_form(
                        types[0].as_str(),
                        form,
                    ) {
                        Ok(base) => base,
                        Err(e) => {
                            return Err(e);
                        },
                    },
                    _ => {
                        return Err(Error::at(TOO_MANY_FIELDS, d.shape.fields.as_str()));
                    },
                }
            },
        };
        if !d.shape.generics.as_str().is_empty() {
            return Err(Error::at(NO_GENERICS, d.shape.generics.as_str()));
        }
        if let Some(where_clause) = &d.where_clause {
            return Err(Error::at(NO_GENERICS, where_clause.as_str()));
        }
        Ok(
            TypeDef {
                attrs,
                repr,
                body: d.body.clone(),
                vis: d.shape.vis.clone(),
                ident: d.shape.ident.clone(),
                base,
            },
        )
    }

    /// Parses the struct at the head of a text, and returns its type with what follows it.
    /// Tokens that are left over in a group inside the struct do not keep it from being read:
    /// it comes with the message about them.
    pub fn parse(text: &str) -> (r: Result<(Self, String, Option<String>), Error<String>>)
        ensures
            outcome(r) == head_typedef_of(text@),
    {
        let item = match read_struct(text) {
            Ok(item) => item,
            Err(message) => {
                return Err(Error::Syntax(message));
            },
        };
        match read_struct_decl(&item) {
            Ok(d) => match Self::from_struct(&d) {
                Ok(ty) => Ok((ty, item.rest, item.late)),
                Err(e) => Err(e),
            },
            Err(message) => Err(Error::Syntax(message)),
        }
    }
}

} // verus!
