//! Bitfield declarations as plain values.

use crate::syntax::{
    Argument, Chars, Init, Local, Pattern, Texts, TypeForm, argument_of, attribute_of, integer_of,
    local_of, parsed, pattern_of, read_argument, read_attribute, read_integer, read_local,
    read_pattern, read_type, type_of,
};
use crate::text::same;
use vstd::prelude::*;

verus! {

/// An attribute.
pub struct AttributeDecl<T> {
    /// The path, if it is a single identifier.
    pub path: Option<T>,
    /// The attribute itself.
    pub text: T,
}

impl DeepView for AttributeDecl<String> {
    type V = AttributeDecl<Chars>;

    open spec fn deep_view(&self) -> AttributeDecl<Chars> {
        AttributeDecl { path: self.path.deep_view(), text: self.text@ }
    }
}

/// What stands behind the `@` of a declaration. A number is in decimal, and missing where
/// something else than an integer literal stands.
pub enum BitsForm<T> {
    /// `high..low`.
    Range { high: Option<T>, low: Option<T> },
    /// A single literal.
    Bit(Option<T>),
    /// Anything else.
    Other,
}

impl DeepView for BitsForm<String> {
    type V = BitsForm<Chars>;

    open spec fn deep_view(&self) -> BitsForm<Chars> {
        match self {
            BitsForm::Range { high, low } => BitsForm::Range {
                high: high.deep_view(),
                low: low.deep_view(),
            },
            BitsForm::Bit(b) => BitsForm::Bit(b.deep_view()),
            BitsForm::Other => BitsForm::Other,
        }
    }
}

/// The part of a declaration behind its `@`.
pub struct BitsDecl<T> {
    pub form: BitsForm<T>,
    pub text: T,
}

impl DeepView for BitsDecl<String> {
    type V = BitsDecl<Chars>;

    open spec fn deep_view(&self) -> BitsDecl<Chars> {
        BitsDecl { form: self.form.deep_view(), text: self.text@ }
    }
}

/// What a generic argument is.
pub enum ArgumentForm<T> {
    /// An integer literal, in decimal.
    Integer(T),
    /// A type.
    Type(T),
    /// Anything else.
    Other,
}

impl DeepView for ArgumentForm<String> {
    type V = ArgumentForm<Chars>;

    open spec fn deep_view(&self) -> ArgumentForm<Chars> {
        match self {
            ArgumentForm::Integer(t) => ArgumentForm::Integer(t@),
            ArgumentForm::Type(t) => ArgumentForm::Type(t@),
            ArgumentForm::Other => ArgumentForm::Other,
        }
    }
}

/// A generic argument.
pub struct ArgumentDecl<T> {
    pub form: ArgumentForm<T>,
    pub text: T,
}

impl DeepView for ArgumentDecl<String> {
    type V = ArgumentDecl<Chars>;

    open spec fn deep_view(&self) -> ArgumentDecl<Chars> {
        ArgumentDecl { form: self.form.deep_view(), text: self.text@ }
    }
}

/// The type of a declaration.
pub struct TypeDecl {
    pub text: String,
    /// The identifier, if the type is a path of a single segment that neither `::` nor a type in
    /// angle brackets begins.
    pub head: Option<String>,
    /// The arguments of that segment, if it has a list in angle brackets.
    pub args: Option<Vec<ArgumentDecl<String>>>,
}

/// The type of a declaration, in contracts.
pub struct TypeDeclView {
    pub text: Chars,
    pub head: Option<Chars>,
    pub args: Option<Seq<ArgumentDecl<Chars>>>,
}

impl DeepView for TypeDecl {
    type V = TypeDeclView;

    open spec fn deep_view(&self) -> TypeDeclView {
        TypeDeclView {
            text: self.text@,
            head: self.head.deep_view(),
            args: self.args.deep_view(),
        }
    }
}

/// What a declaration binds.
pub enum NameForm<T> {
    /// An identifier.
    Ident { by_ref: bool, mutable: bool, ident: T },
    /// `_`.
    Wild,
    /// Anything else.
    Other,
}

impl DeepView for NameForm<String> {
    type V = NameForm<Chars>;

    open spec fn deep_view(&self) -> NameForm<Chars> {
        match self {
            NameForm::Ident { by_ref, mutable, ident } => NameForm::Ident {
                by_ref: *by_ref,
                mutable: *mutable,
                ident: ident@,
            },
            NameForm::Wild => NameForm::Wild,
            NameForm::Other => NameForm::Other,
        }
    }
}

/// A `let` statement that may declare a bitfield.
pub struct Declaration {
    /// The statement itself.
    pub text: String,
    pub attrs: Vec<AttributeDecl<String>>,
    /// The pattern, without its type.
    pub pat: String,
    pub name: NameForm<String>,
    pub bits: Option<BitsDecl<String>>,
    pub ty: Option<TypeDecl>,
    pub init: Option<Init<String>>,
}

/// A `let` statement that may declare a bitfield, in contracts.
pub struct DeclarationView {
    pub text: Chars,
    pub attrs: Seq<AttributeDecl<Chars>>,
    pub pat: Chars,
    pub name: NameForm<Chars>,
    pub bits: Option<BitsDecl<Chars>>,
    pub ty: Option<TypeDeclView>,
    pub init: Option<Init<Chars>>,
}

impl DeepView for Declaration {
    type V = DeclarationView;

    open spec fn deep_view(&self) -> DeclarationView {
        DeclarationView {
            text: self.text@,
            attrs: self.attrs.deep_view(),
            pat: self.pat@,
            name: self.name.deep_view(),
            bits: self.bits.deep_view(),
            ty: self.ty.deep_view(),
            init: self.init.deep_view(),
        }
    }
}

/// The attributes that `texts` hold.
pub open spec fn attributes_of(texts: Texts) -> Result<Seq<AttributeDecl<Chars>>, Chars>
    decreases texts.len(),
{
    if texts.len() == 0 {
        Ok(Seq::empty())
    } else {
        match (attributes_of(texts.drop_last()), attribute_of(texts.last())) {
            (Ok(attrs), Ok(path)) => Ok(attrs.push(AttributeDecl { path, text: texts.last() })),
            (Ok(_), Err(e)) => Err(e),
            (Err(e), _) => Err(e),
        }
    }
}

/// The first malformed attribute decides.
proof fn lemma_attributes_prefix(texts: Texts, i: int)
    requires
        0 <= i <= texts.len(),
        attributes_of(texts.take(i)) is Err,
    ensures
        attributes_of(texts) == attributes_of(texts.take(i)),
    decreases texts.len(),
{
    if i == texts.len() {
        assert(texts.take(i) =~= texts);
    } else {
        assert(texts.drop_last().take(i) =~= texts.take(i));
        lemma_attributes_prefix(texts.drop_last(), i);
    }
}

/// Reads the attributes that `texts` hold.
pub fn read_attributes(texts: &Vec<String>) -> (r: Result<Vec<AttributeDecl<String>>, String>)
    ensures
        parsed(r) == attributes_of(texts.deep_view()),
{
    let ghost all = texts.deep_view();
    let mut attrs: Vec<AttributeDecl<String>> = Vec::new();
    let mut i: usize = 0;
    proof {
        assert(attrs.deep_view() =~= Seq::empty());
    }
    while i < texts.len()
        invariant
            all == texts.deep_view(),
            i <= texts.len(),
            attributes_of(all.take(i as int)) == Ok::<_, Chars>(attrs.deep_view()),
        decreases texts.len() - i,
    {
        let ghost before = attrs.deep_view();
        proof {
            assert(all.take(i + 1).drop_last() =~= all.take(i as int));
            assert(all.take(i + 1).last() == texts[i as int]@);
        }
        match read_attribute(texts[i].as_str()) {
            Ok(path) => {
                let attr = AttributeDecl { path, text: texts[i].clone() };
                attrs.push(attr);
                proof {
                    assert(attrs.deep_view() =~= before.push(attr.deep_view()));
                }
            },
            Err(message) => {
                proof {
                    lemma_attributes_prefix(all, i + 1);
                }
                return Err(message);
            },
        }
        i = i + 1;
    }
    proof {
        assert(all.take(i as int) =~= all);
    }
    Ok(attrs)
}

/// The value of an integer literal, in decimal, if `text` is one.
pub open spec fn integer_in(text: Chars) -> Option<Chars> {
    match integer_of(text) {
        Ok(digits) => Some(digits),
        Err(_) => None,
    }
}

/// Reads an integer literal.
pub fn read_integer_in(text: &str) -> (r: Option<String>)
    ensures
        r.deep_view() == integer_in(text@),
{
    match read_integer(text) {
        Ok(digits) => Some(digits),
        Err(_) => None,
    }
}

/// The generic argument that `text` is.
pub open spec fn argument_decl_of(text: Chars) -> Result<ArgumentDecl<Chars>, Chars> {
    match argument_of(text) {
        Ok(Argument::Const(t)) => Ok(
            ArgumentDecl {
                form: match integer_in(t) {
                    Some(digits) => ArgumentForm::Integer(digits),
                    None => ArgumentForm::Other,
                },
                text,
            },
        ),
        Ok(Argument::Type(t)) => Ok(ArgumentDecl { form: ArgumentForm::Type(t), text }),
        Ok(Argument::Other) => Ok(ArgumentDecl { form: ArgumentForm::Other, text }),
        Err(message) => Err(message),
    }
}

/// Reads a generic argument.
pub fn read_argument_decl(text: &str) -> (r: Result<ArgumentDecl<String>, String>)
    ensures
        parsed(r) == argument_decl_of(text@),
{
    let form = match read_argument(text) {
        Ok(Argument::Const(t)) => match read_integer_in(t.as_str()) {
            Some(digits) => ArgumentForm::Integer(digits),
            None => ArgumentForm::Other,
        },
        Ok(Argument::Type(t)) => ArgumentForm::Type(t),
        Ok(Argument::Other) => ArgumentForm::Other,
        Err(message) => {
            return Err(message);
        },
    };
    Ok(ArgumentDecl { form, text: text.to_owned() })
}

/// The generic arguments that `texts` hold.
pub open spec fn arguments_of(texts: Texts) -> Result<Seq<ArgumentDecl<Chars>>, Chars>
    decreases texts.len(),
{
    if texts.len() == 0 {
        Ok(Seq::empty())
    } else {
        match (arguments_of(texts.drop_last()), argument_decl_of(texts.last())) {
            (Ok(args), Ok(arg)) => Ok(args.push(arg)),
            (Ok(_), Err(e)) => Err(e),
            (Err(e), _) => Err(e),
        }
    }
}

/// The first malformed argument decides.
proof fn lemma_arguments_prefix(texts: Texts, i: int)
    requires
        0 <= i <= texts.len(),
        arguments_of(texts.take(i)) is Err,
    ensures
        arguments_of(texts) == arguments_of(texts.take(i)),
    decreases texts.len(),
{
    if i == texts.len() {
        assert(texts.take(i) =~= texts);
    } else {
        assert(texts.drop_last().take(i) =~= texts.take(i));
        lemma_arguments_prefix(texts.drop_last(), i);
    }
}

/// Reads the generic arguments that `texts` hold.
pub fn read_arguments(texts: &Vec<String>) -> (r: Result<Vec<ArgumentDecl<String>>, String>)
    ensures
        parsed(r) == arguments_of(texts.deep_view()),
{
    let ghost all = texts.deep_view();
    let mut args: Vec<ArgumentDecl<String>> = Vec::new();
    let mut i: usize = 0;
    proof {
        assert(args.deep_view() =~= Seq::empty());
    }
    while i < texts.len()
        invariant
            all == texts.deep_view(),
            i <= texts.len(),
            arguments_of(all.take(i as int)) == Ok::<_, Chars>(args.deep_view()),
        decreases texts.len() - i,
    {
        let ghost before = args.deep_view();
        proof {
            assert(all.take(i + 1).drop_last() =~= all.take(i as int));
            assert(all.take(i + 1).last() == texts[i as int]@);
        }
        match read_argument_decl(texts[i].as_str()) {
            Ok(arg) => {
                args.push(arg);
                proof {
                    assert(args.deep_view() =~= before.push(arg.deep_view()));
                }
            },
            Err(message) => {
                proof {
                    lemma_arguments_prefix(all, i + 1);
                }
                return Err(message);
            },
        }
        i = i + 1;
    }
    proof {
        assert(all.take(i as int) =~= all);
    }
    Ok(args)
}

/// The type that `text` is, for a declaration. Only a path of one plain segment has a head.
pub open spec fn type_decl_of(text: Chars) -> Result<TypeDeclView, Chars> {
    match type_of(text) {
        Ok(TypeForm::Path { qualified, leading, segments, head, args, .. }) => if qualified
            || leading || segments != 1 {
            Ok(TypeDeclView { text, head: None, args: None })
        } else {
            match args {
                Some(args) => match arguments_of(args) {
                    Ok(args) => Ok(TypeDeclView { text, head: Some(head), args: Some(args) }),
                    Err(message) => Err(message),
                },
                None => Ok(TypeDeclView { text, head: Some(head), args: None }),
            }
        },
        Ok(TypeForm::Other) => Ok(TypeDeclView { text, head: None, args: None }),
        Err(message) => Err(message),
    }
}

/// Reads the type of a declaration.
pub fn read_type_decl(text: &str) -> (r: Result<TypeDecl, String>)
    ensures
        parsed(r) == type_decl_of(text@),
{
    match read_type(text) {
        Ok(TypeForm::Path { qualified, leading, segments, head, args, .. }) => {
            if qualified || leading || segments != 1 {
                return Ok(TypeDecl { text: text.to_owned(), head: None, args: None });
            }
            match args {
                Some(args) => match read_arguments(&args) {
                    Ok(args) => Ok(
                        TypeDecl { text: text.to_owned(), head: Some(head), args: Some(args) },
                    ),
                    Err(message) => Err(message),
                },
                None => Ok(TypeDecl { text: text.to_owned(), head: Some(head), args: None }),
            }
        },
        Ok(TypeForm::Other) => Ok(TypeDecl { text: text.to_owned(), head: None, args: None }),
        Err(message) => Err(message),
    }
}

/// The bit positions that `text` is, behind an `@`.
pub open spec fn bits_decl_of(text: Chars) -> BitsDecl<Chars> {
    let form = match pattern_of(text) {
        Ok(Pattern::Range { start, limits, end }) => if limits == ".."@ {
            BitsForm::Range { high: integer_in(start), low: integer_in(end) }
        } else {
            BitsForm::Other
        },
        Ok(Pattern::Literal(t)) => BitsForm::Bit(integer_in(t)),
        _ => BitsForm::Other,
    };
    BitsDecl { form, text }
}

/// Reads the bit positions behind an `@`.
pub fn read_bits_decl(text: &str) -> (r: BitsDecl<String>)
    ensures
        r.deep_view() == bits_decl_of(text@),
{
    let form = match read_pattern(text) {
        Ok(Pattern::Range { start, limits, end }) => {
            if same(limits.as_str(), "..") {
                BitsForm::Range {
                    high: read_integer_in(start.as_str()),
                    low: read_integer_in(end.as_str()),
                }
            } else {
                BitsForm::Other
            }
        },
        Ok(Pattern::Literal(t)) => BitsForm::Bit(read_integer_in(t.as_str())),
        _ => BitsForm::Other,
    };
    BitsDecl { form, text: text.to_owned() }
}

/// The name and the bit positions that the pattern `text` is.
pub open spec fn name_decl_of(text: Chars) -> (NameForm<Chars>, Option<BitsDecl<Chars>>) {
    match pattern_of(text) {
        Ok(Pattern::Name { by_ref, mutable, ident, sub: Some(sub) }) => (
            NameForm::Ident { by_ref, mutable, ident },
            Some(bits_decl_of(sub)),
        ),
        Ok(Pattern::Name { by_ref, mutable, ident, sub: None }) => (
            NameForm::Ident { by_ref, mutable, ident },
            None,
        ),
        Ok(Pattern::Wild) => (NameForm::Wild, None),
        _ => (NameForm::Other, None),
    }
}

/// Reads the pattern of a declaration.
pub fn read_name_decl(text: &str) -> (r: (NameForm<String>, Option<BitsDecl<String>>))
    ensures
        r.deep_view() == name_decl_of(text@),
{
    match read_pattern(text) {
        Ok(Pattern::Name { by_ref, mutable, ident, sub: Some(sub) }) => (
            NameForm::Ident { by_ref, mutable, ident },
            Some(read_bits_decl(sub.as_str())),
        ),
        Ok(Pattern::Name { by_ref, mutable, ident, sub: None }) => (
            NameForm::Ident { by_ref, mutable, ident },
            None,
        ),
        Ok(Pattern::Wild) => (NameForm::Wild, None),
        _ => (NameForm::Other, None),
    }
}

/// The declaration that the `let` statement `text` with the given parts is.
pub open spec fn declaration_of_local(
    text: Chars,
    init: Option<Init<Chars>>,
    local: Local<Chars, Texts>,
) -> Result<DeclarationView, Chars> {
    let (name, bits) = name_decl_of(local.pat);
    let none: Result<Option<TypeDeclView>, Chars> = Ok(None);
    let ty = match local.ty {
        None => none,
        Some(t) => match type_decl_of(t) {
            Ok(ty) => Ok(Some(ty)),
            Err(message) => Err(message),
        },
    };
    match (attributes_of(local.attrs), ty) {
        (Err(message), _) => Err(message),
        (Ok(_), Err(message)) => Err(message),
        (Ok(attrs), Ok(ty)) => Ok(
            DeclarationView { text, attrs, pat: local.pat, name, bits, ty, init },
        ),
    }
}

/// The declaration that the statement `text` with the given initializer is; `None` if it is no
/// `let` statement.
pub open spec fn declaration_of(text: Chars, init: Option<Init<Chars>>) -> Result<
    Option<DeclarationView>,
    Chars,
> {
    match local_of(text) {
        Ok(Some(local)) => match declaration_of_local(text, init, local) {
            Ok(d) => Ok(Some(d)),
            Err(message) => Err(message),
        },
        Ok(None) => Ok(None),
        Err(message) => Err(message),
    }
}

/// Reads the parts of a `let` statement.
pub fn read_declaration_of_local(
    text: &str,
    init: Option<Init<String>>,
    local: Local<String, Vec<String>>,
) -> (r: Result<Declaration, String>)
    ensures
        parsed(r) == declaration_of_local(text@, init.deep_view(), local.deep_view()),
{
    let attrs = match read_attributes(&local.attrs) {
        Ok(attrs) => attrs,
        Err(message) => {
            return Err(message);
        },
    };
    let (name, bits) = read_name_decl(local.pat.as_str());
    let ty = match &local.ty {
        None => None,
        Some(t) => match read_type_decl(t.as_str()) {
            Ok(ty) => Some(ty),
            Err(message) => {
                return Err(message);
            },
        },
    };
    Ok(Declaration { text: text.to_owned(), attrs, pat: local.pat, name, bits, ty, init })
}

/// Reads a statement as a declaration; `None` if it is no `let` statement.
pub fn read_declaration(text: &str, init: Option<Init<String>>) -> (r: Result<
    Option<Declaration>,
    String,
>)
    ensures
        parsed(r) == declaration_of(text@, init.deep_view()),
{
    match read_local(text) {
        Ok(Some(local)) => match read_declaration_of_local(text, init, local) {
            Ok(d) => Ok(Some(d)),
            Err(message) => Err(message),
        },
        Ok(None) => Ok(None),
        Err(message) => Err(message),
    }
}

} // verus!
