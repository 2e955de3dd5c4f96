//! Rust syntax as plain values.
//!
//! The grammar of Rust itself is `syn`'s. Each function here hands a text to one of `syn`'s
//! parsers and returns what the layout language reads of the syntax tree, with every
//! remaining piece of syntax rendered back to text. The types are generic over the text and
//! over lists of texts: executable code holds `String` and `Vec<String>`, contracts speak of
//! `Seq<char>` and `Seq<Seq<char>>`.
//!
//! `proc_macro2`, `quote` and `syn` are built without their default features. Tokens are then
//! lexed and printed by `proc_macro2` itself, never by the compiler, so what a parser returns
//! depends on the text alone and can be named. A crate that links this one must leave the
//! `proc-macro` feature of `proc_macro2` off: with it, and inside a macro, the compiler would
//! lex and print.

use proc_macro2::{Delimiter, TokenStream, TokenTree};
use quote::ToTokens;
use syn::meta::ParseNestedMeta;
use syn::parse::{Parse, ParseStream, Parser};
use syn::{
    Attribute, Fields, GenericArgument, ItemStruct, LitInt, Pat, PathArguments, Stmt, Type, TypePath,
};
use vstd::prelude::*;

verus! {

/// A text, in contracts.
pub type Chars = Seq<char>;

/// A list of texts, in contracts.
pub type Texts = Seq<Seq<char>>;

/// The outcome of an outside parser, with its error message, in contracts.
pub open spec fn parsed<T: DeepView>(r: Result<T, String>) -> Result<T::V, Chars> {
    match r {
        Ok(t) => Ok(t.deep_view()),
        Err(e) => Err(e@),
    }
}

/// A text as a sequence of token trees.
pub struct Trees<T> {
    /// The number of token trees.
    pub len: usize,
    /// The first tree, if that is a group: whether its delimiters are curly braces, and the
    /// text inside them.
    pub group: Option<(bool, T)>,
}

impl DeepView for Trees<String> {
    type V = Trees<Chars>;

    open spec fn deep_view(&self) -> Trees<Chars> {
        Trees { len: self.len, group: self.group.deep_view() }
    }
}

/// `TokenStream::from_str` applied to `text`.
pub uninterp spec fn trees_of(text: Seq<char>) -> Result<Trees<Seq<char>>, Seq<char>>;

/// Calls `TokenStream::from_str` of `proc_macro2` and looks at the token trees: how many
/// there are, and what the first is if it is a group. A text that does not lex gives the
/// lexer's message.
#[verifier::external_body]
pub(crate) fn read_trees(text: &str) -> (r: Result<Trees<String>, String>)
    ensures
        parsed(r) == trees_of(text@),
{
    let stream: TokenStream = text.parse().map_err(|e: proc_macro2::LexError| e.to_string())?;
    let len = stream.clone().into_iter().count();
    let group = match stream.into_iter().next() {
        Some(TokenTree::Group(g)) => Some((g.delimiter() == Delimiter::Brace, g.stream().to_string())),
        _ => None,
    };
    Ok(Trees { len, group })
}

/// The number of token trees of `text`, or none if it does not lex.
pub open spec fn tree_count(text: Chars) -> nat {
    match trees_of(text) {
        Ok(trees) => trees.len as nat,
        Err(_) => 0,
    }
}

/// A struct item at the head of a text.
pub struct StructItem<T, L> {
    /// The outer attributes.
    pub attrs: L,
    /// The item without its attributes.
    pub body: T,
    /// The `where` clause, if there is one.
    pub where_clause: Option<T>,
    /// What follows the item.
    pub rest: T,
    /// The parser's message, if a group inside the item holds more than was read of it.
    pub late: Option<T>,
}

impl DeepView for StructItem<String, Vec<String>> {
    type V = StructItem<Chars, Texts>;

    open spec fn deep_view(&self) -> StructItem<Chars, Texts> {
        StructItem {
            attrs: self.attrs.deep_view(),
            body: self.body@,
            where_clause: self.where_clause.deep_view(),
            rest: self.rest@,
            late: self.late.deep_view(),
        }
    }
}

/// `syn::ItemStruct::parse` applied to the head of `text`.
pub uninterp spec fn struct_of(text: Seq<char>) -> Result<
    StructItem<Seq<char>, Seq<Seq<char>>>,
    Seq<char>,
>;

/// Calls `syn::ItemStruct::parse` on the head of a text. A text that does not begin with a
/// struct item gives the parser's message. Tokens that are left over in a group inside the
/// item do not keep the parser from returning it: it is returned with the message about them.
#[verifier::external_body]
pub(crate) fn read_struct(text: &str) -> (r: Result<StructItem<String, Vec<String>>, String>)
    ensures
        parsed(r) == struct_of(text@),
{
    let show = |t: &dyn ToTokens| t.to_token_stream().to_string();
    let mut parts = None;
    let parser = |s: ParseStream| Ok(parts = Some((s.parse::<ItemStruct>()?, s.parse::<TokenStream>()?)));
    let late = parser.parse_str(text).err().map(|e| e.to_string());
    let Some((mut item, rest)) = parts else {
        return Err(late.unwrap_or_default());
    };
    let attrs = item.attrs.drain(..).map(|a| show(&a)).collect();
    let where_clause = item.generics.where_clause.as_ref().map(|w| show(w));
    Ok(StructItem { attrs, body: show(&item), where_clause, rest: rest.to_string(), late })
}

/// The parts of a struct item.
pub struct StructShape<T, L> {
    /// The visibility.
    pub vis: T,
    /// The name.
    pub ident: T,
    /// The fields, with their delimiters.
    pub fields: T,
    /// The types of the fields, if this is a tuple struct.
    pub types: Option<L>,
    /// The generic parameters, in angle brackets; empty if there are none.
    pub generics: T,
}

impl DeepView for StructShape<String, Vec<String>> {
    type V = StructShape<Chars, Texts>;

    open spec fn deep_view(&self) -> StructShape<Chars, Texts> {
        StructShape {
            vis: self.vis@,
            ident: self.ident@,
            fields: self.fields@,
            types: self.types.deep_view(),
            generics: self.generics@,
        }
    }
}

/// `syn::ItemStruct::parse` applied to a fork of a buffer that holds `text`.
pub uninterp spec fn shape_of(text: Seq<char>) -> Result<
    StructShape<Seq<char>, Seq<Seq<char>>>,
    Seq<char>,
>;

/// Calls `syn::ItemStruct::parse` on a fork and takes the item apart. Tokens that are left over,
/// in a group or behind the item, are not looked at.
#[verifier::external_body]
pub(crate) fn read_shape(text: &str) -> (r: Result<StructShape<String, Vec<String>>, String>)
    ensures
        parsed(r) == shape_of(text@),
{
    let show = |t: &dyn ToTokens| t.to_token_stream().to_string();
    let parser = |s: ParseStream| (s.fork().parse::<ItemStruct>(), s.parse::<TokenStream>()).0;
    let item = parser.parse_str(text).map_err(|e| e.to_string())?;
    let types = match &item.fields {
        Fields::Unnamed(f) => Some(f.unnamed.iter().map(|f| show(&f.ty)).collect()),
        _ => None,
    };
    Ok(StructShape {
        vis: show(&item.vis),
        ident: item.ident.to_string(),
        fields: show(&item.fields),
        types,
        generics: show(&item.generics),
    })
}

/// `syn::Attribute::parse_outer` applied to a fork of a buffer that holds `text`.
pub uninterp spec fn attribute_of(text: Seq<char>) -> Result<Option<Seq<char>>, Seq<char>>;

/// Calls `syn::Attribute::parse_outer` on a fork and returns the path of the first attribute,
/// if that path is a single identifier. Tokens that are left over, in a group or behind the
/// attribute, are not looked at.
#[verifier::external_body]
pub(crate) fn read_attribute(text: &str) -> (r: Result<Option<String>, String>)
    ensures
        parsed(r) == attribute_of(text@),
{
    let parser = |s: ParseStream| (Attribute::parse_outer(&s.fork()), s.parse::<TokenStream>()).0;
    let attrs = parser.parse_str(text).map_err(|e| e.to_string())?;
    let path = attrs.first().and_then(|a| a.path().get_ident());
    Ok(path.map(|i| i.to_string()))
}

/// What an attribute lists in its parentheses.
pub struct NestedMetas<T, L> {
    /// The paths, up to where the list is malformed.
    pub paths: L,
    /// The parser's message, if the list is malformed.
    pub error: Option<T>,
}

impl DeepView for NestedMetas<String, Vec<String>> {
    type V = NestedMetas<Chars, Texts>;

    open spec fn deep_view(&self) -> NestedMetas<Chars, Texts> {
        NestedMetas { paths: self.paths.deep_view(), error: self.error.deep_view() }
    }
}

/// `syn::Attribute::parse_nested_meta` applied to the attribute `text`.
pub uninterp spec fn metas_of(text: Seq<char>) -> Result<
    NestedMetas<Seq<char>, Seq<Seq<char>>>,
    Seq<char>,
>;

/// Calls `syn::Attribute::parse_nested_meta` on an attribute and lists the paths that it
/// meets.
#[verifier::external_body]
pub(crate) fn read_metas(text: &str) -> (r: Result<NestedMetas<String, Vec<String>>, String>)
    ensures
        parsed(r) == metas_of(text@),
{
    let parser = |s: ParseStream| (Attribute::parse_outer(&s.fork()), s.parse::<TokenStream>()).0;
    let attrs = parser.parse_str(text).map_err(|e| e.to_string())?;
    let mut paths = Vec::new();
    let list = |m: ParseNestedMeta| Ok(paths.push(m.path.to_token_stream().to_string()));
    let error = attrs.first().and_then(|a| a.parse_nested_meta(list).err());
    Ok(NestedMetas { paths, error: error.map(|e| e.to_string()) })
}

/// The initializer of a `let` statement.
pub struct Init<T> {
    /// The expression.
    pub expr: T,
    /// Whether an `else` block follows.
    pub diverges: bool,
}

impl DeepView for Init<String> {
    type V = Init<Chars>;

    open spec fn deep_view(&self) -> Init<Chars> {
        Init { expr: self.expr@, diverges: self.diverges }
    }
}

/// A statement at the head of a text.
pub struct Statement<T> {
    /// The statement.
    pub text: T,
    /// The initializer, if this is a `let` statement that has one.
    pub init: Option<Init<T>>,
    /// What follows it.
    pub rest: T,
    /// The parser's message, if a group inside the statement holds more than was read of it.
    pub late: Option<T>,
}

impl DeepView for Statement<String> {
    type V = Statement<Chars>;

    open spec fn deep_view(&self) -> Statement<Chars> {
        Statement {
            text: self.text@,
            init: self.init.deep_view(),
            rest: self.rest@,
            late: self.late.deep_view(),
        }
    }
}

/// `syn::Stmt::parse` applied to the head of `text`.
pub uninterp spec fn statement_of(text: Seq<char>) -> Result<Statement<Seq<char>>, Seq<char>>;

/// Calls `syn::Stmt::parse` on the head of a text. A statement takes at least one token tree,
/// so fewer remain. A text that does not begin with a statement gives the parser's message.
/// Tokens that are left over in a group inside the statement do not keep the parser from
/// returning it: it is returned with the message about them.
#[verifier::external_body]
pub(crate) fn read_statement(text: &str) -> (r: Result<Statement<String>, String>)
    ensures
        parsed(r) == statement_of(text@),
        r matches Ok(s) ==> tree_count(s.rest@) < tree_count(text@),
{
    let show = |t: &dyn ToTokens| t.to_token_stream().to_string();
    let mut parts = None;
    let parser = |s: ParseStream| Ok(parts = Some((s.parse::<Stmt>()?, s.parse::<TokenStream>()?)));
    let late = parser.parse_str(text).err().map(|e| e.to_string());
    let Some((stmt, rest)) = parts else {
        return Err(late.unwrap_or_default());
    };
    let text = show(&stmt);
    let init = match stmt {
        Stmt::Local(l) => l.init.map(|i| Init { expr: show(&i.expr), diverges: i.diverge.is_some() }),
        _ => None,
    };
    Ok(Statement { text, init, rest: rest.to_string(), late })
}

/// The head of a `let` statement.
pub struct Local<T, L> {
    /// The attributes.
    pub attrs: L,
    /// The pattern, without its type.
    pub pat: T,
    /// The type.
    pub ty: Option<T>,
}

impl DeepView for Local<String, Vec<String>> {
    type V = Local<Chars, Texts>;

    open spec fn deep_view(&self) -> Local<Chars, Texts> {
        Local {
            attrs: self.attrs.deep_view(),
            pat: self.pat@,
            ty: self.ty.deep_view(),
        }
    }
}

/// `syn::Stmt::parse` applied to a fork of a buffer that holds `text`.
pub uninterp spec fn local_of(text: Seq<char>) -> Result<
    Option<Local<Seq<char>, Seq<Seq<char>>>>,
    Seq<char>,
>;

/// Calls `syn::Stmt::parse` on a fork and takes the head of the statement apart, if it is a
/// `let` statement. Tokens that are left over, in a group or behind the statement, are not
/// looked at.
#[verifier::external_body]
pub(crate) fn read_local(text: &str) -> (r: Result<Option<Local<String, Vec<String>>>, String>)
    ensures
        parsed(r) == local_of(text@),
{
    let show = |t: &dyn ToTokens| t.to_token_stream().to_string();
    let parser = |s: ParseStream| (s.fork().parse::<Stmt>(), s.parse::<TokenStream>()).0;
    let Stmt::Local(local) = parser.parse_str(text).map_err(|e| e.to_string())? else {
        return Ok(None);
    };
    let (pat, ty) = match local.pat {
        Pat::Type(t) => (show(&t.pat), Some(show(&t.ty))),
        pat => (show(&pat), None),
    };
    Ok(Some(Local {
        attrs: local.attrs.iter().map(|a| show(a)).collect(),
        pat, ty,
    }))
}

/// A pattern.
pub enum Pattern<T> {
    /// An identifier, with the pattern behind `@` if there is one.
    Name { by_ref: bool, mutable: bool, ident: T, sub: Option<T> },
    /// `_`.
    Wild,
    /// A literal.
    Literal(T),
    /// A range: its bounds, each empty if it is left out, and the token between them.
    Range { start: T, limits: T, end: T },
    /// Any other pattern.
    Other,
}

impl DeepView for Pattern<String> {
    type V = Pattern<Chars>;

    open spec fn deep_view(&self) -> Pattern<Chars> {
        match self {
            Pattern::Name { by_ref, mutable, ident, sub } => Pattern::Name {
                by_ref: *by_ref,
                mutable: *mutable,
                ident: ident@,
                sub: sub.deep_view(),
            },
            Pattern::Wild => Pattern::Wild,
            Pattern::Literal(t) => Pattern::Literal(t@),
            Pattern::Range { start, limits, end } => Pattern::Range {
                start: start@,
                limits: limits@,
                end: end@,
            },
            Pattern::Other => Pattern::Other,
        }
    }
}

/// `syn::Pat::parse_single` applied to `text`.
pub uninterp spec fn pattern_of(text: Seq<char>) -> Result<Pattern<Seq<char>>, Seq<char>>;

/// Calls `syn::Pat::parse_single` and takes the pattern apart.
#[verifier::external_body]
pub(crate) fn read_pattern(text: &str) -> (r: Result<Pattern<String>, String>)
    ensures
        parsed(r) == pattern_of(text@),
{
    let show = |t: &dyn ToTokens| t.to_token_stream().to_string();
    Ok(match Pat::parse_single.parse_str(text).map_err(|e| e.to_string())? {
        Pat::Ident(p) => Pattern::Name {
            by_ref: p.by_ref.is_some(), mutable: p.mutability.is_some(),
            ident: show(&p.ident), sub: p.subpat.map(|s| show(&s.1)),
        },
        Pat::Wild(_) => Pattern::Wild,
        Pat::Lit(l) => Pattern::Literal(show(&l)),
        Pat::Range(r) => Pattern::Range {
            start: show(&r.start), limits: show(&r.limits), end: show(&r.end),
        },
        _ => Pattern::Other,
    })
}

/// A type.
pub enum TypeForm<T, L> {
    /// A path.
    Path {
        /// Whether it begins with a type in angle brackets.
        qualified: bool,
        /// Whether the path behind such a type, if there is one, begins with `::`.
        leading: bool,
        /// The number of segments of that path.
        segments: usize,
        /// That path itself.
        text: T,
        /// The identifier of the first segment.
        head: T,
        /// The arguments of the first segment, if it has a list in angle brackets.
        args: Option<L>,
    },
    /// Any other type.
    Other,
}

impl DeepView for TypeForm<String, Vec<String>> {
    type V = TypeForm<Chars, Texts>;

    open spec fn deep_view(&self) -> TypeForm<Chars, Texts> {
        match self {
            TypeForm::Path { qualified, leading, segments, text, head, args } => TypeForm::Path {
                qualified: *qualified,
                leading: *leading,
                segments: *segments,
                text: text@,
                head: head@,
                args: args.deep_view(),
            },
            TypeForm::Other => TypeForm::Other,
        }
    }
}

/// `syn::Type::parse` applied to a fork of a buffer that holds `text`.
pub uninterp spec fn type_of(text: Seq<char>) -> Result<
    TypeForm<Seq<char>, Seq<Seq<char>>>,
    Seq<char>,
>;

/// Calls `syn::Type::parse` on a fork and takes the type apart, if it is a path. Tokens that are
/// left over, in a group or behind the type, are not looked at.
#[verifier::external_body]
pub(crate) fn read_type(text: &str) -> (r: Result<TypeForm<String, Vec<String>>, String>)
    ensures
        parsed(r) == type_of(text@),
{
    let parser = |s: ParseStream| (Type::parse(&s.fork()), TokenStream::parse(s)).0;
    let Type::Path(TypePath { qself, path }) = parser.parse_str(text).map_err(|e| e.to_string())? else {
        return Ok(TypeForm::Other);
    };
    let first = &path.segments[0];
    let args = match &first.arguments {
        PathArguments::AngleBracketed(a) => Some(a.args.iter().map(|a| a.to_token_stream().to_string()).collect()),
        _ => None,
    };
    Ok(TypeForm::Path {
        qualified: qself.is_some(), leading: path.leading_colon.is_some(), segments: path.segments.len(),
        head: first.ident.to_string(), args, text: path.to_token_stream().to_string(),
    })
}

/// A generic argument.
pub enum Argument<T> {
    /// A constant.
    Const(T),
    /// A type.
    Type(T),
    /// Any other argument.
    Other,
}

impl DeepView for Argument<String> {
    type V = Argument<Chars>;

    open spec fn deep_view(&self) -> Argument<Chars> {
        match self {
            Argument::Const(t) => Argument::Const(t@),
            Argument::Type(t) => Argument::Type(t@),
            Argument::Other => Argument::Other,
        }
    }
}

/// `syn::GenericArgument::parse` applied to a fork of a buffer that holds `text`.
pub uninterp spec fn argument_of(text: Seq<char>) -> Result<Argument<Seq<char>>, Seq<char>>;

/// Calls `syn::GenericArgument::parse` on a fork and tells constants and types apart. Tokens
/// that are left over, in a group or behind the argument, are not looked at.
#[verifier::external_body]
pub(crate) fn read_argument(text: &str) -> (r: Result<Argument<String>, String>)
    ensures
        parsed(r) == argument_of(text@),
{
    let show = |t: &dyn ToTokens| t.to_token_stream().to_string();
    let parser = |s: ParseStream| (s.fork().parse::<GenericArgument>(), s.parse::<TokenStream>()).0;
    Ok(match parser.parse_str(text).map_err(|e| e.to_string())? {
        GenericArgument::Const(e) => Argument::Const(show(&e)),
        GenericArgument::Type(t) => Argument::Type(show(&t)),
        _ => Argument::Other,
    })
}

/// `syn::parse_str::<syn::LitInt>` applied to `text`.
pub uninterp spec fn integer_of(text: Seq<char>) -> Result<Seq<char>, Seq<char>>;

/// Calls `syn::parse_str::<syn::LitInt>` and returns the literal's value in decimal, as
/// `syn::LitInt::base10_digits` writes it.
#[verifier::external_body]
pub(crate) fn read_integer(text: &str) -> (r: Result<String, String>)
    ensures
        parsed(r) == integer_of(text@),
{
    let literal = syn::parse_str::<LitInt>(text).map_err(|e| e.to_string())?;
    Ok(literal.base10_digits().to_string())
}

} // verus!
