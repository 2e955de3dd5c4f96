//! A single bitfield: how it is declared and what it is called.

use crate::base::BaseType;
use crate::declaration::{
    ArgumentDecl, ArgumentForm, AttributeDecl, BitsForm, Declaration, DeclarationView, NameForm,
    TypeDecl, TypeDeclView, declaration_of, read_declaration,
};
use crate::error::{Error, outcome};
use crate::syntax::{Chars, Texts, read_statement, statement_of, tree_count};
use crate::text::{
    decimal, decimal_of, index_of_digits, is_number, number_of, read_decimal, same,
};
use vstd::prelude::*;

verus! {

/// The message about a statement that declares no bitfield.
pub const INVALID_BITFIELD_DECL_FORM: &'static str = "bitfield declaration should take one of the following forms:\n* `let $name @ $bit (= $default)?;`\n* `let $name @ $high..$low (: $repr)? (= $default)?;`\n* `let __ @ $bit (= $value)?;`\n* `let __ @ $high..$low (= $value)?;`\n* `let $name: Bit<$bit> (= $default)?;`\n* `let $name: Bits<$high, $low (, $repr)?> (= $default)?;`\n* `let _: Bit<$bit> (= $value)?;`\n* `let _: Bits<$high, $low> (= $value)?;`";

/// The message about a second `#[unshifted]`.
pub const DUPLICATE_UNSHIFTED: &'static str = "duplicate `#[unshifted]` attribute";

/// The message about any attribute but a doc comment and `#[unshifted]`.
pub const NO_ATTRIBUTES: &'static str = "attributes are not permitted on individual fields";

/// The message about a range whose bounds are swapped.
pub const HIGH_THEN_LOW: &'static str = "first high bit, then low";

/// The message about a bit position that does not fit.
pub const NUMBER_TOO_LARGE: &'static str = "number too large to fit in target type";

/// The message about a bit position that is no number.
pub const INVALID_DIGIT: &'static str = "invalid digit found in string";

/// The message about a documented reserved field.
pub const RESERVED_DOC: &'static str = "doc comments are not permitted on reserved fields";

/// The message about a representation of a reserved field.
pub const RESERVED_REPR: &'static str = "custom representations are not permitted for reserved fields";

/// The message about a representation of a single bit.
pub const BIT_REPR: &'static str = "custom representations are not permitted for bits";

/// The message about an unshifted reserved field.
pub const RESERVED_UNSHIFTED: &'static str = "`#[unshifted]` is not permitted on reserved fields";

/// The message about an unshifted field with a representation.
pub const REPR_UNSHIFTED: &'static str = "`#[unshifted]` is not permitted on fields with custom representations";

/// A bitfield. A reserved field has no name. Contracts speak of
/// `Bitfield<Seq<char>, Seq<Seq<char>>>`.
pub struct Bitfield<T, L> {
    /// The declaration.
    pub text: T,
    pub name: Option<T>,
    pub high_bit: usize,
    pub low_bit: usize,
    /// The type that represents the field's values.
    pub repr: Option<T>,
    pub doc_attrs: L,
    /// Whether the accessors leave the field's bits where they are.
    pub unshifted: bool,
    /// The default of a named field; the value of a reserved one.
    pub default: Option<T>,
}

/// A bitfield, in contracts.
pub type Field = Bitfield<Chars, Texts>;

impl DeepView for Bitfield<String, Vec<String>> {
    type V = Field;

    open spec fn deep_view(&self) -> Field {
        Bitfield {
            text: self.text@,
            name: self.name.deep_view(),
            high_bit: self.high_bit,
            low_bit: self.low_bit,
            repr: self.repr.deep_view(),
            doc_attrs: self.doc_attrs.deep_view(),
            unshifted: self.unshifted,
            default: self.default.deep_view(),
        }
    }
}

impl Bitfield<Chars, Texts> {
    /// The number of bits.
    pub open spec fn width(self) -> int {
        self.high_bit - self.low_bit + 1
    }

    /// Whether bit `i` is one of the field's.
    pub open spec fn covers(self, i: int) -> bool {
        self.low_bit <= i <= self.high_bit
    }

    /// What holds of every declared field: it has a bit, and a reserved one has neither a
    /// representation nor a doc comment nor `#[unshifted]`; a field with a representation has
    /// several bits and is not unshifted.
    pub open spec fn well_formed(self) -> bool {
        &&& self.low_bit <= self.high_bit
        &&& self.name is None ==> self.repr is None && self.doc_attrs.len() == 0 && !self.unshifted
        &&& self.repr is Some ==> self.low_bit < self.high_bit && !self.unshifted
    }
}

/// That `at` declares no bitfield.
pub open spec fn invalid(at: Chars) -> Error<Chars> {
    Error::Layout { message: INVALID_BITFIELD_DECL_FORM@, at }
}

/// The doc comments among `attrs`, and whether `#[unshifted]` is.
pub open spec fn field_attributes_of(attrs: Seq<AttributeDecl<Chars>>) -> Result<
    (Texts, bool),
    Error<Chars>,
>
    decreases attrs.len(),
{
    if attrs.len() == 0 {
        Ok((Seq::empty(), false))
    } else {
        let attr = attrs.last();
        match field_attributes_of(attrs.drop_last()) {
            Ok((docs, unshifted)) => if attr.path == Some("doc"@) {
                Ok((docs.push(attr.text), unshifted))
            } else if attr.path == Some("unshifted"@) {
                if unshifted {
                    Err(Error::Layout { message: DUPLICATE_UNSHIFTED@, at: attr.text })
                } else {
                    Ok((docs, true))
                }
            } else {
                Err(Error::Layout { message: NO_ATTRIBUTES@, at: attr.text })
            },
            Err(e) => Err(e),
        }
    }
}

/// The name that a declaration gives; `None` for a reserved field: `_`, or `__` before an `@`.
pub open spec fn field_name_of(d: DeclarationView) -> Result<Option<Chars>, Error<Chars>> {
    if d.ty is None && d.bits is None {
        Err(invalid(d.text))
    } else {
        match d.name {
            NameForm::Ident { by_ref, mutable, ident } => if by_ref {
                Err(invalid("ref"@))
            } else if mutable {
                Err(invalid("mut"@))
            } else if d.bits is Some && ident == "__"@ {
                Ok(None)
            } else {
                Ok(Some(ident))
            },
            NameForm::Wild => Ok(None),
            NameForm::Other => Err(invalid(d.pat)),
        }
    }
}

/// The bit position that a numeral denotes.
pub open spec fn position_of(digits: Chars) -> Result<usize, Error<Chars>> {
    match index_of_digits(digits) {
        Some(n) => Ok(n),
        None => Err(
            Error::Layout {
                message: if number_of(digits) is Some {
                    NUMBER_TOO_LARGE@
                } else {
                    INVALID_DIGIT@
                },
                at: digits,
            },
        ),
    }
}

/// The bit positions of a range, which runs from its high bit to its low one.
pub open spec fn range_of(high: Chars, low: Chars, at: Chars) -> Result<
    (usize, usize),
    Error<Chars>,
> {
    match (position_of(high), position_of(low)) {
        (Ok(h), Ok(l)) => if h < l {
            Err(Error::Layout { message: HIGH_THEN_LOW@, at })
        } else {
            Ok((h, l))
        },
        (Ok(_), Err(e)) => Err(e),
        (Err(e), _) => Err(e),
    }
}

/// The bit position that a generic argument is.
pub open spec fn argument_position_of(arg: ArgumentDecl<Chars>) -> Result<usize, Error<Chars>> {
    match arg.form {
        ArgumentForm::Integer(digits) => position_of(digits),
        _ => Err(invalid(arg.text)),
    }
}

/// The representation behind the first `n` arguments of `Bit` or `Bits`.
pub open spec fn argument_repr_of(args: Seq<ArgumentDecl<Chars>>, n: int) -> Result<
    Option<Chars>,
    Error<Chars>,
> {
    if args.len() == n {
        Ok(None)
    } else {
        match args[n].form {
            ArgumentForm::Type(t) => Ok(Some(t)),
            _ => Err(invalid(args[n].text)),
        }
    }
}

/// The bit positions and the representation that the type `Bit<..>` or `Bits<..>` gives.
pub open spec fn type_bits_of(ty: TypeDeclView) -> Result<
    (usize, usize, Option<Chars>),
    Error<Chars>,
> {
    let several = ty.head == Some("Bits"@);
    let n: int = if several {
        2
    } else {
        1
    };
    if !several && ty.head != Some("Bit"@) {
        Err(invalid(ty.text))
    } else {
        match ty.args {
            Some(args) => if args.len() < n || args.len() > n + 1 {
                Err(invalid(ty.text))
            } else {
                let first = argument_position_of(args[0]);
                let second = argument_position_of(args[n - 1]);
                match (first, second, argument_repr_of(args, n)) {
                    (Ok(h), Ok(l), Ok(repr)) => if h < l {
                        Err(Error::Layout { message: HIGH_THEN_LOW@, at: ty.text })
                    } else {
                        Ok((h, l, repr))
                    },
                    (Err(e), _, _) => Err(e),
                    (Ok(_), Err(e), _) => Err(e),
                    (Ok(_), Ok(_), Err(e)) => Err(e),
                }
            },
            None => Err(invalid(ty.text)),
        }
    }
}

/// The bit positions and the representation that a declaration gives.
pub open spec fn field_bits_of(d: DeclarationView) -> Result<
    (usize, usize, Option<Chars>),
    Error<Chars>,
> {
    let repr = match d.ty {
        Some(ty) => Some(ty.text),
        None => None,
    };
    match (d.bits, d.ty) {
        (Some(bits), _) => match bits.form {
            BitsForm::Range { high: Some(high), low: Some(low) } => match range_of(
                high,
                low,
                bits.text,
            ) {
                Ok((h, l)) => Ok((h, l, repr)),
                Err(e) => Err(e),
            },
            BitsForm::Bit(Some(bit)) => match position_of(bit) {
                Ok(b) => Ok((b, b, repr)),
                Err(e) => Err(e),
            },
            _ => Err(invalid(bits.text)),
        },
        (None, Some(ty)) => type_bits_of(ty),
        (None, None) => Err(invalid(d.text)),
    }
}

/// Which combination of a field's parts is not permitted, if any.
pub open spec fn combination_error(f: Field, pat: Chars) -> Option<Error<Chars>> {
    if f.doc_attrs.len() > 0 && f.name is None {
        Some(Error::Layout { message: RESERVED_DOC@, at: f.doc_attrs[0] })
    } else if f.repr is Some && f.name is None {
        Some(Error::Layout { message: RESERVED_REPR@, at: f.repr->0 })
    } else if f.repr is Some && f.high_bit == f.low_bit {
        Some(Error::Layout { message: BIT_REPR@, at: f.repr->0 })
    } else if f.unshifted && f.name is None {
        Some(Error::Layout { message: RESERVED_UNSHIFTED@, at: pat })
    } else if f.unshifted && f.repr is Some {
        Some(Error::Layout { message: REPR_UNSHIFTED@, at: f.repr->0 })
    } else {
        None
    }
}

/// The field that a declaration declares.
pub open spec fn field_of(d: DeclarationView) -> Result<Field, Error<Chars>> {
    match (field_attributes_of(d.attrs), field_name_of(d), field_bits_of(d)) {
        (Err(e), _, _) => Err(e),
        (Ok(_), Err(e), _) => Err(e),
        (Ok(_), Ok(_), Err(e)) => Err(e),
        (Ok((doc_attrs, unshifted)), Ok(name), Ok((high_bit, low_bit, repr))) => {
            if d.init is Some && d.init->0.diverges {
                Err(invalid(d.text))
            } else {
                let f = Bitfield {
                    text: d.text,
                    name,
                    high_bit,
                    low_bit,
                    repr,
                    doc_attrs,
                    unshifted,
                    default: match d.init {
                        Some(init) => Some(init.expr),
                        None => None,
                    },
                };
                match combination_error(f, d.pat) {
                    Some(e) => Err(e),
                    None => Ok(f),
                }
            }
        },
    }
}

/// The field at the head of `text`, what follows it, and the message about tokens that are left
/// over in a group inside it.
pub open spec fn head_field_of(text: Chars) -> Result<
    (Field, Chars, Option<Chars>),
    Error<Chars>,
> {
    match statement_of(text) {
        Err(message) => Err(Error::Syntax(message)),
        Ok(stmt) => match declaration_of(stmt.text, stmt.init) {
            Err(message) => Err(Error::Syntax(message)),
            Ok(None) => Err(invalid(stmt.text)),
            Ok(Some(d)) => match field_of(d) {
                Err(e) => Err(e),
                Ok(f) => Ok((f, stmt.rest, stmt.late)),
            },
        },
    }
}

/// Every declared field is well formed.
pub proof fn field_is_well_formed(d: DeclarationView)
    ensures
        field_of(d) matches Ok(f) ==> f.well_formed(),
{
}

/// Whether a declaration that gives its bits behind an `@` and one that gives them by its type
/// say the same.
pub open spec fn spell_the_same(by_at: DeclarationView, by_type: DeclarationView) -> bool {
    &&& by_at.attrs == by_type.attrs
    &&& by_at.init == by_type.init
    &&& by_type.bits is None
    &&& match (by_at.name, by_type.name) {
        (NameForm::Ident { by_ref, mutable, ident }, NameForm::Wild) => !by_ref && !mutable && ident
            == "__"@,
        (NameForm::Ident { by_ref, mutable, ident }, name) => name == by_at.name && ident != "__"@,
        _ => false,
    }
    &&& match (by_at.bits, by_type.ty) {
        (Some(bits), Some(ty)) => match (bits.form, ty.args) {
            (BitsForm::Range { high: Some(high), low: Some(low) }, Some(args)) => ty.head == Some(
                "Bits"@,
            ) && args.len() >= 2 && args[0].form == ArgumentForm::Integer(high) && args[1].form
                == ArgumentForm::Integer(low) && repr_spelled_the_same(by_at.ty, args, 2),
            (BitsForm::Bit(Some(bit)), Some(args)) => ty.head == Some("Bit"@) && args.len() >= 1
                && args[0].form == ArgumentForm::Integer(bit) && repr_spelled_the_same(
                by_at.ty,
                args,
                1,
            ),
            _ => false,
        },
        _ => false,
    }
}

/// Whether the type behind a declaration's colon is the argument behind its `n` bit positions.
pub open spec fn repr_spelled_the_same(
    ty: Option<TypeDeclView>,
    args: Seq<ArgumentDecl<Chars>>,
    n: int,
) -> bool {
    match ty {
        Some(ty) => args.len() == n + 1 && args[n].form == ArgumentForm::Type(ty.text),
        None => args.len() == n,
    }
}

/// The two spellings of a declaration declare the same field, or both declare none.
pub proof fn spellings_agree(by_at: DeclarationView, by_type: DeclarationView)
    requires
        spell_the_same(by_at, by_type),
    ensures
        match (field_of(by_at), field_of(by_type)) {
            (Ok(a), Ok(b)) => a == (Bitfield { text: a.text, ..b }),
            (Err(_), Err(_)) => true,
            _ => false,
        },
{
    reveal_strlit("Bits");
    reveal_strlit("Bit");
    assert("Bits"@.len() != "Bit"@.len());
}

/// The first attribute that is not permitted decides.
proof fn lemma_field_attributes_prefix(attrs: Seq<AttributeDecl<Chars>>, i: int)
    requires
        0 <= i <= attrs.len(),
        field_attributes_of(attrs.take(i)) is Err,
    ensures
        field_attributes_of(attrs) == field_attributes_of(attrs.take(i)),
    decreases attrs.len(),
{
    if i == attrs.len() {
        assert(attrs.take(i) =~= attrs);
    } else {
        assert(attrs.drop_last().take(i) =~= attrs.take(i));
        lemma_field_attributes_prefix(attrs.drop_last(), i);
    }
}

/// Whether an optional text is the given one.
fn reads(t: &Option<String>, s: &str) -> (r: bool)
    ensures
        r == (t.deep_view() == Some(s@)),
{
    match t {
        Some(t) => same(t.as_str(), s),
        None => false,
    }
}

/// Rejects `at` as no declaration of a bitfield.
fn reject(at: &str) -> (e: Error<String>)
    ensures
        e.deep_view() == invalid(at@),
{
    Error::at(INVALID_BITFIELD_DECL_FORM, at)
}

/// Sorts out the attributes of a field: its doc comments, and whether it is unshifted.
pub fn field_attributes(attrs: &Vec<AttributeDecl<String>>) -> (r: Result<
    (Vec<String>, bool),
    Error<String>,
>)
    ensures
        outcome(r) == field_attributes_of(attrs.deep_view()),
{
    let ghost all = attrs.deep_view();
    let mut docs: Vec<String> = Vec::new();
    let mut unshifted = false;
    let mut i: usize = 0;
    proof {
        assert(docs.deep_view() =~= Seq::empty());
    }
    while i < attrs.len()
        invariant
            all == attrs.deep_view(),
            i <= attrs.len(),
            field_attributes_of(all.take(i as int)) == Ok::<_, Error<Chars>>(
                (docs.deep_view(), unshifted),
            ),
        decreases attrs.len() - i,
    {
        let attr = &attrs[i];
        let ghost before = docs.deep_view();
        proof {
            assert(all.take(i + 1).drop_last() =~= all.take(i as int));
            assert(all.take(i + 1).last() == attr.deep_view());
        }
        if reads(&attr.path, "doc") {
            docs.push(attr.text.clone());
            proof {
                assert(docs.deep_view() =~= before.push(attr.text@));
            }
        } else if reads(&attr.path, "unshifted") {
            if unshifted {
                proof {
                    lemma_field_attributes_prefix(all, i + 1);
                }
                return Err(Error::at(DUPLICATE_UNSHIFTED, attr.text.as_str()));
            }
            unshifted = true;
        } else {
            proof {
                lemma_field_attributes_prefix(all, i + 1);
            }
            return Err(Error::at(NO_ATTRIBUTES, attr.text.as_str()));
        }
        i = i + 1;
    }
    proof {
        assert(all.take(i as int) =~= all);
    }
    Ok((docs, unshifted))
}

/// Takes the name of a field from its declaration.
pub fn field_name(d: &Declaration) -> (r: Result<Option<String>, Error<String>>)
    ensures
        outcome(r) == field_name_of(d.deep_view()),
{
    if d.ty.is_none() && d.bits.is_none() {
        return Err(reject(d.text.as_str()));
    }
    match &d.name {
        NameForm::Ident { by_ref, mutable, ident } => {
            if *by_ref {
                Err(reject("ref"))
            } else if *mutable {
                Err(reject("mut"))
            } else if d.bits.is_some() && same(ident.as_str(), "__") {
                Ok(None)
            } else {
                Ok(Some(ident.clone()))
            }
        },
        NameForm::Wild => Ok(None),
        NameForm::Other => Err(reject(d.pat.as_str())),
    }
}

/// Reads a bit position.
pub fn position(digits: &str) -> (r: Result<usize, Error<String>>)
    ensures
        outcome(r) == position_of(digits@),
{
    match read_decimal(digits) {
        Some(n) => Ok(n),
        None => {
            if is_number(digits) {
                Err(Error::at(NUMBER_TOO_LARGE, digits))
            } else {
                Err(Error::at(INVALID_DIGIT, digits))
            }
        },
    }
}

/// Reads the bounds of a range.
pub fn range(high: &str, low: &str, at: &str) -> (r: Result<(usize, usize), Error<String>>)
    ensures
        outcome(r) == range_of(high@, low@, at@),
{
    let h = match position(high) {
        Ok(h) => h,
        Err(e) => {
            return Err(e);
        },
    };
    match position(low) {
        Ok(l) => {
            if h < l {
                Err(Error::at(HIGH_THEN_LOW, at))
            } else {
                Ok((h, l))
            }
        },
        Err(e) => Err(e),
    }
}

/// Reads a generic argument as a bit position.
fn argument_position(arg: &ArgumentDecl<String>) -> (r: Result<usize, Error<String>>)
    ensures
        outcome(r) == argument_position_of(arg.deep_view()),
{
    match &arg.form {
        ArgumentForm::Integer(digits) => position(digits.as_str()),
        _ => Err(reject(arg.text.as_str())),
    }
}

/// Reads the type `Bit<..>` or `Bits<..>`.
pub fn type_bits(ty: &TypeDecl) -> (r: Result<(usize, usize, Option<String>), Error<String>>)
    ensures
        outcome(r) == type_bits_of(ty.deep_view()),
{
    let several = reads(&ty.head, "Bits");
    if !several && !reads(&ty.head, "Bit") {
        return Err(reject(ty.text.as_str()));
    }
    let n: usize = if several {
        2
    } else {
        1
    };
    let args = match &ty.args {
        Some(args) => args,
        None => {
            return Err(reject(ty.text.as_str()));
        },
    };
    if args.len() < n || args.len() > n + 1 {
        return Err(reject(ty.text.as_str()));
    }
    let ghost view = args.deep_view();
    proof {
        assert(view[0] == args[0].deep_view());
        assert(view[n - 1] == args[n - 1].deep_view());
    }
    let h = match argument_position(&args[0]) {
        Ok(h) => h,
        Err(e) => {
            return Err(e);
        },
    };
    let l = match argument_position(&args[n - 1]) {
        Ok(l) => l,
        Err(e) => {
            return Err(e);
        },
    };
    let repr = if args.len() == n {
        None
    } else {
        proof {
            assert(view[n as int] == args[n as int].deep_view());
        }
        match &args[n].form {
            ArgumentForm::Type(t) => Some(t.clone()),
            _ => {
                return Err(reject(args[n].text.as_str()));
            },
        }
    };
    if h < l {
        Err(Error::at(HIGH_THEN_LOW, ty.text.as_str()))
    } else {
        Ok((h, l, repr))
    }
}

/// Takes the bit positions and the representation of a field from its declaration.
pub fn field_bits(d: &Declaration) -> (r: Result<(usize, usize, Option<String>), Error<String>>)
    ensures
        outcome(r) == field_bits_of(d.deep_view()),
{
    let repr = match &d.ty {
        Some(ty) => Some(ty.text.clone()),
        None => None,
    };
    match (&d.bits, &d.ty) {
        (Some(bits), _) => match &bits.form {
            BitsForm::Range { high: Some(high), low: Some(low) } => match range(
                high.as_str(),
                low.as_str(),
                bits.text.as_str(),
            ) {
                Ok((h, l)) => Ok((h, l, repr)),
                Err(e) => Err(e),
            },
            BitsForm::Bit(Some(bit)) => match position(bit.as_str()) {
                Ok(b) => Ok((b, b, repr)),
                Err(e) => Err(e),
            },
            _ => Err(reject(bits.text.as_str())),
        },
        (None, Some(ty)) => type_bits(ty),
        (None, None) => Err(reject(d.text.as_str())),
    }
}

impl Bitfield<String, Vec<String>> {
    /// Whether the field is reserved.
    pub fn is_reserved(&self) -> (r: bool)
        ensures
            r == (self.deep_view().name is None),
    {
        self.name.is_none()
    }

    /// The name of the field in a message, in contracts.
    pub open spec fn display_name_of(f: Field) -> Chars {
        match f.name {
            Some(name) => "`"@ + name + "`"@,
            None => "reserved"@,
        }
    }

    /// The name of the field in a message.
    pub fn display_name(&self) -> (r: String)
        ensures
            r@ == Self::display_name_of(self.deep_view()),
    {
        match &self.name {
            Some(name) => {
                let mut r = "`".to_owned();
                r.append(name.as_str());
                r.append("`");
                r
            },
            None => "reserved".to_owned(),
        }
    }

    /// What the field is called in a message, in contracts.
    pub open spec fn display_kind_of(f: Field) -> Chars {
        if f.width() == 1 {
            "bit"@
        } else {
            "field"@
        }
    }

    /// What the field is called in a message.
    pub fn display_kind(&self) -> (r: &'static str)
        ensures
            r@ == Self::display_kind_of(self.deep_view()),
    {
        if self.high_bit == self.low_bit {
            "bit"
        } else {
            "field"
        }
    }

    /// The bit positions of the field in a message, in contracts.
    pub open spec fn display_range_of(f: Field) -> Chars {
        if f.width() == 1 {
            decimal_of(f.low_bit as nat)
        } else {
            "["@ + decimal_of(f.high_bit as nat) + ":"@ + decimal_of(f.low_bit as nat) + "]"@
        }
    }

    /// The bit positions of the field in a message.
    pub fn display_range(&self) -> (r: String)
        ensures
            r@ == Self::display_range_of(self.deep_view()),
    {
        if self.high_bit == self.low_bit {
            decimal(self.low_bit)
        } else {
            let mut r = "[".to_owned();
            r.append(decimal(self.high_bit).as_str());
            r.append(":");
            r.append(decimal(self.low_bit).as_str());
            r.append("]");
            r
        }
    }

    /// The number of bits of the field.
    pub fn bit_width(&self) -> (r: usize)
        requires
            self.low_bit <= self.high_bit,
            self.deep_view().width() <= usize::MAX,
        ensures
            r == self.deep_view().width(),
    {
        self.high_bit - self.low_bit + 1
    }

    /// The narrowest type that holds a field of the given width, in contracts.
    pub open spec fn minimum_width_of(width: int) -> BaseType {
        if width <= 8 {
            BaseType::U8
        } else if width <= 16 {
            BaseType::U16
        } else if width <= 32 {
            BaseType::U32
        } else if width <= 64 {
            BaseType::U64
        } else {
            BaseType::U128
        }
    }

    /// The narrowest type that holds the field's values. A single bit is a `bool` and has none.
    pub fn minimum_width_integral_type(&self) -> (r: BaseType)
        requires
            2 <= self.deep_view().width() <= 128,
        ensures
            r == Self::minimum_width_of(self.deep_view().width()),
            self.deep_view().width() <= r.bits(),
            forall|narrow: BaseType| #[trigger] narrow.bits() < r.bits() ==> narrow.bits()
                < self.deep_view().width(),
    {
        let width = self.bit_width();
        if width <= 8 {
            BaseType::U8
        } else if width <= 16 {
            BaseType::U16
        } else if width <= 32 {
            BaseType::U32
        } else if width <= 64 {
            BaseType::U64
        } else {
            BaseType::U128
        }
    }

    /// Takes a declaration as a bitfield.
    pub fn from_declaration(d: &Declaration) -> (r: Result<Self, Error<String>>)
        ensures
            outcome(r) == field_of(d.deep_view()),
            r matches Ok(f) ==> f.deep_view().well_formed(),
    {
        let (doc_attrs, unshifted) = match field_attributes(&d.attrs) {
            Ok(attrs) => attrs,
            Err(e) => {
                return Err(e);
            },
        };
        let name = match field_name(d) {
            Ok(name) => name,
            Err(e) => {
                return Err(e);
            },
        };
        let (high_bit, low_bit, repr) = match field_bits(d) {
            Ok(bits) => bits,
            Err(e) => {
                return Err(e);
            },
        };
        let default = match &d.init {
            Some(init) => {
                if init.diverges {
                    return Err(reject(d.text.as_str()));
                }
                Some(init.expr.clone())
            },
            None => None,
        };
        if doc_attrs.len() > 0 && name.is_none() {
            return Err(Error::at(RESERVED_DOC, doc_attrs[0].as_str()));
        }
        if let Some(repr) = &repr {
            if name.is_none() {
                return Err(Error::at(RESERVED_REPR, repr.as_str()));
            }
            if high_bit == low_bit {
                return Err(Error::at(BIT_REPR, repr.as_str()));
            }
        }
        if unshifted && name.is_none() {
            return Err(Error::at(RESERVED_UNSHIFTED, d.pat.as_str()));
        }
        if unshifted {
            if let Some(repr) = &repr {
                return Err(Error::at(REPR_UNSHIFTED, repr.as_str()));
            }
        }
        Ok(
            Bitfield {
                text: d.text.clone(),
                name,
                high_bit,
                low_bit,
                repr,
                doc_attrs,
                unshifted,
                default,
            },
        )
    }

    /// Parses the bitfield at the head of a text, and returns it with what follows it. Tokens
    /// that are left over in a group inside the declaration do not keep it from being read: it
    /// comes with the message about them.
    pub fn parse(text: &str) -> (r: Result<(Self, String, Option<String>), Error<String>>)
        ensures
            outcome(r) == head_field_of(text@),
            r matches Ok((f, rest, late)) ==> f.deep_view().well_formed() && tree_count(rest@)
                < tree_count(text@),
    {
        let stmt = match read_statement(text) {
            Ok(stmt) => stmt,
            Err(message) => {
                return Err(Error::Syntax(message));
            },
        };
        match read_declaration(stmt.text.as_str(), stmt.init) {
            Ok(Some(d)) => match Self::from_declaration(&d) {
                Ok(f) => Ok((f, stmt.rest, stmt.late)),
                Err(e) => Err(e),
            },
            Ok(None) => Err(reject(stmt.text.as_str())),
            Err(message) => Err(Error::Syntax(message)),
        }
    }
}

} // verus!
