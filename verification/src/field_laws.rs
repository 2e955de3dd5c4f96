//! Which declarations declare a bitfield, and which one.

use crate::bitfield::{
    Bitfield, Field, field_attributes_of, field_of, head_field_of,
};
use crate::declaration::{
    ArgumentDecl, ArgumentForm, AttributeDecl, BitsForm, DeclarationView, NameForm, TypeDeclView,
    arguments_of, attributes_of, bits_decl_of, declaration_of, name_decl_of, type_decl_of,
};
use crate::error::Error;
use crate::syntax::{
    Argument, Chars, Init, Pattern, Texts, TypeForm, argument_of, attribute_of, integer_of,
    local_of, pattern_of, statement_of, type_of,
};
use crate::text::{decimal_of, number_of};
use vstd::prelude::*;

verus! {

/// Whether an attribute is a doc comment.
pub open spec fn documents() -> spec_fn(AttributeDecl<Chars>) -> bool {
    |a: AttributeDecl<Chars>| a.path == Some("doc"@)
}

/// Whether an attribute is `#[unshifted]`.
pub open spec fn marks_unshifted(a: AttributeDecl<Chars>) -> bool {
    a.path == Some("unshifted"@)
}

/// The texts of the doc comments among attributes, in order.
pub open spec fn docs_among(attrs: Seq<AttributeDecl<Chars>>) -> Texts {
    attrs.filter(documents()).map_values(|a: AttributeDecl<Chars>| a.text)
}

/// Whether each attribute is a doc comment or `#[unshifted]`, and that not twice.
pub open spec fn permitted(attrs: Seq<AttributeDecl<Chars>>) -> bool {
    &&& forall|i: int|
        0 <= i < attrs.len() ==> (documents())(#[trigger] attrs[i]) || marks_unshifted(attrs[i])
    &&& forall|i: int, j: int|
        0 <= i < j < attrs.len() ==> !(marks_unshifted(#[trigger] attrs[i]) && marks_unshifted(
            #[trigger] attrs[j],
        ))
}

/// Whether some attribute is `#[unshifted]`.
pub open spec fn some_unshifted(attrs: Seq<AttributeDecl<Chars>>) -> bool {
    exists|i: int| 0 <= i < attrs.len() && marks_unshifted(#[trigger] attrs[i])
}

/// The attributes of a field: doc comments are kept in order, `#[unshifted]` may stand once, and
/// the first attribute that is not permitted is reported.
pub proof fn attributes_of_a_field(attrs: Seq<AttributeDecl<Chars>>)
    ensures
        match field_attributes_of(attrs) {
            Ok((docs, unshifted)) => permitted(attrs) && docs == docs_among(attrs) && unshifted
                == some_unshifted(attrs),
            Err(e) => exists|n: int|
                #![trigger attrs[n]]
                0 <= n < attrs.len() && permitted(attrs.take(n)) && if marks_unshifted(attrs[n]) {
                    some_unshifted(attrs.take(n)) && e == (Error::Layout {
                        message: "duplicate `#[unshifted]` attribute"@,
                        at: attrs[n].text,
                    })
                } else {
                    !(documents())(attrs[n]) && e == (Error::Layout {
                        message: "attributes are not permitted on individual fields"@,
                        at: attrs[n].text,
                    })
                },
        },
    decreases attrs.len(),
{
    reveal(Seq::filter);
    if attrs.len() == 0 {
        assert(docs_among(attrs) =~= Seq::empty());
    } else {
        let init = attrs.drop_last();
        let last = attrs.last();
        let n = attrs.len() - 1;
        attributes_of_a_field(init);
        assert(attrs.take(n) =~= init);
        reveal_strlit("doc");
        reveal_strlit("unshifted");
        assert("doc"@.len() != "unshifted"@.len());
        match field_attributes_of(init) {
            Ok((docs, unshifted)) => {
                assert(last == attrs[n]);
                if (documents())(last) {
                    assert(docs_among(attrs) =~= docs_among(init).push(last.text));
                } else {
                    assert(docs_among(attrs) =~= docs_among(init));
                }
                if (documents())(last) || marks_unshifted(last) && !unshifted {
                    assert(permitted(attrs)) by {
                        assert forall|i: int| 0 <= i < attrs.len() implies (documents())(
                            #[trigger] attrs[i],
                        ) || marks_unshifted(attrs[i]) by {
                            if i < n {
                                assert((documents())(init[i]) || marks_unshifted(init[i]));
                            }
                        }
                        assert forall|i: int, j: int| 0 <= i < j < attrs.len() implies !(
                        marks_unshifted(#[trigger] attrs[i]) && marks_unshifted(
                            #[trigger] attrs[j],
                        )) by {
                            if j < n {
                                assert(!(marks_unshifted(init[i]) && marks_unshifted(init[j])));
                            } else {
                                assert(init[i] == attrs[i]);
                            }
                        }
                    }
                }
                if some_unshifted(init) {
                    let k = choose|k: int|
                        0 <= k < init.len() && marks_unshifted(#[trigger] init[k]);
                    assert(marks_unshifted(attrs[k]));
                }
                if some_unshifted(attrs) && !marks_unshifted(last) {
                    let k = choose|k: int|
                        0 <= k < attrs.len() && marks_unshifted(#[trigger] attrs[k]);
                    assert(marks_unshifted(init[k]));
                }
            },
            Err(e) => {
                let m = choose|m: int|
                    #![trigger init[m]]
                    0 <= m < init.len() && permitted(init.take(m)) && if marks_unshifted(init[m]) {
                        some_unshifted(init.take(m)) && e == (Error::Layout {
                            message: "duplicate `#[unshifted]` attribute"@,
                            at: init[m].text,
                        })
                    } else {
                        !(documents())(init[m]) && e == (Error::Layout {
                            message: "attributes are not permitted on individual fields"@,
                            at: init[m].text,
                        })
                    };
                assert(init.take(m) =~= attrs.take(m));
                assert(attrs[m] == init[m]);
            },
        }
    }
}

/// Permitted attributes are accepted, and no others.
proof fn lemma_permitted(attrs: Seq<AttributeDecl<Chars>>)
    ensures
        permitted(attrs) <==> field_attributes_of(attrs) is Ok,
        permitted(attrs) ==> field_attributes_of(attrs) == Ok::<_, Error<Chars>>(
            (docs_among(attrs), some_unshifted(attrs)),
        ),
{
    attributes_of_a_field(attrs);
    if permitted(attrs) && field_attributes_of(attrs) is Err {
        let e = field_attributes_of(attrs)->Err_0;
        let n = choose|n: int|
            #![trigger attrs[n]]
            0 <= n < attrs.len() && permitted(attrs.take(n)) && if marks_unshifted(attrs[n]) {
                some_unshifted(attrs.take(n)) && e == (Error::Layout {
                    message: "duplicate `#[unshifted]` attribute"@,
                    at: attrs[n].text,
                })
            } else {
                !(documents())(attrs[n]) && e == (Error::Layout {
                    message: "attributes are not permitted on individual fields"@,
                    at: attrs[n].text,
                })
            };
        assert((documents())(attrs[n]) || marks_unshifted(attrs[n]));
        let before = attrs.take(n);
        let k = choose|k: int| 0 <= k < before.len() && marks_unshifted(#[trigger] before[k]);
        assert(before[k] == attrs[k]);
    }
}

/// The bit position that a numeral denotes, if the machine has it.
pub open spec fn position(digits: Chars) -> Option<int> {
    match number_of(digits) {
        Some(n) if n <= usize::MAX => Some(n as int),
        _ => None,
    }
}

/// The bits that a declaration gives: high bit, low bit and representation.
pub open spec fn declared_bits(d: DeclarationView) -> Option<(int, int, Option<Chars>)> {
    match (d.bits, d.ty) {
        (Some(bits), ty) => {
            let repr = if ty is Some {
                Some(ty->0.text)
            } else {
                None
            };
            match bits.form {
                BitsForm::Range { high: Some(h), low: Some(l) } if position(h) is Some && position(
                    l,
                ) is Some && position(h)->0 >= position(l)->0 => Some(
                    (position(h)->0, position(l)->0, repr),
                ),
                BitsForm::Bit(Some(b)) if position(b) is Some => Some(
                    (position(b)->0, position(b)->0, repr),
                ),
                _ => None,
            }
        },
        (None, Some(ty)) => {
            let args = ty.args->0;
            if ty.args is None {
                None
            } else if ty.head == Some("Bits"@) && (args.len() == 2 || args.len() == 3
                && args[2].form is Type) && args[0].form is Integer && args[1].form is Integer {
                let (h, l) = (
                    position(args[0].form->Integer_0),
                    position(args[1].form->Integer_0),
                );
                if h is Some && l is Some && h->0 >= l->0 {
                    Some(
                        (
                            h->0,
                            l->0,
                            if args.len() == 3 {
                                Some(args[2].form->Type_0)
                            } else {
                                None
                            },
                        ),
                    )
                } else {
                    None
                }
            } else if ty.head == Some("Bit"@) && (args.len() == 1 || args.len() == 2
                && args[1].form is Type) && args[0].form is Integer {
                let b = position(args[0].form->Integer_0);
                if b is Some {
                    Some(
                        (
                            b->0,
                            b->0,
                            if args.len() == 2 {
                                Some(args[1].form->Type_0)
                            } else {
                                None
                            },
                        ),
                    )
                } else {
                    None
                }
            } else {
                None
            }
        },
        (None, None) => None,
    }
}

/// Whether a declaration is one of a reserved field: `_`, or `__` before an `@`.
pub open spec fn declares_reserved(d: DeclarationView) -> bool {
    match d.name {
        NameForm::Ident { ident, .. } => d.bits is Some && ident == "__"@,
        _ => true,
    }
}

/// Whether a declaration binds a plain name or nothing.
pub open spec fn binds_plainly(d: DeclarationView) -> bool {
    match d.name {
        NameForm::Ident { by_ref, mutable, .. } => !by_ref && !mutable,
        NameForm::Wild => true,
        NameForm::Other => false,
    }
}

/// Whether a declaration declares a bitfield.
pub open spec fn declares(d: DeclarationView) -> bool {
    let (high, low, repr) = declared_bits(d)->0;
    &&& permitted(d.attrs)
    &&& binds_plainly(d)
    &&& declared_bits(d) is Some
    &&& d.init is Some ==> !d.init->0.diverges
    &&& declares_reserved(d) ==> docs_among(d.attrs).len() == 0 && !some_unshifted(d.attrs)
        && repr is None
    &&& repr is Some ==> high > low && !some_unshifted(d.attrs)
}

/// A declaration of a plain name, with permitted attributes, valid bits and no `else`, declares a
/// bitfield, unless it documents, marks or represents a reserved field, or represents a single
/// bit or an unshifted field; no other does. The field is what the declaration says.
pub proof fn declarations_declare_fields(d: DeclarationView)
    ensures
        field_of(d) is Ok <==> declares(d),
        !permitted(d.attrs) ==> field_of(d) == Err::<Field, _>(
            field_attributes_of(d.attrs)->Err_0,
        ),
        field_of(d) matches Ok(f) ==> {
            &&& f.text == d.text
            &&& declares_reserved(d) ==> f.name is None
            &&& !declares_reserved(d) ==> f.name == Some(d.name->ident)
            &&& (f.high_bit as int, f.low_bit as int, f.repr) == declared_bits(d)->0
            &&& f.doc_attrs == docs_among(d.attrs)
            &&& f.unshifted == some_unshifted(d.attrs)
            &&& d.init is None ==> f.default is None
            &&& d.init is Some ==> f.default == Some(d.init->0.expr)
        },
{
    lemma_permitted(d.attrs);
    reveal_strlit("Bits");
    reveal_strlit("Bit");
    assert("Bits"@.len() != "Bit"@.len());
}

/// What is reported of a declaration that says all that a bitfield needs but combines what may
/// not stand together.
pub proof fn combinations_that_are_refused(d: DeclarationView)
    requires
        permitted(d.attrs),
        binds_plainly(d),
        declared_bits(d) is Some,
        d.init is Some ==> !d.init->0.diverges,
    ensures
        ({
            let docs = docs_among(d.attrs);
            let (high, low, repr) = declared_bits(d)->0;
            let reserved = declares_reserved(d);
            let unshifted = some_unshifted(d.attrs);
            if reserved && docs.len() > 0 {
                field_of(d) == Err::<Field, _>(
                    Error::Layout {
                        message: "doc comments are not permitted on reserved fields"@,
                        at: docs[0],
                    },
                )
            } else if reserved && repr is Some {
                field_of(d) == Err::<Field, _>(
                    Error::Layout {
                        message:
                            "custom representations are not permitted for reserved fields"@,
                        at: repr->0,
                    },
                )
            } else if repr is Some && high == low {
                field_of(d) == Err::<Field, _>(
                    Error::Layout {
                        message: "custom representations are not permitted for bits"@,
                        at: repr->0,
                    },
                )
            } else if reserved && unshifted {
                field_of(d) == Err::<Field, _>(
                    Error::Layout {
                        message: "`#[unshifted]` is not permitted on reserved fields"@,
                        at: d.pat,
                    },
                )
            } else if repr is Some && unshifted {
                field_of(d) == Err::<Field, _>(
                    Error::Layout {
                        message:
                            "`#[unshifted]` is not permitted on fields with custom representations"@,
                        at: repr->0,
                    },
                )
            } else {
                field_of(d) is Ok
            }
        }),
{
    declarations_declare_fields(d);
    lemma_permitted(d.attrs);
    reveal_strlit("Bits");
    reveal_strlit("Bit");
    assert("Bits"@.len() != "Bit"@.len());
}

/// The message that lists the forms of a declaration.
pub open spec fn forms() -> Chars {
    "bitfield declaration should take one of the following forms:\n* `let $name @ $bit (= $default)?;`\n* `let $name @ $high..$low (: $repr)? (= $default)?;`\n* `let __ @ $bit (= $value)?;`\n* `let __ @ $high..$low (= $value)?;`\n* `let $name: Bit<$bit> (= $default)?;`\n* `let $name: Bits<$high, $low (, $repr)?> (= $default)?;`\n* `let _: Bit<$bit> (= $value)?;`\n* `let _: Bits<$high, $low> (= $value)?;`"@
}

/// That a part of a declaration is refused.
pub open spec fn refusal(message: Chars, at: Chars) -> Result<Field, Error<Chars>> {
    Err(Error::Layout { message, at })
}

/// What is wrong with a numeral that is no bit position.
pub open spec fn fault(digits: Chars) -> Chars {
    if number_of(digits) is Some {
        "number too large to fit in target type"@
    } else {
        "invalid digit found in string"@
    }
}

/// What is reported of a generic argument that is no bit position.
pub open spec fn refused_argument(arg: ArgumentDecl<Chars>) -> Option<Error<Chars>> {
    match arg.form {
        ArgumentForm::Integer(digits) => if position(digits) is Some {
            None
        } else {
            Some(Error::Layout { message: fault(digits), at: digits })
        },
        _ => Some(Error::Layout { message: forms(), at: arg.text }),
    }
}

/// What is reported of names and bits that are not of the listed forms, and where.
pub proof fn forms_that_are_refused(d: DeclarationView)
    requires
        permitted(d.attrs),
    ensures
        d.bits is None && d.ty is None ==> field_of(d) == refusal(forms(), d.text),
        d.bits is Some || d.ty is Some ==> match d.name {
            NameForm::Ident { by_ref: true, .. } => field_of(d) == refusal(forms(), "ref"@),
            NameForm::Ident { by_ref: false, mutable: true, .. } => field_of(d) == refusal(
                forms(),
                "mut"@,
            ),
            NameForm::Other => field_of(d) == refusal(forms(), d.pat),
            _ => true,
        },
        binds_plainly(d) && declared_bits(d) is Some && d.init is Some && d.init->0.diverges
            ==> field_of(d) == refusal(forms(), d.text),
        binds_plainly(d) ==> (d.bits matches Some(bits) ==> match bits.form {
            BitsForm::Range { high: Some(h), low: Some(l) } => {
                &&& position(h) is None ==> field_of(d) == refusal(fault(h), h)
                &&& position(h) is Some && position(l) is None ==> field_of(d) == refusal(
                    fault(l),
                    l,
                )
                &&& position(h) is Some && position(l) is Some && position(h)->0 < position(l)->0
                    ==> field_of(d) == refusal("first high bit, then low"@, bits.text)
            },
            BitsForm::Bit(Some(b)) => position(b) is None ==> field_of(d) == refusal(fault(b), b),
            _ => field_of(d) == refusal(forms(), bits.text),
        }),
        binds_plainly(d) && d.bits is None ==> (d.ty matches Some(ty) ==> {
            let several = ty.head == Some("Bits"@);
            let single = ty.head == Some("Bit"@);
            let n: int = if several {
                2
            } else {
                1
            };
            if !(several || single) || ty.args is None || !(n <= ty.args->0.len() <= n + 1) {
                field_of(d) == refusal(forms(), ty.text)
            } else {
                let args = ty.args->0;
                &&& refused_argument(args[0]) is Some ==> field_of(d) == Err::<Field, _>(
                    refused_argument(args[0])->0,
                )
                &&& refused_argument(args[0]) is None && refused_argument(args[n - 1]) is Some
                    ==> field_of(d) == Err::<Field, _>(refused_argument(args[n - 1])->0)
                &&& refused_argument(args[0]) is None && refused_argument(args[n - 1]) is None ==> {
                    &&& args.len() > n && !(args[n].form is Type) ==> field_of(d) == refusal(
                        forms(),
                        args[n].text,
                    )
                    &&& (args.len() == n || args[n].form is Type) && position(
                        args[0].form->Integer_0,
                    )->0 < position(args[n - 1].form->Integer_0)->0 ==> field_of(d) == refusal(
                        "first high bit, then low"@,
                        ty.text,
                    )
                }
            }
        }),
{
    declarations_declare_fields(d);
    lemma_permitted(d.attrs);
    reveal_strlit("Bits");
    reveal_strlit("Bit");
    assert("Bits"@.len() != "Bit"@.len());
}

/// How a message speaks of a field: by its name in back quotes, or as reserved; as a bit or a
/// field; by its position, or by its bounds in brackets.
pub proof fn fields_in_messages(f: Field)
    ensures
        f.name is Some ==> Bitfield::display_name_of(f) == "`"@ + f.name->0 + "`"@,
        f.name is None ==> Bitfield::display_name_of(f) == "reserved"@,
        f.high_bit == f.low_bit ==> Bitfield::display_kind_of(f) == "bit"@
            && Bitfield::display_range_of(f) == decimal_of(f.low_bit as nat),
        f.high_bit != f.low_bit ==> Bitfield::display_kind_of(f) == "field"@
            && Bitfield::display_range_of(f) == "["@ + decimal_of(f.high_bit as nat) + ":"@
            + decimal_of(f.low_bit as nat) + "]"@,
{
}

/// The field at the head of a text is that of the statement there; what follows the statement is
/// left, and its leftovers are handed on.
pub proof fn fields_are_read_by_statement(text: Chars)
    ensures
        match statement_of(text) {
            Err(message) => head_field_of(text) == Err::<(Field, Chars, Option<Chars>), _>(
                Error::Syntax(message),
            ),
            Ok(stmt) => match declaration_of(stmt.text, stmt.init) {
                Err(message) => head_field_of(text) == Err::<(Field, Chars, Option<Chars>), _>(
                    Error::Syntax(message),
                ),
                Ok(None) => head_field_of(text) == Err::<(Field, Chars, Option<Chars>), _>(
                    Error::Layout { message: forms(), at: stmt.text },
                ),
                Ok(Some(d)) => match field_of(d) {
                    Err(e) => head_field_of(text) == Err::<(Field, Chars, Option<Chars>), _>(e),
                    Ok(f) => head_field_of(text) == Ok::<_, Error<Chars>>(
                        (f, stmt.rest, stmt.late),
                    ),
                },
            },
        },
{
}

/// A declaration has the statement's text, pattern, initializer and attributes.
pub proof fn declarations_keep_the_statement(text: Chars, init: Option<Init<Chars>>)
    ensures
        declaration_of(text, init) matches Ok(Some(d)) ==> {
            let local = local_of(text)->Ok_0->0;
            &&& local_of(text) matches Ok(Some(_))
            &&& d.text == text
            &&& d.init == init
            &&& d.pat == local.pat
            &&& (d.name, d.bits) == name_decl_of(local.pat)
            &&& d.attrs.len() == local.attrs.len()
            &&& forall|i: int|
                0 <= i < local.attrs.len() ==> (#[trigger] d.attrs[i]).text == local.attrs[i]
                    && attribute_of(local.attrs[i]) == Ok::<_, Chars>(d.attrs[i].path)
            &&& d.ty is Some <==> local.ty is Some
            &&& local.ty matches Some(t) ==> type_decl_of(t) == Ok::<_, Chars>(d.ty->0)
        },
        (local_of(text) matches Ok(None)) <==> (declaration_of(text, init) matches Ok(None)),
        local_of(text) matches Err(message) ==> declaration_of(text, init) == Err::<
            Option<DeclarationView>,
            _,
        >(message),
        local_of(text) matches Ok(Some(local)) ==> {
            &&& attributes_of(local.attrs) matches Err(message) ==> declaration_of(text, init)
                == Err::<Option<DeclarationView>, _>(message)
            &&& attributes_of(local.attrs) is Ok && local.ty is Some ==> (type_decl_of(
                local.ty->0,
            ) matches Err(message) ==> declaration_of(text, init) == Err::<
                Option<DeclarationView>,
                _,
            >(message))
            &&& declaration_of(text, init) is Ok <==> attributes_of(local.attrs) is Ok && (
            local.ty is Some ==> type_decl_of(local.ty->0) is Ok)
        },
{
    if let Ok(Some(local)) = local_of(text) {
        attributes_are_read_in_order(local.attrs);
    }
}

/// Attributes are read one by one, and the first that is malformed is reported.
pub proof fn attributes_are_read_in_order(texts: Texts)
    ensures
        match attributes_of(texts) {
            Ok(attrs) => attrs.len() == texts.len() && forall|i: int|
                0 <= i < texts.len() ==> (#[trigger] attrs[i]).text == texts[i] && attribute_of(
                    texts[i],
                ) == Ok::<_, Chars>(attrs[i].path),
            Err(message) => exists|n: int|
                #![trigger texts[n]]
                0 <= n < texts.len() && attribute_of(texts[n]) == Err::<Option<Chars>, _>(message)
                    && forall|i: int| 0 <= i < n ==> attribute_of(#[trigger] texts[i]) is Ok,
        },
    decreases texts.len(),
{
    if texts.len() > 0 {
        let init = texts.drop_last();
        let last = texts.len() - 1;
        attributes_are_read_in_order(init);
        assert(texts[last] == texts.last());
        match attributes_of(init) {
            Ok(attrs) => {
                assert forall|i: int| 0 <= i < last implies attribute_of(
                    #[trigger] texts[i],
                ) is Ok by {
                    assert(attrs[i].text == init[i] && init[i] == texts[i]);
                }
            },
            Err(message) => {
                let n = choose|n: int|
                    #![trigger init[n]]
                    0 <= n < init.len() && attribute_of(init[n]) == Err::<Option<Chars>, _>(message)
                        && forall|i: int| 0 <= i < n ==> attribute_of(#[trigger] init[i]) is Ok;
                assert(texts[n] == init[n]);
                assert forall|i: int| 0 <= i < n implies attribute_of(#[trigger] texts[i]) is Ok by {
                    assert(init[i] == texts[i]);
                }
            },
        }
    }
}

/// A pattern gives a name if it is an identifier, with bit positions if something is bound by an
/// `@`: a literal, or an exclusive range of literals.
pub proof fn patterns_give_names_and_bits(text: Chars)
    ensures
        ({
            let (name, bits) = name_decl_of(text);
            match pattern_of(text) {
                Ok(Pattern::Name { by_ref, mutable, ident, sub }) => {
                    &&& name == (NameForm::Ident { by_ref, mutable, ident })
                    &&& sub is None ==> bits is None
                    &&& sub matches Some(sub) ==> bits == Some(bits_decl_of(sub))
                },
                Ok(Pattern::Wild) => name == NameForm::<Chars>::Wild && bits is None,
                _ => name == NameForm::<Chars>::Other && bits is None,
            }
        }),
        bits_decl_of(text).text == text,
        match pattern_of(text) {
            Ok(Pattern::Range { start, limits, end }) if limits == ".."@ => match bits_decl_of(
                text,
            ).form {
                BitsForm::Range { high, low } => {
                    &&& integer_of(start) matches Ok(digits) ==> high == Some(digits)
                    &&& integer_of(start) is Err ==> high is None
                    &&& integer_of(end) matches Ok(digits) ==> low == Some(digits)
                    &&& integer_of(end) is Err ==> low is None
                },
                _ => false,
            },
            Ok(Pattern::Literal(t)) => match bits_decl_of(text).form {
                BitsForm::Bit(b) => {
                    &&& integer_of(t) matches Ok(digits) ==> b == Some(digits)
                    &&& integer_of(t) is Err ==> b is None
                },
                _ => false,
            },
            _ => bits_decl_of(text).form == BitsForm::<Chars>::Other,
        },
{
}

/// A type has a head if it is a path of one plain segment, and then it has the arguments of that
/// segment: each integer literal, type, or neither.
pub proof fn types_have_plain_heads(text: Chars)
    ensures
        match type_of(text) {
            Err(message) => type_decl_of(text) == Err::<TypeDeclView, _>(message),
            Ok(TypeForm::Path { qualified: false, leading: false, segments, head, args, .. })
                if segments == 1 => {
                &&& type_decl_of(text) matches Ok(ty) ==> {
                    &&& ty.text == text
                    &&& ty.head == Some(head)
                    &&& args is None ==> ty.args is None
                    &&& args matches Some(texts) ==> {
                        &&& ty.args is Some
                        &&& ty.args->0.len() == texts.len()
                        &&& forall|i: int|
                            0 <= i < texts.len() ==> argument_is(
                                #[trigger] ty.args->0[i],
                                texts[i],
                            )
                    }
                }
                &&& args is None ==> type_decl_of(text) is Ok
                &&& args matches Some(texts) ==> {
                    &&& arguments_of(texts) is Ok ==> type_decl_of(text) is Ok
                    &&& arguments_of(texts) matches Err(message) ==> type_decl_of(text) == Err::<
                        TypeDeclView,
                        _,
                    >(message)
                }
            },
            Ok(_) => type_decl_of(text) == Ok::<_, Chars>(
                TypeDeclView { text, head: None, args: None },
            ),
        },
{
    if let Ok(TypeForm::Path { args: Some(texts), .. }) = type_of(text) {
        arguments_are_read_in_order(texts);
    }
}

/// Whether a generic argument is what its text says.
pub open spec fn argument_is(arg: ArgumentDecl<Chars>, text: Chars) -> bool {
    &&& arg.text == text
    &&& match argument_of(text) {
        Ok(Argument::Const(e)) => match integer_of(e) {
            Ok(digits) => arg.form == ArgumentForm::Integer(digits),
            Err(_) => arg.form == ArgumentForm::<Chars>::Other,
        },
        Ok(Argument::Type(t)) => arg.form == ArgumentForm::Type(t),
        Ok(Argument::Other) => arg.form == ArgumentForm::<Chars>::Other,
        Err(_) => false,
    }
}

/// Arguments are read one by one, and the first that is malformed is reported.
pub proof fn arguments_are_read_in_order(texts: Texts)
    ensures
        match arguments_of(texts) {
            Ok(args) => args.len() == texts.len() && forall|i: int|
                0 <= i < texts.len() ==> argument_is(#[trigger] args[i], texts[i]),
            Err(message) => exists|n: int|
                #![trigger texts[n]]
                0 <= n < texts.len() && argument_of(texts[n]) == Err::<Argument<Chars>, _>(message)
                    && forall|i: int| 0 <= i < n ==> argument_of(#[trigger] texts[i]) is Ok,
        },
    decreases texts.len(),
{
    if texts.len() > 0 {
        let init = texts.drop_last();
        let last = texts.len() - 1;
        arguments_are_read_in_order(init);
        assert(texts[last] == texts.last());
        match arguments_of(init) {
            Ok(args) => {
                assert forall|i: int| 0 <= i < last implies argument_of(
                    #[trigger] texts[i],
                ) is Ok by {
                    assert(argument_is(args[i], init[i]) && init[i] == texts[i]);
                }
            },
            Err(message) => {
                let n = choose|n: int|
                    #![trigger init[n]]
                    0 <= n < init.len() && argument_of(init[n]) == Err::<Argument<Chars>, _>(
                        message,
                    ) && forall|i: int| 0 <= i < n ==> argument_of(#[trigger] init[i]) is Ok;
                assert(texts[n] == init[n]);
                assert forall|i: int| 0 <= i < n implies argument_of(#[trigger] texts[i]) is Ok by {
                    assert(init[i] == texts[i]);
                }
            },
        }
    }
}

} // verus!
