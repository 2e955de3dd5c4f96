//! What the text of a word shows, and that the generated formatting prints it.

use crate::display::{
    Notation, entry_text_of, entry_texts_of, indent_of, separator_of, text_of, value_text_of,
};
use crate::layout::LayoutView;
use crate::radix::{Radix, denoted, digits_denote_the_number, digits_of, literal_of};
use crate::register::{RegisterView, register_is_well_formed, register_of};
use crate::syntax::Chars;
use crate::text::concat_of;
use crate::word::bit;
use vstd::prelude::*;

verus! {

/// Whether `c` is a digit in the given radix, in its case.
pub open spec fn is_digit(c: char, radix: Radix) -> bool {
    match radix {
        Radix::Binary => '0' <= c && c <= '1',
        Radix::Octal => '0' <= c && c <= '7',
        Radix::Decimal => '0' <= c && c <= '9',
        Radix::LowerHex => '0' <= c && c <= '9' || 'a' <= c && c <= 'f',
        Radix::UpperHex => '0' <= c && c <= '9' || 'A' <= c && c <= 'F',
    }
}

/// Whether a text is the numeral of a number: digits of the radix that denote it, without a
/// leading zero.
pub open spec fn writes(digits: Chars, n: nat, radix: Radix) -> bool {
    &&& digits.len() > 0
    &&& denoted(digits, radix) == n
    &&& digits[0] == '0' ==> n == 0 && digits.len() == 1
    &&& forall|i: int| 0 <= i < digits.len() ==> is_digit(#[trigger] digits[i], radix)
}

/// The digits of a number are its numeral.
pub proof fn digits_write_the_number(n: nat, radix: Radix)
    ensures
        writes(digits_of(n, radix), n, radix),
    decreases n,
{
    digits_denote_the_number(n, radix);
    let b = radix.base_of();
    if n >= b {
        digits_write_the_number(n / b, radix);
        assert(n / b >= 1) by (nonlinear_arith)
            requires
                n >= b,
                b > 0,
        ;
        assert(n % b < b) by (nonlinear_arith)
            requires
                b > 0,
        ;
        assert(n / b < n) by (nonlinear_arith)
            requires
                n >= b,
                b >= 2,
        ;
    }
}

/// A literal is the prefix of its radix and the numeral.
pub proof fn literals_write_the_number(n: nat, radix: Radix)
    ensures
        writes(digits_of(n, radix), n, radix),
        radix == Radix::Binary ==> literal_of(n, radix) == "0b"@ + digits_of(n, radix),
        radix == Radix::Octal ==> literal_of(n, radix) == "0o"@ + digits_of(n, radix),
        radix == Radix::Decimal ==> literal_of(n, radix) == digits_of(n, radix),
        radix == Radix::LowerHex ==> literal_of(n, radix) == "0x"@ + digits_of(n, radix),
        radix == Radix::UpperHex ==> literal_of(n, radix) == "0x"@ + digits_of(n, radix),
{
    digits_write_the_number(n, radix);
    reveal_strlit("");
    assert(""@ + digits_of(n, radix) =~= digits_of(n, radix));
}

/// The radix in which a notation writes integers.
pub proof fn notations_have_their_radix()
    ensures
        Notation::Debug.radix_of() == Radix::LowerHex,
        Notation::LowerHex.radix_of() == Radix::LowerHex,
        Notation::UpperHex.radix_of() == Radix::UpperHex,
        Notation::Binary.radix_of() == Radix::Binary,
        Notation::Octal.radix_of() == Radix::Octal,
{
}

/// What a field of a word looks like. A single bit is `true` if it is set, else `false`; an
/// unshifted one is the decimal number of the bit in place. A field of more bits is its value in
/// the radix of the notation. A representation writes itself; the bits that it lacks are shown as
/// such.
pub proof fn fields_show_their_values(
    r: RegisterView,
    v: u128,
    i: int,
    radix: Radix,
    custom: Option<Chars>,
)
    requires
        r.well_formed(),
        0 <= i < r.fields.len(),
    ensures
        ({
            let f = r.fields[i];
            let text = value_text_of(r, v, i, radix, custom);
            let one = f.metadata.high_bit == f.metadata.low_bit;
            &&& f.has_repr && custom is Some ==> text == custom->0
            &&& f.has_repr && custom is None ==> text == "InvalidBits("@ + literal_of(
                r.get_of(v, i) as nat,
                radix,
            ) + ")"@
            &&& !f.has_repr && one && !f.unshifted && bit(v, f.metadata.low_bit as int) ==> text
                == "true"@
            &&& !f.has_repr && one && !f.unshifted && !bit(v, f.metadata.low_bit as int) ==> text
                == "false"@
            &&& !f.has_repr && one && f.unshifted ==> writes(
                text,
                r.get_of(v, i) as nat,
                Radix::Decimal,
            )
            &&& !f.has_repr && !one ==> text == literal_of(r.get_of(v, i) as nat, radix)
        }),
{
    literals_write_the_number(r.get_of(v, i) as nat, Radix::Decimal);
}

/// The text of a word: the name, an opening brace, each field as its name and its value with a
/// comma, and a closing brace, parted by a space; with the `#` flag by a new line, and four
/// spaces before each field.
pub proof fn words_show_their_fields(
    r: RegisterView,
    v: u128,
    notation: Notation,
    alternate: bool,
    customs: Seq<Option<Chars>>,
)
    ensures
        ({
            let radix = notation.radix_of();
            let sep = if alternate {
                "\n"@
            } else {
                " "@
            };
            let indent = if alternate {
                "    "@
            } else {
                ""@
            };
            let entries = Seq::new(
                r.fields.len(),
                |i: int|
                    indent + r.fields[i].metadata.name + ": "@ + value_text_of(
                        r,
                        v,
                        i,
                        radix,
                        customs[i],
                    ) + ","@ + sep,
            );
            text_of(r, v, notation, alternate, customs) == r.name + " {"@ + sep + concat_of(entries)
                + "}"@
        }),
{
    let radix = notation.radix_of();
    let sep = separator_of(alternate);
    let indent = indent_of(alternate);
    let entries = Seq::new(
        r.fields.len(),
        |i: int|
            indent + r.fields[i].metadata.name + ": "@ + value_text_of(r, v, i, radix, customs[i])
                + ","@ + sep,
    );
    assert(entry_texts_of(r, v, radix, alternate, customs) =~= entries);
}

/// Where the first closing brace stands, or the end of the text.
pub open spec fn closing(text: Chars) -> int
    decreases text.len(),
{
    if text.len() == 0 || text[0] == '}' {
        0
    } else {
        1 + closing(text.skip(1))
    }
}

/// What a format string without doubled braces prints: the captured `indent` and `sep` by name,
/// and `value` of the specifier for the argument.
pub open spec fn printed(
    format: Chars,
    indent: Chars,
    sep: Chars,
    value: spec_fn(Chars) -> Chars,
) -> Chars
    decreases format.len(),
{
    if format.len() == 0 {
        Seq::empty()
    } else if format[0] == '{' {
        let end = closing(format.skip(1));
        let inner = format.skip(1).take(end);
        (if inner == "indent"@ {
            indent
        } else if inner == "sep"@ {
            sep
        } else {
            value(inner)
        }) + (if 0 <= end && end + 2 <= format.len() {
            printed(format.skip(end + 2), indent, sep, value)
        } else {
            Seq::empty()
        })
    } else {
        seq![format[0]] + printed(format.skip(1), indent, sep, value)
    }
}

/// Whether a text has no brace.
pub open spec fn braceless(text: Chars) -> bool {
    forall|i: int| 0 <= i < text.len() ==> #[trigger] text[i] != '{' && text[i] != '}'
}

/// A part without braces is printed as it is.
proof fn lemma_printed_plain(
    part: Chars,
    rest: Chars,
    indent: Chars,
    sep: Chars,
    value: spec_fn(Chars) -> Chars,
)
    requires
        braceless(part),
    ensures
        printed(part + rest, indent, sep, value) == part + printed(rest, indent, sep, value),
    decreases part.len(),
{
    let all = part + rest;
    if part.len() == 0 {
        assert(all =~= rest);
        assert(part + printed(rest, indent, sep, value) =~= printed(rest, indent, sep, value));
    } else {
        let tail = part.skip(1);
        assert(braceless(tail)) by {
            assert forall|i: int| 0 <= i < tail.len() implies #[trigger] tail[i] != '{' && tail[i]
                != '}' by {
                assert(part[i + 1] != '{' && part[i + 1] != '}');
            }
        }
        lemma_printed_plain(tail, rest, indent, sep, value);
        assert(all.skip(1) =~= tail + rest);
        assert(all[0] == part[0]);
        assert(seq![part[0]] + (tail + printed(rest, indent, sep, value)) =~= part + printed(
            rest,
            indent,
            sep,
            value,
        ));
    }
}

/// The closing brace stands behind what has none.
proof fn lemma_closing(inner: Chars, rest: Chars)
    requires
        braceless(inner),
    ensures
        closing(inner + seq!['}'] + rest) == inner.len(),
    decreases inner.len(),
{
    let all = inner + seq!['}'] + rest;
    if inner.len() == 0 {
        assert(all[0] == '}');
    } else {
        let tail = inner.skip(1);
        assert(braceless(tail)) by {
            assert forall|i: int| 0 <= i < tail.len() implies #[trigger] tail[i] != '{' && tail[i]
                != '}' by {
                assert(inner[i + 1] != '{' && inner[i + 1] != '}');
            }
        }
        lemma_closing(tail, rest);
        assert(all.skip(1) =~= tail + seq!['}'] + rest);
        assert(all[0] == inner[0]);
    }
}

/// What stands in braces is printed by name, or as the argument.
proof fn lemma_printed_braces(
    inner: Chars,
    rest: Chars,
    indent: Chars,
    sep: Chars,
    value: spec_fn(Chars) -> Chars,
)
    requires
        braceless(inner),
    ensures
        printed(seq!['{'] + inner + seq!['}'] + rest, indent, sep, value) == (if inner
            == "indent"@ {
            indent
        } else if inner == "sep"@ {
            sep
        } else {
            value(inner)
        }) + printed(rest, indent, sep, value),
{
    let all = seq!['{'] + inner + seq!['}'] + rest;
    assert(all.skip(1) =~= inner + seq!['}'] + rest);
    lemma_closing(inner, rest);
    assert(all.skip(1).take(inner.len() as int) =~= inner);
    assert(all.skip(inner.len() as int + 2) =~= rest);
}

/// What the format string of a field prints.
proof fn lemma_printed_field(
    name: Chars,
    before: Chars,
    specifier: Chars,
    after: Chars,
    indent: Chars,
    sep: Chars,
    value: spec_fn(Chars) -> Chars,
)
    requires
        braceless(name),
        braceless(before),
        braceless(specifier),
        braceless(after),
        specifier != "indent"@,
        specifier != "sep"@,
    ensures
        printed(
            "{indent}"@ + name + (before + "{"@) + specifier + ("}"@ + after + "{sep}"@),
            indent,
            sep,
            value,
        ) == indent + name + before + value(specifier) + after + sep,
{
    reveal_strlit("{indent}");
    reveal_strlit("{sep}");
    reveal_strlit("{");
    reveal_strlit("}");
    reveal_strlit("indent");
    reveal_strlit("sep");
    let none = Seq::<char>::empty();
    let s5 = seq!['{'] + "sep"@ + seq!['}'] + none;
    let s4 = after + s5;
    let s3 = seq!['{'] + specifier + seq!['}'] + s4;
    let s2 = before + s3;
    let s1 = name + s2;
    let s0 = seq!['{'] + "indent"@ + seq!['}'] + s1;
    assert("{indent}"@ + name + (before + "{"@) + specifier + ("}"@ + after + "{sep}"@) =~= s0);
    lemma_printed_braces("indent"@, s1, indent, sep, value);
    lemma_printed_plain(name, s2, indent, sep, value);
    lemma_printed_plain(before, s3, indent, sep, value);
    lemma_printed_braces(specifier, s4, indent, sep, value);
    lemma_printed_plain(after, s5, indent, sep, value);
    lemma_printed_braces("sep"@, none, indent, sep, value);
    assert("indent"@.len() != "sep"@.len());
    let out = value(specifier);
    assert(indent + (name + (before + (out + (after + (sep + none))))) =~= indent + name + before
        + out + after + sep);
}

/// The specifier of a radix in a format string.
pub open spec fn specifier_for(radix: Radix) -> Chars {
    match radix {
        Radix::Binary => ":#b"@,
        Radix::Octal => ":#o"@,
        Radix::Decimal => ""@,
        Radix::LowerHex => ":#x"@,
        Radix::UpperHex => ":#X"@,
    }
}

/// How std writes an integer by a specifier: `{}` in decimal, and `{:#b}`, `{:#o}`, `{:#x}` and
/// `{:#X}` as literals of their radix.
pub open spec fn integer_by(specifier: Chars, n: nat) -> Chars {
    if specifier == ":#b"@ {
        literal_of(n, Radix::Binary)
    } else if specifier == ":#o"@ {
        literal_of(n, Radix::Octal)
    } else if specifier == ":#x"@ {
        literal_of(n, Radix::LowerHex)
    } else if specifier == ":#X"@ {
        literal_of(n, Radix::UpperHex)
    } else {
        literal_of(n, Radix::Decimal)
    }
}

/// Specifiers differ from each other and from the captured names, and have no brace.
proof fn lemma_specifiers(radix: Radix)
    ensures
        forall|n: nat| #[trigger] integer_by(specifier_for(radix), n) == literal_of(n, radix),
        braceless(specifier_for(radix)),
        specifier_for(radix) != "indent"@,
        specifier_for(radix) != "sep"@,
        specifier_for(radix) != ":#?"@,
{
    reveal_strlit(":#b");
    reveal_strlit(":#o");
    reveal_strlit(":#x");
    reveal_strlit(":#X");
    reveal_strlit(":#?");
    reveal_strlit("");
    reveal_strlit("indent");
    reveal_strlit("sep");
    assert(":#b"@[2] == 'b' && ":#o"@[2] == 'o' && ":#x"@[2] == 'x' && ":#X"@[2] == 'X' && ":#?"@[2]
        == '?' && "sep"@[2] == 'p');
    assert("indent"@.len() == 6);
}

/// The format string that the generated source has for a field without a representation prints
/// what the model shows of it, by every formatting trait.
pub proof fn formats_print_what_the_model_shows(
    layout: LayoutView,
    defaults: Seq<u128>,
    values: Seq<u128>,
    i: int,
    v: u128,
    radix: Radix,
    alternate: bool,
)
    requires
        layout.well_formed(),
        register_of(layout, defaults, values) is Ok,
        0 <= i < layout.named.len(),
        layout.named[i].repr is None,
        braceless(layout.named[i].name->0),
        radix != Radix::Decimal,
    ensures
        ({
            let r = register_of(layout, defaults, values)->Ok_0;
            let f = layout.named[i];
            let name = f.name->0;
            let one = f.high_bit == f.low_bit;
            let specifier = if one {
                ""@
            } else {
                specifier_for(radix)
            };
            let format = "{indent}"@ + name + ": {"@ + specifier + "},{sep}"@;
            let value = |s: Chars|
                if one && !f.unshifted {
                    if bit(v, f.low_bit as int) {
                        "true"@
                    } else {
                        "false"@
                    }
                } else {
                    integer_by(s, r.get_of(v, i) as nat)
                };
            &&& (crate::format::format_field_of(specifier_for(radix)))(f) == concat_of(
                seq![
                    "\n{ write!(f, "@,
                    "\""@ + format + "\""@,
                    ", self."@,
                    name,
                    "())?; }\n"@,
                ],
            )
            &&& printed(format, indent_of(alternate), separator_of(alternate), value)
                == entry_text_of(r, v, i, radix, alternate, None)
        }),
{
    let r = register_of(layout, defaults, values)->Ok_0;
    register_is_well_formed(layout, defaults, values);
    let f = layout.named[i];
    let name = f.name->0;
    let one = f.high_bit == f.low_bit;
    let specifier = if one {
        ""@
    } else {
        specifier_for(radix)
    };
    assert(f.well_formed());
    lemma_specifiers(radix);
    lemma_specifiers(Radix::Decimal);
    let value = |s: Chars|
        if one && !f.unshifted {
            if bit(v, f.low_bit as int) {
                "true"@
            } else {
                "false"@
            }
        } else {
            integer_by(s, r.get_of(v, i) as nat)
        };
    reveal_strlit(": {");
    reveal_strlit(": ");
    reveal_strlit("{");
    reveal_strlit("}");
    reveal_strlit(",");
    reveal_strlit("},{sep}");
    reveal_strlit("{sep}");
    assert(": {"@ =~= ": "@ + "{"@);
    assert("},{sep}"@ =~= "}"@ + ","@ + "{sep}"@);
    lemma_printed_field(
        name,
        ": "@,
        specifier,
        ","@,
        indent_of(alternate),
        separator_of(alternate),
        value,
    );
    crate::source_laws::formatting_of_a_field(specifier_for(radix), f);
    assert(value(specifier) == value_text_of(r, v, i, radix, None));
}

/// The format strings that the generated source has for a field with a representation print what
/// the model shows of it: one for a value of the representation, as that writes it with `{:#?}`,
/// and one for bits that the representation lacks.
pub proof fn formats_print_representations(
    layout: LayoutView,
    defaults: Seq<u128>,
    values: Seq<u128>,
    i: int,
    v: u128,
    radix: Radix,
    alternate: bool,
    custom: Chars,
)
    requires
        layout.well_formed(),
        register_of(layout, defaults, values) is Ok,
        0 <= i < layout.named.len(),
        layout.named[i].repr is Some,
        braceless(layout.named[i].name->0),
        radix != Radix::Decimal,
    ensures
        ({
            let r = register_of(layout, defaults, values)->Ok_0;
            let f = layout.named[i];
            let name = f.name->0;
            let ok = "{indent}"@ + name + ": {"@ + ":#?"@ + "},{sep}"@;
            let err = "{indent}"@ + name + ": InvalidBits({"@ + specifier_for(radix) + "}),{sep}"@;
            let (indent, sep) = (indent_of(alternate), separator_of(alternate));
            &&& (crate::format::format_field_of(specifier_for(radix)))(f) == concat_of(
                seq![
                    "\n{\n    match self."@,
                    name,
                    "() {\n        Ok(value) => write!(f, "@,
                    "\""@ + ok + "\""@,
                    ", value),\n        Err(invalid) => write!(f, "@,
                    "\""@ + err + "\""@,
                    ", invalid.0),\n    }?;\n}\n"@,
                ],
            )
            &&& printed(ok, indent, sep, |s: Chars| custom) == entry_text_of(
                r,
                v,
                i,
                radix,
                alternate,
                Some(custom),
            )
            &&& printed(
                err,
                indent,
                sep,
                |s: Chars| integer_by(s, r.get_of(v, i) as nat),
            ) == entry_text_of(r, v, i, radix, alternate, None)
        }),
{
    let r = register_of(layout, defaults, values)->Ok_0;
    register_is_well_formed(layout, defaults, values);
    let f = layout.named[i];
    let name = f.name->0;
    let (indent, sep) = (indent_of(alternate), separator_of(alternate));
    assert(f.well_formed());
    lemma_specifiers(radix);
    reveal_strlit(":#?");
    reveal_strlit("indent");
    reveal_strlit("sep");
    assert("indent"@.len() == 6 && "sep"@[0] == 's' && ":#?"@[0] == ':');
    reveal_strlit(": {");
    reveal_strlit(": ");
    reveal_strlit("{");
    reveal_strlit("}");
    reveal_strlit(",");
    reveal_strlit("),");
    reveal_strlit(")");
    reveal_strlit("},{sep}");
    reveal_strlit("}),{sep}");
    reveal_strlit("{sep}");
    reveal_strlit(": InvalidBits({");
    reveal_strlit(": InvalidBits(");
    reveal_strlit("InvalidBits(");
    assert(": {"@ =~= ": "@ + "{"@);
    assert("},{sep}"@ =~= "}"@ + ","@ + "{sep}"@);
    assert(": InvalidBits({"@ =~= ": InvalidBits("@ + "{"@);
    assert("}),{sep}"@ =~= "}"@ + "),"@ + "{sep}"@);
    lemma_printed_field(name, ": "@, ":#?"@, ","@, indent, sep, |s: Chars| custom);
    let value = |s: Chars| integer_by(s, r.get_of(v, i) as nat);
    lemma_printed_field(name, ": InvalidBits("@, specifier_for(radix), "),"@, indent, sep, value);
    let literal = literal_of(r.get_of(v, i) as nat, radix);
    assert(value(specifier_for(radix)) == literal);
    assert(indent + name + ": InvalidBits("@ + literal + "),"@ + sep =~= indent + name + ": "@ + (
    "InvalidBits("@ + literal + ")"@) + ","@ + sep);
    crate::source_laws::formatting_of_a_field(specifier_for(radix), f);
}

} // verus!
