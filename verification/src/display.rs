//! What a word looks like in text.

use crate::instance::Instance;
use crate::radix::{Radix, literal, literal_of};
use crate::register::RegisterView;
use crate::syntax::{Chars, Texts};
use crate::text::concat_of;
use crate::word::bit;
use vstd::prelude::*;

verus! {

/// The traits by which a word is formatted.
#[derive(Clone, Copy, Debug, PartialEq, Eq, Structural)]
pub enum Notation {
    Debug,
    Binary,
    LowerHex,
    UpperHex,
    Octal,
}

impl Notation {
    /// How integers are written. `Debug` is `LowerHex`.
    pub open spec fn radix_of(self) -> Radix {
        match self {
            Notation::Binary => Radix::Binary,
            Notation::Debug | Notation::LowerHex => Radix::LowerHex,
            Notation::UpperHex => Radix::UpperHex,
            Notation::Octal => Radix::Octal,
        }
    }

    /// How integers are written.
    pub fn radix(self) -> (r: Radix)
        ensures
            r == self.radix_of(),
    {
        match self {
            Notation::Binary => Radix::Binary,
            Notation::Debug | Notation::LowerHex => Radix::LowerHex,
            Notation::UpperHex => Radix::UpperHex,
            Notation::Octal => Radix::Octal,
        }
    }
}

/// The value of field `i` of a word in text. A field of one bit is no integer in the given
/// radix: it is `true` or `false`, or, if it is unshifted, a decimal number. `custom` is the
/// value of a field with a representation as that writes it, if it has the value.
pub open spec fn value_text_of(
    r: RegisterView,
    v: u128,
    i: int,
    radix: Radix,
    custom: Option<Chars>,
) -> Chars {
    let f = r.fields[i];
    if f.has_repr {
        match custom {
            Some(text) => text,
            None => "InvalidBits("@ + literal_of(r.value_of(v, i) as nat, radix) + ")"@,
        }
    } else if f.is_flag() {
        if bit(v, f.low()) {
            "true"@
        } else {
            "false"@
        }
    } else if f.width() == 1 {
        literal_of(r.get_of(v, i) as nat, Radix::Decimal)
    } else {
        literal_of(r.get_of(v, i) as nat, radix)
    }
}

/// What parts the fields: a space, or a new line.
pub open spec fn separator_of(alternate: bool) -> Chars {
    if alternate {
        "\n"@
    } else {
        " "@
    }
}

/// What stands before a field.
pub open spec fn indent_of(alternate: bool) -> Chars {
    if alternate {
        "    "@
    } else {
        ""@
    }
}

/// The text of field `i` of a word: its name, its value, and what parts it from the next.
pub open spec fn entry_text_of(
    r: RegisterView,
    v: u128,
    i: int,
    radix: Radix,
    alternate: bool,
    custom: Option<Chars>,
) -> Chars {
    indent_of(alternate) + r.fields[i].metadata.name + ": "@ + value_text_of(r, v, i, radix, custom)
        + ","@ + separator_of(alternate)
}

/// The texts of the named fields of a word, the highest first.
pub open spec fn entry_texts_of(
    r: RegisterView,
    v: u128,
    radix: Radix,
    alternate: bool,
    customs: Seq<Option<Chars>>,
) -> Texts {
    Seq::new(
        r.fields.len(),
        |i: int| entry_text_of(r, v, i, radix, alternate, customs[i]),
    )
}

/// The text of a word: the name of its type and, in curly braces, its named fields.
pub open spec fn text_of(
    r: RegisterView,
    v: u128,
    notation: Notation,
    alternate: bool,
    customs: Seq<Option<Chars>>,
) -> Chars {
    r.name + " {"@ + separator_of(alternate) + concat_of(
        entry_texts_of(r, v, notation.radix_of(), alternate, customs),
    ) + "}"@
}

impl<'a> Instance<'a> {
    /// Writes the value of field `i`.
    fn value_text(&self, i: usize, radix: Radix, custom: &Option<String>) -> (r: String)
        requires
            self.well_formed(),
            i < self.register.fields.len(),
        ensures
            r@ == value_text_of(
                self.register.deep_view(),
                self.bits,
                i as int,
                radix,
                custom.deep_view(),
            ),
    {
        let f = &self.register.fields[i];
        proof {
            assert(self.register.deep_view().fields[i as int] == f.deep_view());
        }
        if f.has_repr {
            match custom {
                Some(text) => text.clone(),
                None => {
                    let mut r = "InvalidBits(".to_owned();
                    r.append(literal(self.get(i), radix).as_str());
                    r.append(")");
                    r
                },
            }
        } else if f.metadata.high_bit == f.metadata.low_bit {
            if f.unshifted {
                literal(self.get(i), Radix::Decimal)
            } else if self.get_bit(i) {
                "true".to_owned()
            } else {
                "false".to_owned()
            }
        } else {
            literal(self.get(i), radix)
        }
    }

    /// Formats the word by a trait. `alternate` is whether the `#` flag is given, and `customs`
    /// has, for each field with a representation, its value as that writes it, or `None` if
    /// the representation has no such value.
    pub fn fmt(&self, notation: Notation, alternate: bool, customs: &Vec<Option<String>>) -> (r:
        String)
        requires
            self.well_formed(),
            customs.len() == self.register.fields.len(),
        ensures
            r@ == text_of(
                self.register.deep_view(),
                self.bits,
                notation,
                alternate,
                customs.deep_view(),
            ),
    {
        let ghost rv = self.register.deep_view();
        let ghost given = customs.deep_view();
        let radix = notation.radix();
        let separator = if alternate {
            "\n"
        } else {
            " "
        };
        let indent = if alternate {
            "    "
        } else {
            ""
        };
        let mut r = self.register.name.clone();
        r.append(" {");
        r.append(separator);
        let ghost head = r@;
        let ghost texts = entry_texts_of(rv, self.bits, radix, alternate, given);
        let mut i: usize = 0;
        proof {
            assert(head + concat_of(texts.take(0)) =~= head);
        }
        while i < self.register.fields.len()
            invariant
                self.well_formed(),
                rv == self.register.deep_view(),
                given == customs.deep_view(),
                customs.len() == self.register.fields.len(),
                texts == entry_texts_of(rv, self.bits, radix, alternate, given),
                separator@ == separator_of(alternate),
                indent@ == indent_of(alternate),
                i <= self.register.fields.len(),
                r@ == head + concat_of(texts.take(i as int)),
            decreases self.register.fields.len() - i,
        {
            let ghost before = r@;
            let f = &self.register.fields[i];
            proof {
                assert(rv.fields[i as int] == f.deep_view());
                assert(given[i as int] == customs[i as int].deep_view());
                assert(texts.take(i + 1).drop_last() =~= texts.take(i as int));
                assert(texts.take(i + 1).last() == texts[i as int]);
            }
            r.append(indent);
            r.append(f.metadata.name.as_str());
            r.append(": ");
            r.append(self.value_text(i, radix, &customs[i]).as_str());
            r.append(",");
            r.append(separator);
            proof {
                assert(r@ =~= before + texts[i as int]);
                assert(r@ =~= head + concat_of(texts.take(i + 1)));
            }
            i = i + 1;
        }
        proof {
            assert(texts.take(i as int) =~= texts);
        }
        r.append("}");
        r
    }
}

/// `Debug` and `LowerHex` give the same text.
pub proof fn debug_is_lower_hex(
    r: RegisterView,
    v: u128,
    alternate: bool,
    customs: Seq<Option<Chars>>,
)
    ensures
        text_of(r, v, Notation::Debug, alternate, customs) == text_of(
            r,
            v,
            Notation::LowerHex,
            alternate,
            customs,
        ),
{
}

/// Any two notations give the same text but for the integers of fields of more than one bit:
/// those that have no representation, and those whose representation lacks the value. Both
/// write the same integer there, each in its own radix.
pub proof fn notations_differ_in_wide_integers_alone(
    r: RegisterView,
    v: u128,
    a: Notation,
    b: Notation,
    i: int,
    custom: Option<Chars>,
)
    requires
        r.well_formed(),
        0 <= i < r.fields.len(),
    ensures
        ({
            let f = r.fields[i];
            let x = value_text_of(r, v, i, a.radix_of(), custom);
            let y = value_text_of(r, v, i, b.radix_of(), custom);
            let n = r.get_of(v, i) as nat;
            if f.width() == 1 || f.has_repr && custom is Some {
                x == y
            } else if f.has_repr {
                x == "InvalidBits("@ + literal_of(n, a.radix_of()) + ")"@ && y == "InvalidBits("@
                    + literal_of(n, b.radix_of()) + ")"@
            } else {
                x == literal_of(n, a.radix_of()) && y == literal_of(n, b.radix_of())
            }
        }),
{
}

/// A word's text shows its named fields alone: words that differ in no named field look the
/// same.
pub proof fn text_shows_named_fields_alone(
    r: RegisterView,
    v: u128,
    w: u128,
    notation: Notation,
    alternate: bool,
    customs: Seq<Option<Chars>>,
)
    requires
        r.well_formed(),
        forall|i: int| 0 <= i < r.fields.len() ==> #[trigger] r.get_of(v, i) == r.get_of(w, i),
    ensures
        text_of(r, v, notation, alternate, customs) == text_of(r, w, notation, alternate, customs),
{
    let radix = notation.radix_of();
    let a = entry_texts_of(r, v, radix, alternate, customs);
    let b = entry_texts_of(r, w, radix, alternate, customs);
    assert forall|i: int| 0 <= i < r.fields.len() implies a[i] == b[i] by {
        assert(r.get_of(v, i) == r.get_of(w, i));
        if r.fields[i].is_flag() {
            crate::laws::flag_is_its_bit(r, v, i, true);
            crate::laws::flag_is_its_bit(r, w, i, true);
        }
    }
    assert(a =~= b);
}

} // verus!
