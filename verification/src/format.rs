//! The source text of a layout's formatting.

use crate::bitfield::{Bitfield, Field};
use crate::layout::{Layout, LayoutView};
use crate::pieces::{Piece, each};
use crate::syntax::Chars;
use crate::text::{concat_of, fill, fill_of, quoted, quoted_of};
use vstd::prelude::*;

verus! {

/// Formatting a field with a representation: its name, the format of a value that the
/// representation has, and the format of one that it does not have.
pub const FORMAT_REPR: &'static str = "
{
    match self.$0() {
        Ok(value) => write!(f, $1, value),
        Err(invalid) => write!(f, $2, invalid.0),
    }?;
}
";

/// Formatting any other field: its format and its name.
pub const FORMAT_FIELD: &'static str = "
{ write!(f, $0, self.$1())?; }
";

/// The bound on a representation.
pub const FORMAT_BOUND: &'static str = "$0: ::core::fmt::Debug,";

/// The formatting function: its bounds, the type's name, and the formatting of the fields.
pub const FORMAT_FUNCTION: &'static str = "
fn fmt(&self, f: &mut ::core::fmt::Formatter<'_>) -> ::core::fmt::Result
$0
{
    let (sep, indent) = if f.alternate() {
        ('\\n', \"    \")
    } else {
        (' ', \"\")
    };
    write!(f, \"{} {{{sep}\", $1)?;
    $2
    write!(f, \"}}\")
}
";

/// The implementations of the formatting traits: the type's name, and the formatting
/// functions for binary, lower hex, upper hex and octal.
pub const FORMAT_IMPLS: &'static str = "
impl ::core::fmt::Debug for $0 {
    fn fmt(&self, f: &mut ::core::fmt::Formatter<'_>) -> ::core::fmt::Result {
        ::core::fmt::LowerHex::fmt(self, f)
    }
}

impl ::core::fmt::Binary for $0 {
    $1
}

impl ::core::fmt::LowerHex for $0 {
    $2
}

impl ::core::fmt::UpperHex for $0 {
    $3
}

impl ::core::fmt::Octal for $0 {
    $4
}
";

/// The format of a field: its name, what comes before the specifier, the specifier, and what
/// comes after it.
pub open spec fn field_format_of(
    name: Chars,
    before: Chars,
    specifier: Chars,
    after: Chars,
) -> Chars {
    quoted_of("{indent}"@ + name + before + specifier + after)
}

/// Writes the format of a field.
fn field_format(name: &str, before: &str, specifier: &str, after: &str) -> (r: String)
    ensures
        r@ == field_format_of(name@, before@, specifier@, after@),
{
    let mut r = "{indent}".to_owned();
    r.append(name);
    r.append(before);
    r.append(specifier);
    r.append(after);
    quoted(r.as_str())
}

/// The specifier of a field: a single bit has none.
pub open spec fn specifier_of(f: Field, specifier: Chars) -> Chars {
    if f.width() == 1 {
        ""@
    } else {
        specifier
    }
}

/// The formatting of a named field.
pub open spec fn format_field_of(specifier: Chars) -> spec_fn(Field) -> Chars {
    |f: Field|
        {
            let name = f.name->0;
            let specifier = specifier_of(f, specifier);
            match f.repr {
                Some(_) => fill_of(
                    FORMAT_REPR@,
                    seq![
                        name,
                        field_format_of(name, ": {"@, ":#?"@, "},{sep}"@),
                        field_format_of(name, ": InvalidBits({"@, specifier, "}),{sep}"@),
                    ],
                ),
                None => fill_of(
                    FORMAT_FIELD@,
                    seq![field_format_of(name, ": {"@, specifier, "},{sep}"@), name],
                ),
            }
        }
}

/// Writes the formatting of named fields with the given specifier.
struct FormatFields<'a>(&'a str);

impl<'a> Piece for FormatFields<'a> {
    closed spec fn admits(&self, f: Field) -> bool {
        f.name is Some && f.well_formed()
    }

    closed spec fn of(&self) -> spec_fn(Field) -> Chars {
        format_field_of(self.0@)
    }

    fn write(&self, f: &Bitfield<String, Vec<String>>) -> (r: String) {
        let name = f.name.as_ref().unwrap().as_str();
        let specifier = if f.high_bit == f.low_bit {
            ""
        } else {
            self.0
        };
        match &f.repr {
            Some(_) => {
                let ok = field_format(name, ": {", ":#?", "},{sep}");
                let err = field_format(name, ": InvalidBits({", specifier, "}),{sep}");
                let args = vec![name, ok.as_str(), err.as_str()];
                proof {
                    assert(args.deep_view() =~= seq![name@, ok@, err@]);
                }
                fill(FORMAT_REPR, &args)
            },
            None => {
                let format = field_format(name, ": {", specifier, "},{sep}");
                let args = vec![format.as_str(), name];
                proof {
                    assert(args.deep_view() =~= seq![format@, name@]);
                }
                fill(FORMAT_FIELD, &args)
            },
        }
    }
}

/// The bound on a field's representation, if it has one.
pub open spec fn bound_of() -> spec_fn(Field) -> Chars {
    |f: Field|
        match f.repr {
            Some(repr) => fill_of(FORMAT_BOUND@, seq![repr]),
            None => ""@,
        }
}

/// Writes the bounds on representations.
struct Bounds;

impl Piece for Bounds {
    closed spec fn admits(&self, f: Field) -> bool {
        true
    }

    closed spec fn of(&self) -> spec_fn(Field) -> Chars {
        bound_of()
    }

    fn write(&self, f: &Bitfield<String, Vec<String>>) -> (r: String) {
        match &f.repr {
            Some(repr) => {
                let args = vec![repr.as_str()];
                proof {
                    assert(args.deep_view() =~= seq![repr@]);
                }
                fill(FORMAT_BOUND, &args)
            },
            None => "".to_owned(),
        }
    }
}

/// Whether some field has a representation.
pub open spec fn some_repr(fields: Seq<Field>) -> bool {
    exists|i: int| 0 <= i < fields.len() && (#[trigger] fields[i]).repr is Some
}

/// Looks for a field with a representation.
fn find_repr(fields: &Vec<Bitfield<String, Vec<String>>>) -> (r: bool)
    ensures
        r == some_repr(fields.deep_view()),
{
    let ghost all = fields.deep_view();
    let mut i: usize = 0;
    while i < fields.len()
        invariant
            all == fields.deep_view(),
            i <= fields.len(),
            forall|j: int| 0 <= j < i ==> (#[trigger] all[j]).repr is None,
        decreases fields.len() - i,
    {
        proof {
            assert(all[i as int] == fields[i as int].deep_view());
        }
        if fields[i].repr.is_some() {
            return true;
        }
        i = i + 1;
    }
    false
}

/// The bounds on the representations of a layout's fields, if there are any.
pub open spec fn bounds_of(fields: Seq<Field>) -> Chars {
    if some_repr(fields) {
        "where "@ + concat_of(fields.map_values(bound_of()))
    } else {
        ""@
    }
}

/// The formatting function of a layout with the given specifier.
pub open spec fn fmt_fn_of(layout: LayoutView, specifier: Chars) -> Chars {
    fill_of(
        FORMAT_FUNCTION@,
        seq![
            bounds_of(layout.named),
            quoted_of(layout.ty.ident),
            concat_of(layout.named.map_values(format_field_of(specifier))),
        ],
    )
}

/// The implementations of the formatting traits.
pub open spec fn fmt_impls_of(layout: LayoutView) -> Chars {
    fill_of(
        FORMAT_IMPLS@,
        seq![
            layout.ty.ident,
            fmt_fn_of(layout, ":#b"@),
            fmt_fn_of(layout, ":#x"@),
            fmt_fn_of(layout, ":#X"@),
            fmt_fn_of(layout, ":#o"@),
        ],
    )
}

impl Layout {
    /// Writes the function that formats a word field by field, with the given specifier for
    /// every field of more than one bit.
    pub fn fmt_fn(&self, integral_specifier: &str) -> (r: String)
        requires
            self.deep_view().well_formed(),
        ensures
            r@ == fmt_fn_of(self.deep_view(), integral_specifier@),
    {
        let bounds = if find_repr(&self.named) {
            let mut bounds = "where ".to_owned();
            bounds.append(each(&Bounds, &self.named).as_str());
            bounds
        } else {
            "".to_owned()
        };
        let ident = quoted(self.ty.ident.as_str());
        let fields = each(&FormatFields(integral_specifier), &self.named);
        let args = vec![bounds.as_str(), ident.as_str(), fields.as_str()];
        proof {
            assert(args.deep_view() =~= seq![bounds@, ident@, fields@]);
        }
        fill(FORMAT_FUNCTION, &args)
    }

    /// Writes the implementations of the formatting traits: `Debug` formats as `LowerHex`.
    pub fn fmt_impls(&self) -> (r: String)
        requires
            self.deep_view().well_formed(),
        ensures
            r@ == fmt_impls_of(self.deep_view()),
    {
        let lower_hex = self.fmt_fn(":#x");
        let upper_hex = self.fmt_fn(":#X");
        let binary = self.fmt_fn(":#b");
        let octal = self.fmt_fn(":#o");
        let args = vec![
            self.ty.ident.as_str(),
            binary.as_str(),
            lower_hex.as_str(),
            upper_hex.as_str(),
            octal.as_str(),
        ];
        proof {
            assert(args.deep_view() =~= seq![
                self.ty.ident@,
                binary@,
                lower_hex@,
                upper_hex@,
                octal@,
            ]);
        }
        fill(FORMAT_IMPLS, &args)
    }
}

} // verus!
