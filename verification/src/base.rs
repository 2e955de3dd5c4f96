//! The integral type under a layout.

use crate::error::{Error, outcome};
use crate::syntax::{Chars, Texts, TypeForm, read_trees, read_type, trees_of, type_of};
use crate::text::same;
use vstd::prelude::*;

verus! {

/// The message about a base type that is not supported.
pub const INVALID_BASE_TYPE: &'static str = "base type must be an unsigned integral type";

/// An unsigned integral type.
#[derive(Clone, Copy, Debug, PartialEq, Eq, Structural)]
pub enum BaseType {
    U8,
    U16,
    U32,
    U64,
    U128,
}

impl BaseType {
    /// The number of bits.
    pub open spec fn bits(self) -> nat {
        match self {
            BaseType::U8 => 8,
            BaseType::U16 => 16,
            BaseType::U32 => 32,
            BaseType::U64 => 64,
            BaseType::U128 => 128,
        }
    }

    /// The position of the highest bit.
    pub fn high_bit(&self) -> (r: usize)
        ensures
            r == self.bits() - 1,
    {
        match *self {
            BaseType::U8 => 7,
            BaseType::U16 => 15,
            BaseType::U32 => 31,
            BaseType::U64 => 63,
            BaseType::U128 => 127,
        }
    }

    /// The type that `name` names.
    pub open spec fn named(name: Chars) -> Option<BaseType> {
        if name == "u8"@ {
            Some(BaseType::U8)
        } else if name == "u16"@ {
            Some(BaseType::U16)
        } else if name == "u32"@ {
            Some(BaseType::U32)
        } else if name == "u64"@ {
            Some(BaseType::U64)
        } else if name == "u128"@ {
            Some(BaseType::U128)
        } else {
            None
        }
    }

    /// Finds the type of the given name.
    pub fn from_name(name: &str) -> (r: Option<BaseType>)
        ensures
            r == BaseType::named(name@),
    {
        if same(name, "u8") {
            Some(BaseType::U8)
        } else if same(name, "u16") {
            Some(BaseType::U16)
        } else if same(name, "u32") {
            Some(BaseType::U32)
        } else if same(name, "u64") {
            Some(BaseType::U64)
        } else if same(name, "u128") {
            Some(BaseType::U128)
        } else {
            None
        }
    }

    /// The name of the type, in contracts.
    pub open spec fn name_of(self) -> Chars {
        match self {
            BaseType::U8 => "u8"@,
            BaseType::U16 => "u16"@,
            BaseType::U32 => "u32"@,
            BaseType::U64 => "u64"@,
            BaseType::U128 => "u128"@,
        }
    }

    /// The name of the type.
    pub fn name(&self) -> (r: &'static str)
        ensures
            r@ == self.name_of(),
    {
        match *self {
            BaseType::U8 => "u8",
            BaseType::U16 => "u16",
            BaseType::U32 => "u32",
            BaseType::U64 => "u64",
            BaseType::U128 => "u128",
        }
    }
}

/// The base type of a layout, as it is written and as it is meant.
pub struct BaseTypeDef<T> {
    pub def: T,
    pub ty: BaseType,
}

impl DeepView for BaseTypeDef<String> {
    type V = BaseTypeDef<Chars>;

    open spec fn deep_view(&self) -> BaseTypeDef<Chars> {
        BaseTypeDef { def: self.def@, ty: self.ty }
    }
}

/// The base type that the type `def` of the given form is.
pub open spec fn base_of_form(def: Chars, form: TypeForm<Chars, Texts>) -> Result<
    BaseTypeDef<Chars>,
    Error<Chars>,
> {
    match form {
        TypeForm::Path { qualified: false, text, .. } if BaseType::named(text) is Some => Ok(
            BaseTypeDef { def, ty: BaseType::named(text)->0 },
        ),
        _ => Err(Error::Layout { message: INVALID_BASE_TYPE@, at: def }),
    }
}

/// The base type that the text `def` denotes. It is a single token.
pub open spec fn base_of(def: Chars) -> Result<BaseTypeDef<Chars>, Error<Chars>> {
    match (type_of(def), trees_of(def)) {
        (Err(message), _) => Err(Error::Syntax(message)),
        (Ok(_), Err(message)) => Err(Error::Syntax(message)),
        (Ok(form), Ok(trees)) => if trees.len == 1 {
            base_of_form(def, form)
        } else {
            Err(Error::Layout { message: INVALID_BASE_TYPE@, at: def })
        },
    }
}

impl BaseTypeDef<String> {
    /// Takes a type as a base type: it must be a single identifier that names one.
    pub fn from_form(def: &str, form: &TypeForm<String, Vec<String>>) -> (r: Result<
        Self,
        Error<String>,
    >)
        ensures
            outcome(r) == base_of_form(def@, form.deep_view()),
    {
        if let TypeForm::Path { qualified: false, text, .. } = form {
            if let Some(ty) = BaseType::from_name(text.as_str()) {
                return Ok(BaseTypeDef { def: def.to_owned(), ty });
            }
        }
        Err(Error::at(INVALID_BASE_TYPE, def))
    }

    /// Reads a type and takes it as a base type.
    pub fn try_from(def: &str) -> (r: Result<Self, Error<String>>)
        ensures
            outcome(r) == base_of(def@),
    {
        let form = match read_type(def) {
            Ok(form) => form,
            Err(message) => {
                return Err(Error::Syntax(message));
            },
        };
        match read_trees(def) {
            Ok(trees) => {
                if trees.len == 1 {
                    Self::from_form(def, &form)
                } else {
                    Err(Error::at(INVALID_BASE_TYPE, def))
                }
            },
            Err(message) => Err(Error::Syntax(message)),
        }
    }
}

} // verus!
