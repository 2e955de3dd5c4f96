//! Why a layout is rejected.

use crate::syntax::Chars;
use vstd::prelude::*;

verus! {

/// Why a layout is rejected. Contracts speak of `Error<Seq<char>>`.
#[derive(Debug, PartialEq, Eq)]
pub enum Error<T> {
    /// The text is not Rust syntax of the expected kind: the parser's message.
    Syntax(T),
    /// The syntax is no layout: what is wrong with it, and the part that is at fault.
    Layout { message: T, at: T },
    /// The named field is a raw identifier, from which no constant can be named.
    RawName(T),
}

impl DeepView for Error<String> {
    type V = Error<Chars>;

    open spec fn deep_view(&self) -> Error<Chars> {
        match self {
            Error::Syntax(m) => Error::Syntax(m@),
            Error::Layout { message, at } => Error::Layout { message: message@, at: at@ },
            Error::RawName(name) => Error::RawName(name@),
        }
    }
}

/// A result as contracts speak of it.
pub open spec fn outcome<T: DeepView>(r: Result<T, Error<String>>) -> Result<T::V, Error<Chars>> {
    match r {
        Ok(t) => Ok(t.deep_view()),
        Err(e) => Err(e.deep_view()),
    }
}

impl Error<String> {
    /// An error in the layout, at the given part of it.
    pub fn at(message: &str, at: &str) -> (r: Self)
        ensures
            r.deep_view() == (Error::Layout { message: message@, at: at@ }),
    {
        Error::Layout { message: message.to_owned(), at: at.to_owned() }
    }

    /// What is wrong, in words.
    pub fn message(&self) -> (r: String)
        ensures
            r@ == (match self.deep_view() {
                Error::Syntax(m) => m,
                Error::Layout { message, at } => message,
                Error::RawName(name) => "\""@ + name + "_MASK\" is not a valid Ident"@,
            }),
    {
        match self {
            Error::Syntax(m) => m.clone(),
            Error::Layout { message, at } => message.clone(),
            Error::RawName(name) => {
                let mut r = "\"".to_owned();
                r.append(name.as_str());
                r.append(RAW_NAME);
                r
            },
        }
    }
}

/// The tail of the message about a field that is named by a raw identifier.
pub const RAW_NAME: &'static str = "_MASK\" is not a valid Ident";

} // verus!
