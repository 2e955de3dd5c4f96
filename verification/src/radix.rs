//! Integers in text.

use crate::syntax::Chars;
use vstd::prelude::*;

verus! {

/// How an integer is written.
#[derive(Clone, Copy, Debug, PartialEq, Eq, Structural)]
pub enum Radix {
    Binary,
    Octal,
    Decimal,
    LowerHex,
    UpperHex,
}

impl Radix {
    /// The base of the digits.
    pub open spec fn base_of(self) -> nat {
        match self {
            Radix::Binary => 2,
            Radix::Octal => 8,
            Radix::Decimal => 10,
            Radix::LowerHex | Radix::UpperHex => 16,
        }
    }

    /// What stands before the digits.
    pub open spec fn prefix_of(self) -> Chars {
        match self {
            Radix::Binary => "0b"@,
            Radix::Octal => "0o"@,
            Radix::Decimal => ""@,
            Radix::LowerHex | Radix::UpperHex => "0x"@,
        }
    }

    /// The base of the digits.
    fn base(self) -> (r: u128)
        ensures
            r == self.base_of(),
    {
        match self {
            Radix::Binary => 2,
            Radix::Octal => 8,
            Radix::Decimal => 10,
            Radix::LowerHex | Radix::UpperHex => 16,
        }
    }

    /// What stands before the digits.
    fn prefix(self) -> (r: &'static str)
        ensures
            r@ == self.prefix_of(),
    {
        match self {
            Radix::Binary => "0b",
            Radix::Octal => "0o",
            Radix::Decimal => "",
            Radix::LowerHex | Radix::UpperHex => "0x",
        }
    }
}

/// The digit of value `d`.
pub open spec fn digit_of(d: nat, radix: Radix) -> char {
    if d < 10 {
        ('0' as nat + d) as char
    } else if radix == Radix::UpperHex {
        ('A' as nat + d - 10) as char
    } else {
        ('a' as nat + d - 10) as char
    }
}

/// The digits of `n`, without leading zeros.
pub open spec fn digits_of(n: nat, radix: Radix) -> Chars
    decreases n,
{
    if n < radix.base_of() {
        seq![digit_of(n, radix)]
    } else {
        digits_of(n / radix.base_of(), radix).push(digit_of(n % radix.base_of(), radix))
    }
}

/// The literal of `n`: a prefix and the digits.
pub open spec fn literal_of(n: nat, radix: Radix) -> Chars {
    radix.prefix_of() + digits_of(n, radix)
}

/// The value of a digit.
pub open spec fn digit_value(c: char) -> int {
    if '0' <= c && c <= '9' {
        c as int - '0' as int
    } else if 'A' <= c && c <= 'F' {
        c as int - 'A' as int + 10
    } else {
        c as int - 'a' as int + 10
    }
}

/// The number that digits denote.
pub open spec fn denoted(digits: Chars, radix: Radix) -> int
    decreases digits.len(),
{
    if digits.len() == 0 {
        0
    } else {
        denoted(digits.drop_last(), radix) * radix.base_of() + digit_value(digits.last())
    }
}

/// The digits of a number denote it.
pub proof fn digits_denote_the_number(n: nat, radix: Radix)
    ensures
        denoted(digits_of(n, radix), radix) == n,
    decreases n,
{
    reveal_with_fuel(denoted, 2);
    let b = radix.base_of();
    if n < b {
        assert(seq![digit_of(n, radix)].drop_last() =~= Seq::empty());
    } else {
        digits_denote_the_number(n / b, radix);
        let d = digits_of(n / b, radix);
        assert(d.push(digit_of(n % b, radix)).drop_last() =~= d);
        assert((n / b) * b + n % b == n) by (nonlinear_arith)
            requires
                b > 0,
        ;
    }
}

/// Writes the digits of a number.
fn digits(n: u128, radix: Radix) -> (r: String)
    ensures
        r@ == digits_of(n as nat, radix),
    decreases n,
{
    let base = radix.base();
    let d = (n % base) as u8;
    let c = if d < 10 {
        (48 + d) as char
    } else if radix == Radix::UpperHex {
        (55 + d) as char
    } else {
        (87 + d) as char
    };
    let mut r = if n < base {
        String::new()
    } else {
        digits(n / base, radix)
    };
    r.push(c);
    proof {
        assert(Seq::<char>::empty().push(c) =~= seq![c]);
    }
    r
}

/// Writes the literal of a number.
pub fn literal(n: u128, radix: Radix) -> (r: String)
    ensures
        r@ == literal_of(n as nat, radix),
{
    let mut r = radix.prefix().to_owned();
    r.append(digits(n, radix).as_str());
    r
}

} // verus!
