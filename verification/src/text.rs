//! Text: comparison, decimal numerals, and templates with numbered holes.

use vstd::prelude::*;

verus! {

/// `String::push` appends the given character to the end of the string.
pub assume_specification[ String::push ](s: &mut String, c: char)
    ensures
        final(s)@ == old(s)@.push(c),
;

/// `str::to_uppercase` applied to `s`.
pub uninterp spec fn uppercase_of(s: Seq<char>) -> Seq<char>;

/// Calls `str::to_uppercase`. The result is the upper case form of the text under Unicode's
/// mapping, which depends on the text alone; the mapping itself is not stated.
#[verifier::external_body]
pub(crate) fn uppercase(s: &str) -> (r: String)
    ensures
        r@ == uppercase_of(s@),
{
    s.to_uppercase()
}

/// Whether two texts are the same.
pub fn same(a: &str, b: &str) -> (r: bool)
    ensures
        r == (a@ == b@),
{
    a.to_owned() == b.to_owned()
}

/// The characters of a text.
pub fn characters(s: &str) -> (r: Vec<char>)
    ensures
        r@ == s@,
{
    let mut r: Vec<char> = Vec::new();
    for c in it: s.chars()
        invariant
            it.seq() == s@,
            r@ == s@.take(it.index()),
    {
        r.push(c);
        proof {
            assert(s@.take(it.index() + 1) =~= s@.take(it.index()).push(c));
        }
    }
    proof {
        assert(s@.take(s@.len() as int) =~= s@);
    }
    r
}

/// The concatenation of `parts`.
pub open spec fn concat_of(parts: Seq<Seq<char>>) -> Seq<char>
    decreases parts.len(),
{
    if parts.len() == 0 {
        Seq::empty()
    } else {
        concat_of(parts.drop_last()) + parts.last()
    }
}

/// Concatenates `parts`.
pub fn concat_all(parts: &Vec<String>) -> (r: String)
    ensures
        r@ == concat_of(parts.deep_view()),
{
    let mut r = String::new();
    let mut i: usize = 0;
    while i < parts.len()
        invariant
            i <= parts.len(),
            r@ == concat_of(parts.deep_view().take(i as int)),
        decreases parts.len() - i,
    {
        r.append(parts[i].as_str());
        proof {
            assert(parts.deep_view().take(i + 1).drop_last() =~= parts.deep_view().take(i as int));
        }
        i = i + 1;
    }
    proof {
        assert(parts.deep_view().take(i as int) =~= parts.deep_view());
    }
    r
}

/// Concatenates two texts.
pub fn join(a: &str, b: &str) -> (r: String)
    ensures
        r@ == a@ + b@,
{
    let mut r = a.to_owned();
    r.append(b);
    r
}

/// The character of the digit `d`.
pub open spec fn digit_char(d: nat) -> char
    recommends
        d < 10,
{
    ('0' as nat + d) as char
}

/// The decimal numeral of `n`, without leading zeros.
pub open spec fn decimal_of(n: nat) -> Seq<char>
    decreases n,
{
    if n < 10 {
        seq![digit_char(n)]
    } else {
        decimal_of(n / 10).push(digit_char(n % 10))
    }
}

/// Writes `n` in decimal.
pub fn decimal(n: usize) -> (r: String)
    ensures
        r@ == decimal_of(n as nat),
    decreases n,
{
    let d = (48 + (n % 10) as u8) as char;
    let mut r = if n < 10 {
        String::new()
    } else {
        decimal(n / 10)
    };
    r.push(d);
    proof {
        assert(Seq::<char>::empty().push(d) =~= seq![d]);
    }
    r
}

/// The literal of `n` as a `usize`, with its suffix.
pub open spec fn suffixed_of(n: nat) -> Seq<char> {
    decimal_of(n) + "usize"@
}

/// Writes `n` as a literal with its suffix.
pub fn suffixed(n: usize) -> (r: String)
    ensures
        r@ == suffixed_of(n as nat),
{
    join(decimal(n).as_str(), "usize")
}

/// The string literal of a text that needs no escapes.
pub open spec fn quoted_of(s: Seq<char>) -> Seq<char> {
    "\""@ + s + "\""@
}

/// Writes a text that needs no escapes as a string literal.
pub fn quoted(s: &str) -> (r: String)
    ensures
        r@ == quoted_of(s@),
{
    let mut r = "\"".to_owned();
    r.append(s);
    r.append("\"");
    r
}

/// The number that a string of decimal digits denotes, where every character is one.
pub open spec fn number_of(digits: Seq<char>) -> Option<nat>
    decreases digits.len(),
{
    if digits.len() == 0 {
        Some(0)
    } else {
        match number_of(digits.drop_last()) {
            Some(n) if '0' <= digits.last() && digits.last() <= '9' => Some(
                n * 10 + (digits.last() as nat - '0' as nat) as nat,
            ),
            _ => None,
        }
    }
}

/// The number that `digits` denotes, if it is one and fits.
pub open spec fn index_of_digits(digits: Seq<char>) -> Option<usize> {
    match number_of(digits) {
        Some(n) if n <= usize::MAX => Some(n as usize),
        _ => None,
    }
}

/// A longer numeral denotes no smaller number.
proof fn lemma_number_grows(digits: Seq<char>, i: int)
    requires
        0 <= i <= digits.len(),
        number_of(digits) is Some,
    ensures
        number_of(digits.take(i)) is Some,
        number_of(digits.take(i))->0 <= number_of(digits)->0,
    decreases digits.len(),
{
    if i == digits.len() {
        assert(digits.take(i) =~= digits);
    } else {
        lemma_number_grows(digits.drop_last(), i);
        assert(digits.drop_last().take(i) =~= digits.take(i));
    }
}

/// Reads a numeral; `None` if it is not one, or exceeds `usize::MAX`.
pub fn read_decimal(digits: &str) -> (r: Option<usize>)
    ensures
        r == index_of_digits(digits@),
{
    let chars = characters(digits);
    let mut n: usize = 0;
    let mut i: usize = 0;
    while i < chars.len()
        invariant
            chars@ == digits@,
            i <= chars.len(),
            number_of(digits@.take(i as int)) == Some(n as nat),
        decreases chars.len() - i,
    {
        let c = chars[i];
        proof {
            let next = digits@.take(i + 1);
            assert(next.drop_last() =~= digits@.take(i as int));
            assert(next.last() == c);
            if number_of(digits@) is Some {
                lemma_number_grows(digits@, i + 1);
            }
        }
        if c < '0' || '9' < c {
            return None;
        }
        let d: usize = (c as u32 - 48) as usize;
        if n > usize::MAX / 10 || n * 10 > usize::MAX - d {
            return None;
        }
        n = n * 10 + d;
        i = i + 1;
    }
    proof {
        assert(digits@.take(i as int) =~= digits@);
    }
    Some(n)
}

/// Whether a text consists of decimal digits.
pub fn is_number(digits: &str) -> (r: bool)
    ensures
        r == (number_of(digits@) is Some),
{
    let chars = characters(digits);
    let mut i: usize = 0;
    while i < chars.len()
        invariant
            chars@ == digits@,
            i <= chars.len(),
            number_of(digits@.take(i as int)) is Some,
        decreases chars.len() - i,
    {
        proof {
            assert(digits@.take(i + 1).drop_last() =~= digits@.take(i as int));
        }
        if chars[i] < '0' || '9' < chars[i] {
            proof {
                if number_of(digits@) is Some {
                    lemma_number_grows(digits@, i + 1);
                }
            }
            return false;
        }
        i = i + 1;
    }
    proof {
        assert(digits@.take(i as int) =~= digits@);
    }
    true
}

/// The number of the hole that `$c` marks.
pub open spec fn hole_of(c: char) -> int {
    c as int - '0' as int
}

/// Whether `template` begins with a hole that one of `n` arguments fills.
pub open spec fn at_hole(template: Seq<char>, n: nat) -> bool {
    template.len() >= 2 && template[0] == '$' && 0 <= hole_of(template[1]) < 10 && hole_of(
        template[1],
    ) < n
}

/// `template` with each `$d` replaced by `args[d]`, where `d` is a digit that numbers an
/// argument.
pub open spec fn fill_of(template: Seq<char>, args: Seq<Seq<char>>) -> Seq<char>
    decreases template.len(),
{
    if template.len() == 0 {
        Seq::empty()
    } else if at_hole(template, args.len()) {
        args[hole_of(template[1])] + fill_of(template.skip(2), args)
    } else {
        seq![template[0]] + fill_of(template.skip(1), args)
    }
}

/// Fills the holes of a template.
pub fn fill(template: &str, args: &Vec<&str>) -> (r: String)
    ensures
        r@ == fill_of(template@, args.deep_view()),
{
    let chars = characters(template);
    let ghost t = template@;
    let ghost a = args.deep_view();
    let mut r = String::new();
    let mut i: usize = 0;
    proof {
        assert(t.skip(0) =~= t);
    }
    while i < chars.len()
        invariant
            chars@ == t,
            a == args.deep_view(),
            i <= chars.len(),
            fill_of(t, a) =~= r@ + fill_of(t.skip(i as int), a),
        decreases chars.len() - i,
    {
        let ghost rest = t.skip(i as int);
        let c = chars[i];
        if c == '$' && i + 1 < chars.len() && '0' <= chars[i + 1] && chars[i + 1] <= '9' && ((
        chars[i + 1] as u32 - 48) as usize) < args.len() {
            let k: usize = (chars[i + 1] as u32 - 48) as usize;
            proof {
                assert(at_hole(rest, a.len()));
                assert(rest.skip(2) =~= t.skip(i + 2));
            }
            r.append(args[k]);
            i = i + 2;
        } else {
            proof {
                assert(rest.skip(1) =~= t.skip(i + 1));
            }
            r.push(c);
            i = i + 1;
        }
    }
    proof {
        assert(t.skip(i as int) =~= Seq::empty());
    }
    r
}

} // verus!
