//! What filled templates, joined texts and numerals are made of.

use crate::syntax::{Chars, Texts};
use crate::text::{
    at_hole, concat_of, decimal_of, digit_char, fill_of, hole_of, index_of_digits, number_of,
};
use vstd::prelude::*;

verus! {

/// Whether `part` stands somewhere in `text`.
pub open spec fn holds(text: Chars, part: Chars) -> bool {
    exists|i: int|
        0 <= i <= text.len() - part.len() && #[trigger] text.skip(i).take(part.len() as int) == part
}

/// What stands between two texts stands in the whole.
pub proof fn middle_is_held(before: Chars, part: Chars, after: Chars)
    ensures
        holds(before + part + after, part),
{
    let text = before + part + after;
    assert(text.skip(before.len() as int).take(part.len() as int) =~= part);
}

/// What a part holds, the whole holds.
pub proof fn held_by_a_part(text: Chars, part: Chars, inner: Chars)
    requires
        holds(text, part),
        holds(part, inner),
    ensures
        holds(text, inner),
{
    let i = choose|i: int|
        0 <= i <= text.len() - part.len() && #[trigger] text.skip(i).take(part.len() as int)
            == part;
    let j = choose|j: int|
        0 <= j <= part.len() - inner.len() && #[trigger] part.skip(j).take(inner.len() as int)
            == inner;
    assert(text.skip(i + j).take(inner.len() as int) =~= inner) by {
        assert forall|k: int| 0 <= k < inner.len() implies text[i + j + k] == inner[k] by {
            assert(part.skip(j).take(inner.len() as int)[k] == part[j + k]);
            assert(text.skip(i).take(part.len() as int)[j + k] == text[i + j + k]);
        }
    }
}

/// Joining two lists is joining each and then both.
pub proof fn joining_splits(a: Texts, b: Texts)
    ensures
        concat_of(a + b) == concat_of(a) + concat_of(b),
    decreases b.len(),
{
    if b.len() == 0 {
        assert(a + b =~= a);
        assert(concat_of(a) + concat_of(b) =~= concat_of(a));
    } else {
        joining_splits(a, b.drop_last());
        assert((a + b).drop_last() =~= a + b.drop_last());
        assert((a + b).last() == b.last());
        assert(concat_of(a) + (concat_of(b.drop_last()) + b.last()) =~= concat_of(a) + concat_of(
            b.drop_last(),
        ) + b.last());
    }
}

/// A list joins to its parts in order, and each of them stands in the whole.
pub proof fn joined_parts_are_held(parts: Texts, i: int)
    requires
        0 <= i < parts.len(),
    ensures
        concat_of(parts) == concat_of(parts.take(i)) + parts[i] + concat_of(parts.skip(i + 1)),
        holds(concat_of(parts), parts[i]),
{
    let (a, b, c) = (parts.take(i), seq![parts[i]], parts.skip(i + 1));
    assert(parts =~= a + b + c);
    joining_splits(a + b, c);
    joining_splits(a, b);
    lemma_join_one(parts[i]);
    middle_is_held(concat_of(a), parts[i], concat_of(c));
}

/// A list of one text joins to that text.
pub proof fn lemma_join_one(part: Chars)
    ensures
        concat_of(seq![part]) == part,
{
    reveal_with_fuel(concat_of, 2);
    assert(seq![part].drop_last() =~= Seq::empty());
    assert(Seq::<char>::empty() + part =~= part);
}

/// A run of parts stands in the whole.
pub proof fn joined_run_is_held(before: Texts, run: Texts, after: Texts)
    ensures
        holds(concat_of(before + run + after), concat_of(run)),
{
    joining_splits(before + run, after);
    joining_splits(before, run);
    middle_is_held(concat_of(before), concat_of(run), concat_of(after));
}

/// The numeral of a number denotes it, has only digits, and has no leading zero.
pub proof fn numerals_denote(n: nat)
    ensures
        number_of(decimal_of(n)) == Some(n),
        decimal_of(n).len() > 0,
        decimal_of(n)[0] == '0' ==> n == 0,
        forall|i: int|
            0 <= i < decimal_of(n).len() ==> '0' <= #[trigger] decimal_of(n)[i]
                && decimal_of(n)[i] <= '9',
    decreases n,
{
    reveal_with_fuel(number_of, 2);
    if n < 10 {
        assert(seq![digit_char(n)].drop_last() =~= Seq::empty());
    } else {
        numerals_denote(n / 10);
        let d = decimal_of(n / 10);
        assert(d.push(digit_char(n % 10)).drop_last() =~= d);
    }
}

/// A position that is written is read back.
pub proof fn positions_are_read_back(n: usize)
    ensures
        index_of_digits(decimal_of(n as nat)) == Some(n),
{
    numerals_denote(n as nat);
}

/// Different numbers have different numerals.
pub proof fn numerals_differ(m: nat, n: nat)
    requires
        m != n,
    ensures
        decimal_of(m) != decimal_of(n),
{
    numerals_denote(m);
    numerals_denote(n);
}

/// A digit behind a numeral multiplies the number by ten and adds the digit.
pub proof fn numerals_are_positional(digits: Chars, d: nat)
    requires
        d < 10,
    ensures
        number_of(digits.push(digit_char(d))) == (match number_of(digits) {
            Some(n) => Some(n * 10 + d),
            None => None,
        }),
{
    assert(digits.push(digit_char(d)).drop_last() =~= digits);
}

/// A text denotes a number if and only if each of its characters is a digit.
pub proof fn numerals_have_digits_alone(digits: Chars)
    ensures
        number_of(digits) is Some <==> forall|i: int|
            0 <= i < digits.len() ==> '0' <= #[trigger] digits[i] && digits[i] <= '9',
        digits.len() == 0 ==> number_of(digits) == Some(0nat),
    decreases digits.len(),
{
    if digits.len() > 0 {
        let init = digits.drop_last();
        numerals_have_digits_alone(init);
        if number_of(init) is Some {
            assert forall|i: int| 0 <= i < digits.len() - 1 implies '0' <= #[trigger] digits[i]
                && digits[i] <= '9' by {
                assert(init[i] == digits[i]);
            }
        } else {
            let i = choose|i: int|
                0 <= i < init.len() && !('0' <= #[trigger] init[i] && init[i] <= '9');
            assert(digits[i] == init[i]);
        }
        assert(digits[digits.len() - 1] == digits.last());
    }
}

/// Whether a text has no hole.
pub open spec fn plain(text: Chars) -> bool {
    forall|i: int| 0 <= i < text.len() ==> #[trigger] text[i] != '$'
}

/// A template without holes is its own filling.
pub proof fn plain_fills_to_itself(text: Chars, args: Texts)
    requires
        plain(text),
    ensures
        fill_of(text, args) == text,
    decreases text.len(),
{
    if text.len() == 0 {
        assert(text =~= Seq::empty());
    } else {
        assert(plain(text.skip(1))) by {
            assert forall|i: int| 0 <= i < text.skip(1).len() implies #[trigger] text.skip(1)[i]
                != '$' by {
                assert(text[i + 1] != '$');
            }
        }
        plain_fills_to_itself(text.skip(1), args);
        assert(text[0] != '$');
        assert(seq![text[0]] + text.skip(1) =~= text);
    }
}

/// Filling goes on behind a part that does not end within a hole.
pub proof fn filling_splits(a: Chars, b: Chars, args: Texts)
    requires
        a.len() > 0 ==> a.last() != '$',
    ensures
        fill_of(a + b, args) == fill_of(a, args) + fill_of(b, args),
    decreases a.len(),
{
    let ab = a + b;
    if a.len() == 0 {
        assert(ab =~= b);
        assert(Seq::<char>::empty() + fill_of(b, args) =~= fill_of(b, args));
    } else if at_hole(ab, args.len()) {
        assert(a.len() >= 2) by {
            assert(ab[0] == a[0]);
        }
        assert(at_hole(a, args.len()));
        let arg = args[hole_of(a[1])];
        filling_splits(a.skip(2), b, args);
        assert(ab.skip(2) =~= a.skip(2) + b);
        assert(arg + (fill_of(a.skip(2), args) + fill_of(b, args)) =~= arg + fill_of(
            a.skip(2),
            args,
        ) + fill_of(b, args));
    } else {
        assert(!at_hole(a, args.len()));
        filling_splits(a.skip(1), b, args);
        assert(ab.skip(1) =~= a.skip(1) + b);
        let c = seq![a[0]];
        assert(c + (fill_of(a.skip(1), args) + fill_of(b, args)) =~= c + fill_of(a.skip(1), args)
            + fill_of(b, args));
    }
}

/// A hole is filled by the argument of its number, and filling goes on behind it.
pub proof fn holes_are_filled(d: nat, rest: Chars, args: Texts)
    requires
        d < 10,
        d < args.len(),
    ensures
        fill_of(seq!['$', digit_char(d)] + rest, args) == args[d as int] + fill_of(rest, args),
{
    let t = seq!['$', digit_char(d)] + rest;
    assert(t.skip(2) =~= rest);
    assert(at_hole(t, args.len()));
}

/// One step through a template: a plain part and a hole behind it.
pub(crate) proof fn lemma_step(t: Chars, args: Texts, parts: Texts, at: int, part: Chars, d: nat)
    requires
        0 <= at,
        at + part.len() + 2 <= t.len(),
        fill_of(t, args) == concat_of(parts) + fill_of(t.skip(at), args),
        t.subrange(at, at + part.len()) =~= part,
        plain(part),
        d < 10,
        d < args.len(),
        t[at + part.len()] == '$',
        t[at + part.len() + 1] == digit_char(d),
    ensures
        fill_of(t, args) == concat_of(parts.push(part).push(args[d as int])) + fill_of(
            t.skip(at + part.len() + 2),
            args,
        ),
{
    let rest = t.skip(at + part.len());
    let more = t.skip(at + part.len() + 2);
    assert(t.skip(at) =~= part + rest);
    if part.len() > 0 {
        assert(part[part.len() - 1] != '$');
    }
    filling_splits(part, rest, args);
    plain_fills_to_itself(part, args);
    assert(rest =~= seq!['$', digit_char(d)] + more);
    holes_are_filled(d, more, args);
    assert(parts.push(part).push(args[d as int]).drop_last() =~= parts.push(part));
    assert(parts.push(part).drop_last() =~= parts);
    let arg = args[d as int];
    assert(concat_of(parts.push(part)) == concat_of(parts) + part);
    assert(concat_of(parts.push(part).push(arg)) == concat_of(parts.push(part)) + arg);
    assert(concat_of(parts) + (part + (args[d as int] + fill_of(more, args))) =~= concat_of(parts)
        + part + args[d as int] + fill_of(more, args));
}

/// The first step through a template.
pub(crate) proof fn lemma_start(t: Chars, args: Texts)
    ensures
        fill_of(t, args) == concat_of(Seq::<Chars>::empty()) + fill_of(t.skip(0), args),
{
    assert(t.skip(0) =~= t);
    assert(Seq::<char>::empty() + fill_of(t, args) =~= fill_of(t, args));
}

/// The last step through a template: a plain part that ends it.
pub(crate) proof fn lemma_finish(t: Chars, args: Texts, parts: Texts, at: int, part: Chars)
    requires
        0 <= at <= t.len(),
        fill_of(t, args) == concat_of(parts) + fill_of(t.skip(at), args),
        t.skip(at) =~= part,
        plain(part),
    ensures
        fill_of(t, args) == concat_of(parts.push(part)),
{
    plain_fills_to_itself(part, args);
    assert(parts.push(part).drop_last() =~= parts);
}

} // verus!
