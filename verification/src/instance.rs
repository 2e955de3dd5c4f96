//! Words of a register: construction, access by field, and iteration.

use crate::laws::{
    default_word_has_defaults, new_word_has_only_reserved_bits, set_leaves_the_rest,
};
use crate::radix::{Radix, literal, literal_of};
use crate::register::{FieldMetadata, Register, RegisterView};
use crate::syntax::Chars;
use crate::word::{bit, fits, get_bit, get_field, set_bit, set_field, word_of};
use vstd::prelude::*;

verus! {

/// A value of a field that its representation does not have.
#[derive(Clone, Copy, Debug, PartialEq, Eq, Structural)]
pub struct InvalidBits(pub u128);

impl Register {
    /// Whether a word has the reserved bits as they are meant.
    pub fn respects(&self, value: u128) -> (r: bool)
        requires
            self.deep_view().well_formed(),
        ensures
            r == self.deep_view().respects(value),
    {
        let one = self.rsvd1_mask();
        let zero = self.rsvd0_mask();
        value & one == one && !value & zero == zero
    }
}

/// A word of a register.
#[derive(Clone, Copy)]
pub struct Instance<'a> {
    pub register: &'a Register,
    /// The word itself. Writing it does not look at the reserved bits.
    pub bits: u128,
}

impl<'a> Instance<'a> {
    /// What holds of every word: its register is well formed, and it fits the base type.
    pub open spec fn well_formed(self) -> bool {
        let r = self.register.deep_view();
        r.well_formed() && fits(self.bits, r.base.bits() as int)
    }

    /// A word with reserved-as-1 bits set and all other bits zeroed.
    pub fn new(register: &'a Register) -> (r: Self)
        requires
            register.deep_view().well_formed(),
        ensures
            r.register == register,
            r.bits == register.deep_view().rsvd1(),
            r.well_formed(),
            register.deep_view().respects(r.bits),
    {
        proof {
            new_word_has_only_reserved_bits(register.deep_view());
        }
        Instance { register, bits: register.rsvd1_mask() }
    }

    /// A word with the default bits set.
    pub fn default(register: &'a Register) -> (r: Self)
        requires
            register.deep_view().well_formed(),
        ensures
            r.register == register,
            r.bits == register.deep_view().default_word(),
            r.well_formed(),
            register.deep_view().respects(r.bits),
    {
        proof {
            default_word_has_defaults(register.deep_view());
        }
        Instance { register, bits: register.default_word() }
    }

    /// The given word, which must have the reserved bits as they are meant.
    pub fn from(register: &'a Register, value: u128) -> (r: Self)
        requires
            register.deep_view().well_formed(),
            fits(value, register.deep_view().base.bits() as int),
            register.deep_view().respects(value),
        ensures
            r.register == register,
            r.bits == value,
            r.well_formed(),
    {
        Instance { register, bits: value }
    }

    /// Converts a word. With debug assertions it must have the reserved bits as they are meant,
    /// or the message of the assertion that fails is returned; without them every word is kept.
    pub fn convert(register: &'a Register, value: u128, debug_assertions: bool) -> (r: Result<
        Self,
        String,
    >)
        requires
            register.deep_view().well_formed(),
            fits(value, register.deep_view().base.bits() as int),
        ensures
            match r {
                Ok(x) => x.register == register && x.bits == value && x.well_formed() && (
                debug_assertions ==> register.deep_view().respects(value)),
                Err(message) => debug_assertions && !register.deep_view().respects(value)
                    && message@ == assertion_of(register.deep_view(), value),
            },
    {
        if debug_assertions {
            let one = register.rsvd1_mask();
            if value & one != one {
                return Err(assertion(value, "1", one, "unset"));
            }
            let zero = register.rsvd0_mask();
            if !value & zero != zero {
                return Err(assertion(value, "0", zero, "set"));
            }
        }
        Ok(Instance { register, bits: value })
    }

    /// The value of the single bit that is field `i`.
    pub fn get_bit(&self, i: usize) -> (r: bool)
        requires
            self.well_formed(),
            i < self.register.fields.len(),
            self.register.deep_view().fields[i as int].is_flag(),
        ensures
            r == bit(self.bits, self.register.deep_view().fields[i as int].low()),
    {
        let f = &self.register.fields[i];
        proof {
            assert(self.register.deep_view().fields[i as int] == f.deep_view());
        }
        get_bit(self.bits, f.metadata.low_bit)
    }

    /// Sets the single bit that is field `i`.
    pub fn set_bit(&mut self, i: usize, value: bool)
        requires
            old(self).well_formed(),
            i < old(self).register.fields.len(),
            old(self).register.deep_view().fields[i as int].is_flag(),
        ensures
            final(self).register == old(self).register,
            final(self).well_formed(),
            final(self).bits == old(self).register.deep_view().set_of(
                old(self).bits,
                i as int,
                word_of(value),
            ),
            old(self).register.deep_view().respects(final(self).bits)
                == old(self).register.deep_view().respects(old(self).bits),
    {
        let f = &self.register.fields[i];
        let x: u128 = if value {
            1
        } else {
            0
        };
        proof {
            assert(self.register.deep_view().fields[i as int] == f.deep_view());
            set_leaves_the_rest(self.register.deep_view(), self.bits, i as int, x);
        }
        let mut bits = self.bits;
        set_bit(&mut bits, f.metadata.low_bit, value);
        self.bits = bits;
    }

    /// The value of field `i`: where it stands if the field is unshifted, else moved down to
    /// bit 0.
    pub fn get(&self, i: usize) -> (r: u128)
        requires
            self.well_formed(),
            i < self.register.fields.len(),
        ensures
            r == self.register.deep_view().get_of(self.bits, i as int),
    {
        let f = &self.register.fields[i];
        proof {
            assert(self.register.deep_view().fields[i as int] == f.deep_view());
        }
        get_field(self.bits, f.metadata.high_bit, f.metadata.low_bit, !f.unshifted)
    }

    /// Sets field `i` to the bits of `value` that belong to it: those where it stands if the
    /// field is unshifted, else the lowest ones.
    pub fn set(&mut self, i: usize, value: u128)
        requires
            old(self).well_formed(),
            i < old(self).register.fields.len(),
        ensures
            final(self).register == old(self).register,
            final(self).well_formed(),
            final(self).bits == old(self).register.deep_view().set_of(
                old(self).bits,
                i as int,
                value,
            ),
            old(self).register.deep_view().respects(final(self).bits)
                == old(self).register.deep_view().respects(old(self).bits),
    {
        let f = &self.register.fields[i];
        proof {
            assert(self.register.deep_view().fields[i as int] == f.deep_view());
            set_leaves_the_rest(self.register.deep_view(), self.bits, i as int, value);
        }
        let mut bits = self.bits;
        set_field(&mut bits, f.metadata.high_bit, f.metadata.low_bit, !f.unshifted, value);
        self.bits = bits;
    }

    /// The value of field `i` in its representation. `read` is what reading the bytes of the
    /// field's value gave: `None` if the representation has no such value.
    pub fn get_repr<R>(&self, i: usize, read: Option<R>) -> (r: Result<R, InvalidBits>)
        requires
            self.well_formed(),
            i < self.register.fields.len(),
            self.register.deep_view().fields[i as int].has_repr,
        ensures
            r == (match read {
                Some(value) => Ok(value),
                None => Err(
                    InvalidBits(self.register.deep_view().value_of(self.bits, i as int)),
                ),
            }),
    {
        proof {
            assert(self.register.deep_view().fields[i as int]
                == self.register.fields[i as int].deep_view());
        }
        match read {
            Some(value) => Ok(value),
            None => Err(InvalidBits(self.get(i))),
        }
    }

    /// An iterator over the metadata and the value of each field.
    pub fn iter(&self) -> (r: Iter<'a>)
        requires
            self.well_formed(),
        ensures
            r.well_formed(),
            r.remaining() == entries_of(
                self.register.deep_view(),
                self.bits,
                0,
                self.register.fields.len() as int,
            ),
    {
        Iter {
            register: self.register,
            bits: self.bits,
            front: 0,
            back: self.register.fields.len(),
        }
    }
}

/// The message of an assertion about reserved bits: the word, what the bits are reserved as,
/// their mask, and how the word has some of them.
pub open spec fn assertion_text_of(value: u128, kind: Chars, mask: u128, state: Chars) -> Chars {
    "from(): Invalid base value ("@ + literal_of(value as nat, Radix::LowerHex)
        + ") has reserved-as-"@ + kind + " bits ("@ + literal_of(mask as nat, Radix::LowerHex)
        + ") "@ + state
}

/// The message of the first assertion that fails of a word.
pub open spec fn assertion_of(r: RegisterView, value: u128) -> Chars {
    if value & r.rsvd1() != r.rsvd1() {
        assertion_text_of(value, "1"@, r.rsvd1(), "unset"@)
    } else {
        assertion_text_of(value, "0"@, r.rsvd0(), "set"@)
    }
}

/// Writes the message of an assertion about reserved bits.
fn assertion(value: u128, kind: &str, mask: u128, state: &str) -> (r: String)
    ensures
        r@ == assertion_text_of(value, kind@, mask, state@),
{
    let mut r = "from(): Invalid base value (".to_owned();
    r.append(literal(value, Radix::LowerHex).as_str());
    r.append(") has reserved-as-");
    r.append(kind);
    r.append(" bits (");
    r.append(literal(mask, Radix::LowerHex).as_str());
    r.append(") ");
    r.append(state);
    r
}

/// The metadata and the values, moved down to bit 0, of the fields from `from` up to `to`.
pub open spec fn entries_of(r: RegisterView, v: u128, from: int, to: int) -> Seq<
    (FieldMetadata<Chars>, u128),
> {
    Seq::new(
        (to - from) as nat,
        |i: int| (r.fields[from + i].metadata, r.value_of(v, from + i)),
    )
}

/// An iterator over the fields of a word, the highest first, that takes from either end.
pub struct Iter<'a> {
    pub register: &'a Register,
    pub bits: u128,
    pub front: usize,
    pub back: usize,
}

impl<'a> Iter<'a> {
    /// What holds of every iterator.
    pub open spec fn well_formed(self) -> bool {
        self.register.deep_view().well_formed() && self.front <= self.back
            <= self.register.fields.len()
    }

    /// What is still to come.
    pub open spec fn remaining(self) -> Seq<(FieldMetadata<Chars>, u128)> {
        entries_of(self.register.deep_view(), self.bits, self.front as int, self.back as int)
    }

    /// The next field from the front.
    pub fn next(&mut self) -> (r: Option<(&'a FieldMetadata<String>, u128)>)
        requires
            old(self).well_formed(),
        ensures
            final(self).well_formed(),
            match r {
                Some((metadata, value)) => old(self).remaining().len() > 0 && (
                    metadata.deep_view(),
                    value,
                ) == old(self).remaining().first() && final(self).remaining()
                    == old(self).remaining().drop_first(),
                None => old(self).remaining().len() == 0 && *final(self) == *old(self),
            },
    {
        if self.front >= self.back {
            return None;
        }
        let i = self.front;
        let entry = entry(self.register, self.bits, i);
        self.front = i + 1;
        proof {
            assert(self.remaining() =~= old(self).remaining().drop_first());
        }
        Some(entry)
    }

    /// The next field from the back.
    pub fn next_back(&mut self) -> (r: Option<(&'a FieldMetadata<String>, u128)>)
        requires
            old(self).well_formed(),
        ensures
            final(self).well_formed(),
            match r {
                Some((metadata, value)) => old(self).remaining().len() > 0 && (
                    metadata.deep_view(),
                    value,
                ) == old(self).remaining().last() && final(self).remaining()
                    == old(self).remaining().drop_last(),
                None => old(self).remaining().len() == 0 && *final(self) == *old(self),
            },
    {
        if self.front >= self.back {
            return None;
        }
        let i = self.back - 1;
        self.back = i;
        let entry = entry(self.register, self.bits, i);
        proof {
            assert(self.remaining() =~= old(self).remaining().drop_last());
        }
        Some(entry)
    }
}

/// The metadata and the value of field `i` of a word.
fn entry<'a>(register: &'a Register, bits: u128, i: usize) -> (r: (
    &'a FieldMetadata<String>,
    u128,
))
    requires
        register.deep_view().well_formed(),
        i < register.fields.len(),
    ensures
        r.0.deep_view() == register.deep_view().fields[i as int].metadata,
        r.1 == register.deep_view().value_of(bits, i as int),
{
    let f = &register.fields[i];
    proof {
        assert(register.deep_view().fields[i as int] == f.deep_view());
    }
    let value = get_field(bits, f.metadata.high_bit, f.metadata.low_bit, true);
    (&f.metadata, value)
}

/// Whatever was taken from either end, what is left is the part of the whole in between, and
/// taking from the back alone reverses the order.
pub proof fn both_ends_share_one_sequence(r: RegisterView, v: u128, from: int, to: int)
    requires
        0 <= from <= to <= r.fields.len(),
    ensures
        entries_of(r, v, from, to) == entries_of(r, v, 0, r.fields.len() as int).subrange(from, to),
        forall|n: int|
            0 <= n < r.fields.len() ==> #[trigger] entries_of(
                r,
                v,
                0,
                r.fields.len() as int,
            ).reverse()[n] == entries_of(r, v, 0, r.fields.len() - n).last(),
{
    assert(entries_of(r, v, from, to) =~= entries_of(r, v, 0, r.fields.len() as int).subrange(
        from,
        to,
    ));
}

} // verus!
