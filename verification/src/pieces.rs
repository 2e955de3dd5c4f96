//! Text that is written field by field.

use crate::bitfield::{Bitfield, Field};
use crate::syntax::Chars;
use crate::text::concat_of;
use vstd::prelude::*;

verus! {

/// What is written of each field of a list.
pub(crate) trait Piece {
    /// What can be written.
    spec fn admits(&self, f: Field) -> bool;

    /// The text that is written.
    spec fn of(&self) -> spec_fn(Field) -> Chars;

    /// Writes the text for a field.
    fn write(&self, f: &Bitfield<String, Vec<String>>) -> (r: String)
        requires
            self.admits(f.deep_view()),
        ensures
            r@ == (self.of())(f.deep_view()),
    ;
}

/// Writes a piece of each field, one after the other.
pub(crate) fn each<P: Piece>(piece: &P, fields: &Vec<Bitfield<String, Vec<String>>>) -> (r: String)
    requires
        forall|i: int|
            0 <= i < fields.deep_view().len() ==> piece.admits(#[trigger] fields.deep_view()[i]),
    ensures
        r@ == concat_of(fields.deep_view().map_values(piece.of())),
{
    let ghost all = fields.deep_view();
    let mut r = String::new();
    let mut i: usize = 0;
    while i < fields.len()
        invariant
            all == fields.deep_view(),
            forall|i: int| 0 <= i < all.len() ==> piece.admits(#[trigger] all[i]),
            i <= fields.len(),
            r@ == concat_of(all.map_values(piece.of()).take(i as int)),
        decreases fields.len() - i,
    {
        proof {
            let texts = all.map_values(piece.of());
            assert(all[i as int] == fields[i as int].deep_view());
            assert(texts.take(i + 1).drop_last() =~= texts.take(i as int));
            assert(texts.take(i + 1).last() == (piece.of())(all[i as int]));
        }
        r.append(piece.write(&fields[i]).as_str());
        i = i + 1;
    }
    proof {
        let texts = all.map_values(piece.of());
        assert(texts.take(i as int) =~= texts);
    }
    r
}

} // verus!
