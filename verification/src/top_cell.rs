//! Choice of the root cell to show from a layout library.

use vstd::prelude::*;
use crate::order::{seq_lt, str_lt, views};

verus! {

/// `i` names the first cell whose name sorts lowest among `names`.
pub open spec fn is_top_choice(names: Seq<Seq<char>>, i: int) -> bool {
    &&& 0 <= i < names.len()
    &&& forall|j: int| 0 <= j < i ==> seq_lt(names[i], #[trigger] names[j])
    &&& forall|j: int| i < j < names.len() ==> !seq_lt(#[trigger] names[j], names[i])
}

/// Picks the root cell to render among the library's top cells, named in
/// library order: none when there is no top cell (an empty or cyclic
/// library), the only one when there is one, and otherwise the first whose
/// name sorts lowest, which is reproducible and needs no geometry.
pub fn select_top_cell(top_names: &Vec<String>) -> (r: Option<usize>)
    ensures
        r is None <==> top_names@.len() == 0,
        r matches Some(i) ==> is_top_choice(views(top_names@), i as int),
{
    let count = top_names.len();
    if count == 0 {
        return None;
    }
    if count == 1 {
        return Some(0);
    }
    let ghost names = views(top_names@);
    let mut best: usize = 0;
    let mut i: usize = 1;
    while i < count
        invariant
            count == top_names@.len(),
            names == views(top_names@),
            1 <= i <= count,
            best < i,
            forall|j: int| 0 <= j < best ==> seq_lt(names[best as int], #[trigger] names[j]),
            forall|j: int| best < j < i ==> !seq_lt(#[trigger] names[j], names[best as int]),
        decreases count - i,
    {
        assert(names[i as int] == top_names@[i as int]@);
        assert(names[best as int] == top_names@[best as int]@);
        if str_lt(top_names[i].as_str(), top_names[best].as_str()) {
            proof {
                assert forall|j: int| 0 <= j < i implies seq_lt(names[i as int], #[trigger] names[j]) by {
                    if j < best {
                        crate::order::lemma_lt_transitive(names[i as int], names[best as int], names[j]);
                    } else if j > best {
                        crate::order::lemma_lt_total(names[j], names[best as int]);
                        if names[j] == names[best as int] {
                        } else {
                            crate::order::lemma_lt_transitive(names[i as int], names[best as int], names[j]);
                        }
                    }
                }
            }
            best = i;
        }
        i = i + 1;
    }
    Some(best)
}

} // verus!
