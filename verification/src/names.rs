//! Finding a value in an ordered list.

use vstd::prelude::*;

verus! {

/// The characters of each string of `names`, in order.
pub open spec fn name_views(names: Seq<String>) -> Seq<Seq<char>> {
    Seq::new(names.len(), |i: int| names[i]@)
}

/// The position that holds `value` and has no occurrence of it in front is
/// the first position of `value`.
pub proof fn lemma_first_position<A>(values: Seq<A>, value: A, position: int)
    requires
        0 <= position < values.len(),
        values[position] == value,
        forall|earlier: int| 0 <= earlier < position ==> values[earlier] != value,
    ensures
        values.index_of_first(value) == Some(position),
{
    values.index_of_first_ensures(value);
    assert(values.contains(value));
}

/// A value that no position holds has no first position.
pub proof fn lemma_no_position<A>(values: Seq<A>, value: A)
    requires
        forall|position: int| 0 <= position < values.len() ==> values[position] != value,
    ensures
        values.index_of_first(value) is None,
{
    values.index_of_first_ensures(value);
}

} // verus!
