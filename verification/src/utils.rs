//! Helpers on slices.

use vstd::prelude::*;

verus! {

/// Whether position `at` of the destination is written by
/// [`clone_slice_into_index`]: it stands `index` places after a position
/// of the source that is at least `index`, and both slices reach that far.
pub open spec fn copied(source_len: int, destination_len: int, index: int, at: int) -> bool {
    &&& 2 * index <= at < destination_len
    &&& at - index < source_len
}

/// Clones the elements of `source` from position `index` on into
/// `destination`, each one `index` places further on, for as long as both
/// slices reach. Every other element of `destination` stays.
pub fn clone_slice_into_index<T: Clone>(source: &[T], destination: &mut [T], index: usize)
    ensures
        final(destination)@.len() == old(destination)@.len(),
        forall|at: int|
            0 <= at < old(destination)@.len() ==> if copied(
                source@.len() as int,
                old(destination)@.len() as int,
                index as int,
                at,
            ) {
                cloned(source@[at - index], #[trigger] final(destination)@[at])
            } else {
                final(destination)@[at] == old(destination)@[at]
            },
{
    let mut current = index;
    while current < source.len() && current < destination.len() && index < destination.len()
        - current
        invariant
            index <= current,
            destination@.len() == old(destination)@.len(),
            forall|at: int|
                0 <= at < destination@.len() ==> if at < index + current && copied(
                    source@.len() as int,
                    destination@.len() as int,
                    index as int,
                    at,
                ) {
                    cloned(source@[at - index], #[trigger] destination@[at])
                } else {
                    destination@[at] == old(destination)@[at]
                },
        decreases source@.len() - current,
    {
        let value = source[current].clone();
        destination[index + current] = value;
        current += 1;
    }
}

} // verus!
