use vstd::prelude::*;

use crate::model::swap_out;

verus! {

/// The index of the first element that `pred` accepts.
pub fn find_first<T, P: Fn(&T) -> bool>(vec: &[T], pred: P) -> (r: Option<usize>)
    requires
        forall|i: int| 0 <= i < vec@.len() ==> pred.requires((&vec@[i],)),
    ensures
        match r {
            Some(i) => i < vec@.len() && pred.ensures((&vec@[i as int],), true) && forall|j: int|
                0 <= j < i ==> pred.ensures((&vec@[j],), false),
            None => forall|j: int| 0 <= j < vec@.len() ==> pred.ensures((&vec@[j],), false),
        },
{
    let mut index: usize = 0;
    while index < vec.len()
        invariant
            index <= vec@.len(),
            forall|i: int| 0 <= i < vec@.len() ==> pred.requires((&vec@[i],)),
            forall|j: int| 0 <= j < index ==> pred.ensures((&vec@[j],), false),
        decreases vec@.len() - index,
    {
        if pred(&vec[index]) {
            return Some(index);
        }
        index += 1;
    }
    None
}

/// Removes the first element that `pred` accepts and returns it; the last element takes
/// its place.
pub fn find_and_remove<T, P: Fn(&T) -> bool>(vec: &mut Vec<T>, pred: P) -> (r: Option<T>)
    requires
        forall|i: int| 0 <= i < old(vec)@.len() ==> pred.requires((&old(vec)@[i],)),
    ensures
        match r {
            Some(e) => exists|i: int|
                0 <= i < old(vec)@.len() && pred.ensures((&old(vec)@[i],), true) && (forall|j: int|
                    0 <= j < i ==> pred.ensures((&old(vec)@[j],), false)) && e == old(vec)@[i]
                    && final(vec)@ == swap_out(old(vec)@, i),
            None => final(vec)@ == old(vec)@ && forall|j: int|
                0 <= j < old(vec)@.len() ==> pred.ensures((&old(vec)@[j],), false),
        },
{
    if let Some(index) = find_first(vec.as_slice(), pred) {
        let elem = vec.swap_remove(index);
        Some(elem)
    } else {
        None
    }
}

} // verus!
