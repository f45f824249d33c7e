//! Copies of values that are held in lists.

use vstd::prelude::*;

verus! {

/// Values that can be copied out of a list, field for field.
pub trait Duplicate: Sized {
    fn duplicate(&self) -> (copy: Self)
        ensures
            copy == *self,
    ;
}

impl Duplicate for String {
    fn duplicate(&self) -> (copy: Self) {
        self.clone()
    }
}

/// Copies a list.
pub fn copy_list<T: Duplicate>(list: &Vec<T>) -> (copy: Vec<T>)
    ensures
        copy@ == list@,
{
    let mut copy: Vec<T> = Vec::new();
    let mut i: usize = 0;
    while i < list.len()
        invariant
            i <= list@.len(),
            copy@ == list@.take(i as int),
        decreases list@.len() - i,
    {
        copy.push(list[i].duplicate());
        assert(copy@ =~= list@.take(i + 1));
        i = i + 1;
    }
    assert(list@.take(i as int) =~= list@);
    copy
}

/// Copies the items of `list` in the order that `order` gives.
pub fn arrange<T: Duplicate>(list: &Vec<T>, order: &Vec<usize>) -> (arranged: Vec<T>)
    requires
        forall|k: int| 0 <= k < order@.len() ==> #[trigger] order@[k] < list@.len(),
    ensures
        arranged@.len() == order@.len(),
        forall|k: int| 0 <= k < order@.len() ==> #[trigger] arranged@[k] == list@[order@[k] as int],
{
    let mut arranged: Vec<T> = Vec::new();
    let mut k: usize = 0;
    while k < order.len()
        invariant
            k <= order@.len(),
            arranged@.len() == k,
            forall|i: int| 0 <= i < order@.len() ==> #[trigger] order@[i] < list@.len(),
            forall|i: int| 0 <= i < k ==> #[trigger] arranged@[i] == list@[order@[i] as int],
        decreases order@.len() - k,
    {
        arranged.push(list[order[k]].duplicate());
        k = k + 1;
    }
    arranged
}

} // verus!
