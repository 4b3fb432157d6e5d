//! Which stored tensor a plane of a model is.
use vstd::prelude::*;
use crate::header::Expected;
use crate::program::Weight;

verus! {

/// The plane is the tensor that the list calls so: tensors are allocated in
/// the order of the list, the first as allocation `first`.
pub open spec fn called(list: Seq<Expected>, first: int, w: Weight, name: Seq<char>) -> bool {
    let j = w.buffer.id - first;
    &&& 0 <= j < list.len()
    &&& list[j].name == name
}

} // verus!
