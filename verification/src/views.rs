//! Pointwise facts about the deep view of a vector, used throughout the
//! contracts of this crate.
use vstd::prelude::*;

verus! {

/// The deep view of a vector has the vector's length.
pub broadcast proof fn lemma_vec_deep_view_len<T: DeepView>(v: Vec<T>)
    ensures
        #[trigger] v.deep_view().len() == v@.len(),
{
}

/// Indexing the deep view of a vector gives the deep view of the element.
pub broadcast proof fn lemma_vec_deep_view_index<T: DeepView>(v: Vec<T>, i: int)
    requires
        0 <= i < v@.len(),
    ensures
        #[trigger] v.deep_view()[i] == v@[i].deep_view(),
{
}

} // verus!
