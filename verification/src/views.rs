use vstd::prelude::*;

verus! {

/// A byte vector's element-wise view is the same sequence as its plain view.
pub broadcast proof fn lemma_bytes_deep_view(v: Vec<u8>)
    ensures
        #[trigger] v.deep_view() == v@,
{
    assert(v.deep_view() =~= v@);
}

/// Indexing the element-wise view of a vector of byte vectors.
pub broadcast proof fn lemma_byte_rows_deep_view(v: Vec<Vec<u8>>, i: int)
    requires
        0 <= i < v@.len(),
    ensures
        #[trigger] v.deep_view()[i] == v@[i]@,
{
    lemma_bytes_deep_view(v@[i]);
}

/// The element-wise view of a vector of byte vectors has the vector's length.
pub broadcast proof fn lemma_byte_rows_deep_view_len(v: Vec<Vec<u8>>)
    ensures
        #[trigger] v.deep_view().len() == v@.len(),
{
}

/// Indexing the element-wise view of a vector of strings.
pub broadcast proof fn lemma_string_rows_deep_view(v: Vec<String>, i: int)
    requires
        0 <= i < v@.len(),
    ensures
        #[trigger] v.deep_view()[i] == v@[i]@,
{
}

/// The element-wise view of a vector of strings has the vector's length.
pub broadcast proof fn lemma_string_rows_deep_view_len(v: Vec<String>)
    ensures
        #[trigger] v.deep_view().len() == v@.len(),
{
}

} // verus!
