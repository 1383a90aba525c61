//! Lists of Jacobian entries by row, kept in a typed-index vector.

use vstd::prelude::*;
use typed_index_collections::TiVec;

verus! {

/// `typed_index_collections::TiVec`: a vector with a key type for its
/// indices. Nothing inside it is visible here.
#[verifier::external_type_specification]
#[verifier::external_body]
#[verifier::reject_recursive_types(K)]
#[verifier::reject_recursive_types(V)]
pub struct ExTiVec<K, V>(TiVec<K, V>);

/// The lists that a typed-index vector of lists holds, in index order.
pub uninterp spec fn row_lists(rows: TiVec<usize, Vec<u32>>) -> Seq<Seq<u32>>;

/// The lists of a vector of lists, as sequences.
pub open spec fn lists_of(lists: Seq<Vec<u32>>) -> Seq<Seq<u32>> {
    Seq::new(lists.len(), |i: int| lists[i]@)
}

/// `TiVec::from` on a `Vec` (its impl of `From<Vec<V>>`): the typed-index
/// vector takes the vector over as it is, element for element.
#[verifier::external_body]
pub(crate) fn rows_from(lists: Vec<Vec<u32>>) -> (rows: TiVec<usize, Vec<u32>>)
    ensures
        row_lists(rows) == lists_of(lists@),
{
    TiVec::from(lists)
}

/// `TiVec::index_mut` with a key (its impl of `IndexMut`): hands out the
/// element at that index, and the vector afterwards differs in that
/// element only. Left out are keys behind the end, on which it panics.
#[verifier::external_body]
pub(crate) fn row_mut(rows: &mut TiVec<usize, Vec<u32>>, key: usize) -> (list: &mut Vec<u32>)
    requires
        key < row_lists(*old(rows)).len(),
    ensures
        list@ == row_lists(*old(rows))[key as int],
        row_lists(*final(rows)) == row_lists(*old(rows)).update(key as int, final(list)@),
{
    &mut rows[key]
}

/// `TiVec::index` with a key (its impl of `Index`): the element at that
/// index. Left out are keys behind the end, on which it panics.
#[verifier::external_body]
pub(crate) fn row<'a>(rows: &'a TiVec<usize, Vec<u32>>, key: usize) -> (list: &'a Vec<u32>)
    requires
        key < row_lists(*rows).len(),
    ensures
        list@ == row_lists(*rows)[key as int],
{
    &rows[key]
}

} // verus!
