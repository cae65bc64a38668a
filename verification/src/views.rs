//! What sequences and results of this library's values are to a contract.

use crate::error::{Fault, TiledError};
use vstd::prelude::*;

verus! {

/// The views of the items of a sequence, in order.
pub open spec fn views<T: View>(items: Seq<T>) -> Seq<T::V> {
    Seq::new(items.len(), |i: int| items[i]@)
}

/// The views of a sequence with one more item are the views of the
/// sequence with the view of the item.
pub proof fn lemma_views_push<T: View>(items: Seq<T>, item: T)
    ensures
        views(items.push(item)) == views(items).push(item@),
{
}

/// An empty sequence has no views.
pub proof fn lemma_views_empty<T: View>()
    ensures
        views(Seq::<T>::empty()) == Seq::<T::V>::empty(),
{
}

/// An optional value as its view.
pub open spec fn view_of<T: View>(item: Option<T>) -> Option<T::V> {
    match item {
        Some(t) => Some(t@),
        None => None,
    }
}

/// A result as its view.
pub open spec fn viewed<T: View>(outcome: Result<T, TiledError>) -> Result<T::V, Fault> {
    match outcome {
        Ok(value) => Ok(value@),
        Err(e) => Err(e@),
    }
}

/// What a builder hands back: the value that it built, with the position
/// behind the element that it was built from, or the error that stopped it.
pub open spec fn built<T: View>(outcome: Result<(T, usize), TiledError>) -> Result<(T::V, int), Fault> {
    match outcome {
        Ok((value, next)) => Ok((value@, next as int)),
        Err(e) => Err(e@),
    }
}

} // verus!
