//! Listings: the rows of a table that a view keeps, in the order of the view,
//! each shown as one entry.
use vstd::prelude::*;
use vstd::relations::sorted_by;
use crate::ordering::{by_key, sort_by_key};
use crate::relation::{computes_key, copies_faithfully, decides, select_rows};

verus! {

/// `sorted` holds the rows that `keep` keeps, in the order of the key.
pub open spec fn lists<T>(
    rows: Seq<T>,
    keep: spec_fn(T) -> bool,
    order: spec_fn(T) -> Seq<i128>,
    sorted: Seq<T>,
) -> bool {
    sorted_by(sorted, by_key(order)) && sorted.to_multiset() == rows.filter(keep).to_multiset()
}

/// The entries show, one for each and in the order of the key, the rows that
/// `keep` keeps.
pub open spec fn presents<T, U>(
    rows: Seq<T>,
    keep: spec_fn(T) -> bool,
    order: spec_fn(T) -> Seq<i128>,
    shows: spec_fn(U, T) -> bool,
    out: Seq<U>,
) -> bool {
    exists|sorted: Seq<T>|
        #[trigger] lists(rows, keep, order, sorted) && shown_by(sorted, shows, out)
}

/// Each entry shows the row at its place.
pub open spec fn shown_by<T, U>(sorted: Seq<T>, shows: spec_fn(U, T) -> bool, out: Seq<U>) -> bool {
    out.len() == sorted.len() && forall|i: int| 0 <= i < out.len() ==> shows(#[trigger] out[i], sorted[i])
}

/// Copies of the rows that `f` keeps, in the order of the key.
pub fn select_sorted<T: Clone, F: Fn(&T) -> bool, K: Fn(&T) -> Vec<i128>>(
    v: &Vec<T>,
    f: &F,
    Ghost(keep): Ghost<spec_fn(T) -> bool>,
    key: &K,
    Ghost(order): Ghost<spec_fn(T) -> Seq<i128>>,
) -> (r: Vec<T>)
    requires
        decides(*f, keep),
        computes_key(*key, order),
        copies_faithfully::<T>(),
    ensures
        lists(v@, keep, order, r@),
{
    let selected = select_rows(v, f, Ghost(keep));
    sort_by_key(selected, key, Ghost(order))
}

/// The key of a number.
pub fn number_key(n: i64) -> (k: Vec<i128>)
    ensures
        k@ == seq![n as i128],
{
    let mut k: Vec<i128> = Vec::new();
    k.push(n as i128);
    assert(k@ =~= seq![n as i128]);
    k
}

} // verus!
