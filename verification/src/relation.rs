//! Relations as sequences of rows: the predicates that the store's rules are
//! stated with, the facts about filtering that the proofs rest on, and the
//! loops that scan and filter a table.
use vstd::prelude::*;

verus! {

/// Some row of `rows` satisfies `p`.
pub open spec fn some_row<T>(rows: Seq<T>, p: spec_fn(T) -> bool) -> bool {
    exists|i: int| 0 <= i < rows.len() && p(#[trigger] rows[i])
}

/// Every row of `rows` satisfies `p`.
pub open spec fn every_row<T>(rows: Seq<T>, p: spec_fn(T) -> bool) -> bool {
    forall|i: int| 0 <= i < rows.len() ==> p(#[trigger] rows[i])
}

/// No two rows of `rows` share a value of `key`.
pub open spec fn keys_distinct<T, K>(rows: Seq<T>, key: spec_fn(T) -> K) -> bool {
    forall|i: int, j: int|
        0 <= i < rows.len() && 0 <= j < rows.len() && i != j ==> key(#[trigger] rows[i]) != key(
            #[trigger] rows[j],
        )
}

/// Some row of `rows` has the value `k` under `key`.
pub open spec fn has_key<T, K>(rows: Seq<T>, key: spec_fn(T) -> K, k: K) -> bool {
    exists|i: int| 0 <= i < rows.len() && key(#[trigger] rows[i]) == k
}

/// The complement of a predicate.
pub open spec fn negate<T>(p: spec_fn(T) -> bool) -> spec_fn(T) -> bool {
    |t: T| !p(t)
}

/// `i` is the position of the first row that satisfies `p`.
pub open spec fn is_first<T>(rows: Seq<T>, p: spec_fn(T) -> bool, i: int) -> bool {
    &&& 0 <= i < rows.len()
    &&& p(rows[i])
    &&& forall|j: int| 0 <= j < i ==> !p(#[trigger] rows[j])
}

/// Filtering commutes with appending one row.
pub proof fn lemma_filter_push<T>(rows: Seq<T>, row: T, p: spec_fn(T) -> bool)
    ensures
        rows.push(row).filter(p) == if p(row) {
            rows.filter(p).push(row)
        } else {
            rows.filter(p)
        },
{
    reveal(Seq::filter);
    assert(rows.push(row).drop_last() =~= rows);
}

/// A filtered relation holds exactly the rows that satisfy the predicate, in
/// their old order: each kept row stems from a position of the source, and
/// those positions grow with the positions in the result.
pub proof fn lemma_filter_positions<T>(rows: Seq<T>, p: spec_fn(T) -> bool) -> (at: Seq<int>)
    ensures
        at.len() == rows.filter(p).len(),
        forall|k: int|
            0 <= k < at.len() ==> 0 <= #[trigger] at[k] < rows.len() && rows[at[k]]
                == rows.filter(p)[k] && p(rows[at[k]]),
        forall|k: int, l: int| 0 <= k < l < at.len() ==> at[k] < at[l],
        forall|i: int|
            0 <= i < rows.len() && p(rows[i]) ==> exists|k: int|
                0 <= k < at.len() && #[trigger] at[k] == i,
    decreases rows.len(),
{
    reveal(Seq::filter);
    if rows.len() == 0 {
        Seq::empty()
    } else {
        let head = rows.drop_last();
        let before = lemma_filter_positions(head, p);
        let at = if p(rows.last()) {
            before.push(rows.len() - 1)
        } else {
            before
        };
        assert forall|i: int| 0 <= i < rows.len() && p(rows[i]) implies exists|k: int|
            0 <= k < at.len() && #[trigger] at[k] == i by {
            if i < rows.len() - 1 {
                assert(head[i] == rows[i]);
                let k = choose|k: int| 0 <= k < before.len() && #[trigger] before[k] == i;
                assert(at[k] == i);
            } else {
                assert(at[at.len() - 1] == i);
            }
        }
        at
    }
}

/// A row is in the filtered relation exactly if it is in the source and
/// satisfies the predicate.
pub proof fn lemma_filter_some<T>(rows: Seq<T>, p: spec_fn(T) -> bool, q: spec_fn(T) -> bool)
    ensures
        some_row(rows.filter(p), q) <==> some_row(rows, |t: T| p(t) && q(t)),
{
    let at = lemma_filter_positions(rows, p);
    let kept = rows.filter(p);
    let both = |t: T| p(t) && q(t);
    if some_row(kept, q) {
        let k = choose|k: int| 0 <= k < kept.len() && q(#[trigger] kept[k]);
        assert(both(rows[at[k]]));
    }
    if some_row(rows, both) {
        let i = choose|i: int| 0 <= i < rows.len() && both(#[trigger] rows[i]);
        let k = choose|k: int| 0 <= k < at.len() && #[trigger] at[k] == i;
        assert(q(kept[k]));
    }
}

/// What holds of every row still holds of every row that a filter keeps.
pub proof fn lemma_filter_every<T>(rows: Seq<T>, p: spec_fn(T) -> bool, q: spec_fn(T) -> bool)
    requires
        every_row(rows, q),
    ensures
        every_row(rows.filter(p), q),
        every_row(rows.filter(p), p),
{
    let at = lemma_filter_positions(rows, p);
    let kept = rows.filter(p);
    assert forall|k: int| 0 <= k < kept.len() implies q(#[trigger] kept[k]) && p(kept[k]) by {
        assert(kept[k] == rows[at[k]]);
    }
}

/// A filter keeps keys distinct.
pub proof fn lemma_filter_distinct<T, K>(rows: Seq<T>, p: spec_fn(T) -> bool, key: spec_fn(T) -> K)
    requires
        keys_distinct(rows, key),
    ensures
        keys_distinct(rows.filter(p), key),
{
    let at = lemma_filter_positions(rows, p);
    let kept = rows.filter(p);
    assert forall|k: int, l: int|
        0 <= k < kept.len() && 0 <= l < kept.len() && k != l implies key(#[trigger] kept[k])
        != key(#[trigger] kept[l]) by {
        assert(kept[k] == rows[at[k]]);
        assert(kept[l] == rows[at[l]]);
        if k < l {
            assert(at[k] < at[l]);
        } else {
            assert(at[l] < at[k]);
        }
    }
}

/// A key survives a filter exactly if a row with that key satisfies the
/// predicate.
pub proof fn lemma_filter_has_key<T, K>(
    rows: Seq<T>,
    p: spec_fn(T) -> bool,
    key: spec_fn(T) -> K,
    k: K,
)
    ensures
        has_key(rows.filter(p), key, k) <==> some_row(rows, |t: T| p(t) && key(t) == k),
{
    let q = |t: T| key(t) == k;
    lemma_filter_some(rows, p, q);
    let kept = rows.filter(p);
    if has_key(kept, key, k) {
        let i = choose|i: int| 0 <= i < kept.len() && key(#[trigger] kept[i]) == k;
        assert(q(kept[i]));
    }
    if some_row(kept, q) {
        let i = choose|i: int| 0 <= i < kept.len() && q(#[trigger] kept[i]);
        assert(key(kept[i]) == k);
    }
    assert((|t: T| p(t) && q(t)) =~= (|t: T| p(t) && key(t) == k));
}

/// Two predicates that agree on every row keep the same rows.
pub proof fn lemma_filter_agree<T>(rows: Seq<T>, p: spec_fn(T) -> bool, q: spec_fn(T) -> bool)
    requires
        forall|i: int| 0 <= i < rows.len() ==> p(#[trigger] rows[i]) == q(rows[i]),
    ensures
        rows.filter(p) == rows.filter(q),
    decreases rows.len(),
{
    reveal(Seq::filter);
    if rows.len() > 0 {
        let head = rows.drop_last();
        assert forall|i: int| 0 <= i < head.len() implies p(#[trigger] head[i]) == q(head[i]) by {
            assert(head[i] == rows[i]);
        }
        lemma_filter_agree(head, p, q);
    }
}

/// A filter that every row passes changes nothing.
pub proof fn lemma_filter_keeps_all<T>(rows: Seq<T>, p: spec_fn(T) -> bool)
    requires
        every_row(rows, p),
    ensures
        rows.filter(p) == rows,
    decreases rows.len(),
{
    reveal(Seq::filter);
    if rows.len() > 0 {
        let head = rows.drop_last();
        assert forall|i: int| 0 <= i < head.len() implies p(#[trigger] head[i]) by {
            assert(head[i] == rows[i]);
        }
        lemma_filter_keeps_all(head, p);
        assert(head.push(rows.last()) =~= rows);
    }
}

/// Filtering twice is filtering by both predicates.
pub proof fn lemma_filter_twice<T>(rows: Seq<T>, p: spec_fn(T) -> bool, q: spec_fn(T) -> bool)
    ensures
        rows.filter(p).filter(q) == rows.filter(|t: T| p(t) && q(t)),
    decreases rows.len(),
{
    reveal(Seq::filter);
    if rows.len() > 0 {
        let head = rows.drop_last();
        lemma_filter_twice(head, p, q);
        if p(rows.last()) {
            lemma_filter_push(head.filter(p), rows.last(), q);
        }
    }
}

/// The row of `rows` that has the value `k` under `key`.
pub open spec fn the_row<T, K>(rows: Seq<T>, key: spec_fn(T) -> K, k: K) -> T {
    rows[choose|i: int| 0 <= i < rows.len() && key(#[trigger] rows[i]) == k]
}

/// With distinct keys, a row with the key `k` is the row with that key.
pub proof fn lemma_the_row<T, K>(rows: Seq<T>, key: spec_fn(T) -> K, i: int)
    requires
        keys_distinct(rows, key),
        0 <= i < rows.len(),
    ensures
        the_row(rows, key, key(rows[i])) == rows[i],
        has_key(rows, key, key(rows[i])),
{
    let j = choose|j: int| 0 <= j < rows.len() && key(#[trigger] rows[j]) == key(rows[i]);
    assert(j == i);
}

/// The executable test `f` computes the predicate `p`.
pub open spec fn decides<T, F: Fn(&T) -> bool>(f: F, p: spec_fn(T) -> bool) -> bool {
    &&& forall|t: &T| #[trigger] call_requires(f, (t,))
    &&& forall|t: &T, b: bool| #[trigger] call_ensures(f, (t,), b) ==> b == p(*t)
}

/// The executable projection `f` computes the column `g`.
pub open spec fn computes<T, F: Fn(&T) -> i32>(f: F, g: spec_fn(T) -> i32) -> bool {
    &&& forall|t: &T| #[trigger] call_requires(f, (t,))
    &&& forall|t: &T, k: i32| #[trigger] call_ensures(f, (t,), k) ==> k == g(*t)
}

/// The executable function `f` computes the sort key `g`.
pub open spec fn computes_key<T, F: Fn(&T) -> Vec<i128>>(f: F, g: spec_fn(T) -> Seq<i128>) -> bool {
    &&& forall|t: &T| #[trigger] call_requires(f, (t,))
    &&& forall|t: &T, k: Vec<i128>| #[trigger] call_ensures(f, (t,), k) ==> k@ == g(*t)
}

/// Every row of `rows` names, by `fk`, a row of `target`.
pub open spec fn refers<T, U>(
    rows: Seq<T>,
    fk: spec_fn(T) -> i32,
    target: Seq<U>,
    pk: spec_fn(U) -> i32,
) -> bool {
    forall|i: int| 0 <= i < rows.len() ==> has_key(target, pk, fk(#[trigger] rows[i]))
}

/// Some row of `rows` names a row of `target` that satisfies `p`.
pub open spec fn referenced<T, U>(
    rows: Seq<T>,
    fk: spec_fn(T) -> i32,
    target: Seq<U>,
    pk: spec_fn(U) -> i32,
    p: spec_fn(U) -> bool,
) -> bool {
    exists|i: int, j: int|
        0 <= i < rows.len() && 0 <= j < target.len() && pk(#[trigger] target[j]) == fk(
            #[trigger] rows[i],
        ) && p(target[j])
}

/// The row of `target` with key `k` satisfies `p`.
pub open spec fn key_satisfies<U>(target: Seq<U>, pk: spec_fn(U) -> i32, k: i32, p: spec_fn(U) -> bool) -> bool {
    exists|j: int| 0 <= j < target.len() && pk(#[trigger] target[j]) == k && p(target[j])
}

/// The values of the column `g`, row by row.
pub open spec fn column<T>(rows: Seq<T>, g: spec_fn(T) -> i32) -> Seq<i32> {
    rows.map_values(g)
}

/// The rows whose column `col` holds `k`.
pub open spec fn key_is<T>(col: spec_fn(T) -> i32, k: i32) -> spec_fn(T) -> bool {
    |t: T| col(t) == k
}

/// The rows whose column `col` holds one of `ks`.
pub open spec fn key_in<T>(col: spec_fn(T) -> i32, ks: Seq<i32>) -> spec_fn(T) -> bool {
    |t: T| ks.contains(col(t))
}

/// Once the rows that name the key `k` are gone, nothing names the row with
/// that key.
pub proof fn lemma_unreferenced_key<T, U>(
    rows: Seq<T>,
    fk: spec_fn(T) -> i32,
    target: Seq<U>,
    pk: spec_fn(U) -> i32,
    k: i32,
)
    ensures
        !referenced(rows.filter(negate(key_is(fk, k))), fk, target, pk, key_is(pk, k)),
{
    let kept = rows.filter(negate(key_is(fk, k)));
    assert forall|i: int| 0 <= i < kept.len() implies fk(#[trigger] kept[i]) != k by {
        rows.lemma_filter_pred(negate(key_is(fk, k)), i);
    }
}

/// Where a row that stays names a row that goes, the reference dangles
/// afterwards.
pub proof fn lemma_blocked_dangles<T, U>(
    rows: Seq<T>,
    fk: spec_fn(T) -> i32,
    target: Seq<U>,
    pk: spec_fn(U) -> i32,
    p: spec_fn(U) -> bool,
)
    requires
        keys_distinct(target, pk),
        referenced(rows, fk, target, pk, p),
    ensures
        !refers(rows, fk, target.filter(negate(p)), pk),
{
    let (i, j) = choose|i: int, j: int|
        0 <= i < rows.len() && 0 <= j < target.len() && pk(#[trigger] target[j]) == fk(
            #[trigger] rows[i],
        ) && p(target[j]);
    let kept = target.filter(negate(p));
    let at = lemma_filter_positions(target, negate(p));
    if has_key(kept, pk, fk(rows[i])) {
        let k = choose|k: int| 0 <= k < kept.len() && pk(#[trigger] kept[k]) == fk(rows[i]);
        assert(kept[k] == target[at[k]]);
        assert(negate(p)(target[at[k]]));
        assert(at[k] == j);
    }
}

/// With distinct keys, the key of a row is among the keys of the rows that
/// a filter keeps exactly if the row satisfies the predicate.
pub proof fn lemma_column_of_filter<T>(
    rows: Seq<T>,
    p: spec_fn(T) -> bool,
    key: spec_fn(T) -> i32,
    i: int,
)
    requires
        keys_distinct(rows, key),
        0 <= i < rows.len(),
    ensures
        column(rows.filter(p), key).contains(key(rows[i])) <==> p(rows[i]),
{
    let at = lemma_filter_positions(rows, p);
    let kept = rows.filter(p);
    let keys = column(kept, key);
    if p(rows[i]) {
        let k = choose|k: int| 0 <= k < at.len() && #[trigger] at[k] == i;
        assert(keys[k] == key(rows[i]));
    }
    if keys.contains(key(rows[i])) {
        let k = choose|k: int| 0 <= k < keys.len() && keys[k] == key(rows[i]);
        assert(kept[k] == rows[at[k]]);
        assert(at[k] == i);
    }
}

/// Removing the rows of one more key after those of some keys is removing
/// the rows of all of them.
pub proof fn lemma_remove_one_more<T>(rows: Seq<T>, col: spec_fn(T) -> i32, ks: Seq<i32>, n: int)
    requires
        0 <= n < ks.len(),
    ensures
        rows.filter(negate(key_in(col, ks.take(n)))).filter(negate(key_is(col, ks[n])))
            == rows.filter(negate(key_in(col, ks.take(n + 1)))),
{
    let a = negate(key_in(col, ks.take(n)));
    let b = negate(key_is(col, ks[n]));
    let c = negate(key_in(col, ks.take(n + 1)));
    lemma_filter_twice(rows, a, b);
    let fewer = ks.take(n);
    let more = ks.take(n + 1);
    assert(more =~= fewer.push(ks[n]));
    assert forall|i: int| 0 <= i < rows.len() implies (a(#[trigger] rows[i]) && b(rows[i])) == c(
        rows[i],
    ) by {
        let x = col(rows[i]);
        if fewer.contains(x) {
            let j = choose|j: int| 0 <= j < fewer.len() && fewer[j] == x;
            assert(more[j] == x);
        }
        if x == ks[n] {
            assert(more[n] == x);
        }
        if more.contains(x) {
            let j = choose|j: int| 0 <= j < more.len() && more[j] == x;
            if j < n {
                assert(fewer[j] == x);
            }
        }
    }
    lemma_filter_agree(rows, |t: T| a(t) && b(t), c);
}

/// Removing the rows of no key removes nothing.
pub proof fn lemma_remove_none<T>(rows: Seq<T>, col: spec_fn(T) -> i32)
    ensures
        rows.filter(negate(key_in(col, Seq::<i32>::empty()))) == rows,
{
    lemma_filter_keeps_all(rows, negate(key_in(col, Seq::<i32>::empty())));
}

/// The rows with the row of key `k` changed by `f`.
pub open spec fn rewritten<T, Q>(rows: Seq<T>, key: spec_fn(T) -> Q, k: Q, f: spec_fn(T) -> T) -> Seq<T> {
    rows.map_values(|r: T| if key(r) == k { f(r) } else { r })
}

/// A change that keeps a column of the row it changes keeps the column in
/// every row.
pub proof fn lemma_rewritten_column<T, Q, K>(
    rows: Seq<T>,
    key: spec_fn(T) -> Q,
    k: Q,
    f: spec_fn(T) -> T,
    col: spec_fn(T) -> K,
)
    requires
        forall|i: int| 0 <= i < rows.len() && key(#[trigger] rows[i]) == k ==> col(f(rows[i])) == col(rows[i]),
    ensures
        rewritten(rows, key, k, f).len() == rows.len(),
        forall|i: int|
            0 <= i < rows.len() ==> col(#[trigger] rewritten(rows, key, k, f)[i]) == col(rows[i]),
{
}

/// A change that keeps the key keeps the keys distinct.
pub proof fn lemma_rewritten_distinct<T, Q, K>(
    rows: Seq<T>,
    key: spec_fn(T) -> Q,
    k: Q,
    f: spec_fn(T) -> T,
    pkey: spec_fn(T) -> K,
)
    requires
        keys_distinct(rows, pkey),
        forall|i: int| 0 <= i < rows.len() && key(#[trigger] rows[i]) == k ==> pkey(f(rows[i])) == pkey(rows[i]),
    ensures
        keys_distinct(rewritten(rows, key, k, f), pkey),
{
    let after = rewritten(rows, key, k, f);
    lemma_rewritten_column(rows, key, k, f, pkey);
    assert forall|i: int, j: int|
        0 <= i < after.len() && 0 <= j < after.len() && i != j implies pkey(#[trigger] after[i])
        != pkey(#[trigger] after[j]) by {
        assert(pkey(rows[i]) != pkey(rows[j]));
    }
}

/// References stay resolved where the changed row names a row that exists.
pub proof fn lemma_rewritten_refers<T, Q, U>(
    rows: Seq<T>,
    key: spec_fn(T) -> Q,
    k: Q,
    f: spec_fn(T) -> T,
    fk: spec_fn(T) -> i32,
    target: Seq<U>,
    pk: spec_fn(U) -> i32,
)
    requires
        refers(rows, fk, target, pk),
        forall|i: int|
            0 <= i < rows.len() && key(#[trigger] rows[i]) == k ==> has_key(target, pk, fk(f(rows[i]))),
    ensures
        refers(rewritten(rows, key, k, f), fk, target, pk),
{
    let after = rewritten(rows, key, k, f);
    assert forall|i: int| 0 <= i < after.len() implies has_key(target, pk, fk(#[trigger] after[i])) by {
        assert(has_key(target, pk, fk(rows[i])));
    }
}

/// References to rows that change but keep their key still resolve.
pub proof fn lemma_refers_rewritten<T, U>(
    rows: Seq<T>,
    fk: spec_fn(T) -> i32,
    target: Seq<U>,
    pk: spec_fn(U) -> i32,
    k: i32,
    f: spec_fn(U) -> U,
)
    requires
        refers(rows, fk, target, pk),
        forall|i: int| 0 <= i < target.len() && pk(#[trigger] target[i]) == k ==> pk(f(target[i])) == k,
    ensures
        refers(rows, fk, rewritten(target, pk, k, f), pk),
{
    lemma_rewritten_column(target, pk, k, f, pk);
    lemma_refers_target_rewritten(rows, fk, target, pk, rewritten(target, pk, k, f));
}

/// Two changes that do the same to the row with the key are one change.
pub proof fn lemma_rewrite_agree<T, Q>(
    rows: Seq<T>,
    key: spec_fn(T) -> Q,
    k: Q,
    f: spec_fn(T) -> T,
    g: spec_fn(T) -> T,
)
    requires
        forall|i: int| 0 <= i < rows.len() && key(#[trigger] rows[i]) == k ==> f(rows[i]) == g(rows[i]),
    ensures
        rewritten(rows, key, k, f) == rewritten(rows, key, k, g),
{
    assert(rewritten(rows, key, k, f) =~= rewritten(rows, key, k, g));
}

/// Putting the changed row at the place of the row with the key `k` is the
/// change of that row.
pub proof fn lemma_update_is_rewrite<T, Q>(
    rows: Seq<T>,
    key: spec_fn(T) -> Q,
    i: int,
    f: spec_fn(T) -> T,
)
    requires
        keys_distinct(rows, key),
        0 <= i < rows.len(),
    ensures
        rows.update(i, f(rows[i])) == rewritten(rows, key, key(rows[i]), f),
{
    let a = rows.update(i, f(rows[i]));
    let b = rewritten(rows, key, key(rows[i]), f);
    assert forall|j: int| 0 <= j < rows.len() implies a[j] == b[j] by {
        if j != i {
            assert(key(rows[j]) != key(rows[i]));
        }
    }
    assert(a =~= b);
}

/// Appending a row with a new key keeps keys distinct.
pub proof fn lemma_push_distinct<T, K>(rows: Seq<T>, row: T, key: spec_fn(T) -> K)
    requires
        keys_distinct(rows, key),
        !has_key(rows, key, key(row)),
    ensures
        keys_distinct(rows.push(row), key),
{
    let more = rows.push(row);
    assert forall|i: int, j: int|
        0 <= i < more.len() && 0 <= j < more.len() && i != j implies key(#[trigger] more[i])
        != key(#[trigger] more[j]) by {
        if i < rows.len() {
            assert(more[i] == rows[i]);
        }
        if j < rows.len() {
            assert(more[j] == rows[j]);
        }
    }
}

/// A key is in a relation with one more row exactly if it was there or is the
/// key of the new row.
pub proof fn lemma_push_has_key<T, K>(rows: Seq<T>, row: T, key: spec_fn(T) -> K, k: K)
    ensures
        has_key(rows.push(row), key, k) <==> has_key(rows, key, k) || key(row) == k,
{
    let more = rows.push(row);
    if has_key(rows, key, k) {
        let i = choose|i: int| 0 <= i < rows.len() && key(#[trigger] rows[i]) == k;
        assert(more[i] == rows[i]);
    }
    if key(row) == k {
        assert(more[rows.len() as int] == row);
    }
    if has_key(more, key, k) {
        let i = choose|i: int| 0 <= i < more.len() && key(#[trigger] more[i]) == k;
        if i < rows.len() {
            assert(more[i] == rows[i]);
        }
    }
}

/// References still resolve when the table referred to gains a row.
pub proof fn lemma_refers_target_grows<T, U>(
    rows: Seq<T>,
    fk: spec_fn(T) -> i32,
    target: Seq<U>,
    pk: spec_fn(U) -> i32,
    row: U,
)
    requires
        refers(rows, fk, target, pk),
    ensures
        refers(rows, fk, target.push(row), pk),
{
    assert forall|i: int| 0 <= i < rows.len() implies has_key(
        target.push(row),
        pk,
        fk(#[trigger] rows[i]),
    ) by {
        lemma_push_has_key(target, row, pk, fk(rows[i]));
    }
}

/// References still resolve when the referring table gains a row whose
/// reference resolves.
pub proof fn lemma_refers_row_added<T, U>(
    rows: Seq<T>,
    fk: spec_fn(T) -> i32,
    target: Seq<U>,
    pk: spec_fn(U) -> i32,
    row: T,
)
    requires
        refers(rows, fk, target, pk),
        has_key(target, pk, fk(row)),
    ensures
        refers(rows.push(row), fk, target, pk),
{
    let more = rows.push(row);
    assert forall|i: int| 0 <= i < more.len() implies has_key(target, pk, fk(#[trigger] more[i])) by {
        if i < rows.len() {
            assert(more[i] == rows[i]);
        }
    }
}

/// References still resolve when the referring table loses rows.
pub proof fn lemma_refers_rows_filtered<T, U>(
    rows: Seq<T>,
    fk: spec_fn(T) -> i32,
    target: Seq<U>,
    pk: spec_fn(U) -> i32,
    p: spec_fn(T) -> bool,
)
    requires
        refers(rows, fk, target, pk),
    ensures
        refers(rows.filter(p), fk, target, pk),
{
    let at = lemma_filter_positions(rows, p);
    let kept = rows.filter(p);
    assert forall|i: int| 0 <= i < kept.len() implies has_key(target, pk, fk(#[trigger] kept[i])) by {
        assert(kept[i] == rows[at[i]]);
    }
}

/// References still resolve when the table referred to loses only rows that
/// nothing refers to.
pub proof fn lemma_refers_target_filtered<T, U>(
    rows: Seq<T>,
    fk: spec_fn(T) -> i32,
    target: Seq<U>,
    pk: spec_fn(U) -> i32,
    p: spec_fn(U) -> bool,
)
    requires
        refers(rows, fk, target, pk),
        !referenced(rows, fk, target, pk, p),
    ensures
        refers(rows, fk, target.filter(negate(p)), pk),
{
    let at = lemma_filter_positions(target, negate(p));
    let kept = target.filter(negate(p));
    assert forall|i: int| 0 <= i < rows.len() implies has_key(kept, pk, fk(#[trigger] rows[i])) by {
        let j = choose|j: int| 0 <= j < target.len() && pk(#[trigger] target[j]) == fk(rows[i]);
        assert(!p(target[j]));
        assert(negate(p)(target[j]));
        let k = choose|k: int| 0 <= k < at.len() && #[trigger] at[k] == j;
        assert(kept[k] == target[j]);
    }
}

/// References still resolve when rows of the table referred to change but
/// keep their keys.
pub proof fn lemma_refers_target_rewritten<T, U>(
    rows: Seq<T>,
    fk: spec_fn(T) -> i32,
    target: Seq<U>,
    pk: spec_fn(U) -> i32,
    changed: Seq<U>,
)
    requires
        refers(rows, fk, target, pk),
        changed.len() == target.len(),
        forall|j: int| 0 <= j < target.len() ==> pk(#[trigger] changed[j]) == pk(target[j]),
    ensures
        refers(rows, fk, changed, pk),
{
    assert forall|i: int| 0 <= i < rows.len() implies has_key(changed, pk, fk(#[trigger] rows[i])) by {
        let j = choose|j: int| 0 <= j < target.len() && pk(#[trigger] target[j]) == fk(rows[i]);
        assert(pk(changed[j]) == fk(rows[i]));
    }
}

/// A copy of a row of this type is the row.
pub open spec fn copies_faithfully<T: Clone>() -> bool {
    forall|a: T, b: T| #[trigger] cloned(a, b) ==> a == b
}

/// Copies of the rows of `v` that satisfy `f`, in their old order.
pub fn select_rows<T: Clone, F: Fn(&T) -> bool>(v: &Vec<T>, f: &F, Ghost(p): Ghost<spec_fn(T) -> bool>) -> (r:
    Vec<T>)
    requires
        decides(*f, p),
        copies_faithfully::<T>(),
    ensures
        r@ == v@.filter(p),
{
    let mut out: Vec<T> = Vec::new();
    let mut i: usize = 0;
    proof {
        reveal(Seq::filter);
    }
    while i < v.len()
        invariant
            i <= v.len(),
            decides(*f, p),
            copies_faithfully::<T>(),
            out@ == v@.take(i as int).filter(p),
        decreases v.len() - i,
    {
        proof {
            assert(v@.take(i + 1) =~= v@.take(i as int).push(v@[i as int]));
            lemma_filter_push(v@.take(i as int), v@[i as int], p);
        }
        if f(&v[i]) {
            let row = v[i].clone();
            assert(cloned(v@[i as int], row));
            out.push(row);
        }
        i += 1;
    }
    assert(v@.take(v.len() as int) =~= v@);
    out
}

/// The rows of `v` that do not satisfy `f`, in their old order.
pub fn remove_rows<T, F: Fn(&T) -> bool>(v: Vec<T>, f: &F, Ghost(p): Ghost<spec_fn(T) -> bool>) -> (r:
    Vec<T>)
    requires
        decides(*f, p),
    ensures
        r@ == v@.filter(negate(p)),
{
    let mut out: Vec<T> = Vec::new();
    let ghost src = v@;
    let ghost q = negate(p);
    proof {
        reveal(Seq::filter);
    }
    for row in it: v
        invariant
            it.seq() == src,
            q == negate(p),
            out@ == src.take(it.index() as int).filter(q),
            decides(*f, p),
    {
        let drop = f(&row);
        proof {
            assert(src.take(it.index() + 1) =~= src.take(it.index() as int).push(row));
            lemma_filter_push(src.take(it.index() as int), row, q);
        }
        if !drop {
            out.push(row);
        }
    }
    assert(src.take(src.len() as int) =~= src);
    out
}

/// Takes the rows that satisfy `f` out of `v`, and says how many they were.
pub fn delete_rows<T, F: Fn(&T) -> bool>(v: &mut Vec<T>, f: &F, Ghost(p): Ghost<spec_fn(T) -> bool>) -> (n:
    usize)
    requires
        decides(*f, p),
    ensures
        final(v)@ == old(v)@.filter(negate(p)),
        n == old(v)@.len() - final(v)@.len(),
{
    let mut rows: Vec<T> = Vec::new();
    core::mem::swap(v, &mut rows);
    let before = rows.len();
    proof {
        rows@.lemma_filter_len(negate(p));
    }
    let mut kept = remove_rows(rows, f, Ghost(p));
    core::mem::swap(v, &mut kept);
    before - v.len()
}

/// The position of the first row of `v` that satisfies `f`.
pub fn find_row<T, F: Fn(&T) -> bool>(v: &Vec<T>, f: &F, Ghost(p): Ghost<spec_fn(T) -> bool>) -> (r:
    Option<usize>)
    requires
        decides(*f, p),
    ensures
        match r {
            Some(i) => is_first(v@, p, i as int),
            None => !some_row(v@, p),
        },
{
    let mut i: usize = 0;
    while i < v.len()
        invariant
            i <= v.len(),
            forall|j: int| 0 <= j < i ==> !p(#[trigger] v@[j]),
            decides(*f, p),
        decreases v.len() - i,
    {
        if f(&v[i]) {
            return Some(i);
        }
        i += 1;
    }
    None
}

/// Whether some row of `v` satisfies `f`.
pub fn exists_row<T, F: Fn(&T) -> bool>(v: &Vec<T>, f: &F, Ghost(p): Ghost<spec_fn(T) -> bool>) -> (r:
    bool)
    requires
        decides(*f, p),
    ensures
        r == some_row(v@, p),
{
    find_row(v, f, Ghost(p)).is_some()
}

/// The position of the row of `v` whose key is `k`.
pub fn find_key<T, G: Fn(&T) -> i32>(v: &Vec<T>, g: &G, Ghost(key): Ghost<spec_fn(T) -> i32>, k: i32) -> (r:
    Option<usize>)
    requires
        computes(*g, key),
    ensures
        match r {
            Some(i) => i < v.len() && key(v@[i as int]) == k,
            None => !has_key(v@, key, k),
        },
{
    let mut i: usize = 0;
    while i < v.len()
        invariant
            i <= v.len(),
            forall|j: int| 0 <= j < i ==> key(#[trigger] v@[j]) != k,
            computes(*g, key),
        decreases v.len() - i,
    {
        if g(&v[i]) == k {
            return Some(i);
        }
        i += 1;
    }
    None
}

/// The row of `v` whose key is `k`.
pub fn lookup<'a, T, G: Fn(&T) -> i32>(
    v: &'a Vec<T>,
    g: &G,
    Ghost(key): Ghost<spec_fn(T) -> i32>,
    k: i32,
) -> (r: Option<&'a T>)
    requires
        computes(*g, key),
        keys_distinct(v@, key),
    ensures
        r is Some <==> has_key(v@, key, k),
        r matches Some(row) ==> *row == the_row(v@, key, k) && key(*row) == k && v@.contains(*row),
{
    match find_key(v, g, Ghost(key), k) {
        Some(i) => {
            proof {
                lemma_the_row(v@, key, i as int);
            }
            Some(&v[i])
        },
        None => None,
    }
}

/// The position of the row of `v` whose two key columns are `k`.
pub fn find_pair<T, A: Fn(&T) -> i32, B: Fn(&T) -> i32>(
    v: &Vec<T>,
    a: &A,
    Ghost(first): Ghost<spec_fn(T) -> i32>,
    b: &B,
    Ghost(second): Ghost<spec_fn(T) -> i32>,
    Ghost(key): Ghost<spec_fn(T) -> (i32, i32)>,
    k: (i32, i32),
) -> (r: Option<usize>)
    requires
        computes(*a, first),
        computes(*b, second),
        forall|t: T| #[trigger] key(t) == (first(t), second(t)),
    ensures
        match r {
            Some(i) => i < v.len() && key(v@[i as int]) == k,
            None => !has_key(v@, key, k),
        },
{
    let mut i: usize = 0;
    while i < v.len()
        invariant
            i <= v.len(),
            forall|j: int| 0 <= j < i ==> key(#[trigger] v@[j]) != k,
            computes(*a, first),
            computes(*b, second),
            forall|t: T| #[trigger] key(t) == (first(t), second(t)),
        decreases v.len() - i,
    {
        if a(&v[i]) == k.0 && b(&v[i]) == k.1 {
            return Some(i);
        }
        i += 1;
    }
    None
}

/// Whether some row of `rows` names a row of `target` that satisfies `f`.
pub fn some_reference<T, U, FK: Fn(&T) -> i32, PK: Fn(&U) -> i32, F: Fn(&U) -> bool>(
    rows: &Vec<T>,
    fk: &FK,
    Ghost(sfk): Ghost<spec_fn(T) -> i32>,
    target: &Vec<U>,
    pk: &PK,
    Ghost(spk): Ghost<spec_fn(U) -> i32>,
    f: &F,
    Ghost(p): Ghost<spec_fn(U) -> bool>,
) -> (r: bool)
    requires
        computes(*fk, sfk),
        computes(*pk, spk),
        decides(*f, p),
    ensures
        r == referenced(rows@, sfk, target@, spk, p),
{
    let mut i: usize = 0;
    while i < rows.len()
        invariant
            i <= rows.len(),
            computes(*fk, sfk),
            computes(*pk, spk),
            decides(*f, p),
            forall|a: int, b: int|
                0 <= a < i && 0 <= b < target.len() ==> !(spk(#[trigger] target@[b]) == sfk(
                    #[trigger] rows@[a],
                ) && p(target@[b])),
        decreases rows.len() - i,
    {
        let k = fk(&rows[i]);
        let mut j: usize = 0;
        while j < target.len()
            invariant
                i < rows.len(),
                j <= target.len(),
                k == sfk(rows@[i as int]),
                computes(*pk, spk),
                decides(*f, p),
                forall|b: int|
                    0 <= b < j ==> !(spk(#[trigger] target@[b]) == k && p(target@[b])),
            decreases target.len() - j,
        {
            if pk(&target[j]) == k && f(&target[j]) {
                return true;
            }
            j += 1;
        }
        i += 1;
    }
    false
}

/// The column `g` of `v`, row by row.
pub fn select_column<T, G: Fn(&T) -> i32>(v: &Vec<T>, g: &G, Ghost(key): Ghost<spec_fn(T) -> i32>) -> (r:
    Vec<i32>)
    requires
        computes(*g, key),
    ensures
        r@ == column(v@, key),
{
    let mut out: Vec<i32> = Vec::new();
    let mut i: usize = 0;
    while i < v.len()
        invariant
            i <= v.len(),
            computes(*g, key),
            out@ == column(v@.take(i as int), key),
        decreases v.len() - i,
    {
        out.push(g(&v[i]));
        assert(column(v@.take(i + 1), key) =~= column(v@.take(i as int), key).push(key(v@[i as int])));
        i += 1;
    }
    assert(v@.take(v.len() as int) =~= v@);
    out
}

/// The column `g` of the rows of `v` that satisfy `f`.
pub fn select_keys<T, F: Fn(&T) -> bool, G: Fn(&T) -> i32>(
    v: &Vec<T>,
    f: &F,
    Ghost(p): Ghost<spec_fn(T) -> bool>,
    g: &G,
    Ghost(key): Ghost<spec_fn(T) -> i32>,
) -> (r: Vec<i32>)
    requires
        decides(*f, p),
        computes(*g, key),
    ensures
        r@ == column(v@.filter(p), key),
{
    let mut out: Vec<i32> = Vec::new();
    let mut i: usize = 0;
    proof {
        reveal(Seq::filter);
    }
    while i < v.len()
        invariant
            i <= v.len(),
            decides(*f, p),
            computes(*g, key),
            out@ == column(v@.take(i as int).filter(p), key),
        decreases v.len() - i,
    {
        proof {
            assert(v@.take(i + 1) =~= v@.take(i as int).push(v@[i as int]));
            lemma_filter_push(v@.take(i as int), v@[i as int], p);
        }
        if f(&v[i]) {
            out.push(g(&v[i]));
            assert(column(v@.take(i as int).filter(p).push(v@[i as int]), key) =~= column(
                v@.take(i as int).filter(p),
                key,
            ).push(key(v@[i as int])));
        }
        i += 1;
    }
    assert(v@.take(v.len() as int) =~= v@);
    out
}

/// A filter keeps no row that satisfies the predicate it removes by.
pub proof fn lemma_removed_are_gone<T>(rows: Seq<T>, p: spec_fn(T) -> bool)
    ensures
        !some_row(rows.filter(negate(p)), p),
{
    let kept = rows.filter(negate(p));
    assert forall|i: int| 0 <= i < kept.len() implies !p(#[trigger] kept[i]) by {
        rows.lemma_filter_pred(negate(p), i);
    }
}

/// The largest of the ids of `rows` and zero.
pub open spec fn max_id<T>(rows: Seq<T>, key: spec_fn(T) -> i32) -> int
    decreases rows.len(),
{
    if rows.len() == 0 {
        0
    } else {
        let rest = max_id(rows.drop_last(), key);
        if key(rows.last()) > rest {
            key(rows.last()) as int
        } else {
            rest
        }
    }
}

/// No id of `rows` is above `max_id`.
pub proof fn lemma_max_id<T>(rows: Seq<T>, key: spec_fn(T) -> i32)
    ensures
        max_id(rows, key) >= 0,
        forall|i: int| 0 <= i < rows.len() ==> key(#[trigger] rows[i]) <= max_id(rows, key),
    decreases rows.len(),
{
    if rows.len() > 0 {
        lemma_max_id(rows.drop_last(), key);
        assert forall|i: int| 0 <= i < rows.len() implies key(#[trigger] rows[i]) <= max_id(
            rows,
            key,
        ) by {
            if i < rows.len() - 1 {
                assert(rows.drop_last()[i] == rows[i]);
            }
        }
    }
}

/// The largest of the ids of `v` and zero.
pub fn largest_id<T, G: Fn(&T) -> i32>(v: &Vec<T>, g: &G, Ghost(key): Ghost<spec_fn(T) -> i32>) -> (m:
    i32)
    requires
        computes(*g, key),
    ensures
        m == max_id(v@, key),
{
    let mut m: i32 = 0;
    let mut i: usize = 0;
    while i < v.len()
        invariant
            i <= v.len(),
            computes(*g, key),
            m == max_id(v@.take(i as int), key),
        decreases v.len() - i,
    {
        let id = g(&v[i]);
        assert(v@.take(i + 1).drop_last() =~= v@.take(i as int));
        if id > m {
            m = id;
        }
        i += 1;
    }
    assert(v@.take(v.len() as int) =~= v@);
    m
}

/// An id above the largest is the id of no row.
pub proof fn lemma_fresh_id<T>(rows: Seq<T>, key: spec_fn(T) -> i32, id: i32)
    requires
        id > max_id(rows, key),
    ensures
        !has_key(rows, key, id),
{
    lemma_max_id(rows, key);
}

/// Whether `id` occurs in `ids`.
pub fn contains_id(ids: &Vec<i32>, id: i32) -> (r: bool)
    ensures
        r == ids@.contains(id),
{
    let mut i: usize = 0;
    while i < ids.len()
        invariant
            i <= ids.len(),
            forall|j: int| 0 <= j < i ==> ids@[j] != id,
        decreases ids.len() - i,
    {
        if ids[i] == id {
            return true;
        }
        i += 1;
    }
    false
}

} // verus!
