//! Runs of rows with one key, cut by `itertools`, and what follows from the
//! way the runs lie in the rows.
use vstd::prelude::*;
use itertools::Itertools;

verus! {

/// The rows of the runs one after the other, each with the key of its run.
pub open spec fn flatten<R>(runs: Seq<(i32, Vec<R>)>) -> Seq<(i32, R)>
    decreases runs.len(),
{
    if runs.len() == 0 {
        Seq::empty()
    } else {
        flatten(runs.drop_last()) + with_key(runs.last().0, runs.last().1@)
    }
}

/// The rows, each with the key `key`.
pub open spec fn with_key<R>(key: i32, rows: Seq<R>) -> Seq<(i32, R)> {
    Seq::new(rows.len(), |i: int| (key, rows[i]))
}

/// The runs are those of some keyed rows: none is empty, and no run has the
/// key of the run before it.
pub open spec fn are_runs<R>(runs: Seq<(i32, Vec<R>)>) -> bool {
    &&& forall|c: int| 0 <= c < runs.len() ==> (#[trigger] runs[c]).1@.len() > 0
    &&& forall|c: int| 0 <= c < runs.len() - 1 ==> (#[trigger] runs[c]).0 != runs[c + 1].0
}

/// `Itertools::group_by` on the first component, each group collected with
/// its key: the rows are cut into runs of rows that follow each other and
/// share a key. Put one after the other the runs give the rows back; no run
/// is empty; a run ends where the key changes.
#[verifier::external_body]
pub(crate) fn runs_by_key<R>(rows: Vec<(i32, R)>) -> (runs: Vec<(i32, Vec<R>)>)
    ensures
        flatten(runs@) == rows@,
        are_runs(runs@),
{
    rows.into_iter().group_by(|row| row.0).into_iter().map(
        |(key, group)| (key, group.map(|row| row.1).collect()),
    ).collect()
}

/// The position in the rows at which a run begins.
pub open spec fn run_start<R>(runs: Seq<(i32, Vec<R>)>, c: int) -> int {
    flatten(runs.take(c)).len() as int
}

/// Where the rows of a run lie: the row `i` of the run `c` is the row at
/// `run_start(c) + i`, and carries the key of the run.
pub proof fn lemma_run_rows<R>(runs: Seq<(i32, Vec<R>)>, c: int, i: int)
    requires
        0 <= c < runs.len(),
        0 <= i < runs[c].1@.len(),
    ensures
        0 <= run_start(runs, c) + i < flatten(runs).len(),
        flatten(runs)[run_start(runs, c) + i] == (runs[c].0, runs[c].1@[i]),
        run_start(runs, c) + runs[c].1@.len() == run_start(runs, c + 1),
    decreases runs.len(),
{
    let head = runs.drop_last();
    assert(runs.take(runs.len() as int) =~= runs);
    if c == runs.len() - 1 {
        assert(runs.take(c) =~= head);
        assert(runs.take(c + 1) =~= runs);
    } else {
        assert(head.take(c) =~= runs.take(c));
        assert(head.take(c + 1) =~= runs.take(c + 1));
        lemma_run_rows(head, c, i);
    }
}

/// Every row lies in some run.
pub proof fn lemma_row_in_run<R>(runs: Seq<(i32, Vec<R>)>, n: int) -> (at: (int, int))
    requires
        0 <= n < flatten(runs).len(),
    ensures
        0 <= at.0 < runs.len(),
        0 <= at.1 < runs[at.0].1@.len(),
        run_start(runs, at.0) + at.1 == n,
    decreases runs.len(),
{
    let head = runs.drop_last();
    let c = runs.len() - 1;
    assert(runs.take(c) =~= head);
    if n < flatten(head).len() {
        let at = lemma_row_in_run(head, n);
        assert(head.take(at.0) =~= runs.take(at.0));
        at
    } else {
        (c, n - flatten(head).len())
    }
}

/// The starts of the runs grow with the runs.
pub proof fn lemma_run_starts_grow<R>(runs: Seq<(i32, Vec<R>)>, c: int, d: int)
    requires
        0 <= c <= d <= runs.len(),
    ensures
        run_start(runs, c) <= run_start(runs, d),
    decreases d - c,
{
    if c < d {
        lemma_run_starts_grow(runs, c, d - 1);
        assert(runs.take(d).drop_last() =~= runs.take(d - 1));
    }
}

/// Where the keys of the rows never fall, the keys of the runs rise.
pub proof fn lemma_run_keys_rise<R>(runs: Seq<(i32, Vec<R>)>, c: int, d: int)
    requires
        are_runs(runs),
        forall|i: int, j: int|
            0 <= i < j < flatten(runs).len() ==> (#[trigger] flatten(runs)[i]).0 <= (
            #[trigger] flatten(runs)[j]).0,
        0 <= c < d < runs.len(),
    ensures
        runs[c].0 < runs[d].0,
    decreases d - c,
{
    let rows = flatten(runs);
    lemma_run_rows(runs, d - 1, runs[d - 1].1@.len() - 1);
    lemma_run_rows(runs, d, 0);
    let last = run_start(runs, d - 1) + runs[d - 1].1@.len() - 1;
    let first = run_start(runs, d);
    assert(rows[last].0 <= rows[first].0);
    if c < d - 1 {
        lemma_run_keys_rise(runs, c, d - 1);
    }
}

} // verus!
