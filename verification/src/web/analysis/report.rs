//! The two reports: the students who are eligible to pass, and those who owe
//! a rework.
use vstd::prelude::*;
use vstd::relations::sorted_by;
use bit_vec::BitVec;
use super::meaning::{
    enrolled, has_any_record, has_record, lemma_entry_reports, lemma_groups_mean,
    lemma_summary_meaning, lemma_summary_rises, mark_of, tied_through,
};
use super::student::Student;
use super::summary::{marked, marked_in, reports, rising, summarizes};
use super::verdict::{
    complete, copied_from, display_order, each_once, eligible, eligible_students, has_all, has_any,
    has_entry, has_student, in_display_order, intersection, lemma_reordered_students, same_student,
    students_with_all, students_with_any, taken_first, taken_from,
};
use super::{
    completion_records, counted_task, elaboration_marks, elaboration_records,
    lemma_column_distinct, load_elaborations_by_student, load_tasks_by_student, task_marks,
};
use crate::db::models::{full_name, Experiment, Task};
use crate::db::schema::{experiment_id, experiment_year, task_id, Tables};
use crate::db::store::Database;
use crate::errors::{ApiError, ApiResult};
use crate::ordering::{by_key, lemma_reordered_distinct, lemma_same_rows, sort_by_key};
use crate::relation::{column, key_is, keys_distinct, lemma_filter_distinct, lemma_filter_positions};
use crate::web::models::{is_writable_year, year_writable};
use crate::web::session::User;

verus! {

/// What a report shows.
pub struct Analysis {
    pub heading: &'static str,
    pub show_export_links: bool,
    pub students: Vec<Student>,
    pub year: i16,
    pub read_only_year: bool,
}

/// One of the student's groups has completed the task.
pub open spec fn has_completed(t: Tables, student: i32, task: i32) -> bool {
    has_record(t, completion_records(t.completions), student, task)
}

/// One of the student's groups has completed something.
pub open spec fn has_completions(t: Tables, student: i32) -> bool {
    has_any_record(t, completion_records(t.completions), student)
}

/// Every required task of the year is completed by one of the student's
/// groups. Extras are not required.
pub open spec fn all_tasks_done(t: Tables, year: i16, student: i32) -> bool {
    forall|x: int|
        0 <= x < t.tasks.len() && counted_task(t, year, false)(#[trigger] t.tasks[x])
            ==> has_completed(t, student, t.tasks[x].id)
}

/// For every experiment of the year, an elaboration of one of the student's
/// groups is accepted.
pub open spec fn all_accepted(t: Tables, year: i16, student: i32) -> bool {
    forall|e: int|
        0 <= e < t.experiments.len() && (#[trigger] t.experiments[e]).year == year ==> has_record(
            t,
            elaboration_records(t.elaborations, None, Some(true)),
            student,
            t.experiments[e].id,
        )
}

/// For some experiment of the year, one of the student's groups has an
/// elaboration that needs a rework and is not accepted.
pub open spec fn has_open_rework(t: Tables, year: i16, student: i32) -> bool {
    exists|e: int|
        0 <= e < t.experiments.len() && (#[trigger] t.experiments[e]).year == year && has_record(
            t,
            elaboration_records(t.elaborations, Some(true), Some(false)),
            student,
            t.experiments[e].id,
        )
}

/// The student is eligible to pass the year: they are a student of the year
/// with a completion or an accepted elaboration to their name, every
/// required task is done and every experiment has an accepted elaboration.
/// Where the year has no task and no experiment yet, a completion or an
/// accepted elaboration is enough; a student without either is never
/// eligible.
pub open spec fn passes(t: Tables, year: i16, student: i32) -> bool {
    &&& enrolled(t, year, student)
    &&& has_completions(t, student) || has_any_record(
        t,
        elaboration_records(t.elaborations, None, Some(true)),
        student,
    )
    &&& all_tasks_done(t, year, student)
    &&& all_accepted(t, year, student)
}

/// The student owes a rework: they are a student of the year with every
/// required task done, and an elaboration of theirs waits for its rework.
pub open spec fn owes_rework(t: Tables, year: i16, student: i32) -> bool {
    &&& enrolled(t, year, student)
    &&& has_completions(t, student)
    &&& all_tasks_done(t, year, student)
    &&& has_open_rework(t, year, student)
}

/// The ids of the experiments of the year.
pub open spec fn experiment_of_year(t: Tables, year: i16) -> spec_fn(i32) -> bool {
    |id: i32|
        exists|e: int|
            0 <= e < t.experiments.len() && (#[trigger] t.experiments[e]).id == id && t.experiments[e].year
                == year
}

/// The ids of the required tasks of the year.
pub open spec fn required_task(t: Tables, year: i16) -> spec_fn(i32) -> bool {
    |id: i32|
        exists|x: int|
            0 <= x < t.tasks.len() && (#[trigger] t.tasks[x]).id == id && counted_task(t, year, false)(
                t.tasks[x],
            )
}

/// The value shows the student at `s` of the store: their data as the store
/// has them, and as their groups, rising, those through which they have a
/// record of an item that is wanted.
pub open spec fn shows(
    t: Tables,
    s: int,
    student: Student,
    records: Seq<(i32, i32)>,
    wanted: spec_fn(i32) -> bool,
) -> bool {
    let row = t.students[s];
    &&& student.id == row.id
    &&& student.matrikel == row.matrikel
    &&& student.name@ == full_name(row.given_name@, row.family_name@)
    &&& student.username == row.username
    &&& student.instructed == row.instructed
    &&& rising(student.groups@)
    &&& forall|g: i32| #[trigger]
        student.groups@.contains(g) <==> tied_through(t, records, row.id, g, wanted)
}

/// The value shows a student of the year, with the groups through which
/// they have a record of an item that is wanted.
pub open spec fn listed_with(
    t: Tables,
    year: i16,
    student: Student,
    records: Seq<(i32, i32)>,
    wanted: spec_fn(i32) -> bool,
) -> bool {
    exists|s: int|
        0 <= s < t.students.len() && t.students[s].year == year && #[trigger] shows(
            t,
            s,
            student,
            records,
            wanted,
        )
}

/// How a student who owes a rework is listed: with the groups that have an
/// elaboration waiting for its rework, for an experiment of the year.
pub open spec fn listed_owing(t: Tables, year: i16, student: Student) -> bool {
    listed_with(
        t,
        year,
        student,
        elaboration_records(t.elaborations, Some(true), Some(false)),
        experiment_of_year(t, year),
    )
}

/// How a student who is eligible is listed: where they have an accepted
/// elaboration, with the groups that have one for an experiment of the year;
/// else with the groups that have completed a required task of the year.
pub open spec fn listed_eligible(t: Tables, year: i16, student: Student) -> bool {
    if has_any_record(t, elaboration_records(t.elaborations, None, Some(true)), student.id) {
        listed_with(
            t,
            year,
            student,
            elaboration_records(t.elaborations, None, Some(true)),
            experiment_of_year(t, year),
        )
    } else {
        listed_with(t, year, student, completion_records(t.completions), required_task(t, year))
    }
}

/// Where a listed row lies in the table.
pub open spec fn row_of<T>(rows: Seq<T>, keep: spec_fn(T) -> bool, row: T) -> int {
    choose|x: int| 0 <= x < rows.len() && keep(#[trigger] rows[x]) && rows[x] == row
}

/// Where a row of the table lies in the list.
pub open spec fn place_of<T>(listed: Seq<T>, row: T) -> int {
    choose|p: int| 0 <= p < listed.len() && listed[p] == row
}

/// The list holds the rows of the table that are kept, and no others.
pub proof fn lemma_listed_rows<T>(rows: Seq<T>, keep: spec_fn(T) -> bool, listed: Seq<T>)
    requires
        listed.to_multiset() == rows.filter(keep).to_multiset(),
    ensures
        forall|p: int|
            0 <= p < listed.len() ==> {
                let x = row_of(rows, keep, #[trigger] listed[p]);
                0 <= x < rows.len() && keep(rows[x]) && rows[x] == listed[p]
            },
        forall|x: int|
            0 <= x < rows.len() && keep(#[trigger] rows[x]) ==> {
                let p = place_of(listed, rows[x]);
                0 <= p < listed.len() && listed[p] == rows[x]
            },
{
    let kept = rows.filter(keep);
    let at = lemma_filter_positions(rows, keep);
    lemma_same_rows(listed, kept);
    assert forall|p: int| 0 <= p < listed.len() implies {
        let x = row_of(rows, keep, #[trigger] listed[p]);
        0 <= x < rows.len() && keep(rows[x]) && rows[x] == listed[p]
    } by {
        assert(listed.contains(listed[p]));
        let k = choose|k: int| 0 <= k < kept.len() && kept[k] == listed[p];
        assert(rows[at[k]] == kept[k]);
    }
    assert forall|x: int| 0 <= x < rows.len() && keep(#[trigger] rows[x]) implies {
        let p = place_of(listed, rows[x]);
        0 <= p < listed.len() && listed[p] == rows[x]
    } by {
        let k = choose|k: int| 0 <= k < at.len() && #[trigger] at[k] == x;
        assert(kept[k] == rows[x]);
        assert(kept.contains(rows[x]));
        assert(listed.contains(rows[x]));
    }
}

/// What holds of the ids in an index holds of the rows that the index was
/// made of, and the other way round.
pub proof fn lemma_index_covers<T>(
    rows: Seq<T>,
    keep: spec_fn(T) -> bool,
    listed: Seq<T>,
    key: spec_fn(T) -> i32,
    q: spec_fn(i32) -> bool,
)
    requires
        listed.to_multiset() == rows.filter(keep).to_multiset(),
    ensures
        (forall|p: int| 0 <= p < listed.len() ==> q(#[trigger] column(listed, key)[p])) <==> (forall|
            x: int,
        |
            0 <= x < rows.len() && keep(#[trigger] rows[x]) ==> q(key(rows[x]))),
        (exists|p: int| 0 <= p < listed.len() && q(#[trigger] column(listed, key)[p])) <==> (exists|
            x: int,
        |
            0 <= x < rows.len() && keep(#[trigger] rows[x]) && q(key(rows[x]))),
{
    lemma_listed_rows(rows, keep, listed);
    let ids = column(listed, key);
    if forall|p: int| 0 <= p < listed.len() ==> q(#[trigger] ids[p]) {
        assert forall|x: int| 0 <= x < rows.len() && keep(#[trigger] rows[x]) implies q(key(rows[x])) by {
            let p = place_of(listed, rows[x]);
            assert(q(ids[p]));
        }
    }
    if forall|x: int| 0 <= x < rows.len() && keep(#[trigger] rows[x]) ==> q(key(rows[x])) {
        assert forall|p: int| 0 <= p < listed.len() implies q(#[trigger] ids[p]) by {
            let x = row_of(rows, keep, listed[p]);
            assert(q(key(rows[x])));
        }
    }
    if exists|p: int| 0 <= p < listed.len() && q(#[trigger] ids[p]) {
        let p = choose|p: int| 0 <= p < listed.len() && q(#[trigger] ids[p]);
        let x = row_of(rows, keep, listed[p]);
        assert(keep(rows[x]) && q(key(rows[x])));
    }
    if exists|x: int| 0 <= x < rows.len() && keep(#[trigger] rows[x]) && q(key(rows[x])) {
        let x = choose|x: int| 0 <= x < rows.len() && keep(#[trigger] rows[x]) && q(key(rows[x]));
        let p = place_of(listed, rows[x]);
        assert(q(ids[p]));
    }
}

/// What the summary of the tasks says of a student, in terms of the store.
pub proof fn lemma_task_summary(
    t: Tables,
    year: i16,
    tasks: Seq<Task>,
    out: Seq<(Student, BitVec<u32>)>,
    student: i32,
)
    requires
        keys_distinct(t.tasks, task_id()),
        tasks.len() <= usize::MAX,
        tasks.to_multiset() == t.tasks.filter(counted_task(t, year, false)).to_multiset(),
        summarizes(
            t,
            year,
            completion_records(t.completions).map_values(mark_of(column(tasks, task_id()))),
            tasks.len(),
            out,
        ),
    ensures
        has_entry(out, student) <==> enrolled(t, year, student) && has_completions(t, student),
        has_all(out, student) <==> has_entry(out, student) && all_tasks_done(t, year, student),
        enrolled(t, year, student) ==> (complete(out, tasks.len(), student) <==> all_tasks_done(
            t,
            year,
            student,
        )),
{
    let keep = counted_task(t, year, false);
    let ids = column(tasks, task_id());
    let records = completion_records(t.completions);
    lemma_filter_distinct(t.tasks, keep, task_id());
    lemma_reordered_distinct(t.tasks.filter(keep), tasks, task_id());
    lemma_column_distinct(tasks, task_id());
    lemma_summary_meaning(t, year, records, ids, out, student);
    let q = |id: i32| has_record(t, records, student, id);
    lemma_index_covers(t.tasks, keep, tasks, task_id(), q);
    assert((forall|p: int| 0 <= p < ids.len() ==> has_record(t, records, student, #[trigger] ids[p]))
        <==> all_tasks_done(t, year, student)) by {
        if forall|p: int| 0 <= p < ids.len() ==> has_record(t, records, student, #[trigger] ids[p]) {
            assert forall|p: int| 0 <= p < tasks.len() implies q(#[trigger] column(tasks, task_id())[p]) by {
                assert(has_record(t, records, student, ids[p]));
            }
            assert forall|x: int|
                0 <= x < t.tasks.len() && keep(#[trigger] t.tasks[x]) implies has_completed(
                t,
                student,
                t.tasks[x].id,
            ) by {
                assert(q(task_id()(t.tasks[x])));
            }
        }
        if all_tasks_done(t, year, student) {
            assert forall|x: int| 0 <= x < t.tasks.len() && keep(#[trigger] t.tasks[x]) implies q(
                task_id()(t.tasks[x]),
            ) by {
                assert(has_completed(t, student, t.tasks[x].id));
            }
            assert forall|p: int| 0 <= p < ids.len() implies has_record(
                t,
                records,
                student,
                #[trigger] ids[p],
            ) by {
                assert(q(column(tasks, task_id())[p]));
            }
        }
    }
    if enrolled(t, year, student) && !has_entry(out, student) {
        // without a completion at all, the tasks are done only where there is none
        if tasks.len() > 0 && all_tasks_done(t, year, student) {
            assert(has_record(t, records, student, ids[0]));
            assert(has_any_record(t, records, student));
        }
    }
}

/// What the summary of the elaborations in a wanted state says of a student,
/// in terms of the store.
pub proof fn lemma_elaboration_summary(
    t: Tables,
    year: i16,
    rework_required: Option<bool>,
    accepted: Option<bool>,
    experiments: Seq<Experiment>,
    out: Seq<(Student, BitVec<u32>)>,
    student: i32,
)
    requires
        keys_distinct(t.experiments, experiment_id()),
        experiments.len() <= usize::MAX,
        experiments.to_multiset() == t.experiments.filter(
            key_is(experiment_year(), year as i32),
        ).to_multiset(),
        summarizes(
            t,
            year,
            elaboration_records(t.elaborations, rework_required, accepted).map_values(
                mark_of(column(experiments, experiment_id())),
            ),
            experiments.len(),
            out,
        ),
    ensures
        has_entry(out, student) <==> enrolled(t, year, student) && has_any_record(
            t,
            elaboration_records(t.elaborations, rework_required, accepted),
            student,
        ),
        has_all(out, student) <==> has_entry(out, student) && forall|e: int|
            0 <= e < t.experiments.len() && (#[trigger] t.experiments[e]).year == year
                ==> has_record(
                t,
                elaboration_records(t.elaborations, rework_required, accepted),
                student,
                t.experiments[e].id,
            ),
        has_any(out, student) <==> has_entry(out, student) && exists|e: int|
            0 <= e < t.experiments.len() && (#[trigger] t.experiments[e]).year == year && has_record(
                t,
                elaboration_records(t.elaborations, rework_required, accepted),
                student,
                t.experiments[e].id,
            ),
        enrolled(t, year, student) ==> (complete(out, experiments.len(), student) <==> forall|e: int|
            0 <= e < t.experiments.len() && (#[trigger] t.experiments[e]).year == year
                ==> has_record(
                t,
                elaboration_records(t.elaborations, rework_required, accepted),
                student,
                t.experiments[e].id,
            )),
{
    let keep = key_is(experiment_year(), year as i32);
    let ids = column(experiments, experiment_id());
    let records = elaboration_records(t.elaborations, rework_required, accepted);
    lemma_filter_distinct(t.experiments, keep, experiment_id());
    lemma_reordered_distinct(t.experiments.filter(keep), experiments, experiment_id());
    lemma_column_distinct(experiments, experiment_id());
    lemma_summary_meaning(t, year, records, ids, out, student);
    let q = |id: i32| has_record(t, records, student, id);
    lemma_index_covers(t.experiments, keep, experiments, experiment_id(), q);
    let every = forall|e: int|
        0 <= e < t.experiments.len() && (#[trigger] t.experiments[e]).year == year ==> has_record(
            t,
            records,
            student,
            t.experiments[e].id,
        );
    let some = exists|e: int|
        0 <= e < t.experiments.len() && (#[trigger] t.experiments[e]).year == year && has_record(
            t,
            records,
            student,
            t.experiments[e].id,
        );
    assert((forall|p: int| 0 <= p < ids.len() ==> has_record(t, records, student, #[trigger] ids[p]))
        <==> every) by {
        if forall|p: int| 0 <= p < ids.len() ==> has_record(t, records, student, #[trigger] ids[p]) {
            assert forall|p: int| 0 <= p < experiments.len() implies q(
                #[trigger] column(experiments, experiment_id())[p],
            ) by {
                assert(has_record(t, records, student, ids[p]));
            }
            assert forall|e: int|
                0 <= e < t.experiments.len() && (#[trigger] t.experiments[e]).year == year implies has_record(
                t,
                records,
                student,
                t.experiments[e].id,
            ) by {
                assert(keep(t.experiments[e]));
                assert(q(experiment_id()(t.experiments[e])));
            }
        }
        if every {
            assert forall|x: int| 0 <= x < t.experiments.len() && keep(#[trigger] t.experiments[x]) implies q(
                experiment_id()(t.experiments[x]),
            ) by {
                assert(t.experiments[x].year == year);
            }
            assert forall|p: int| 0 <= p < ids.len() implies has_record(
                t,
                records,
                student,
                #[trigger] ids[p],
            ) by {
                assert(q(column(experiments, experiment_id())[p]));
            }
        }
    }
    assert((exists|p: int| 0 <= p < ids.len() && has_record(t, records, student, #[trigger] ids[p]))
        <==> some) by {
        if exists|p: int| 0 <= p < ids.len() && has_record(t, records, student, #[trigger] ids[p]) {
            let p = choose|p: int|
                0 <= p < ids.len() && has_record(t, records, student, #[trigger] ids[p]);
            assert(q(column(experiments, experiment_id())[p]));
            let x = choose|x: int|
                0 <= x < t.experiments.len() && keep(#[trigger] t.experiments[x]) && q(
                    experiment_id()(t.experiments[x]),
                );
            assert(t.experiments[x].year == year);
        }
        if some {
            let e = choose|e: int|
                0 <= e < t.experiments.len() && (#[trigger] t.experiments[e]).year == year
                    && has_record(t, records, student, t.experiments[e].id);
            assert(keep(t.experiments[e]) && q(experiment_id()(t.experiments[e])));
            let p = choose|p: int|
                0 <= p < experiments.len() && q(#[trigger] column(experiments, experiment_id())[p]);
            assert(has_record(t, records, student, ids[p]));
        }
    }
    if enrolled(t, year, student) && !has_entry(out, student) {
        if experiments.len() > 0 && every {
            assert(has_record(t, records, student, ids[0]));
            assert(has_any_record(t, records, student));
        }
    }
}

/// The ids of an index are the keys of the rows that the index was made of.
pub proof fn lemma_index_holds<T>(
    rows: Seq<T>,
    keep: spec_fn(T) -> bool,
    listed: Seq<T>,
    key: spec_fn(T) -> i32,
    id: i32,
)
    requires
        listed.to_multiset() == rows.filter(keep).to_multiset(),
    ensures
        column(listed, key).contains(id) <==> exists|x: int|
            0 <= x < rows.len() && keep(#[trigger] rows[x]) && key(rows[x]) == id,
{
    let q = |i: i32| i == id;
    lemma_index_covers(rows, keep, listed, key, q);
    let ids = column(listed, key);
    if ids.contains(id) {
        let p = choose|p: int| 0 <= p < ids.len() && ids[p] == id;
        assert(q(ids[p]));
    }
    if exists|x: int| 0 <= x < rows.len() && keep(#[trigger] rows[x]) && key(rows[x]) == id {
        let x = choose|x: int| 0 <= x < rows.len() && keep(#[trigger] rows[x]) && key(rows[x]) == id;
        assert(q(key(rows[x])));
        let p = choose|p: int| 0 <= p < listed.len() && q(#[trigger] ids[p]);
        assert(ids[p] == id);
    }
}

/// A copy of the student of an entry of a summary shows a student of the
/// year, with the groups through which they have a record of an id of the
/// index.
pub proof fn lemma_copy_shows(
    t: Tables,
    year: i16,
    records: Seq<(i32, i32)>,
    ids: Seq<i32>,
    wanted: spec_fn(i32) -> bool,
    out: Seq<(Student, BitVec<u32>)>,
    student: Student,
)
    requires
        summarizes(t, year, records.map_values(mark_of(ids)), ids.len(), out),
        taken_from(student, out),
        ids.no_duplicates(),
        ids.len() <= usize::MAX,
        forall|id: i32| ids.contains(id) <==> wanted(id),
    ensures
        listed_with(t, year, student, records, wanted),
{
    let marks = records.map_values(mark_of(ids));
    let w = ids.len();
    let j = choose|j: int| 0 <= j < out.len() && same_student(student, (#[trigger] out[j]).0);
    lemma_entry_reports(t, year, marks, w, out, j);
    let s = choose|s: int|
        0 <= s < t.students.len() && t.students[s].year == year && marked(t, marks, t.students[s].id)
            && #[trigger] reports(t, marks, w, out[j], s);
    let row = t.students[s];
    assert forall|g: i32| #[trigger]
        student.groups@.contains(g) <==> tied_through(t, records, row.id, g, wanted) by {
        lemma_groups_mean(t, records, ids, row.id, g, wanted);
        assert(out[j].0.groups@.contains(g) <==> marked_in(t, marks, w, row.id, g));
    }
    assert(shows(t, s, student, records, wanted));
}

/// The index of the experiments of a year holds their ids, each once.
pub proof fn lemma_experiment_index(t: Tables, year: i16, experiments: Seq<Experiment>)
    requires
        keys_distinct(t.experiments, experiment_id()),
        experiments.to_multiset() == t.experiments.filter(
            key_is(experiment_year(), year as i32),
        ).to_multiset(),
    ensures
        column(experiments, experiment_id()).no_duplicates(),
        forall|id: i32|
            column(experiments, experiment_id()).contains(id) <==> experiment_of_year(t, year)(id),
{
    let keep = key_is(experiment_year(), year as i32);
    lemma_filter_distinct(t.experiments, keep, experiment_id());
    lemma_reordered_distinct(t.experiments.filter(keep), experiments, experiment_id());
    lemma_column_distinct(experiments, experiment_id());
    assert forall|id: i32|
        column(experiments, experiment_id()).contains(id) <==> experiment_of_year(t, year)(id) by {
        lemma_index_holds(t.experiments, keep, experiments, experiment_id(), id);
        if experiment_of_year(t, year)(id) {
            let e = choose|e: int|
                0 <= e < t.experiments.len() && (#[trigger] t.experiments[e]).id == id
                    && t.experiments[e].year == year;
            assert(keep(t.experiments[e]) && experiment_id()(t.experiments[e]) == id);
        }
        if exists|x: int|
            0 <= x < t.experiments.len() && keep(#[trigger] t.experiments[x]) && experiment_id()(
                t.experiments[x],
            ) == id {
            let x = choose|x: int|
                0 <= x < t.experiments.len() && keep(#[trigger] t.experiments[x]) && experiment_id()(
                    t.experiments[x],
                ) == id;
            assert(t.experiments[x].id == id && t.experiments[x].year == year);
        }
    }
}

/// The index of the required tasks of a year holds their ids, each once.
pub proof fn lemma_task_index(t: Tables, year: i16, tasks: Seq<Task>)
    requires
        keys_distinct(t.tasks, task_id()),
        tasks.to_multiset() == t.tasks.filter(counted_task(t, year, false)).to_multiset(),
    ensures
        column(tasks, task_id()).no_duplicates(),
        forall|id: i32| column(tasks, task_id()).contains(id) <==> required_task(t, year)(id),
{
    let keep = counted_task(t, year, false);
    lemma_filter_distinct(t.tasks, keep, task_id());
    lemma_reordered_distinct(t.tasks.filter(keep), tasks, task_id());
    lemma_column_distinct(tasks, task_id());
    assert forall|id: i32| column(tasks, task_id()).contains(id) <==> required_task(t, year)(id) by {
        lemma_index_holds(t.tasks, keep, tasks, task_id(), id);
        if required_task(t, year)(id) {
            let x = choose|x: int|
                0 <= x < t.tasks.len() && (#[trigger] t.tasks[x]).id == id && keep(t.tasks[x]);
            assert(keep(t.tasks[x]) && task_id()(t.tasks[x]) == id);
        }
        if exists|x: int| 0 <= x < t.tasks.len() && keep(#[trigger] t.tasks[x]) && task_id()(t.tasks[x]) == id {
            let x = choose|x: int|
                0 <= x < t.tasks.len() && keep(#[trigger] t.tasks[x]) && task_id()(t.tasks[x]) == id;
            assert(t.tasks[x].id == id);
        }
    }
}

/// The order of students by id.
pub open spec fn id_order() -> spec_fn(Student) -> Seq<i128> {
    |s: Student| seq![s.id as i128]
}

fn id_order_of(s: &Student) -> (k: Vec<i128>)
    ensures
        k@ == id_order()(*s),
{
    let mut k: Vec<i128> = Vec::new();
    k.push(s.id as i128);
    assert(k@ =~= seq![s.id as i128]);
    k
}

/// The students who are eligible to pass the year, in the order of their
/// ids. It is for the tutors of the year.
pub fn passed(year: i16, conn: &Database, user: &User) -> (r: ApiResult<Analysis>)
    requires
        conn.wf(),
    ensures
        r is Ok <==> user@.is_tutor_for(year),
        r is Err ==> r->Err_0 == ApiError::Forbidden,
        r matches Ok(a) ==> {
            &&& a.heading@ == "Zugelassene Studenten"@
            &&& a.show_export_links == user@.site_admin
            &&& a.year == year
            &&& a.read_only_year == !year_writable(conn@, year)
            &&& each_once(a.students@)
            &&& sorted_by(a.students@, by_key(id_order()))
            &&& forall|id: i32| has_student(a.students@, id) <==> passes(conn@, year, id)
            &&& forall|i: int|
                0 <= i < a.students@.len() ==> listed_eligible(conn@, year, #[trigger] a.students@[i])
        },
{
    if user.ensure_tutor_for(year).is_err() {
        return Err(ApiError::Forbidden);
    }
    let students = eligible_of(year, conn);
    Ok(
        Analysis {
            heading: "Zugelassene Studenten",
            show_export_links: user.is_site_admin(),
            students,
            year,
            read_only_year: !is_writable_year(year, conn),
        },
    )
}

/// The students who are eligible to pass the year, in the order of their
/// ids.
pub fn eligible_of(year: i16, conn: &Database) -> (r: Vec<Student>)
    requires
        conn.wf(),
    ensures
        each_once(r@),
        sorted_by(r@, by_key(id_order())),
        forall|id: i32| has_student(r@, id) <==> passes(conn@, year, id),
        forall|i: int| 0 <= i < r@.len() ==> listed_eligible(conn@, year, #[trigger] r@[i]),
{
    let ghost t = conn@;
    let (task_entries, tasks) = load_tasks_by_student(year, false, conn);
    let (accepted, experiments) = load_elaborations_by_student(year, None, Some(true), conn);
    proof {
        lemma_summary_rises(t, year, task_marks(t.completions, tasks@), tasks@.len(), task_entries@);
        lemma_summary_rises(
            t,
            year,
            elaboration_marks(t.elaborations, experiments@, None, Some(true)),
            experiments@.len(),
            accepted@,
        );
    }
    let found = eligible_students(&task_entries, tasks.len(), &accepted, experiments.len());
    let students = sort_by_key(found, &id_order_of, Ghost(id_order()));
    proof {
        lemma_reordered_students(found@, students@);
        assert forall|id: i32| has_student(students@, id) <==> passes(t, year, id) by {
            lemma_task_summary(t, year, tasks@, task_entries@, id);
            lemma_elaboration_summary(t, year, None, Some(true), experiments@, accepted@, id);
            assert(has_student(found@, id) <==> eligible(
                task_entries@,
                tasks@.len(),
                accepted@,
                experiments@.len(),
                id,
            ));
        }
        lemma_experiment_index(t, year, experiments@);
        lemma_task_index(t, year, tasks@);
        assert forall|i: int| 0 <= i < students@.len() implies listed_eligible(
            t,
            year,
            #[trigger] students@[i],
        ) by {
            let student = students@[i];
            assert(found@.contains(student));
            let n = choose|n: int| 0 <= n < found@.len() && found@[n] == student;
            assert(taken_first(found@[n], accepted@, task_entries@));
            assert(has_student(students@, student.id));
            lemma_elaboration_summary(t, year, None, Some(true), experiments@, accepted@, student.id);
            if has_entry(accepted@, student.id) {
                lemma_copy_shows(
                    t,
                    year,
                    elaboration_records(t.elaborations, None, Some(true)),
                    column(experiments@, experiment_id()),
                    experiment_of_year(t, year),
                    accepted@,
                    student,
                );
            } else {
                lemma_copy_shows(
                    t,
                    year,
                    completion_records(t.completions),
                    column(tasks@, task_id()),
                    required_task(t, year),
                    task_entries@,
                    student,
                );
            }
        }
    }
    students
}

/// The students who owe a rework, so that students of one group stand
/// together. It is for the tutors of the year.
pub fn missing_reworks(year: i16, conn: &Database, user: &User) -> (r: ApiResult<Analysis>)
    requires
        conn.wf(),
    ensures
        r is Ok <==> user@.is_tutor_for(year),
        r is Err ==> r->Err_0 == ApiError::Forbidden,
        r matches Ok(a) ==> {
            &&& a.heading@ == "Fehlende Nachbesserungen"@
            &&& !a.show_export_links
            &&& a.year == year
            &&& a.read_only_year == !year_writable(conn@, year)
            &&& each_once(a.students@)
            &&& sorted_by(a.students@, by_key(display_order()))
            &&& forall|id: i32| has_student(a.students@, id) <==> owes_rework(conn@, year, id)
            &&& forall|i: int|
                0 <= i < a.students@.len() ==> listed_owing(conn@, year, #[trigger] a.students@[i])
        },
{
    if user.ensure_tutor_for(year).is_err() {
        return Err(ApiError::Forbidden);
    }
    let students = owing_rework(year, conn);
    Ok(
        Analysis {
            heading: "Fehlende Nachbesserungen",
            show_export_links: false,
            students,
            year,
            read_only_year: !is_writable_year(year, conn),
        },
    )
}

/// The students who owe a rework, so that students of one group stand
/// together.
pub fn owing_rework(year: i16, conn: &Database) -> (r: Vec<Student>)
    requires
        conn.wf(),
    ensures
        each_once(r@),
        sorted_by(r@, by_key(display_order())),
        forall|id: i32| has_student(r@, id) <==> owes_rework(conn@, year, id),
        forall|i: int| 0 <= i < r@.len() ==> listed_owing(conn@, year, #[trigger] r@[i]),
{
    let ghost t = conn@;
    let (task_entries, tasks) = load_tasks_by_student(year, false, conn);
    let (reworks, experiments) = load_elaborations_by_student(year, Some(true), Some(false), conn);
    proof {
        lemma_summary_rises(t, year, task_marks(t.completions, tasks@), tasks@.len(), task_entries@);
        lemma_summary_rises(
            t,
            year,
            elaboration_marks(t.elaborations, experiments@, Some(true), Some(false)),
            experiments@.len(),
            reworks@,
        );
    }
    let students_with_all_tasks = students_with_all(&task_entries);
    let students_with_unaccepted_reworks = students_with_any(&reworks);
    let both = intersection(&students_with_unaccepted_reworks, &students_with_all_tasks);
    let students = in_display_order(both);
    proof {
        assert(tasks@.len() == tasks.len());
        assert(experiments@.len() == experiments.len());
        lemma_reordered_students(both@, students@);
        assert forall|id: i32| has_student(students@, id) <==> owes_rework(t, year, id) by {
            lemma_task_summary(t, year, tasks@, task_entries@, id);
            lemma_elaboration_summary(t, year, Some(true), Some(false), experiments@, reworks@, id);
            assert(has_student(both@, id) <==> has_student(students_with_unaccepted_reworks@, id)
                && has_student(students_with_all_tasks@, id));
        }
        lemma_experiment_index(t, year, experiments@);
        assert forall|i: int| 0 <= i < students@.len() implies listed_owing(t, year, #[trigger] students@[i]) by {
            let student = students@[i];
            assert(both@.contains(student));
            let n = choose|n: int| 0 <= n < both@.len() && both@[n] == student;
            assert(copied_from(both@[n], students_with_unaccepted_reworks@));
            let m = choose|m: int|
                0 <= m < students_with_unaccepted_reworks@.len() && same_student(
                    student,
                    #[trigger] students_with_unaccepted_reworks@[m],
                );
            assert(taken_from(students_with_unaccepted_reworks@[m], reworks@));
            let j = choose|j: int|
                0 <= j < reworks@.len() && same_student(
                    students_with_unaccepted_reworks@[m],
                    (#[trigger] reworks@[j]).0,
                );
            assert(same_student(student, reworks@[j].0));
            lemma_copy_shows(
                t,
                year,
                elaboration_records(t.elaborations, Some(true), Some(false)),
                column(experiments@, experiment_id()),
                experiment_of_year(t, year),
                reworks@,
                student,
            );
        }
    }
    students
}

/// In a year without tasks and without experiments, every student of the
/// year who has a completion or an accepted elaboration is eligible, and a
/// student without either is not.
pub proof fn lemma_nothing_asked(t: Tables, year: i16, student: i32)
    requires
        forall|x: int| 0 <= x < t.tasks.len() ==> !counted_task(t, year, false)(#[trigger] t.tasks[x]),
        forall|e: int| 0 <= e < t.experiments.len() ==> (#[trigger] t.experiments[e]).year != year,
    ensures
        passes(t, year, student) <==> enrolled(t, year, student) && (has_completions(t, student)
            || has_any_record(t, elaboration_records(t.elaborations, None, Some(true)), student)),
{
}

} // verus!
