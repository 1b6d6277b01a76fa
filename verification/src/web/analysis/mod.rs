//! Who passes and who still owes a rework: per student, the bits of the
//! tasks done and of the elaborations handed in, and the lists drawn from
//! them.
pub mod graduates;
pub mod index;
pub mod meaning;
pub mod report;
pub mod student;
pub mod summary;
pub mod verdict;

use vstd::prelude::*;
use vstd::relations::sorted_by;
use bit_vec::BitVec;
use crate::db::models::{Completion, Elaboration, Experiment, Task};
use crate::db::schema::{experiment_id, experiment_year, task_id, Tables};
use crate::db::store::{experiment_id_of, task_id_of, Database};
use crate::ordering::{by_key, lemma_reordered_distinct, make_text_key, sort_by_key, text_key};
use crate::relation::{
    column, key_is, key_satisfies, keys_distinct, lemma_filter_distinct, lemma_filter_push, lookup,
    select_column, select_rows,
};
use index::Positions;
use meaning::mark_of;
use student::Student;
use summary::{summarize, summarizes, Mark};

verus! {

/// A task is an extra where its name begins with the letter Z, large or
/// small. Extras are not asked of anyone.
pub open spec fn is_extra(name: Seq<char>) -> bool {
    name.len() > 0 && (name[0] == 'Z' || name[0] == 'z')
}

/// Whether the name is that of an extra task.
pub fn is_extra_task(name: &str) -> (r: bool)
    ensures
        r == is_extra(name@),
{
    if name.unicode_len() == 0 {
        return false;
    }
    let first = name.get_char(0);
    first == 'Z' || first == 'z'
}

/// The tasks that an analysis of the year counts: those of the year's
/// experiments, without the extras unless they are asked for.
pub open spec fn counted_task(t: Tables, year: i16, include_extra: bool) -> spec_fn(Task) -> bool {
    |x: Task|
        key_satisfies(
            t.experiments,
            experiment_id(),
            x.experiment_id,
            key_is(experiment_year(), year as i32),
        ) && (include_extra || !is_extra(x.name@))
}

/// The order that gives each task its bit: by experiment, then by name, then
/// by id.
pub open spec fn task_order() -> spec_fn(Task) -> Seq<i128> {
    |x: Task| seq![x.experiment_id as i128] + text_key(x.name@) + seq![x.id as i128]
}

fn task_order_of(x: &Task) -> (k: Vec<i128>)
    ensures
        k@ == task_order()(*x),
{
    let mut k: Vec<i128> = Vec::new();
    k.push(x.experiment_id as i128);
    let mut name = make_text_key(x.name.as_str());
    k.append(&mut name);
    k.push(x.id as i128);
    assert(k@ =~= seq![x.experiment_id as i128] + text_key(x.name@) + seq![x.id as i128]);
    k
}

/// The order that gives each experiment its bit: by id.
pub open spec fn experiment_order() -> spec_fn(Experiment) -> Seq<i128> {
    |x: Experiment| seq![x.id as i128]
}

fn experiment_order_of(x: &Experiment) -> (k: Vec<i128>)
    ensures
        k@ == experiment_order()(*x),
{
    let mut k: Vec<i128> = Vec::new();
    k.push(x.id as i128);
    assert(k@ =~= seq![x.id as i128]);
    k
}

/// The record of a completion: its group and its task.
pub open spec fn completion_record() -> spec_fn(Completion) -> (i32, i32) {
    |c: Completion| (c.group_id, c.task_id)
}

/// The record of an elaboration: its group and its experiment.
pub open spec fn elaboration_record() -> spec_fn(Elaboration) -> (i32, i32) {
    |e: Elaboration| (e.group_id, e.experiment_id)
}

/// The records of all completions.
pub open spec fn completion_records(completions: Seq<Completion>) -> Seq<(i32, i32)> {
    completions.map_values(completion_record())
}

/// The elaborations that an analysis looks at: all, or those in the wanted
/// state of rework and of acceptance.
pub open spec fn wanted(rework_required: Option<bool>, accepted: Option<bool>) -> spec_fn(
    Elaboration,
) -> bool {
    |e: Elaboration|
        (rework_required matches Some(r) ==> e.rework_required == r) && (accepted matches Some(a)
            ==> e.accepted == a)
}

/// The records of the wanted elaborations.
pub open spec fn elaboration_records(
    elaborations: Seq<Elaboration>,
    rework_required: Option<bool>,
    accepted: Option<bool>,
) -> Seq<(i32, i32)> {
    elaborations.filter(wanted(rework_required, accepted)).map_values(elaboration_record())
}

/// The marks of all completions, for the tasks in their order. A completion
/// of a task that is not among them has no position.
pub open spec fn task_marks(completions: Seq<Completion>, tasks: Seq<Task>) -> Seq<Mark> {
    completion_records(completions).map_values(mark_of(column(tasks, task_id())))
}

/// The marks of the wanted elaborations, for the experiments in their order.
pub open spec fn elaboration_marks(
    elaborations: Seq<Elaboration>,
    experiments: Seq<Experiment>,
    rework_required: Option<bool>,
    accepted: Option<bool>,
) -> Seq<Mark> {
    elaboration_records(elaborations, rework_required, accepted).map_values(
        mark_of(column(experiments, experiment_id())),
    )
}

/// The marks of records, each at the position of its id in the index.
fn marks_for(records: &Vec<(i32, i32)>, positions: &Positions) -> (marks: Vec<Mark>)
    ensures
        marks@ == records@.map_values(mark_of(positions@)),
{
    let mut marks: Vec<Mark> = Vec::new();
    let mut i: usize = 0;
    while i < records.len()
        invariant
            i <= records.len(),
            marks@ == records@.take(i as int).map_values(mark_of(positions@)),
        decreases records.len() - i,
    {
        let r = records[i];
        marks.push(Mark { group_id: r.0, position: positions.get(r.1) });
        assert(records@.take(i + 1).map_values(mark_of(positions@)) =~= records@.take(
            i as int,
        ).map_values(mark_of(positions@)).push(mark_of(positions@)(r)));
        i += 1;
    }
    assert(records@.take(records.len() as int) =~= records@);
    marks
}

/// Distinct keys are a column without repeats.
pub proof fn lemma_column_distinct<T>(rows: Seq<T>, key: spec_fn(T) -> i32)
    requires
        keys_distinct(rows, key),
    ensures
        column(rows, key).no_duplicates(),
{
    let ids = column(rows, key);
    assert forall|i: int, j: int| 0 <= i < ids.len() && 0 <= j < ids.len() && i != j implies ids[i]
        != ids[j] by {
        assert(key(rows[i]) != key(rows[j]));
    }
}

/// The students of a year who have a completion, each with the bits of the
/// counted tasks that one of their groups has completed, and the counted
/// tasks in the order of their bits.
pub fn load_tasks_by_student(year: i16, include_extra_tasks: bool, conn: &Database) -> (r: (
    Vec<(Student, BitVec<u32>)>,
    Vec<Task>,
))
    requires
        conn.wf(),
    ensures
        sorted_by(r.1@, by_key(task_order())),
        r.1@.to_multiset() == conn@.tasks.filter(
            counted_task(conn@, year, include_extra_tasks),
        ).to_multiset(),
        summarizes(conn@, year, task_marks(conn@.completions, r.1@), r.1@.len(), r.0@),
{
    let ghost t = conn@;
    let ghost counted = counted_task(t, year, include_extra_tasks);
    let experiments = conn.experiments();
    let selected = select_rows(
        conn.tasks(),
        &|x: &Task| -> (b: bool)
            ensures
                b == counted(*x)
        {
            let in_year = match lookup(experiments, &experiment_id_of, Ghost(experiment_id()), x.experiment_id) {
                Some(experiment) => experiment.year == year,
                None => false,
            };
            in_year && (include_extra_tasks || !is_extra_task(x.name.as_str()))
        },
        Ghost(counted),
    );
    let tasks = sort_by_key(selected, &task_order_of, Ghost(task_order()));
    proof {
        lemma_filter_distinct(t.tasks, counted, task_id());
        lemma_reordered_distinct(t.tasks.filter(counted), tasks@, task_id());
        lemma_column_distinct(tasks@, task_id());
    }
    let ids = select_column(&tasks, &task_id_of, Ghost(task_id()));
    let positions = Positions::new(&ids);
    let completions = conn.completions();
    let mut records: Vec<(i32, i32)> = Vec::new();
    let mut i: usize = 0;
    while i < completions.len()
        invariant
            i <= completions.len(),
            records@ == completion_records(completions@.take(i as int)),
        decreases completions.len() - i,
    {
        let c = completions[i];
        records.push((c.group_id, c.task_id));
        assert(completion_records(completions@.take(i + 1)) =~= completion_records(
            completions@.take(i as int),
        ).push(completion_record()(c)));
        i += 1;
    }
    assert(completions@.take(completions.len() as int) =~= completions@);
    let marks = marks_for(&records, &positions);
    let entries = summarize(year, &marks, tasks.len(), conn);
    (entries, tasks)
}

/// The students of a year who have an elaboration in the wanted state, each
/// with the bits of the experiments for which one of their groups has such
/// an elaboration, and the experiments of the year in the order of their
/// bits.
pub fn load_elaborations_by_student(
    year: i16,
    rework_required: Option<bool>,
    accepted: Option<bool>,
    conn: &Database,
) -> (r: (Vec<(Student, BitVec<u32>)>, Vec<Experiment>))
    requires
        conn.wf(),
    ensures
        sorted_by(r.1@, by_key(experiment_order())),
        r.1@.to_multiset() == conn@.experiments.filter(
            key_is(experiment_year(), year as i32),
        ).to_multiset(),
        summarizes(
            conn@,
            year,
            elaboration_marks(conn@.elaborations, r.1@, rework_required, accepted),
            r.1@.len(),
            r.0@,
        ),
{
    let ghost t = conn@;
    let ghost in_year = key_is(experiment_year(), year as i32);
    let selected = select_rows(
        conn.experiments(),
        &|x: &Experiment| -> (b: bool)
            ensures
                b == in_year(*x)
        {
            x.year == year
        },
        Ghost(in_year),
    );
    let experiments = sort_by_key(selected, &experiment_order_of, Ghost(experiment_order()));
    proof {
        lemma_filter_distinct(t.experiments, in_year, experiment_id());
        lemma_reordered_distinct(t.experiments.filter(in_year), experiments@, experiment_id());
        lemma_column_distinct(experiments@, experiment_id());
    }
    let ids = select_column(&experiments, &experiment_id_of, Ghost(experiment_id()));
    let positions = Positions::new(&ids);
    let elaborations = conn.elaborations();
    let ghost want = wanted(rework_required, accepted);
    let mut records: Vec<(i32, i32)> = Vec::new();
    let mut i: usize = 0;
    proof {
        reveal(Seq::filter);
    }
    while i < elaborations.len()
        invariant
            i <= elaborations.len(),
            want == wanted(rework_required, accepted),
            records@ == elaborations@.take(i as int).filter(want).map_values(elaboration_record()),
        decreases elaborations.len() - i,
    {
        let e = elaborations[i];
        let ghost seen = elaborations@.take(i as int);
        proof {
            assert(elaborations@.take(i + 1) =~= seen.push(e));
            lemma_filter_push(seen, e, want);
        }
        let fits_rework = match rework_required {
            Some(r) => e.rework_required == r,
            None => true,
        };
        let fits_accepted = match accepted {
            Some(a) => e.accepted == a,
            None => true,
        };
        if fits_rework && fits_accepted {
            records.push((e.group_id, e.experiment_id));
            assert(seen.filter(want).push(e).map_values(elaboration_record()) =~= seen.filter(
                want,
            ).map_values(elaboration_record()).push(elaboration_record()(e)));
        }
        i += 1;
    }
    assert(elaborations@.take(elaborations.len() as int) =~= elaborations@);
    let marks = marks_for(&records, &positions);
    let entries = summarize(year, &marks, experiments.len(), conn);
    (entries, experiments)
}

} // verus!
