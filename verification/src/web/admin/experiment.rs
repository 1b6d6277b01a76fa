//! The experiments of a year with their tasks.
use vstd::prelude::*;
use crate::db::models::{Experiment as ExperimentRow, Task as TaskRow};
use crate::db::schema::{experiment_year, task_experiment, Tables};
use crate::db::store::Database;
use crate::listing::{lists, presents, select_sorted, shown_by};
use crate::ordering::{make_text_key, text_key};
use crate::relation::key_is;

verus! {

/// The page of the experiments.
pub struct Context {
    pub base: super::BaseContext,
    pub experiments: Vec<Experiment>,
}

/// An experiment with its tasks, as the page shows it.
pub struct Experiment {
    pub id: i32,
    pub name: String,
    pub tasks: Vec<Task>,
}

/// A task as the page shows it.
pub struct Task {
    pub id: i32,
    pub name: String,
}

/// The order of experiments: by name, then by id.
pub open spec fn experiment_by_name() -> spec_fn(ExperimentRow) -> Seq<i128> {
    |x: ExperimentRow| text_key(x.name@) + seq![x.id as i128]
}

pub fn experiment_by_name_of(x: &ExperimentRow) -> (k: Vec<i128>)
    ensures
        k@ == experiment_by_name()(*x),
{
    let mut k = make_text_key(x.name.as_str());
    k.push(x.id as i128);
    assert(k@ =~= text_key(x.name@) + seq![x.id as i128]);
    k
}

/// The order of tasks: by name, then by id.
pub open spec fn task_by_name() -> spec_fn(TaskRow) -> Seq<i128> {
    |x: TaskRow| text_key(x.name@) + seq![x.id as i128]
}

pub fn task_by_name_of(x: &TaskRow) -> (k: Vec<i128>)
    ensures
        k@ == task_by_name()(*x),
{
    let mut k = make_text_key(x.name.as_str());
    k.push(x.id as i128);
    assert(k@ =~= text_key(x.name@) + seq![x.id as i128]);
    k
}

/// The entry shows the task.
pub open spec fn shows_task() -> spec_fn(Task, TaskRow) -> bool {
    |out: Task, row: TaskRow| out.id == row.id && out.name == row.name
}

/// The entry shows the experiment with its tasks in the order of their
/// names.
pub open spec fn shows_experiment(t: Tables) -> spec_fn(Experiment, ExperimentRow) -> bool {
    |out: Experiment, row: ExperimentRow|
        out.id == row.id && out.name == row.name && presents(
            t.tasks,
            key_is(task_experiment(), row.id),
            task_by_name(),
            shows_task(),
            out.tasks@,
        )
}

/// The tasks of an experiment, in the order of their names.
pub fn tasks_of(experiment: i32, conn: &Database) -> (r: Vec<TaskRow>)
    ensures
        lists(conn@.tasks, key_is(task_experiment(), experiment), task_by_name(), r@),
{
    select_sorted(
        conn.tasks(),
        &|x: &TaskRow| -> (b: bool)
            ensures
                b == key_is(task_experiment(), experiment)(*x)
        {
            x.experiment_id == experiment
        },
        Ghost(key_is(task_experiment(), experiment)),
        &task_by_name_of,
        Ghost(task_by_name()),
    )
}

/// The experiments of a year, in the order of their names.
pub fn experiments_of(year: i16, conn: &Database) -> (r: Vec<ExperimentRow>)
    ensures
        lists(conn@.experiments, key_is(experiment_year(), year as i32), experiment_by_name(), r@),
{
    select_sorted(
        conn.experiments(),
        &|x: &ExperimentRow| -> (b: bool)
            ensures
                b == key_is(experiment_year(), year as i32)(*x)
        {
            x.year == year
        },
        Ghost(key_is(experiment_year(), year as i32)),
        &experiment_by_name_of,
        Ghost(experiment_by_name()),
    )
}

fn show_tasks(experiment: i32, conn: &Database) -> (r: Vec<Task>)
    ensures
        presents(conn@.tasks, key_is(task_experiment(), experiment), task_by_name(), shows_task(), r@),
{
    let rows = tasks_of(experiment, conn);
    let mut out: Vec<Task> = Vec::new();
    let mut i: usize = 0;
    while i < rows.len()
        invariant
            i <= rows.len(),
            out@.len() == i,
            forall|j: int| 0 <= j < i ==> shows_task()(#[trigger] out@[j], rows@[j]),
        decreases rows.len() - i,
    {
        out.push(Task { id: rows[i].id, name: rows[i].name.clone() });
        i += 1;
    }
    assert(shown_by(rows@, shows_task(), out@));
    out
}

/// The experiments of a year with their tasks, both in the order of their
/// names.
pub fn load_experiments(year: i16, conn: &Database) -> (r: Vec<Experiment>)
    ensures
        presents(
            conn@.experiments,
            key_is(experiment_year(), year as i32),
            experiment_by_name(),
            shows_experiment(conn@),
            r@,
        ),
{
    let rows = experiments_of(year, conn);
    let mut out: Vec<Experiment> = Vec::new();
    let mut i: usize = 0;
    while i < rows.len()
        invariant
            i <= rows.len(),
            out@.len() == i,
            forall|j: int| 0 <= j < i ==> shows_experiment(conn@)(#[trigger] out@[j], rows@[j]),
        decreases rows.len() - i,
    {
        let tasks = show_tasks(rows[i].id, conn);
        out.push(Experiment { id: rows[i].id, name: rows[i].name.clone(), tasks });
        i += 1;
    }
    assert(shown_by(rows@, shows_experiment(conn@), out@));
    out
}

} // verus!
