//! The operations that change the store, as one list, and what holds of all
//! of them: a closed year takes none.
use vstd::prelude::*;
use crate::db::schema::{
    consistent, day_id, experiment_id, has_group, has_year, student_id, tutor_id, Tables,
};
use crate::db::change::{elaborations_with, with_writable};
use crate::db::models::Elaboration;
use crate::db::schema::{elaboration_experiment, elaboration_key, year_id};
use crate::relation::has_key;
use crate::web::api::{can_log, logged, sans_log};
use crate::relation::{lemma_the_row, max_id, rewritten};
use crate::errors::ApiError;
use crate::web::api::{
    barred, close_year_refusal, creation_refusal, day_in_use, delete_completion_refusal,
    delete_elaboration_refusal, delete_event_refusal, delete_group_student_refusal,
    delete_ip_whitelist_refusal, delete_task_refusal, experiment_in_use, group_change_refusal,
    post_group_refusal, post_ip_whitelist_refusal, post_task_refusal, put_completion_refusal,
    put_elaboration_refusal, put_event_refusal, put_group_student_refusal, removal_refusal,
    student_change_refusal, student_in_use, task_of_experiment, tutor_change_refusal, year_of_day,
    year_of_entry, year_of_experiment, year_of_student, year_of_tutor, NewIpWhitelistEntry, Role,
};
use crate::web::intake::import_refusal;
use crate::web::models::{year_of_group, year_writable};
use crate::web::session::Principal;

verus! {

/// A change that is made within a year. Making a year and deleting one are
/// not among them: the first is made in no year yet, the second is what a
/// closed year still takes.
pub enum Operation {
    PostGroup { day: i32 },
    PutCompletion { group: i32, task: i32 },
    DeleteCompletion { group: i32, task: i32 },
    PutElaboration { group: i32, experiment: i32 },
    DeleteElaboration { group: i32, experiment: i32 },
    PutGroupComment { group: i32 },
    PutGroupDesk { group: i32 },
    PutGroupStudent { group: i32, student: i32 },
    DeleteGroupStudent { group: i32, student: i32 },
    PutYearWritable { year: i16 },
    PostExperiment { year: i16 },
    DeleteExperiment { experiment: i32 },
    PostExperimentTask { experiment: i32 },
    DeleteExperimentTask { experiment: i32, task: i32 },
    PutEvent { experiment: i32, day: i32, date: Seq<char> },
    DeleteEvent { experiment: i32, day: i32 },
    PostDay { year: i16 },
    DeleteDay { day: i32 },
    PostStudent { year: i16 },
    DeleteStudent { student: i32 },
    PutStudentInstructed { student: i32 },
    PostTutor { year: i16 },
    DeleteTutor { tutor: i32 },
    PutTutorAdmin { tutor: i32 },
    PostIpWhitelist { entry: NewIpWhitelistEntry },
    DeleteIpWhitelist { id: i32 },
    PostStudentsCsv { year: i16, students: Seq<u8> },
}

/// The year of a group, if there is such a group.
pub open spec fn year_of(t: Tables, group: i32) -> Option<i16> {
    if has_group(t.groups, group) {
        Some(year_of_group(t, group))
    } else {
        None
    }
}

/// The year within which a change is made, where what it changes exists.
pub open spec fn scope(t: Tables, op: Operation) -> Option<i16> {
    match op {
        Operation::PostGroup { day } => year_of_day(t, day),
        Operation::PutCompletion { group, .. } => year_of(t, group),
        Operation::DeleteCompletion { group, .. } => year_of(t, group),
        Operation::PutElaboration { group, .. } => year_of(t, group),
        Operation::DeleteElaboration { group, .. } => year_of(t, group),
        Operation::PutGroupComment { group } => year_of(t, group),
        Operation::PutGroupDesk { group } => year_of(t, group),
        Operation::PutGroupStudent { group, .. } => year_of(t, group),
        Operation::DeleteGroupStudent { group, .. } => year_of(t, group),
        Operation::PutYearWritable { year } => Some(year),
        Operation::PostExperiment { year } => Some(year),
        Operation::DeleteExperiment { experiment } => year_of_experiment(t, experiment),
        Operation::PostExperimentTask { experiment } => year_of_experiment(t, experiment),
        Operation::DeleteExperimentTask { experiment, task } => if task_of_experiment(
            t,
            task,
            experiment,
        ) {
            year_of_experiment(t, experiment)
        } else {
            None
        },
        Operation::PutEvent { day, .. } => year_of_day(t, day),
        Operation::DeleteEvent { day, .. } => year_of_day(t, day),
        Operation::PostDay { year } => Some(year),
        Operation::DeleteDay { day } => year_of_day(t, day),
        Operation::PostStudent { year } => Some(year),
        Operation::DeleteStudent { student } => year_of_student(t, student),
        Operation::PutStudentInstructed { student } => year_of_student(t, student),
        Operation::PostTutor { year } => Some(year),
        Operation::DeleteTutor { tutor } => year_of_tutor(t, tutor),
        Operation::PutTutorAdmin { tutor } => year_of_tutor(t, tutor),
        Operation::PostIpWhitelist { entry } => Some(entry.year),
        Operation::DeleteIpWhitelist { id } => year_of_entry(t, id),
        Operation::PostStudentsCsv { year, .. } => Some(year),
    }
}

/// Why a change is refused, if it is: what the function that makes the
/// change says.
pub open spec fn refusal(t: Tables, p: Principal, op: Operation) -> Option<ApiError> {
    match op {
        Operation::PostGroup { day } => post_group_refusal(t, p, day),
        Operation::PutCompletion { group, task } => put_completion_refusal(t, p, group, task),
        Operation::DeleteCompletion { group, task } => delete_completion_refusal(t, p, group, task),
        Operation::PutElaboration { group, experiment } => put_elaboration_refusal(
            t,
            p,
            group,
            experiment,
        ),
        Operation::DeleteElaboration { group, experiment } => delete_elaboration_refusal(
            t,
            p,
            group,
            experiment,
        ),
        Operation::PutGroupComment { group } => group_change_refusal(t, p, group),
        Operation::PutGroupDesk { group } => group_change_refusal(t, p, group),
        Operation::PutGroupStudent { group, student } => put_group_student_refusal(
            t,
            p,
            group,
            student,
        ),
        Operation::DeleteGroupStudent { group, student } => delete_group_student_refusal(
            t,
            p,
            group,
            student,
        ),
        Operation::PutYearWritable { year } => close_year_refusal(t, year),
        Operation::PostExperiment { year } => creation_refusal(
            t,
            p,
            year,
            max_id(t.experiments, experiment_id()),
        ),
        Operation::DeleteExperiment { experiment } => removal_refusal(
            t,
            p,
            year_of_experiment(t, experiment),
            experiment_in_use(t, experiment),
        ),
        Operation::PostExperimentTask { experiment } => post_task_refusal(t, p, experiment),
        Operation::DeleteExperimentTask { experiment, task } => delete_task_refusal(
            t,
            p,
            experiment,
            task,
        ),
        Operation::PutEvent { experiment, day, date } => put_event_refusal(t, p, experiment, day, date),
        Operation::DeleteEvent { experiment, day } => delete_event_refusal(t, p, experiment, day),
        Operation::PostDay { year } => creation_refusal(t, p, year, max_id(t.days, day_id())),
        Operation::DeleteDay { day } => removal_refusal(t, p, year_of_day(t, day), day_in_use(t, day)),
        Operation::PostStudent { year } => creation_refusal(
            t,
            p,
            year,
            max_id(t.students, student_id()),
        ),
        Operation::DeleteStudent { student } => removal_refusal(
            t,
            p,
            year_of_student(t, student),
            student_in_use(t, student),
        ),
        Operation::PutStudentInstructed { student } => student_change_refusal(t, p, student),
        Operation::PostTutor { year } => creation_refusal(t, p, year, max_id(t.tutors, tutor_id())),
        Operation::DeleteTutor { tutor } => tutor_change_refusal(t, p, tutor),
        Operation::PutTutorAdmin { tutor } => tutor_change_refusal(t, p, tutor),
        Operation::PostIpWhitelist { entry } => post_ip_whitelist_refusal(t, p, entry),
        Operation::DeleteIpWhitelist { id } => delete_ip_whitelist_refusal(t, p, id),
        Operation::PostStudentsCsv { year, students } => import_refusal(t, p, year, students),
    }
}

/// A closed year bars every user in every role, and it says so before it
/// looks at their rights.
pub proof fn lemma_closed_year_bars(t: Tables, p: Principal, role: Role, year: i16)
    requires
        has_year(t.years, year),
        !year_writable(t, year),
    ensures
        barred(t, p, role, year) == Some(ApiError::Locked),
{
}

/// A change within a closed year is refused as locked, whatever the change
/// and whoever asks for it: not for want of a right, not for a broken rule,
/// and never taken in silence.
pub proof fn lemma_closed_year_locks(t: Tables, p: Principal, op: Operation, year: i16)
    requires
        consistent(t),
        scope(t, op) == Some(year),
        has_year(t.years, year),
        !year_writable(t, year),
    ensures
        refusal(t, p, op) == Some(ApiError::Locked),
{
}

/// Once a year is closed, every change within it is refused as locked,
/// whatever the change and whoever asks for it.
pub proof fn lemma_closing_locks(before: Tables, after: Tables, p: Principal, op: Operation, year: i16)
    requires
        consistent(before),
        consistent(after),
        has_year(before.years, year),
        after.years == rewritten(before.years, year_id(), year as i32, with_writable(false)),
        scope(after, op) == Some(year),
    ensures
        refusal(after, p, op) == Some(ApiError::Locked),
{
    let i = choose|i: int|
        0 <= i < before.years.len() && year_id()(#[trigger] before.years[i]) == year as i32;
    assert(year_id()(after.years[i]) == year as i32);
    lemma_the_row(after.years, year_id(), i);
    lemma_closed_year_locks(after, p, op, year);
}

/// An elaboration that is put again takes the place of the one that was
/// there. Where the year of the group takes writes, the user is tutor of
/// that year and the audit trail has an id left, the change is not refused;
/// and in the store that it leaves, the table of the elaborations is as long
/// as before, the row of the group and the experiment is the one that was
/// put and the only one of its key, every other row is as it was, and the
/// audit trail has grown by one entry.
pub proof fn lemma_put_again_replaces(
    before: Tables,
    after: Tables,
    p: Principal,
    row: Elaboration,
    change: Seq<char>,
)
    requires
        consistent(before),
        has_group(before.groups, row.group_id),
        year_writable(before, year_of_group(before, row.group_id)),
        p.is_tutor_for(year_of_group(before, row.group_id)),
        has_key(before.elaborations, elaboration_key(), (row.group_id, row.experiment_id)),
        can_log(before),
        sans_log(after, before) == (Tables {
            elaborations: elaborations_with(before.elaborations, row),
            ..before
        }),
        logged(
            before.audit_logs,
            after.audit_logs,
            before.now,
            year_of_group(before, row.group_id),
            Some(row.group_id),
            p.name,
            change,
        ),
    ensures
        put_elaboration_refusal(before, p, row.group_id, row.experiment_id) is None,
        after.elaborations.len() == before.elaborations.len(),
        forall|i: int|
            0 <= i < after.elaborations.len() ==> #[trigger] after.elaborations[i] == if elaboration_key()(
                before.elaborations[i],
            ) == (row.group_id, row.experiment_id) {
                row
            } else {
                before.elaborations[i]
            },
        forall|i: int, j: int|
            0 <= i < after.elaborations.len() && 0 <= j < after.elaborations.len() && elaboration_key()(
                #[trigger] after.elaborations[i],
            ) == (row.group_id, row.experiment_id) && elaboration_key()(
                #[trigger] after.elaborations[j],
            ) == (row.group_id, row.experiment_id) ==> i == j,
        has_key(after.elaborations, elaboration_key(), (row.group_id, row.experiment_id)),
        after.audit_logs.len() == before.audit_logs.len() + 1,
        after.audit_logs.drop_last() == before.audit_logs,
{
    let key = (row.group_id, row.experiment_id);
    let i = choose|i: int|
        0 <= i < before.elaborations.len() && elaboration_key()(#[trigger] before.elaborations[i]) == key;
    assert(has_key(
        before.experiments,
        experiment_id(),
        elaboration_experiment()(before.elaborations[i]),
    ));
    assert(after.elaborations == elaborations_with(before.elaborations, row));
    assert(elaboration_key()(after.elaborations[i]) == key);
    assert forall|a: int, b: int|
        0 <= a < after.elaborations.len() && 0 <= b < after.elaborations.len() && elaboration_key()(
            #[trigger] after.elaborations[a],
        ) == key && elaboration_key()(#[trigger] after.elaborations[b]) == key implies a == b by {
        assert(elaboration_key()(before.elaborations[a]) == key);
        assert(elaboration_key()(before.elaborations[b]) == key);
    }
}

} // verus!
