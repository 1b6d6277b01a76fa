//! The operations that change the store. Each runs on a copy of the store and
//! takes its place only where every step went well: the year is found and
//! open, the user may act in it, the change keeps the rules of the schema,
//! and the audit entry is written.
use vstd::prelude::*;
use vstd::string::StringExecFns;
use crate::calendar::{date_of_text, parse_date, show_date, shown_date};
use crate::db::change::{
    completions_with, elaborations_with, entry_is, events_with, with_admin, with_comment, with_desk,
    with_instructed, with_writable,
};
use crate::db::inet::{abbreviated, Inet};
use crate::db::models::{
    full_name, AuditLog, Completion, Day, Elaboration, Event, Experiment, Group, GroupMapping,
    IpWhitelistEntry, NewAuditLog, NewDay, NewExperiment, NewGroup, NewStudent, NewTutor, Student,
    Task, Tutor, Year,
};
use crate::db::schema::{
    audit_log_id, completion_group, completion_task, consistent, day_id, elaboration_experiment,
    elaboration_group, whitelist_id,
    event_day, event_experiment, experiment_id, group_day, group_id, has_day, has_experiment,
    has_group, has_student, has_task, has_year, mapping_group, mapping_key, mapping_student,
    student_id, task_experiment, task_id, tutor_id, year_id, Tables,
};
use crate::db::{without_year, year_in_use};
use crate::db::store::{
    day_id_of, experiment_id_of, group_id_of, mapping_group_of, mapping_student_of, student_id_of,
    task_id_of, tutor_id_of, whitelist_id_of, year_id_of, Database,
};
use crate::errors::{ApiError, ApiResult};
use crate::relation::{
    exists_row, find_pair, has_key, key_is, lemma_rewritten_distinct, lemma_the_row, lookup, max_id,
    negate, referenced, rewritten, some_row, the_row,
};
use crate::text::{decimal, push_decimal};
use crate::listing::presents;
use crate::web::models::{
    is_writable_year, year_of_group, year_writable, SearchGroup, Student as FoundStudent,
};
use crate::web::pages::{
    find_groups, find_students, group_by_day, group_sought, shows_group, shows_name, sought,
    student_by_name,
};
use crate::web::push;
use crate::web::session::{Principal, SiteAdmin, User};

verus! {

/// The audit trail has grown by one entry with these contents.
pub open spec fn logged(
    before: Seq<AuditLog>,
    after: Seq<AuditLog>,
    now: i64,
    year: i16,
    group: Option<i32>,
    author: Seq<char>,
    change: Seq<char>,
) -> bool {
    &&& after.len() == before.len() + 1
    &&& after.drop_last() == before
    &&& entry_is(after.last(), (max_id(before, audit_log_id()) + 1) as i32, now, year, group, author, change)
}

/// The store has room for one more audit entry.
pub open spec fn can_log(t: Tables) -> bool {
    max_id(t.audit_logs, audit_log_id()) < i32::MAX
}

/// Appends an entry to the audit trail: what was changed, in which year, for
/// which group if for one, and by whom.
pub fn add_audit_log(year: i16, group: Option<i32>, author: &str, conn: &mut Database, change: &str) -> (r:
    ApiResult<()>)
    requires
        old(conn).wf(),
    ensures
        final(conn).wf(),
        r is Ok <==> has_year(old(conn)@.years, year) && can_log(old(conn)@),
        r is Ok ==> logged(
            old(conn)@.audit_logs,
            final(conn)@.audit_logs,
            old(conn)@.now,
            year,
            group,
            author@,
            change@,
        ) && final(conn)@ == (Tables { audit_logs: final(conn)@.audit_logs, ..old(conn)@ }),
        r is Err ==> final(conn)@ == old(conn)@ && r->Err_0 == if has_year(old(conn)@.years, year) {
            ApiError::Other
        } else {
            ApiError::ConstraintViolation
        },
{
    let log = NewAuditLog { year, author, affected_group: group, change };
    match conn.create_audit_log(log) {
        Ok(_) => Ok(()),
        Err(e) => Err(e),
    }
}

/// What a user must be in a year to act.
#[derive(Debug, Clone, Copy, PartialEq, Eq, Structural)]
pub enum Role {
    Tutor,
    Admin,
}

/// The user holds the role in the year.
pub open spec fn holds(p: Principal, role: Role, year: i16) -> bool {
    match role {
        Role::Tutor => p.is_tutor_for(year),
        Role::Admin => p.is_admin_for(year),
    }
}

/// Why a change in a year is refused before it is tried, if it is: the year
/// does not exist, it is closed, or the user does not hold the role. A
/// closed year is told before a missing right.
pub open spec fn barred(t: Tables, p: Principal, role: Role, year: i16) -> Option<ApiError> {
    if !has_year(t.years, year) {
        Some(ApiError::NotFound)
    } else if !year_writable(t, year) {
        Some(ApiError::Locked)
    } else if !holds(p, role, year) {
        Some(ApiError::Forbidden)
    } else {
        None
    }
}

/// Lets a user make a change in a year, or says why not.
pub fn authorize(year: i16, role: Role, conn: &Database, user: &User) -> (r: ApiResult<()>)
    requires
        conn.wf(),
    ensures
        match r {
            Ok(()) => barred(conn@, user@, role, year) is None,
            Err(e) => barred(conn@, user@, role, year) == Some(e),
        },
{
    match lookup(conn.years(), &year_id_of, Ghost(year_id()), year as i32) {
        None => Err(ApiError::NotFound),
        Some(row) => {
            if !row.writable {
                Err(ApiError::Locked)
            } else {
                let allowed = match role {
                    Role::Tutor => user.is_tutor_for(year),
                    Role::Admin => user.is_admin_for(year),
                };
                if allowed {
                    Ok(())
                } else {
                    Err(ApiError::Forbidden)
                }
            }
        },
    }
}

/// The store as it is after a change, but with the audit trail as it was
/// before: what the change itself has done.
pub open spec fn sans_log(after: Tables, before: Tables) -> Tables {
    Tables { audit_logs: before.audit_logs, ..after }
}

/// Why a change to a group is refused before it is tried, if it is: there
/// is no such group, or the year of the group bars it.
pub open spec fn barred_in_group(t: Tables, p: Principal, role: Role, group: i32) -> Option<ApiError> {
    if !has_group(t.groups, group) {
        Some(ApiError::NotFound)
    } else {
        barred(t, p, role, year_of_group(t, group))
    }
}

/// Lets a user make a change to a group, and names the year of the group.
pub fn authorize_group(group: i32, role: Role, conn: &Database, user: &User) -> (r: ApiResult<i16>)
    requires
        conn.wf(),
    ensures
        match r {
            Ok(year) => barred_in_group(conn@, user@, role, group) is None && year == year_of_group(
                conn@,
                group,
            ) && has_year(conn@.years, year),
            Err(e) => barred_in_group(conn@, user@, role, group) == Some(e),
        },
{
    let row = match lookup(conn.groups(), &group_id_of, Ghost(group_id()), group) {
        Some(row) => row,
        None => {
            return Err(ApiError::NotFound);
        },
    };
    let day = match lookup(conn.days(), &day_id_of, Ghost(day_id()), row.day_id) {
        Some(day) => day,
        None => {
            return Err(ApiError::NotFound);
        },
    };
    match authorize(day.year, role, conn, user) {
        Ok(()) => Ok(day.year),
        Err(e) => Err(e),
    }
}

/// The name of a task.
pub open spec fn task_name(t: Tables, task: i32) -> Seq<char> {
    the_row(t.tasks, task_id(), task).name@
}

/// The name of an experiment.
pub open spec fn experiment_name(t: Tables, experiment: i32) -> Seq<char> {
    the_row(t.experiments, experiment_id(), experiment).name@
}

/// The name of the experiment of a task.
pub open spec fn experiment_name_of_task(t: Tables, task: i32) -> Seq<char> {
    experiment_name(t, the_row(t.tasks, task_id(), task).experiment_id)
}

/// The names of a task and of its experiment.
fn names_of_task(task: i32, conn: &Database) -> (r: (String, String))
    requires
        conn.wf(),
        has_task(conn@.tasks, task),
    ensures
        r.0@ == task_name(conn@, task),
        r.1@ == experiment_name_of_task(conn@, task),
{
    let row = lookup(conn.tasks(), &task_id_of, Ghost(task_id()), task).unwrap();
    let experiment = lookup(
        conn.experiments(),
        &experiment_id_of,
        Ghost(experiment_id()),
        row.experiment_id,
    ).unwrap();
    (row.name.clone(), experiment.name.clone())
}

/// What the audit trail says of a task marked as completed or not.
pub open spec fn completion_message(t: Tables, task: i32, completed: bool) -> Seq<char> {
    (if completed {
        "Mark task "@
    } else {
        "Unmark task "@
    }) + task_name(t, task) + " (#"@ + decimal(task as int) + ") of "@ + experiment_name_of_task(
        t,
        task,
    ) + " as completed"@
}

fn completion_message_of(task: i32, completed: bool, conn: &Database) -> (r: String)
    requires
        conn.wf(),
        has_task(conn@.tasks, task),
    ensures
        r@ == completion_message(conn@, task, completed),
{
    let (task_name, experiment_name) = names_of_task(task, conn);
    let mut m = String::from_str(if completed {
        "Mark task "
    } else {
        "Unmark task "
    });
    m.append(task_name.as_str());
    m.append(" (#");
    push_decimal(&mut m, task as i64);
    m.append(") of ");
    m.append(experiment_name.as_str());
    m.append(" as completed");
    m
}

/// Why it is refused to mark a task as completed by a group, if it is.
pub open spec fn put_completion_refusal(t: Tables, p: Principal, group: i32, task: i32) -> Option<
    ApiError,
> {
    if barred_in_group(t, p, Role::Tutor, group) is Some {
        barred_in_group(t, p, Role::Tutor, group)
    } else if !has_task(t.tasks, task) {
        Some(ApiError::ConstraintViolation)
    } else if !can_log(t) {
        Some(ApiError::Other)
    } else {
        None
    }
}

/// Marks a task as completed by a group. It is for the tutors of the year.
pub fn put_completion(group: i32, task: i32, conn: &mut Database, user: &User) -> (r: ApiResult<
    push::Completion,
>)
    requires
        old(conn).wf(),
    ensures
        final(conn).wf(),
        r is Ok <==> put_completion_refusal(old(conn)@, user@, group, task) is None,
        r matches Ok(told) ==> {
            &&& told == (push::Completion { group, task, completed: true })
            &&& sans_log(final(conn)@, old(conn)@) == (Tables {
                completions: completions_with(
                    old(conn)@.completions,
                    Completion { group_id: group, task_id: task },
                ),
                ..old(conn)@
            })
            &&& logged(
                old(conn)@.audit_logs,
                final(conn)@.audit_logs,
                old(conn)@.now,
                year_of_group(old(conn)@, group),
                Some(group),
                user@.name,
                completion_message(old(conn)@, task, true),
            )
        },
        r matches Err(e) ==> final(conn)@ == old(conn)@ && put_completion_refusal(
            old(conn)@,
            user@,
            group,
            task,
        ) == Some(e),
{
    let mut work = conn.snapshot();
    let year = authorize_group(group, Role::Tutor, &work, user)?;
    work.put_completion(Completion { group_id: group, task_id: task })?;
    let change = completion_message_of(task, true, &work);
    add_audit_log(year, Some(group), user.name(), &mut work, change.as_str())?;
    *conn = work;
    Ok(push::Completion { group, task, completed: true })
}

/// Why it is refused to take back that a group completed a task, if it is.
pub open spec fn delete_completion_refusal(t: Tables, p: Principal, group: i32, task: i32) -> Option<
    ApiError,
> {
    if barred_in_group(t, p, Role::Tutor, group) is Some {
        barred_in_group(t, p, Role::Tutor, group)
    } else if !has_task(t.tasks, task) {
        Some(ApiError::NotFound)
    } else if !can_log(t) {
        Some(ApiError::Other)
    } else {
        None
    }
}

/// The completion of the task by the group.
pub open spec fn is_completion(group: i32, task: i32) -> spec_fn(Completion) -> bool {
    |c: Completion| c.group_id == group && c.task_id == task
}

/// Takes back that a group completed a task. It is for the tutors of the
/// year.
pub fn delete_completion(group: i32, task: i32, conn: &mut Database, user: &User) -> (r: ApiResult<
    push::Completion,
>)
    requires
        old(conn).wf(),
    ensures
        final(conn).wf(),
        r is Ok <==> delete_completion_refusal(old(conn)@, user@, group, task) is None,
        r matches Ok(told) ==> {
            &&& told == (push::Completion { group, task, completed: false })
            &&& sans_log(final(conn)@, old(conn)@) == (Tables {
                completions: old(conn)@.completions.filter(negate(is_completion(group, task))),
                ..old(conn)@
            })
            &&& logged(
                old(conn)@.audit_logs,
                final(conn)@.audit_logs,
                old(conn)@.now,
                year_of_group(old(conn)@, group),
                Some(group),
                user@.name,
                completion_message(old(conn)@, task, false),
            )
        },
        r matches Err(e) ==> final(conn)@ == old(conn)@ && delete_completion_refusal(
            old(conn)@,
            user@,
            group,
            task,
        ) == Some(e),
{
    let mut work = conn.snapshot();
    let year = authorize_group(group, Role::Tutor, &work, user)?;
    if lookup(work.tasks(), &task_id_of, Ghost(task_id()), task).is_none() {
        return Err(ApiError::NotFound);
    }
    work.remove_completions(
        &|c: &Completion| -> (b: bool)
            ensures
                b == is_completion(group, task)(*c)
        {
            c.group_id == group && c.task_id == task
        },
        Ghost(is_completion(group, task)),
    );
    let change = completion_message_of(task, false, &work);
    add_audit_log(year, Some(group), user.name(), &mut work, change.as_str())?;
    *conn = work;
    Ok(push::Completion { group, task, completed: false })
}

/// How the audit trail names the state of an elaboration.
pub open spec fn status_name(rework_required: bool, accepted: bool) -> Seq<char> {
    if rework_required {
        if accepted {
            "rework accepted"@
        } else {
            "needing rework"@
        }
    } else {
        if accepted {
            "accepted"@
        } else {
            "submitted"@
        }
    }
}

/// What the audit trail says of an elaboration set to a state.
pub open spec fn elaboration_message(t: Tables, experiment: i32, status: Seq<char>) -> Seq<char> {
    "Mark elaboration of "@ + experiment_name(t, experiment) + " (#"@ + decimal(experiment as int)
        + ") as "@ + status
}

fn elaboration_message_of(experiment: i32, status: &str, conn: &Database) -> (r: String)
    requires
        conn.wf(),
        has_experiment(conn@.experiments, experiment),
    ensures
        r@ == elaboration_message(conn@, experiment, status@),
{
    let row = lookup(conn.experiments(), &experiment_id_of, Ghost(experiment_id()), experiment).unwrap();
    let mut m = String::from_str("Mark elaboration of ");
    m.append(row.name.as_str());
    m.append(" (#");
    push_decimal(&mut m, experiment as i64);
    m.append(") as ");
    m.append(status);
    m
}

/// Why it is refused to set the state of the elaboration of a group, if it
/// is.
pub open spec fn put_elaboration_refusal(t: Tables, p: Principal, group: i32, experiment: i32) -> Option<
    ApiError,
> {
    if barred_in_group(t, p, Role::Tutor, group) is Some {
        barred_in_group(t, p, Role::Tutor, group)
    } else if !has_experiment(t.experiments, experiment) {
        Some(ApiError::ConstraintViolation)
    } else if !can_log(t) {
        Some(ApiError::Other)
    } else {
        None
    }
}

/// Sets the state of the elaboration of a group on an experiment: handed in,
/// and whether it needs a rework and is accepted. There is one elaboration
/// for a group and an experiment: a second call changes the first. It is for
/// the tutors of the year.
pub fn put_elaboration(
    group: i32,
    experiment: i32,
    rework_required: bool,
    accepted: bool,
    conn: &mut Database,
    user: &User,
) -> (r: ApiResult<push::Elaboration>)
    requires
        old(conn).wf(),
    ensures
        final(conn).wf(),
        r is Ok <==> put_elaboration_refusal(old(conn)@, user@, group, experiment) is None,
        r matches Ok(told) ==> {
            &&& told == (push::Elaboration {
                group,
                experiment,
                handed_in: true,
                rework: rework_required,
                accepted,
            })
            &&& sans_log(final(conn)@, old(conn)@) == (Tables {
                elaborations: elaborations_with(
                    old(conn)@.elaborations,
                    Elaboration { group_id: group, experiment_id: experiment, rework_required, accepted },
                ),
                ..old(conn)@
            })
            &&& logged(
                old(conn)@.audit_logs,
                final(conn)@.audit_logs,
                old(conn)@.now,
                year_of_group(old(conn)@, group),
                Some(group),
                user@.name,
                elaboration_message(old(conn)@, experiment, status_name(rework_required, accepted)),
            )
        },
        r matches Err(e) ==> final(conn)@ == old(conn)@ && put_elaboration_refusal(
            old(conn)@,
            user@,
            group,
            experiment,
        ) == Some(e),
{
    let mut work = conn.snapshot();
    let year = authorize_group(group, Role::Tutor, &work, user)?;
    work.put_elaboration(
        Elaboration { group_id: group, experiment_id: experiment, rework_required, accepted },
    )?;
    let status = match (rework_required, accepted) {
        (false, false) => "submitted",
        (false, true) => "accepted",
        (true, false) => "needing rework",
        (true, true) => "rework accepted",
    };
    let change = elaboration_message_of(experiment, status, &work);
    add_audit_log(year, Some(group), user.name(), &mut work, change.as_str())?;
    *conn = work;
    Ok(push::Elaboration { group, experiment, handed_in: true, rework: rework_required, accepted })
}

/// Why it is refused to take back the elaboration of a group, if it is.
pub open spec fn delete_elaboration_refusal(t: Tables, p: Principal, group: i32, experiment: i32) -> Option<
    ApiError,
> {
    if barred_in_group(t, p, Role::Tutor, group) is Some {
        barred_in_group(t, p, Role::Tutor, group)
    } else if !has_experiment(t.experiments, experiment) {
        Some(ApiError::NotFound)
    } else if !can_log(t) {
        Some(ApiError::Other)
    } else {
        None
    }
}

/// The elaboration of the group on the experiment.
pub open spec fn is_elaboration(group: i32, experiment: i32) -> spec_fn(Elaboration) -> bool {
    |e: Elaboration| e.group_id == group && e.experiment_id == experiment
}

/// Takes back the elaboration of a group on an experiment. It is for the
/// tutors of the year.
pub fn delete_elaboration(group: i32, experiment: i32, conn: &mut Database, user: &User) -> (r:
    ApiResult<push::Elaboration>)
    requires
        old(conn).wf(),
    ensures
        final(conn).wf(),
        r is Ok <==> delete_elaboration_refusal(old(conn)@, user@, group, experiment) is None,
        r matches Ok(told) ==> {
            &&& told == (push::Elaboration {
                group,
                experiment,
                handed_in: false,
                rework: false,
                accepted: false,
            })
            &&& sans_log(final(conn)@, old(conn)@) == (Tables {
                elaborations: old(conn)@.elaborations.filter(negate(is_elaboration(group, experiment))),
                ..old(conn)@
            })
            &&& logged(
                old(conn)@.audit_logs,
                final(conn)@.audit_logs,
                old(conn)@.now,
                year_of_group(old(conn)@, group),
                Some(group),
                user@.name,
                elaboration_message(old(conn)@, experiment, "missing"@),
            )
        },
        r matches Err(e) ==> final(conn)@ == old(conn)@ && delete_elaboration_refusal(
            old(conn)@,
            user@,
            group,
            experiment,
        ) == Some(e),
{
    let mut work = conn.snapshot();
    let year = authorize_group(group, Role::Tutor, &work, user)?;
    if lookup(work.experiments(), &experiment_id_of, Ghost(experiment_id()), experiment).is_none() {
        return Err(ApiError::NotFound);
    }
    work.remove_elaborations(
        &|e: &Elaboration| -> (b: bool)
            ensures
                b == is_elaboration(group, experiment)(*e)
        {
            e.group_id == group && e.experiment_id == experiment
        },
        Ghost(is_elaboration(group, experiment)),
    );
    let change = elaboration_message_of(experiment, "missing", &work);
    add_audit_log(year, Some(group), user.name(), &mut work, change.as_str())?;
    *conn = work;
    Ok(push::Elaboration { group, experiment, handed_in: false, rework: false, accepted: false })
}

/// Why a change to a group that needs no more than the group is refused, if
/// it is.
pub open spec fn group_change_refusal(t: Tables, p: Principal, group: i32) -> Option<ApiError> {
    if barred_in_group(t, p, Role::Tutor, group) is Some {
        barred_in_group(t, p, Role::Tutor, group)
    } else if !can_log(t) {
        Some(ApiError::Other)
    } else {
        None
    }
}

/// What the audit trail says of a new comment.
pub open spec fn comment_message(comment: Seq<char>) -> Seq<char> {
    "Change comment to '"@ + comment + "'"@
}

/// Gives a group another comment. It is for the tutors of the year.
pub fn put_group_comment(group: i32, comment: String, conn: &mut Database, user: &User) -> (r:
    ApiResult<push::Comment>)
    requires
        old(conn).wf(),
    ensures
        final(conn).wf(),
        r is Ok <==> group_change_refusal(old(conn)@, user@, group) is None,
        r matches Ok(told) ==> {
            &&& told.group == group
            &&& told.author@ == user@.name
            &&& told.comment@ == comment@
            &&& sans_log(final(conn)@, old(conn)@) == (Tables {
                groups: rewritten(old(conn)@.groups, group_id(), group, with_comment(comment)),
                ..old(conn)@
            })
            &&& logged(
                old(conn)@.audit_logs,
                final(conn)@.audit_logs,
                old(conn)@.now,
                year_of_group(old(conn)@, group),
                Some(group),
                user@.name,
                comment_message(comment@),
            )
        },
        r matches Err(e) ==> final(conn)@ == old(conn)@ && group_change_refusal(
            old(conn)@,
            user@,
            group,
        ) == Some(e),
{
    let mut work = conn.snapshot();
    let year = authorize_group(group, Role::Tutor, &work, user)?;
    let mut change = String::from_str("Change comment to '");
    change.append(comment.as_str());
    change.append("'");
    let told = push::Comment {
        group,
        author: String::from_str(user.name()),
        comment: comment.clone(),
    };
    work.set_group_comment(group, comment)?;
    add_audit_log(year, Some(group), user.name(), &mut work, change.as_str())?;
    *conn = work;
    Ok(told)
}

/// What the audit trail says of a move to another desk.
pub open spec fn desk_message(desk: i32) -> Seq<char> {
    "Change desk to "@ + decimal(desk as int)
}

/// Moves a group to another desk. It is for the tutors of the year.
pub fn put_group_desk(group: i32, desk: i32, conn: &mut Database, user: &User) -> (r: ApiResult<
    push::Group,
>)
    requires
        old(conn).wf(),
    ensures
        final(conn).wf(),
        r is Ok <==> group_change_refusal(old(conn)@, user@, group) is None,
        r matches Ok(told) ==> {
            &&& told == (push::Group::Change { group })
            &&& sans_log(final(conn)@, old(conn)@) == (Tables {
                groups: rewritten(old(conn)@.groups, group_id(), group, with_desk(desk)),
                ..old(conn)@
            })
            &&& logged(
                old(conn)@.audit_logs,
                final(conn)@.audit_logs,
                old(conn)@.now,
                year_of_group(old(conn)@, group),
                Some(group),
                user@.name,
                desk_message(desk),
            )
        },
        r matches Err(e) ==> final(conn)@ == old(conn)@ && group_change_refusal(
            old(conn)@,
            user@,
            group,
        ) == Some(e),
{
    let mut work = conn.snapshot();
    let year = authorize_group(group, Role::Tutor, &work, user)?;
    work.set_group_desk(group, desk)?;
    let mut change = String::from_str("Change desk to ");
    push_decimal(&mut change, desk as i64);
    add_audit_log(year, Some(group), user.name(), &mut work, change.as_str())?;
    *conn = work;
    Ok(push::Group::Change { group })
}

/// The year of a day, if there is such a day.
pub open spec fn year_of_day(t: Tables, day: i32) -> Option<i16> {
    if has_day(t.days, day) {
        Some(the_row(t.days, day_id(), day).year)
    } else {
        None
    }
}

/// The year of an experiment, if there is such an experiment.
pub open spec fn year_of_experiment(t: Tables, experiment: i32) -> Option<i16> {
    if has_experiment(t.experiments, experiment) {
        Some(the_row(t.experiments, experiment_id(), experiment).year)
    } else {
        None
    }
}

/// The year of a student, if there is such a student.
pub open spec fn year_of_student(t: Tables, student: i32) -> Option<i16> {
    if has_student(t.students, student) {
        Some(the_row(t.students, student_id(), student).year)
    } else {
        None
    }
}

/// The year of a tutor, if there is such a tutor.
pub open spec fn year_of_tutor(t: Tables, tutor: i32) -> Option<i16> {
    if has_key(t.tutors, tutor_id(), tutor) {
        Some(the_row(t.tutors, tutor_id(), tutor).year)
    } else {
        None
    }
}

/// Why a change to something of a year is refused before it is tried, if it
/// is: the thing does not exist, or its year bars the change.
pub open spec fn barred_for(t: Tables, p: Principal, role: Role, year: Option<i16>) -> Option<
    ApiError,
> {
    match year {
        None => Some(ApiError::NotFound),
        Some(y) => barred(t, p, role, y),
    }
}

/// Lets a user make a change to a day, and names the year of the day.
pub fn authorize_day(day: i32, role: Role, conn: &Database, user: &User) -> (r: ApiResult<i16>)
    requires
        conn.wf(),
    ensures
        match r {
            Ok(year) => barred_for(conn@, user@, role, year_of_day(conn@, day)) is None && Some(year)
                == year_of_day(conn@, day) && has_year(conn@.years, year),
            Err(e) => barred_for(conn@, user@, role, year_of_day(conn@, day)) == Some(e),
        },
{
    let year = match lookup(conn.days(), &day_id_of, Ghost(day_id()), day) {
        Some(row) => row.year,
        None => {
            return Err(ApiError::NotFound);
        },
    };
    match authorize(year, role, conn, user) {
        Ok(()) => Ok(year),
        Err(e) => Err(e),
    }
}

/// Lets a user make a change to an experiment, and names its year.
pub fn authorize_experiment(experiment: i32, role: Role, conn: &Database, user: &User) -> (r:
    ApiResult<i16>)
    requires
        conn.wf(),
    ensures
        match r {
            Ok(year) => barred_for(conn@, user@, role, year_of_experiment(conn@, experiment)) is None
                && Some(year) == year_of_experiment(conn@, experiment) && has_year(conn@.years, year),
            Err(e) => barred_for(conn@, user@, role, year_of_experiment(conn@, experiment)) == Some(e),
        },
{
    let year = match lookup(conn.experiments(), &experiment_id_of, Ghost(experiment_id()), experiment) {
        Some(row) => row.year,
        None => {
            return Err(ApiError::NotFound);
        },
    };
    match authorize(year, role, conn, user) {
        Ok(()) => Ok(year),
        Err(e) => Err(e),
    }
}

/// Lets a user make a change to a student, and names the year of the
/// student.
pub fn authorize_student(student: i32, role: Role, conn: &Database, user: &User) -> (r: ApiResult<
    i16,
>)
    requires
        conn.wf(),
    ensures
        match r {
            Ok(year) => barred_for(conn@, user@, role, year_of_student(conn@, student)) is None
                && Some(year) == year_of_student(conn@, student) && has_year(conn@.years, year),
            Err(e) => barred_for(conn@, user@, role, year_of_student(conn@, student)) == Some(e),
        },
{
    let year = match lookup(conn.students(), &student_id_of, Ghost(student_id()), student) {
        Some(row) => row.year,
        None => {
            return Err(ApiError::NotFound);
        },
    };
    match authorize(year, role, conn, user) {
        Ok(()) => Ok(year),
        Err(e) => Err(e),
    }
}

/// The name of a day.
pub open spec fn day_name(t: Tables, day: i32) -> Seq<char> {
    the_row(t.days, day_id(), day).name@
}

/// What the audit trail says of a new group.
pub open spec fn new_group_message(t: Tables, desk: i32, day: i32, comment: Seq<char>) -> Seq<char> {
    "Create new group at desk "@ + decimal(desk as int) + " on "@ + day_name(t, day) + " (#"@
        + decimal(day as int) + ") with comment '"@ + comment + "'"@
}

/// Why it is refused to make a group, if it is.
pub open spec fn post_group_refusal(t: Tables, p: Principal, day: i32) -> Option<ApiError> {
    if barred_for(t, p, Role::Tutor, year_of_day(t, day)) is Some {
        barred_for(t, p, Role::Tutor, year_of_day(t, day))
    } else if max_id(t.groups, group_id()) >= i32::MAX || !can_log(t) {
        Some(ApiError::Other)
    } else {
        None
    }
}

/// Makes a group on a day. It is for the tutors of the year.
pub fn post_group(group: NewGroup, conn: &mut Database, user: &User) -> (r: ApiResult<push::Group>)
    requires
        old(conn).wf(),
    ensures
        final(conn).wf(),
        r is Ok <==> post_group_refusal(old(conn)@, user@, group.day_id) is None,
        r matches Ok(told) ==> {
            let id = (max_id(old(conn)@.groups, group_id()) + 1) as i32;
            &&& told == (push::Group::New { day: group.day_id })
            &&& sans_log(final(conn)@, old(conn)@) == (Tables {
                groups: old(conn)@.groups.push(
                    Group { id, desk: group.desk, day_id: group.day_id, comment: group.comment },
                ),
                ..old(conn)@
            })
            &&& logged(
                old(conn)@.audit_logs,
                final(conn)@.audit_logs,
                old(conn)@.now,
                year_of_day(old(conn)@, group.day_id)->Some_0,
                Some(id),
                user@.name,
                new_group_message(old(conn)@, group.desk, group.day_id, group.comment@),
            )
        },
        r matches Err(e) ==> final(conn)@ == old(conn)@ && post_group_refusal(
            old(conn)@,
            user@,
            group.day_id,
        ) == Some(e),
{
    let mut work = conn.snapshot();
    let day = group.day_id;
    let year = authorize_day(day, Role::Tutor, &work, user)?;
    let day_row = lookup(work.days(), &day_id_of, Ghost(day_id()), day).unwrap();
    let mut change = String::from_str("Create new group at desk ");
    push_decimal(&mut change, group.desk as i64);
    change.append(" on ");
    change.append(day_row.name.as_str());
    change.append(" (#");
    push_decimal(&mut change, day as i64);
    change.append(") with comment '");
    change.append(group.comment.as_str());
    change.append("'");
    let id = work.create_group(group)?;
    add_audit_log(year, Some(id), user.name(), &mut work, change.as_str())?;
    *conn = work;
    Ok(push::Group::New { day })
}

/// The full name of a student.
pub open spec fn student_name(t: Tables, student: i32) -> Seq<char> {
    let row = the_row(t.students, student_id(), student);
    full_name(row.given_name@, row.family_name@)
}

/// What the audit trail says of a student who joins a group.
pub open spec fn join_message(t: Tables, student: i32) -> Seq<char> {
    "Add "@ + student_name(t, student) + " (#"@ + decimal(student as int) + ") to group"@
}

/// What the audit trail says of a student who leaves a group.
pub open spec fn leave_message(t: Tables, student: i32) -> Seq<char> {
    "Remove "@ + student_name(t, student) + " (#"@ + decimal(student as int) + ") from group"@
}

/// Why it is refused to put a student into a group, if it is.
pub open spec fn put_group_student_refusal(t: Tables, p: Principal, group: i32, student: i32) -> Option<
    ApiError,
> {
    if barred_in_group(t, p, Role::Tutor, group) is Some {
        barred_in_group(t, p, Role::Tutor, group)
    } else if !has_student(t.students, student) || has_key(
        t.group_mappings,
        mapping_key(),
        (student, group),
    ) {
        Some(ApiError::ConstraintViolation)
    } else if !can_log(t) {
        Some(ApiError::Other)
    } else {
        None
    }
}

/// Puts a student into a group. It is for the tutors of the year.
pub fn put_group_student(group: i32, student: i32, conn: &mut Database, user: &User) -> (r:
    ApiResult<push::Student>)
    requires
        old(conn).wf(),
    ensures
        final(conn).wf(),
        r is Ok <==> put_group_student_refusal(old(conn)@, user@, group, student) is None,
        r matches Ok(told) ==> {
            &&& told matches push::Student::Add { group: g, student: s, name }
            &&& g == group
            &&& s == student
            &&& name@ == student_name(old(conn)@, student)
            &&& sans_log(final(conn)@, old(conn)@) == (Tables {
                group_mappings: old(conn)@.group_mappings.push(
                    GroupMapping { student_id: student, group_id: group },
                ),
                ..old(conn)@
            })
            &&& logged(
                old(conn)@.audit_logs,
                final(conn)@.audit_logs,
                old(conn)@.now,
                year_of_group(old(conn)@, group),
                Some(group),
                user@.name,
                join_message(old(conn)@, student),
            )
        },
        r matches Err(e) ==> final(conn)@ == old(conn)@ && put_group_student_refusal(
            old(conn)@,
            user@,
            group,
            student,
        ) == Some(e),
{
    let mut work = conn.snapshot();
    let year = authorize_group(group, Role::Tutor, &work, user)?;
    work.insert_group_mapping(GroupMapping { student_id: student, group_id: group })?;
    let name = lookup(work.students(), &student_id_of, Ghost(student_id()), student).unwrap().name();
    let mut change = String::from_str("Add ");
    change.append(name.as_str());
    change.append(" (#");
    push_decimal(&mut change, student as i64);
    change.append(") to group");
    add_audit_log(year, Some(group), user.name(), &mut work, change.as_str())?;
    *conn = work;
    Ok(push::Student::Add { group, student, name })
}

/// The group has a completion or an elaboration to its name.
pub open spec fn group_has_records(t: Tables, group: i32) -> bool {
    some_row(t.completions, key_is(completion_group(), group)) || some_row(
        t.elaborations,
        key_is(elaboration_group(), group),
    )
}

/// The membership of the student in the group.
pub open spec fn is_membership(student: i32, group: i32) -> spec_fn(GroupMapping) -> bool {
    |m: GroupMapping| m.student_id == student && m.group_id == group
}

/// Why it is refused to take a student out of a group, if it is. A group
/// with completions or elaborations keeps its students.
pub open spec fn delete_group_student_refusal(
    t: Tables,
    p: Principal,
    group: i32,
    student: i32,
) -> Option<ApiError> {
    if barred_in_group(t, p, Role::Tutor, group) is Some {
        barred_in_group(t, p, Role::Tutor, group)
    } else if group_has_records(t, group) {
        Some(ApiError::ConstraintViolation)
    } else if !has_key(t.group_mappings, mapping_key(), (student, group)) {
        Some(ApiError::NotFound)
    } else if !can_log(t) {
        Some(ApiError::Other)
    } else {
        None
    }
}

/// Takes a student out of a group. It is for the tutors of the year.
pub fn delete_group_student(group: i32, student: i32, conn: &mut Database, user: &User) -> (r:
    ApiResult<push::Student>)
    requires
        old(conn).wf(),
    ensures
        final(conn).wf(),
        r is Ok <==> delete_group_student_refusal(old(conn)@, user@, group, student) is None,
        r matches Ok(told) ==> {
            &&& told == (push::Student::Remove { student })
            &&& sans_log(final(conn)@, old(conn)@) == (Tables {
                group_mappings: old(conn)@.group_mappings.filter(negate(is_membership(student, group))),
                ..old(conn)@
            })
            &&& logged(
                old(conn)@.audit_logs,
                final(conn)@.audit_logs,
                old(conn)@.now,
                year_of_group(old(conn)@, group),
                Some(group),
                user@.name,
                leave_message(old(conn)@, student),
            )
        },
        r matches Err(e) ==> final(conn)@ == old(conn)@ && delete_group_student_refusal(
            old(conn)@,
            user@,
            group,
            student,
        ) == Some(e),
{
    let mut work = conn.snapshot();
    let year = authorize_group(group, Role::Tutor, &work, user)?;
    let num_completions = exists_row(
        work.completions(),
        &|c: &Completion| -> (b: bool)
            ensures
                b == key_is(completion_group(), group)(*c)
        {
            c.group_id == group
        },
        Ghost(key_is(completion_group(), group)),
    );
    let num_elaborations = exists_row(
        work.elaborations(),
        &|e: &Elaboration| -> (b: bool)
            ensures
                b == key_is(elaboration_group(), group)(*e)
        {
            e.group_id == group
        },
        Ghost(key_is(elaboration_group(), group)),
    );
    if num_completions || num_elaborations {
        return Err(ApiError::ConstraintViolation);
    }
    let found = find_pair(
        work.group_mappings(),
        &mapping_student_of,
        Ghost(mapping_student()),
        &mapping_group_of,
        Ghost(mapping_group()),
        Ghost(mapping_key()),
        (student, group),
    );
    if found.is_none() {
        return Err(ApiError::NotFound);
    }
    proof {
        let t = work@;
        let i = found->Some_0 as int;
        assert(has_key(t.students, student_id(), mapping_student()(t.group_mappings[i])));
    }
    work.remove_group_mappings(
        &|m: &GroupMapping| -> (b: bool)
            ensures
                b == is_membership(student, group)(*m)
        {
            m.student_id == student && m.group_id == group
        },
        Ghost(is_membership(student, group)),
    );
    let name = lookup(work.students(), &student_id_of, Ghost(student_id()), student).unwrap().name();
    let mut change = String::from_str("Remove ");
    change.append(name.as_str());
    change.append(" (#");
    push_decimal(&mut change, student as i64);
    change.append(") from group");
    add_audit_log(year, Some(group), user.name(), &mut work, change.as_str())?;
    *conn = work;
    Ok(push::Student::Remove { student })
}

/// Why it is refused to make a year, if it is.
pub open spec fn put_year_refusal(t: Tables, year: i16) -> Option<ApiError> {
    if has_year(t.years, year) {
        Some(ApiError::ConstraintViolation)
    } else if !can_log(t) {
        Some(ApiError::Other)
    } else {
        None
    }
}

/// Makes a year, open to writes. It is for the site admins.
pub fn put_year(year: i16, conn: &mut Database, user: &SiteAdmin) -> (r: ApiResult<()>)
    requires
        old(conn).wf(),
    ensures
        final(conn).wf(),
        r is Ok <==> put_year_refusal(old(conn)@, year) is None,
        r is Ok ==> {
            &&& sans_log(final(conn)@, old(conn)@) == (Tables {
                years: old(conn)@.years.push(Year { id: year, writable: true }),
                ..old(conn)@
            })
            &&& logged(
                old(conn)@.audit_logs,
                final(conn)@.audit_logs,
                old(conn)@.now,
                year,
                None,
                user.user()@.name,
                "Create new year "@ + decimal(year as int),
            )
        },
        r matches Err(e) ==> final(conn)@ == old(conn)@ && put_year_refusal(old(conn)@, year) == Some(e),
{
    let mut work = conn.snapshot();
    work.insert_year(Year { id: year, writable: true })?;
    assert(has_year(work@.years, year)) by {
        assert(work@.years[work@.years.len() - 1].id == year);
    }
    let mut change = String::from_str("Create new year ");
    push_decimal(&mut change, year as i64);
    add_audit_log(year, None, user.deref().name(), &mut work, change.as_str())?;
    *conn = work;
    Ok(())
}

/// Why it is refused to close a year, if it is. A year is closed once.
pub open spec fn close_year_refusal(t: Tables, year: i16) -> Option<ApiError> {
    if !has_year(t.years, year) {
        Some(ApiError::NotFound)
    } else if !year_writable(t, year) {
        Some(ApiError::Locked)
    } else if !can_log(t) {
        Some(ApiError::Other)
    } else {
        None
    }
}

/// Closes a year to writes. There is no way back. It is for the site
/// admins.
pub fn put_year_writable(year: i16, conn: &mut Database, user: &SiteAdmin) -> (r: ApiResult<()>)
    requires
        old(conn).wf(),
    ensures
        final(conn).wf(),
        r is Ok <==> close_year_refusal(old(conn)@, year) is None,
        r is Ok ==> {
            &&& sans_log(final(conn)@, old(conn)@) == (Tables {
                years: rewritten(old(conn)@.years, year_id(), year as i32, with_writable(false)),
                ..old(conn)@
            })
            &&& logged(
                old(conn)@.audit_logs,
                final(conn)@.audit_logs,
                old(conn)@.now,
                year,
                None,
                user.user()@.name,
                "Close year "@ + decimal(year as int) + " (no longer modifiable)"@,
            )
            &&& has_year(final(conn)@.years, year)
            &&& !year_writable(final(conn)@, year)
        },
        r matches Err(e) ==> final(conn)@ == old(conn)@ && close_year_refusal(old(conn)@, year) == Some(
            e,
        ),
{
    let mut work = conn.snapshot();
    if !has_row(work.years(), year) {
        return Err(ApiError::NotFound);
    }
    if !is_writable_year(year, &work) {
        return Err(ApiError::Locked);
    }
    work.set_year_writable(year, false)?;
    proof {
        let before = conn@.years;
        let after = work@.years;
        let i = choose|i: int| 0 <= i < before.len() && year_id()(#[trigger] before[i]) == year as i32;
        assert(year_id()(after[i]) == year as i32);
        lemma_rewritten_distinct(before, year_id(), year as i32, with_writable(false), year_id());
        lemma_the_row(after, year_id(), i);
    }
    let mut change = String::from_str("Close year ");
    push_decimal(&mut change, year as i64);
    change.append(" (no longer modifiable)");
    add_audit_log(year, None, user.deref().name(), &mut work, change.as_str())?;
    *conn = work;
    Ok(())
}

/// Whether there is a year with the id.
fn has_row(years: &Vec<Year>, year: i16) -> (r: bool)
    ensures
        r == has_year(years@, year),
{
    crate::relation::find_key(years, &year_id_of, Ghost(year_id()), year as i32).is_some()
}

/// Deletes a year with everything that belongs to it, or nothing. A closed
/// year can be deleted like an open one. It is for the site admins.
pub fn delete_year(year: i16, conn: &mut Database, user: &SiteAdmin) -> (r: ApiResult<()>)
    requires
        old(conn).wf(),
    ensures
        final(conn).wf(),
        r is Ok <==> consistent(without_year(old(conn)@, year)),
        r is Ok ==> final(conn)@ == without_year(old(conn)@, year) && !year_in_use(final(conn)@, year),
        r is Err ==> r == Err::<(), ApiError>(ApiError::ConstraintViolation) && final(conn)@ == old(
            conn,
        )@,
{
    crate::db::delete_year(year, conn)
}

/// Why a change in a year that makes a row is refused, if it is.
pub open spec fn creation_refusal(t: Tables, p: Principal, year: i16, largest: int) -> Option<
    ApiError,
> {
    if barred(t, p, Role::Admin, year) is Some {
        barred(t, p, Role::Admin, year)
    } else if largest >= i32::MAX || !can_log(t) {
        Some(ApiError::Other)
    } else {
        None
    }
}

/// What the audit trail says of something new with a name and an id.
pub open spec fn created_message(what: Seq<char>, name: Seq<char>, id: int) -> Seq<char> {
    "Create new "@ + what + " "@ + name + " (#"@ + decimal(id) + ")"@
}

/// What the audit trail says of something with a name and an id that is
/// removed.
pub open spec fn removed_message(what: Seq<char>, name: Seq<char>, id: int) -> Seq<char> {
    "Remove "@ + what + " "@ + name + " (#"@ + decimal(id) + ")"@
}

fn created_message_of(what: &str, name: &str, id: i32) -> (r: String)
    ensures
        r@ == created_message(what@, name@, id as int),
{
    let mut m = String::from_str("Create new ");
    m.append(what);
    m.append(" ");
    m.append(name);
    m.append(" (#");
    push_decimal(&mut m, id as i64);
    m.append(")");
    m
}

fn removed_message_of(what: &str, name: &str, id: i32) -> (r: String)
    ensures
        r@ == removed_message(what@, name@, id as int),
{
    let mut m = String::from_str("Remove ");
    m.append(what);
    m.append(" ");
    m.append(name);
    m.append(" (#");
    push_decimal(&mut m, id as i64);
    m.append(")");
    m
}

/// Makes an experiment in a year, and gives its id. It is for the admins of
/// the year.
pub fn post_experiment(experiment: NewExperiment, conn: &mut Database, user: &User) -> (r:
    ApiResult<i32>)
    requires
        old(conn).wf(),
    ensures
        final(conn).wf(),
        r is Ok <==> creation_refusal(
            old(conn)@,
            user@,
            experiment.year,
            max_id(old(conn)@.experiments, experiment_id()),
        ) is None,
        r matches Ok(id) ==> {
            &&& id == max_id(old(conn)@.experiments, experiment_id()) + 1
            &&& sans_log(final(conn)@, old(conn)@) == (Tables {
                experiments: old(conn)@.experiments.push(
                    Experiment { id, name: experiment.name, year: experiment.year },
                ),
                ..old(conn)@
            })
            &&& logged(
                old(conn)@.audit_logs,
                final(conn)@.audit_logs,
                old(conn)@.now,
                experiment.year,
                None,
                user@.name,
                created_message("experiment"@, experiment.name@, id as int),
            )
        },
        r matches Err(e) ==> final(conn)@ == old(conn)@ && creation_refusal(
            old(conn)@,
            user@,
            experiment.year,
            max_id(old(conn)@.experiments, experiment_id()),
        ) == Some(e),
{
    let mut work = conn.snapshot();
    let year = experiment.year;
    authorize(year, Role::Admin, &work, user)?;
    let name = experiment.name.clone();
    let id = work.create_experiment(experiment)?;
    let change = created_message_of("experiment", name.as_str(), id);
    add_audit_log(year, None, user.name(), &mut work, change.as_str())?;
    *conn = work;
    Ok(id)
}

/// Makes a day in a year, and gives its id. It is for the admins of the
/// year.
pub fn post_day(day: NewDay, conn: &mut Database, user: &User) -> (r: ApiResult<i32>)
    requires
        old(conn).wf(),
    ensures
        final(conn).wf(),
        r is Ok <==> creation_refusal(old(conn)@, user@, day.year, max_id(old(conn)@.days, day_id())) is None,
        r matches Ok(id) ==> {
            &&& id == max_id(old(conn)@.days, day_id()) + 1
            &&& sans_log(final(conn)@, old(conn)@) == (Tables {
                days: old(conn)@.days.push(Day { id, name: day.name, year: day.year }),
                ..old(conn)@
            })
            &&& logged(
                old(conn)@.audit_logs,
                final(conn)@.audit_logs,
                old(conn)@.now,
                day.year,
                None,
                user@.name,
                created_message("day"@, day.name@, id as int),
            )
        },
        r matches Err(e) ==> final(conn)@ == old(conn)@ && creation_refusal(
            old(conn)@,
            user@,
            day.year,
            max_id(old(conn)@.days, day_id()),
        ) == Some(e),
{
    let mut work = conn.snapshot();
    let year = day.year;
    authorize(year, Role::Admin, &work, user)?;
    let name = day.name.clone();
    let id = work.create_day(day)?;
    let change = created_message_of("day", name.as_str(), id);
    add_audit_log(year, None, user.name(), &mut work, change.as_str())?;
    *conn = work;
    Ok(id)
}

/// Why it is refused to remove something of a year, if it is: the year bars
/// it, rows of other tables still name the thing, or the audit trail is
/// full.
pub open spec fn removal_refusal(
    t: Tables,
    p: Principal,
    year: Option<i16>,
    in_use: bool,
) -> Option<ApiError> {
    if barred_for(t, p, Role::Admin, year) is Some {
        barred_for(t, p, Role::Admin, year)
    } else if in_use {
        Some(ApiError::ConstraintViolation)
    } else if !can_log(t) {
        Some(ApiError::Other)
    } else {
        None
    }
}

/// An event, a task or an elaboration names the experiment.
pub open spec fn experiment_in_use(t: Tables, experiment: i32) -> bool {
    let it = key_is(experiment_id(), experiment);
    ||| referenced(t.events, event_experiment(), t.experiments, experiment_id(), it)
    ||| referenced(t.tasks, task_experiment(), t.experiments, experiment_id(), it)
    ||| referenced(t.elaborations, elaboration_experiment(), t.experiments, experiment_id(), it)
}

/// Removes an experiment that nothing names any more. It is for the admins
/// of the year.
pub fn delete_experiment(experiment: i32, conn: &mut Database, user: &User) -> (r: ApiResult<()>)
    requires
        old(conn).wf(),
    ensures
        final(conn).wf(),
        r is Ok <==> removal_refusal(
            old(conn)@,
            user@,
            year_of_experiment(old(conn)@, experiment),
            experiment_in_use(old(conn)@, experiment),
        ) is None,
        r is Ok ==> {
            &&& sans_log(final(conn)@, old(conn)@) == (Tables {
                experiments: old(conn)@.experiments.filter(negate(key_is(experiment_id(), experiment))),
                ..old(conn)@
            })
            &&& logged(
                old(conn)@.audit_logs,
                final(conn)@.audit_logs,
                old(conn)@.now,
                year_of_experiment(old(conn)@, experiment)->Some_0,
                None,
                user@.name,
                removed_message("experiment"@, experiment_name(old(conn)@, experiment), experiment as int),
            )
        },
        r matches Err(e) ==> final(conn)@ == old(conn)@ && removal_refusal(
            old(conn)@,
            user@,
            year_of_experiment(old(conn)@, experiment),
            experiment_in_use(old(conn)@, experiment),
        ) == Some(e),
{
    let mut work = conn.snapshot();
    let year = authorize_experiment(experiment, Role::Admin, &work, user)?;
    let name = lookup(
        work.experiments(),
        &experiment_id_of,
        Ghost(experiment_id()),
        experiment,
    ).unwrap().name.clone();
    work.remove_experiments(
        &|x: &Experiment| -> (b: bool)
            ensures
                b == key_is(experiment_id(), experiment)(*x)
        {
            x.id == experiment
        },
        Ghost(key_is(experiment_id(), experiment)),
    )?;
    let change = removed_message_of("experiment", name.as_str(), experiment);
    add_audit_log(year, None, user.name(), &mut work, change.as_str())?;
    *conn = work;
    Ok(())
}

/// An event or a group names the day.
pub open spec fn day_in_use(t: Tables, day: i32) -> bool {
    let it = key_is(day_id(), day);
    ||| referenced(t.events, event_day(), t.days, day_id(), it)
    ||| referenced(t.groups, group_day(), t.days, day_id(), it)
}

/// Removes a day that nothing names any more. It is for the admins of the
/// year.
pub fn delete_day(day: i32, conn: &mut Database, user: &User) -> (r: ApiResult<()>)
    requires
        old(conn).wf(),
    ensures
        final(conn).wf(),
        r is Ok <==> removal_refusal(
            old(conn)@,
            user@,
            year_of_day(old(conn)@, day),
            day_in_use(old(conn)@, day),
        ) is None,
        r is Ok ==> {
            &&& sans_log(final(conn)@, old(conn)@) == (Tables {
                days: old(conn)@.days.filter(negate(key_is(day_id(), day))),
                ..old(conn)@
            })
            &&& logged(
                old(conn)@.audit_logs,
                final(conn)@.audit_logs,
                old(conn)@.now,
                year_of_day(old(conn)@, day)->Some_0,
                None,
                user@.name,
                removed_message("day"@, day_name(old(conn)@, day), day as int),
            )
        },
        r matches Err(e) ==> final(conn)@ == old(conn)@ && removal_refusal(
            old(conn)@,
            user@,
            year_of_day(old(conn)@, day),
            day_in_use(old(conn)@, day),
        ) == Some(e),
{
    let mut work = conn.snapshot();
    let year = authorize_day(day, Role::Admin, &work, user)?;
    let name = lookup(work.days(), &day_id_of, Ghost(day_id()), day).unwrap().name.clone();
    work.remove_days(
        &|x: &Day| -> (b: bool)
            ensures
                b == key_is(day_id(), day)(*x)
        {
            x.id == day
        },
        Ghost(key_is(day_id(), day)),
    )?;
    let change = removed_message_of("day", name.as_str(), day);
    add_audit_log(year, None, user.name(), &mut work, change.as_str())?;
    *conn = work;
    Ok(())
}

/// The user name, or a dash where there is none.
pub open spec fn name_or_dash(username: Option<String>) -> Seq<char> {
    match username {
        Some(name) => name@,
        None => "-"@,
    }
}

/// What the audit trail says of a new student.
pub open spec fn new_student_message(student: NewStudent, id: int) -> Seq<char> {
    "Create new student "@ + student.given_name@ + " "@ + student.family_name@ + " ("@
        + student.matrikel@ + ", "@ + name_or_dash(student.username) + ", #"@ + decimal(id) + ")"@
}

/// Makes a student and records it in the audit trail, on the store as it
/// is: where the second step fails, the first stays. Who calls it works on a
/// copy.
pub fn insert_student(student: NewStudent, conn: &mut Database, user: &str) -> (r: ApiResult<i32>)
    requires
        old(conn).wf(),
    ensures
        final(conn).wf(),
        r is Ok <==> has_year(old(conn)@.years, student.year) && max_id(
            old(conn)@.students,
            student_id(),
        ) < i32::MAX && can_log(old(conn)@),
        r matches Ok(id) ==> {
            &&& id == max_id(old(conn)@.students, student_id()) + 1
            &&& sans_log(final(conn)@, old(conn)@) == (Tables {
                students: old(conn)@.students.push(
                    Student {
                        id,
                        matrikel: student.matrikel,
                        year: student.year,
                        username: student.username,
                        instructed: false,
                        given_name: student.given_name,
                        family_name: student.family_name,
                    },
                ),
                ..old(conn)@
            })
            &&& logged(
                old(conn)@.audit_logs,
                final(conn)@.audit_logs,
                old(conn)@.now,
                student.year,
                None,
                user@,
                new_student_message(student, id as int),
            )
        },
        r matches Err(e) ==> e == if has_year(old(conn)@.years, student.year) {
            ApiError::Other
        } else {
            ApiError::ConstraintViolation
        },
{
    let year = student.year;
    let mut change = String::from_str("Create new student ");
    change.append(student.given_name.as_str());
    change.append(" ");
    change.append(student.family_name.as_str());
    change.append(" (");
    change.append(student.matrikel.as_str());
    change.append(", ");
    match &student.username {
        Some(name) => change.append(name.as_str()),
        None => change.append("-"),
    }
    change.append(", #");
    let id = conn.create_student(student)?;
    push_decimal(&mut change, id as i64);
    change.append(")");
    add_audit_log(year, None, user, conn, change.as_str())?;
    Ok(id)
}

/// Makes a student in a year, and gives their id. It is for the admins of
/// the year.
pub fn post_student(student: NewStudent, conn: &mut Database, user: &User) -> (r: ApiResult<i32>)
    requires
        old(conn).wf(),
    ensures
        final(conn).wf(),
        r is Ok <==> creation_refusal(
            old(conn)@,
            user@,
            student.year,
            max_id(old(conn)@.students, student_id()),
        ) is None,
        r matches Ok(id) ==> {
            &&& id == max_id(old(conn)@.students, student_id()) + 1
            &&& sans_log(final(conn)@, old(conn)@) == (Tables {
                students: old(conn)@.students.push(
                    Student {
                        id,
                        matrikel: student.matrikel,
                        year: student.year,
                        username: student.username,
                        instructed: false,
                        given_name: student.given_name,
                        family_name: student.family_name,
                    },
                ),
                ..old(conn)@
            })
            &&& logged(
                old(conn)@.audit_logs,
                final(conn)@.audit_logs,
                old(conn)@.now,
                student.year,
                None,
                user@.name,
                new_student_message(student, id as int),
            )
        },
        r matches Err(e) ==> final(conn)@ == old(conn)@ && creation_refusal(
            old(conn)@,
            user@,
            student.year,
            max_id(old(conn)@.students, student_id()),
        ) == Some(e),
{
    let mut work = conn.snapshot();
    authorize(student.year, Role::Admin, &work, user)?;
    let id = insert_student(student, &mut work, user.name())?;
    *conn = work;
    Ok(id)
}

/// What the audit trail says of a student who is removed.
pub open spec fn removed_student_message(t: Tables, student: i32) -> Seq<char> {
    let row = the_row(t.students, student_id(), student);
    "Remove student "@ + student_name(t, student) + " ("@ + row.matrikel@ + ", "@ + name_or_dash(
        row.username,
    ) + ", #"@ + decimal(student as int) + ")"@
}

/// A membership names the student.
pub open spec fn student_in_use(t: Tables, student: i32) -> bool {
    referenced(
        t.group_mappings,
        mapping_student(),
        t.students,
        student_id(),
        key_is(student_id(), student),
    )
}

/// Removes a student who is in no group. It is for the admins of the year.
pub fn delete_student(student: i32, conn: &mut Database, user: &User) -> (r: ApiResult<()>)
    requires
        old(conn).wf(),
    ensures
        final(conn).wf(),
        r is Ok <==> removal_refusal(
            old(conn)@,
            user@,
            year_of_student(old(conn)@, student),
            student_in_use(old(conn)@, student),
        ) is None,
        r is Ok ==> {
            &&& sans_log(final(conn)@, old(conn)@) == (Tables {
                students: old(conn)@.students.filter(negate(key_is(student_id(), student))),
                ..old(conn)@
            })
            &&& logged(
                old(conn)@.audit_logs,
                final(conn)@.audit_logs,
                old(conn)@.now,
                year_of_student(old(conn)@, student)->Some_0,
                None,
                user@.name,
                removed_student_message(old(conn)@, student),
            )
        },
        r matches Err(e) ==> final(conn)@ == old(conn)@ && removal_refusal(
            old(conn)@,
            user@,
            year_of_student(old(conn)@, student),
            student_in_use(old(conn)@, student),
        ) == Some(e),
{
    let mut work = conn.snapshot();
    let year = authorize_student(student, Role::Admin, &work, user)?;
    let row = lookup(work.students(), &student_id_of, Ghost(student_id()), student).unwrap();
    let mut change = String::from_str("Remove student ");
    change.append(row.name().as_str());
    change.append(" (");
    change.append(row.matrikel.as_str());
    change.append(", ");
    match &row.username {
        Some(name) => change.append(name.as_str()),
        None => change.append("-"),
    }
    change.append(", #");
    push_decimal(&mut change, student as i64);
    change.append(")");
    work.remove_students(
        &|x: &Student| -> (b: bool)
            ensures
                b == key_is(student_id(), student)(*x)
        {
            x.id == student
        },
        Ghost(key_is(student_id(), student)),
    )?;
    add_audit_log(year, None, user.name(), &mut work, change.as_str())?;
    *conn = work;
    Ok(())
}

/// The words for a state that holds now or no longer.
pub open spec fn now_or_no_longer(now: bool) -> Seq<char> {
    if now {
        "now"@
    } else {
        "no longer"@
    }
}

/// What the audit trail says of a student who was instructed or not.
pub open spec fn instructed_message(t: Tables, student: i32, instructed: bool) -> Seq<char> {
    "Student "@ + student_name(t, student) + " (#"@ + decimal(student as int) + ") is "@
        + now_or_no_longer(instructed) + " instructed"@
}

/// Why a change to a student is refused, if it is.
pub open spec fn student_change_refusal(t: Tables, p: Principal, student: i32) -> Option<ApiError> {
    if barred_for(t, p, Role::Admin, year_of_student(t, student)) is Some {
        barred_for(t, p, Role::Admin, year_of_student(t, student))
    } else if !can_log(t) {
        Some(ApiError::Other)
    } else {
        None
    }
}

/// Notes whether a student was instructed. It is for the admins of the
/// year.
pub fn put_student_instucted(student: i32, instructed: bool, conn: &mut Database, user: &User) -> (r:
    ApiResult<push::Student>)
    requires
        old(conn).wf(),
    ensures
        final(conn).wf(),
        r is Ok <==> student_change_refusal(old(conn)@, user@, student) is None,
        r matches Ok(told) ==> {
            &&& told == (push::Student::Instructed { student, instructed })
            &&& sans_log(final(conn)@, old(conn)@) == (Tables {
                students: rewritten(
                    old(conn)@.students,
                    student_id(),
                    student,
                    with_instructed(instructed),
                ),
                ..old(conn)@
            })
            &&& logged(
                old(conn)@.audit_logs,
                final(conn)@.audit_logs,
                old(conn)@.now,
                year_of_student(old(conn)@, student)->Some_0,
                None,
                user@.name,
                instructed_message(old(conn)@, student, instructed),
            )
        },
        r matches Err(e) ==> final(conn)@ == old(conn)@ && student_change_refusal(
            old(conn)@,
            user@,
            student,
        ) == Some(e),
{
    let mut work = conn.snapshot();
    let year = authorize_student(student, Role::Admin, &work, user)?;
    let name = lookup(work.students(), &student_id_of, Ghost(student_id()), student).unwrap().name();
    let mut change = String::from_str("Student ");
    change.append(name.as_str());
    change.append(" (#");
    push_decimal(&mut change, student as i64);
    change.append(") is ");
    change.append(if instructed {
        "now"
    } else {
        "no longer"
    });
    change.append(" instructed");
    work.set_student_instructed(student, instructed)?;
    add_audit_log(year, None, user.name(), &mut work, change.as_str())?;
    *conn = work;
    Ok(push::Student::Instructed { student, instructed })
}

/// The words for a tutor with or without the rights of an admin.
pub open spec fn admin_or_not(is_admin: bool) -> Seq<char> {
    if is_admin {
        "admin"@
    } else {
        "no admin"@
    }
}

/// What the audit trail says of a tutor who is made or removed.
pub open spec fn tutor_message(verb: Seq<char>, username: Seq<char>, id: int, is_admin: bool) -> Seq<
    char,
> {
    verb + " tutor "@ + username + " (#"@ + decimal(id) + ", "@ + admin_or_not(is_admin) + ")"@
}

fn tutor_message_of(verb: &str, username: &str, id: i32, is_admin: bool) -> (r: String)
    ensures
        r@ == tutor_message(verb@, username@, id as int, is_admin),
{
    let mut m = String::from_str(verb);
    m.append(" tutor ");
    m.append(username);
    m.append(" (#");
    push_decimal(&mut m, id as i64);
    m.append(", ");
    m.append(if is_admin {
        "admin"
    } else {
        "no admin"
    });
    m.append(")");
    m
}

/// Makes a tutor of a year, and gives their id. It is for the site admins.
pub fn post_tutor(tutor: NewTutor, conn: &mut Database, user: &SiteAdmin) -> (r: ApiResult<i32>)
    requires
        old(conn).wf(),
    ensures
        final(conn).wf(),
        r is Ok <==> creation_refusal(
            old(conn)@,
            user.user()@,
            tutor.year,
            max_id(old(conn)@.tutors, tutor_id()),
        ) is None,
        r matches Ok(id) ==> {
            &&& id == max_id(old(conn)@.tutors, tutor_id()) + 1
            &&& sans_log(final(conn)@, old(conn)@) == (Tables {
                tutors: old(conn)@.tutors.push(
                    Tutor { id, username: tutor.username, year: tutor.year, is_admin: tutor.is_admin },
                ),
                ..old(conn)@
            })
            &&& logged(
                old(conn)@.audit_logs,
                final(conn)@.audit_logs,
                old(conn)@.now,
                tutor.year,
                None,
                user.user()@.name,
                tutor_message("Create new"@, tutor.username@, id as int, tutor.is_admin),
            )
        },
        r matches Err(e) ==> final(conn)@ == old(conn)@ && creation_refusal(
            old(conn)@,
            user.user()@,
            tutor.year,
            max_id(old(conn)@.tutors, tutor_id()),
        ) == Some(e),
{
    let mut work = conn.snapshot();
    let year = tutor.year;
    let is_admin = tutor.is_admin;
    authorize(year, Role::Admin, &work, user.deref())?;
    let username = tutor.username.clone();
    let id = work.create_tutor(tutor)?;
    let change = tutor_message_of("Create new", username.as_str(), id, is_admin);
    add_audit_log(year, None, user.deref().name(), &mut work, change.as_str())?;
    *conn = work;
    Ok(id)
}

/// Why a change to a tutor is refused, if it is.
pub open spec fn tutor_change_refusal(t: Tables, p: Principal, tutor: i32) -> Option<ApiError> {
    if barred_for(t, p, Role::Admin, year_of_tutor(t, tutor)) is Some {
        barred_for(t, p, Role::Admin, year_of_tutor(t, tutor))
    } else if !can_log(t) {
        Some(ApiError::Other)
    } else {
        None
    }
}

/// Lets a site admin change a tutor, and gives the tutor's row.
fn authorize_tutor<'a>(tutor: i32, conn: &'a Database, user: &SiteAdmin) -> (r: ApiResult<&'a Tutor>)
    requires
        conn.wf(),
    ensures
        match r {
            Ok(row) => barred_for(conn@, user.user()@, Role::Admin, year_of_tutor(conn@, tutor)) is None
                && *row == the_row(conn@.tutors, tutor_id(), tutor) && Some(row.year) == year_of_tutor(
                conn@,
                tutor,
            ) && has_year(conn@.years, row.year),
            Err(e) => barred_for(conn@, user.user()@, Role::Admin, year_of_tutor(conn@, tutor)) == Some(
                e,
            ),
        },
{
    let row = match lookup(conn.tutors(), &tutor_id_of, Ghost(tutor_id()), tutor) {
        Some(row) => row,
        None => {
            return Err(ApiError::NotFound);
        },
    };
    match authorize(row.year, Role::Admin, conn, user.deref()) {
        Ok(()) => Ok(row),
        Err(e) => Err(e),
    }
}

/// Removes a tutor. It is for the site admins.
pub fn delete_tutor(tutor: i32, conn: &mut Database, user: &SiteAdmin) -> (r: ApiResult<()>)
    requires
        old(conn).wf(),
    ensures
        final(conn).wf(),
        r is Ok <==> tutor_change_refusal(old(conn)@, user.user()@, tutor) is None,
        r is Ok ==> {
            let row = the_row(old(conn)@.tutors, tutor_id(), tutor);
            &&& sans_log(final(conn)@, old(conn)@) == (Tables {
                tutors: old(conn)@.tutors.filter(negate(key_is(tutor_id(), tutor))),
                ..old(conn)@
            })
            &&& logged(
                old(conn)@.audit_logs,
                final(conn)@.audit_logs,
                old(conn)@.now,
                row.year,
                None,
                user.user()@.name,
                tutor_message("Remove"@, row.username@, tutor as int, row.is_admin),
            )
        },
        r matches Err(e) ==> final(conn)@ == old(conn)@ && tutor_change_refusal(
            old(conn)@,
            user.user()@,
            tutor,
        ) == Some(e),
{
    let mut work = conn.snapshot();
    let row = authorize_tutor(tutor, &work, user)?;
    let year = row.year;
    let change = tutor_message_of("Remove", row.username.as_str(), tutor, row.is_admin);
    work.remove_tutors(
        &|x: &Tutor| -> (b: bool)
            ensures
                b == key_is(tutor_id(), tutor)(*x)
        {
            x.id == tutor
        },
        Ghost(key_is(tutor_id(), tutor)),
    );
    add_audit_log(year, None, user.deref().name(), &mut work, change.as_str())?;
    *conn = work;
    Ok(())
}

/// What the audit trail says of a tutor who gets or loses the rights of an
/// admin.
pub open spec fn tutor_admin_message(username: Seq<char>, id: int, is_admin: bool) -> Seq<char> {
    "Tutor "@ + username + " (#"@ + decimal(id) + ") is "@ + now_or_no_longer(is_admin) + " admin"@
}

/// Gives a tutor the rights of an admin or takes them. It is for the site
/// admins.
pub fn put_tutor_admin(tutor: i32, is_admin: bool, conn: &mut Database, user: &SiteAdmin) -> (r:
    ApiResult<()>)
    requires
        old(conn).wf(),
    ensures
        final(conn).wf(),
        r is Ok <==> tutor_change_refusal(old(conn)@, user.user()@, tutor) is None,
        r is Ok ==> {
            let row = the_row(old(conn)@.tutors, tutor_id(), tutor);
            &&& sans_log(final(conn)@, old(conn)@) == (Tables {
                tutors: rewritten(old(conn)@.tutors, tutor_id(), tutor, with_admin(is_admin)),
                ..old(conn)@
            })
            &&& logged(
                old(conn)@.audit_logs,
                final(conn)@.audit_logs,
                old(conn)@.now,
                row.year,
                None,
                user.user()@.name,
                tutor_admin_message(row.username@, tutor as int, is_admin),
            )
        },
        r matches Err(e) ==> final(conn)@ == old(conn)@ && tutor_change_refusal(
            old(conn)@,
            user.user()@,
            tutor,
        ) == Some(e),
{
    let mut work = conn.snapshot();
    let row = authorize_tutor(tutor, &work, user)?;
    let year = row.year;
    let mut change = String::from_str("Tutor ");
    change.append(row.username.as_str());
    change.append(" (#");
    push_decimal(&mut change, tutor as i64);
    change.append(") is ");
    change.append(if is_admin {
        "now"
    } else {
        "no longer"
    });
    change.append(" admin");
    work.set_tutor_admin(tutor, is_admin)?;
    add_audit_log(year, None, user.deref().name(), &mut work, change.as_str())?;
    *conn = work;
    Ok(())
}

/// What the audit trail says of the date set for an experiment on a day.
pub open spec fn event_message(t: Tables, date: i32, day: i32, experiment: i32) -> Seq<char> {
    "Set event date to "@ + shown_date(date) + " for day "@ + day_name(t, day) + " (#"@ + decimal(
        day as int,
    ) + ") and experiment "@ + experiment_name(t, experiment) + " (#"@ + decimal(experiment as int)
        + ")"@
}

/// What the audit trail says of the date taken back.
pub open spec fn no_event_message(t: Tables, day: i32, experiment: i32) -> Seq<char> {
    "Remove event date for day "@ + day_name(t, day) + " (#"@ + decimal(day as int)
        + ") and experiment "@ + experiment_name(t, experiment) + " (#"@ + decimal(experiment as int)
        + ")"@
}

/// Why it is refused to set the date of an experiment on a day, if it is.
pub open spec fn put_event_refusal(t: Tables, p: Principal, experiment: i32, day: i32, date: Seq<char>) -> Option<
    ApiError,
> {
    if barred_for(t, p, Role::Admin, year_of_day(t, day)) is Some {
        barred_for(t, p, Role::Admin, year_of_day(t, day))
    } else if date_of_text(date) is None {
        Some(ApiError::Other)
    } else if !has_experiment(t.experiments, experiment) {
        Some(ApiError::ConstraintViolation)
    } else if !can_log(t) {
        Some(ApiError::Other)
    } else {
        None
    }
}

/// Sets the date on which an experiment takes place for a day. The date is
/// given in the form year-month-day. It is for the admins of the year.
pub fn put_event(experiment: i32, day: i32, date: &str, conn: &mut Database, user: &User) -> (r:
    ApiResult<()>)
    requires
        old(conn).wf(),
    ensures
        final(conn).wf(),
        r is Ok <==> put_event_refusal(old(conn)@, user@, experiment, day, date@) is None,
        r is Ok ==> {
            let on = date_of_text(date@)->Some_0;
            &&& sans_log(final(conn)@, old(conn)@) == (Tables {
                events: events_with(
                    old(conn)@.events,
                    Event { day_id: day, experiment_id: experiment, date: on },
                ),
                ..old(conn)@
            })
            &&& logged(
                old(conn)@.audit_logs,
                final(conn)@.audit_logs,
                old(conn)@.now,
                year_of_day(old(conn)@, day)->Some_0,
                None,
                user@.name,
                event_message(old(conn)@, on, day, experiment),
            )
        },
        r matches Err(e) ==> final(conn)@ == old(conn)@ && put_event_refusal(
            old(conn)@,
            user@,
            experiment,
            day,
            date@,
        ) == Some(e),
{
    let mut work = conn.snapshot();
    let year = authorize_day(day, Role::Admin, &work, user)?;
    let on = match parse_date(date) {
        Some(on) => on,
        None => {
            return Err(ApiError::Other);
        },
    };
    work.put_event(Event { day_id: day, experiment_id: experiment, date: on })?;
    let day_row = lookup(work.days(), &day_id_of, Ghost(day_id()), day).unwrap();
    let experiment_row = lookup(
        work.experiments(),
        &experiment_id_of,
        Ghost(experiment_id()),
        experiment,
    ).unwrap();
    let mut change = String::from_str("Set event date to ");
    change.append(show_date(on).as_str());
    change.append(" for day ");
    change.append(day_row.name.as_str());
    change.append(" (#");
    push_decimal(&mut change, day as i64);
    change.append(") and experiment ");
    change.append(experiment_row.name.as_str());
    change.append(" (#");
    push_decimal(&mut change, experiment as i64);
    change.append(")");
    add_audit_log(year, None, user.name(), &mut work, change.as_str())?;
    *conn = work;
    Ok(())
}

/// Why it is refused to take back the date of an experiment on a day, if it
/// is.
pub open spec fn delete_event_refusal(t: Tables, p: Principal, experiment: i32, day: i32) -> Option<
    ApiError,
> {
    if barred_for(t, p, Role::Admin, year_of_day(t, day)) is Some {
        barred_for(t, p, Role::Admin, year_of_day(t, day))
    } else if !has_experiment(t.experiments, experiment) {
        Some(ApiError::NotFound)
    } else if !can_log(t) {
        Some(ApiError::Other)
    } else {
        None
    }
}

/// The event of the experiment on the day.
pub open spec fn is_event(day: i32, experiment: i32) -> spec_fn(Event) -> bool {
    |e: Event| e.day_id == day && e.experiment_id == experiment
}

/// Takes back the date of an experiment on a day. It is for the admins of
/// the year.
pub fn delete_event(experiment: i32, day: i32, conn: &mut Database, user: &User) -> (r: ApiResult<()>)
    requires
        old(conn).wf(),
    ensures
        final(conn).wf(),
        r is Ok <==> delete_event_refusal(old(conn)@, user@, experiment, day) is None,
        r is Ok ==> {
            &&& sans_log(final(conn)@, old(conn)@) == (Tables {
                events: old(conn)@.events.filter(negate(is_event(day, experiment))),
                ..old(conn)@
            })
            &&& logged(
                old(conn)@.audit_logs,
                final(conn)@.audit_logs,
                old(conn)@.now,
                year_of_day(old(conn)@, day)->Some_0,
                None,
                user@.name,
                no_event_message(old(conn)@, day, experiment),
            )
        },
        r matches Err(e) ==> final(conn)@ == old(conn)@ && delete_event_refusal(
            old(conn)@,
            user@,
            experiment,
            day,
        ) == Some(e),
{
    let mut work = conn.snapshot();
    let year = authorize_day(day, Role::Admin, &work, user)?;
    let experiment_name = match lookup(
        work.experiments(),
        &experiment_id_of,
        Ghost(experiment_id()),
        experiment,
    ) {
        Some(row) => row.name.clone(),
        None => {
            return Err(ApiError::NotFound);
        },
    };
    let day_row = lookup(work.days(), &day_id_of, Ghost(day_id()), day).unwrap();
    let mut change = String::from_str("Remove event date for day ");
    change.append(day_row.name.as_str());
    change.append(" (#");
    push_decimal(&mut change, day as i64);
    change.append(") and experiment ");
    change.append(experiment_name.as_str());
    change.append(" (#");
    push_decimal(&mut change, experiment as i64);
    change.append(")");
    work.remove_events(
        &|e: &Event| -> (b: bool)
            ensures
                b == is_event(day, experiment)(*e)
        {
            e.day_id == day && e.experiment_id == experiment
        },
        Ghost(is_event(day, experiment)),
    );
    add_audit_log(year, None, user.name(), &mut work, change.as_str())?;
    *conn = work;
    Ok(())
}

/// A network to put on the whitelist of a year.
#[derive(Debug, Clone, Copy, PartialEq, Eq, Structural)]
pub struct NewIpWhitelistEntry {
    pub ipnet: Inet,
    pub year: i16,
}

/// Why it is refused to put a network on the whitelist, if it is.
pub open spec fn post_ip_whitelist_refusal(t: Tables, p: Principal, entry: NewIpWhitelistEntry) -> Option<
    ApiError,
> {
    if barred(t, p, Role::Admin, entry.year) is Some {
        barred(t, p, Role::Admin, entry.year)
    } else if !entry.ipnet.valid() {
        Some(ApiError::ConstraintViolation)
    } else {
        creation_refusal(t, p, entry.year, max_id(t.ip_whitelist, whitelist_id()))
    }
}

/// Puts a network on the whitelist of a year, and gives the id of the
/// entry. It is for the site admins.
pub fn post_ip_whitelist(entry: NewIpWhitelistEntry, conn: &mut Database, user: &SiteAdmin) -> (r:
    ApiResult<i32>)
    requires
        old(conn).wf(),
    ensures
        final(conn).wf(),
        r is Ok <==> post_ip_whitelist_refusal(old(conn)@, user.user()@, entry) is None,
        r matches Ok(id) ==> {
            &&& id == max_id(old(conn)@.ip_whitelist, whitelist_id()) + 1
            &&& sans_log(final(conn)@, old(conn)@) == (Tables {
                ip_whitelist: old(conn)@.ip_whitelist.push(
                    IpWhitelistEntry { id, ipnet: entry.ipnet, year: entry.year },
                ),
                ..old(conn)@
            })
            &&& logged(
                old(conn)@.audit_logs,
                final(conn)@.audit_logs,
                old(conn)@.now,
                entry.year,
                None,
                user.user()@.name,
                created_message("ip whitelist entry"@, abbreviated(entry.ipnet), id as int),
            )
        },
        r matches Err(e) ==> final(conn)@ == old(conn)@ && post_ip_whitelist_refusal(
            old(conn)@,
            user.user()@,
            entry,
        ) == Some(e),
{
    let mut work = conn.snapshot();
    authorize(entry.year, Role::Admin, &work, user.deref())?;
    if !entry.ipnet.is_valid() {
        return Err(ApiError::ConstraintViolation);
    }
    let id = work.create_whitelist_entry(entry.ipnet, entry.year)?;
    let change = created_message_of("ip whitelist entry", entry.ipnet.abbrev().as_str(), id);
    add_audit_log(entry.year, None, user.deref().name(), &mut work, change.as_str())?;
    *conn = work;
    Ok(id)
}

/// The year of a whitelist entry, if there is such an entry.
pub open spec fn year_of_entry(t: Tables, entry: i32) -> Option<i16> {
    if has_key(t.ip_whitelist, whitelist_id(), entry) {
        Some(the_row(t.ip_whitelist, whitelist_id(), entry).year)
    } else {
        None
    }
}

/// Why it is refused to take a network off the whitelist, if it is.
pub open spec fn delete_ip_whitelist_refusal(t: Tables, p: Principal, entry: i32) -> Option<ApiError> {
    if barred_for(t, p, Role::Admin, year_of_entry(t, entry)) is Some {
        barred_for(t, p, Role::Admin, year_of_entry(t, entry))
    } else if !can_log(t) {
        Some(ApiError::Other)
    } else {
        None
    }
}

/// Takes a network off the whitelist. It is for the site admins.
pub fn delete_ip_whitelist(entry: i32, conn: &mut Database, user: &SiteAdmin) -> (r: ApiResult<()>)
    requires
        old(conn).wf(),
    ensures
        final(conn).wf(),
        r is Ok <==> delete_ip_whitelist_refusal(old(conn)@, user.user()@, entry) is None,
        r is Ok ==> {
            let row = the_row(old(conn)@.ip_whitelist, whitelist_id(), entry);
            &&& sans_log(final(conn)@, old(conn)@) == (Tables {
                ip_whitelist: old(conn)@.ip_whitelist.filter(negate(key_is(whitelist_id(), entry))),
                ..old(conn)@
            })
            &&& logged(
                old(conn)@.audit_logs,
                final(conn)@.audit_logs,
                old(conn)@.now,
                row.year,
                None,
                user.user()@.name,
                removed_message("ip whitelist entry"@, abbreviated(row.ipnet), entry as int),
            )
        },
        r matches Err(e) ==> final(conn)@ == old(conn)@ && delete_ip_whitelist_refusal(
            old(conn)@,
            user.user()@,
            entry,
        ) == Some(e),
{
    let mut work = conn.snapshot();
    let row = match lookup(work.ip_whitelist(), &whitelist_id_of, Ghost(whitelist_id()), entry) {
        Some(row) => *row,
        None => {
            return Err(ApiError::NotFound);
        },
    };
    authorize(row.year, Role::Admin, &work, user.deref())?;
    let change = removed_message_of("ip whitelist entry", row.ipnet.abbrev().as_str(), entry);
    work.remove_ip_whitelist(
        &|x: &IpWhitelistEntry| -> (b: bool)
            ensures
                b == key_is(whitelist_id(), entry)(*x)
        {
            x.id == entry
        },
        Ghost(key_is(whitelist_id(), entry)),
    );
    add_audit_log(row.year, None, user.deref().name(), &mut work, change.as_str())?;
    *conn = work;
    Ok(())
}

/// What the audit trail says of a new task.
pub open spec fn new_task_message(t: Tables, name: Seq<char>, id: int, experiment: i32) -> Seq<char> {
    "Create task "@ + name + " (#"@ + decimal(id) + ") for experiment "@ + experiment_name(
        t,
        experiment,
    ) + " (#"@ + decimal(experiment as int) + ")"@
}

/// What the audit trail says of a task that is removed.
pub open spec fn removed_task_message(t: Tables, task: i32, experiment: i32) -> Seq<char> {
    "Remove task "@ + task_name(t, task) + " (#"@ + decimal(task as int) + ") from experiment "@
        + experiment_name(t, experiment) + " (#"@ + decimal(experiment as int) + ")"@
}

/// Why it is refused to make a task, if it is.
pub open spec fn post_task_refusal(t: Tables, p: Principal, experiment: i32) -> Option<ApiError> {
    if barred_for(t, p, Role::Admin, year_of_experiment(t, experiment)) is Some {
        barred_for(t, p, Role::Admin, year_of_experiment(t, experiment))
    } else if max_id(t.tasks, task_id()) >= i32::MAX || !can_log(t) {
        Some(ApiError::Other)
    } else {
        None
    }
}

/// Makes a task of an experiment, and gives its id. It is for the admins of
/// the year.
pub fn post_experiment_task(experiment: i32, task: String, conn: &mut Database, user: &User) -> (r:
    ApiResult<i32>)
    requires
        old(conn).wf(),
    ensures
        final(conn).wf(),
        r is Ok <==> post_task_refusal(old(conn)@, user@, experiment) is None,
        r matches Ok(id) ==> {
            &&& id == max_id(old(conn)@.tasks, task_id()) + 1
            &&& sans_log(final(conn)@, old(conn)@) == (Tables {
                tasks: old(conn)@.tasks.push(Task { id, experiment_id: experiment, name: task }),
                ..old(conn)@
            })
            &&& logged(
                old(conn)@.audit_logs,
                final(conn)@.audit_logs,
                old(conn)@.now,
                year_of_experiment(old(conn)@, experiment)->Some_0,
                None,
                user@.name,
                new_task_message(old(conn)@, task@, id as int, experiment),
            )
        },
        r matches Err(e) ==> final(conn)@ == old(conn)@ && post_task_refusal(
            old(conn)@,
            user@,
            experiment,
        ) == Some(e),
{
    let mut work = conn.snapshot();
    let year = authorize_experiment(experiment, Role::Admin, &work, user)?;
    let experiment_row = lookup(
        work.experiments(),
        &experiment_id_of,
        Ghost(experiment_id()),
        experiment,
    ).unwrap();
    let mut change = String::from_str("Create task ");
    change.append(task.as_str());
    change.append(" (#");
    let mut tail = String::from_str(") for experiment ");
    tail.append(experiment_row.name.as_str());
    tail.append(" (#");
    push_decimal(&mut tail, experiment as i64);
    tail.append(")");
    let ghost name = task@;
    let id = work.create_task(experiment, task)?;
    push_decimal(&mut change, id as i64);
    change.append(tail.as_str());
    assert(change@ =~= new_task_message(conn@, name, id as int, experiment));
    add_audit_log(year, None, user.name(), &mut work, change.as_str())?;
    *conn = work;
    Ok(id)
}

/// The task is one of the experiment.
pub open spec fn task_of_experiment(t: Tables, task: i32, experiment: i32) -> bool {
    has_task(t.tasks, task) && the_row(t.tasks, task_id(), task).experiment_id == experiment
}

/// A completion names the task.
pub open spec fn task_in_use(t: Tables, task: i32) -> bool {
    referenced(t.completions, completion_task(), t.tasks, task_id(), key_is(task_id(), task))
}

/// Why it is refused to remove a task, if it is.
pub open spec fn delete_task_refusal(t: Tables, p: Principal, experiment: i32, task: i32) -> Option<
    ApiError,
> {
    if !task_of_experiment(t, task, experiment) {
        Some(ApiError::NotFound)
    } else {
        removal_refusal(t, p, year_of_experiment(t, experiment), task_in_use(t, task))
    }
}

/// Removes a task of an experiment that no group has completed. It is for
/// the admins of the year.
pub fn delete_experiment_task(experiment: i32, task: i32, conn: &mut Database, user: &User) -> (r:
    ApiResult<()>)
    requires
        old(conn).wf(),
    ensures
        final(conn).wf(),
        r is Ok <==> delete_task_refusal(old(conn)@, user@, experiment, task) is None,
        r is Ok ==> {
            &&& sans_log(final(conn)@, old(conn)@) == (Tables {
                tasks: old(conn)@.tasks.filter(negate(key_is(task_id(), task))),
                ..old(conn)@
            })
            &&& logged(
                old(conn)@.audit_logs,
                final(conn)@.audit_logs,
                old(conn)@.now,
                year_of_experiment(old(conn)@, experiment)->Some_0,
                None,
                user@.name,
                removed_task_message(old(conn)@, task, experiment),
            )
        },
        r matches Err(e) ==> final(conn)@ == old(conn)@ && delete_task_refusal(
            old(conn)@,
            user@,
            experiment,
            task,
        ) == Some(e),
{
    let mut work = conn.snapshot();
    let task_name = match lookup(work.tasks(), &task_id_of, Ghost(task_id()), task) {
        Some(row) => {
            if row.experiment_id != experiment {
                return Err(ApiError::NotFound);
            }
            row.name.clone()
        },
        None => {
            return Err(ApiError::NotFound);
        },
    };
    proof {
        let t = work@;
        let i = choose|i: int| 0 <= i < t.tasks.len() && task_id()(#[trigger] t.tasks[i]) == task;
        lemma_the_row(t.tasks, task_id(), i);
        assert(has_key(t.experiments, experiment_id(), task_experiment()(t.tasks[i])));
    }
    let year = authorize_experiment(experiment, Role::Admin, &work, user)?;
    let experiment_row = lookup(
        work.experiments(),
        &experiment_id_of,
        Ghost(experiment_id()),
        experiment,
    ).unwrap();
    let mut change = String::from_str("Remove task ");
    change.append(task_name.as_str());
    change.append(" (#");
    push_decimal(&mut change, task as i64);
    change.append(") from experiment ");
    change.append(experiment_row.name.as_str());
    change.append(" (#");
    push_decimal(&mut change, experiment as i64);
    change.append(")");
    work.remove_tasks(
        &|x: &Task| -> (b: bool)
            ensures
                b == key_is(task_id(), task)(*x)
        {
            x.id == task
        },
        Ghost(key_is(task_id(), task)),
    )?;
    add_audit_log(year, None, user.name(), &mut work, change.as_str())?;
    *conn = work;
    Ok(())
}

/// What to search for: students whom every term finds, in a year.
pub struct Search {
    pub terms: Vec<String>,
    pub year: i16,
}

/// The groups of the year with a student whom every term finds. It is for
/// the tutors of the year.
pub fn search_groups(search: &Search, conn: &Database, user: &User) -> (r: ApiResult<Vec<SearchGroup>>)
    requires
        conn.wf(),
    ensures
        r is Ok <==> user@.is_tutor_for(search.year),
        r is Err ==> r->Err_0 == ApiError::Forbidden,
        r matches Ok(groups) ==> presents(
            conn@.groups,
            group_sought(conn@, search.terms@, search.year),
            group_by_day(conn@),
            shows_group(conn@),
            groups@,
        ),
{
    user.ensure_tutor_for(search.year)?;
    Ok(find_groups(&search.terms, search.year, conn))
}

/// The students of the year whom every term finds. It is for the tutors of
/// the year.
pub fn search_students(search: &Search, conn: &Database, user: &User) -> (r: ApiResult<
    Vec<FoundStudent>,
>)
    ensures
        r is Ok <==> user@.is_tutor_for(search.year),
        r is Err ==> r->Err_0 == ApiError::Forbidden,
        r matches Ok(students) ==> presents(
            conn@.students,
            sought(search.terms@, search.year),
            student_by_name(),
            shows_name(),
            students@,
        ),
{
    user.ensure_tutor_for(search.year)?;
    Ok(find_students(&search.terms, search.year, conn))
}

} // verus!
