//! The storage layer: rows, schema rules, the store and its statements, and
//! the cascading deletions.
use vstd::prelude::*;

pub mod change;
pub mod delta;
pub mod inet;
pub mod models;
pub mod schema;
pub mod store;

use crate::calendar::current_year;
use crate::errors::{ApiError, ApiResult};
use crate::relation::{
    column, contains_id, has_key, key_in, key_is, key_satisfies, lemma_blocked_dangles,
    lemma_column_of_filter, lemma_filter_agree, lemma_remove_none, lemma_remove_one_more,
    lemma_removed_are_gone, lemma_unreferenced_key, negate, referenced, select_keys, some_row,
};
use models::{
    AuditLog, Completion, Day, Elaboration, Event, Experiment, Group, GroupMapping,
    IpWhitelistEntry, Student, Task, Tutor, Year,
};
use schema::{
    audit_log_year, completion_group, completion_task, consistent, day_id, day_year,
    elaboration_experiment, elaboration_group, event_day, event_experiment, experiment_id,
    experiment_year, group_day, group_id, mapping_group, mapping_student, student_id,
    student_year, task_experiment, task_id, tutor_year, whitelist_year, year_id, Tables,
};
use store::{day_id_of, experiment_id_of, group_id_of, Database};

verus! {

/// The store without a group and without what belongs to it: its
/// completions, its elaborations and its memberships. The students stay.
pub open spec fn without_group(t: Tables, group: i32) -> Tables {
    Tables {
        completions: t.completions.filter(negate(key_is(completion_group(), group))),
        elaborations: t.elaborations.filter(negate(key_is(elaboration_group(), group))),
        group_mappings: t.group_mappings.filter(negate(key_is(mapping_group(), group))),
        groups: t.groups.filter(negate(key_is(group_id(), group))),
        ..t
    }
}

/// Deletes the group with the given id, with its completions, elaborations
/// and memberships. It never touches a student.
pub fn delete_group(group: i32, conn: &mut Database) -> (r: ApiResult<()>)
    requires
        old(conn).wf(),
    ensures
        final(conn).wf(),
        r is Ok,
        final(conn)@ == without_group(old(conn)@, group),
{
    let ghost t = conn@;
    conn.remove_completions(
        &|c: &Completion| -> (b: bool)
            ensures
                b == (c.group_id == group)
        {
            c.group_id == group
        },
        Ghost(key_is(completion_group(), group)),
    );
    conn.remove_elaborations(
        &|e: &Elaboration| -> (b: bool)
            ensures
                b == (e.group_id == group)
        {
            e.group_id == group
        },
        Ghost(key_is(elaboration_group(), group)),
    );
    conn.remove_group_mappings(
        &|m: &GroupMapping| -> (b: bool)
            ensures
                b == (m.group_id == group)
        {
            m.group_id == group
        },
        Ghost(key_is(mapping_group(), group)),
    );
    proof {
        lemma_unreferenced_key(t.completions, completion_group(), t.groups, group_id(), group);
        lemma_unreferenced_key(t.elaborations, elaboration_group(), t.groups, group_id(), group);
        lemma_unreferenced_key(t.group_mappings, mapping_group(), t.groups, group_id(), group);
    }
    let removed = conn.remove_groups(
        &|g: &Group| -> (b: bool)
            ensures
                b == (g.id == group)
        {
            g.id == group
        },
        Ghost(key_is(group_id(), group)),
    );
    match removed {
        Ok(_) => Ok(()),
        Err(e) => Err(e),
    }
}

/// The ids of the days of a year.
pub open spec fn days_of(t: Tables, year: i16) -> Seq<i32> {
    column(t.days.filter(key_is(day_year(), year as i32)), day_id())
}

/// The ids of the groups of a year: those of its days.
pub open spec fn groups_of(t: Tables, year: i16) -> Seq<i32> {
    column(t.groups.filter(key_in(group_day(), days_of(t, year))), group_id())
}

/// The ids of the experiments of a year.
pub open spec fn experiments_of(t: Tables, year: i16) -> Seq<i32> {
    column(t.experiments.filter(key_is(experiment_year(), year as i32)), experiment_id())
}

/// The store without a year and without every row that belongs to it: its
/// days with their events and groups, what belongs to those groups, its
/// experiments with their tasks, its students, tutors, whitelist entries and
/// audit entries.
pub open spec fn without_year(t: Tables, year: i16) -> Tables {
    Tables {
        years: t.years.filter(negate(key_is(year_id(), year as i32))),
        days: t.days.filter(negate(key_is(day_year(), year as i32))),
        experiments: t.experiments.filter(negate(key_is(experiment_year(), year as i32))),
        events: t.events.filter(negate(key_in(event_day(), days_of(t, year)))),
        groups: t.groups.filter(negate(key_in(group_day(), days_of(t, year)))),
        students: t.students.filter(negate(key_is(student_year(), year as i32))),
        group_mappings: t.group_mappings.filter(
            negate(key_in(mapping_group(), groups_of(t, year))),
        ),
        tasks: t.tasks.filter(negate(key_in(task_experiment(), experiments_of(t, year)))),
        completions: t.completions.filter(negate(key_in(completion_group(), groups_of(t, year)))),
        elaborations: t.elaborations.filter(
            negate(key_in(elaboration_group(), groups_of(t, year))),
        ),
        audit_logs: t.audit_logs.filter(negate(key_is(audit_log_year(), year as i32))),
        tutors: t.tutors.filter(negate(key_is(tutor_year(), year as i32))),
        ip_whitelist: t.ip_whitelist.filter(negate(key_is(whitelist_year(), year as i32))),
        now: t.now,
    }
}

/// The groups whose day belongs to the year.
pub open spec fn group_in_year(t: Tables, year: i16) -> spec_fn(Group) -> bool {
    |g: Group| key_satisfies(t.days, day_id(), g.day_id, key_is(day_year(), year as i32))
}

/// Some row of some table belongs to the year: the year's own row, a row
/// that carries the year, or a row that names a day, an experiment or a
/// group of the year.
pub open spec fn year_in_use(t: Tables, year: i16) -> bool {
    ||| has_key(t.years, year_id(), year as i32)
    ||| some_row(t.days, key_is(day_year(), year as i32))
    ||| some_row(t.experiments, key_is(experiment_year(), year as i32))
    ||| some_row(t.students, key_is(student_year(), year as i32))
    ||| some_row(t.audit_logs, key_is(audit_log_year(), year as i32))
    ||| some_row(t.tutors, key_is(tutor_year(), year as i32))
    ||| some_row(t.ip_whitelist, key_is(whitelist_year(), year as i32))
    ||| referenced(t.events, event_day(), t.days, day_id(), key_is(day_year(), year as i32))
    ||| referenced(t.groups, group_day(), t.days, day_id(), key_is(day_year(), year as i32))
    ||| referenced(
        t.events,
        event_experiment(),
        t.experiments,
        experiment_id(),
        key_is(experiment_year(), year as i32),
    )
    ||| referenced(
        t.tasks,
        task_experiment(),
        t.experiments,
        experiment_id(),
        key_is(experiment_year(), year as i32),
    )
    ||| referenced(
        t.elaborations,
        elaboration_experiment(),
        t.experiments,
        experiment_id(),
        key_is(experiment_year(), year as i32),
    )
    ||| referenced(t.group_mappings, mapping_group(), t.groups, group_id(), group_in_year(t, year))
    ||| referenced(t.completions, completion_group(), t.groups, group_id(), group_in_year(t, year))
    ||| referenced(
        t.elaborations,
        elaboration_group(),
        t.groups,
        group_id(),
        group_in_year(t, year),
    )
    ||| referenced(
        t.group_mappings,
        mapping_student(),
        t.students,
        student_id(),
        key_is(student_year(), year as i32),
    )
}

/// After a year is taken out, no row belongs to it.
pub proof fn lemma_year_gone(t: Tables, year: i16)
    ensures
        !year_in_use(without_year(t, year), year),
{
    let y = year as i32;
    let u = without_year(t, year);
    lemma_removed_are_gone(t.years, key_is(year_id(), y));
    lemma_removed_are_gone(t.days, key_is(day_year(), y));
    lemma_removed_are_gone(t.experiments, key_is(experiment_year(), y));
    lemma_removed_are_gone(t.students, key_is(student_year(), y));
    lemma_removed_are_gone(t.audit_logs, key_is(audit_log_year(), y));
    lemma_removed_are_gone(t.tutors, key_is(tutor_year(), y));
    lemma_removed_are_gone(t.ip_whitelist, key_is(whitelist_year(), y));
    if has_key(u.years, year_id(), y) {
        let i = choose|i: int| 0 <= i < u.years.len() && year_id()(#[trigger] u.years[i]) == y;
        assert(key_is(year_id(), y)(u.years[i]));
    }
    assert forall|g: Group| !(#[trigger] group_in_year(u, year)(g)) by {
        if group_in_year(u, year)(g) {
            let j = choose|j: int|
                0 <= j < u.days.len() && day_id()(#[trigger] u.days[j]) == g.day_id && key_is(
                    day_year(),
                    y,
                )(u.days[j]);
            assert(key_is(day_year(), y)(u.days[j]));
        }
    }
}

/// Deletes a year with everything that belongs to it, or nothing at all.
///
/// The steps run on a copy of the store: the days of the year are collected,
/// then the groups of those days, and each such group is deleted with what
/// belongs to it; then the events and the days go, the tasks of the year's
/// experiments, the experiments, students, tutors, whitelist entries and
/// audit entries, and at last the year. A step is refused where a row that
/// stays names a row that would go. Then the copy is dropped and the store is
/// as it was; otherwise the copy becomes the store.
pub fn delete_year(year: i16, conn: &mut Database) -> (r: ApiResult<()>)
    requires
        old(conn).wf(),
    ensures
        final(conn).wf(),
        r is Ok <==> consistent(without_year(old(conn)@, year)),
        r is Ok ==> final(conn)@ == without_year(old(conn)@, year) && !year_in_use(
            final(conn)@,
            year,
        ),
        r is Err ==> r == Err::<(), ApiError>(ApiError::ConstraintViolation) && final(conn)@ == old(
            conn,
        )@,
{
    let ghost t = conn@;
    let ghost goal = without_year(t, year);
    let ghost y = year as i32;
    let mut work = conn.snapshot();

    let days = select_keys(
        work.days(),
        &|d: &Day| -> (b: bool)
            ensures
                b == (d.year == year)
        {
            d.year == year
        },
        Ghost(key_is(day_year(), y)),
        &day_id_of,
        Ghost(day_id()),
    );
    let groups = select_keys(
        work.groups(),
        &|g: &Group| -> (b: bool)
            ensures
                b == days@.contains(g.day_id)
        {
            contains_id(&days, g.day_id)
        },
        Ghost(key_in(group_day(), days@)),
        &group_id_of,
        Ghost(group_id()),
    );
    assert(days@ == days_of(t, year));
    assert(groups@ == groups_of(t, year));

    let mut k: usize = 0;
    proof {
        lemma_remove_none(t.completions, completion_group());
        lemma_remove_none(t.elaborations, elaboration_group());
        lemma_remove_none(t.group_mappings, mapping_group());
        lemma_remove_none(t.groups, group_id());
        assert(groups@.take(0) =~= Seq::<i32>::empty());
    }
    while k < groups.len()
        invariant
            k <= groups.len(),
            work.wf(),
            work@ == (Tables {
                completions: t.completions.filter(
                    negate(key_in(completion_group(), groups@.take(k as int))),
                ),
                elaborations: t.elaborations.filter(
                    negate(key_in(elaboration_group(), groups@.take(k as int))),
                ),
                group_mappings: t.group_mappings.filter(
                    negate(key_in(mapping_group(), groups@.take(k as int))),
                ),
                groups: t.groups.filter(negate(key_in(group_id(), groups@.take(k as int)))),
                ..t
            }),
        decreases groups.len() - k,
    {
        let _ = delete_group(groups[k], &mut work);
        proof {
            lemma_remove_one_more(t.completions, completion_group(), groups@, k as int);
            lemma_remove_one_more(t.elaborations, elaboration_group(), groups@, k as int);
            lemma_remove_one_more(t.group_mappings, mapping_group(), groups@, k as int);
            lemma_remove_one_more(t.groups, group_id(), groups@, k as int);
        }
        k += 1;
    }
    proof {
        assert(groups@.take(groups.len() as int) =~= groups@);
        assert forall|i: int| 0 <= i < t.groups.len() implies negate(key_in(group_id(), groups@))(
            #[trigger] t.groups[i],
        ) == negate(key_in(group_day(), days@))(t.groups[i]) by {
            lemma_column_of_filter(t.groups, key_in(group_day(), days@), group_id(), i);
        }
        lemma_filter_agree(
            t.groups,
            negate(key_in(group_id(), groups@)),
            negate(key_in(group_day(), days@)),
        );
    }
    assert(work@.groups == goal.groups);
    assert(work@.completions == goal.completions);
    assert(work@.elaborations == goal.elaborations);
    assert(work@.group_mappings == goal.group_mappings);

    work.remove_events(
        &|e: &Event| -> (b: bool)
            ensures
                b == days@.contains(e.day_id)
        {
            contains_id(&days, e.day_id)
        },
        Ghost(key_in(event_day(), days@)),
    );
    assert(work@.events == goal.events);
    let removed = work.remove_days(
        &|d: &Day| -> (b: bool)
            ensures
                b == (d.year == year)
        {
            d.year == year
        },
        Ghost(key_is(day_year(), y)),
    );
    if removed.is_err() {
        proof {
            if referenced(goal.events, event_day(), t.days, day_id(), key_is(day_year(), y)) {
                lemma_blocked_dangles(goal.events, event_day(), t.days, day_id(), key_is(day_year(), y));
            } else {
                lemma_blocked_dangles(goal.groups, group_day(), t.days, day_id(), key_is(day_year(), y));
            }
        }
        return Err(ApiError::ConstraintViolation);
    }
    assert(work@.days == goal.days);

    let experiments = select_keys(
        work.experiments(),
        &|x: &Experiment| -> (b: bool)
            ensures
                b == (x.year == year)
        {
            x.year == year
        },
        Ghost(key_is(experiment_year(), y)),
        &experiment_id_of,
        Ghost(experiment_id()),
    );
    assert(experiments@ == experiments_of(t, year));
    let removed = work.remove_tasks(
        &|x: &Task| -> (b: bool)
            ensures
                b == experiments@.contains(x.experiment_id)
        {
            contains_id(&experiments, x.experiment_id)
        },
        Ghost(key_in(task_experiment(), experiments@)),
    );
    if removed.is_err() {
        proof {
            lemma_blocked_dangles(
                goal.completions,
                completion_task(),
                t.tasks,
                task_id(),
                key_in(task_experiment(), experiments@),
            );
        }
        return Err(ApiError::ConstraintViolation);
    }
    assert(work@.tasks == goal.tasks);

    let removed = work.remove_experiments(
        &|x: &Experiment| -> (b: bool)
            ensures
                b == (x.year == year)
        {
            x.year == year
        },
        Ghost(key_is(experiment_year(), y)),
    );
    if removed.is_err() {
        proof {
            let gone = key_is(experiment_year(), y);
            if referenced(goal.events, event_experiment(), t.experiments, experiment_id(), gone) {
                lemma_blocked_dangles(goal.events, event_experiment(), t.experiments, experiment_id(), gone);
            } else if referenced(goal.tasks, task_experiment(), t.experiments, experiment_id(), gone) {
                lemma_blocked_dangles(goal.tasks, task_experiment(), t.experiments, experiment_id(), gone);
            } else {
                lemma_blocked_dangles(
                    goal.elaborations,
                    elaboration_experiment(),
                    t.experiments,
                    experiment_id(),
                    gone,
                );
            }
        }
        return Err(ApiError::ConstraintViolation);
    }
    assert(work@.experiments == goal.experiments);

    let removed = work.remove_students(
        &|x: &Student| -> (b: bool)
            ensures
                b == (x.year == year)
        {
            x.year == year
        },
        Ghost(key_is(student_year(), y)),
    );
    if removed.is_err() {
        proof {
            lemma_blocked_dangles(
                goal.group_mappings,
                mapping_student(),
                t.students,
                student_id(),
                key_is(student_year(), y),
            );
        }
        return Err(ApiError::ConstraintViolation);
    }
    work.remove_tutors(
        &|x: &Tutor| -> (b: bool)
            ensures
                b == (x.year == year)
        {
            x.year == year
        },
        Ghost(key_is(tutor_year(), y)),
    );
    work.remove_ip_whitelist(
        &|x: &IpWhitelistEntry| -> (b: bool)
            ensures
                b == (x.year == year)
        {
            x.year == year
        },
        Ghost(key_is(whitelist_year(), y)),
    );
    work.remove_audit_logs(
        &|x: &AuditLog| -> (b: bool)
            ensures
                b == (x.year == year)
        {
            x.year == year
        },
        Ghost(key_is(audit_log_year(), y)),
    );
    let removed = work.remove_years(
        &|x: &Year| -> (b: bool)
            ensures
                b == (x.id == year)
        {
            x.id == year
        },
        Ghost(key_is(year_id(), y)),
    );
    if removed.is_err() {
        proof {
            let gone = key_is(year_id(), y);
            if referenced(goal.days, day_year(), t.years, year_id(), gone) {
                lemma_blocked_dangles(goal.days, day_year(), t.years, year_id(), gone);
            } else if referenced(goal.experiments, experiment_year(), t.years, year_id(), gone) {
                lemma_blocked_dangles(goal.experiments, experiment_year(), t.years, year_id(), gone);
            } else if referenced(goal.students, student_year(), t.years, year_id(), gone) {
                lemma_blocked_dangles(goal.students, student_year(), t.years, year_id(), gone);
            } else if referenced(goal.audit_logs, audit_log_year(), t.years, year_id(), gone) {
                lemma_blocked_dangles(goal.audit_logs, audit_log_year(), t.years, year_id(), gone);
            } else if referenced(goal.tutors, tutor_year(), t.years, year_id(), gone) {
                lemma_blocked_dangles(goal.tutors, tutor_year(), t.years, year_id(), gone);
            } else {
                lemma_blocked_dangles(goal.ip_whitelist, whitelist_year(), t.years, year_id(), gone);
            }
        }
        return Err(ApiError::ConstraintViolation);
    }
    assert(work@ == goal);
    proof {
        lemma_year_gone(t, year);
    }
    *conn = work;
    Ok(())
}

/// Takes the count of the rows that a statement touched for good where the
/// statement touched one row, and for a missing row otherwise.
pub fn expect1(count: usize) -> (r: ApiResult<usize>)
    ensures
        r is Ok <==> count == 1,
        r matches Ok(n) ==> n == 1,
        r is Err ==> r->Err_0 == ApiError::NotFound,
{
    if count == 1 {
        Ok(count)
    } else {
        Err(ApiError::NotFound)
    }
}

/// The store with one more year, open for writing.
pub open spec fn with_year(t: Tables, year: i16) -> Tables {
    Tables { years: t.years.push(Year { id: year, writable: true }), ..t }
}

/// Adds a year that is open for writing. Refused where the year exists.
pub fn add_year(year: i16, conn: &mut Database) -> (r: ApiResult<()>)
    requires
        old(conn).wf(),
    ensures
        final(conn).wf(),
        r is Ok <==> !has_key(old(conn)@.years, year_id(), year as i32),
        r is Ok ==> final(conn)@ == with_year(old(conn)@, year),
        r is Err ==> r->Err_0 == ApiError::ConstraintViolation && final(conn)@ == old(conn)@,
{
    conn.insert_year(Year { id: year, writable: true })
}

/// Adds the year of the calendar at this moment, open for writing. Refused
/// where that year exists.
pub fn add_current_year(conn: &mut Database) -> (r: ApiResult<()>)
    requires
        old(conn).wf(),
    ensures
        final(conn).wf(),
        r is Ok ==> exists|year: i16|
            !has_key(old(conn)@.years, year_id(), year as i32) && final(conn)@ == #[trigger] with_year(
                old(conn)@,
                year,
            ),
        r is Err ==> r->Err_0 == ApiError::ConstraintViolation && final(conn)@ == old(conn)@,
        old(conn)@.years.len() == 0 ==> r is Ok,
{
    let year = #[verifier::truncate] (current_year() as i16);
    add_year(year, conn)
}

/// The store after the years were removed one after the other, each with
/// what belongs to it, if every removal leaves the rules of the store
/// intact.
pub open spec fn without_years(t: Tables, years: Seq<i16>) -> Option<Tables>
    decreases years.len(),
{
    if years.len() == 0 {
        Some(t)
    } else if consistent(without_year(t, years[0])) {
        without_years(without_year(t, years[0]), years.drop_first())
    } else {
        None
    }
}

/// The ids of the years.
pub open spec fn year_ids(years: Seq<Year>) -> Seq<i16> {
    Seq::new(years.len(), |i: int| years[i].id)
}

/// The store as it is made ready: where it is emptied, nothing is left but
/// the new year; where it has no year, it gets the new year; else it stays.
pub open spec fn made_ready(before: Tables, truncate: bool, year: i16) -> Tables {
    if truncate {
        with_year(schema::empty_tables(before.now), year)
    } else if before.years.len() == 0 {
        with_year(before, year)
    } else {
        before
    }
}

/// A store without years has no rows at all.
pub proof fn lemma_no_years_no_rows(t: Tables)
    requires
        consistent(t),
        t.years.len() == 0,
    ensures
        t == schema::empty_tables(t.now),
{
    assert(t.days.len() == 0) by {
        if t.days.len() > 0 {
            assert(has_key(t.years, year_id(), day_year()(t.days[0])));
        }
    }
    assert(t.experiments.len() == 0) by {
        if t.experiments.len() > 0 {
            assert(has_key(t.years, year_id(), experiment_year()(t.experiments[0])));
        }
    }
    assert(t.students.len() == 0) by {
        if t.students.len() > 0 {
            assert(has_key(t.years, year_id(), student_year()(t.students[0])));
        }
    }
    assert(t.audit_logs.len() == 0) by {
        if t.audit_logs.len() > 0 {
            assert(has_key(t.years, year_id(), audit_log_year()(t.audit_logs[0])));
        }
    }
    assert(t.tutors.len() == 0) by {
        if t.tutors.len() > 0 {
            assert(has_key(t.years, year_id(), tutor_year()(t.tutors[0])));
        }
    }
    assert(t.ip_whitelist.len() == 0) by {
        if t.ip_whitelist.len() > 0 {
            assert(has_key(t.years, year_id(), whitelist_year()(t.ip_whitelist[0])));
        }
    }
    assert(t.events.len() == 0) by {
        if t.events.len() > 0 {
            assert(has_key(t.days, day_id(), event_day()(t.events[0])));
        }
    }
    assert(t.groups.len() == 0) by {
        if t.groups.len() > 0 {
            assert(has_key(t.days, day_id(), group_day()(t.groups[0])));
        }
    }
    assert(t.tasks.len() == 0) by {
        if t.tasks.len() > 0 {
            assert(has_key(t.experiments, experiment_id(), task_experiment()(t.tasks[0])));
        }
    }
    assert(t.group_mappings.len() == 0) by {
        if t.group_mappings.len() > 0 {
            assert(has_key(t.groups, group_id(), mapping_group()(t.group_mappings[0])));
        }
    }
    assert(t.completions.len() == 0) by {
        if t.completions.len() > 0 {
            assert(has_key(t.groups, group_id(), completion_group()(t.completions[0])));
        }
    }
    assert(t.elaborations.len() == 0) by {
        if t.elaborations.len() > 0 {
            assert(has_key(t.groups, group_id(), elaboration_group()(t.elaborations[0])));
        }
    }
    let e = schema::empty_tables(t.now);
    assert(t.years =~= e.years);
    assert(t.days =~= e.days);
    assert(t.experiments =~= e.experiments);
    assert(t.events =~= e.events);
    assert(t.groups =~= e.groups);
    assert(t.students =~= e.students);
    assert(t.group_mappings =~= e.group_mappings);
    assert(t.tasks =~= e.tasks);
    assert(t.completions =~= e.completions);
    assert(t.elaborations =~= e.elaborations);
    assert(t.audit_logs =~= e.audit_logs);
    assert(t.tutors =~= e.tutors);
    assert(t.ip_whitelist =~= e.ip_whitelist);
}

/// Removes every year with what belongs to it, on the store as it is:
/// where a removal is refused, those before it stay. Who calls it works on
/// a copy.
pub fn delete_years(conn: &mut Database) -> (r: ApiResult<()>)
    requires
        old(conn).wf(),
    ensures
        final(conn).wf(),
        r is Ok <==> without_years(old(conn)@, year_ids(old(conn)@.years)) is Some,
        r is Ok ==> final(conn)@ == schema::empty_tables(old(conn)@.now),
        r is Err ==> r->Err_0 == ApiError::ConstraintViolation,
{
    let ghost before = conn@;
    let mut ids: Vec<i16> = Vec::new();
    let mut i: usize = 0;
    while i < conn.years().len()
        invariant
            i <= conn@.years.len(),
            ids@ == year_ids(conn@.years.take(i as int)),
        decreases conn@.years.len() - i,
    {
        ids.push(conn.years()[i].id);
        assert(year_ids(conn@.years.take(i + 1)) =~= year_ids(conn@.years.take(i as int)).push(
            conn@.years[i as int].id,
        ));
        i += 1;
    }
    assert(conn@.years.take(conn@.years.len() as int) =~= conn@.years);
    let mut k: usize = 0;
    assert(ids@.skip(0) =~= ids@);
    assert forall|m: int| 0 <= m < conn@.years.len() implies ids@.contains(
        (#[trigger] conn@.years[m]).id,
    ) by {
        assert(ids@[m] == conn@.years[m].id);
    }
    while k < ids.len()
        invariant
            k <= ids.len(),
            conn.wf(),
            before == old(conn)@,
            ids@ == year_ids(before.years),
            conn@.now == before.now,
            without_years(before, ids@) == without_years(conn@, ids@.skip(k as int)),
            forall|j: int| 0 <= j < k ==> !has_key(conn@.years, year_id(), #[trigger] ids@[j] as i32),
            forall|m: int| 0 <= m < conn@.years.len() ==> ids@.contains((#[trigger] conn@.years[m]).id),
        decreases ids.len() - k,
    {
        let ghost mid = conn@;
        let ghost rest = ids@.skip(k as int);
        proof {
            assert(rest[0] == ids@[k as int]);
            assert(rest.drop_first() =~= ids@.skip(k + 1));
        }
        match delete_year(ids[k], conn) {
            Ok(()) => {},
            Err(e) => {
                return Err(e);
            },
        }
        proof {
            let gone = negate(key_is(year_id(), ids@[k as int] as i32));
            let at = crate::relation::lemma_filter_positions(mid.years, gone);
            assert forall|j: int| 0 <= j < k + 1 implies !has_key(
                conn@.years,
                year_id(),
                #[trigger] ids@[j] as i32,
            ) by {
                if j < k {
                    crate::relation::lemma_filter_has_key(mid.years, gone, year_id(), ids@[j] as i32);
                    if has_key(conn@.years, year_id(), ids@[j] as i32) {
                        let both = |y: Year| gone(y) && year_id()(y) == ids@[j] as i32;
                        let m = choose|m: int| 0 <= m < mid.years.len() && both(#[trigger] mid.years[m]);
                        assert(year_id()(mid.years[m]) == ids@[j] as i32);
                    }
                }
            }
            assert forall|m: int| 0 <= m < conn@.years.len() implies ids@.contains(
                (#[trigger] conn@.years[m]).id,
            ) by {
                assert(conn@.years[m] == mid.years[at[m]]);
            }
        }
        k += 1;
    }
    proof {
        assert(ids@.skip(ids@.len() as int) =~= Seq::<i16>::empty());
        if conn@.years.len() > 0 {
            let id = conn@.years[0].id;
            assert(ids@.contains(id));
            let j = choose|j: int| 0 <= j < ids@.len() && ids@[j] == id;
            assert(year_id()(conn@.years[0]) == ids@[j] as i32);
        }
        lemma_no_years_no_rows(conn@);
    }
    Ok(())
}

/// Makes the store ready for the course: empties it where that is asked
/// for, and gives a store without years the year of the calendar at this
/// moment. All of it happens or nothing.
pub fn init_year(truncate_database: bool, conn: &mut Database) -> (r: ApiResult<()>)
    requires
        old(conn).wf(),
    ensures
        final(conn).wf(),
        r is Ok <==> !truncate_database || without_years(old(conn)@, year_ids(old(conn)@.years))
            is Some,
        r is Ok ==> exists|year: i16| final(conn)@ == #[trigger] made_ready(
            old(conn)@,
            truncate_database,
            year,
        ),
        r is Err ==> r->Err_0 == ApiError::ConstraintViolation && final(conn)@ == old(conn)@,
{
    let mut work = conn.snapshot();
    let num_years = if truncate_database {
        match delete_years(&mut work) {
            Ok(()) => {},
            Err(e) => {
                return Err(e);
            },
        }
        0
    } else {
        work.years().len()
    };
    if num_years == 0 {
        let ghost mid = work@;
        match add_current_year(&mut work) {
            Ok(()) => {},
            Err(e) => {
                return Err(e);
            },
        }
        proof {
            let year = choose|year: i16|
                !has_key(mid.years, year_id(), year as i32) && work@ == #[trigger] with_year(mid, year);
            assert(work@ == made_ready(conn@, truncate_database, year));
        }
    } else {
        assert(work@ == made_ready(conn@, truncate_database, 0i16));
    }
    *conn = work;
    Ok(())
}

} // verus!
