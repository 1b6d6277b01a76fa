//! Statements that make a row with a new id, change a row in place, or put
//! a row where its key is free and change the row that has the key.
use vstd::prelude::*;
use vstd::string::StringExecFns;
use super::inet::Inet;
use super::models::{
    AuditLog, Completion, Day, Elaboration, Event, Experiment, Group, IpWhitelistEntry, NewAuditLog,
    NewDay, NewExperiment, NewGroup, NewStudent, NewTutor, Student, Task, Tutor, Year,
};
use super::schema::{
    audit_log_id, completion_group, completion_key, completion_task, day_id,
    elaboration_experiment, elaboration_group, elaboration_key, event_day, event_experiment,
    event_key, experiment_id, group_day, group_id, student_id, student_year, task_id, tutor_id,
    tutor_year, whitelist_id, year_id, Tables,
};
use super::store::{
    audit_log_id_of, completion_group_of, completion_task_of, day_id_of, elaboration_experiment_of,
    elaboration_group_of, event_day_of, event_experiment_of, experiment_id_of, group_id_of,
    student_id_of, task_id_of, tutor_id_of, whitelist_id_of, year_id_of, Database,
};
use crate::errors::{ApiError, ApiResult};
use crate::relation::{
    find_key, find_pair, has_key, largest_id, lemma_fresh_id, lemma_rewrite_agree, lemma_the_row,
    lookup, max_id, rewritten,
};

verus! {

/// The row is the audit entry with these contents.
pub open spec fn entry_is(
    row: AuditLog,
    id: i32,
    created_at: i64,
    year: i16,
    group: Option<i32>,
    author: Seq<char>,
    change: Seq<char>,
) -> bool {
    &&& row.id == id
    &&& row.created_at == created_at
    &&& row.year == year
    &&& row.affected_group == group
    &&& row.author@ == author
    &&& row.change@ == change
}

/// The year with another state of writing.
pub open spec fn with_writable(writable: bool) -> spec_fn(Year) -> Year {
    |y: Year| Year { id: y.id, writable }
}

/// The group with another comment.
pub open spec fn with_comment(comment: String) -> spec_fn(Group) -> Group {
    |g: Group| Group { id: g.id, desk: g.desk, day_id: g.day_id, comment }
}

/// The group at another desk.
pub open spec fn with_desk(desk: i32) -> spec_fn(Group) -> Group {
    |g: Group| Group { id: g.id, desk, day_id: g.day_id, comment: g.comment }
}

/// The student with another state of instruction.
pub open spec fn with_instructed(instructed: bool) -> spec_fn(Student) -> Student {
    |s: Student|
        Student {
            id: s.id,
            matrikel: s.matrikel,
            year: s.year,
            username: s.username,
            instructed,
            given_name: s.given_name,
            family_name: s.family_name,
        }
}

/// The tutor with or without the rights of an admin.
pub open spec fn with_admin(is_admin: bool) -> spec_fn(Tutor) -> Tutor {
    |t: Tutor| Tutor { id: t.id, username: t.username, year: t.year, is_admin }
}

/// The events after one is put: it takes the place of the event of its day
/// and experiment, or is added where there is none.
pub open spec fn events_with(events: Seq<Event>, event: Event) -> Seq<Event> {
    if has_key(events, event_key(), event_key()(event)) {
        rewritten(events, event_key(), event_key()(event), |e: Event| event)
    } else {
        events.push(event)
    }
}

/// The elaborations after one is put: it takes the place of the elaboration
/// of its group and experiment, or is added where there is none.
pub open spec fn elaborations_with(elaborations: Seq<Elaboration>, row: Elaboration) -> Seq<
    Elaboration,
> {
    if has_key(elaborations, elaboration_key(), elaboration_key()(row)) {
        rewritten(elaborations, elaboration_key(), elaboration_key()(row), |e: Elaboration| row)
    } else {
        elaborations.push(row)
    }
}

/// The completions after one is put: it is added unless it is there.
pub open spec fn completions_with(completions: Seq<Completion>, row: Completion) -> Seq<Completion> {
    if has_key(completions, completion_key(), completion_key()(row)) {
        completions
    } else {
        completions.push(row)
    }
}

impl Database {
    /// Makes a day with the next free id, which is one above the largest id
    /// in use. Refused where its year does not exist, and where no id is
    /// left.
    pub fn create_day(&mut self, new: NewDay) -> (r: ApiResult<i32>)
        requires
            old(self).wf(),
        ensures
            final(self).wf(),
            r is Ok <==> has_key(old(self)@.years, year_id(), new.year as i32) && max_id(old(self)@.days, day_id()) < i32::MAX,
            r matches Ok(id) ==> id == max_id(old(self)@.days, day_id()) + 1 && final(self)@ == (Tables {
                days: old(self)@.days.push((Day { id, name: new.name, year: new.year })),
                ..old(self)@
            }),
            r is Err ==> final(self)@ == old(self)@ && r->Err_0 == if has_key(old(self)@.years, year_id(), new.year as i32) {
                ApiError::Other
            } else {
                ApiError::ConstraintViolation
            },
    {
        if find_key(self.years(), &year_id_of, Ghost(year_id()), new.year as i32).is_none() {
            return Err(ApiError::ConstraintViolation);
        }
        let last = largest_id(self.days(), &day_id_of, Ghost(day_id()));
        if last == i32::MAX {
            return Err(ApiError::Other);
        }
        let id = last + 1;
        proof {
            lemma_fresh_id(self@.days, day_id(), id);
        }
        match self.insert_day(Day { id, name: new.name, year: new.year }) {
            Ok(()) => Ok(id),
            Err(e) => Err(e),
        }
    }

    /// Makes an experiment with the next free id, which is one above the
    /// largest id in use. Refused where its year does not exist, and where no
    /// id is left.
    pub fn create_experiment(&mut self, new: NewExperiment) -> (r: ApiResult<i32>)
        requires
            old(self).wf(),
        ensures
            final(self).wf(),
            r is Ok <==> has_key(old(self)@.years, year_id(), new.year as i32) && max_id(old(self)@.experiments, experiment_id()) < i32::MAX,
            r matches Ok(id) ==> id == max_id(old(self)@.experiments, experiment_id()) + 1 && final(self)@ == (Tables {
                experiments: old(self)@.experiments.push((Experiment { id, name: new.name, year: new.year })),
                ..old(self)@
            }),
            r is Err ==> final(self)@ == old(self)@ && r->Err_0 == if has_key(old(self)@.years, year_id(), new.year as i32) {
                ApiError::Other
            } else {
                ApiError::ConstraintViolation
            },
    {
        if find_key(self.years(), &year_id_of, Ghost(year_id()), new.year as i32).is_none() {
            return Err(ApiError::ConstraintViolation);
        }
        let last = largest_id(self.experiments(), &experiment_id_of, Ghost(experiment_id()));
        if last == i32::MAX {
            return Err(ApiError::Other);
        }
        let id = last + 1;
        proof {
            lemma_fresh_id(self@.experiments, experiment_id(), id);
        }
        match self.insert_experiment(Experiment { id, name: new.name, year: new.year }) {
            Ok(()) => Ok(id),
            Err(e) => Err(e),
        }
    }

    /// Makes a group with the next free id, which is one above the largest id
    /// in use. Refused where its day does not exist, and where no id is left.
    pub fn create_group(&mut self, new: NewGroup) -> (r: ApiResult<i32>)
        requires
            old(self).wf(),
        ensures
            final(self).wf(),
            r is Ok <==> has_key(old(self)@.days, day_id(), new.day_id) && max_id(old(self)@.groups, group_id()) < i32::MAX,
            r matches Ok(id) ==> id == max_id(old(self)@.groups, group_id()) + 1 && final(self)@ == (Tables {
                groups: old(self)@.groups.push((Group { id, desk: new.desk, day_id: new.day_id, comment: new.comment })),
                ..old(self)@
            }),
            r is Err ==> final(self)@ == old(self)@ && r->Err_0 == if has_key(old(self)@.days, day_id(), new.day_id) {
                ApiError::Other
            } else {
                ApiError::ConstraintViolation
            },
    {
        if find_key(self.days(), &day_id_of, Ghost(day_id()), new.day_id).is_none() {
            return Err(ApiError::ConstraintViolation);
        }
        let last = largest_id(self.groups(), &group_id_of, Ghost(group_id()));
        if last == i32::MAX {
            return Err(ApiError::Other);
        }
        let id = last + 1;
        proof {
            lemma_fresh_id(self@.groups, group_id(), id);
        }
        match self.insert_group(Group { id, desk: new.desk, day_id: new.day_id, comment: new.comment }) {
            Ok(()) => Ok(id),
            Err(e) => Err(e),
        }
    }

    /// Makes a student with the next free id, which is one above the largest
    /// id in use. Refused where its year does not exist, and where no id is
    /// left.
    pub fn create_student(&mut self, new: NewStudent) -> (r: ApiResult<i32>)
        requires
            old(self).wf(),
        ensures
            final(self).wf(),
            r is Ok <==> has_key(old(self)@.years, year_id(), new.year as i32) && max_id(old(self)@.students, student_id()) < i32::MAX,
            r matches Ok(id) ==> id == max_id(old(self)@.students, student_id()) + 1 && final(self)@ == (Tables {
                students: old(self)@.students.push((Student {
                    id,
                    matrikel: new.matrikel,
                    year: new.year,
                    username: new.username,
                    instructed: false,
                    given_name: new.given_name,
                    family_name: new.family_name,
                })),
                ..old(self)@
            }),
            r is Err ==> final(self)@ == old(self)@ && r->Err_0 == if has_key(old(self)@.years, year_id(), new.year as i32) {
                ApiError::Other
            } else {
                ApiError::ConstraintViolation
            },
    {
        if find_key(self.years(), &year_id_of, Ghost(year_id()), new.year as i32).is_none() {
            return Err(ApiError::ConstraintViolation);
        }
        let last = largest_id(self.students(), &student_id_of, Ghost(student_id()));
        if last == i32::MAX {
            return Err(ApiError::Other);
        }
        let id = last + 1;
        proof {
            lemma_fresh_id(self@.students, student_id(), id);
        }
        match self.insert_student(Student {
            id,
            matrikel: new.matrikel,
            year: new.year,
            username: new.username,
            instructed: false,
            given_name: new.given_name,
            family_name: new.family_name,
        }) {
            Ok(()) => Ok(id),
            Err(e) => Err(e),
        }
    }

    /// Makes a task with the next free id, which is one above the largest id
    /// in use. Refused where its experiment does not exist, and where no id
    /// is left.
    pub fn create_task(&mut self, experiment: i32, name: String) -> (r: ApiResult<i32>)
        requires
            old(self).wf(),
        ensures
            final(self).wf(),
            r is Ok <==> has_key(old(self)@.experiments, experiment_id(), experiment) && max_id(old(self)@.tasks, task_id()) < i32::MAX,
            r matches Ok(id) ==> id == max_id(old(self)@.tasks, task_id()) + 1 && final(self)@ == (Tables {
                tasks: old(self)@.tasks.push((Task { id, experiment_id: experiment, name })),
                ..old(self)@
            }),
            r is Err ==> final(self)@ == old(self)@ && r->Err_0 == if has_key(old(self)@.experiments, experiment_id(), experiment) {
                ApiError::Other
            } else {
                ApiError::ConstraintViolation
            },
    {
        if find_key(self.experiments(), &experiment_id_of, Ghost(experiment_id()), experiment).is_none() {
            return Err(ApiError::ConstraintViolation);
        }
        let last = largest_id(self.tasks(), &task_id_of, Ghost(task_id()));
        if last == i32::MAX {
            return Err(ApiError::Other);
        }
        let id = last + 1;
        proof {
            lemma_fresh_id(self@.tasks, task_id(), id);
        }
        match self.insert_task(Task { id, experiment_id: experiment, name }) {
            Ok(()) => Ok(id),
            Err(e) => Err(e),
        }
    }

    /// Makes a tutor with the next free id, which is one above the largest id
    /// in use. Refused where its year does not exist, and where no id is
    /// left.
    pub fn create_tutor(&mut self, new: NewTutor) -> (r: ApiResult<i32>)
        requires
            old(self).wf(),
        ensures
            final(self).wf(),
            r is Ok <==> has_key(old(self)@.years, year_id(), new.year as i32) && max_id(old(self)@.tutors, tutor_id()) < i32::MAX,
            r matches Ok(id) ==> id == max_id(old(self)@.tutors, tutor_id()) + 1 && final(self)@ == (Tables {
                tutors: old(self)@.tutors.push((Tutor { id, username: new.username, year: new.year, is_admin: new.is_admin })),
                ..old(self)@
            }),
            r is Err ==> final(self)@ == old(self)@ && r->Err_0 == if has_key(old(self)@.years, year_id(), new.year as i32) {
                ApiError::Other
            } else {
                ApiError::ConstraintViolation
            },
    {
        if find_key(self.years(), &year_id_of, Ghost(year_id()), new.year as i32).is_none() {
            return Err(ApiError::ConstraintViolation);
        }
        let last = largest_id(self.tutors(), &tutor_id_of, Ghost(tutor_id()));
        if last == i32::MAX {
            return Err(ApiError::Other);
        }
        let id = last + 1;
        proof {
            lemma_fresh_id(self@.tutors, tutor_id(), id);
        }
        match self.insert_tutor(Tutor { id, username: new.username, year: new.year, is_admin: new.is_admin }) {
            Ok(()) => Ok(id),
            Err(e) => Err(e),
        }
    }

    /// Makes a whitelist entry with the next free id, which is one above the
    /// largest id in use. Refused where its year does not exist, and where no
    /// id is left.
    pub fn create_whitelist_entry(&mut self, ipnet: Inet, year: i16) -> (r: ApiResult<i32>)
        requires
            old(self).wf(),
        ensures
            final(self).wf(),
            r is Ok <==> has_key(old(self)@.years, year_id(), year as i32) && max_id(old(self)@.ip_whitelist, whitelist_id()) < i32::MAX,
            r matches Ok(id) ==> id == max_id(old(self)@.ip_whitelist, whitelist_id()) + 1 && final(self)@ == (Tables {
                ip_whitelist: old(self)@.ip_whitelist.push((IpWhitelistEntry { id, ipnet, year })),
                ..old(self)@
            }),
            r is Err ==> final(self)@ == old(self)@ && r->Err_0 == if has_key(old(self)@.years, year_id(), year as i32) {
                ApiError::Other
            } else {
                ApiError::ConstraintViolation
            },
    {
        if find_key(self.years(), &year_id_of, Ghost(year_id()), year as i32).is_none() {
            return Err(ApiError::ConstraintViolation);
        }
        let last = largest_id(self.ip_whitelist(), &whitelist_id_of, Ghost(whitelist_id()));
        if last == i32::MAX {
            return Err(ApiError::Other);
        }
        let id = last + 1;
        proof {
            lemma_fresh_id(self@.ip_whitelist, whitelist_id(), id);
        }
        match self.insert_whitelist_entry(IpWhitelistEntry { id, ipnet, year }) {
            Ok(()) => Ok(id),
            Err(e) => Err(e),
        }
    }

    /// Records an audit entry with the next free id and the time of the
    /// store. Refused where its year does not exist, and where no id is left.
    pub fn create_audit_log(&mut self, new: NewAuditLog) -> (r: ApiResult<i32>)
        requires
            old(self).wf(),
        ensures
            final(self).wf(),
            r is Ok <==> has_key(old(self)@.years, year_id(), new.year as i32) && max_id(
                old(self)@.audit_logs,
                audit_log_id(),
            ) < i32::MAX,
            r matches Ok(id) ==> {
                &&& id == max_id(old(self)@.audit_logs, audit_log_id()) + 1
                &&& final(self)@.audit_logs.len() == old(self)@.audit_logs.len() + 1
                &&& final(self)@.audit_logs.drop_last() == old(self)@.audit_logs
                &&& entry_is(
                    final(self)@.audit_logs.last(),
                    id,
                    old(self)@.now,
                    new.year,
                    new.affected_group,
                    new.author@,
                    new.change@,
                )
                &&& final(self)@ == (Tables { audit_logs: final(self)@.audit_logs, ..old(self)@ })
            },
            r is Err ==> final(self)@ == old(self)@ && r->Err_0 == if has_key(
                old(self)@.years,
                year_id(),
                new.year as i32,
            ) {
                ApiError::Other
            } else {
                ApiError::ConstraintViolation
            },
    {
        if find_key(self.years(), &year_id_of, Ghost(year_id()), new.year as i32).is_none() {
            return Err(ApiError::ConstraintViolation);
        }
        let last = largest_id(self.audit_logs(), &audit_log_id_of, Ghost(audit_log_id()));
        if last == i32::MAX {
            return Err(ApiError::Other);
        }
        let id = last + 1;
        proof {
            lemma_fresh_id(self@.audit_logs, audit_log_id(), id);
        }
        let row = AuditLog {
            id,
            created_at: self.now(),
            year: new.year,
            author: String::from_str(new.author),
            affected_group: new.affected_group,
            change: String::from_str(new.change),
        };
        let ghost before = self@.audit_logs;
        match self.insert_audit_log(row) {
            Ok(()) => {
                assert(before.push(row).drop_last() =~= before);
                Ok(id)
            },
            Err(e) => Err(e),
        }
    }

    /// Opens a year to writes or closes it. Refused where there is no such
    /// year.
    pub fn set_year_writable(&mut self, year: i16, writable: bool) -> (r: ApiResult<()>)
        requires
            old(self).wf(),
        ensures
            final(self).wf(),
            r is Ok <==> has_key(old(self)@.years, year_id(), year as i32),
            r is Ok ==> final(self)@ == (Tables {
                years: rewritten(old(self)@.years, year_id(), year as i32, with_writable(writable)),
                ..old(self)@
            }),
            r is Err ==> final(self)@ == old(self)@ && r->Err_0 == ApiError::NotFound,
    {
        let row = Year { id: year, writable };
        proof {
            lemma_rewrite_agree(
                self@.years,
                year_id(),
                year as i32,
                |r: Year| row,
                with_writable(writable),
            );
        }
        self.replace_year(row)
    }

    /// Gives a group another comment. Refused where there is no such group.
    pub fn set_group_comment(&mut self, group: i32, comment: String) -> (r: ApiResult<()>)
        requires
            old(self).wf(),
        ensures
            final(self).wf(),
            r is Ok <==> has_key(old(self)@.groups, group_id(), group),
            r is Ok ==> final(self)@ == (Tables {
                groups: rewritten(old(self)@.groups, group_id(), group, with_comment(comment)),
                ..old(self)@
            }),
            r is Err ==> final(self)@ == old(self)@ && r->Err_0 == ApiError::NotFound,
    {
        let row = match lookup(self.groups(), &group_id_of, Ghost(group_id()), group) {
            Some(old_row) => Group { id: old_row.id, desk: old_row.desk, day_id: old_row.day_id, comment },
            None => {
                return Err(ApiError::NotFound);
            },
        };
        proof {
            let t = self@;
            assert forall|i: int|
                0 <= i < t.groups.len() && group_id()(#[trigger] t.groups[i]) == group implies (|
                r: Group,
            | row)(t.groups[i]) == with_comment(comment)(t.groups[i]) by {
                lemma_the_row(t.groups, group_id(), i);
            }
            lemma_rewrite_agree(t.groups, group_id(), group, |r: Group| row, with_comment(comment));
            let i = choose|i: int| 0 <= i < t.groups.len() && group_id()(#[trigger] t.groups[i]) == group;
            lemma_the_row(t.groups, group_id(), i);
            assert(has_key(t.days, day_id(), group_day()(t.groups[i])));
        }
        self.replace_group(row)
    }

    /// Moves a group to another desk. Refused where there is no such group.
    pub fn set_group_desk(&mut self, group: i32, desk: i32) -> (r: ApiResult<()>)
        requires
            old(self).wf(),
        ensures
            final(self).wf(),
            r is Ok <==> has_key(old(self)@.groups, group_id(), group),
            r is Ok ==> final(self)@ == (Tables {
                groups: rewritten(old(self)@.groups, group_id(), group, with_desk(desk)),
                ..old(self)@
            }),
            r is Err ==> final(self)@ == old(self)@ && r->Err_0 == ApiError::NotFound,
    {
        let row = match lookup(self.groups(), &group_id_of, Ghost(group_id()), group) {
            Some(old_row) => Group {
                id: old_row.id,
                desk,
                day_id: old_row.day_id,
                comment: old_row.comment.clone(),
            },
            None => {
                return Err(ApiError::NotFound);
            },
        };
        proof {
            let t = self@;
            assert forall|i: int|
                0 <= i < t.groups.len() && group_id()(#[trigger] t.groups[i]) == group implies (|
                r: Group,
            | row)(t.groups[i]) == with_desk(desk)(t.groups[i]) by {
                lemma_the_row(t.groups, group_id(), i);
            }
            lemma_rewrite_agree(t.groups, group_id(), group, |r: Group| row, with_desk(desk));
            let i = choose|i: int| 0 <= i < t.groups.len() && group_id()(#[trigger] t.groups[i]) == group;
            lemma_the_row(t.groups, group_id(), i);
            assert(has_key(t.days, day_id(), group_day()(t.groups[i])));
        }
        self.replace_group(row)
    }

    /// Notes whether a student was instructed. Refused where there is no
    /// such student.
    pub fn set_student_instructed(&mut self, student: i32, instructed: bool) -> (r: ApiResult<()>)
        requires
            old(self).wf(),
        ensures
            final(self).wf(),
            r is Ok <==> has_key(old(self)@.students, student_id(), student),
            r is Ok ==> final(self)@ == (Tables {
                students: rewritten(
                    old(self)@.students,
                    student_id(),
                    student,
                    with_instructed(instructed),
                ),
                ..old(self)@
            }),
            r is Err ==> final(self)@ == old(self)@ && r->Err_0 == ApiError::NotFound,
    {
        let row = match lookup(self.students(), &student_id_of, Ghost(student_id()), student) {
            Some(old_row) => {
                let mut row = old_row.clone();
                row.instructed = instructed;
                row
            },
            None => {
                return Err(ApiError::NotFound);
            },
        };
        proof {
            let t = self@;
            assert forall|i: int|
                0 <= i < t.students.len() && student_id()(#[trigger] t.students[i]) == student implies (|
                r: Student,
            | row)(t.students[i]) == with_instructed(instructed)(t.students[i]) by {
                lemma_the_row(t.students, student_id(), i);
            }
            lemma_rewrite_agree(
                t.students,
                student_id(),
                student,
                |r: Student| row,
                with_instructed(instructed),
            );
            let i = choose|i: int|
                0 <= i < t.students.len() && student_id()(#[trigger] t.students[i]) == student;
            lemma_the_row(t.students, student_id(), i);
            assert(has_key(t.years, year_id(), student_year()(t.students[i])));
        }
        self.replace_student(row)
    }

    /// Gives a tutor the rights of an admin or takes them. Refused where
    /// there is no such tutor.
    pub fn set_tutor_admin(&mut self, tutor: i32, is_admin: bool) -> (r: ApiResult<()>)
        requires
            old(self).wf(),
        ensures
            final(self).wf(),
            r is Ok <==> has_key(old(self)@.tutors, tutor_id(), tutor),
            r is Ok ==> final(self)@ == (Tables {
                tutors: rewritten(old(self)@.tutors, tutor_id(), tutor, with_admin(is_admin)),
                ..old(self)@
            }),
            r is Err ==> final(self)@ == old(self)@ && r->Err_0 == ApiError::NotFound,
    {
        let row = match lookup(self.tutors(), &tutor_id_of, Ghost(tutor_id()), tutor) {
            Some(old_row) => Tutor {
                id: old_row.id,
                username: old_row.username.clone(),
                year: old_row.year,
                is_admin,
            },
            None => {
                return Err(ApiError::NotFound);
            },
        };
        proof {
            let t = self@;
            assert forall|i: int|
                0 <= i < t.tutors.len() && tutor_id()(#[trigger] t.tutors[i]) == tutor implies (|
                r: Tutor,
            | row)(t.tutors[i]) == with_admin(is_admin)(t.tutors[i]) by {
                lemma_the_row(t.tutors, tutor_id(), i);
            }
            lemma_rewrite_agree(t.tutors, tutor_id(), tutor, |r: Tutor| row, with_admin(is_admin));
            let i = choose|i: int| 0 <= i < t.tutors.len() && tutor_id()(#[trigger] t.tutors[i]) == tutor;
            lemma_the_row(t.tutors, tutor_id(), i);
            assert(has_key(t.years, year_id(), tutor_year()(t.tutors[i])));
        }
        self.replace_tutor(row)
    }

    /// Puts an event: it takes the place of the event of its day and
    /// experiment, or is added where there is none. Refused where the day or
    /// the experiment does not exist.
    pub fn put_event(&mut self, event: Event) -> (r: ApiResult<()>)
        requires
            old(self).wf(),
        ensures
            final(self).wf(),
            r is Ok <==> has_key(old(self)@.days, day_id(), event.day_id) && has_key(
                old(self)@.experiments,
                experiment_id(),
                event.experiment_id,
            ),
            r is Ok ==> final(self)@ == (Tables {
                events: events_with(old(self)@.events, event),
                ..old(self)@
            }),
            r is Err ==> final(self)@ == old(self)@ && r->Err_0 == ApiError::ConstraintViolation,
    {
        let found = find_pair(
            self.events(),
            &event_day_of,
            Ghost(event_day()),
            &event_experiment_of,
            Ghost(event_experiment()),
            Ghost(event_key()),
            (event.day_id, event.experiment_id),
        );
        if found.is_some() {
            proof {
                let t = self@;
                let i = found->Some_0 as int;
                assert(has_key(t.days, day_id(), event_day()(t.events[i])));
                assert(has_key(t.experiments, experiment_id(), event_experiment()(t.events[i])));
            }
            self.replace_event(event)
        } else {
            self.insert_event(event)
        }
    }

    /// Puts an elaboration: it takes the place of the elaboration of its
    /// group and experiment, or is added where there is none. Refused where
    /// the group or the experiment does not exist.
    pub fn put_elaboration(&mut self, row: Elaboration) -> (r: ApiResult<()>)
        requires
            old(self).wf(),
        ensures
            final(self).wf(),
            r is Ok <==> has_key(old(self)@.groups, group_id(), row.group_id) && has_key(
                old(self)@.experiments,
                experiment_id(),
                row.experiment_id,
            ),
            r is Ok ==> final(self)@ == (Tables {
                elaborations: elaborations_with(old(self)@.elaborations, row),
                ..old(self)@
            }),
            r is Err ==> final(self)@ == old(self)@ && r->Err_0 == ApiError::ConstraintViolation,
    {
        let found = find_pair(
            self.elaborations(),
            &elaboration_group_of,
            Ghost(elaboration_group()),
            &elaboration_experiment_of,
            Ghost(elaboration_experiment()),
            Ghost(elaboration_key()),
            (row.group_id, row.experiment_id),
        );
        if found.is_some() {
            proof {
                let t = self@;
                let i = found->Some_0 as int;
                assert(has_key(t.groups, group_id(), elaboration_group()(t.elaborations[i])));
                assert(has_key(
                    t.experiments,
                    experiment_id(),
                    elaboration_experiment()(t.elaborations[i]),
                ));
            }
            self.replace_elaboration(row)
        } else {
            self.insert_elaboration(row)
        }
    }

    /// Puts a completion: it is added unless it is there. Refused where the
    /// group or the task does not exist.
    pub fn put_completion(&mut self, row: Completion) -> (r: ApiResult<()>)
        requires
            old(self).wf(),
        ensures
            final(self).wf(),
            r is Ok <==> has_key(old(self)@.groups, group_id(), row.group_id) && has_key(
                old(self)@.tasks,
                task_id(),
                row.task_id,
            ),
            r is Ok ==> final(self)@ == (Tables {
                completions: completions_with(old(self)@.completions, row),
                ..old(self)@
            }),
            r is Err ==> final(self)@ == old(self)@ && r->Err_0 == ApiError::ConstraintViolation,
    {
        let found = find_pair(
            self.completions(),
            &completion_group_of,
            Ghost(completion_group()),
            &completion_task_of,
            Ghost(completion_task()),
            Ghost(completion_key()),
            (row.group_id, row.task_id),
        );
        if found.is_some() {
            proof {
                let t = self@;
                let i = found->Some_0 as int;
                assert(has_key(t.groups, group_id(), completion_group()(t.completions[i])));
                assert(has_key(t.tasks, task_id(), completion_task()(t.completions[i])));
            }
            Ok(())
        } else {
            self.insert_completion(row)
        }
    }
}

} // verus!
