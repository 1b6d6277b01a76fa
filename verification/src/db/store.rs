//! The store: the tables held in memory, and the statements that change
//! them. Each statement keeps the rules of the schema or changes nothing.
use vstd::prelude::*;
use super::models::{
    AuditLog, Completion, Day, Elaboration, Event, Experiment, Group, GroupMapping,
    IpWhitelistEntry, Student, Task, Tutor, Year,
};
use super::schema::{
    audit_log_id, audit_log_year, completion_group, completion_key, completion_task, consistent,
    day_id, day_year, elaboration_experiment, elaboration_group, elaboration_key, empty_tables,
    event_day, event_experiment, event_key, experiment_id, experiment_year, group_day, group_id,
    mapping_group, mapping_key, mapping_student, student_id, student_year, task_experiment,
    task_id, tutor_id, tutor_year, whitelist_id, whitelist_year, year_id, Tables,
};
use crate::errors::{ApiError, ApiResult};
use crate::relation::{
    decides, delete_rows, find_key, find_pair, has_key, lemma_filter_distinct, lemma_push_distinct,
    lemma_refers_rewritten, lemma_refers_row_added, lemma_refers_rows_filtered,
    lemma_refers_target_filtered, lemma_refers_target_grows, lemma_rewritten_distinct,
    lemma_rewritten_refers, lemma_update_is_rewrite, negate, referenced, rewritten, some_reference,
};

verus! {

/// The tables of the course. The fields are private: a store is made empty
/// and changed by statements only, so the rules of the schema always hold.
pub struct Database {
    pub(super) years: Vec<Year>,
    pub(super) days: Vec<Day>,
    pub(super) experiments: Vec<Experiment>,
    pub(super) events: Vec<Event>,
    pub(super) groups: Vec<Group>,
    pub(super) students: Vec<Student>,
    pub(super) group_mappings: Vec<GroupMapping>,
    pub(super) tasks: Vec<Task>,
    pub(super) completions: Vec<Completion>,
    pub(super) elaborations: Vec<Elaboration>,
    pub(super) audit_logs: Vec<AuditLog>,
    pub(super) tutors: Vec<Tutor>,
    pub(super) ip_whitelist: Vec<IpWhitelistEntry>,
    pub(super) now: i64,
}

impl View for Database {
    type V = Tables;

    closed spec fn view(&self) -> Tables {
        Tables {
            years: self.years@,
            days: self.days@,
            experiments: self.experiments@,
            events: self.events@,
            groups: self.groups@,
            students: self.students@,
            group_mappings: self.group_mappings@,
            tasks: self.tasks@,
            completions: self.completions@,
            elaborations: self.elaborations@,
            audit_logs: self.audit_logs@,
            tutors: self.tutors@,
            ip_whitelist: self.ip_whitelist@,
            now: self.now,
        }
    }
}

pub fn year_id_of(r: &Year) -> (k: i32)
    ensures
        k == year_id()(*r),
{
    r.id as i32
}

pub fn day_id_of(r: &Day) -> (k: i32)
    ensures
        k == day_id()(*r),
{
    r.id
}

pub fn day_year_of(r: &Day) -> (k: i32)
    ensures
        k == day_year()(*r),
{
    r.year as i32
}

pub fn experiment_id_of(r: &Experiment) -> (k: i32)
    ensures
        k == experiment_id()(*r),
{
    r.id
}

pub fn experiment_year_of(r: &Experiment) -> (k: i32)
    ensures
        k == experiment_year()(*r),
{
    r.year as i32
}

pub fn event_day_of(r: &Event) -> (k: i32)
    ensures
        k == event_day()(*r),
{
    r.day_id
}

pub fn event_experiment_of(r: &Event) -> (k: i32)
    ensures
        k == event_experiment()(*r),
{
    r.experiment_id
}

pub fn group_id_of(r: &Group) -> (k: i32)
    ensures
        k == group_id()(*r),
{
    r.id
}

pub fn group_day_of(r: &Group) -> (k: i32)
    ensures
        k == group_day()(*r),
{
    r.day_id
}

pub fn student_id_of(r: &Student) -> (k: i32)
    ensures
        k == student_id()(*r),
{
    r.id
}

pub fn student_year_of(r: &Student) -> (k: i32)
    ensures
        k == student_year()(*r),
{
    r.year as i32
}

pub fn mapping_student_of(r: &GroupMapping) -> (k: i32)
    ensures
        k == mapping_student()(*r),
{
    r.student_id
}

pub fn mapping_group_of(r: &GroupMapping) -> (k: i32)
    ensures
        k == mapping_group()(*r),
{
    r.group_id
}

pub fn task_id_of(r: &Task) -> (k: i32)
    ensures
        k == task_id()(*r),
{
    r.id
}

pub fn task_experiment_of(r: &Task) -> (k: i32)
    ensures
        k == task_experiment()(*r),
{
    r.experiment_id
}

pub fn completion_group_of(r: &Completion) -> (k: i32)
    ensures
        k == completion_group()(*r),
{
    r.group_id
}

pub fn completion_task_of(r: &Completion) -> (k: i32)
    ensures
        k == completion_task()(*r),
{
    r.task_id
}

pub fn elaboration_group_of(r: &Elaboration) -> (k: i32)
    ensures
        k == elaboration_group()(*r),
{
    r.group_id
}

pub fn elaboration_experiment_of(r: &Elaboration) -> (k: i32)
    ensures
        k == elaboration_experiment()(*r),
{
    r.experiment_id
}

pub fn audit_log_id_of(r: &AuditLog) -> (k: i32)
    ensures
        k == audit_log_id()(*r),
{
    r.id
}

pub fn audit_log_year_of(r: &AuditLog) -> (k: i32)
    ensures
        k == audit_log_year()(*r),
{
    r.year as i32
}

pub fn tutor_id_of(r: &Tutor) -> (k: i32)
    ensures
        k == tutor_id()(*r),
{
    r.id
}

pub fn tutor_year_of(r: &Tutor) -> (k: i32)
    ensures
        k == tutor_year()(*r),
{
    r.year as i32
}

pub fn whitelist_id_of(r: &IpWhitelistEntry) -> (k: i32)
    ensures
        k == whitelist_id()(*r),
{
    r.id
}

pub fn whitelist_year_of(r: &IpWhitelistEntry) -> (k: i32)
    ensures
        k == whitelist_year()(*r),
{
    r.year as i32
}

impl Database {
    /// The rules of the schema hold.
    pub open spec fn wf(&self) -> bool {
        consistent(self@)
    }

    /// A store without rows, at time zero.
    pub fn new() -> (db: Database)
        ensures
            db@ == empty_tables(0),
            db.wf(),
    {
        Database {
            years: Vec::new(),
            days: Vec::new(),
            experiments: Vec::new(),
            events: Vec::new(),
            groups: Vec::new(),
            students: Vec::new(),
            group_mappings: Vec::new(),
            tasks: Vec::new(),
            completions: Vec::new(),
            elaborations: Vec::new(),
            audit_logs: Vec::new(),
            tutors: Vec::new(),
            ip_whitelist: Vec::new(),
            now: 0,
        }
    }

    /// A copy of the store, to work on while the store itself stays as it is.
    pub fn snapshot(&self) -> (db: Database)
        ensures
            db@ == self@,
    {
        let db = Database {
            years: self.years.clone(),
            days: self.days.clone(),
            experiments: self.experiments.clone(),
            events: self.events.clone(),
            groups: self.groups.clone(),
            students: self.students.clone(),
            group_mappings: self.group_mappings.clone(),
            tasks: self.tasks.clone(),
            completions: self.completions.clone(),
            elaborations: self.elaborations.clone(),
            audit_logs: self.audit_logs.clone(),
            tutors: self.tutors.clone(),
            ip_whitelist: self.ip_whitelist.clone(),
            now: self.now,
        };
        assert(db.years@ =~= self.years@);
        assert(db.days@ =~= self.days@);
        assert(db.experiments@ =~= self.experiments@);
        assert(db.events@ =~= self.events@);
        assert(db.groups@ =~= self.groups@);
        assert(db.students@ =~= self.students@);
        assert(db.group_mappings@ =~= self.group_mappings@);
        assert(db.tasks@ =~= self.tasks@);
        assert(db.completions@ =~= self.completions@);
        assert(db.elaborations@ =~= self.elaborations@);
        assert(db.audit_logs@ =~= self.audit_logs@);
        assert(db.tutors@ =~= self.tutors@);
        assert(db.ip_whitelist@ =~= self.ip_whitelist@);
        db
    }

    /// The time that the store stamps on what it records.
    pub fn now(&self) -> (r: i64)
        ensures
            r == self@.now,
    {
        self.now
    }

    /// Sets the time that the store stamps on what it records.
    pub fn set_now(&mut self, now: i64)
        ensures
            final(self)@ == (Tables { now, ..old(self)@ }),
    {
        self.now = now;
    }

    pub fn years(&self) -> (r: &Vec<Year>)
        ensures
            r@ == self@.years,
    {
        &self.years
    }

    pub fn days(&self) -> (r: &Vec<Day>)
        ensures
            r@ == self@.days,
    {
        &self.days
    }

    pub fn experiments(&self) -> (r: &Vec<Experiment>)
        ensures
            r@ == self@.experiments,
    {
        &self.experiments
    }

    pub fn events(&self) -> (r: &Vec<Event>)
        ensures
            r@ == self@.events,
    {
        &self.events
    }

    pub fn groups(&self) -> (r: &Vec<Group>)
        ensures
            r@ == self@.groups,
    {
        &self.groups
    }

    pub fn students(&self) -> (r: &Vec<Student>)
        ensures
            r@ == self@.students,
    {
        &self.students
    }

    pub fn group_mappings(&self) -> (r: &Vec<GroupMapping>)
        ensures
            r@ == self@.group_mappings,
    {
        &self.group_mappings
    }

    pub fn tasks(&self) -> (r: &Vec<Task>)
        ensures
            r@ == self@.tasks,
    {
        &self.tasks
    }

    pub fn completions(&self) -> (r: &Vec<Completion>)
        ensures
            r@ == self@.completions,
    {
        &self.completions
    }

    pub fn elaborations(&self) -> (r: &Vec<Elaboration>)
        ensures
            r@ == self@.elaborations,
    {
        &self.elaborations
    }

    pub fn audit_logs(&self) -> (r: &Vec<AuditLog>)
        ensures
            r@ == self@.audit_logs,
    {
        &self.audit_logs
    }

    pub fn tutors(&self) -> (r: &Vec<Tutor>)
        ensures
            r@ == self@.tutors,
    {
        &self.tutors
    }

    pub fn ip_whitelist(&self) -> (r: &Vec<IpWhitelistEntry>)
        ensures
            r@ == self@.ip_whitelist,
    {
        &self.ip_whitelist
    }

    /// Adds a year. Refused where a year with that key exists.
    pub fn insert_year(&mut self, row: Year) -> (r: ApiResult<()>)
        requires
            old(self).wf(),
        ensures
            final(self).wf(),
            r is Ok <==> !has_key(old(self)@.years, year_id(), year_id()(row)),
            r is Ok ==> final(self)@ == (Tables { years: old(self)@.years.push(row), ..old(self)@ }),
            r is Err ==> r == Err::<(), ApiError>(ApiError::ConstraintViolation) && final(self)@
                == old(self)@,
    {
        if find_key(&self.years, &year_id_of, Ghost(year_id()), row.id as i32).is_some() {
            return Err(ApiError::ConstraintViolation);
        }
        proof {
            let t = self@;
            lemma_push_distinct(t.years, row, year_id());
            lemma_refers_target_grows(t.days, day_year(), t.years, year_id(), row);
            lemma_refers_target_grows(t.experiments, experiment_year(), t.years, year_id(), row);
            lemma_refers_target_grows(t.students, student_year(), t.years, year_id(), row);
            lemma_refers_target_grows(t.audit_logs, audit_log_year(), t.years, year_id(), row);
            lemma_refers_target_grows(t.tutors, tutor_year(), t.years, year_id(), row);
            lemma_refers_target_grows(t.ip_whitelist, whitelist_year(), t.years, year_id(), row);
        }
        self.years.push(row);
        Ok(())
    }

    /// Removes the years that satisfy `f`, and says how many they were.
    /// Refused where one of the days, experiments, students, audit entries,
    /// tutors or whitelist entries names one of them.
    pub fn remove_years<F: Fn(&Year) -> bool>(
        &mut self,
        f: &F,
        Ghost(p): Ghost<spec_fn(Year) -> bool>,
    ) -> (r: ApiResult<usize>)
        requires
            old(self).wf(),
            decides(*f, p),
        ensures
            final(self).wf(),
            r is Ok <==> !referenced(old(self)@.days, day_year(), old(self)@.years, year_id(), p)
                && !referenced(old(self)@.experiments, experiment_year(), old(self)@.years, year_id(), p)
                && !referenced(old(self)@.students, student_year(), old(self)@.years, year_id(), p)
                && !referenced(old(self)@.audit_logs, audit_log_year(), old(self)@.years, year_id(), p)
                && !referenced(old(self)@.tutors, tutor_year(), old(self)@.years, year_id(), p)
                && !referenced(old(self)@.ip_whitelist, whitelist_year(), old(self)@.years, year_id(), p),
            r is Ok ==> final(self)@ == (Tables {
                years: old(self)@.years.filter(negate(p)),
                ..old(self)@
            }) && r->Ok_0 == old(self)@.years.len() - final(self)@.years.len(),
            r is Err ==> r == Err::<usize, ApiError>(ApiError::ConstraintViolation) && final(self)@
                == old(self)@,
    {
        if some_reference(
            &self.days,
            &day_year_of,
            Ghost(day_year()),
            &self.years,
            &year_id_of,
            Ghost(year_id()),
            f,
            Ghost(p),
        ) {
            return Err(ApiError::ConstraintViolation);
        }
        if some_reference(
            &self.experiments,
            &experiment_year_of,
            Ghost(experiment_year()),
            &self.years,
            &year_id_of,
            Ghost(year_id()),
            f,
            Ghost(p),
        ) {
            return Err(ApiError::ConstraintViolation);
        }
        if some_reference(
            &self.students,
            &student_year_of,
            Ghost(student_year()),
            &self.years,
            &year_id_of,
            Ghost(year_id()),
            f,
            Ghost(p),
        ) {
            return Err(ApiError::ConstraintViolation);
        }
        if some_reference(
            &self.audit_logs,
            &audit_log_year_of,
            Ghost(audit_log_year()),
            &self.years,
            &year_id_of,
            Ghost(year_id()),
            f,
            Ghost(p),
        ) {
            return Err(ApiError::ConstraintViolation);
        }
        if some_reference(
            &self.tutors,
            &tutor_year_of,
            Ghost(tutor_year()),
            &self.years,
            &year_id_of,
            Ghost(year_id()),
            f,
            Ghost(p),
        ) {
            return Err(ApiError::ConstraintViolation);
        }
        if some_reference(
            &self.ip_whitelist,
            &whitelist_year_of,
            Ghost(whitelist_year()),
            &self.years,
            &year_id_of,
            Ghost(year_id()),
            f,
            Ghost(p),
        ) {
            return Err(ApiError::ConstraintViolation);
        }
        proof {
            let t = self@;
            lemma_filter_distinct(t.years, negate(p), year_id());
            lemma_refers_target_filtered(t.days, day_year(), t.years, year_id(), p);
            lemma_refers_target_filtered(t.experiments, experiment_year(), t.years, year_id(), p);
            lemma_refers_target_filtered(t.students, student_year(), t.years, year_id(), p);
            lemma_refers_target_filtered(t.audit_logs, audit_log_year(), t.years, year_id(), p);
            lemma_refers_target_filtered(t.tutors, tutor_year(), t.years, year_id(), p);
            lemma_refers_target_filtered(t.ip_whitelist, whitelist_year(), t.years, year_id(), p);
        }
        let n = delete_rows(&mut self.years, f, Ghost(p));
        Ok(n)
    }

    /// Adds a day. Refused where a day with that key exists or its year does
    /// not.
    pub fn insert_day(&mut self, row: Day) -> (r: ApiResult<()>)
        requires
            old(self).wf(),
        ensures
            final(self).wf(),
            r is Ok <==> !has_key(old(self)@.days, day_id(), day_id()(row))
                && has_key(old(self)@.years, year_id(), day_year()(row)),
            r is Ok ==> final(self)@ == (Tables { days: old(self)@.days.push(row), ..old(self)@ }),
            r is Err ==> r == Err::<(), ApiError>(ApiError::ConstraintViolation) && final(self)@
                == old(self)@,
    {
        if find_key(&self.days, &day_id_of, Ghost(day_id()), row.id).is_some() {
            return Err(ApiError::ConstraintViolation);
        }
        if find_key(&self.years, &year_id_of, Ghost(year_id()), row.year as i32).is_none() {
            return Err(ApiError::ConstraintViolation);
        }
        proof {
            let t = self@;
            lemma_push_distinct(t.days, row, day_id());
            lemma_refers_row_added(t.days, day_year(), t.years, year_id(), row);
            lemma_refers_target_grows(t.events, event_day(), t.days, day_id(), row);
            lemma_refers_target_grows(t.groups, group_day(), t.days, day_id(), row);
        }
        self.days.push(row);
        Ok(())
    }

    /// Removes the days that satisfy `f`, and says how many they were.
    /// Refused where one of the events or groups names one of them.
    pub fn remove_days<F: Fn(&Day) -> bool>(
        &mut self,
        f: &F,
        Ghost(p): Ghost<spec_fn(Day) -> bool>,
    ) -> (r: ApiResult<usize>)
        requires
            old(self).wf(),
            decides(*f, p),
        ensures
            final(self).wf(),
            r is Ok <==> !referenced(old(self)@.events, event_day(), old(self)@.days, day_id(), p)
                && !referenced(old(self)@.groups, group_day(), old(self)@.days, day_id(), p),
            r is Ok ==> final(self)@ == (Tables {
                days: old(self)@.days.filter(negate(p)),
                ..old(self)@
            }) && r->Ok_0 == old(self)@.days.len() - final(self)@.days.len(),
            r is Err ==> r == Err::<usize, ApiError>(ApiError::ConstraintViolation) && final(self)@
                == old(self)@,
    {
        if some_reference(
            &self.events,
            &event_day_of,
            Ghost(event_day()),
            &self.days,
            &day_id_of,
            Ghost(day_id()),
            f,
            Ghost(p),
        ) {
            return Err(ApiError::ConstraintViolation);
        }
        if some_reference(
            &self.groups,
            &group_day_of,
            Ghost(group_day()),
            &self.days,
            &day_id_of,
            Ghost(day_id()),
            f,
            Ghost(p),
        ) {
            return Err(ApiError::ConstraintViolation);
        }
        proof {
            let t = self@;
            lemma_filter_distinct(t.days, negate(p), day_id());
            lemma_refers_rows_filtered(t.days, day_year(), t.years, year_id(), negate(p));
            lemma_refers_target_filtered(t.events, event_day(), t.days, day_id(), p);
            lemma_refers_target_filtered(t.groups, group_day(), t.days, day_id(), p);
        }
        let n = delete_rows(&mut self.days, f, Ghost(p));
        Ok(n)
    }

    /// Adds an experiment. Refused where an experiment with that key exists
    /// or its year does not.
    pub fn insert_experiment(&mut self, row: Experiment) -> (r: ApiResult<()>)
        requires
            old(self).wf(),
        ensures
            final(self).wf(),
            r is Ok <==> !has_key(old(self)@.experiments, experiment_id(), experiment_id()(row))
                && has_key(old(self)@.years, year_id(), experiment_year()(row)),
            r is Ok ==> final(self)@ == (Tables { experiments: old(self)@.experiments.push(row), ..old(self)@ }),
            r is Err ==> r == Err::<(), ApiError>(ApiError::ConstraintViolation) && final(self)@
                == old(self)@,
    {
        if find_key(&self.experiments, &experiment_id_of, Ghost(experiment_id()), row.id).is_some() {
            return Err(ApiError::ConstraintViolation);
        }
        if find_key(&self.years, &year_id_of, Ghost(year_id()), row.year as i32).is_none() {
            return Err(ApiError::ConstraintViolation);
        }
        proof {
            let t = self@;
            lemma_push_distinct(t.experiments, row, experiment_id());
            lemma_refers_row_added(t.experiments, experiment_year(), t.years, year_id(), row);
            lemma_refers_target_grows(t.events, event_experiment(), t.experiments, experiment_id(), row);
            lemma_refers_target_grows(t.tasks, task_experiment(), t.experiments, experiment_id(), row);
            lemma_refers_target_grows(t.elaborations, elaboration_experiment(), t.experiments, experiment_id(), row);
        }
        self.experiments.push(row);
        Ok(())
    }

    /// Removes the experiments that satisfy `f`, and says how many they were.
    /// Refused where one of the events, tasks or elaborations names one of
    /// them.
    pub fn remove_experiments<F: Fn(&Experiment) -> bool>(
        &mut self,
        f: &F,
        Ghost(p): Ghost<spec_fn(Experiment) -> bool>,
    ) -> (r: ApiResult<usize>)
        requires
            old(self).wf(),
            decides(*f, p),
        ensures
            final(self).wf(),
            r is Ok <==> !referenced(old(self)@.events, event_experiment(), old(self)@.experiments, experiment_id(), p)
                && !referenced(old(self)@.tasks, task_experiment(), old(self)@.experiments, experiment_id(), p)
                && !referenced(old(self)@.elaborations, elaboration_experiment(), old(self)@.experiments, experiment_id(), p),
            r is Ok ==> final(self)@ == (Tables {
                experiments: old(self)@.experiments.filter(negate(p)),
                ..old(self)@
            }) && r->Ok_0 == old(self)@.experiments.len() - final(self)@.experiments.len(),
            r is Err ==> r == Err::<usize, ApiError>(ApiError::ConstraintViolation) && final(self)@
                == old(self)@,
    {
        if some_reference(
            &self.events,
            &event_experiment_of,
            Ghost(event_experiment()),
            &self.experiments,
            &experiment_id_of,
            Ghost(experiment_id()),
            f,
            Ghost(p),
        ) {
            return Err(ApiError::ConstraintViolation);
        }
        if some_reference(
            &self.tasks,
            &task_experiment_of,
            Ghost(task_experiment()),
            &self.experiments,
            &experiment_id_of,
            Ghost(experiment_id()),
            f,
            Ghost(p),
        ) {
            return Err(ApiError::ConstraintViolation);
        }
        if some_reference(
            &self.elaborations,
            &elaboration_experiment_of,
            Ghost(elaboration_experiment()),
            &self.experiments,
            &experiment_id_of,
            Ghost(experiment_id()),
            f,
            Ghost(p),
        ) {
            return Err(ApiError::ConstraintViolation);
        }
        proof {
            let t = self@;
            lemma_filter_distinct(t.experiments, negate(p), experiment_id());
            lemma_refers_rows_filtered(t.experiments, experiment_year(), t.years, year_id(), negate(p));
            lemma_refers_target_filtered(t.events, event_experiment(), t.experiments, experiment_id(), p);
            lemma_refers_target_filtered(t.tasks, task_experiment(), t.experiments, experiment_id(), p);
            lemma_refers_target_filtered(t.elaborations, elaboration_experiment(), t.experiments, experiment_id(), p);
        }
        let n = delete_rows(&mut self.experiments, f, Ghost(p));
        Ok(n)
    }

    /// Adds an event. Refused where an event with that key exists, its day
    /// does not or its experiment does not.
    pub fn insert_event(&mut self, row: Event) -> (r: ApiResult<()>)
        requires
            old(self).wf(),
        ensures
            final(self).wf(),
            r is Ok <==> !has_key(old(self)@.events, event_key(), event_key()(row))
                && has_key(old(self)@.days, day_id(), event_day()(row))
                && has_key(old(self)@.experiments, experiment_id(), event_experiment()(row)),
            r is Ok ==> final(self)@ == (Tables { events: old(self)@.events.push(row), ..old(self)@ }),
            r is Err ==> r == Err::<(), ApiError>(ApiError::ConstraintViolation) && final(self)@
                == old(self)@,
    {
        if find_pair(
            &self.events,
            &event_day_of,
            Ghost(event_day()),
            &event_experiment_of,
            Ghost(event_experiment()),
            Ghost(event_key()),
            (row.day_id, row.experiment_id),
        ).is_some() {
            return Err(ApiError::ConstraintViolation);
        }
        if find_key(&self.days, &day_id_of, Ghost(day_id()), row.day_id).is_none() {
            return Err(ApiError::ConstraintViolation);
        }
        if find_key(&self.experiments, &experiment_id_of, Ghost(experiment_id()), row.experiment_id).is_none() {
            return Err(ApiError::ConstraintViolation);
        }
        proof {
            let t = self@;
            lemma_push_distinct(t.events, row, event_key());
            lemma_refers_row_added(t.events, event_day(), t.days, day_id(), row);
            lemma_refers_row_added(t.events, event_experiment(), t.experiments, experiment_id(), row);
        }
        self.events.push(row);
        Ok(())
    }

    /// Removes the events that satisfy `f`, and says how many they were.
    pub fn remove_events<F: Fn(&Event) -> bool>(
        &mut self,
        f: &F,
        Ghost(p): Ghost<spec_fn(Event) -> bool>,
    ) -> (n: usize)
        requires
            old(self).wf(),
            decides(*f, p),
        ensures
            final(self).wf(),
            final(self)@ == (Tables { events: old(self)@.events.filter(negate(p)), ..old(self)@ }),
            n == old(self)@.events.len() - final(self)@.events.len(),
    {
        proof {
            let t = self@;
            lemma_filter_distinct(t.events, negate(p), event_key());
            lemma_refers_rows_filtered(t.events, event_day(), t.days, day_id(), negate(p));
            lemma_refers_rows_filtered(t.events, event_experiment(), t.experiments, experiment_id(), negate(p));
        }
        delete_rows(&mut self.events, f, Ghost(p))
    }

    /// Adds a group. Refused where a group with that key exists or its day
    /// does not.
    pub fn insert_group(&mut self, row: Group) -> (r: ApiResult<()>)
        requires
            old(self).wf(),
        ensures
            final(self).wf(),
            r is Ok <==> !has_key(old(self)@.groups, group_id(), group_id()(row))
                && has_key(old(self)@.days, day_id(), group_day()(row)),
            r is Ok ==> final(self)@ == (Tables { groups: old(self)@.groups.push(row), ..old(self)@ }),
            r is Err ==> r == Err::<(), ApiError>(ApiError::ConstraintViolation) && final(self)@
                == old(self)@,
    {
        if find_key(&self.groups, &group_id_of, Ghost(group_id()), row.id).is_some() {
            return Err(ApiError::ConstraintViolation);
        }
        if find_key(&self.days, &day_id_of, Ghost(day_id()), row.day_id).is_none() {
            return Err(ApiError::ConstraintViolation);
        }
        proof {
            let t = self@;
            lemma_push_distinct(t.groups, row, group_id());
            lemma_refers_row_added(t.groups, group_day(), t.days, day_id(), row);
            lemma_refers_target_grows(t.group_mappings, mapping_group(), t.groups, group_id(), row);
            lemma_refers_target_grows(t.completions, completion_group(), t.groups, group_id(), row);
            lemma_refers_target_grows(t.elaborations, elaboration_group(), t.groups, group_id(), row);
        }
        self.groups.push(row);
        Ok(())
    }

    /// Removes the groups that satisfy `f`, and says how many they were.
    /// Refused where one of the memberships, completions or elaborations
    /// names one of them.
    pub fn remove_groups<F: Fn(&Group) -> bool>(
        &mut self,
        f: &F,
        Ghost(p): Ghost<spec_fn(Group) -> bool>,
    ) -> (r: ApiResult<usize>)
        requires
            old(self).wf(),
            decides(*f, p),
        ensures
            final(self).wf(),
            r is Ok <==> !referenced(old(self)@.group_mappings, mapping_group(), old(self)@.groups, group_id(), p)
                && !referenced(old(self)@.completions, completion_group(), old(self)@.groups, group_id(), p)
                && !referenced(old(self)@.elaborations, elaboration_group(), old(self)@.groups, group_id(), p),
            r is Ok ==> final(self)@ == (Tables {
                groups: old(self)@.groups.filter(negate(p)),
                ..old(self)@
            }) && r->Ok_0 == old(self)@.groups.len() - final(self)@.groups.len(),
            r is Err ==> r == Err::<usize, ApiError>(ApiError::ConstraintViolation) && final(self)@
                == old(self)@,
    {
        if some_reference(
            &self.group_mappings,
            &mapping_group_of,
            Ghost(mapping_group()),
            &self.groups,
            &group_id_of,
            Ghost(group_id()),
            f,
            Ghost(p),
        ) {
            return Err(ApiError::ConstraintViolation);
        }
        if some_reference(
            &self.completions,
            &completion_group_of,
            Ghost(completion_group()),
            &self.groups,
            &group_id_of,
            Ghost(group_id()),
            f,
            Ghost(p),
        ) {
            return Err(ApiError::ConstraintViolation);
        }
        if some_reference(
            &self.elaborations,
            &elaboration_group_of,
            Ghost(elaboration_group()),
            &self.groups,
            &group_id_of,
            Ghost(group_id()),
            f,
            Ghost(p),
        ) {
            return Err(ApiError::ConstraintViolation);
        }
        proof {
            let t = self@;
            lemma_filter_distinct(t.groups, negate(p), group_id());
            lemma_refers_rows_filtered(t.groups, group_day(), t.days, day_id(), negate(p));
            lemma_refers_target_filtered(t.group_mappings, mapping_group(), t.groups, group_id(), p);
            lemma_refers_target_filtered(t.completions, completion_group(), t.groups, group_id(), p);
            lemma_refers_target_filtered(t.elaborations, elaboration_group(), t.groups, group_id(), p);
        }
        let n = delete_rows(&mut self.groups, f, Ghost(p));
        Ok(n)
    }

    /// Adds a student. Refused where a student with that key exists or its
    /// year does not.
    pub fn insert_student(&mut self, row: Student) -> (r: ApiResult<()>)
        requires
            old(self).wf(),
        ensures
            final(self).wf(),
            r is Ok <==> !has_key(old(self)@.students, student_id(), student_id()(row))
                && has_key(old(self)@.years, year_id(), student_year()(row)),
            r is Ok ==> final(self)@ == (Tables { students: old(self)@.students.push(row), ..old(self)@ }),
            r is Err ==> r == Err::<(), ApiError>(ApiError::ConstraintViolation) && final(self)@
                == old(self)@,
    {
        if find_key(&self.students, &student_id_of, Ghost(student_id()), row.id).is_some() {
            return Err(ApiError::ConstraintViolation);
        }
        if find_key(&self.years, &year_id_of, Ghost(year_id()), row.year as i32).is_none() {
            return Err(ApiError::ConstraintViolation);
        }
        proof {
            let t = self@;
            lemma_push_distinct(t.students, row, student_id());
            lemma_refers_row_added(t.students, student_year(), t.years, year_id(), row);
            lemma_refers_target_grows(t.group_mappings, mapping_student(), t.students, student_id(), row);
        }
        self.students.push(row);
        Ok(())
    }

    /// Removes the students that satisfy `f`, and says how many they were.
    /// Refused where one of the memberships names one of them.
    pub fn remove_students<F: Fn(&Student) -> bool>(
        &mut self,
        f: &F,
        Ghost(p): Ghost<spec_fn(Student) -> bool>,
    ) -> (r: ApiResult<usize>)
        requires
            old(self).wf(),
            decides(*f, p),
        ensures
            final(self).wf(),
            r is Ok <==> !referenced(old(self)@.group_mappings, mapping_student(), old(self)@.students, student_id(), p),
            r is Ok ==> final(self)@ == (Tables {
                students: old(self)@.students.filter(negate(p)),
                ..old(self)@
            }) && r->Ok_0 == old(self)@.students.len() - final(self)@.students.len(),
            r is Err ==> r == Err::<usize, ApiError>(ApiError::ConstraintViolation) && final(self)@
                == old(self)@,
    {
        if some_reference(
            &self.group_mappings,
            &mapping_student_of,
            Ghost(mapping_student()),
            &self.students,
            &student_id_of,
            Ghost(student_id()),
            f,
            Ghost(p),
        ) {
            return Err(ApiError::ConstraintViolation);
        }
        proof {
            let t = self@;
            lemma_filter_distinct(t.students, negate(p), student_id());
            lemma_refers_rows_filtered(t.students, student_year(), t.years, year_id(), negate(p));
            lemma_refers_target_filtered(t.group_mappings, mapping_student(), t.students, student_id(), p);
        }
        let n = delete_rows(&mut self.students, f, Ghost(p));
        Ok(n)
    }

    /// Adds a membership. Refused where a membership with that key exists,
    /// its student does not or its group does not.
    pub fn insert_group_mapping(&mut self, row: GroupMapping) -> (r: ApiResult<()>)
        requires
            old(self).wf(),
        ensures
            final(self).wf(),
            r is Ok <==> !has_key(old(self)@.group_mappings, mapping_key(), mapping_key()(row))
                && has_key(old(self)@.students, student_id(), mapping_student()(row))
                && has_key(old(self)@.groups, group_id(), mapping_group()(row)),
            r is Ok ==> final(self)@ == (Tables { group_mappings: old(self)@.group_mappings.push(row), ..old(self)@ }),
            r is Err ==> r == Err::<(), ApiError>(ApiError::ConstraintViolation) && final(self)@
                == old(self)@,
    {
        if find_pair(
            &self.group_mappings,
            &mapping_student_of,
            Ghost(mapping_student()),
            &mapping_group_of,
            Ghost(mapping_group()),
            Ghost(mapping_key()),
            (row.student_id, row.group_id),
        ).is_some() {
            return Err(ApiError::ConstraintViolation);
        }
        if find_key(&self.students, &student_id_of, Ghost(student_id()), row.student_id).is_none() {
            return Err(ApiError::ConstraintViolation);
        }
        if find_key(&self.groups, &group_id_of, Ghost(group_id()), row.group_id).is_none() {
            return Err(ApiError::ConstraintViolation);
        }
        proof {
            let t = self@;
            lemma_push_distinct(t.group_mappings, row, mapping_key());
            lemma_refers_row_added(t.group_mappings, mapping_student(), t.students, student_id(), row);
            lemma_refers_row_added(t.group_mappings, mapping_group(), t.groups, group_id(), row);
        }
        self.group_mappings.push(row);
        Ok(())
    }

    /// Removes the memberships that satisfy `f`, and says how many they were.
    pub fn remove_group_mappings<F: Fn(&GroupMapping) -> bool>(
        &mut self,
        f: &F,
        Ghost(p): Ghost<spec_fn(GroupMapping) -> bool>,
    ) -> (n: usize)
        requires
            old(self).wf(),
            decides(*f, p),
        ensures
            final(self).wf(),
            final(self)@ == (Tables { group_mappings: old(self)@.group_mappings.filter(negate(p)), ..old(self)@ }),
            n == old(self)@.group_mappings.len() - final(self)@.group_mappings.len(),
    {
        proof {
            let t = self@;
            lemma_filter_distinct(t.group_mappings, negate(p), mapping_key());
            lemma_refers_rows_filtered(t.group_mappings, mapping_student(), t.students, student_id(), negate(p));
            lemma_refers_rows_filtered(t.group_mappings, mapping_group(), t.groups, group_id(), negate(p));
        }
        delete_rows(&mut self.group_mappings, f, Ghost(p))
    }

    /// Adds a task. Refused where a task with that key exists or its
    /// experiment does not.
    pub fn insert_task(&mut self, row: Task) -> (r: ApiResult<()>)
        requires
            old(self).wf(),
        ensures
            final(self).wf(),
            r is Ok <==> !has_key(old(self)@.tasks, task_id(), task_id()(row))
                && has_key(old(self)@.experiments, experiment_id(), task_experiment()(row)),
            r is Ok ==> final(self)@ == (Tables { tasks: old(self)@.tasks.push(row), ..old(self)@ }),
            r is Err ==> r == Err::<(), ApiError>(ApiError::ConstraintViolation) && final(self)@
                == old(self)@,
    {
        if find_key(&self.tasks, &task_id_of, Ghost(task_id()), row.id).is_some() {
            return Err(ApiError::ConstraintViolation);
        }
        if find_key(&self.experiments, &experiment_id_of, Ghost(experiment_id()), row.experiment_id).is_none() {
            return Err(ApiError::ConstraintViolation);
        }
        proof {
            let t = self@;
            lemma_push_distinct(t.tasks, row, task_id());
            lemma_refers_row_added(t.tasks, task_experiment(), t.experiments, experiment_id(), row);
            lemma_refers_target_grows(t.completions, completion_task(), t.tasks, task_id(), row);
        }
        self.tasks.push(row);
        Ok(())
    }

    /// Removes the tasks that satisfy `f`, and says how many they were.
    /// Refused where one of the completions names one of them.
    pub fn remove_tasks<F: Fn(&Task) -> bool>(
        &mut self,
        f: &F,
        Ghost(p): Ghost<spec_fn(Task) -> bool>,
    ) -> (r: ApiResult<usize>)
        requires
            old(self).wf(),
            decides(*f, p),
        ensures
            final(self).wf(),
            r is Ok <==> !referenced(old(self)@.completions, completion_task(), old(self)@.tasks, task_id(), p),
            r is Ok ==> final(self)@ == (Tables {
                tasks: old(self)@.tasks.filter(negate(p)),
                ..old(self)@
            }) && r->Ok_0 == old(self)@.tasks.len() - final(self)@.tasks.len(),
            r is Err ==> r == Err::<usize, ApiError>(ApiError::ConstraintViolation) && final(self)@
                == old(self)@,
    {
        if some_reference(
            &self.completions,
            &completion_task_of,
            Ghost(completion_task()),
            &self.tasks,
            &task_id_of,
            Ghost(task_id()),
            f,
            Ghost(p),
        ) {
            return Err(ApiError::ConstraintViolation);
        }
        proof {
            let t = self@;
            lemma_filter_distinct(t.tasks, negate(p), task_id());
            lemma_refers_rows_filtered(t.tasks, task_experiment(), t.experiments, experiment_id(), negate(p));
            lemma_refers_target_filtered(t.completions, completion_task(), t.tasks, task_id(), p);
        }
        let n = delete_rows(&mut self.tasks, f, Ghost(p));
        Ok(n)
    }

    /// Adds a completion. Refused where a completion with that key exists,
    /// its group does not or its task does not.
    pub fn insert_completion(&mut self, row: Completion) -> (r: ApiResult<()>)
        requires
            old(self).wf(),
        ensures
            final(self).wf(),
            r is Ok <==> !has_key(old(self)@.completions, completion_key(), completion_key()(row))
                && has_key(old(self)@.groups, group_id(), completion_group()(row))
                && has_key(old(self)@.tasks, task_id(), completion_task()(row)),
            r is Ok ==> final(self)@ == (Tables { completions: old(self)@.completions.push(row), ..old(self)@ }),
            r is Err ==> r == Err::<(), ApiError>(ApiError::ConstraintViolation) && final(self)@
                == old(self)@,
    {
        if find_pair(
            &self.completions,
            &completion_group_of,
            Ghost(completion_group()),
            &completion_task_of,
            Ghost(completion_task()),
            Ghost(completion_key()),
            (row.group_id, row.task_id),
        ).is_some() {
            return Err(ApiError::ConstraintViolation);
        }
        if find_key(&self.groups, &group_id_of, Ghost(group_id()), row.group_id).is_none() {
            return Err(ApiError::ConstraintViolation);
        }
        if find_key(&self.tasks, &task_id_of, Ghost(task_id()), row.task_id).is_none() {
            return Err(ApiError::ConstraintViolation);
        }
        proof {
            let t = self@;
            lemma_push_distinct(t.completions, row, completion_key());
            lemma_refers_row_added(t.completions, completion_group(), t.groups, group_id(), row);
            lemma_refers_row_added(t.completions, completion_task(), t.tasks, task_id(), row);
        }
        self.completions.push(row);
        Ok(())
    }

    /// Removes the completions that satisfy `f`, and says how many they were.
    pub fn remove_completions<F: Fn(&Completion) -> bool>(
        &mut self,
        f: &F,
        Ghost(p): Ghost<spec_fn(Completion) -> bool>,
    ) -> (n: usize)
        requires
            old(self).wf(),
            decides(*f, p),
        ensures
            final(self).wf(),
            final(self)@ == (Tables { completions: old(self)@.completions.filter(negate(p)), ..old(self)@ }),
            n == old(self)@.completions.len() - final(self)@.completions.len(),
    {
        proof {
            let t = self@;
            lemma_filter_distinct(t.completions, negate(p), completion_key());
            lemma_refers_rows_filtered(t.completions, completion_group(), t.groups, group_id(), negate(p));
            lemma_refers_rows_filtered(t.completions, completion_task(), t.tasks, task_id(), negate(p));
        }
        delete_rows(&mut self.completions, f, Ghost(p))
    }

    /// Adds an elaboration. Refused where an elaboration with that key
    /// exists, its group does not or its experiment does not.
    pub fn insert_elaboration(&mut self, row: Elaboration) -> (r: ApiResult<()>)
        requires
            old(self).wf(),
        ensures
            final(self).wf(),
            r is Ok <==> !has_key(old(self)@.elaborations, elaboration_key(), elaboration_key()(row))
                && has_key(old(self)@.groups, group_id(), elaboration_group()(row))
                && has_key(old(self)@.experiments, experiment_id(), elaboration_experiment()(row)),
            r is Ok ==> final(self)@ == (Tables { elaborations: old(self)@.elaborations.push(row), ..old(self)@ }),
            r is Err ==> r == Err::<(), ApiError>(ApiError::ConstraintViolation) && final(self)@
                == old(self)@,
    {
        if find_pair(
            &self.elaborations,
            &elaboration_group_of,
            Ghost(elaboration_group()),
            &elaboration_experiment_of,
            Ghost(elaboration_experiment()),
            Ghost(elaboration_key()),
            (row.group_id, row.experiment_id),
        ).is_some() {
            return Err(ApiError::ConstraintViolation);
        }
        if find_key(&self.groups, &group_id_of, Ghost(group_id()), row.group_id).is_none() {
            return Err(ApiError::ConstraintViolation);
        }
        if find_key(&self.experiments, &experiment_id_of, Ghost(experiment_id()), row.experiment_id).is_none() {
            return Err(ApiError::ConstraintViolation);
        }
        proof {
            let t = self@;
            lemma_push_distinct(t.elaborations, row, elaboration_key());
            lemma_refers_row_added(t.elaborations, elaboration_group(), t.groups, group_id(), row);
            lemma_refers_row_added(t.elaborations, elaboration_experiment(), t.experiments, experiment_id(), row);
        }
        self.elaborations.push(row);
        Ok(())
    }

    /// Removes the elaborations that satisfy `f`, and says how many they
    /// were.
    pub fn remove_elaborations<F: Fn(&Elaboration) -> bool>(
        &mut self,
        f: &F,
        Ghost(p): Ghost<spec_fn(Elaboration) -> bool>,
    ) -> (n: usize)
        requires
            old(self).wf(),
            decides(*f, p),
        ensures
            final(self).wf(),
            final(self)@ == (Tables { elaborations: old(self)@.elaborations.filter(negate(p)), ..old(self)@ }),
            n == old(self)@.elaborations.len() - final(self)@.elaborations.len(),
    {
        proof {
            let t = self@;
            lemma_filter_distinct(t.elaborations, negate(p), elaboration_key());
            lemma_refers_rows_filtered(t.elaborations, elaboration_group(), t.groups, group_id(), negate(p));
            lemma_refers_rows_filtered(t.elaborations, elaboration_experiment(), t.experiments, experiment_id(), negate(p));
        }
        delete_rows(&mut self.elaborations, f, Ghost(p))
    }

    /// Adds an audit entry. Refused where an audit entry with that key exists
    /// or its year does not.
    pub fn insert_audit_log(&mut self, row: AuditLog) -> (r: ApiResult<()>)
        requires
            old(self).wf(),
        ensures
            final(self).wf(),
            r is Ok <==> !has_key(old(self)@.audit_logs, audit_log_id(), audit_log_id()(row))
                && has_key(old(self)@.years, year_id(), audit_log_year()(row)),
            r is Ok ==> final(self)@ == (Tables { audit_logs: old(self)@.audit_logs.push(row), ..old(self)@ }),
            r is Err ==> r == Err::<(), ApiError>(ApiError::ConstraintViolation) && final(self)@
                == old(self)@,
    {
        if find_key(&self.audit_logs, &audit_log_id_of, Ghost(audit_log_id()), row.id).is_some() {
            return Err(ApiError::ConstraintViolation);
        }
        if find_key(&self.years, &year_id_of, Ghost(year_id()), row.year as i32).is_none() {
            return Err(ApiError::ConstraintViolation);
        }
        proof {
            let t = self@;
            lemma_push_distinct(t.audit_logs, row, audit_log_id());
            lemma_refers_row_added(t.audit_logs, audit_log_year(), t.years, year_id(), row);
        }
        self.audit_logs.push(row);
        Ok(())
    }

    /// Removes the audit entries that satisfy `f`, and says how many they
    /// were.
    pub fn remove_audit_logs<F: Fn(&AuditLog) -> bool>(
        &mut self,
        f: &F,
        Ghost(p): Ghost<spec_fn(AuditLog) -> bool>,
    ) -> (n: usize)
        requires
            old(self).wf(),
            decides(*f, p),
        ensures
            final(self).wf(),
            final(self)@ == (Tables { audit_logs: old(self)@.audit_logs.filter(negate(p)), ..old(self)@ }),
            n == old(self)@.audit_logs.len() - final(self)@.audit_logs.len(),
    {
        proof {
            let t = self@;
            lemma_filter_distinct(t.audit_logs, negate(p), audit_log_id());
            lemma_refers_rows_filtered(t.audit_logs, audit_log_year(), t.years, year_id(), negate(p));
        }
        delete_rows(&mut self.audit_logs, f, Ghost(p))
    }

    /// Adds a tutor. Refused where a tutor with that key exists or its year
    /// does not.
    pub fn insert_tutor(&mut self, row: Tutor) -> (r: ApiResult<()>)
        requires
            old(self).wf(),
        ensures
            final(self).wf(),
            r is Ok <==> !has_key(old(self)@.tutors, tutor_id(), tutor_id()(row))
                && has_key(old(self)@.years, year_id(), tutor_year()(row)),
            r is Ok ==> final(self)@ == (Tables { tutors: old(self)@.tutors.push(row), ..old(self)@ }),
            r is Err ==> r == Err::<(), ApiError>(ApiError::ConstraintViolation) && final(self)@
                == old(self)@,
    {
        if find_key(&self.tutors, &tutor_id_of, Ghost(tutor_id()), row.id).is_some() {
            return Err(ApiError::ConstraintViolation);
        }
        if find_key(&self.years, &year_id_of, Ghost(year_id()), row.year as i32).is_none() {
            return Err(ApiError::ConstraintViolation);
        }
        proof {
            let t = self@;
            lemma_push_distinct(t.tutors, row, tutor_id());
            lemma_refers_row_added(t.tutors, tutor_year(), t.years, year_id(), row);
        }
        self.tutors.push(row);
        Ok(())
    }

    /// Removes the tutors that satisfy `f`, and says how many they were.
    pub fn remove_tutors<F: Fn(&Tutor) -> bool>(
        &mut self,
        f: &F,
        Ghost(p): Ghost<spec_fn(Tutor) -> bool>,
    ) -> (n: usize)
        requires
            old(self).wf(),
            decides(*f, p),
        ensures
            final(self).wf(),
            final(self)@ == (Tables { tutors: old(self)@.tutors.filter(negate(p)), ..old(self)@ }),
            n == old(self)@.tutors.len() - final(self)@.tutors.len(),
    {
        proof {
            let t = self@;
            lemma_filter_distinct(t.tutors, negate(p), tutor_id());
            lemma_refers_rows_filtered(t.tutors, tutor_year(), t.years, year_id(), negate(p));
        }
        delete_rows(&mut self.tutors, f, Ghost(p))
    }

    /// Adds a whitelist entry. Refused where a whitelist entry with that key
    /// exists or its year does not.
    pub fn insert_whitelist_entry(&mut self, row: IpWhitelistEntry) -> (r: ApiResult<()>)
        requires
            old(self).wf(),
        ensures
            final(self).wf(),
            r is Ok <==> !has_key(old(self)@.ip_whitelist, whitelist_id(), whitelist_id()(row))
                && has_key(old(self)@.years, year_id(), whitelist_year()(row)),
            r is Ok ==> final(self)@ == (Tables { ip_whitelist: old(self)@.ip_whitelist.push(row), ..old(self)@ }),
            r is Err ==> r == Err::<(), ApiError>(ApiError::ConstraintViolation) && final(self)@
                == old(self)@,
    {
        if find_key(&self.ip_whitelist, &whitelist_id_of, Ghost(whitelist_id()), row.id).is_some() {
            return Err(ApiError::ConstraintViolation);
        }
        if find_key(&self.years, &year_id_of, Ghost(year_id()), row.year as i32).is_none() {
            return Err(ApiError::ConstraintViolation);
        }
        proof {
            let t = self@;
            lemma_push_distinct(t.ip_whitelist, row, whitelist_id());
            lemma_refers_row_added(t.ip_whitelist, whitelist_year(), t.years, year_id(), row);
        }
        self.ip_whitelist.push(row);
        Ok(())
    }

    /// Removes the whitelist entries that satisfy `f`, and says how many they
    /// were.
    pub fn remove_ip_whitelist<F: Fn(&IpWhitelistEntry) -> bool>(
        &mut self,
        f: &F,
        Ghost(p): Ghost<spec_fn(IpWhitelistEntry) -> bool>,
    ) -> (n: usize)
        requires
            old(self).wf(),
            decides(*f, p),
        ensures
            final(self).wf(),
            final(self)@ == (Tables { ip_whitelist: old(self)@.ip_whitelist.filter(negate(p)), ..old(self)@ }),
            n == old(self)@.ip_whitelist.len() - final(self)@.ip_whitelist.len(),
    {
        proof {
            let t = self@;
            lemma_filter_distinct(t.ip_whitelist, negate(p), whitelist_id());
            lemma_refers_rows_filtered(t.ip_whitelist, whitelist_year(), t.years, year_id(), negate(p));
        }
        delete_rows(&mut self.ip_whitelist, f, Ghost(p))
    }

    /// Puts the row in the place of the year that has its key. Refused with
    /// `NotFound` where there is none.
    pub fn replace_year(&mut self, row: Year) -> (r: ApiResult<()>)
        requires
            old(self).wf(),
        ensures
            final(self).wf(),
            r is Ok <==> has_key(old(self)@.years, year_id(), year_id()(row)),
            r is Ok ==> final(self)@ == (Tables {
                years: rewritten(old(self)@.years, year_id(), year_id()(row), |r: Year| row),
                ..old(self)@
            }),
            r is Err ==> final(self)@ == old(self)@ && r->Err_0 == if has_key(
                old(self)@.years,
                year_id(),
                year_id()(row),
            ) {
                ApiError::ConstraintViolation
            } else {
                ApiError::NotFound
            },
    {
        let found = find_key(&self.years, &year_id_of, Ghost(year_id()), row.id as i32);
        let at = match found {
            Some(at) => at,
            None => {
                return Err(ApiError::NotFound);
            },
        };
        proof {
            let t = self@;
            let k = year_id()(row);
            let put = |r: Year| row;
            lemma_update_is_rewrite(t.years, year_id(), at as int, put);
            lemma_rewritten_distinct(t.years, year_id(), k, put, year_id());
            lemma_refers_rewritten(t.days, day_year(), t.years, year_id(), k, put);
            lemma_refers_rewritten(t.experiments, experiment_year(), t.years, year_id(), k, put);
            lemma_refers_rewritten(t.students, student_year(), t.years, year_id(), k, put);
            lemma_refers_rewritten(t.audit_logs, audit_log_year(), t.years, year_id(), k, put);
            lemma_refers_rewritten(t.tutors, tutor_year(), t.years, year_id(), k, put);
            lemma_refers_rewritten(t.ip_whitelist, whitelist_year(), t.years, year_id(), k, put);
        }
        self.years.set(at, row);
        Ok(())
    }

    /// Puts the row in the place of the event that has its key. Refused with
    /// `NotFound` where there is none, and with `ConstraintViolation` where
    /// the row names a row that does not exist.
    pub fn replace_event(&mut self, row: Event) -> (r: ApiResult<()>)
        requires
            old(self).wf(),
        ensures
            final(self).wf(),
            r is Ok <==> has_key(old(self)@.events, event_key(), event_key()(row))
                && has_key(old(self)@.days, day_id(), event_day()(row))
                && has_key(old(self)@.experiments, experiment_id(), event_experiment()(row)),
            r is Ok ==> final(self)@ == (Tables {
                events: rewritten(old(self)@.events, event_key(), event_key()(row), |r: Event| row),
                ..old(self)@
            }),
            r is Err ==> final(self)@ == old(self)@ && r->Err_0 == if has_key(
                old(self)@.events,
                event_key(),
                event_key()(row),
            ) {
                ApiError::ConstraintViolation
            } else {
                ApiError::NotFound
            },
    {
        let found = find_pair(
            &self.events,
            &event_day_of,
            Ghost(event_day()),
            &event_experiment_of,
            Ghost(event_experiment()),
            Ghost(event_key()),
            (row.day_id, row.experiment_id),
        );
        let at = match found {
            Some(at) => at,
            None => {
                return Err(ApiError::NotFound);
            },
        };
        if find_key(&self.days, &day_id_of, Ghost(day_id()), row.day_id).is_none() {
            return Err(ApiError::ConstraintViolation);
        }
        if find_key(&self.experiments, &experiment_id_of, Ghost(experiment_id()), row.experiment_id).is_none() {
            return Err(ApiError::ConstraintViolation);
        }
        proof {
            let t = self@;
            let k = event_key()(row);
            let put = |r: Event| row;
            lemma_update_is_rewrite(t.events, event_key(), at as int, put);
            lemma_rewritten_distinct(t.events, event_key(), k, put, event_key());
            lemma_rewritten_refers(t.events, event_key(), k, put, event_day(), t.days, day_id());
            lemma_rewritten_refers(t.events, event_key(), k, put, event_experiment(), t.experiments, experiment_id());
        }
        self.events.set(at, row);
        Ok(())
    }

    /// Puts the row in the place of the group that has its key. Refused with
    /// `NotFound` where there is none, and with `ConstraintViolation` where
    /// the row names a row that does not exist.
    pub fn replace_group(&mut self, row: Group) -> (r: ApiResult<()>)
        requires
            old(self).wf(),
        ensures
            final(self).wf(),
            r is Ok <==> has_key(old(self)@.groups, group_id(), group_id()(row))
                && has_key(old(self)@.days, day_id(), group_day()(row)),
            r is Ok ==> final(self)@ == (Tables {
                groups: rewritten(old(self)@.groups, group_id(), group_id()(row), |r: Group| row),
                ..old(self)@
            }),
            r is Err ==> final(self)@ == old(self)@ && r->Err_0 == if has_key(
                old(self)@.groups,
                group_id(),
                group_id()(row),
            ) {
                ApiError::ConstraintViolation
            } else {
                ApiError::NotFound
            },
    {
        let found = find_key(&self.groups, &group_id_of, Ghost(group_id()), row.id);
        let at = match found {
            Some(at) => at,
            None => {
                return Err(ApiError::NotFound);
            },
        };
        if find_key(&self.days, &day_id_of, Ghost(day_id()), row.day_id).is_none() {
            return Err(ApiError::ConstraintViolation);
        }
        proof {
            let t = self@;
            let k = group_id()(row);
            let put = |r: Group| row;
            lemma_update_is_rewrite(t.groups, group_id(), at as int, put);
            lemma_rewritten_distinct(t.groups, group_id(), k, put, group_id());
            lemma_rewritten_refers(t.groups, group_id(), k, put, group_day(), t.days, day_id());
            lemma_refers_rewritten(t.group_mappings, mapping_group(), t.groups, group_id(), k, put);
            lemma_refers_rewritten(t.completions, completion_group(), t.groups, group_id(), k, put);
            lemma_refers_rewritten(t.elaborations, elaboration_group(), t.groups, group_id(), k, put);
        }
        self.groups.set(at, row);
        Ok(())
    }

    /// Puts the row in the place of the student that has its key. Refused
    /// with `NotFound` where there is none, and with `ConstraintViolation`
    /// where the row names a row that does not exist.
    pub fn replace_student(&mut self, row: Student) -> (r: ApiResult<()>)
        requires
            old(self).wf(),
        ensures
            final(self).wf(),
            r is Ok <==> has_key(old(self)@.students, student_id(), student_id()(row))
                && has_key(old(self)@.years, year_id(), student_year()(row)),
            r is Ok ==> final(self)@ == (Tables {
                students: rewritten(old(self)@.students, student_id(), student_id()(row), |r: Student| row),
                ..old(self)@
            }),
            r is Err ==> final(self)@ == old(self)@ && r->Err_0 == if has_key(
                old(self)@.students,
                student_id(),
                student_id()(row),
            ) {
                ApiError::ConstraintViolation
            } else {
                ApiError::NotFound
            },
    {
        let found = find_key(&self.students, &student_id_of, Ghost(student_id()), row.id);
        let at = match found {
            Some(at) => at,
            None => {
                return Err(ApiError::NotFound);
            },
        };
        if find_key(&self.years, &year_id_of, Ghost(year_id()), row.year as i32).is_none() {
            return Err(ApiError::ConstraintViolation);
        }
        proof {
            let t = self@;
            let k = student_id()(row);
            let put = |r: Student| row;
            lemma_update_is_rewrite(t.students, student_id(), at as int, put);
            lemma_rewritten_distinct(t.students, student_id(), k, put, student_id());
            lemma_rewritten_refers(t.students, student_id(), k, put, student_year(), t.years, year_id());
            lemma_refers_rewritten(t.group_mappings, mapping_student(), t.students, student_id(), k, put);
        }
        self.students.set(at, row);
        Ok(())
    }

    /// Puts the row in the place of the elaboration that has its key. Refused
    /// with `NotFound` where there is none, and with `ConstraintViolation`
    /// where the row names a row that does not exist.
    pub fn replace_elaboration(&mut self, row: Elaboration) -> (r: ApiResult<()>)
        requires
            old(self).wf(),
        ensures
            final(self).wf(),
            r is Ok <==> has_key(old(self)@.elaborations, elaboration_key(), elaboration_key()(row))
                && has_key(old(self)@.groups, group_id(), elaboration_group()(row))
                && has_key(old(self)@.experiments, experiment_id(), elaboration_experiment()(row)),
            r is Ok ==> final(self)@ == (Tables {
                elaborations: rewritten(old(self)@.elaborations, elaboration_key(), elaboration_key()(row), |r: Elaboration| row),
                ..old(self)@
            }),
            r is Err ==> final(self)@ == old(self)@ && r->Err_0 == if has_key(
                old(self)@.elaborations,
                elaboration_key(),
                elaboration_key()(row),
            ) {
                ApiError::ConstraintViolation
            } else {
                ApiError::NotFound
            },
    {
        let found = find_pair(
            &self.elaborations,
            &elaboration_group_of,
            Ghost(elaboration_group()),
            &elaboration_experiment_of,
            Ghost(elaboration_experiment()),
            Ghost(elaboration_key()),
            (row.group_id, row.experiment_id),
        );
        let at = match found {
            Some(at) => at,
            None => {
                return Err(ApiError::NotFound);
            },
        };
        if find_key(&self.groups, &group_id_of, Ghost(group_id()), row.group_id).is_none() {
            return Err(ApiError::ConstraintViolation);
        }
        if find_key(&self.experiments, &experiment_id_of, Ghost(experiment_id()), row.experiment_id).is_none() {
            return Err(ApiError::ConstraintViolation);
        }
        proof {
            let t = self@;
            let k = elaboration_key()(row);
            let put = |r: Elaboration| row;
            lemma_update_is_rewrite(t.elaborations, elaboration_key(), at as int, put);
            lemma_rewritten_distinct(t.elaborations, elaboration_key(), k, put, elaboration_key());
            lemma_rewritten_refers(t.elaborations, elaboration_key(), k, put, elaboration_group(), t.groups, group_id());
            lemma_rewritten_refers(t.elaborations, elaboration_key(), k, put, elaboration_experiment(), t.experiments, experiment_id());
        }
        self.elaborations.set(at, row);
        Ok(())
    }

    /// Puts the row in the place of the tutor that has its key. Refused with
    /// `NotFound` where there is none, and with `ConstraintViolation` where
    /// the row names a row that does not exist.
    pub fn replace_tutor(&mut self, row: Tutor) -> (r: ApiResult<()>)
        requires
            old(self).wf(),
        ensures
            final(self).wf(),
            r is Ok <==> has_key(old(self)@.tutors, tutor_id(), tutor_id()(row))
                && has_key(old(self)@.years, year_id(), tutor_year()(row)),
            r is Ok ==> final(self)@ == (Tables {
                tutors: rewritten(old(self)@.tutors, tutor_id(), tutor_id()(row), |r: Tutor| row),
                ..old(self)@
            }),
            r is Err ==> final(self)@ == old(self)@ && r->Err_0 == if has_key(
                old(self)@.tutors,
                tutor_id(),
                tutor_id()(row),
            ) {
                ApiError::ConstraintViolation
            } else {
                ApiError::NotFound
            },
    {
        let found = find_key(&self.tutors, &tutor_id_of, Ghost(tutor_id()), row.id);
        let at = match found {
            Some(at) => at,
            None => {
                return Err(ApiError::NotFound);
            },
        };
        if find_key(&self.years, &year_id_of, Ghost(year_id()), row.year as i32).is_none() {
            return Err(ApiError::ConstraintViolation);
        }
        proof {
            let t = self@;
            let k = tutor_id()(row);
            let put = |r: Tutor| row;
            lemma_update_is_rewrite(t.tutors, tutor_id(), at as int, put);
            lemma_rewritten_distinct(t.tutors, tutor_id(), k, put, tutor_id());
            lemma_rewritten_refers(t.tutors, tutor_id(), k, put, tutor_year(), t.years, year_id());
        }
        self.tutors.set(at, row);
        Ok(())
    }

}

} // verus!
