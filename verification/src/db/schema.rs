//! The tables of the store as a mathematical value, and the rules that hold
//! between them: which columns identify a row and which rows a row refers to.
use vstd::prelude::*;
use super::models::{
    AuditLog, Completion, Day, Elaboration, Event, Experiment, Group, GroupMapping,
    IpWhitelistEntry, Student, Task, Tutor, Year,
};
use crate::relation::{has_key, keys_distinct, refers};

verus! {

/// What the store holds: each table in the order in which its rows came, and
/// the time that the store stamps on what it records.
pub struct Tables {
    pub years: Seq<Year>,
    pub days: Seq<Day>,
    pub experiments: Seq<Experiment>,
    pub events: Seq<Event>,
    pub groups: Seq<Group>,
    pub students: Seq<Student>,
    pub group_mappings: Seq<GroupMapping>,
    pub tasks: Seq<Task>,
    pub completions: Seq<Completion>,
    pub elaborations: Seq<Elaboration>,
    pub audit_logs: Seq<AuditLog>,
    pub tutors: Seq<Tutor>,
    pub ip_whitelist: Seq<IpWhitelistEntry>,
    pub now: i64,
}

/// The key of a year.
pub open spec fn year_id() -> spec_fn(Year) -> i32 {
    |r: Year| r.id as i32
}

/// The key of a day.
pub open spec fn day_id() -> spec_fn(Day) -> i32 {
    |r: Day| r.id
}

/// The year that a day belongs to.
pub open spec fn day_year() -> spec_fn(Day) -> i32 {
    |r: Day| r.year as i32
}

/// The key of an experiment.
pub open spec fn experiment_id() -> spec_fn(Experiment) -> i32 {
    |r: Experiment| r.id
}

/// The year that an experiment belongs to.
pub open spec fn experiment_year() -> spec_fn(Experiment) -> i32 {
    |r: Experiment| r.year as i32
}

/// The day of an event.
pub open spec fn event_day() -> spec_fn(Event) -> i32 {
    |r: Event| r.day_id
}

/// The experiment of an event.
pub open spec fn event_experiment() -> spec_fn(Event) -> i32 {
    |r: Event| r.experiment_id
}

/// The key of a group.
pub open spec fn group_id() -> spec_fn(Group) -> i32 {
    |r: Group| r.id
}

/// The day that a group belongs to.
pub open spec fn group_day() -> spec_fn(Group) -> i32 {
    |r: Group| r.day_id
}

/// The key of a student.
pub open spec fn student_id() -> spec_fn(Student) -> i32 {
    |r: Student| r.id
}

/// The year that a student belongs to.
pub open spec fn student_year() -> spec_fn(Student) -> i32 {
    |r: Student| r.year as i32
}

/// The student of a membership.
pub open spec fn mapping_student() -> spec_fn(GroupMapping) -> i32 {
    |r: GroupMapping| r.student_id
}

/// The group of a membership.
pub open spec fn mapping_group() -> spec_fn(GroupMapping) -> i32 {
    |r: GroupMapping| r.group_id
}

/// The key of a task.
pub open spec fn task_id() -> spec_fn(Task) -> i32 {
    |r: Task| r.id
}

/// The experiment that a task belongs to.
pub open spec fn task_experiment() -> spec_fn(Task) -> i32 {
    |r: Task| r.experiment_id
}

/// The group of a completion.
pub open spec fn completion_group() -> spec_fn(Completion) -> i32 {
    |r: Completion| r.group_id
}

/// The task of a completion.
pub open spec fn completion_task() -> spec_fn(Completion) -> i32 {
    |r: Completion| r.task_id
}

/// The group of an elaboration.
pub open spec fn elaboration_group() -> spec_fn(Elaboration) -> i32 {
    |r: Elaboration| r.group_id
}

/// The experiment of an elaboration.
pub open spec fn elaboration_experiment() -> spec_fn(Elaboration) -> i32 {
    |r: Elaboration| r.experiment_id
}

/// The key of an audit entry.
pub open spec fn audit_log_id() -> spec_fn(AuditLog) -> i32 {
    |r: AuditLog| r.id
}

/// The year of an audit entry.
pub open spec fn audit_log_year() -> spec_fn(AuditLog) -> i32 {
    |r: AuditLog| r.year as i32
}

/// The key of a tutor.
pub open spec fn tutor_id() -> spec_fn(Tutor) -> i32 {
    |r: Tutor| r.id
}

/// The year of a tutor.
pub open spec fn tutor_year() -> spec_fn(Tutor) -> i32 {
    |r: Tutor| r.year as i32
}

/// The key of a whitelist entry.
pub open spec fn whitelist_id() -> spec_fn(IpWhitelistEntry) -> i32 {
    |r: IpWhitelistEntry| r.id
}

/// The year of a whitelist entry.
pub open spec fn whitelist_year() -> spec_fn(IpWhitelistEntry) -> i32 {
    |r: IpWhitelistEntry| r.year as i32
}

/// The key of an event: its day and its experiment.
pub open spec fn event_key() -> spec_fn(Event) -> (i32, i32) {
    |r: Event| (r.day_id, r.experiment_id)
}

/// The key of a membership: its student and its group.
pub open spec fn mapping_key() -> spec_fn(GroupMapping) -> (i32, i32) {
    |r: GroupMapping| (r.student_id, r.group_id)
}

/// The key of a completion: its group and its task.
pub open spec fn completion_key() -> spec_fn(Completion) -> (i32, i32) {
    |r: Completion| (r.group_id, r.task_id)
}

/// The key of an elaboration: its group and its experiment.
pub open spec fn elaboration_key() -> spec_fn(Elaboration) -> (i32, i32) {
    |r: Elaboration| (r.group_id, r.experiment_id)
}

/// A year with this id exists.
pub open spec fn has_year(years: Seq<Year>, id: i16) -> bool {
    has_key(years, year_id(), id as i32)
}

/// A day with this id exists.
pub open spec fn has_day(days: Seq<Day>, id: i32) -> bool {
    has_key(days, day_id(), id)
}

/// An experiment with this id exists.
pub open spec fn has_experiment(experiments: Seq<Experiment>, id: i32) -> bool {
    has_key(experiments, experiment_id(), id)
}

/// A group with this id exists.
pub open spec fn has_group(groups: Seq<Group>, id: i32) -> bool {
    has_key(groups, group_id(), id)
}

/// A student with this id exists.
pub open spec fn has_student(students: Seq<Student>, id: i32) -> bool {
    has_key(students, student_id(), id)
}

/// A task with this id exists.
pub open spec fn has_task(tasks: Seq<Task>, id: i32) -> bool {
    has_key(tasks, task_id(), id)
}

/// No table holds two rows with one key.
pub open spec fn keys_hold(t: Tables) -> bool {
    &&& keys_distinct(t.years, year_id())
    &&& keys_distinct(t.days, day_id())
    &&& keys_distinct(t.experiments, experiment_id())
    &&& keys_distinct(t.events, event_key())
    &&& keys_distinct(t.groups, group_id())
    &&& keys_distinct(t.students, student_id())
    &&& keys_distinct(t.group_mappings, mapping_key())
    &&& keys_distinct(t.tasks, task_id())
    &&& keys_distinct(t.completions, completion_key())
    &&& keys_distinct(t.elaborations, elaboration_key())
    &&& keys_distinct(t.audit_logs, audit_log_id())
    &&& keys_distinct(t.tutors, tutor_id())
    &&& keys_distinct(t.ip_whitelist, whitelist_id())
}

/// Every row that names a row of another table names one that exists.
pub open spec fn references_hold(t: Tables) -> bool {
    &&& refers(t.days, day_year(), t.years, year_id())
    &&& refers(t.experiments, experiment_year(), t.years, year_id())
    &&& refers(t.events, event_day(), t.days, day_id())
    &&& refers(t.events, event_experiment(), t.experiments, experiment_id())
    &&& refers(t.groups, group_day(), t.days, day_id())
    &&& refers(t.students, student_year(), t.years, year_id())
    &&& refers(t.group_mappings, mapping_student(), t.students, student_id())
    &&& refers(t.group_mappings, mapping_group(), t.groups, group_id())
    &&& refers(t.tasks, task_experiment(), t.experiments, experiment_id())
    &&& refers(t.completions, completion_group(), t.groups, group_id())
    &&& refers(t.completions, completion_task(), t.tasks, task_id())
    &&& refers(t.elaborations, elaboration_group(), t.groups, group_id())
    &&& refers(t.elaborations, elaboration_experiment(), t.experiments, experiment_id())
    &&& refers(t.audit_logs, audit_log_year(), t.years, year_id())
    &&& refers(t.tutors, tutor_year(), t.years, year_id())
    &&& refers(t.ip_whitelist, whitelist_year(), t.years, year_id())
}

/// The rules of the store: keys are unique and references resolve.
pub open spec fn consistent(t: Tables) -> bool {
    keys_hold(t) && references_hold(t)
}

/// The store with no rows.
pub open spec fn empty_tables(now: i64) -> Tables {
    Tables {
        years: Seq::empty(),
        days: Seq::empty(),
        experiments: Seq::empty(),
        events: Seq::empty(),
        groups: Seq::empty(),
        students: Seq::empty(),
        group_mappings: Seq::empty(),
        tasks: Seq::empty(),
        completions: Seq::empty(),
        elaborations: Seq::empty(),
        audit_logs: Seq::empty(),
        tutors: Seq::empty(),
        ip_whitelist: Seq::empty(),
        now,
    }
}

} // verus!
