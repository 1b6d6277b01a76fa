//! The rows of the store, one type per table, and the values that create them.
use vstd::prelude::*;
use vstd::string::StringExecFns;
use super::inet::Inet;

verus! {

/// An academic year: the boundary that every other row belongs to.
#[derive(Debug, Clone, Copy, PartialEq, Eq, Structural)]
pub struct Year {
    pub id: i16,
    pub writable: bool,
}

/// A weekday slot of a year, to which groups are assigned.
#[derive(Debug, PartialEq, Eq)]
pub struct Day {
    pub id: i32,
    pub name: String,
    pub year: i16,
}

#[derive(Debug, PartialEq, Eq)]
pub struct NewDay {
    pub name: String,
    pub year: i16,
}

/// A lab topic of a year; it owns tasks and is what an elaboration is about.
#[derive(Debug, PartialEq, Eq)]
pub struct Experiment {
    pub id: i32,
    pub name: String,
    pub year: i16,
}

#[derive(Debug, PartialEq, Eq)]
pub struct NewExperiment {
    pub name: String,
    pub year: i16,
}

/// The date on which an experiment takes place for a day. The date is the
/// number of days since 1 January of the year 1, which is day 1.
#[derive(Debug, Clone, Copy, PartialEq, Eq, Structural)]
pub struct Event {
    pub day_id: i32,
    pub experiment_id: i32,
    pub date: i32,
}

/// A team of students at one desk. A comment that holds `(ENDE)` marks the
/// group as disqualified.
#[derive(Debug, PartialEq, Eq)]
pub struct Group {
    pub id: i32,
    pub desk: i32,
    pub day_id: i32,
    pub comment: String,
}

#[derive(Debug, PartialEq, Eq)]
pub struct NewGroup {
    pub desk: i32,
    pub day_id: i32,
    pub comment: String,
}

#[derive(Debug, PartialEq, Eq)]
pub struct Student {
    pub id: i32,
    pub matrikel: String,
    pub year: i16,
    pub username: Option<String>,
    pub instructed: bool,
    pub given_name: String,
    pub family_name: String,
}

#[derive(Debug, PartialEq, Eq)]
pub struct NewStudent {
    pub matrikel: String,
    pub year: i16,
    pub username: Option<String>,
    pub given_name: String,
    pub family_name: String,
}

/// The membership of a student in a group.
#[derive(Debug, Clone, Copy, PartialEq, Eq, Structural)]
pub struct GroupMapping {
    pub student_id: i32,
    pub group_id: i32,
}

#[derive(Debug, PartialEq, Eq)]
pub struct Task {
    pub id: i32,
    pub experiment_id: i32,
    pub name: String,
}

/// That a group has finished a task.
#[derive(Debug, Clone, Copy, PartialEq, Eq, Structural)]
pub struct Completion {
    pub group_id: i32,
    pub task_id: i32,
}

/// The written report of a group on an experiment, with its state.
#[derive(Debug, Clone, Copy, PartialEq, Eq, Structural)]
pub struct Elaboration {
    pub group_id: i32,
    pub experiment_id: i32,
    pub rework_required: bool,
    pub accepted: bool,
}

/// One entry of the audit trail. The creation time is in microseconds since
/// the Unix epoch.
#[derive(Debug, PartialEq, Eq)]
pub struct AuditLog {
    pub id: i32,
    pub created_at: i64,
    pub year: i16,
    pub author: String,
    pub affected_group: Option<i32>,
    pub change: String,
}

#[derive(Debug, PartialEq, Eq)]
pub struct NewAuditLog<'a, 'b> {
    pub year: i16,
    pub author: &'a str,
    pub affected_group: Option<i32>,
    pub change: &'b str,
}

/// The authority of a user over one year.
#[derive(Debug, PartialEq, Eq)]
pub struct Tutor {
    pub id: i32,
    pub username: String,
    pub year: i16,
    pub is_admin: bool,
}

#[derive(Debug, PartialEq, Eq)]
pub struct NewTutor {
    pub username: String,
    pub year: i16,
    pub is_admin: bool,
}

/// A network from which the tutors of a year may log in.
#[derive(Debug, Clone, Copy, PartialEq, Eq, Structural)]
pub struct IpWhitelistEntry {
    pub id: i32,
    pub ipnet: Inet,
    pub year: i16,
}

/// A copy of an optional text.
pub fn clone_text(text: &Option<String>) -> (r: Option<String>)
    ensures
        r == *text,
{
    match text {
        Some(s) => Some(s.clone()),
        None => None,
    }
}

impl Clone for Day {
    fn clone(&self) -> (r: Self)
        ensures
            r == *self,
    {
        Day { id: self.id, name: self.name.clone(), year: self.year }
    }
}

impl Clone for Experiment {
    fn clone(&self) -> (r: Self)
        ensures
            r == *self,
    {
        Experiment { id: self.id, name: self.name.clone(), year: self.year }
    }
}

impl Clone for Group {
    fn clone(&self) -> (r: Self)
        ensures
            r == *self,
    {
        Group { id: self.id, desk: self.desk, day_id: self.day_id, comment: self.comment.clone() }
    }
}

impl Clone for Student {
    fn clone(&self) -> (r: Self)
        ensures
            r == *self,
    {
        Student {
            id: self.id,
            matrikel: self.matrikel.clone(),
            year: self.year,
            username: clone_text(&self.username),
            instructed: self.instructed,
            given_name: self.given_name.clone(),
            family_name: self.family_name.clone(),
        }
    }
}

impl Clone for Task {
    fn clone(&self) -> (r: Self)
        ensures
            r == *self,
    {
        Task { id: self.id, experiment_id: self.experiment_id, name: self.name.clone() }
    }
}

impl Clone for AuditLog {
    fn clone(&self) -> (r: Self)
        ensures
            r == *self,
    {
        AuditLog {
            id: self.id,
            created_at: self.created_at,
            year: self.year,
            author: self.author.clone(),
            affected_group: self.affected_group,
            change: self.change.clone(),
        }
    }
}

impl Clone for Tutor {
    fn clone(&self) -> (r: Self)
        ensures
            r == *self,
    {
        Tutor {
            id: self.id,
            username: self.username.clone(),
            year: self.year,
            is_admin: self.is_admin,
        }
    }
}

/// The full name of a student: the given name, then a blank and the family
/// name where there is one.
pub open spec fn full_name(given_name: Seq<char>, family_name: Seq<char>) -> Seq<char> {
    if family_name.len() == 0 {
        given_name
    } else {
        given_name + seq![' '] + family_name
    }
}

impl Student {
    pub fn name(&self) -> (r: String)
        ensures
            r@ == full_name(self.given_name@, self.family_name@),
    {
        if self.family_name.as_str().unicode_len() == 0 {
            self.given_name.clone()
        } else {
            proof {
                reveal_strlit(" ");
                assert(" "@ =~= seq![' ']);
            }
            let mut name = self.given_name.clone();
            name.append(" ");
            name.append(self.family_name.as_str());
            name
        }
    }
}

} // verus!
