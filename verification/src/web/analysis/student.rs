//! The student as the analyses report them.
use vstd::prelude::*;
use vstd::std_specs::cmp::{PartialEqSpecImpl, PartialOrdSpecImpl};
use core::cmp::Ordering;

verus! {

/// A student with the groups in which the analysed records were made. Two
/// values are the same student where their ids agree; students are ordered
/// by id.
#[derive(Debug)]
pub struct Student {
    pub id: i32,
    pub matrikel: String,
    pub name: String,
    pub username: Option<String>,
    /// The ids of the groups, rising, each once.
    pub groups: Vec<i32>,
    pub instructed: bool,
}

impl PartialEq for Student {
    fn eq(&self, other: &Student) -> (r: bool) {
        self.id == other.id
    }
}

impl PartialEqSpecImpl for Student {
    open spec fn obeys_eq_spec() -> bool {
        true
    }

    open spec fn eq_spec(&self, other: &Student) -> bool {
        self.id == other.id
    }
}

impl PartialOrd for Student {
    fn partial_cmp(&self, other: &Student) -> (r: Option<Ordering>) {
        if self.id < other.id {
            Some(Ordering::Less)
        } else if self.id == other.id {
            Some(Ordering::Equal)
        } else {
            Some(Ordering::Greater)
        }
    }
}

impl PartialOrdSpecImpl for Student {
    open spec fn obeys_partial_cmp_spec() -> bool {
        true
    }

    open spec fn partial_cmp_spec(&self, other: &Student) -> Option<Ordering> {
        if self.id < other.id {
            Some(Ordering::Less)
        } else if self.id == other.id {
            Some(Ordering::Equal)
        } else {
            Some(Ordering::Greater)
        }
    }
}

impl Student {
    /// The largest of the student's groups, if there is one.
    pub open spec fn spec_last_group(&self) -> Option<i32> {
        if self.groups@.len() == 0 {
            None
        } else {
            Some(self.groups@.last())
        }
    }

    #[verifier::when_used_as_spec(spec_last_group)]
    pub fn last_group(&self) -> (r: Option<i32>)
        ensures
            r == self.spec_last_group(),
    {
        if self.groups.len() == 0 {
            None
        } else {
            Some(self.groups[self.groups.len() - 1])
        }
    }
}

} // verus!
