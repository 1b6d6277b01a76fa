//! What the listeners of a year are told after a change.
use vstd::prelude::*;
use vstd::string::StringExecFns;

verus! {

/// Where the listeners connect.
pub struct Url(pub String);

/// A group has a new comment.
#[derive(Debug, PartialEq, Eq)]
pub struct Comment {
    pub group: i32,
    pub author: String,
    pub comment: String,
}

/// A group has completed a task, or no longer has.
#[derive(Debug, Clone, Copy, PartialEq, Eq, Structural)]
pub struct Completion {
    pub group: i32,
    pub task: i32,
    pub completed: bool,
}

/// The state of the elaboration of a group has changed.
#[derive(Debug, Clone, Copy, PartialEq, Eq, Structural)]
pub struct Elaboration {
    pub group: i32,
    pub experiment: i32,
    pub handed_in: bool,
    pub rework: bool,
    pub accepted: bool,
}

/// A group was made or changed.
#[derive(Debug, Clone, Copy, PartialEq, Eq, Structural)]
pub enum Group {
    New { day: i32 },
    Change { group: i32 },
}

/// A student has joined or left a group, or was instructed.
#[derive(Debug, PartialEq, Eq)]
pub enum Student {
    Add { group: i32, student: i32, name: String },
    Remove { student: i32 },
    Instructed { student: i32, instructed: bool },
}

/// The address under which the listeners connect, and the port on which the
/// server for them listens on this machine. In development the address
/// names the host and the port; behind a proxy it is the path alone.
pub open spec fn endpoint(port: u16, development: bool, address: Seq<char>) -> Seq<char> {
    if development {
        "//"@ + address + ":"@ + crate::text::decimal(port as int) + "/push"@
    } else {
        "/push"@
    }
}

pub fn parameters(port: u16, development: bool, address: &str) -> (r: (Url, u16))
    ensures
        r.0.0@ == endpoint(port, development, address@),
        r.1 == port,
{
    let mut url = String::new();
    if development {
        url.append("//");
        url.append(address);
        url.append(":");
        crate::text::push_decimal(&mut url, port as i64);
        url.append("/push");
        assert(url@ =~= endpoint(port, development, address@));
    } else {
        url.append("/push");
        assert(url@ =~= endpoint(port, development, address@));
    }
    (Url(url), port)
}

} // verus!
