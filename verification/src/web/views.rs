//! What is shown of a group wherever a page lists groups: its students, its
//! tasks with a mark for each that is completed, and the state of its
//! elaboration.
use vstd::prelude::*;
use crate::db::models::{full_name, Group as GroupRow, GroupMapping, Task};
use crate::db::schema::{
    completion_key, elaboration_key, mapping_group, student_id, Tables,
};
use crate::db::store::{
    completion_group_of, completion_task_of, elaboration_experiment_of, elaboration_group_of,
    student_id_of, Database,
};
use crate::db::schema::{
    completion_group, completion_task, elaboration_experiment, elaboration_group,
};
use crate::listing::shown_by;
use crate::relation::{find_pair, has_key, key_is, lemma_the_row, lookup, select_rows, the_row};
use crate::text::{contains_text, occurs_in};
use crate::web::models::Student;

verus! {

/// The entry shows the student of the membership, by their full name.
pub open spec fn shows_member(t: Tables) -> spec_fn(Student, GroupMapping) -> bool {
    |out: Student, m: GroupMapping|
        out.id == m.student_id && out.name@ == ({
            let row = the_row(t.students, student_id(), m.student_id);
            full_name(row.given_name@, row.family_name@)
        })
}

/// The entries show the students of the group, in the order in which they
/// joined.
pub open spec fn are_members(t: Tables, group: i32, out: Seq<Student>) -> bool {
    shown_by(t.group_mappings.filter(key_is(mapping_group(), group)), shows_member(t), out)
}

/// The students of a group, in the order in which they joined.
pub fn members_of(group: i32, conn: &Database) -> (r: Vec<Student>)
    requires
        conn.wf(),
    ensures
        are_members(conn@, group, r@),
{
    let ghost t = conn@;
    let ghost keep = key_is(mapping_group(), group);
    let mappings = select_rows(
        conn.group_mappings(),
        &|m: &GroupMapping| -> (b: bool)
            ensures
                b == keep(*m)
        {
            m.group_id == group
        },
        Ghost(keep),
    );
    proof {
        let at = crate::relation::lemma_filter_positions(t.group_mappings, keep);
        assert forall|i: int| 0 <= i < mappings@.len() implies has_key(
            t.students,
            student_id(),
            (#[trigger] mappings@[i]).student_id,
        ) by {
            assert(mappings@[i] == t.group_mappings[at[i]]);
            assert(has_key(
                t.students,
                student_id(),
                crate::db::schema::mapping_student()(t.group_mappings[at[i]]),
            ));
        }
    }
    let mut out: Vec<Student> = Vec::new();
    let mut i: usize = 0;
    while i < mappings.len()
        invariant
            i <= mappings.len(),
            conn.wf(),
            t == conn@,
            forall|j: int|
                0 <= j < mappings@.len() ==> has_key(
                    t.students,
                    student_id(),
                    (#[trigger] mappings@[j]).student_id,
                ),
            out@.len() == i,
            forall|j: int| 0 <= j < i ==> shows_member(t)(#[trigger] out@[j], mappings@[j]),
        decreases mappings.len() - i,
    {
        let id = mappings[i].student_id;
        let row = lookup(conn.students(), &student_id_of, Ghost(student_id()), id).unwrap();
        out.push(Student { id, name: row.name() });
        i += 1;
    }
    out
}

/// The entry shows the task with a mark that says whether the group has
/// completed it.
pub open spec fn shows_mark(t: Tables, group: i32) -> spec_fn((i32, String, bool), Task) -> bool {
    |out: (i32, String, bool), task: Task|
        out.0 == task.id && out.1 == task.name && out.2 == has_key(
            t.completions,
            completion_key(),
            (group, task.id),
        )
}

/// The tasks, each with a mark that says whether the group has completed it.
pub fn marks_of(group: i32, tasks: &Vec<Task>, conn: &Database) -> (r: Vec<(i32, String, bool)>)
    ensures
        shown_by(tasks@, shows_mark(conn@, group), r@),
{
    let mut out: Vec<(i32, String, bool)> = Vec::new();
    let mut i: usize = 0;
    while i < tasks.len()
        invariant
            i <= tasks.len(),
            out@.len() == i,
            forall|j: int| 0 <= j < i ==> shows_mark(conn@, group)(#[trigger] out@[j], tasks@[j]),
        decreases tasks.len() - i,
    {
        let task = &tasks[i];
        let completed = find_pair(
            conn.completions(),
            &completion_group_of,
            Ghost(completion_group()),
            &completion_task_of,
            Ghost(completion_task()),
            Ghost(completion_key()),
            (group, task.id),
        ).is_some();
        out.push((task.id, task.name.clone(), completed));
        i += 1;
    }
    out
}

/// The state of the elaboration of a group on an experiment: whether it
/// needs a rework and whether it is accepted, if there is an elaboration.
pub open spec fn elaboration_state(t: Tables, group: i32, experiment: i32) -> Option<(bool, bool)> {
    if has_key(t.elaborations, elaboration_key(), (group, experiment)) {
        let row = the_row(t.elaborations, elaboration_key(), (group, experiment));
        Some((row.rework_required, row.accepted))
    } else {
        None
    }
}

/// The state of the elaboration of a group on an experiment.
pub fn elaboration_of(group: i32, experiment: i32, conn: &Database) -> (r: Option<(bool, bool)>)
    requires
        conn.wf(),
    ensures
        r == elaboration_state(conn@, group, experiment),
{
    let rows = conn.elaborations();
    match find_pair(
        rows,
        &elaboration_group_of,
        Ghost(elaboration_group()),
        &elaboration_experiment_of,
        Ghost(elaboration_experiment()),
        Ghost(elaboration_key()),
        (group, experiment),
    ) {
        Some(i) => {
            proof {
                lemma_the_row(rows@, elaboration_key(), i as int);
            }
            Some((rows[i].rework_required, rows[i].accepted))
        },
        None => None,
    }
}

/// A group is out of the course where its comment holds the word `(ENDE)`.
pub open spec fn disqualified(comment: Seq<char>) -> bool {
    occurs_in(comment, "(ENDE)"@)
}

/// Whether a group is out of the course.
pub fn is_disqualified(group: &GroupRow) -> (r: bool)
    ensures
        r == disqualified(group.comment@),
{
    contains_text(group.comment.as_str(), "(ENDE)")
}

} // verus!
