//! From bits to lists: who is eligible to pass, and who owes a rework.
use vstd::prelude::*;
use vstd::relations::sorted_by;
use bit_vec::BitVec;
use super::student::Student;
use crate::bitset::{all_set, any_set, bits_all, bits_any, bits_of};
use crate::db::models::clone_text;
use crate::ordering::{by_key, lemma_same_rows, sort_by_key};

verus! {

/// The two values say the same of a student.
pub open spec fn same_student(a: Student, b: Student) -> bool {
    &&& a.id == b.id
    &&& a.matrikel == b.matrikel
    &&& a.name == b.name
    &&& a.username == b.username
    &&& a.groups@ == b.groups@
    &&& a.instructed == b.instructed
}

/// A copy of a student.
pub fn copy_student(s: &Student) -> (r: Student)
    ensures
        same_student(r, *s),
{
    let groups = s.groups.clone();
    assert(groups@ =~= s.groups@);
    Student {
        id: s.id,
        matrikel: s.matrikel.clone(),
        name: s.name.clone(),
        username: clone_text(&s.username),
        groups,
        instructed: s.instructed,
    }
}

/// The entries are in the strict order of the students' ids.
pub open spec fn by_rising_id(entries: Seq<(Student, BitVec<u32>)>) -> bool {
    forall|i: int, j: int|
        0 <= i < j < entries.len() ==> (#[trigger] entries[i]).0.id < (#[trigger] entries[j]).0.id
}

/// The student has an entry.
pub open spec fn has_entry(entries: Seq<(Student, BitVec<u32>)>, id: i32) -> bool {
    exists|i: int| 0 <= i < entries.len() && (#[trigger] entries[i]).0.id == id
}

/// The student has an entry with every bit set.
pub open spec fn has_all(entries: Seq<(Student, BitVec<u32>)>, id: i32) -> bool {
    exists|i: int|
        0 <= i < entries.len() && (#[trigger] entries[i]).0.id == id && all_set(bits_of(entries[i].1))
}

/// The student has an entry with some bit set.
pub open spec fn has_any(entries: Seq<(Student, BitVec<u32>)>, id: i32) -> bool {
    exists|i: int|
        0 <= i < entries.len() && (#[trigger] entries[i]).0.id == id && any_set(bits_of(entries[i].1))
}

/// Every bit of the student is set. A student without an entry has every
/// bit unset, which leaves no bit unset only where there is no bit at all.
pub open spec fn complete(entries: Seq<(Student, BitVec<u32>)>, width: nat, id: i32) -> bool {
    if has_entry(entries, id) {
        has_all(entries, id)
    } else {
        width == 0
    }
}

/// The student is eligible to pass: they have a record of some kind, every
/// required task is done and an elaboration is accepted for every
/// experiment.
pub open spec fn eligible(
    tasks: Seq<(Student, BitVec<u32>)>,
    task_count: nat,
    elaborations: Seq<(Student, BitVec<u32>)>,
    experiment_count: nat,
    id: i32,
) -> bool {
    &&& has_entry(tasks, id) || has_entry(elaborations, id)
    &&& complete(tasks, task_count, id)
    &&& complete(elaborations, experiment_count, id)
}

/// The student is among the students.
pub open spec fn has_student(students: Seq<Student>, id: i32) -> bool {
    exists|i: int| 0 <= i < students.len() && (#[trigger] students[i]).id == id
}

/// The student is a copy of the student of some entry.
pub open spec fn taken_from(student: Student, entries: Seq<(Student, BitVec<u32>)>) -> bool {
    exists|j: int| 0 <= j < entries.len() && same_student(student, (#[trigger] entries[j]).0)
}

/// The student is a copy of the student of their entry among the
/// elaborations, or, where they have none there, of their entry among the
/// tasks.
pub open spec fn taken_first(
    student: Student,
    elaborations: Seq<(Student, BitVec<u32>)>,
    tasks: Seq<(Student, BitVec<u32>)>,
) -> bool {
    if has_entry(elaborations, student.id) {
        taken_from(student, elaborations)
    } else {
        taken_from(student, tasks)
    }
}

/// No student occurs twice.
pub open spec fn each_once(students: Seq<Student>) -> bool {
    forall|i: int, j: int|
        0 <= i < students.len() && 0 <= j < students.len() && i != j ==> (#[trigger] students[i]).id
            != (#[trigger] students[j]).id
}

/// The position of the entry of a student.
fn find_entry(entries: &Vec<(Student, BitVec<u32>)>, id: i32) -> (r: Option<usize>)
    ensures
        r is Some <==> has_entry(entries@, id),
        r matches Some(i) ==> i < entries.len() && entries@[i as int].0.id == id,
{
    let mut i: usize = 0;
    while i < entries.len()
        invariant
            i <= entries.len(),
            forall|j: int| 0 <= j < i ==> (#[trigger] entries@[j]).0.id != id,
        decreases entries.len() - i,
    {
        if entries[i].0.id == id {
            return Some(i);
        }
        i += 1;
    }
    None
}

/// Whether every bit of the student is set.
fn is_complete(entries: &Vec<(Student, BitVec<u32>)>, width: usize, id: i32) -> (r: bool)
    requires
        by_rising_id(entries@),
    ensures
        r == complete(entries@, width as nat, id),
{
    match find_entry(entries, id) {
        Some(i) => {
            let all = bits_all(&entries[i].1);
            proof {
                if has_all(entries@, id) {
                    let j = choose|j: int|
                        0 <= j < entries@.len() && (#[trigger] entries@[j]).0.id == id && all_set(
                            bits_of(entries@[j].1),
                        );
                    assert(j == i);
                }
            }
            all
        },
        None => width == 0,
    }
}

/// The students who are eligible to pass, each once. A student who has an
/// entry among the elaborations is taken from there, the others from the
/// tasks.
pub fn eligible_students(
    tasks: &Vec<(Student, BitVec<u32>)>,
    task_count: usize,
    elaborations: &Vec<(Student, BitVec<u32>)>,
    experiment_count: usize,
) -> (r: Vec<Student>)
    requires
        by_rising_id(tasks@),
        by_rising_id(elaborations@),
    ensures
        each_once(r@),
        forall|id: i32|
            has_student(r@, id) <==> eligible(
                tasks@,
                task_count as nat,
                elaborations@,
                experiment_count as nat,
                id,
            ),
        forall|i: int| 0 <= i < r@.len() ==> taken_first(#[trigger] r@[i], elaborations@, tasks@),
{
    let ghost tc = task_count as nat;
    let ghost ec = experiment_count as nat;
    let mut out: Vec<Student> = Vec::new();
    let mut i: usize = 0;
    while i < elaborations.len()
        invariant
            i <= elaborations.len(),
            tc == task_count,
            ec == experiment_count,
            by_rising_id(tasks@),
            by_rising_id(elaborations@),
            each_once(out@),
            forall|n: int| 0 <= n < out@.len() ==> has_entry(elaborations@.take(i as int), (#[trigger] out@[n]).id),
            forall|id: i32|
                has_student(out@, id) <==> has_entry(elaborations@.take(i as int), id) && eligible(
                    tasks@,
                    tc,
                    elaborations@,
                    ec,
                    id,
                ),
            forall|n: int| 0 <= n < out@.len() ==> taken_from(#[trigger] out@[n], elaborations@),
        decreases elaborations.len() - i,
    {
        let entry = &elaborations[i];
        let id = entry.0.id;
        let ghost before = out@;
        let ghost seen = elaborations@.take(i as int);
        let ghost more = elaborations@.take(i + 1);
        let all = bits_all(&entry.1);
        let done = is_complete(tasks, task_count, id);
        proof {
            assert(more =~= seen.push(elaborations@[i as int]));
            assert(has_entry(elaborations@, id));
            if all {
                assert(elaborations@[i as int].0.id == id && all_set(bits_of(elaborations@[i as int].1)));
                assert(has_all(elaborations@, id));
            }
            if has_all(elaborations@, id) {
                let j = choose|j: int|
                    0 <= j < elaborations@.len() && (#[trigger] elaborations@[j]).0.id == id
                        && all_set(bits_of(elaborations@[j].1));
                assert(j == i);
            }
            if has_entry(seen, id) {
                let j = choose|j: int| 0 <= j < seen.len() && (#[trigger] seen[j]).0.id == id;
                assert(elaborations@[j].0.id == id);
            }
        }
        if all && done {
            out.push(copy_student(&entry.0));
            proof {
                assert(same_student(out@[before.len() as int], elaborations@[i as int].0));
                assert forall|a: int, b: int|
                    0 <= a < out@.len() && 0 <= b < out@.len() && a != b implies (#[trigger] out@[a]).id
                    != (#[trigger] out@[b]).id by {
                    if a < before.len() {
                        assert(out@[a] == before[a]);
                    }
                    if b < before.len() {
                        assert(out@[b] == before[b]);
                    }
                }
            }
        }
        proof {
            assert forall|n: int| 0 <= n < out@.len() implies has_entry(more, (#[trigger] out@[n]).id) by {
                if n < before.len() {
                    assert(out@[n] == before[n]);
                    let j = choose|j: int| 0 <= j < seen.len() && (#[trigger] seen[j]).0.id == before[n].id;
                    assert(more[j] == seen[j]);
                } else {
                    assert(more[i as int].0.id == id);
                }
            }
            assert forall|x: i32|
                has_student(out@, x) <==> has_entry(more, x) && eligible(tasks@, tc, elaborations@, ec, x) by {
                if has_student(before, x) {
                    let n = choose|n: int| 0 <= n < before.len() && (#[trigger] before[n]).id == x;
                    assert(out@[n] == before[n]);
                    let j = choose|j: int| 0 <= j < seen.len() && (#[trigger] seen[j]).0.id == x;
                    assert(more[j] == seen[j]);
                }
                if has_student(out@, x) {
                    let n = choose|n: int| 0 <= n < out@.len() && (#[trigger] out@[n]).id == x;
                    if n < before.len() {
                        assert(out@[n] == before[n]);
                    }
                }
                if has_entry(more, x) && eligible(tasks@, tc, elaborations@, ec, x) {
                    let j = choose|j: int| 0 <= j < more.len() && (#[trigger] more[j]).0.id == x;
                    if j < i {
                        assert(seen[j] == more[j]);
                        let n = choose|n: int| 0 <= n < before.len() && (#[trigger] before[n]).id == x;
                        assert(out@[n] == before[n]);
                    } else {
                        assert(out@[before.len() as int].id == x);
                    }
                }
            }
            assert forall|n: int| 0 <= n < out@.len() implies taken_from(
                #[trigger] out@[n],
                elaborations@,
            ) by {
                if n < before.len() {
                    assert(out@[n] == before[n]);
                } else {
                    assert(same_student(out@[n], elaborations@[i as int].0));
                }
            }
        }
        i += 1;
    }
    assert(elaborations@.take(elaborations.len() as int) =~= elaborations@);
    assert forall|n: int| 0 <= n < out@.len() implies taken_first(#[trigger] out@[n], elaborations@, tasks@) by {
        assert(has_entry(elaborations@, out@[n].id));
    }
    let ghost first = out@;
    let mut k: usize = 0;
    while k < tasks.len()
        invariant
            k <= tasks.len(),
            tc == task_count,
            ec == experiment_count,
            by_rising_id(tasks@),
            by_rising_id(elaborations@),
            each_once(out@),
            forall|id: i32|
                #[trigger] has_student(out@, id) <==> (has_entry(elaborations@, id) || has_entry(
                    tasks@.take(k as int),
                    id,
                )) && eligible(tasks@, tc, elaborations@, ec, id),
            forall|n: int| 0 <= n < out@.len() ==> taken_first(#[trigger] out@[n], elaborations@, tasks@),
        decreases tasks.len() - k,
    {
        let entry = &tasks[k];
        let id = entry.0.id;
        let ghost before = out@;
        let ghost seen = tasks@.take(k as int);
        let ghost more = tasks@.take(k + 1);
        let all = bits_all(&entry.1);
        let listed = find_entry(elaborations, id).is_some();
        proof {
            assert(more =~= seen.push(tasks@[k as int]));
            assert(has_entry(tasks@, id));
            if all {
                assert(tasks@[k as int].0.id == id && all_set(bits_of(tasks@[k as int].1)));
                assert(has_all(tasks@, id));
            }
            if has_all(tasks@, id) {
                let j = choose|j: int|
                    0 <= j < tasks@.len() && (#[trigger] tasks@[j]).0.id == id && all_set(
                        bits_of(tasks@[j].1),
                    );
                assert(j == k);
            }
            if has_entry(seen, id) {
                let j = choose|j: int| 0 <= j < seen.len() && (#[trigger] seen[j]).0.id == id;
                assert(tasks@[j].0.id == id);
            }
        }
        if !listed && all && experiment_count == 0 {
            out.push(copy_student(&entry.0));
            proof {
                assert(same_student(out@[before.len() as int], tasks@[k as int].0));
                assert forall|a: int, b: int|
                    0 <= a < out@.len() && 0 <= b < out@.len() && a != b implies (#[trigger] out@[a]).id
                    != (#[trigger] out@[b]).id by {
                    if a < before.len() {
                        assert(out@[a] == before[a]);
                        assert(has_student(before, before[a].id));
                    }
                    if b < before.len() {
                        assert(out@[b] == before[b]);
                        assert(has_student(before, before[b].id));
                    }
                }
            }
        }
        proof {
            assert forall|x: i32|
                #[trigger] has_student(out@, x) <==> (has_entry(elaborations@, x) || has_entry(more, x))
                    && eligible(tasks@, tc, elaborations@, ec, x) by {
                if has_student(before, x) {
                    let n = choose|n: int| 0 <= n < before.len() && (#[trigger] before[n]).id == x;
                    assert(out@[n] == before[n]);
                    if has_entry(seen, x) {
                        let j = choose|j: int| 0 <= j < seen.len() && (#[trigger] seen[j]).0.id == x;
                        assert(more[j] == seen[j]);
                    }
                }
                if has_student(out@, x) {
                    let n = choose|n: int| 0 <= n < out@.len() && (#[trigger] out@[n]).id == x;
                    if n < before.len() {
                        assert(out@[n] == before[n]);
                    } else {
                        assert(more[k as int].0.id == x);
                    }
                }
                if (has_entry(elaborations@, x) || has_entry(more, x)) && eligible(
                    tasks@,
                    tc,
                    elaborations@,
                    ec,
                    x,
                ) {
                    if has_entry(elaborations@, x) {
                        let n = choose|n: int| 0 <= n < before.len() && (#[trigger] before[n]).id == x;
                        assert(out@[n] == before[n]);
                    } else {
                        let j = choose|j: int| 0 <= j < more.len() && (#[trigger] more[j]).0.id == x;
                        if j < k {
                            assert(seen[j] == more[j]);
                            let n = choose|n: int| 0 <= n < before.len() && (#[trigger] before[n]).id == x;
                            assert(out@[n] == before[n]);
                        } else {
                            assert(out@[before.len() as int].id == x);
                        }
                    }
                }
            }
            assert forall|n: int| 0 <= n < out@.len() implies taken_first(
                #[trigger] out@[n],
                elaborations@,
                tasks@,
            ) by {
                if n < before.len() {
                    assert(out@[n] == before[n]);
                } else {
                    assert(same_student(out@[n], tasks@[k as int].0));
                    assert(!has_entry(elaborations@, out@[n].id));
                }
            }
        }
        k += 1;
    }
    assert(tasks@.take(tasks.len() as int) =~= tasks@);
    out
}

/// The students whose bits are all set, in the order of the entries.
pub fn students_with_all(entries: &Vec<(Student, BitVec<u32>)>) -> (r: Vec<Student>)
    requires
        by_rising_id(entries@),
    ensures
        each_once(r@),
        forall|id: i32| #[trigger] has_student(r@, id) <==> has_all(entries@, id),
        forall|i: int| 0 <= i < r@.len() ==> taken_from(#[trigger] r@[i], entries@),
{
    select_students(entries, true)
}

/// The students of whose bits one is set, in the order of the entries.
pub fn students_with_any(entries: &Vec<(Student, BitVec<u32>)>) -> (r: Vec<Student>)
    requires
        by_rising_id(entries@),
    ensures
        each_once(r@),
        forall|id: i32| #[trigger] has_student(r@, id) <==> has_any(entries@, id),
        forall|i: int| 0 <= i < r@.len() ==> taken_from(#[trigger] r@[i], entries@),
{
    select_students(entries, false)
}

/// The bits pass the test: all are set, or one is.
pub open spec fn passes_test(bits: Seq<bool>, all: bool) -> bool {
    if all {
        all_set(bits)
    } else {
        any_set(bits)
    }
}

/// The student has an entry whose bits pass the test.
pub open spec fn has_passing(entries: Seq<(Student, BitVec<u32>)>, all: bool, id: i32) -> bool {
    exists|i: int|
        0 <= i < entries.len() && (#[trigger] entries[i]).0.id == id && passes_test(
            bits_of(entries[i].1),
            all,
        )
}

fn select_students(entries: &Vec<(Student, BitVec<u32>)>, all: bool) -> (r: Vec<Student>)
    requires
        by_rising_id(entries@),
    ensures
        each_once(r@),
        forall|id: i32| #[trigger] has_student(r@, id) <==> has_passing(entries@, all, id),
        forall|i: int| 0 <= i < r@.len() ==> taken_from(#[trigger] r@[i], entries@),
{
    let mut out: Vec<Student> = Vec::new();
    let mut i: usize = 0;
    while i < entries.len()
        invariant
            i <= entries.len(),
            by_rising_id(entries@),
            each_once(out@),
            forall|id: i32|
                #[trigger] has_student(out@, id) <==> has_passing(entries@.take(i as int), all, id),
            forall|n: int| 0 <= n < out@.len() ==> taken_from(#[trigger] out@[n], entries@),
        decreases entries.len() - i,
    {
        let entry = &entries[i];
        let ghost before = out@;
        let ghost seen = entries@.take(i as int);
        let ghost more = entries@.take(i + 1);
        let pass = if all {
            bits_all(&entry.1)
        } else {
            bits_any(&entry.1)
        };
        proof {
            assert(more =~= seen.push(entries@[i as int]));
        }
        if pass {
            out.push(copy_student(&entry.0));
            proof {
                assert(same_student(out@[before.len() as int], entries@[i as int].0));
                assert forall|a: int, b: int|
                    0 <= a < out@.len() && 0 <= b < out@.len() && a != b implies (#[trigger] out@[a]).id
                    != (#[trigger] out@[b]).id by {
                    if a < before.len() {
                        assert(out@[a] == before[a]);
                        assert(has_student(before, before[a].id));
                        let j = choose|j: int|
                            0 <= j < seen.len() && (#[trigger] seen[j]).0.id == before[a].id
                                && passes_test(bits_of(seen[j].1), all);
                        assert(entries@[j] == seen[j]);
                    }
                    if b < before.len() {
                        assert(out@[b] == before[b]);
                        assert(has_student(before, before[b].id));
                        let j = choose|j: int|
                            0 <= j < seen.len() && (#[trigger] seen[j]).0.id == before[b].id
                                && passes_test(bits_of(seen[j].1), all);
                        assert(entries@[j] == seen[j]);
                    }
                }
            }
        }
        proof {
            assert forall|x: i32| #[trigger] has_student(out@, x) <==> has_passing(more, all, x) by {
                if has_student(before, x) {
                    let n = choose|n: int| 0 <= n < before.len() && (#[trigger] before[n]).id == x;
                    assert(out@[n] == before[n]);
                    let j = choose|j: int|
                        0 <= j < seen.len() && (#[trigger] seen[j]).0.id == x && passes_test(
                            bits_of(seen[j].1),
                            all,
                        );
                    assert(more[j] == seen[j]);
                }
                if has_student(out@, x) {
                    let n = choose|n: int| 0 <= n < out@.len() && (#[trigger] out@[n]).id == x;
                    if n < before.len() {
                        assert(out@[n] == before[n]);
                    } else {
                        assert(more[i as int].0.id == x);
                    }
                }
                if has_passing(more, all, x) {
                    let j = choose|j: int|
                        0 <= j < more.len() && (#[trigger] more[j]).0.id == x && passes_test(
                            bits_of(more[j].1),
                            all,
                        );
                    if j < i {
                        assert(seen[j] == more[j]);
                        assert(has_passing(seen, all, x));
                        let n = choose|n: int| 0 <= n < before.len() && (#[trigger] before[n]).id == x;
                        assert(out@[n] == before[n]);
                    } else {
                        assert(out@[before.len() as int].id == x);
                    }
                }
            }
            assert forall|n: int| 0 <= n < out@.len() implies taken_from(#[trigger] out@[n], entries@) by {
                if n < before.len() {
                    assert(out@[n] == before[n]);
                } else {
                    assert(same_student(out@[n], entries@[i as int].0));
                }
            }
        }
        i += 1;
    }
    assert(entries@.take(entries.len() as int) =~= entries@);
    out
}

/// The position of a student among the students.
fn find_student(students: &Vec<Student>, id: i32) -> (r: Option<usize>)
    ensures
        r is Some <==> has_student(students@, id),
        r matches Some(i) ==> i < students.len() && students@[i as int].id == id,
{
    let mut i: usize = 0;
    while i < students.len()
        invariant
            i <= students.len(),
            forall|j: int| 0 <= j < i ==> (#[trigger] students@[j]).id != id,
        decreases students.len() - i,
    {
        if students[i].id == id {
            return Some(i);
        }
        i += 1;
    }
    None
}

/// The student is a copy of one of the students.
pub open spec fn copied_from(student: Student, students: Seq<Student>) -> bool {
    exists|j: int| 0 <= j < students.len() && same_student(student, #[trigger] students[j])
}

/// `both` holds the students that are in `left` and in `right`, as `left`
/// has them.
pub open spec fn is_intersection(left: Seq<Student>, right: Seq<Student>, both: Seq<Student>) -> bool {
    &&& forall|id: i32|
        #[trigger] has_student(both, id) <==> has_student(left, id) && has_student(right, id)
    &&& forall|i: int| 0 <= i < both.len() ==> copied_from(#[trigger] both[i], left)
}

/// The students that are in both lists, by id, in the order and with the
/// data of the first.
pub fn intersection(left: &Vec<Student>, right: &Vec<Student>) -> (r: Vec<Student>)
    requires
        each_once(left@),
    ensures
        is_intersection(left@, right@, r@),
        each_once(r@),
{
    let mut out: Vec<Student> = Vec::new();
    let mut i: usize = 0;
    while i < left.len()
        invariant
            i <= left.len(),
            each_once(left@),
            each_once(out@),
            forall|id: i32|
                #[trigger] has_student(out@, id) <==> has_student(left@.take(i as int), id) && has_student(
                    right@,
                    id,
                ),
            forall|n: int| 0 <= n < out@.len() ==> copied_from(#[trigger] out@[n], left@),
        decreases left.len() - i,
    {
        let ghost before = out@;
        let ghost seen = left@.take(i as int);
        let ghost more = left@.take(i + 1);
        let id = left[i].id;
        proof {
            assert(more =~= seen.push(left@[i as int]));
            if has_student(seen, id) {
                let j = choose|j: int| 0 <= j < seen.len() && (#[trigger] seen[j]).id == id;
                assert(left@[j] == seen[j]);
            }
        }
        if find_student(right, id).is_some() {
            out.push(copy_student(&left[i]));
            proof {
                assert(same_student(out@[before.len() as int], left@[i as int]));
                assert forall|a: int, b: int|
                    0 <= a < out@.len() && 0 <= b < out@.len() && a != b implies (#[trigger] out@[a]).id
                    != (#[trigger] out@[b]).id by {
                    if a < before.len() {
                        assert(out@[a] == before[a]);
                        assert(has_student(before, before[a].id));
                    }
                    if b < before.len() {
                        assert(out@[b] == before[b]);
                        assert(has_student(before, before[b].id));
                    }
                }
            }
        }
        proof {
            assert forall|x: i32|
                #[trigger] has_student(out@, x) <==> has_student(more, x) && has_student(right@, x) by {
                if has_student(before, x) {
                    let n = choose|n: int| 0 <= n < before.len() && (#[trigger] before[n]).id == x;
                    assert(out@[n] == before[n]);
                    let j = choose|j: int| 0 <= j < seen.len() && (#[trigger] seen[j]).id == x;
                    assert(more[j] == seen[j]);
                }
                if has_student(out@, x) {
                    let n = choose|n: int| 0 <= n < out@.len() && (#[trigger] out@[n]).id == x;
                    if n < before.len() {
                        assert(out@[n] == before[n]);
                    } else {
                        assert(more[i as int].id == x);
                    }
                }
                if has_student(more, x) && has_student(right@, x) {
                    let j = choose|j: int| 0 <= j < more.len() && (#[trigger] more[j]).id == x;
                    if j < i {
                        assert(seen[j] == more[j]);
                        let n = choose|n: int| 0 <= n < before.len() && (#[trigger] before[n]).id == x;
                        assert(out@[n] == before[n]);
                    } else {
                        assert(out@[before.len() as int].id == x);
                    }
                }
            }
            assert forall|n: int| 0 <= n < out@.len() implies copied_from(#[trigger] out@[n], left@) by {
                if n < before.len() {
                    assert(out@[n] == before[n]);
                } else {
                    assert(same_student(out@[n], left@[i as int]));
                }
            }
        }
        i += 1;
    }
    assert(left@.take(left.len() as int) =~= left@);
    out
}

/// The intersection holds the same students whichever list comes first.
pub proof fn lemma_intersection_commutes(
    a: Seq<Student>,
    b: Seq<Student>,
    ab: Seq<Student>,
    ba: Seq<Student>,
)
    requires
        is_intersection(a, b, ab),
        is_intersection(b, a, ba),
    ensures
        forall|id: i32| has_student(ab, id) <==> has_student(ba, id),
{
    assert forall|id: i32| has_student(ab, id) <==> has_student(ba, id) by {
        assert(has_student(ab, id) <==> has_student(a, id) && has_student(b, id));
        assert(has_student(ba, id) <==> has_student(b, id) && has_student(a, id));
    }
}

/// The order in which a list of students is shown: by the largest of the
/// student's groups, students without a group first, then by id. Students
/// of one group thus stand together.
pub open spec fn display_order() -> spec_fn(Student) -> Seq<i128> {
    |s: Student|
        match s.spec_last_group() {
            None => seq![0i128, s.id as i128],
            Some(g) => seq![1i128, g as i128, s.id as i128],
        }
}

fn display_order_of(s: &Student) -> (k: Vec<i128>)
    ensures
        k@ == display_order()(*s),
{
    let mut k: Vec<i128> = Vec::new();
    match s.last_group() {
        None => {
            k.push(0);
            k.push(s.id as i128);
            assert(k@ =~= seq![0i128, s.id as i128]);
        },
        Some(g) => {
            k.push(1);
            k.push(g as i128);
            k.push(s.id as i128);
            assert(k@ =~= seq![1i128, g as i128, s.id as i128]);
        },
    }
    k
}

/// The students in the order in which they are shown.
pub fn in_display_order(students: Vec<Student>) -> (r: Vec<Student>)
    ensures
        sorted_by(r@, by_key(display_order())),
        r@.to_multiset() == students@.to_multiset(),
{
    sort_by_key(students, &display_order_of, Ghost(display_order()))
}

/// A list in another order holds the same students, each as often.
pub proof fn lemma_reordered_students(a: Seq<Student>, b: Seq<Student>)
    requires
        a.to_multiset() == b.to_multiset(),
    ensures
        forall|id: i32| has_student(a, id) <==> has_student(b, id),
        each_once(a) ==> each_once(b),
        forall|i: int| 0 <= i < b.len() ==> a.contains(#[trigger] b[i]),
{
    lemma_same_rows(a, b);
    assert forall|id: i32| has_student(a, id) <==> has_student(b, id) by {
        if has_student(a, id) {
            let i = choose|i: int| 0 <= i < a.len() && (#[trigger] a[i]).id == id;
            assert(a.contains(a[i]));
            let j = choose|j: int| 0 <= j < b.len() && b[j] == a[i];
            assert(b[j].id == id);
        }
        if has_student(b, id) {
            let i = choose|i: int| 0 <= i < b.len() && (#[trigger] b[i]).id == id;
            assert(b.contains(b[i]));
            let j = choose|j: int| 0 <= j < a.len() && a[j] == b[i];
            assert(a[j].id == id);
        }
    }
    if each_once(a) {
        crate::ordering::lemma_reordered_distinct(a, b, |s: Student| s.id);
    }
    assert forall|i: int| 0 <= i < b.len() implies a.contains(#[trigger] b[i]) by {
        assert(b.contains(b[i]));
    }
}

} // verus!
