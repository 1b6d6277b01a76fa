//! From marks to bits: which students of a year have a record through one of
//! their groups, and at which positions.
use vstd::prelude::*;

use bit_vec::BitVec;
use super::student::Student;
use crate::bitset::{bits_new, bits_of, bits_set};
use crate::db::models::{clone_text, full_name};
use crate::db::schema::{student_id, Tables};
use crate::db::store::{student_id_of, Database};
use crate::grouping::{
    are_runs, flatten, lemma_row_in_run, lemma_run_keys_rise, lemma_run_rows, run_start,
    runs_by_key,
};
use crate::ordering::{by_key, lex_le, sort_by_key};
use crate::relation::find_key;

verus! {

/// That a group has a record, and the position of the record in the index of
/// the analysis, if it has one there.
#[derive(Debug, Clone, Copy, PartialEq, Eq, Structural)]
pub struct Mark {
    pub group_id: i32,
    pub position: Option<usize>,
}

/// The membership `m` and the mark `k` tie the student to a record.
pub open spec fn links(t: Tables, marks: Seq<Mark>, student: i32, m: int, k: int) -> bool {
    &&& 0 <= m < t.group_mappings.len()
    &&& 0 <= k < marks.len()
    &&& t.group_mappings[m].student_id == student
    &&& marks[k].group_id == t.group_mappings[m].group_id
}

/// The mark lies at the position `p` of an index of `width` positions.
pub open spec fn lies_at(mark: Mark, width: nat, p: int) -> bool {
    &&& 0 <= p < width
    &&& mark.position matches Some(q)
    &&& q == p
}

/// The student has a record through one of their groups.
pub open spec fn marked(t: Tables, marks: Seq<Mark>, student: i32) -> bool {
    exists|m: int, k: int| #[trigger] links(t, marks, student, m, k)
}

/// The student has a record at the position `p`.
pub open spec fn marked_at(t: Tables, marks: Seq<Mark>, width: nat, student: i32, p: int) -> bool {
    exists|m: int, k: int| #[trigger] links(t, marks, student, m, k) && lies_at(marks[k], width, p)
}

/// The student has, through the group, a record at some position.
pub open spec fn marked_in(
    t: Tables,
    marks: Seq<Mark>,
    width: nat,
    student: i32,
    group: i32,
) -> bool {
    exists|m: int, k: int, p: int|
        #[trigger] links(t, marks, student, m, k) && marks[k].group_id == group && #[trigger] lies_at(
            marks[k],
            width,
            p,
        )
}

/// The numbers rise strictly.
pub open spec fn rising(ids: Seq<i32>) -> bool {
    forall|i: int, j: int| 0 <= i < j < ids.len() ==> ids[i] < ids[j]
}

/// The entry reports the student at `s` of the store: their data, a bit at
/// exactly the positions at which they have a record, and the groups through
/// which they have one.
pub open spec fn reports(
    t: Tables,
    marks: Seq<Mark>,
    width: nat,
    entry: (Student, BitVec<u32>),
    s: int,
) -> bool {
    let row = t.students[s];
    let student = entry.0;
    let bits = bits_of(entry.1);
    &&& student.id == row.id
    &&& student.matrikel == row.matrikel
    &&& student.name@ == full_name(row.given_name@, row.family_name@)
    &&& student.username == row.username
    &&& student.instructed == row.instructed
    &&& bits.len() == width
    &&& forall|p: int| 0 <= p < width ==> (#[trigger] bits[p] <==> marked_at(t, marks, width, row.id, p))
    &&& rising(student.groups@)
    &&& forall|g: i32| #[trigger]
        student.groups@.contains(g) <==> marked_in(t, marks, width, row.id, g)
}

/// The entry reports a student of the year who has a record.
pub open spec fn reported(
    t: Tables,
    year: i16,
    marks: Seq<Mark>,
    width: nat,
    entry: (Student, BitVec<u32>),
) -> bool {
    exists|s: int|
        0 <= s < t.students.len() && t.students[s].year == year && marked(
            t,
            marks,
            t.students[s].id,
        ) && #[trigger] reports(t, marks, width, entry, s)
}

/// The entries summarize the marks for a year: one entry for each student of
/// the year who has a record, in the order of the students' ids. A student
/// without any record has no entry.
#[verifier::opaque]
pub open spec fn summarizes(
    t: Tables,
    year: i16,
    marks: Seq<Mark>,
    width: nat,
    out: Seq<(Student, BitVec<u32>)>,
) -> bool {
    &&& forall|i: int, j: int| 0 <= i < j < out.len() ==> (#[trigger] out[i]).0.id < (#[trigger] out[j]).0.id
    &&& forall|i: int| 0 <= i < out.len() ==> reported(t, year, marks, width, #[trigger] out[i])
    &&& forall|s: int|
        0 <= s < t.students.len() && t.students[s].year == year && marked(
            t,
            marks,
            (#[trigger] t.students[s]).id,
        ) ==> exists|i: int| 0 <= i < out.len() && (#[trigger] out[i]).0.id == t.students[s].id
}

/// A row of the join of students, memberships and marks, by position in
/// each.
#[derive(Clone, Copy)]
pub struct Joined {
    pub student: usize,
    pub mapping: usize,
    pub mark: usize,
}

/// The row joins a student of the year with one of their records.
pub open spec fn joins(t: Tables, year: i16, marks: Seq<Mark>, row: (i32, Joined)) -> bool {
    &&& row.1.student < t.students.len()
    &&& t.students[row.1.student as int].year == year
    &&& t.students[row.1.student as int].id == row.0
    &&& links(t, marks, row.0, row.1.mapping as int, row.1.mark as int)
}

/// Every row is one of the join.
pub open spec fn all_join(t: Tables, year: i16, marks: Seq<Mark>, rows: Seq<(i32, Joined)>) -> bool {
    forall|i: int| 0 <= i < rows.len() ==> joins(t, year, marks, #[trigger] rows[i])
}

/// Every row of the join whose membership is before `upto` is among the
/// rows.
pub open spec fn join_covers(
    t: Tables,
    year: i16,
    marks: Seq<Mark>,
    rows: Seq<(i32, Joined)>,
    upto: int,
) -> bool {
    forall|s: int, m: int, k: int|
        0 <= s < t.students.len() && t.students[s].year == year && m < upto && #[trigger] links(
            t,
            marks,
            (#[trigger] t.students[s]).id,
            m,
            k,
        ) ==> rows.contains(
            (
                t.students[s].id,
                Joined { student: s as usize, mapping: m as usize, mark: k as usize },
            ),
        )
}

/// The join of the students of a year with their memberships and the marks
/// of their groups.
fn join_marks(year: i16, marks: &Vec<Mark>, conn: &Database) -> (rows: Vec<(i32, Joined)>)
    requires
        conn.wf(),
    ensures
        all_join(conn@, year, marks@, rows@),
        join_covers(conn@, year, marks@, rows@, conn@.group_mappings.len() as int),
{
    let ghost t = conn@;
    let students = conn.students();
    let mappings = conn.group_mappings();
    let mut rows: Vec<(i32, Joined)> = Vec::new();
    let mut m: usize = 0;
    while m < mappings.len()
        invariant
            m <= mappings.len(),
            conn.wf(),
            t == conn@,
            students@ == t.students,
            mappings@ == t.group_mappings,
            all_join(t, year, marks@, rows@),
            join_covers(t, year, marks@, rows@, m as int),
        decreases mappings.len() - m,
    {
        let mapping = mappings[m];
        let found = find_key(students, &student_id_of, Ghost(student_id()), mapping.student_id);
        let ghost before = rows@;
        match found {
            Some(s) => {
                if students[s].year == year {
                    let mut k: usize = 0;
                    while k < marks.len()
                        invariant
                            k <= marks.len(),
                            m < mappings.len(),
                            s < students.len(),
                            students@ == t.students,
                            mappings@ == t.group_mappings,
                            mapping == mappings@[m as int],
                            students@[s as int].id == mapping.student_id,
                            students@[s as int].year == year,
                            all_join(t, year, marks@, rows@),
                            forall|x: (i32, Joined)| before.contains(x) ==> rows@.contains(x),
                            forall|j: int|
                                0 <= j < k && (#[trigger] marks@[j]).group_id == mapping.group_id
                                    ==> rows@.contains(
                                    (mapping.student_id, Joined { student: s, mapping: m, mark: j as usize }),
                                ),
                        decreases marks.len() - k,
                    {
                        if marks[k].group_id == mapping.group_id {
                            let row = (mapping.student_id, Joined { student: s, mapping: m, mark: k });
                            let ghost old_rows = rows@;
                            rows.push(row);
                            proof {
                                assert(links(t, marks@, row.0, m as int, k as int));
                                assert forall|x: (i32, Joined)| old_rows.contains(x) implies rows@.contains(
                                    x,
                                ) by {
                                    let i = choose|i: int| 0 <= i < old_rows.len() && old_rows[i] == x;
                                    assert(rows@[i] == x);
                                }
                                assert(rows@[rows@.len() - 1] == row);
                            }
                        }
                        k += 1;
                    }
                }
            },
            None => {},
        }
        proof {
            assert forall|s2: int, m2: int, k2: int|
                0 <= s2 < t.students.len() && t.students[s2].year == year && m2 < m + 1
                    && #[trigger] links(t, marks@, (#[trigger] t.students[s2]).id, m2, k2) implies rows@.contains(
                (t.students[s2].id, Joined { student: s2 as usize, mapping: m2 as usize, mark: k2 as usize }),
            ) by {
                if m2 < m {
                    assert(before.contains(
                        (
                            t.students[s2].id,
                            Joined { student: s2 as usize, mapping: m2 as usize, mark: k2 as usize },
                        ),
                    ));
                } else {
                    assert(found is Some);
                    let s = found->Some_0;
                    assert(student_id()(t.students[s2]) == student_id()(t.students[s as int]));
                    assert(s2 == s);
                }
            }
        }
        m += 1;
    }
    rows
}

/// The key of a joined row: the id of its student.
pub open spec fn joined_key() -> spec_fn((i32, Joined)) -> Seq<i128> {
    |row: (i32, Joined)| seq![row.0 as i128]
}

fn joined_key_of(row: &(i32, Joined)) -> (k: Vec<i128>)
    ensures
        k@ == joined_key()(*row),
{
    let mut k: Vec<i128> = Vec::new();
    k.push(row.0 as i128);
    assert(k@ =~= seq![row.0 as i128]);
    k
}

/// Puts `id` at its place among rising numbers, unless it is there.
pub fn insert_rising(ids: &mut Vec<i32>, id: i32)
    requires
        rising(old(ids)@),
    ensures
        rising(final(ids)@),
        forall|x: i32| final(ids)@.contains(x) <==> old(ids)@.contains(x) || x == id,
{
    let mut at: usize = 0;
    while at < ids.len() && ids[at] < id
        invariant
            at <= ids.len(),
            ids@ == old(ids)@,
            forall|j: int| 0 <= j < at ==> ids@[j] < id,
        decreases ids.len() - at,
    {
        at += 1;
    }
    if at < ids.len() && ids[at] == id {
        return ;
    }
    let ghost before = ids@;
    ids.insert(at, id);
    proof {
        let after = ids@;
        assert forall|x: i32| after.contains(x) <==> before.contains(x) || x == id by {
            if before.contains(x) {
                let j = choose|j: int| 0 <= j < before.len() && before[j] == x;
                if j < at {
                    assert(after[j] == x);
                } else {
                    assert(after[j + 1] == x);
                }
            }
            if x == id {
                assert(after[at as int] == x);
            }
            if after.contains(x) {
                let j = choose|j: int| 0 <= j < after.len() && after[j] == x;
                if j < at {
                    assert(before[j] == x);
                } else if j > at {
                    assert(before[j - 1] == x);
                }
            }
        }
    }
}

/// One entry for each student of the year who has a record, in the order of
/// the students' ids, with a bit at each position at which the student has a
/// record.
pub fn summarize(year: i16, marks: &Vec<Mark>, width: usize, conn: &Database) -> (out: Vec<
    (Student, BitVec<u32>),
>)
    requires
        conn.wf(),
    ensures
        summarizes(conn@, year, marks@, width as nat, out@),
{
    let ghost t = conn@;
    let ghost w = width as nat;
    let joined = join_marks(year, marks, conn);
    let sorted = sort_by_key(joined, &joined_key_of, Ghost(joined_key()));
    proof {
        sorted@.to_multiset_ensures();
        joined@.to_multiset_ensures();
        assert forall|x: (i32, Joined)| sorted@.contains(x) <==> joined@.contains(x) by {
            assert(sorted@.to_multiset().count(x) == joined@.to_multiset().count(x));
        }
        assert forall|i: int| 0 <= i < sorted@.len() implies joins(t, year, marks@, #[trigger] sorted@[i]) by {
            assert(sorted@.contains(sorted@[i]));
            let j = choose|j: int| 0 <= j < joined@.len() && joined@[j] == sorted@[i];
        }
        assert forall|i: int, j: int| 0 <= i < j < sorted@.len() implies (#[trigger] sorted@[i]).0 <= (
        #[trigger] sorted@[j]).0 by {
            assert(by_key(joined_key())(sorted@[i], sorted@[j]));
            let a = joined_key()(sorted@[i]);
            let b = joined_key()(sorted@[j]);
            assert(a.drop_first() =~= Seq::<i128>::empty());
            assert(lex_le(a.drop_first(), b.drop_first()));
        }
    }
    let ghost rows = sorted@;
    let runs = runs_by_key(sorted);
    let mappings = conn.group_mappings();
    assert(t.group_mappings.len() == mappings.len());
    assert(marks@.len() == marks.len());
    let students = conn.students();
    let mut out: Vec<(Student, BitVec<u32>)> = Vec::new();
    let mut c: usize = 0;
    while c < runs.len()
        invariant
            c <= runs.len(),
            conn.wf(),
            t == conn@,
            w == width,
            students@ == t.students,
            t.group_mappings.len() <= usize::MAX,
            marks@.len() <= usize::MAX,
            flatten(runs@) == rows,
            are_runs(runs@),
            all_join(t, year, marks@, rows),
            join_covers(t, year, marks@, rows, t.group_mappings.len() as int),
            forall|i: int, j: int| 0 <= i < j < rows.len() ==> (#[trigger] rows[i]).0 <= (#[trigger] rows[j]).0,
            out@.len() == c,
            forall|i: int| 0 <= i < c ==> (#[trigger] out@[i]).0.id == runs@[i].0,
            forall|i: int| 0 <= i < c ==> reported(t, year, marks@, w, #[trigger] out@[i]),
        decreases runs.len() - c,
    {
        let run = &runs[c].1;
        let sid = runs[c].0;
        proof {
            lemma_run_rows(runs@, c as int, 0);
            assert(joins(t, year, marks@, rows[run_start(runs@, c as int)]));
        }
        let first = run[0];
        let row = &students[first.student];
        let mut bits = bits_new(width);
        let mut groups: Vec<i32> = Vec::new();
        let mut i: usize = 0;
        while i < run.len()
            invariant
                i <= run.len(),
                c < runs.len(),
                w == width,
                run == &runs@[c as int].1,
                sid == runs@[c as int].0,
                flatten(runs@) == rows,
                all_join(t, year, marks@, rows),
                bits_of(bits).len() == w,
                forall|p: int|
                    0 <= p < w ==> (#[trigger] bits_of(bits)[p] <==> exists|j: int|
                        0 <= j < i && lies_at(marks@[(#[trigger] run@[j]).mark as int], w, p)),
                rising(groups@),
                forall|g: i32| #[trigger]
                    groups@.contains(g) <==> exists|j: int, p: int|
                        0 <= j < i && marks@[(#[trigger] run@[j]).mark as int].group_id == g
                            && #[trigger] lies_at(marks@[run@[j].mark as int], w, p),
            decreases run.len() - i,
        {
            proof {
                lemma_run_rows(runs@, c as int, i as int);
                assert(joins(t, year, marks@, rows[run_start(runs@, c as int) + i]));
            }
            let mark = marks[run[i].mark];
            let ghost old_bits = bits_of(bits);
            let ghost old_groups = groups@;
            match mark.position {
                Some(p) => {
                    if p < width {
                        bits_set(&mut bits, p);
                        insert_rising(&mut groups, mark.group_id);
                        assert(lies_at(mark, w, p as int));
                    }
                },
                None => {},
            }
            proof {
                assert forall|p: int| 0 <= p < w implies (#[trigger] bits_of(bits)[p] <==> exists|j: int|
                    0 <= j < i + 1 && lies_at(marks@[(#[trigger] run@[j]).mark as int], w, p)) by {
                    if old_bits[p] {
                        let j = choose|j: int|
                            0 <= j < i && lies_at(marks@[(#[trigger] run@[j]).mark as int], w, p);
                        assert(lies_at(marks@[run@[j].mark as int], w, p));
                    }
                    if lies_at(mark, w, p) {
                        assert(lies_at(marks@[run@[i as int].mark as int], w, p));
                    }
                    if exists|j: int|
                        0 <= j < i + 1 && lies_at(marks@[(#[trigger] run@[j]).mark as int], w, p) {
                        let j = choose|j: int|
                            0 <= j < i + 1 && lies_at(marks@[(#[trigger] run@[j]).mark as int], w, p);
                        if j < i {
                            assert(old_bits[p]);
                        }
                    }
                }
                assert forall|g: i32| #[trigger]
                    groups@.contains(g) <==> exists|j: int, p: int|
                        0 <= j < i + 1 && marks@[(#[trigger] run@[j]).mark as int].group_id == g
                            && #[trigger] lies_at(marks@[run@[j].mark as int], w, p) by {
                    if old_groups.contains(g) {
                        let (j, p) = choose|j: int, p: int|
                            0 <= j < i && marks@[(#[trigger] run@[j]).mark as int].group_id == g
                                && #[trigger] lies_at(marks@[run@[j].mark as int], w, p);
                        assert(lies_at(marks@[run@[j].mark as int], w, p));
                    }
                    if g == mark.group_id && mark.position is Some && mark.position->Some_0 < width {
                        let p = mark.position->Some_0 as int;
                        assert(lies_at(marks@[run@[i as int].mark as int], w, p));
                    }
                    if exists|j: int, p: int|
                        0 <= j < i + 1 && marks@[(#[trigger] run@[j]).mark as int].group_id == g
                            && #[trigger] lies_at(marks@[run@[j].mark as int], w, p) {
                        let (j, p) = choose|j: int, p: int|
                            0 <= j < i + 1 && marks@[(#[trigger] run@[j]).mark as int].group_id == g
                                && #[trigger] lies_at(marks@[run@[j].mark as int], w, p);
                        if j < i {
                            assert(old_groups.contains(g));
                        }
                    }
                }
            }
            i += 1;
        }
        let student = Student {
            id: row.id,
            matrikel: row.matrikel.clone(),
            name: row.name(),
            username: clone_text(&row.username),
            groups,
            instructed: row.instructed,
        };
        proof {
            let s = first.student as int;
            let entry = (student, bits);
            assert(links(t, marks@, sid, first.mapping as int, first.mark as int));
            lemma_run_members(t, year, marks@, w, runs@, c as int);
            assert(reports(t, marks@, w, entry, s));
            assert(reported(t, year, marks@, w, entry));
        }
        out.push((student, bits));
        c += 1;
    }
    proof {
        reveal(summarizes);
        assert forall|i: int, j: int| 0 <= i < j < out@.len() implies (#[trigger] out@[i]).0.id < (
        #[trigger] out@[j]).0.id by {
            lemma_run_keys_rise(runs@, i, j);
        }
        assert forall|s: int|
            0 <= s < t.students.len() && t.students[s].year == year && marked(
                t,
                marks@,
                (#[trigger] t.students[s]).id,
            ) implies exists|i: int| 0 <= i < out@.len() && (#[trigger] out@[i]).0.id == t.students[s].id by {
            let sid = t.students[s].id;
            let (m, k) = choose|m: int, k: int| #[trigger] links(t, marks@, sid, m, k);
            let x = (sid, Joined { student: s as usize, mapping: m as usize, mark: k as usize });
            assert(rows.contains(x));
            let n = choose|n: int| 0 <= n < rows.len() && rows[n] == x;
            let at = lemma_row_in_run(runs@, n);
            lemma_run_rows(runs@, at.0, at.1);
            assert(out@[at.0].0.id == sid);
        }
    }
    out
}

/// The rows of one run are the records of one student: the student has a
/// record at a position, or through a group, exactly if a row of the run
/// says so.
proof fn lemma_run_members(
    t: Tables,
    year: i16,
    marks: Seq<Mark>,
    w: nat,
    runs: Seq<(i32, Vec<Joined>)>,
    c: int,
)
    requires
        0 <= c < runs.len(),
        marks.len() <= usize::MAX,
        t.group_mappings.len() <= usize::MAX,
        are_runs(runs),
        all_join(t, year, marks, flatten(runs)),
        join_covers(t, year, marks, flatten(runs), t.group_mappings.len() as int),
        forall|i: int, j: int|
            0 <= i < j < flatten(runs).len() ==> (#[trigger] flatten(runs)[i]).0 <= (
            #[trigger] flatten(runs)[j]).0,
    ensures
        forall|p: int|
            0 <= p < w ==> (marked_at(t, marks, w, runs[c].0, p) <==> exists|j: int|
                0 <= j < runs[c].1@.len() && lies_at(marks[(#[trigger] runs[c].1@[j]).mark as int], w, p)),
        forall|g: i32|
            marked_in(t, marks, w, runs[c].0, g) <==> exists|j: int, p: int|
                0 <= j < runs[c].1@.len() && marks[(#[trigger] runs[c].1@[j]).mark as int].group_id == g
                    && #[trigger] lies_at(marks[runs[c].1@[j].mark as int], w, p),
{
    let rows = flatten(runs);
    let sid = runs[c].0;
    let run = runs[c].1@;
    lemma_run_rows(runs, c, 0);
    let first = rows[run_start(runs, c)];
    assert(joins(t, year, marks, first));
    let s = first.1.student as int;
    // a row of the run is a record of the student
    assert forall|j: int| 0 <= j < run.len() implies #[trigger] links(
        t,
        marks,
        sid,
        run[j].mapping as int,
        run[j].mark as int,
    ) by {
        lemma_run_rows(runs, c, j);
        assert(joins(t, year, marks, rows[run_start(runs, c) + j]));
    }
    // a record of the student is a row of the run
    assert forall|m: int, k: int| #[trigger] links(t, marks, sid, m, k) implies exists|j: int|
        0 <= j < run.len() && (#[trigger] run[j]).mark == k by {
        let x = (sid, Joined { student: s as usize, mapping: m as usize, mark: k as usize });
        assert(links(t, marks, t.students[s].id, m, k));
        assert(rows.contains(x));
        let n = choose|n: int| 0 <= n < rows.len() && rows[n] == x;
        let at = lemma_row_in_run(runs, n);
        lemma_run_rows(runs, at.0, at.1);
        if at.0 < c {
            lemma_run_keys_rise(runs, at.0, c);
        } else if at.0 > c {
            lemma_run_keys_rise(runs, c, at.0);
        }
        assert(run[at.1].mark == k);
    }
    assert forall|p: int| 0 <= p < w implies (marked_at(t, marks, w, sid, p) <==> exists|j: int|
        0 <= j < run.len() && lies_at(marks[(#[trigger] run[j]).mark as int], w, p)) by {
        if marked_at(t, marks, w, sid, p) {
            let (m, k) = choose|m: int, k: int|
                #[trigger] links(t, marks, sid, m, k) && lies_at(marks[k], w, p);
            let j = choose|j: int| 0 <= j < run.len() && (#[trigger] run[j]).mark == k;
            assert(lies_at(marks[run[j].mark as int], w, p));
        }
        if exists|j: int| 0 <= j < run.len() && lies_at(marks[(#[trigger] run[j]).mark as int], w, p) {
            let j = choose|j: int|
                0 <= j < run.len() && lies_at(marks[(#[trigger] run[j]).mark as int], w, p);
            assert(links(t, marks, sid, run[j].mapping as int, run[j].mark as int));
        }
    }
    assert forall|g: i32|
        marked_in(t, marks, w, sid, g) <==> exists|j: int, p: int|
            0 <= j < run.len() && marks[(#[trigger] run[j]).mark as int].group_id == g
                && #[trigger] lies_at(marks[run[j].mark as int], w, p) by {
        if marked_in(t, marks, w, sid, g) {
            let (m, k, p) = choose|m: int, k: int, p: int|
                #[trigger] links(t, marks, sid, m, k) && marks[k].group_id == g && #[trigger] lies_at(
                    marks[k],
                    w,
                    p,
                );
            let j = choose|j: int| 0 <= j < run.len() && (#[trigger] run[j]).mark == k;
            assert(lies_at(marks[run[j].mark as int], w, p));
        }
        if exists|j: int, p: int|
            0 <= j < run.len() && marks[(#[trigger] run[j]).mark as int].group_id == g
                && #[trigger] lies_at(marks[run[j].mark as int], w, p) {
            let (j, p) = choose|j: int, p: int|
                0 <= j < run.len() && marks[(#[trigger] run[j]).mark as int].group_id == g
                    && #[trigger] lies_at(marks[run[j].mark as int], w, p);
            assert(links(t, marks, sid, run[j].mapping as int, run[j].mark as int));
        }
    }
}

} // verus!
