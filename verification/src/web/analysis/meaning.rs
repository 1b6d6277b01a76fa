//! What the bits mean in terms of the store: which records a student has
//! through their groups, and how the entries of a summary say so.
use vstd::prelude::*;
use bit_vec::BitVec;
use super::index::position_of;
use super::student::Student;
use super::summary::{
    lies_at, links, marked, marked_at, marked_in, reported, reports, summarizes, Mark,
};
use super::verdict::{by_rising_id, has_all, has_any, has_entry};
use crate::bitset::{all_set, any_set, bits_of};
use crate::db::schema::Tables;

verus! {

/// The mark of a record, which is a group and the id of what the group has:
/// the group, at the position of that id among `ids`.
pub open spec fn mark_of(ids: Seq<i32>) -> spec_fn((i32, i32)) -> Mark {
    |r: (i32, i32)| Mark { group_id: r.0, position: position_of(ids, r.1) }
}

/// The student is a student of the year.
pub open spec fn enrolled(t: Tables, year: i16, student: i32) -> bool {
    exists|s: int|
        0 <= s < t.students.len() && (#[trigger] t.students[s]).id == student && t.students[s].year
            == year
}

/// The membership `m` and the record `k` tie the student to the item.
pub open spec fn ties(t: Tables, records: Seq<(i32, i32)>, student: i32, m: int, k: int) -> bool {
    &&& 0 <= m < t.group_mappings.len()
    &&& 0 <= k < records.len()
    &&& t.group_mappings[m].student_id == student
    &&& records[k].0 == t.group_mappings[m].group_id
}

/// One of the student's groups has a record of the item.
pub open spec fn has_record(t: Tables, records: Seq<(i32, i32)>, student: i32, item: i32) -> bool {
    exists|m: int, k: int| #[trigger] ties(t, records, student, m, k) && records[k].1 == item
}

/// One of the student's groups has a record of some item.
pub open spec fn has_any_record(t: Tables, records: Seq<(i32, i32)>, student: i32) -> bool {
    exists|m: int, k: int| #[trigger] ties(t, records, student, m, k)
}

/// The position of an id that occurs once is where it occurs.
pub proof fn lemma_position(ids: Seq<i32>, p: int)
    requires
        ids.no_duplicates(),
        0 <= p < ids.len(),
        ids.len() <= usize::MAX,
    ensures
        position_of(ids, ids[p]) == Some(p as usize),
{
    assert(ids.contains(ids[p]));
    let q = ids.index_of(ids[p]);
    assert(ids[q] == ids[p]);
}

/// The marks of the records say what the records say: a student has a mark
/// exactly if they have a record, and a mark at the position of an id exactly
/// if they have a record of that id.
pub proof fn lemma_marks_mean(t: Tables, records: Seq<(i32, i32)>, ids: Seq<i32>, student: i32)
    requires
        ids.no_duplicates(),
        ids.len() <= usize::MAX,
    ensures
        marked(t, records.map_values(mark_of(ids)), student) <==> has_any_record(t, records, student),
        forall|p: int|
            0 <= p < ids.len() ==> (marked_at(
                t,
                records.map_values(mark_of(ids)),
                ids.len(),
                student,
                p,
            ) <==> has_record(t, records, student, #[trigger] ids[p])),
{
    let marks = records.map_values(mark_of(ids));
    let w = ids.len();
    if marked(t, marks, student) {
        let (m, k) = choose|m: int, k: int| #[trigger] links(t, marks, student, m, k);
        assert(ties(t, records, student, m, k));
    }
    if has_any_record(t, records, student) {
        let (m, k) = choose|m: int, k: int| #[trigger] ties(t, records, student, m, k);
        assert(links(t, marks, student, m, k));
    }
    assert forall|p: int| 0 <= p < w implies (marked_at(t, marks, w, student, p) <==> has_record(
        t,
        records,
        student,
        #[trigger] ids[p],
    )) by {
        lemma_position(ids, p);
        if marked_at(t, marks, w, student, p) {
            let (m, k) = choose|m: int, k: int|
                #[trigger] links(t, marks, student, m, k) && lies_at(marks[k], w, p);
            assert(ties(t, records, student, m, k));
            assert(position_of(ids, records[k].1) == Some(p as usize));
            assert(ids.contains(records[k].1));
            assert(ids[ids.index_of(records[k].1)] == records[k].1);
        }
        if has_record(t, records, student, ids[p]) {
            let (m, k) = choose|m: int, k: int|
                #[trigger] ties(t, records, student, m, k) && records[k].1 == ids[p];
            assert(links(t, marks, student, m, k));
            assert(lies_at(marks[k], w, p));
        }
    }
}

/// An entry of a summary is that of a student of the year who has a mark,
/// with a bit at each position at which the student has one.
pub proof fn lemma_entry_tells(
    t: Tables,
    year: i16,
    marks: Seq<Mark>,
    w: nat,
    out: Seq<(Student, BitVec<u32>)>,
    i: int,
)
    requires
        summarizes(t, year, marks, w, out),
        0 <= i < out.len(),
    ensures
        enrolled(t, year, out[i].0.id),
        marked(t, marks, out[i].0.id),
        bits_of(out[i].1).len() == w,
        forall|p: int|
            0 <= p < w ==> (#[trigger] bits_of(out[i].1)[p] <==> marked_at(
                t,
                marks,
                w,
                out[i].0.id,
                p,
            )),
{
    reveal(summarizes);
    assert(reported(t, year, marks, w, out[i]));
    let s = choose|s: int|
        0 <= s < t.students.len() && t.students[s].year == year && marked(t, marks, t.students[s].id)
            && #[trigger] reports(t, marks, w, out[i], s);
    assert(t.students[s].id == out[i].0.id);
}

/// A student of the year who has a mark has an entry in the summary, and
/// only one.
pub proof fn lemma_entry_exists(
    t: Tables,
    year: i16,
    marks: Seq<Mark>,
    w: nat,
    out: Seq<(Student, BitVec<u32>)>,
    student: i32,
)
    requires
        summarizes(t, year, marks, w, out),
    ensures
        enrolled(t, year, student) && marked(t, marks, student) ==> has_entry(out, student),
        forall|i: int, j: int|
            0 <= i < out.len() && 0 <= j < out.len() && (#[trigger] out[i]).0.id == student && (
            #[trigger] out[j]).0.id == student ==> i == j,
{
    reveal(summarizes);
    if enrolled(t, year, student) && marked(t, marks, student) {
        let s = choose|s: int|
            0 <= s < t.students.len() && (#[trigger] t.students[s]).id == student
                && t.students[s].year == year;
        assert(marked(t, marks, t.students[s].id));
    }
}

/// The entries of a summary are in the strict order of the students' ids.
pub proof fn lemma_summary_rises(
    t: Tables,
    year: i16,
    marks: Seq<Mark>,
    w: nat,
    out: Seq<(Student, BitVec<u32>)>,
)
    requires
        summarizes(t, year, marks, w, out),
    ensures
        by_rising_id(out),
{
    reveal(summarizes);
}

/// What the entries of a summary say: a student has an entry exactly if they
/// are a student of the year with a record; the bits of the entry are all
/// set exactly if the student has a record of every id, and one is set
/// exactly if the student has a record of one of the ids.
pub proof fn lemma_summary_meaning(
    t: Tables,
    year: i16,
    records: Seq<(i32, i32)>,
    ids: Seq<i32>,
    out: Seq<(Student, BitVec<u32>)>,
    student: i32,
)
    requires
        ids.no_duplicates(),
        ids.len() <= usize::MAX,
        summarizes(t, year, records.map_values(mark_of(ids)), ids.len(), out),
    ensures
        has_entry(out, student) <==> enrolled(t, year, student) && has_any_record(t, records, student),
        has_all(out, student) <==> has_entry(out, student) && forall|p: int|
            0 <= p < ids.len() ==> has_record(t, records, student, #[trigger] ids[p]),
        has_any(out, student) <==> has_entry(out, student) && exists|p: int|
            0 <= p < ids.len() && has_record(t, records, student, #[trigger] ids[p]),
{
    let marks = records.map_values(mark_of(ids));
    let w = ids.len();
    lemma_marks_mean(t, records, ids, student);
    lemma_entry_exists(t, year, marks, w, out, student);
    if has_entry(out, student) {
        let i = choose|i: int| 0 <= i < out.len() && (#[trigger] out[i]).0.id == student;
        lemma_entry_tells(t, year, marks, w, out, i);
        let bits = bits_of(out[i].1);
        if has_all(out, student) {
            let j = choose|j: int|
                0 <= j < out.len() && (#[trigger] out[j]).0.id == student && all_set(bits_of(out[j].1));
            assert(j == i);
            assert forall|p: int| 0 <= p < ids.len() implies has_record(
                t,
                records,
                student,
                #[trigger] ids[p],
            ) by {
                assert(bits[p]);
            }
        }
        if forall|p: int| 0 <= p < ids.len() ==> has_record(t, records, student, #[trigger] ids[p]) {
            assert forall|p: int| 0 <= p < bits.len() implies bits[p] by {
                assert(has_record(t, records, student, ids[p]));
            }
            assert(all_set(bits));
        }
        if has_any(out, student) {
            let j = choose|j: int|
                0 <= j < out.len() && (#[trigger] out[j]).0.id == student && any_set(bits_of(out[j].1));
            assert(j == i);
            let p = choose|p: int| 0 <= p < bits.len() && bits[p];
            assert(has_record(t, records, student, ids[p]));
        }
        if exists|p: int| 0 <= p < ids.len() && has_record(t, records, student, #[trigger] ids[p]) {
            let p = choose|p: int|
                0 <= p < ids.len() && has_record(t, records, student, #[trigger] ids[p]);
            assert(bits[p]);
            assert(any_set(bits));
        }
    }
}

/// Through the group the student has a record of an item that is wanted:
/// the student is in the group, and the group has such a record.
pub open spec fn tied_through(
    t: Tables,
    records: Seq<(i32, i32)>,
    student: i32,
    group: i32,
    wanted: spec_fn(i32) -> bool,
) -> bool {
    exists|m: int, k: int|
        #[trigger] ties(t, records, student, m, k) && records[k].0 == group && wanted(records[k].1)
}

/// The groups through which a student has a mark at a position of the index
/// are the groups through which they have a record of an id of the index.
pub proof fn lemma_groups_mean(
    t: Tables,
    records: Seq<(i32, i32)>,
    ids: Seq<i32>,
    student: i32,
    group: i32,
    wanted: spec_fn(i32) -> bool,
)
    requires
        ids.no_duplicates(),
        ids.len() <= usize::MAX,
        forall|id: i32| ids.contains(id) <==> wanted(id),
    ensures
        marked_in(t, records.map_values(mark_of(ids)), ids.len(), student, group) <==> tied_through(
            t,
            records,
            student,
            group,
            wanted,
        ),
{
    let marks = records.map_values(mark_of(ids));
    let w = ids.len();
    if marked_in(t, marks, w, student, group) {
        let (m, k, p) = choose|m: int, k: int, p: int|
            #[trigger] links(t, marks, student, m, k) && marks[k].group_id == group && #[trigger] lies_at(
                marks[k],
                w,
                p,
            );
        assert(ties(t, records, student, m, k));
        assert(ids.contains(records[k].1));
        assert(wanted(records[k].1));
    }
    if tied_through(t, records, student, group, wanted) {
        let (m, k) = choose|m: int, k: int|
            #[trigger] ties(t, records, student, m, k) && records[k].0 == group && wanted(records[k].1);
        assert(ids.contains(records[k].1));
        let p = ids.index_of(records[k].1);
        assert(links(t, marks, student, m, k));
        assert(lies_at(marks[k], w, p));
    }
}

/// An entry of a summary reports a student of the year.
pub proof fn lemma_entry_reports(
    t: Tables,
    year: i16,
    marks: Seq<Mark>,
    w: nat,
    out: Seq<(Student, BitVec<u32>)>,
    i: int,
)
    requires
        summarizes(t, year, marks, w, out),
        0 <= i < out.len(),
    ensures
        reported(t, year, marks, w, out[i]),
{
    reveal(summarizes);
}

} // verus!
