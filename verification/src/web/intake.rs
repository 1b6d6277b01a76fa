//! Students that come as a table of comma-separated text: each record makes
//! a student of the year, and either all of them are made or none.
use vstd::prelude::*;
use crate::db::change::entry_is;
use crate::db::models::{NewStudent, Student};
use crate::db::schema::{audit_log_id, has_year, student_id, Tables};
use crate::db::store::Database;
use crate::errors::{ApiError, ApiResult};
use crate::relation::max_id;
use crate::sheet::{fields_of, read_records, records_of, table_of};
use crate::text::decimal;
use crate::web::api::{authorize, barred, insert_student, new_student_message, sans_log, Role};
use crate::web::session::User;

verus! {

/// A record can be read as a student: it has a field for the number, the
/// given name, the family name and the user name. What follows them is not
/// read.
pub open spec fn readable(fields: Seq<Seq<char>>) -> bool {
    fields.len() >= 4
}

/// The row is the student that the record describes, with this id: a user
/// name that is empty is none.
pub open spec fn shows_entrant(row: Student, id: int, year: i16, fields: Seq<Seq<char>>) -> bool {
    &&& row.id == id
    &&& row.year == year
    &&& !row.instructed
    &&& row.matrikel@ == fields[0]
    &&& row.given_name@ == fields[1]
    &&& row.family_name@ == fields[2]
    &&& match row.username {
        Some(name) => name@ == fields[3] && fields[3].len() > 0,
        None => fields[3].len() == 0,
    }
}

/// What the audit trail says of the student of a record.
pub open spec fn entrant_message(fields: Seq<Seq<char>>, id: int) -> Seq<char> {
    "Create new student "@ + fields[1] + " "@ + fields[2] + " ("@ + fields[0] + ", "@ + (if fields[3].len()
        == 0 {
        "-"@
    } else {
        fields[3]
    }) + ", #"@ + decimal(id) + ")"@
}

/// The store after the students of the records were made, one after the
/// other: each has the next id, and for each the audit trail has one more
/// entry.
pub open spec fn enrolled_all(
    before: Tables,
    after: Tables,
    table: Seq<Seq<Seq<char>>>,
    year: i16,
    author: Seq<char>,
) -> bool {
    let students = before.students.len();
    let logs = before.audit_logs.len();
    let first = max_id(before.students, student_id()) + 1;
    let first_log = max_id(before.audit_logs, audit_log_id()) + 1;
    &&& after == (Tables { students: after.students, audit_logs: after.audit_logs, ..before })
    &&& after.students.len() == students + table.len()
    &&& after.students.take(students as int) == before.students
    &&& after.audit_logs.len() == logs + table.len()
    &&& after.audit_logs.take(logs as int) == before.audit_logs
    &&& forall|i: int|
        0 <= i < table.len() ==> shows_entrant(
            #[trigger] after.students[students + i],
            first + i,
            year,
            table[i],
        )
    &&& forall|i: int|
        0 <= i < table.len() ==> entry_is(
            #[trigger] after.audit_logs[logs + i],
            (first_log + i) as i32,
            before.now,
            year,
            None,
            author,
            entrant_message(table[i], first + i),
        )
}

/// The store has ids left for this many students and their audit entries.
pub open spec fn has_room(t: Tables, n: nat) -> bool {
    n > 0 ==> max_id(t.students, student_id()) + n <= i32::MAX && max_id(t.audit_logs, audit_log_id())
        + n <= i32::MAX
}

/// Why the table is refused, if it is: the year bars the user; or the text
/// is no table, a record is too short, or the ids run out.
pub open spec fn import_refusal(t: Tables, user: crate::web::session::Principal, year: i16, data: Seq<u8>) -> Option<
    ApiError,
> {
    if barred(t, user, Role::Admin, year) is Some {
        barred(t, user, Role::Admin, year)
    } else {
        match records_of(data) {
            None => Some(ApiError::Other),
            Some(table) => if (forall|i: int| 0 <= i < table.len() ==> readable(#[trigger] table[i]))
                && has_room(t, table.len()) {
                None
            } else {
                Some(ApiError::Other)
            },
        }
    }
}

/// The student that a record describes.
pub fn read_student(record: &Vec<String>, year: i16) -> (r: Option<NewStudent>)
    ensures
        r is Some <==> readable(fields_of(record@)),
        r matches Some(s) ==> {
            &&& s.year == year
            &&& s.matrikel@ == record@[0]@
            &&& s.given_name@ == record@[1]@
            &&& s.family_name@ == record@[2]@
            &&& match s.username {
                Some(name) => name@ == record@[3]@ && record@[3]@.len() > 0,
                None => record@[3]@.len() == 0,
            }
        },
{
    if record.len() < 4 {
        return None;
    }
    let username = if record[3].as_str().unicode_len() == 0 {
        None
    } else {
        Some(record[3].clone())
    };
    Some(
        NewStudent {
            matrikel: record[0].clone(),
            year,
            username,
            given_name: record[1].clone(),
            family_name: record[2].clone(),
        },
    )
}

/// After a row with the next id, the largest id is that id.
pub proof fn lemma_next_id<T>(rows: Seq<T>, key: spec_fn(T) -> i32, row: T)
    requires
        key(row) == max_id(rows, key) + 1,
    ensures
        max_id(rows.push(row), key) == max_id(rows, key) + 1,
{
    assert(rows.push(row).drop_last() =~= rows);
}

/// The largest id is a number that an id can be.
pub proof fn lemma_id_fits<T>(rows: Seq<T>, key: spec_fn(T) -> i32)
    ensures
        0 <= max_id(rows, key) <= i32::MAX,
    decreases rows.len(),
{
    if rows.len() > 0 {
        lemma_id_fits(rows.drop_last(), key);
    }
}

/// Makes the students of the records, on the store as it is: where one
/// cannot be made, those before it stay. Who calls it works on a copy.
pub fn insert_students(records: &Vec<Vec<String>>, year: i16, conn: &mut Database, user: &str) -> (r:
    ApiResult<()>)
    requires
        old(conn).wf(),
        has_year(old(conn)@.years, year),
    ensures
        final(conn).wf(),
        r is Ok <==> (forall|i: int|
            0 <= i < records@.len() ==> readable(#[trigger] table_of(records@)[i])) && has_room(
            old(conn)@,
            records@.len(),
        ),
        r is Ok ==> enrolled_all(old(conn)@, final(conn)@, table_of(records@), year, user@),
        r is Err ==> r->Err_0 == ApiError::Other,
{
    let ghost before = conn@;
    let ghost table = table_of(records@);
    let ghost first = max_id(before.students, student_id()) + 1;
    let ghost first_log = max_id(before.audit_logs, audit_log_id()) + 1;
    let mut k: usize = 0;
    proof {
        assert(before.students.take(before.students.len() as int) =~= before.students);
        assert(before.audit_logs.take(before.audit_logs.len() as int) =~= before.audit_logs);
    }
    while k < records.len()
        invariant
            k <= records.len(),
            conn.wf(),
            before == old(conn)@,
            has_year(conn@.years, year),
            table == table_of(records@),
            first == max_id(before.students, student_id()) + 1,
            first_log == max_id(before.audit_logs, audit_log_id()) + 1,
            enrolled_all(before, conn@, table.take(k as int), year, user@),
            max_id(conn@.students, student_id()) == first - 1 + k,
            max_id(conn@.audit_logs, audit_log_id()) == first_log - 1 + k,
            forall|i: int| 0 <= i < k ==> readable(#[trigger] table[i]),
        decreases records.len() - k,
    {
        let ghost mid = conn@;
        let student = match read_student(&records[k], year) {
            Some(student) => student,
            None => {
                assert(!readable(table[k as int]));
                return Err(ApiError::Other);
            },
        };
        let ghost entrant = student;
        let ghost fields = table[k as int];
        proof {
            assert(fields =~= fields_of(records@[k as int]@));
            assert(new_student_message(student, first + k) =~= entrant_message(fields, first + k));
        }
        match insert_student(student, conn, user) {
            Ok(_) => {},
            Err(_) => {
                assert(!has_room(before, records@.len() as nat));
                return Err(ApiError::Other);
            },
        }
        proof {
            let after = conn@;
            let row = after.students.last();
            let log = after.audit_logs.last();
            assert(sans_log(after, mid).students == mid.students.push(row));
            assert(after.students == mid.students.push(row));
            assert(after.audit_logs.drop_last() == mid.audit_logs);
            assert(after.audit_logs =~= mid.audit_logs.push(log));
            lemma_next_id(mid.students, student_id(), row);
            lemma_next_id(mid.audit_logs, audit_log_id(), log);
            let more = table.take(k + 1);
            assert(more.len() == k + 1);
            assert(after.students.take(before.students.len() as int) =~= mid.students.take(
                before.students.len() as int,
            ));
            assert(after.audit_logs.take(before.audit_logs.len() as int) =~= mid.audit_logs.take(
                before.audit_logs.len() as int,
            ));
            assert forall|i: int| 0 <= i < more.len() implies shows_entrant(
                #[trigger] after.students[before.students.len() + i],
                first + i,
                year,
                more[i],
            ) by {
                if i < k {
                    assert(table.take(k as int)[i] == more[i]);
                    assert(after.students[before.students.len() + i] == mid.students[before.students.len()
                        + i]);
                }
            }
            assert forall|i: int| 0 <= i < more.len() implies entry_is(
                #[trigger] after.audit_logs[before.audit_logs.len() + i],
                (first_log + i) as i32,
                before.now,
                year,
                None,
                user@,
                entrant_message(more[i], first + i),
            ) by {
                if i < k {
                    assert(table.take(k as int)[i] == more[i]);
                    assert(after.audit_logs[before.audit_logs.len() + i] == mid.audit_logs[before.audit_logs.len()
                        + i]);
                }
            }
            assert(after == (Tables { students: after.students, audit_logs: after.audit_logs, ..before }));
        }
        k += 1;
    }
    proof {
        assert(table.take(records.len() as int) =~= table);
        lemma_id_fits(conn@.students, student_id());
        lemma_id_fits(conn@.audit_logs, audit_log_id());
    }
    Ok(())
}

/// Makes a student of the year from each record of the text, all of them or
/// none. It is for the admins of the year.
pub fn post_students_csv(year: i16, students: &Vec<u8>, conn: &mut Database, user: &User) -> (r:
    ApiResult<()>)
    requires
        old(conn).wf(),
    ensures
        final(conn).wf(),
        r is Ok <==> import_refusal(old(conn)@, user@, year, students@) is None,
        r matches Err(e) ==> final(conn)@ == old(conn)@ && import_refusal(
            old(conn)@,
            user@,
            year,
            students@,
        ) == Some(e),
        r is Ok ==> enrolled_all(
            old(conn)@,
            final(conn)@,
            records_of(students@)->0,
            year,
            user@.name,
        ),
{
    let mut work = conn.snapshot();
    authorize(year, Role::Admin, &work, user)?;
    let records = match read_records(students) {
        Ok(records) => records,
        Err(e) => {
            return Err(ApiError::from(e));
        },
    };
    match insert_students(&records, year, &mut work, user.name()) {
        Ok(()) => {},
        Err(e) => {
            return Err(e);
        },
    }
    *conn = work;
    Ok(())
}

} // verus!
