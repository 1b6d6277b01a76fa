//! The roll of a year: every student with the verdict, those who passed
//! first.
use vstd::prelude::*;
use vstd::string::StringExecFns;
use crate::db::models::Student as StudentRow;
use crate::db::schema::{student_year, Tables};
use crate::db::store::Database;
use crate::errors::{ApiError, ApiResult};
use crate::listing::{lists, select_sorted};
use crate::ordering::{make_text_key, text_key};
use crate::relation::key_is;
use crate::sheet::{fields_of, rectangular, sheet_bytes, table_of, text, write_sheet};
use crate::text::{decimal, push_decimal};
use crate::web::admin::export::CsvResponse;
use crate::web::session::SiteAdmin;
use super::report::{eligible_of, passes};
use super::student::Student;
use super::verdict::has_student;

verus! {

/// Whether a student with the id is among the students.
pub fn is_among(students: &Vec<Student>, id: i32) -> (r: bool)
    ensures
        r == has_student(students@, id),
{
    let mut i: usize = 0;
    while i < students.len()
        invariant
            i <= students.len(),
            forall|j: int| 0 <= j < i ==> students@[j].id != id,
        decreases students.len() - i,
    {
        if students[i].id == id {
            return true;
        }
        i += 1;
    }
    false
}

/// The order of the roll: who passed comes first, and within each part the
/// students stand by their numbers.
pub open spec fn roll_order(t: Tables, year: i16) -> spec_fn(StudentRow) -> Seq<i128> {
    |s: StudentRow|
        seq![
            if passes(t, year, s.id) {
                0i128
            } else {
                1i128
            },
        ] + text_key(s.matrikel@)
}

/// The verdict as the roll words it.
pub open spec fn verdict(passed: bool) -> Seq<char> {
    if passed {
        "bestanden"@
    } else {
        "nicht bestanden"@
    }
}

/// The line of a student in the roll.
pub open spec fn roll_line(t: Tables, year: i16, s: StudentRow) -> Seq<Seq<char>> {
    seq![s.matrikel@, s.given_name@, s.family_name@, verdict(passes(t, year, s.id))]
}

/// The roll: the line of each student.
pub open spec fn roll_table(t: Tables, year: i16, students: Seq<StudentRow>) -> Seq<Seq<Seq<char>>> {
    Seq::new(students.len(), |i: int| roll_line(t, year, students[i]))
}

/// The lines of the roll for the students as they stand, where `eligible`
/// holds those who pass.
fn roll_rows(students: &Vec<StudentRow>, eligible: &Vec<Student>, Ghost(t): Ghost<Tables>, year: i16) -> (r:
    Vec<Vec<String>>)
    requires
        forall|id: i32| has_student(eligible@, id) <==> passes(t, year, id),
    ensures
        table_of(r@) == roll_table(t, year, students@),
{
    let ghost lines = roll_table(t, year, students@);
    let mut out: Vec<Vec<String>> = Vec::new();
    let mut i: usize = 0;
    assert(table_of(out@) =~= lines.take(0));
    while i < students.len()
        invariant
            i <= students.len(),
            lines == roll_table(t, year, students@),
            forall|id: i32| has_student(eligible@, id) <==> passes(t, year, id),
            table_of(out@) == lines.take(i as int),
        decreases students.len() - i,
    {
        let s = &students[i];
        let mut row: Vec<String> = Vec::new();
        row.push(s.matrikel.clone());
        row.push(s.given_name.clone());
        row.push(s.family_name.clone());
        row.push(
            if is_among(eligible, s.id) {
                text("bestanden")
            } else {
                text("nicht bestanden")
            },
        );
        assert(fields_of(row@) =~= lines[i as int]);
        let ghost so_far = out@;
        out.push(row);
        assert(table_of(out@) =~= table_of(so_far).push(lines[i as int]));
        assert(lines.take(i + 1) =~= lines.take(i as int).push(lines[i as int]));
        i += 1;
    }
    assert(lines.take(students.len() as int) =~= lines);
    out
}

/// The bytes are the roll of the year: the lines of the students of the
/// year in the order of the roll, as comma-separated text.
pub open spec fn is_roll(t: Tables, year: i16, bytes: Seq<u8>) -> bool {
    exists|students: Seq<StudentRow>|
        #[trigger] lists(t.students, key_is(student_year(), year as i32), roll_order(t, year), students)
            && bytes == sheet_bytes(roll_table(t, year, students))
}

/// The name of the file of the roll.
pub open spec fn roll_name(year: i16) -> Seq<char> {
    "Hardwarepraktikum-"@ + decimal(year as int) + ".csv"@
}

/// The roll of a year as a file of comma-separated text: every student of
/// the year with the verdict, passed where the student is eligible to pass.
/// It is for the site admins.
pub fn passed_complete(year: i16, conn: &Database, _user: &SiteAdmin) -> (r: ApiResult<CsvResponse>)
    requires
        conn.wf(),
    ensures
        r is Ok,
        r matches Ok(file) ==> file.filename@ == roll_name(year) && is_roll(conn@, year, file.content@),
{
    let ghost t = conn@;
    let eligible = eligible_of(year, conn);
    let ghost order = roll_order(t, year);
    let students = select_sorted(
        conn.students(),
        &|s: &StudentRow| -> (b: bool)
            ensures
                b == key_is(student_year(), year as i32)(*s)
        {
            s.year == year
        },
        Ghost(key_is(student_year(), year as i32)),
        &|s: &StudentRow| -> (k: Vec<i128>)
            ensures
                k@ == order(*s)
        {
            let mut k: Vec<i128> = Vec::new();
            k.push(
                if is_among(&eligible, s.id) {
                    0i128
                } else {
                    1i128
                },
            );
            let mut number = make_text_key(s.matrikel.as_str());
            k.append(&mut number);
            assert(k@ =~= order(*s));
            k
        },
        Ghost(order),
    );
    let rows = roll_rows(&students, &eligible, Ghost(t), year);
    assert(rectangular(table_of(rows@)));
    let content = match write_sheet(&rows) {
        Ok(content) => content,
        Err(_) => {
            return Err(ApiError::Other);
        },
    };
    let mut filename = String::from_str("Hardwarepraktikum-");
    push_decimal(&mut filename, year as i64);
    filename.append(".csv");
    Ok(CsvResponse { filename, content })
}

} // verus!
