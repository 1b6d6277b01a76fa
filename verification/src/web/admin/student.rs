//! The students of a year, in an order that the admin chooses.
use vstd::prelude::*;
use vstd::relations::sorted_by;
use vstd::string::StringExecFns;
use crate::db::models::{clone_text, GroupMapping, Student as StudentRow};
use crate::db::schema::{mapping_group, mapping_student, student_year, Tables};
use crate::db::store::{mapping_group_of, Database};
use crate::listing::shown_by;
use crate::ordering::{by_key, make_text_key, sort_by_key, text_key};
use crate::relation::{column, key_is, select_keys, select_rows};
use crate::web::session::eq_text;

verus! {

/// The page of the students.
pub struct Context {
    pub base: super::BaseContext,
    pub students: Vec<Student>,
    pub order: Order,
}

/// A student with the groups they are in, as the page shows them.
pub struct Student {
    pub id: i32,
    pub matrikel: String,
    pub username: Option<String>,
    pub given_name: String,
    pub family_name: String,
    pub groups: Vec<i32>,
    pub instructed: bool,
}

/// The column by which the students are ordered, and whether the order is
/// turned round. Without a column the students are ordered by group.
pub struct Order {
    pub order: Option<String>,
    pub reverse: Option<bool>,
}

/// The key of an optional text: nothing comes before every text.
pub open spec fn optional_text_key(text: Option<String>) -> Seq<i128> {
    match text {
        None => seq![0i128],
        Some(s) => seq![1i128] + text_key(s@),
    }
}

/// The key of a yes or no: no comes first.
pub open spec fn flag_key(flag: bool) -> Seq<i128> {
    if flag {
        seq![1i128]
    } else {
        seq![0i128]
    }
}

/// The order by groups: students without a group first, then by family name
/// and by given name.
pub open spec fn group_order(s: Student) -> Seq<i128> {
    flag_key(s.groups@.len() != 0) + text_key(s.family_name@) + text_key(s.given_name@)
}

/// The key of a student in the order of a column. A column that is not known
/// stands for the order by groups. Students who are equal in the column are
/// ordered by id.
pub open spec fn column_key(column: Option<Seq<char>>, s: Student) -> Seq<i128> {
    (if column == Some("matrikel"@) {
        text_key(s.matrikel@)
    } else if column == Some("given-name"@) {
        text_key(s.given_name@)
    } else if column == Some("family-name"@) {
        text_key(s.family_name@)
    } else if column == Some("instructed"@) {
        flag_key(s.instructed)
    } else if column == Some("username"@) {
        optional_text_key(s.username)
    } else {
        group_order(s)
    }) + seq![s.id as i128]
}

/// The key turned round: each number with the other sign, so that what came
/// first comes last.
pub open spec fn turned(key: Seq<i128>) -> Seq<i128> {
    key.map_values(|x: i128| (-(x as int)) as i128)
}

/// The order of the students as chosen.
pub open spec fn student_order(column: Option<Seq<char>>, reverse: bool) -> spec_fn(Student) -> Seq<
    i128,
> {
    |s: Student| if reverse {
        turned(column_key(column, s))
    } else {
        column_key(column, s)
    }
}

/// The key of the order by groups.
fn order_by_groups(s: &Student) -> (k: Vec<i128>)
    ensures
        k@ == group_order(*s),
{
    let mut k: Vec<i128> = Vec::new();
    k.push(if s.groups.len() != 0 {
        1
    } else {
        0
    });
    let mut family = make_text_key(s.family_name.as_str());
    let mut given = make_text_key(s.given_name.as_str());
    k.append(&mut family);
    k.append(&mut given);
    assert(k@ =~= group_order(*s));
    k
}

/// Whether the chosen column is the one named.
fn is_column(order: &Option<String>, name: &str) -> (r: bool)
    ensures
        r == (crate::web::admin::audit::text_of(*order) == Some(name@)),
{
    match order {
        Some(chosen) => eq_text(chosen.as_str(), name),
        None => false,
    }
}

fn student_order_of(order: &Option<String>, reverse: bool, s: &Student) -> (k: Vec<i128>)
    ensures
        k@ == student_order(crate::web::admin::audit::text_of(*order), reverse)(*s),
{
    let mut k: Vec<i128> = if is_column(order, "matrikel") {
        make_text_key(s.matrikel.as_str())
    } else if is_column(order, "given-name") {
        make_text_key(s.given_name.as_str())
    } else if is_column(order, "family-name") {
        make_text_key(s.family_name.as_str())
    } else if is_column(order, "instructed") {
        let mut k: Vec<i128> = Vec::new();
        k.push(if s.instructed {
            1
        } else {
            0
        });
        assert(k@ =~= flag_key(s.instructed));
        k
    } else if is_column(order, "username") {
        let mut k: Vec<i128> = Vec::new();
        match &s.username {
            None => {
                k.push(0);
                assert(k@ =~= optional_text_key(s.username));
            },
            Some(name) => {
                k.push(1);
                let mut text = make_text_key(name.as_str());
                k.append(&mut text);
                assert(k@ =~= optional_text_key(s.username));
            },
        }
        k
    } else {
        order_by_groups(s)
    };
    k.push(s.id as i128);
    if !reverse {
        return k;
    }
    let mut out: Vec<i128> = Vec::new();
    let mut i: usize = 0;
    while i < k.len()
        invariant
            i <= k.len(),
            forall|j: int| 0 <= j < k@.len() ==> i128::MIN < #[trigger] k@[j],
            out@ == turned(k@.take(i as int)),
        decreases k.len() - i,
    {
        out.push(-k[i]);
        assert(turned(k@.take(i + 1)) =~= turned(k@.take(i as int)).push((-(k@[i as int] as int)) as i128));
        i += 1;
    }
    assert(k@.take(k.len() as int) =~= k@);
    out
}

/// The entry shows the student with the groups they are in.
pub open spec fn shows_student(t: Tables) -> spec_fn(Student, StudentRow) -> bool {
    |out: Student, row: StudentRow|
        {
            &&& out.id == row.id
            &&& out.matrikel == row.matrikel
            &&& out.username == row.username
            &&& out.given_name == row.given_name
            &&& out.family_name == row.family_name
            &&& out.instructed == row.instructed
            &&& out.groups@ == column(
                t.group_mappings.filter(key_is(mapping_student(), row.id)),
                mapping_group(),
            )
        }
}

/// The students are those of the year, each shown once, in the chosen
/// order.
pub open spec fn are_students(
    t: Tables,
    year: i16,
    column: Option<Seq<char>>,
    reverse: bool,
    out: Seq<Student>,
) -> bool {
    sorted_by(out, by_key(student_order(column, reverse))) && exists|shown: Seq<Student>|
        #[trigger] shown_by(t.students.filter(key_is(student_year(), year as i32)), shows_student(t), shown)
            && out.to_multiset() == shown.to_multiset()
}

/// The students of a year in the chosen order, and the order that was
/// applied: by groups and not turned round, unless chosen otherwise.
pub fn load_students(year: i16, order: Order, conn: &Database) -> (r: (Vec<Student>, Order))
    ensures
        are_students(
            conn@,
            year,
            crate::web::admin::audit::text_of(order.order),
            order.reverse == Some(true),
            r.0@,
        ),
        r.1.order matches Some(chosen) && chosen@ == (match order.order {
            Some(given) => given@,
            None => "groups"@,
        }),
        r.1.reverse == Some(order.reverse == Some(true)),
{
    let ghost t = conn@;
    let rows = select_rows(
        conn.students(),
        &|s: &StudentRow| -> (b: bool)
            ensures
                b == key_is(student_year(), year as i32)(*s)
        {
            s.year == year
        },
        Ghost(key_is(student_year(), year as i32)),
    );
    let mut shown: Vec<Student> = Vec::new();
    let mut i: usize = 0;
    while i < rows.len()
        invariant
            i <= rows.len(),
            t == conn@,
            shown@.len() == i,
            forall|j: int| 0 <= j < i ==> shows_student(t)(#[trigger] shown@[j], rows@[j]),
        decreases rows.len() - i,
    {
        let row = &rows[i];
        let id = row.id;
        let groups = select_keys(
            conn.group_mappings(),
            &|m: &GroupMapping| -> (b: bool)
                ensures
                    b == key_is(mapping_student(), id)(*m)
            {
                m.student_id == id
            },
            Ghost(key_is(mapping_student(), id)),
            &mapping_group_of,
            Ghost(mapping_group()),
        );
        shown.push(
            Student {
                id,
                matrikel: row.matrikel.clone(),
                username: clone_text(&row.username),
                given_name: row.given_name.clone(),
                family_name: row.family_name.clone(),
                groups,
                instructed: row.instructed,
            },
        );
        i += 1;
    }
    assert(shown_by(rows@, shows_student(t), shown@));
    let reverse = match order.reverse {
        Some(true) => true,
        _ => false,
    };
    let chosen = &order.order;
    let students = sort_by_key(
        shown,
        &|s: &Student| -> (k: Vec<i128>)
            ensures
                k@ == student_order(crate::web::admin::audit::text_of(*chosen), reverse)(*s)
        {
            student_order_of(chosen, reverse, s)
        },
        Ghost(student_order(crate::web::admin::audit::text_of(*chosen), reverse)),
    );
    let applied = Order {
        order: Some(
            match &order.order {
                Some(given) => given.clone(),
                None => String::from_str("groups"),
            },
        ),
        reverse: Some(reverse),
    };
    (students, applied)
}

} // verus!
