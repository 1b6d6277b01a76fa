//! The sheet of a year: one line for each student, with a mark for each
//! accepted elaboration and each completed task.
use vstd::prelude::*;
use vstd::string::StringExecFns;
use bit_vec::BitVec;
use crate::bitset::{bits_get, bits_len, bits_of};
use crate::db::models::{full_name, Experiment, Student as StudentRow, Task};
use crate::db::schema::{
    experiment_id, experiment_year, student_year, task_experiment, Tables,
};
use crate::db::store::Database;
use crate::errors::ApiResult;
use crate::listing::{lists, select_sorted};
use crate::ordering::lemma_same_rows;
use crate::relation::{decides, has_key, key_is, lemma_filter_every, lemma_filter_has_key, refers};
use crate::sheet::{fields_of, rectangular, sheet_bytes, table_of, text, write_sheet};
use crate::web::analysis::student::Student;
use crate::web::analysis::meaning::lemma_entry_tells;
use crate::web::analysis::summary::{summarizes, Mark};
use crate::web::analysis::{
    counted_task, elaboration_marks, experiment_order, load_elaborations_by_student,
    load_tasks_by_student, task_marks, task_order,
};

verus! {

/// A sheet that is sent as a file.
pub struct CsvResponse {
    pub filename: String,
    pub content: Vec<u8>,
}

/// The position of the last row that satisfies `p`.
pub open spec fn last_where<T>(rows: Seq<T>, p: spec_fn(T) -> bool) -> Option<int>
    decreases rows.len(),
{
    if rows.len() == 0 {
        None
    } else if p(rows.last()) {
        Some(rows.len() - 1)
    } else {
        last_where(rows.drop_last(), p)
    }
}

/// The position of the last row of `v` that `f` accepts.
pub fn find_last<T, F: Fn(&T) -> bool>(v: &Vec<T>, f: &F, Ghost(p): Ghost<spec_fn(T) -> bool>) -> (r:
    Option<usize>)
    requires
        decides(*f, p),
    ensures
        match r {
            Some(i) => last_where(v@, p) == Some(i as int) && i < v@.len() && p(v@[i as int]),
            None => last_where(v@, p) is None,
        },
{
    let mut i: usize = v.len();
    assert(v@.take(i as int) =~= v@);
    while i > 0
        invariant
            i <= v.len(),
            decides(*f, p),
            last_where(v@, p) == last_where(v@.take(i as int), p),
        decreases i,
    {
        proof {
            assert(v@.take(i as int).last() == v@[i - 1]);
            assert(v@.take(i as int).drop_last() =~= v@.take(i - 1));
        }
        if f(&v[i - 1]) {
            return Some(i - 1);
        }
        i -= 1;
    }
    None
}

/// What a cell shows of a bit: a cross where it is set.
pub open spec fn mark(set: bool) -> Seq<char> {
    if set {
        "x"@
    } else {
        ""@
    }
}

fn show_mark(set: bool) -> (r: String)
    ensures
        r@ == mark(set),
{
    if set {
        text("x")
    } else {
        text("")
    }
}

/// The entries of the student.
pub open spec fn entry_of(id: i32) -> spec_fn((Student, BitVec<u32>)) -> bool {
    |e: (Student, BitVec<u32>)| e.0.id == id
}

/// The cells of a student: one for each bit of their entry, or `width` empty
/// cells where they have no entry.
pub open spec fn cells(entries: Seq<(Student, BitVec<u32>)>, width: nat, id: i32) -> Seq<Seq<char>> {
    match last_where(entries, entry_of(id)) {
        Some(i) => Seq::new(bits_of(entries[i].1).len(), |p: int| mark(bits_of(entries[i].1)[p])),
        None => Seq::new(width, |p: int| mark(false)),
    }
}

/// The experiments with the id.
pub open spec fn is_experiment(id: i32) -> spec_fn(Experiment) -> bool {
    |e: Experiment| e.id == id
}

/// The name of the experiment with the id.
pub open spec fn experiment_name(experiments: Seq<Experiment>, id: i32) -> Seq<char> {
    match last_where(experiments, is_experiment(id)) {
        Some(i) => experiments[i].name@,
        None => ""@,
    }
}

/// The beginning of a line: what the student is known by, and whether they
/// were instructed.
pub open spec fn person(student: StudentRow) -> Seq<Seq<char>> {
    seq![
        student.matrikel@,
        full_name(student.given_name@, student.family_name@),
        match student.username {
            Some(name) => name@,
            None => ""@,
        },
        mark(student.instructed),
    ]
}

/// The line of a student.
pub open spec fn line(
    student: StudentRow,
    elaborations: Seq<(Student, BitVec<u32>)>,
    experiments: nat,
    completed: Seq<(Student, BitVec<u32>)>,
    tasks: nat,
) -> Seq<Seq<char>> {
    person(student) + cells(elaborations, experiments, student.id) + cells(
        completed,
        tasks,
        student.id,
    )
}

/// The titles of the fixed columns.
pub open spec fn titles() -> Seq<Seq<char>> {
    seq!["Matrikelnummer"@, "Name"@, "Benutzername"@, "Sicherheitsbelehrung"@]
}

/// The title of the column of an experiment.
pub open spec fn experiment_title(name: Seq<char>) -> Seq<char> {
    "Ausarbeitung "@ + name
}

/// The title of the column of a task.
pub open spec fn task_title(experiment: Seq<char>, name: Seq<char>) -> Seq<char> {
    experiment + ", "@ + name
}

/// The first line: the titles of the columns.
pub open spec fn heading(experiments: Seq<Experiment>, tasks: Seq<Task>) -> Seq<Seq<char>> {
    titles() + Seq::new(experiments.len(), |i: int| experiment_title(experiments[i].name@)) + Seq::new(
        tasks.len(),
        |i: int| task_title(experiment_name(experiments, tasks[i].experiment_id), tasks[i].name@),
    )
}

/// The sheet: the titles, then the line of each student.
pub open spec fn export_table(
    students: Seq<StudentRow>,
    elaborations: Seq<(Student, BitVec<u32>)>,
    experiments: Seq<Experiment>,
    completed: Seq<(Student, BitVec<u32>)>,
    tasks: Seq<Task>,
) -> Seq<Seq<Seq<char>>> {
    seq![heading(experiments, tasks)] + Seq::new(
        students.len(),
        |i: int| line(students[i], elaborations, experiments.len(), completed, tasks.len()),
    )
}

fn push_cells(out: &mut Vec<String>, entries: &Vec<(Student, BitVec<u32>)>, width: usize, id: i32)
    ensures
        fields_of(final(out)@) == fields_of(old(out)@) + cells(entries@, width as nat, id),
{
    let ghost before = fields_of(out@);
    let found = find_last(
        entries,
        &|e: &(Student, BitVec<u32>)| -> (b: bool)
            ensures
                b == entry_of(id)(*e)
        {
            e.0.id == id
        },
        Ghost(entry_of(id)),
    );
    match found {
        Some(at) => {
            let bits = &entries[at].1;
            let n = bits_len(bits);
            let ghost all = cells(entries@, width as nat, id);
            let mut p: usize = 0;
            assert(fields_of(out@) =~= before + all.take(0));
            while p < n
                invariant
                    p <= n,
                    n == bits_of(*bits).len(),
                    all.len() == n,
                    forall|q: int| 0 <= q < n ==> all[q] == mark(bits_of(*bits)[q]),
                    fields_of(out@) == before + all.take(p as int),
                decreases n - p,
            {
                let ghost so_far = out@;
                out.push(show_mark(bits_get(bits, p)));
                assert(fields_of(out@) =~= fields_of(so_far).push(all[p as int]));
                assert(all.take(p + 1) =~= all.take(p as int).push(all[p as int]));
                assert(fields_of(out@) =~= before + all.take(p + 1));
                p += 1;
            }
            assert(all.take(n as int) =~= all);
        },
        None => {
            let ghost all = cells(entries@, width as nat, id);
            let mut p: usize = 0;
            assert(fields_of(out@) =~= before + all.take(0));
            while p < width
                invariant
                    p <= width,
                    all.len() == width,
                    forall|q: int| 0 <= q < width ==> all[q] == mark(false),
                    fields_of(out@) == before + all.take(p as int),
                decreases width - p,
            {
                let ghost so_far = out@;
                out.push(show_mark(false));
                assert(fields_of(out@) =~= fields_of(so_far).push(all[p as int]));
                assert(all.take(p + 1) =~= all.take(p as int).push(all[p as int]));
                assert(fields_of(out@) =~= before + all.take(p + 1));
                p += 1;
            }
            assert(all.take(width as int) =~= all);
        },
    }
}

fn name_of_experiment(experiments: &Vec<Experiment>, id: i32) -> (r: String)
    ensures
        r@ == experiment_name(experiments@, id),
{
    let found = find_last(
        experiments,
        &|e: &Experiment| -> (b: bool)
            ensures
                b == is_experiment(id)(*e)
        {
            e.id == id
        },
        Ghost(is_experiment(id)),
    );
    match found {
        Some(at) => experiments[at].name.clone(),
        None => text(""),
    }
}

fn head_line(experiments: &Vec<Experiment>, tasks: &Vec<Task>) -> (r: Vec<String>)
    ensures
        fields_of(r@) == heading(experiments@, tasks@),
{
    let mut out: Vec<String> = Vec::new();
    out.push(text("Matrikelnummer"));
    out.push(text("Name"));
    out.push(text("Benutzername"));
    out.push(text("Sicherheitsbelehrung"));
    assert(fields_of(out@) =~= titles());
    let ghost first = Seq::new(experiments@.len(), |i: int| experiment_title(experiments@[i].name@));
    let mut i: usize = 0;
    assert(fields_of(out@) =~= titles() + first.take(0));
    while i < experiments.len()
        invariant
            i <= experiments.len(),
            first == Seq::new(experiments@.len(), |i: int| experiment_title(experiments@[i].name@)),
            fields_of(out@) == titles() + first.take(i as int),
        decreases experiments.len() - i,
    {
        let ghost so_far = out@;
        let mut title = text("Ausarbeitung ");
        title.append(experiments[i].name.as_str());
        out.push(title);
        assert(fields_of(out@) =~= fields_of(so_far).push(first[i as int]));
        assert(first.take(i + 1) =~= first.take(i as int).push(first[i as int]));
        assert(fields_of(out@) =~= titles() + first.take(i + 1));
        i += 1;
    }
    assert(first.take(experiments.len() as int) =~= first);
    let ghost second = Seq::new(
        tasks@.len(),
        |i: int| task_title(experiment_name(experiments@, tasks@[i].experiment_id), tasks@[i].name@),
    );
    let mut j: usize = 0;
    assert(fields_of(out@) =~= titles() + first + second.take(0));
    while j < tasks.len()
        invariant
            j <= tasks.len(),
            second == Seq::new(
                tasks@.len(),
                |i: int|
                    task_title(experiment_name(experiments@, tasks@[i].experiment_id), tasks@[i].name@),
            ),
            fields_of(out@) == titles() + first + second.take(j as int),
        decreases tasks.len() - j,
    {
        let ghost so_far = out@;
        let mut title = name_of_experiment(experiments, tasks[j].experiment_id);
        title.append(", ");
        title.append(tasks[j].name.as_str());
        out.push(title);
        assert(fields_of(out@) =~= fields_of(so_far).push(second[j as int]));
        assert(second.take(j + 1) =~= second.take(j as int).push(second[j as int]));
        assert(fields_of(out@) =~= titles() + first + second.take(j + 1));
        j += 1;
    }
    assert(second.take(tasks.len() as int) =~= second);
    out
}

fn student_line(
    student: &StudentRow,
    elaborations: &Vec<(Student, BitVec<u32>)>,
    experiments: usize,
    completed: &Vec<(Student, BitVec<u32>)>,
    tasks: usize,
) -> (r: Vec<String>)
    ensures
        fields_of(r@) == line(*student, elaborations@, experiments as nat, completed@, tasks as nat),
{
    let mut out: Vec<String> = Vec::new();
    out.push(student.matrikel.clone());
    out.push(student.name());
    out.push(
        match &student.username {
            Some(name) => name.clone(),
            None => text(""),
        },
    );
    out.push(show_mark(student.instructed));
    assert(fields_of(out@) =~= person(*student));
    push_cells(&mut out, elaborations, experiments, student.id);
    push_cells(&mut out, completed, tasks, student.id);
    out
}

/// The lines of the sheet: the titles, then one line for each student, with
/// a cross for each accepted elaboration and each completed task. A student
/// without an entry gets empty cells. A task whose experiment is not among
/// `experiments` cannot be given a title.
pub fn export_rows(
    students: &Vec<StudentRow>,
    elaborations: &Vec<(Student, BitVec<u32>)>,
    experiments: &Vec<Experiment>,
    completed: &Vec<(Student, BitVec<u32>)>,
    tasks: &Vec<Task>,
) -> (r: Vec<Vec<String>>)
    requires
        refers(tasks@, task_experiment(), experiments@, experiment_id()),
    ensures
        table_of(r@) == export_table(students@, elaborations@, experiments@, completed@, tasks@),
{
    let ghost lines = Seq::new(
        students@.len(),
        |i: int| line(students@[i], elaborations@, experiments@.len(), completed@, tasks@.len()),
    );
    let ghost head = seq![heading(experiments@, tasks@)];
    let mut out: Vec<Vec<String>> = Vec::new();
    out.push(head_line(experiments, tasks));
    assert(table_of(out@) =~= head + lines.take(0));
    let mut i: usize = 0;
    while i < students.len()
        invariant
            i <= students.len(),
            lines == Seq::new(
                students@.len(),
                |i: int| line(students@[i], elaborations@, experiments@.len(), completed@, tasks@.len()),
            ),
            head == seq![heading(experiments@, tasks@)],
            table_of(out@) == head + lines.take(i as int),
        decreases students.len() - i,
    {
        let ghost so_far = out@;
        out.push(student_line(&students[i], elaborations, experiments.len(), completed, tasks.len()));
        assert(table_of(out@) =~= table_of(so_far).push(lines[i as int]));
        assert(lines.take(i + 1) =~= lines.take(i as int).push(lines[i as int]));
        assert(table_of(out@) =~= head + lines.take(i + 1));
        i += 1;
    }
    assert(lines.take(students.len() as int) =~= lines);
    out
}

/// The order of the students in the sheet: by id.
pub open spec fn line_order() -> spec_fn(StudentRow) -> Seq<i128> {
    |s: StudentRow| seq![s.id as i128]
}

fn line_order_of(s: &StudentRow) -> (k: Vec<i128>)
    ensures
        k@ == line_order()(*s),
{
    let mut k: Vec<i128> = Vec::new();
    k.push(s.id as i128);
    assert(k@ =~= seq![s.id as i128]);
    k
}

/// What the sheet of a year is made of: the students of the year by id, the
/// experiments and the tasks of the year in the order of their columns, and
/// for each student who has any the accepted elaborations and the completed
/// tasks.
pub open spec fn exports(
    t: Tables,
    year: i16,
    students: Seq<StudentRow>,
    elaborations: Seq<(Student, BitVec<u32>)>,
    experiments: Seq<Experiment>,
    completed: Seq<(Student, BitVec<u32>)>,
    tasks: Seq<Task>,
) -> bool {
    &&& lists(t.students, key_is(student_year(), year as i32), line_order(), students)
    &&& lists(t.experiments, key_is(experiment_year(), year as i32), experiment_order(), experiments)
    &&& lists(t.tasks, counted_task(t, year, true), task_order(), tasks)
    &&& summarizes(
        t,
        year,
        elaboration_marks(t.elaborations, experiments, None, Some(true)),
        experiments.len(),
        elaborations,
    )
    &&& summarizes(t, year, task_marks(t.completions, tasks), tasks.len(), completed)
}

/// The bytes are the sheet of the year.
pub open spec fn is_export(t: Tables, year: i16, bytes: Seq<u8>) -> bool {
    exists|
        students: Seq<StudentRow>,
        elaborations: Seq<(Student, BitVec<u32>)>,
        experiments: Seq<Experiment>,
        completed: Seq<(Student, BitVec<u32>)>,
        tasks: Seq<Task>,
    |
        #[trigger] exports(t, year, students, elaborations, experiments, completed, tasks) && bytes
            == sheet_bytes(export_table(students, elaborations, experiments, completed, tasks))
}

/// Each counted task of a year belongs to an experiment of the year.
pub proof fn lemma_tasks_have_experiments(
    t: Tables,
    year: i16,
    experiments: Seq<Experiment>,
    tasks: Seq<Task>,
)
    requires
        lists(t.experiments, key_is(experiment_year(), year as i32), experiment_order(), experiments),
        lists(t.tasks, counted_task(t, year, true), task_order(), tasks),
    ensures
        refers(tasks, task_experiment(), experiments, experiment_id()),
{
    let in_year = key_is(experiment_year(), year as i32);
    let counted = counted_task(t, year, true);
    lemma_same_rows(tasks, t.tasks.filter(counted));
    lemma_same_rows(experiments, t.experiments.filter(in_year));
    lemma_filter_every(t.tasks, counted, |x: Task| true);
    assert forall|i: int| 0 <= i < tasks.len() implies has_key(
        experiments,
        experiment_id(),
        task_experiment()(#[trigger] tasks[i]),
    ) by {
        let kept = t.tasks.filter(counted);
        assert(tasks.contains(tasks[i]));
        assert(kept.contains(tasks[i]));
        let k = choose|k: int| 0 <= k < kept.len() && kept[k] == tasks[i];
        assert(counted(kept[k]));
        let id = tasks[i].experiment_id;
        let j = choose|j: int|
            0 <= j < t.experiments.len() && experiment_id()(#[trigger] t.experiments[j]) == id
                && in_year(t.experiments[j]);
        lemma_filter_has_key(t.experiments, in_year, experiment_id(), id);
        let both = |e: Experiment| in_year(e) && experiment_id()(e) == id;
        assert(both(t.experiments[j]));
        let found = t.experiments.filter(in_year);
        let m = choose|m: int| 0 <= m < found.len() && experiment_id()(#[trigger] found[m]) == id;
        assert(found.contains(found[m]));
        assert(experiments.contains(found[m]));
        let n = choose|n: int| 0 <= n < experiments.len() && experiments[n] == found[m];
        assert(experiment_id()(experiments[n]) == id);
    }
}

/// The position of the last row that satisfies `p` is a position of such a
/// row.
pub proof fn lemma_last_where<T>(rows: Seq<T>, p: spec_fn(T) -> bool)
    ensures
        last_where(rows, p) matches Some(i) ==> 0 <= i < rows.len() && p(rows[i]),
    decreases rows.len(),
{
    if rows.len() > 0 && !p(rows.last()) {
        lemma_last_where(rows.drop_last(), p);
    }
}

/// The cells of a student in a summary are as many as the summary is wide.
pub proof fn lemma_cells_fill(
    t: Tables,
    year: i16,
    marks: Seq<Mark>,
    width: nat,
    entries: Seq<(Student, BitVec<u32>)>,
    id: i32,
)
    requires
        summarizes(t, year, marks, width, entries),
    ensures
        cells(entries, width, id).len() == width,
{
    lemma_last_where(entries, entry_of(id));
    if let Some(i) = last_where(entries, entry_of(id)) {
        lemma_entry_tells(t, year, marks, width, entries, i);
    }
}

/// Every line of the sheet of a year has a cell for each column.
pub proof fn lemma_sheet_is_rectangular(
    t: Tables,
    year: i16,
    students: Seq<StudentRow>,
    elaborations: Seq<(Student, BitVec<u32>)>,
    experiments: Seq<Experiment>,
    completed: Seq<(Student, BitVec<u32>)>,
    tasks: Seq<Task>,
)
    requires
        exports(t, year, students, elaborations, experiments, completed, tasks),
    ensures
        rectangular(export_table(students, elaborations, experiments, completed, tasks)),
{
    let table = export_table(students, elaborations, experiments, completed, tasks);
    assert(table[0].len() == 4 + experiments.len() + tasks.len());
    assert forall|i: int| 0 <= i < table.len() implies (#[trigger] table[i]).len() == table[0].len() by {
        if i > 0 {
            let s = students[i - 1];
            lemma_cells_fill(
                t,
                year,
                elaboration_marks(t.elaborations, experiments, None, Some(true)),
                experiments.len(),
                elaborations,
                s.id,
            );
            lemma_cells_fill(t, year, task_marks(t.completions, tasks), tasks.len(), completed, s.id);
            assert(table[i] == line(s, elaborations, experiments.len(), completed, tasks.len()));
        }
    }
}

/// The sheet of a year as comma-separated text.
pub fn create_csv(year: i16, conn: &Database) -> (r: ApiResult<Vec<u8>>)
    requires
        conn.wf(),
    ensures
        r is Ok,
        r matches Ok(bytes) ==> is_export(conn@, year, bytes@),
{
    let students = select_sorted(
        conn.students(),
        &|s: &StudentRow| -> (b: bool)
            ensures
                b == key_is(student_year(), year as i32)(*s)
        {
            s.year == year
        },
        Ghost(key_is(student_year(), year as i32)),
        &line_order_of,
        Ghost(line_order()),
    );
    let (elaborations, experiments) = load_elaborations_by_student(year, None, Some(true), conn);
    let (completed, tasks) = load_tasks_by_student(year, true, conn);
    proof {
        lemma_tasks_have_experiments(conn@, year, experiments@, tasks@);
        assert(exports(conn@, year, students@, elaborations@, experiments@, completed@, tasks@));
        lemma_sheet_is_rectangular(
            conn@,
            year,
            students@,
            elaborations@,
            experiments@,
            completed@,
            tasks@,
        );
    }
    let rows = export_rows(&students, &elaborations, &experiments, &completed, &tasks);
    write_sheet(&rows)
}

} // verus!
