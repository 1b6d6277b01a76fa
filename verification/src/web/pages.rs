//! The pages of an event and of a group, and the search for students and
//! groups.
use vstd::prelude::*;
use crate::calendar::{show_date, shown_date};
use crate::db::models::{
    full_name, Event as EventRow, Experiment as ExperimentRow, Group as GroupRow, GroupMapping,
    Student as StudentRow, Task,
};
use crate::db::schema::{
    day_id, event_day, event_experiment, experiment_id, group_day, group_id, has_group,
    mapping_group, mapping_student, student_id, task_experiment, Tables,
};
use crate::db::store::{day_id_of, experiment_id_of, group_id_of, student_id_of, Database};
use crate::errors::{ApiError, ApiResult};
use crate::listing::{lists, presents, select_sorted, shown_by};
use crate::ordering::{lemma_same_rows, make_text_key, text_key};
use crate::relation::{
    exists_row, has_key, key_is, key_satisfies, lemma_filter_positions, lookup, select_rows, some_row,
    the_row,
};
use crate::text::{chars_of, contains_chars, lowercase, lowercase_of, occurs_in};
use crate::web::admin::experiment::{
    experiment_by_name, experiment_by_name_of, task_by_name, tasks_of,
};
use crate::web::models::{
    is_writable_year, year_writable, Event, EventGroup, GroupOverview, GroupOverviewEvent,
    GroupOverviewGroup, SearchGroup, Student,
};
use crate::web::views::{
    are_members, disqualified, elaboration_of, elaboration_state, is_disqualified, marks_of,
    members_of, shows_mark,
};

verus! {

/// The events on a date.
pub open spec fn on_date(date: i32) -> spec_fn(EventRow) -> bool {
    |e: EventRow| e.date == date
}

/// The order of events by day, then by experiment.
pub open spec fn event_by_day() -> spec_fn(EventRow) -> Seq<i128> {
    |e: EventRow| seq![e.day_id as i128, e.experiment_id as i128]
}

fn event_by_day_of(e: &EventRow) -> (k: Vec<i128>)
    ensures
        k@ == event_by_day()(*e),
{
    let mut k: Vec<i128> = Vec::new();
    k.push(e.day_id as i128);
    k.push(e.experiment_id as i128);
    assert(k@ =~= seq![e.day_id as i128, e.experiment_id as i128]);
    k
}

/// The order of the groups at an event: the groups that are out of the
/// course last, the others by desk.
pub open spec fn group_at_event() -> spec_fn(GroupRow) -> Seq<i128> {
    |g: GroupRow|
        seq![
            if disqualified(g.comment@) {
                1i128
            } else {
                0i128
            },
            g.desk as i128,
            g.id as i128,
        ]
}

fn group_at_event_of(g: &GroupRow) -> (k: Vec<i128>)
    ensures
        k@ == group_at_event()(*g),
{
    let mut k: Vec<i128> = Vec::new();
    k.push(if is_disqualified(g) {
        1
    } else {
        0
    });
    k.push(g.desk as i128);
    k.push(g.id as i128);
    assert(k@ =~= group_at_event()(*g));
    k
}

/// The entry shows the group at an event of the experiment: its students,
/// the tasks of the experiment with the group's marks, and its elaboration.
pub open spec fn shows_event_group(t: Tables, experiment: i32, tasks: Seq<Task>) -> spec_fn(
    EventGroup,
    GroupRow,
) -> bool {
    |out: EventGroup, g: GroupRow|
        {
            &&& out.id == g.id
            &&& out.desk == g.desk
            &&& out.comment == g.comment
            &&& out.disqualified == disqualified(g.comment@)
            &&& are_members(t, g.id, out.students@)
            &&& shown_by(tasks, shows_mark(t, g.id), out.tasks@)
            &&& out.elaboration == elaboration_state(t, g.id, experiment)
        }
}

/// The date next to `date` among the events of a day: the latest before it
/// where `before` is set, else the earliest after it; none where there is no
/// such event.
pub open spec fn is_neighbour(events: Seq<EventRow>, day: i32, date: i32, before: bool, r: Option<i32>) -> bool {
    match r {
        Some(d) => {
            &&& if before {
                d < date
            } else {
                d > date
            }
            &&& exists|i: int| 0 <= i < events.len() && (#[trigger] events[i]).day_id == day && events[i].date == d
            &&& forall|i: int|
                0 <= i < events.len() && (#[trigger] events[i]).day_id == day ==> if before {
                    events[i].date < date ==> events[i].date <= d
                } else {
                    events[i].date > date ==> events[i].date >= d
                }
        },
        None => forall|i: int|
            0 <= i < events.len() && (#[trigger] events[i]).day_id == day ==> if before {
                events[i].date >= date
            } else {
                events[i].date <= date
            },
    }
}

/// The date next to `date` among the events of a day.
pub fn neighbour(day: i32, date: i32, before: bool, conn: &Database) -> (r: Option<i32>)
    ensures
        is_neighbour(conn@.events, day, date, before, r),
{
    let events = conn.events();
    let mut best: Option<i32> = None;
    let mut i: usize = 0;
    while i < events.len()
        invariant
            i <= events.len(),
            is_neighbour(events@.take(i as int), day, date, before, best),
        decreases events.len() - i,
    {
        let e = events[i];
        let ghost seen = events@.take(i as int);
        let ghost more = events@.take(i + 1);
        let ghost old_best = best;
        proof {
            assert(more =~= seen.push(e));
            assert forall|j: int| 0 <= j < seen.len() implies more[j] == seen[j] by {}
        }
        if e.day_id == day && (if before {
            e.date < date
        } else {
            e.date > date
        }) {
            let better = match best {
                None => true,
                Some(d) => if before {
                    e.date > d
                } else {
                    e.date < d
                },
            };
            if better {
                best = Some(e.date);
                proof {
                    assert(more[i as int].day_id == day && more[i as int].date == e.date);
                }
            }
        }
        proof {
            if best == old_best {
                if let Some(d) = best {
                    let j = choose|j: int| 0 <= j < seen.len() && (#[trigger] seen[j]).day_id == day && seen[j].date == d;
                    assert(more[j].day_id == day && more[j].date == d);
                }
            }
            assert(is_neighbour(more, day, date, before, best));
        }
        i += 1;
    }
    assert(events@.take(events.len() as int) =~= events@);
    best
}

/// The text of an optional date.
fn show_optional(date: Option<i32>) -> (r: Option<String>)
    ensures
        r is Some <==> date is Some,
        r matches Some(text) ==> text@ == shown_date(date->Some_0),
{
    match date {
        Some(d) => Some(show_date(d)),
        None => None,
    }
}

/// The page shows the event in full: its day and experiment, the groups of
/// the day, and the dates of the events of the day before and after it.
pub open spec fn shows_full_event(t: Tables, out: Event, e: EventRow) -> bool {
    let day = the_row(t.days, day_id(), e.day_id);
    &&& out.year == day.year
    &&& out.read_only == !year_writable(t, day.year)
    &&& out.date@ == shown_date(e.date)
    &&& out.day_id == e.day_id
    &&& out.day == day.name
    &&& out.experiment_id == e.experiment_id
    &&& out.experiment == the_row(t.experiments, experiment_id(), e.experiment_id).name
    &&& exists|tasks: Seq<Task>|
        #[trigger] lists(t.tasks, key_is(task_experiment(), e.experiment_id), task_by_name(), tasks)
            && presents(
            t.groups,
            key_is(group_day(), e.day_id),
            group_at_event(),
            shows_event_group(t, e.experiment_id, tasks),
            out.groups@,
        )
    &&& exists|prev: Option<i32>|
        #[trigger] is_neighbour(t.events, e.day_id, e.date, true, prev) && (out.prev_event is Some
            <==> prev is Some) && (out.prev_event matches Some(text) ==> text@ == shown_date(
            prev->Some_0,
        ))
    &&& exists|next: Option<i32>|
        #[trigger] is_neighbour(t.events, e.day_id, e.date, false, next) && (out.next_event is Some
            <==> next is Some) && (out.next_event matches Some(text) ==> text@ == shown_date(
            next->Some_0,
        ))
}

/// The page of the event on a date: of the events on that date the one of
/// the first day and experiment. Refused where no event is on the date.
pub fn load_event(date: i32, conn: &Database) -> (r: ApiResult<Event>)
    requires
        conn.wf(),
    ensures
        r is Ok <==> some_row(conn@.events, on_date(date)),
        r is Err ==> r->Err_0 == ApiError::NotFound,
        r matches Ok(page) ==> exists|sorted: Seq<EventRow>|
            #[trigger] lists(conn@.events, on_date(date), event_by_day(), sorted) && sorted.len() > 0
                && shows_full_event(conn@, page, sorted[0]),
{
    let ghost t = conn@;
    let found = select_sorted(
        conn.events(),
        &|e: &EventRow| -> (b: bool)
            ensures
                b == on_date(date)(*e)
        {
            e.date == date
        },
        Ghost(on_date(date)),
        &event_by_day_of,
        Ghost(event_by_day()),
    );
    proof {
        lemma_same_rows(found@, t.events.filter(on_date(date)));
        let at = lemma_filter_positions(t.events, on_date(date));
        if some_row(t.events, on_date(date)) {
            let i = choose|i: int| 0 <= i < t.events.len() && on_date(date)(#[trigger] t.events[i]);
            let k = choose|k: int| 0 <= k < at.len() && #[trigger] at[k] == i;
        }
        if found@.len() > 0 {
            assert(found@.contains(found@[0]));
            let k = choose|k: int|
                0 <= k < t.events.filter(on_date(date)).len() && t.events.filter(on_date(date))[k]
                    == found@[0];
            assert(t.events[at[k]] == found@[0]);
            assert(has_key(t.days, day_id(), event_day()(t.events[at[k]])));
            assert(has_key(t.experiments, experiment_id(), event_experiment()(t.events[at[k]])));
        }
    }
    if found.len() == 0 {
        return Err(ApiError::NotFound);
    }
    let e = found[0];
    let day = lookup(conn.days(), &day_id_of, Ghost(day_id()), e.day_id).unwrap();
    let experiment = lookup(conn.experiments(), &experiment_id_of, Ghost(experiment_id()), e.experiment_id).unwrap();
    let tasks = tasks_of(e.experiment_id, conn);
    let groups = select_sorted(
        conn.groups(),
        &|g: &GroupRow| -> (b: bool)
            ensures
                b == key_is(group_day(), e.day_id)(*g)
        {
            g.day_id == e.day_id
        },
        Ghost(key_is(group_day(), e.day_id)),
        &group_at_event_of,
        Ghost(group_at_event()),
    );
    let mut web_groups: Vec<EventGroup> = Vec::new();
    let mut i: usize = 0;
    while i < groups.len()
        invariant
            i <= groups.len(),
            conn.wf(),
            t == conn@,
            web_groups@.len() == i,
            forall|j: int|
                0 <= j < i ==> shows_event_group(t, e.experiment_id, tasks@)(
                    #[trigger] web_groups@[j],
                    groups@[j],
                ),
        decreases groups.len() - i,
    {
        let group = &groups[i];
        web_groups.push(
            EventGroup {
                id: group.id,
                desk: group.desk,
                students: members_of(group.id, conn),
                tasks: marks_of(group.id, &tasks, conn),
                elaboration: elaboration_of(group.id, e.experiment_id, conn),
                disqualified: is_disqualified(group),
                comment: group.comment.clone(),
            },
        );
        i += 1;
    }
    assert(shown_by(groups@, shows_event_group(t, e.experiment_id, tasks@), web_groups@));
    let prev = neighbour(e.day_id, e.date, true, conn);
    let next = neighbour(e.day_id, e.date, false, conn);
    let page = Event {
        year: day.year,
        read_only: !is_writable_year(day.year, conn),
        date: show_date(e.date),
        day_id: e.day_id,
        day: day.name.clone(),
        experiment_id: e.experiment_id,
        experiment: experiment.name.clone(),
        groups: web_groups,
        prev_event: show_optional(prev),
        next_event: show_optional(next),
    };
    proof {
        assert(lists(t.tasks, key_is(task_experiment(), e.experiment_id), task_by_name(), tasks@));
        assert(is_neighbour(t.events, e.day_id, e.date, true, prev));
        assert(is_neighbour(t.events, e.day_id, e.date, false, next));
        assert(shows_full_event(t, page, found@[0]));
        assert(lists(t.events, on_date(date), event_by_day(), found@));
    }
    Ok(page)
}

/// The experiments of a year that have a task.
pub open spec fn with_tasks(t: Tables, year: i16) -> spec_fn(ExperimentRow) -> bool {
    |x: ExperimentRow| x.year == year && some_row(t.tasks, key_is(task_experiment(), x.id))
}

/// The entry shows what the group has done in the experiment: the tasks with
/// the group's marks, and its elaboration.
pub open spec fn shows_progress(t: Tables, group: GroupRow) -> spec_fn(
    GroupOverviewEvent,
    ExperimentRow,
) -> bool {
    |out: GroupOverviewEvent, x: ExperimentRow|
        {
            &&& out.experiment_id == x.id
            &&& out.experiment == x.name
            &&& out.group.id == group.id
            &&& out.group.disqualified == disqualified(group.comment@)
            &&& presents(
                t.tasks,
                key_is(task_experiment(), x.id),
                task_by_name(),
                shows_mark(t, group.id),
                out.group.tasks@,
            )
            &&& out.group.elaboration == elaboration_state(t, group.id, x.id)
        }
}

/// The page of a group: the group, its students, and for each experiment of
/// its year that has tasks what the group has done, the experiments in the
/// order of their names. Refused where there is no such group.
pub fn load_group(group: i32, conn: &Database) -> (r: ApiResult<GroupOverview>)
    requires
        conn.wf(),
    ensures
        r is Ok <==> has_group(conn@.groups, group),
        r is Err ==> r->Err_0 == ApiError::NotFound,
        r matches Ok(page) ==> {
            let row = the_row(conn@.groups, group_id(), group);
            let day = the_row(conn@.days, day_id(), row.day_id);
            &&& page.id == group
            &&& page.desk == row.desk
            &&& page.comment == row.comment
            &&& page.year == day.year
            &&& page.day == day.name
            &&& page.read_only == !year_writable(conn@, day.year)
            &&& are_members(conn@, group, page.students@)
            &&& presents(
                conn@.experiments,
                with_tasks(conn@, day.year),
                experiment_by_name(),
                shows_progress(conn@, row),
                page.events@,
            )
        },
{
    let ghost t = conn@;
    let row = match lookup(conn.groups(), &group_id_of, Ghost(group_id()), group) {
        Some(row) => row,
        None => {
            return Err(ApiError::NotFound);
        },
    };
    proof {
        let i = choose|i: int| 0 <= i < t.groups.len() && t.groups[i] == *row;
        assert(has_key(t.days, day_id(), group_day()(t.groups[i])));
    }
    let day = lookup(conn.days(), &day_id_of, Ghost(day_id()), row.day_id).unwrap();
    let year = day.year;
    let is_out = is_disqualified(row);
    let ghost keep = with_tasks(t, year);
    let experiments = select_sorted(
        conn.experiments(),
        &|x: &ExperimentRow| -> (b: bool)
            ensures
                b == keep(*x)
        {
            let id = x.id;
            x.year == year && exists_row(
                conn.tasks(),
                &|task: &Task| -> (b: bool)
                    ensures
                        b == key_is(task_experiment(), id)(*task)
                {
                    task.experiment_id == id
                },
                Ghost(key_is(task_experiment(), id)),
            )
        },
        Ghost(keep),
        &experiment_by_name_of,
        Ghost(experiment_by_name()),
    );
    let mut events: Vec<GroupOverviewEvent> = Vec::new();
    let mut i: usize = 0;
    while i < experiments.len()
        invariant
            i <= experiments.len(),
            conn.wf(),
            t == conn@,
            row.id == group,
            is_out == disqualified(row.comment@),
            events@.len() == i,
            forall|j: int| 0 <= j < i ==> shows_progress(t, *row)(#[trigger] events@[j], experiments@[j]),
        decreases experiments.len() - i,
    {
        let x = &experiments[i];
        let tasks = tasks_of(x.id, conn);
        let marks = marks_of(group, &tasks, conn);
        assert(presents(t.tasks, key_is(task_experiment(), x.id), task_by_name(), shows_mark(t, group), marks@))
            by {
            assert(lists(t.tasks, key_is(task_experiment(), x.id), task_by_name(), tasks@));
        }
        events.push(
            GroupOverviewEvent {
                group: GroupOverviewGroup {
                    id: group,
                    disqualified: is_out,
                    tasks: marks,
                    elaboration: elaboration_of(group, x.id, conn),
                },
                experiment_id: x.id,
                experiment: x.name.clone(),
            },
        );
        i += 1;
    }
    assert(shown_by(experiments@, shows_progress(t, *row), events@));
    Ok(
        GroupOverview {
            id: group,
            desk: row.desk,
            year,
            read_only: !is_writable_year(year, conn),
            day: day.name.clone(),
            comment: row.comment.clone(),
            students: members_of(group, conn),
            events,
        },
    )
}

/// The student is found by a term: in whatever case, the term stands in
/// their full name or in their matriculation number.
pub open spec fn found_by(s: StudentRow, term: Seq<char>) -> bool {
    occurs_in(lowercase_of(full_name(s.given_name@, s.family_name@)), lowercase_of(term)) || occurs_in(
        lowercase_of(s.matrikel@),
        lowercase_of(term),
    )
}

/// The students of a year who are found by every term.
pub open spec fn sought(terms: Seq<String>, year: i16) -> spec_fn(StudentRow) -> bool {
    |s: StudentRow| s.year == year && forall|k: int| 0 <= k < terms.len() ==> found_by(s, (#[trigger] terms[k])@)
}

/// Whether a student of the year is found by every term.
pub fn is_sought(s: &StudentRow, terms: &Vec<String>, year: i16) -> (r: bool)
    ensures
        r == sought(terms@, year)(*s),
{
    if s.year != year {
        return false;
    }
    let name_text = lowercase(s.name().as_str());
    let name = chars_of(name_text.as_str());
    let matrikel_text = lowercase(s.matrikel.as_str());
    let matrikel = chars_of(matrikel_text.as_str());
    let mut k: usize = 0;
    while k < terms.len()
        invariant
            k <= terms.len(),
            name@ == lowercase_of(full_name(s.given_name@, s.family_name@)),
            matrikel@ == lowercase_of(s.matrikel@),
            forall|j: int| 0 <= j < k ==> found_by(*s, (#[trigger] terms@[j])@),
        decreases terms.len() - k,
    {
        let term_text = lowercase(terms[k].as_str());
        let term = chars_of(term_text.as_str());
        if !contains_chars(&name, &term) && !contains_chars(&matrikel, &term) {
            assert(!found_by(*s, terms@[k as int]@));
            return false;
        }
        k += 1;
    }
    true
}

/// The order of students by full name, then by id.
pub open spec fn student_by_name() -> spec_fn(StudentRow) -> Seq<i128> {
    |s: StudentRow| text_key(full_name(s.given_name@, s.family_name@)) + seq![s.id as i128]
}

fn student_by_name_of(s: &StudentRow) -> (k: Vec<i128>)
    ensures
        k@ == student_by_name()(*s),
{
    let mut k = make_text_key(s.name().as_str());
    k.push(s.id as i128);
    assert(k@ =~= student_by_name()(*s));
    k
}

/// The entry shows the student by their full name.
pub open spec fn shows_name() -> spec_fn(Student, StudentRow) -> bool {
    |out: Student, s: StudentRow| out.id == s.id && out.name@ == full_name(s.given_name@, s.family_name@)
}

/// The students of a year who are found by every term, in the order of
/// their names.
pub fn find_students(terms: &Vec<String>, year: i16, conn: &Database) -> (r: Vec<Student>)
    ensures
        presents(conn@.students, sought(terms@, year), student_by_name(), shows_name(), r@),
{
    let rows = select_sorted(
        conn.students(),
        &|s: &StudentRow| -> (b: bool)
            ensures
                b == sought(terms@, year)(*s)
        {
            is_sought(s, terms, year)
        },
        Ghost(sought(terms@, year)),
        &student_by_name_of,
        Ghost(student_by_name()),
    );
    let mut out: Vec<Student> = Vec::new();
    let mut i: usize = 0;
    while i < rows.len()
        invariant
            i <= rows.len(),
            out@.len() == i,
            forall|j: int| 0 <= j < i ==> shows_name()(#[trigger] out@[j], rows@[j]),
        decreases rows.len() - i,
    {
        out.push(Student { id: rows[i].id, name: rows[i].name() });
        i += 1;
    }
    assert(shown_by(rows@, shows_name(), out@));
    out
}

/// The membership is one of the group, of a student who is sought.
pub open spec fn member_sought(t: Tables, terms: Seq<String>, year: i16, group: i32) -> spec_fn(
    GroupMapping,
) -> bool {
    |m: GroupMapping|
        m.group_id == group && key_satisfies(t.students, student_id(), m.student_id, sought(terms, year))
}

/// The groups with a student of the year who is found by every term.
pub open spec fn group_sought(t: Tables, terms: Seq<String>, year: i16) -> spec_fn(GroupRow) -> bool {
    |g: GroupRow| some_row(t.group_mappings, member_sought(t, terms, year, g.id))
}

/// The name of a day, and nothing where there is no such day.
pub open spec fn name_of_day(t: Tables, day: i32) -> Seq<char> {
    if has_key(t.days, day_id(), day) {
        the_row(t.days, day_id(), day).name@
    } else {
        Seq::empty()
    }
}

fn day_name_of(day: i32, conn: &Database) -> (r: String)
    requires
        conn.wf(),
    ensures
        r@ == name_of_day(conn@, day),
{
    match lookup(conn.days(), &day_id_of, Ghost(day_id()), day) {
        Some(row) => row.name.clone(),
        None => String::new(),
    }
}

/// The order of groups in a search: by the name of the day, then by desk.
pub open spec fn group_by_day(t: Tables) -> spec_fn(GroupRow) -> Seq<i128> {
    |g: GroupRow| text_key(name_of_day(t, g.day_id)) + seq![g.desk as i128, g.id as i128]
}

/// The entry shows the group with its day and its students.
pub open spec fn shows_group(t: Tables) -> spec_fn(SearchGroup, GroupRow) -> bool {
    |out: SearchGroup, g: GroupRow|
        out.id == g.id && out.desk == g.desk && out.day@ == name_of_day(t, g.day_id) && are_members(
            t,
            g.id,
            out.students@,
        )
}

/// The groups of which a student of the year is found by every term, in the
/// order of their days and desks.
pub fn find_groups(terms: &Vec<String>, year: i16, conn: &Database) -> (r: Vec<SearchGroup>)
    requires
        conn.wf(),
    ensures
        presents(conn@.groups, group_sought(conn@, terms@, year), group_by_day(conn@), shows_group(conn@), r@),
{
    let ghost t = conn@;
    let ghost keep = group_sought(t, terms@, year);
    let rows = select_sorted(
        conn.groups(),
        &|g: &GroupRow| -> (b: bool)
            ensures
                b == keep(*g)
        {
            let id = g.id;
            exists_row(
                conn.group_mappings(),
                &|m: &GroupMapping| -> (b: bool)
                    ensures
                        b == member_sought(t, terms@, year, id)(*m)
                {
                    m.group_id == id && match lookup(
                        conn.students(),
                        &student_id_of,
                        Ghost(student_id()),
                        m.student_id,
                    ) {
                        Some(s) => {
                            let found = is_sought(s, terms, year);
                            proof {
                                let i = choose|i: int| 0 <= i < t.students.len() && t.students[i] == *s;
                                if key_satisfies(t.students, student_id(), m.student_id, sought(terms@, year)) {
                                    let j = choose|j: int|
                                        0 <= j < t.students.len() && student_id()(#[trigger] t.students[j])
                                            == m.student_id && sought(terms@, year)(t.students[j]);
                                    assert(i == j);
                                }
                            }
                            found
                        },
                        None => false,
                    }
                },
                Ghost(member_sought(t, terms@, year, id)),
            )
        },
        Ghost(keep),
        &|g: &GroupRow| -> (k: Vec<i128>)
            ensures
                k@ == group_by_day(t)(*g)
        {
            let mut k = make_text_key(day_name_of(g.day_id, conn).as_str());
            k.push(g.desk as i128);
            k.push(g.id as i128);
            assert(k@ =~= group_by_day(t)(*g));
            k
        },
        Ghost(group_by_day(t)),
    );
    let mut out: Vec<SearchGroup> = Vec::new();
    let mut i: usize = 0;
    while i < rows.len()
        invariant
            i <= rows.len(),
            conn.wf(),
            t == conn@,
            out@.len() == i,
            forall|j: int| 0 <= j < i ==> shows_group(t)(#[trigger] out@[j], rows@[j]),
        decreases rows.len() - i,
    {
        let g = &rows[i];
        out.push(
            SearchGroup {
                id: g.id,
                desk: g.desk,
                day: day_name_of(g.day_id, conn),
                students: members_of(g.id, conn),
            },
        );
        i += 1;
    }
    assert(shown_by(rows@, shows_group(t), out@));
    out
}

/// The rows of the students of a group, in the order in which they joined.
pub open spec fn member_rows(t: Tables, group: i32, rows: Seq<StudentRow>) -> bool {
    shown_by(
        t.group_mappings.filter(key_is(mapping_group(), group)),
        |s: StudentRow, m: GroupMapping| s == the_row(t.students, student_id(), m.student_id),
        rows,
    )
}

/// Each group with the rows of its students.
pub fn load_students_for_groups(groups: Vec<GroupRow>, conn: &Database) -> (r: Vec<
    (GroupRow, Vec<StudentRow>),
>)
    requires
        conn.wf(),
    ensures
        r@.len() == groups@.len(),
        forall|i: int|
            0 <= i < r@.len() ==> (#[trigger] r@[i]).0 == groups@[i] && member_rows(
                conn@,
                groups@[i].id,
                r@[i].1@,
            ),
{
    let ghost t = conn@;
    let ghost src = groups@;
    let mut out: Vec<(GroupRow, Vec<StudentRow>)> = Vec::new();
    for group in it: groups
        invariant
            it.seq() == src,
            conn.wf(),
            t == conn@,
            out@.len() == it.index(),
            forall|i: int|
                0 <= i < out@.len() ==> (#[trigger] out@[i]).0 == src[i] && member_rows(t, src[i].id, out@[i].1@),
    {
        let id = group.id;
        let ghost keep = key_is(mapping_group(), id);
        let mappings = select_rows(
            conn.group_mappings(),
            &|m: &GroupMapping| -> (b: bool)
                ensures
                    b == keep(*m)
            {
                m.group_id == id
            },
            Ghost(keep),
        );
        proof {
            let at = lemma_filter_positions(t.group_mappings, keep);
            assert forall|i: int| 0 <= i < mappings@.len() implies has_key(
                t.students,
                student_id(),
                (#[trigger] mappings@[i]).student_id,
            ) by {
                assert(mappings@[i] == t.group_mappings[at[i]]);
                assert(has_key(t.students, student_id(), mapping_student()(t.group_mappings[at[i]])));
            }
        }
        let mut students: Vec<StudentRow> = Vec::new();
        let mut i: usize = 0;
        while i < mappings.len()
            invariant
                i <= mappings.len(),
                conn.wf(),
                t == conn@,
                forall|j: int|
                    0 <= j < mappings@.len() ==> has_key(
                        t.students,
                        student_id(),
                        (#[trigger] mappings@[j]).student_id,
                    ),
                students@.len() == i,
                forall|j: int|
                    0 <= j < i ==> #[trigger] students@[j] == the_row(
                        t.students,
                        student_id(),
                        mappings@[j].student_id,
                    ),
            decreases mappings.len() - i,
        {
            let row = lookup(conn.students(), &student_id_of, Ghost(student_id()), mappings[i].student_id).unwrap();
            students.push(row.clone());
            i += 1;
        }
        out.push((group, students));
    }
    out
}

} // verus!
