//! What the pages show: the years, and to which year a group belongs.
use vstd::prelude::*;
use vstd::relations::sorted_by;
use crate::calendar::{show_date, shown_date};
use crate::db::models::{Event as EventRow, Experiment as ExperimentRow, Year as YearRow};
use crate::db::schema::{
    day_id, day_year, event_day, event_experiment, experiment_id, group_id, has_group, year_id, Tables,
};
use crate::db::store::{day_id_of, experiment_id_of, group_id_of, year_id_of, Database};
use crate::errors::{ApiError, ApiResult};
use crate::listing::{number_key, presents, select_sorted, shown_by};
use crate::ordering::{by_key, sort_by_key};
use crate::relation::{exists_row, has_key, key_is, key_satisfies, lookup, some_row, the_row};

verus! {

/// A year as the pages list it.
#[derive(Debug, Clone, Copy, PartialEq, Eq, Structural)]
pub struct Year {
    pub name: i16,
    pub read_only: bool,
}

/// The key by which the years are listed: the latest first.
pub open spec fn latest_first() -> spec_fn(YearRow) -> Seq<i128> {
    |y: YearRow| seq![(-(y.id as int)) as i128]
}

fn latest_first_of(y: &YearRow) -> (k: Vec<i128>)
    ensures
        k@ == latest_first()(*y),
{
    let mut k: Vec<i128> = Vec::new();
    k.push(-(y.id as i128));
    assert(k@ =~= seq![(-(y.id as int)) as i128]);
    k
}

/// The year as listed: read-only where the row is closed to writes.
pub open spec fn listed(y: YearRow) -> Year {
    Year { name: y.id, read_only: !y.writable }
}

/// The years are all the years of the store, the latest first.
pub open spec fn are_years(rows: Seq<YearRow>, years: Seq<Year>) -> bool {
    exists|sorted: Seq<YearRow>|
        #![auto]
        sorted_by(sorted, by_key(latest_first())) && sorted.to_multiset() == rows.to_multiset()
            && years == sorted.map_values(|y: YearRow| listed(y))
}

/// All years, the latest first.
pub fn find_years(conn: &Database) -> (r: Vec<Year>)
    ensures
        are_years(conn@.years, r@),
{
    let years = conn.years().clone();
    assert(years@ =~= conn@.years);
    let rows = sort_by_key(years, &latest_first_of, Ghost(latest_first()));
    let mut out: Vec<Year> = Vec::new();
    let mut i: usize = 0;
    while i < rows.len()
        invariant
            i <= rows.len(),
            out@ == rows@.take(i as int).map_values(|y: YearRow| listed(y)),
        decreases rows.len() - i,
    {
        out.push(Year { name: rows[i].id, read_only: !rows[i].writable });
        assert(rows@.take(i + 1).map_values(|y: YearRow| listed(y)) =~= rows@.take(i as int).map_values(
            |y: YearRow| listed(y),
        ).push(listed(rows@[i as int])));
        i += 1;
    }
    assert(rows@.take(rows.len() as int) =~= rows@);
    out
}

/// The year exists and takes writes.
pub open spec fn year_writable(t: Tables, year: i16) -> bool {
    has_key(t.years, year_id(), year as i32) && the_row(t.years, year_id(), year as i32).writable
}

/// Whether the year exists and takes writes.
pub fn is_writable_year(year: i16, conn: &Database) -> (r: bool)
    requires
        conn.wf(),
    ensures
        r == year_writable(conn@, year),
{
    match lookup(conn.years(), &year_id_of, Ghost(year_id()), year as i32) {
        Some(row) => row.writable,
        None => false,
    }
}

/// The year to which a group belongs: that of its day.
pub open spec fn year_of_group(t: Tables, group: i32) -> i16 {
    the_row(t.days, day_id(), the_row(t.groups, group_id(), group).day_id).year
}

/// The year of a group, for a change to it. Refused with `NotFound` where
/// there is no such group, and with `Locked` where its year is closed.
pub fn find_writable_year(group: i32, conn: &Database) -> (r: ApiResult<i16>)
    requires
        conn.wf(),
    ensures
        r == if !has_group(conn@.groups, group) {
            Err::<i16, ApiError>(ApiError::NotFound)
        } else if !year_writable(conn@, year_of_group(conn@, group)) {
            Err::<i16, ApiError>(ApiError::Locked)
        } else {
            Ok::<i16, ApiError>(year_of_group(conn@, group))
        },
{
    let row = match lookup(conn.groups(), &group_id_of, Ghost(group_id()), group) {
        Some(row) => row,
        None => {
            return Err(ApiError::NotFound);
        },
    };
    let day = match lookup(conn.days(), &day_id_of, Ghost(day_id()), row.day_id) {
        Some(day) => day,
        None => {
            return Err(ApiError::NotFound);
        },
    };
    if is_writable_year(day.year, conn) {
        Ok(day.year)
    } else {
        Err(ApiError::Locked)
    }
}

/// A student as the pages list them.
pub struct Student {
    pub id: i32,
    pub name: String,
}

/// The start page: the years of the user, and which build this is.
pub struct Index {
    pub years: Vec<Year>,
    pub version: &'static str,
    pub commit_id: &'static str,
}

/// The page of a year: its experiments with their events.
pub struct Overview {
    pub year: i16,
    pub read_only: bool,
    pub is_admin: bool,
    pub experiments: Vec<Experiment>,
}

/// An experiment with the events on which it takes place.
pub struct Experiment {
    pub id: i32,
    pub name: String,
    pub events: Vec<Event>,
}

/// An experiment on a day, with the groups of the day where the page is
/// that of the event.
pub struct Event {
    pub year: i16,
    pub read_only: bool,
    pub date: String,
    pub day_id: i32,
    pub day: String,
    pub experiment_id: i32,
    pub experiment: String,
    pub groups: Vec<EventGroup>,
    pub prev_event: Option<String>,
    pub next_event: Option<String>,
}

/// A group at an event.
pub struct EventGroup {
    pub id: i32,
    pub desk: i32,
    pub students: Vec<Student>,
    pub tasks: Vec<(i32, String, bool)>,
    pub elaboration: Option<(bool, bool)>,
    pub disqualified: bool,
    pub comment: String,
}

/// The page of a group: what it has done in each experiment.
pub struct GroupOverview {
    pub id: i32,
    pub desk: i32,
    pub year: i16,
    pub read_only: bool,
    pub day: String,
    pub comment: String,
    pub students: Vec<Student>,
    pub events: Vec<GroupOverviewEvent>,
}

pub struct GroupOverviewEvent {
    pub experiment_id: i32,
    pub experiment: String,
    pub group: GroupOverviewGroup,
}

pub struct GroupOverviewGroup {
    pub id: i32,
    pub disqualified: bool,
    pub tasks: Vec<(i32, String, bool)>,
    pub elaboration: Option<(bool, bool)>,
}

/// A group as a search finds it.
pub struct SearchGroup {
    pub id: i32,
    pub desk: i32,
    pub day: String,
    pub students: Vec<Student>,
}

/// The day is one of the year.
pub open spec fn day_in_year(t: Tables, day: i32, year: i16) -> bool {
    key_satisfies(t.days, day_id(), day, key_is(day_year(), year as i32))
}

/// The events of an experiment on days of the year.
pub open spec fn event_of(t: Tables, experiment: i32, year: i16) -> spec_fn(EventRow) -> bool {
    |e: EventRow| e.experiment_id == experiment && day_in_year(t, e.day_id, year)
}

/// The experiments that take place in the year: on some day of the year
/// there is an event of theirs.
pub open spec fn takes_place(t: Tables, year: i16) -> spec_fn(ExperimentRow) -> bool {
    |x: ExperimentRow| some_row(t.events, event_of(t, x.id, year))
}

/// The order of experiments by id.
pub open spec fn experiment_by_id() -> spec_fn(ExperimentRow) -> Seq<i128> {
    |x: ExperimentRow| seq![x.id as i128]
}

fn experiment_by_id_of(x: &ExperimentRow) -> (k: Vec<i128>)
    ensures
        k@ == experiment_by_id()(*x),
{
    number_key(x.id as i64)
}

/// The order of events: by date, then by day.
pub open spec fn event_by_date() -> spec_fn(EventRow) -> Seq<i128> {
    |e: EventRow| seq![e.date as i128, e.day_id as i128]
}

fn event_by_date_of(e: &EventRow) -> (k: Vec<i128>)
    ensures
        k@ == event_by_date()(*e),
{
    let mut k: Vec<i128> = Vec::new();
    k.push(e.date as i128);
    k.push(e.day_id as i128);
    assert(k@ =~= seq![e.date as i128, e.day_id as i128]);
    k
}

/// The entry shows the event in short: its date, its day and its experiment,
/// without the groups.
pub open spec fn shows_event(t: Tables, year: i16) -> spec_fn(Event, EventRow) -> bool {
    |out: Event, e: EventRow|
        {
            &&& out.year == year
            &&& out.read_only == !year_writable(t, year)
            &&& out.date@ == shown_date(e.date)
            &&& out.day_id == e.day_id
            &&& out.day == the_row(t.days, day_id(), e.day_id).name
            &&& out.experiment_id == e.experiment_id
            &&& out.experiment == the_row(t.experiments, experiment_id(), e.experiment_id).name
            &&& out.groups@.len() == 0
            &&& out.prev_event is None
            &&& out.next_event is None
        }
}

/// The entry shows the experiment with its events of the year in the order
/// of their dates.
pub open spec fn shows_events(t: Tables, year: i16) -> spec_fn(Experiment, ExperimentRow) -> bool {
    |out: Experiment, x: ExperimentRow|
        out.id == x.id && out.name == x.name && presents(
            t.events,
            event_of(t, x.id, year),
            event_by_date(),
            shows_event(t, year),
            out.events@,
        )
}

/// Whether the day is one of the year.
fn is_day_in_year(day: i32, year: i16, conn: &Database) -> (r: bool)
    requires
        conn.wf(),
    ensures
        r == day_in_year(conn@, day, year),
{
    match lookup(conn.days(), &day_id_of, Ghost(day_id()), day) {
        Some(row) => row.year == year,
        None => false,
    }
}

/// The events of an experiment on days of the year, in the order of their
/// dates.
fn events_of(experiment: &ExperimentRow, year: i16, conn: &Database) -> (r: Vec<Event>)
    requires
        conn.wf(),
    ensures
        presents(
            conn@.events,
            event_of(conn@, experiment.id, year),
            event_by_date(),
            shows_event(conn@, year),
            r@,
        ),
{
    let ghost t = conn@;
    let ghost keep = event_of(t, experiment.id, year);
    let id = experiment.id;
    let rows = select_sorted(
        conn.events(),
        &|e: &EventRow| -> (b: bool)
            ensures
                b == keep(*e)
        {
            e.experiment_id == id && is_day_in_year(e.day_id, year, conn)
        },
        Ghost(keep),
        &event_by_date_of,
        Ghost(event_by_date()),
    );
    proof {
        crate::ordering::lemma_same_rows(rows@, t.events.filter(keep));
        let at = crate::relation::lemma_filter_positions(t.events, keep);
        assert forall|i: int| 0 <= i < rows@.len() implies t.events.contains(#[trigger] rows@[i]) && keep(
            rows@[i],
        ) by {
            assert(rows@.contains(rows@[i]));
            let k = choose|k: int| 0 <= k < t.events.filter(keep).len() && t.events.filter(keep)[k] == rows@[i];
            assert(t.events[at[k]] == rows@[i]);
        }
    }
    let read_only = !is_writable_year(year, conn);
    let mut out: Vec<Event> = Vec::new();
    let mut i: usize = 0;
    while i < rows.len()
        invariant
            i <= rows.len(),
            conn.wf(),
            t == conn@,
            keep == event_of(t, experiment.id, year),
            read_only == !year_writable(t, year),
            forall|j: int| 0 <= j < rows@.len() ==> t.events.contains(#[trigger] rows@[j]) && keep(rows@[j]),
            out@.len() == i,
            forall|j: int| 0 <= j < i ==> shows_event(t, year)(#[trigger] out@[j], rows@[j]),
        decreases rows.len() - i,
    {
        let e = rows[i];
        proof {
            assert(t.events.contains(rows@[i as int]));
            let n = choose|n: int| 0 <= n < t.events.len() && t.events[n] == e;
            assert(has_key(t.days, day_id(), event_day()(t.events[n])));
            assert(has_key(t.experiments, experiment_id(), event_experiment()(t.events[n])));
        }
        let day = lookup(conn.days(), &day_id_of, Ghost(day_id()), e.day_id).unwrap();
        let x = lookup(conn.experiments(), &experiment_id_of, Ghost(experiment_id()), e.experiment_id).unwrap();
        out.push(
            Event {
                year,
                read_only,
                date: show_date(e.date),
                day_id: e.day_id,
                day: day.name.clone(),
                experiment_id: e.experiment_id,
                experiment: x.name.clone(),
                groups: Vec::new(),
                prev_event: None,
                next_event: None,
            },
        );
        i += 1;
    }
    assert(shown_by(rows@, shows_event(t, year), out@));
    out
}

/// The experiments that take place in a year, in the order of their ids,
/// each with its events of the year in the order of their dates.
pub fn find_events(year: i16, conn: &Database) -> (r: Vec<Experiment>)
    requires
        conn.wf(),
    ensures
        presents(
            conn@.experiments,
            takes_place(conn@, year),
            experiment_by_id(),
            shows_events(conn@, year),
            r@,
        ),
{
    let ghost t = conn@;
    let ghost keep = takes_place(t, year);
    let rows = select_sorted(
        conn.experiments(),
        &|x: &ExperimentRow| -> (b: bool)
            ensures
                b == keep(*x)
        {
            let id = x.id;
            exists_row(
                conn.events(),
                &|e: &EventRow| -> (b: bool)
                    ensures
                        b == event_of(t, id, year)(*e)
                {
                    e.experiment_id == id && is_day_in_year(e.day_id, year, conn)
                },
                Ghost(event_of(t, id, year)),
            )
        },
        Ghost(keep),
        &experiment_by_id_of,
        Ghost(experiment_by_id()),
    );
    let mut out: Vec<Experiment> = Vec::new();
    let mut i: usize = 0;
    while i < rows.len()
        invariant
            i <= rows.len(),
            conn.wf(),
            t == conn@,
            out@.len() == i,
            forall|j: int| 0 <= j < i ==> shows_events(t, year)(#[trigger] out@[j], rows@[j]),
        decreases rows.len() - i,
    {
        let events = events_of(&rows[i], year, conn);
        out.push(Experiment { id: rows[i].id, name: rows[i].name.clone(), events });
        i += 1;
    }
    assert(shown_by(rows@, shows_events(t, year), out@));
    out
}

} // verus!
