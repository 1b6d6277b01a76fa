//! The days of a year with the date of each experiment.
use vstd::prelude::*;
use super::experiment::{experiment_by_name, experiments_of};
use crate::calendar::{show_date, shown_date};
use crate::db::models::{Day as DayRow, Event, Experiment as ExperimentRow};
use crate::db::schema::{day_year, event_key, experiment_year, Tables};
use crate::db::store::{event_day_of, event_experiment_of, Database};
use crate::db::schema::{event_day, event_experiment};
use crate::listing::{lists, presents, select_sorted, shown_by};
use crate::ordering::{make_text_key, text_key};
use crate::relation::{find_pair, has_key, key_is, the_row};

verus! {

/// The page of the events.
pub struct Context {
    pub base: super::BaseContext,
    pub days: Vec<Day>,
}

/// A day with all experiments of its year, as the page shows it.
pub struct Day {
    pub id: i32,
    pub name: String,
    pub experiments: Vec<Experiment>,
}

/// An experiment with the date on which it takes place for a day, if one is
/// set.
pub struct Experiment {
    pub id: i32,
    pub name: String,
    pub date: Option<String>,
}

/// The order of days: by name, then by id.
pub open spec fn day_by_name() -> spec_fn(DayRow) -> Seq<i128> {
    |d: DayRow| text_key(d.name@) + seq![d.id as i128]
}

pub fn day_by_name_of(d: &DayRow) -> (k: Vec<i128>)
    ensures
        k@ == day_by_name()(*d),
{
    let mut k = make_text_key(d.name.as_str());
    k.push(d.id as i128);
    assert(k@ =~= text_key(d.name@) + seq![d.id as i128]);
    k
}

/// The date of an experiment on a day as it is shown, if one is set.
pub open spec fn date_shown(events: Seq<Event>, day: i32, experiment: i32) -> Option<Seq<char>> {
    if has_key(events, event_key(), (day, experiment)) {
        Some(shown_date(the_row(events, event_key(), (day, experiment)).date))
    } else {
        None
    }
}

/// The entry shows the experiment with its date on the day.
pub open spec fn shows_date(t: Tables, day: i32) -> spec_fn(Experiment, ExperimentRow) -> bool {
    |out: Experiment, row: ExperimentRow|
        out.id == row.id && out.name == row.name && (match out.date {
            Some(date) => date_shown(t.events, day, row.id) == Some(date@),
            None => date_shown(t.events, day, row.id) is None,
        })
}

/// The entry shows the day with the experiments of the year in the order of
/// their names.
pub open spec fn shows_day(t: Tables, year: i16) -> spec_fn(Day, DayRow) -> bool {
    |out: Day, row: DayRow|
        out.id == row.id && out.name == row.name && presents(
            t.experiments,
            key_is(experiment_year(), year as i32),
            experiment_by_name(),
            shows_date(t, row.id),
            out.experiments@,
        )
}

/// The date of an experiment on a day as it is shown, if one is set.
fn date_of(day: i32, experiment: i32, conn: &Database) -> (r: Option<String>)
    requires
        conn.wf(),
    ensures
        match r {
            Some(date) => date_shown(conn@.events, day, experiment) == Some(date@),
            None => date_shown(conn@.events, day, experiment) is None,
        },
{
    let events = conn.events();
    match find_pair(
        events,
        &event_day_of,
        Ghost(event_day()),
        &event_experiment_of,
        Ghost(event_experiment()),
        Ghost(event_key()),
        (day, experiment),
    ) {
        Some(i) => {
            proof {
                crate::relation::lemma_the_row(events@, event_key(), i as int);
            }
            Some(show_date(events[i].date))
        },
        None => None,
    }
}

/// The days of a year with the date of each experiment of the year, days and
/// experiments in the order of their names.
pub fn load_days(year: i16, conn: &Database) -> (r: Vec<Day>)
    requires
        conn.wf(),
    ensures
        presents(conn@.days, key_is(day_year(), year as i32), day_by_name(), shows_day(conn@, year), r@),
{
    let ghost t = conn@;
    let experiments = experiments_of(year, conn);
    let days = select_sorted(
        conn.days(),
        &|d: &DayRow| -> (b: bool)
            ensures
                b == key_is(day_year(), year as i32)(*d)
        {
            d.year == year
        },
        Ghost(key_is(day_year(), year as i32)),
        &day_by_name_of,
        Ghost(day_by_name()),
    );
    let mut out: Vec<Day> = Vec::new();
    let mut i: usize = 0;
    while i < days.len()
        invariant
            i <= days.len(),
            conn.wf(),
            t == conn@,
            lists(t.experiments, key_is(experiment_year(), year as i32), experiment_by_name(), experiments@),
            out@.len() == i,
            forall|j: int| 0 <= j < i ==> shows_day(t, year)(#[trigger] out@[j], days@[j]),
        decreases days.len() - i,
    {
        let day = &days[i];
        let mut shown: Vec<Experiment> = Vec::new();
        let mut k: usize = 0;
        while k < experiments.len()
            invariant
                k <= experiments.len(),
                conn.wf(),
                t == conn@,
                shown@.len() == k,
                forall|j: int| 0 <= j < k ==> shows_date(t, day.id)(#[trigger] shown@[j], experiments@[j]),
            decreases experiments.len() - k,
        {
            let x = &experiments[k];
            shown.push(Experiment { id: x.id, name: x.name.clone(), date: date_of(day.id, x.id, conn) });
            k += 1;
        }
        assert(shown_by(experiments@, shows_date(t, day.id), shown@));
        out.push(Day { id: day.id, name: day.name.clone(), experiments: shown });
        i += 1;
    }
    assert(shown_by(days@, shows_day(t, year), out@));
    out
}

} // verus!
