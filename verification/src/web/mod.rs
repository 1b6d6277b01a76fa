//! What the course offers to its users: sessions, the operations that
//! change the store, the views that report on it and the analyses.
pub mod admin;
pub mod analysis;
pub mod api;
pub mod audit;
pub mod intake;
pub mod models;
pub mod operation;
pub mod pages;
pub mod push;
pub mod session;
pub mod views;

use vstd::prelude::*;
use vstd::string::StringExecFns;
use crate::calendar::{date_of_text, parse_date, shown_date};
use crate::db::models::Event as EventRow;
use crate::db::schema::{day_id, has_group, Tables};
use crate::db::store::Database;
use crate::errors::{ApiError, ApiResult};
use crate::listing::{lists, presents};
use crate::ordering::lemma_same_rows;
use crate::relation::{lemma_filter_every, some_row, the_row};
use crate::web::admin::{tutored, years_of};
use crate::web::models::{
    are_years, experiment_by_id, find_events, find_years, is_writable_year, shows_events,
    takes_place, year_of_group, year_writable, Event, GroupOverview, Index, Overview, Year,
};
use crate::web::pages::{event_by_day, load_event, load_group, on_date, shows_full_event};
use crate::web::session::User;

verus! {

/// A day of the calendar, as an address names it.
#[derive(Debug, Clone, Copy, PartialEq, Eq, Structural)]
pub struct Date(pub i32);

impl Date {
    /// The day that a part of an address names, in the form
    /// year-month-day.
    pub fn from_param(date: &str) -> (r: Option<Date>)
        ensures
            match r {
                Some(d) => date_of_text(date@) == Some(d.0),
                None => date_of_text(date@) is None,
            },
    {
        match parse_date(date) {
            Some(day) => Some(Date(day)),
            None => None,
        }
    }

    /// The number of the day.
    pub fn deref(&self) -> (r: &i32)
        ensures
            *r == self.0,
    {
        &self.0
    }
}

/// The start page: the years in which the user is tutor, the latest first.
pub fn index(conn: &Database, user: &User, version: &'static str, commit_id: &'static str) -> (r:
    Index)
    ensures
        r.version == version,
        r.commit_id == commit_id,
        exists|all: Seq<Year>| are_years(conn@.years, all) && r.years@ == #[trigger] tutored(all, user@),
{
    let all = find_years(conn);
    let ghost listed = all@;
    let years = years_of(all, user, false);
    assert(years@ == tutored(listed, user@));
    Index { years, version, commit_id }
}

/// The page of a year: the experiments that take place in it, with their
/// events. It is for the tutors of the year.
pub fn overview(year: i16, conn: &Database, user: &User) -> (r: ApiResult<Overview>)
    requires
        conn.wf(),
    ensures
        r is Ok <==> user@.is_tutor_for(year),
        r is Err ==> r->Err_0 == ApiError::Forbidden,
        r matches Ok(page) ==> {
            &&& page.year == year
            &&& page.read_only == !year_writable(conn@, year)
            &&& page.is_admin == user@.is_admin_for(year)
            &&& presents(
                conn@.experiments,
                takes_place(conn@, year),
                experiment_by_id(),
                shows_events(conn@, year),
                page.experiments@,
            )
        },
{
    user.ensure_tutor_for(year)?;
    Ok(
        Overview {
            year,
            read_only: !is_writable_year(year, conn),
            is_admin: user.is_admin_for(year),
            experiments: find_events(year, conn),
        },
    )
}

/// The event is the first of those on the date, by day and experiment.
pub open spec fn first_on(t: Tables, date: i32, e: EventRow) -> bool {
    exists|sorted: Seq<EventRow>|
        #[trigger] lists(t.events, on_date(date), event_by_day(), sorted) && sorted.len() > 0
            && sorted[0] == e
}

/// The address of the page of an event.
pub open spec fn event_address(date: i32, day: Seq<char>) -> Seq<char> {
    "/"@ + shown_date(date) + "/"@ + day
}

/// Where to find the event on a date: the address with the date and the
/// name of the day. Refused where no event is on the date.
pub fn event_finder(date: Date, conn: &Database) -> (r: ApiResult<String>)
    requires
        conn.wf(),
    ensures
        r is Ok <==> some_row(conn@.events, on_date(date.0)),
        r is Err ==> r->Err_0 == ApiError::NotFound,
        r matches Ok(to) ==> exists|e: EventRow|
            #[trigger] first_on(conn@, date.0, e) && to@ == event_address(
                date.0,
                the_row(conn@.days, day_id(), e.day_id).name@,
            ),
{
    let page = load_event(date.0, conn)?;
    proof {
        let sorted = choose|sorted: Seq<EventRow>|
            #[trigger] lists(conn@.events, on_date(date.0), event_by_day(), sorted) && sorted.len() > 0
                && shows_full_event(conn@, page, sorted[0]);
        assert(first_on(conn@, date.0, sorted[0]));
        let found = conn@.events.filter(on_date(date.0));
        lemma_same_rows(sorted, found);
        lemma_filter_every(conn@.events, on_date(date.0), |e: EventRow| true);
        assert(sorted.contains(sorted[0]));
        let k = choose|k: int| 0 <= k < found.len() && found[k] == sorted[0];
        assert(on_date(date.0)(found[k]));
    }
    let mut to = String::from_str("/");
    to.append(page.date.as_str());
    to.append("/");
    to.append(page.day.as_str());
    Ok(to)
}

/// The year of the day of an event.
pub open spec fn year_of_event(t: Tables, e: EventRow) -> i16 {
    the_row(t.days, day_id(), e.day_id).year
}

/// The page of the event on a date. It is for the tutors of the year of
/// the event; where no event is on the date, that is told first.
pub fn event(date: Date, conn: &Database, user: &User) -> (r: ApiResult<Event>)
    requires
        conn.wf(),
    ensures
        match r {
            Ok(page) => exists|e: EventRow|
                #[trigger] first_on(conn@, date.0, e) && shows_full_event(conn@, page, e)
                    && user@.is_tutor_for(year_of_event(conn@, e)),
            Err(ApiError::NotFound) => !some_row(conn@.events, on_date(date.0)),
            Err(ApiError::Forbidden) => exists|e: EventRow|
                #[trigger] first_on(conn@, date.0, e) && !user@.is_tutor_for(year_of_event(conn@, e)),
            Err(_) => false,
        },
{
    let page = load_event(date.0, conn)?;
    proof {
        let sorted = choose|sorted: Seq<EventRow>|
            #[trigger] lists(conn@.events, on_date(date.0), event_by_day(), sorted) && sorted.len() > 0
                && shows_full_event(conn@, page, sorted[0]);
        assert(first_on(conn@, date.0, sorted[0]));
    }
    user.ensure_tutor_for(page.year)?;
    Ok(page)
}

/// Why the page of a group is refused, if it is: there is no such group, or
/// the user is no tutor of its year.
pub open spec fn group_refusal(t: Tables, p: crate::web::session::Principal, group: i32) -> Option<ApiError> {
    if !has_group(t.groups, group) {
        Some(ApiError::NotFound)
    } else if !p.is_tutor_for(year_of_group(t, group)) {
        Some(ApiError::Forbidden)
    } else {
        None
    }
}

/// The page of a group. It is for the tutors of the year of the group.
pub fn group(id: i32, conn: &Database, user: &User) -> (r: ApiResult<GroupOverview>)
    requires
        conn.wf(),
    ensures
        r is Ok <==> group_refusal(conn@, user@, id) is None,
        r matches Err(e) ==> group_refusal(conn@, user@, id) == Some(e),
        r matches Ok(page) ==> page.id == id && page.year == year_of_group(conn@, id),
{
    let page = load_group(id, conn)?;
    user.ensure_tutor_for(page.year)?;
    Ok(page)
}

} // verus!
