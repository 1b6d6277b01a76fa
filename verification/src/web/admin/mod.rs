//! The pages of the admins.
pub mod audit;
pub mod event;
pub mod experiment;
pub mod export;
pub mod student;
pub mod tutor;

use vstd::prelude::*;
use vstd::string::StringExecFns;
use crate::db::store::Database;
use crate::errors::{ApiError, ApiResult};
use crate::web::models::{find_years, is_writable_year, year_writable, Year};
use crate::web::session::{Principal, SiteAdmin, User};

verus! {

/// What every page of the admins shows: which page it is, the year, and the
/// years that the user administers.
pub struct BaseContext {
    pub site: &'static str,
    pub year: i16,
    pub read_only_year: bool,
    pub site_admin: bool,
    pub years: Vec<Year>,
}

/// The years of `all` that the user administers, in their order.
pub open spec fn administered(all: Seq<Year>, p: Principal) -> Seq<Year> {
    all.filter(|y: Year| p.is_admin_for(y.name))
}

/// The years of `all` in which the user is tutor, in their order.
pub open spec fn tutored(all: Seq<Year>, p: Principal) -> Seq<Year> {
    all.filter(|y: Year| p.is_tutor_for(y.name))
}

/// The years in which the user holds the role: admin where `admin` is set,
/// else tutor.
pub fn years_of(all: Vec<Year>, user: &User, admin: bool) -> (r: Vec<Year>)
    ensures
        r@ == if admin {
            administered(all@, user@)
        } else {
            tutored(all@, user@)
        },
{
    let mut out: Vec<Year> = Vec::new();
    let mut i: usize = 0;
    let ghost keep = if admin {
        |y: Year| user@.is_admin_for(y.name)
    } else {
        |y: Year| user@.is_tutor_for(y.name)
    };
    proof {
        reveal(Seq::filter);
    }
    while i < all.len()
        invariant
            i <= all.len(),
            keep == if admin {
                |y: Year| user@.is_admin_for(y.name)
            } else {
                |y: Year| user@.is_tutor_for(y.name)
            },
            out@ == all@.take(i as int).filter(keep),
        decreases all.len() - i,
    {
        let y = all[i];
        proof {
            assert(all@.take(i + 1) =~= all@.take(i as int).push(y));
            crate::relation::lemma_filter_push(all@.take(i as int), y, keep);
        }
        let held = if admin {
            user.is_admin_for(y.name)
        } else {
            user.is_tutor_for(y.name)
        };
        if held {
            out.push(y);
        }
        i += 1;
    }
    assert(all@.take(all.len() as int) =~= all@);
    out
}

impl BaseContext {
    pub fn new(site: &'static str, year: i16, user: &User, conn: &Database) -> (r: BaseContext)
        requires
            conn.wf(),
        ensures
            r.site == site,
            r.year == year,
            r.read_only_year == !year_writable(conn@, year),
            r.site_admin == user@.site_admin,
            exists|all: Seq<Year>|
                crate::web::models::are_years(conn@.years, all) && r.years@ == #[trigger] administered(
                    all,
                    user@,
                ),
    {
        let all = find_years(conn);
        let ghost listed = all@;
        let years = years_of(all, user, true);
        assert(years@ == administered(listed, user@));
        BaseContext {
            site,
            year,
            read_only_year: !is_writable_year(year, conn),
            site_admin: user.is_site_admin(),
            years,
        }
    }
}

/// Where the start page of the admins of a year leads: to the experiments.
pub open spec fn start_page(year: i16) -> Seq<char> {
    "/admin/"@ + crate::text::decimal(year as int) + "/experiments"@
}

/// The start page of the admins of a year. It is for the admins of the
/// year.
pub fn index(year: i16, user: &User) -> (r: ApiResult<String>)
    ensures
        r is Ok <==> user@.is_admin_for(year),
        r matches Ok(to) ==> to@ == start_page(year),
        r is Err ==> r->Err_0 == ApiError::Forbidden,
{
    user.ensure_admin_for(year)?;
    let mut to = String::from_str("/admin/");
    crate::text::push_decimal(&mut to, year as i64);
    to.append("/experiments");
    Ok(to)
}

/// The experiments of a year with their tasks. It is for the admins of the
/// year.
pub fn experiments(year: i16, conn: &Database, user: &User) -> (r: ApiResult<experiment::Context>)
    requires
        conn.wf(),
    ensures
        r is Ok <==> user@.is_admin_for(year),
        r is Err ==> r->Err_0 == ApiError::Forbidden,
        r matches Ok(page) ==> page.base.year == year && crate::listing::presents(
            conn@.experiments,
            crate::relation::key_is(crate::db::schema::experiment_year(), year as i32),
            experiment::experiment_by_name(),
            experiment::shows_experiment(conn@),
            page.experiments@,
        ),
{
    user.ensure_admin_for(year)?;
    Ok(
        experiment::Context {
            base: BaseContext::new("experiments", year, user, conn),
            experiments: experiment::load_experiments(year, conn),
        },
    )
}

/// The days of a year with the dates of the experiments. It is for the
/// admins of the year.
pub fn events(year: i16, conn: &Database, user: &User) -> (r: ApiResult<event::Context>)
    requires
        conn.wf(),
    ensures
        r is Ok <==> user@.is_admin_for(year),
        r is Err ==> r->Err_0 == ApiError::Forbidden,
        r matches Ok(page) ==> page.base.year == year && crate::listing::presents(
            conn@.days,
            crate::relation::key_is(crate::db::schema::day_year(), year as i32),
            event::day_by_name(),
            event::shows_day(conn@, year),
            page.days@,
        ),
{
    user.ensure_admin_for(year)?;
    Ok(
        event::Context {
            base: BaseContext::new("events", year, user, conn),
            days: event::load_days(year, conn),
        },
    )
}

/// The students of a year, ordered by group. It is for the admins of the
/// year.
pub fn students(year: i16, conn: &Database, user: &User) -> (r: ApiResult<student::Context>)
    requires
        conn.wf(),
    ensures
        r is Ok <==> user@.is_admin_for(year),
        r is Err ==> r->Err_0 == ApiError::Forbidden,
        r matches Ok(page) ==> page.base.year == year && student::are_students(
            conn@,
            year,
            None,
            false,
            page.students@,
        ),
{
    students_ordered(year, student::Order { order: None, reverse: None }, conn, user)
}

/// The students of a year in the chosen order. It is for the admins of the
/// year.
pub fn students_ordered(year: i16, order: student::Order, conn: &Database, user: &User) -> (r:
    ApiResult<student::Context>)
    requires
        conn.wf(),
    ensures
        r is Ok <==> user@.is_admin_for(year),
        r is Err ==> r->Err_0 == ApiError::Forbidden,
        r matches Ok(page) ==> page.base.year == year && student::are_students(
            conn@,
            year,
            audit::text_of(order.order),
            order.reverse == Some(true),
            page.students@,
        ),
{
    user.ensure_admin_for(year)?;
    let (students, chosen_order) = student::load_students(year, order, conn);
    Ok(
        student::Context {
            base: BaseContext::new("students", year, user, conn),
            students,
            order: chosen_order,
        },
    )
}

/// Where the audit page of a year starts: at the last hundred entries.
pub open spec fn audit_page(year: i16) -> Seq<char> {
    "/admin/"@ + crate::text::decimal(year as int) + "/audit?limit=100"@
}

/// The start of the audit page of a year.
pub fn audit_index(year: i16, _user: &SiteAdmin) -> (r: String)
    ensures
        r@ == audit_page(year),
{
    let mut to = String::from_str("/admin/");
    crate::text::push_decimal(&mut to, year as i64);
    to.append("/audit?limit=100");
    to
}

/// The tutors of a year, and the whitelist where logins are held to it. It
/// is for the site admins.
pub fn tutors(year: i16, ip_whitelisting: bool, conn: &Database, user: &SiteAdmin) -> (r:
    tutor::Context)
    requires
        conn.wf(),
    ensures
        r.base.year == year,
        crate::listing::presents(
            conn@.tutors,
            crate::relation::key_is(crate::db::schema::tutor_year(), year as i32),
            tutor::tutor_order(),
            tutor::shows_tutor(),
            r.tutors@,
        ),
        r.ip_whitelist is Some <==> ip_whitelisting,
        r.ip_whitelist matches Some(entries) ==> crate::listing::presents(
            conn@.ip_whitelist,
            crate::relation::key_is(crate::db::schema::whitelist_year(), year as i32),
            tutor::network_order(),
            tutor::shows_network(),
            entries@,
        ),
{
    let ip_whitelist = match ip_whitelisting {
        true => Some(tutor::load_whitelist(year, conn)),
        false => None,
    };
    tutor::Context {
        base: BaseContext::new("tutors", year, user.deref(), conn),
        tutors: tutor::load_tutors(year, conn),
        ip_whitelist,
    }
}

/// The audit trail of a year as the filters ask for it, with all authors to
/// choose from. It is for the site admins.
pub fn audit(year: i16, filters: audit::Filters, conn: &Database, user: &SiteAdmin) -> (r:
    audit::Context)
    requires
        conn.wf(),
    ensures
        r.base.year == year,
        audit::is_selection(
            conn@.audit_logs,
            audit::let_through(
                Some(year),
                audit::text_of(filters.search),
                filters.group,
                audit::text_of(filters.author),
            ),
            filters.limit,
            r.logs@,
        ),
        r.filters == filters,
        audit::are_authors(conn@.audit_logs, audit::texts_of(r.authors@)),
{
    let logs = audit::load_logs(year, &filters, conn);
    audit::Context {
        base: BaseContext::new("audit", year, user.deref(), conn),
        logs,
        filters,
        authors: audit::load_authors(conn),
    }
}

/// The name of the file of a sheet that was made on a day.
pub open spec fn export_name(date: Seq<char>) -> Seq<char> {
    "hwpb-export-"@ + date + ".csv"@
}

/// The sheet of a year as a file that is named after the day.
pub fn export_on(date: &str, year: i16, conn: &Database) -> (r: ApiResult<export::CsvResponse>)
    requires
        conn.wf(),
    ensures
        r is Ok,
        r matches Ok(file) ==> file.filename@ == export_name(date@) && export::is_export(
            conn@,
            year,
            file.content@,
        ),
{
    let mut filename = String::from_str("hwpb-export-");
    filename.append(date);
    filename.append(".csv");
    let content = match export::create_csv(year, conn) {
        Ok(content) => content,
        Err(e) => {
            return Err(e);
        },
    };
    Ok(export::CsvResponse { filename, content })
}

/// The sheet of a year as a file that is named after today. It is for the
/// site admins.
pub fn export(year: i16, conn: &Database, _user: &SiteAdmin) -> (r: ApiResult<export::CsvResponse>)
    requires
        conn.wf(),
    ensures
        r is Ok,
        r matches Ok(file) ==> export::is_export(conn@, year, file.content@) && exists|date: Seq<char>|
            file.filename@ == #[trigger] export_name(date),
{
    let date = crate::calendar::today();
    let r = export_on(date.as_str(), year, conn);
    assert(r matches Ok(file) ==> file.filename@ == export_name(date@));
    r
}

} // verus!
