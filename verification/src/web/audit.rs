//! The audit trail of all years on one page.
use vstd::prelude::*;
use crate::db::store::Database;
use crate::web::admin::audit::{
    are_authors, is_selection, let_through, load_authors, select_logs, text_of, texts_of, Log,
};
use crate::web::models::{are_years, find_years, Year};
use crate::web::session::User;

verus! {

/// The audit page: the entries, the filters that chose them, and the years
/// and authors to choose from.
pub struct AuditContext {
    pub logs: Vec<Log>,
    pub filters: AuditFilters,
    pub years: Vec<Year>,
    pub authors: Vec<String>,
}

/// What to show of the audit trail: the entries of the year, those that
/// mention every word of the search, those about the group, those by the
/// author.
pub struct AuditFilters {
    pub year: Option<i16>,
    pub search: Option<String>,
    pub group: Option<i32>,
    pub author: Option<String>,
}

/// Where the audit page without filters is found.
pub fn audit_index(_user: &User) -> (r: &'static str)
    ensures
        r@ == "/audit?"@,
{
    "/audit?"
}

/// The entries of the audit trail that the filters let through, the newest
/// first.
pub fn load_audit_logs(filters: &AuditFilters, conn: &Database) -> (r: Vec<Log>)
    ensures
        is_selection(
            conn@.audit_logs,
            let_through(filters.year, text_of(filters.search), filters.group, text_of(filters.author)),
            None,
            r@,
        ),
{
    select_logs(filters.year, &filters.search, filters.group, &filters.author, None, conn)
}

/// The audit page for the filters. It is for every user.
pub fn audit_logs(filters: AuditFilters, conn: &Database, _user: &User) -> (r: AuditContext)
    ensures
        r.filters == filters,
        is_selection(
            conn@.audit_logs,
            let_through(filters.year, text_of(filters.search), filters.group, text_of(filters.author)),
            None,
            r.logs@,
        ),
        are_years(conn@.years, r.years@),
        are_authors(conn@.audit_logs, texts_of(r.authors@)),
{
    let authors = load_authors(conn);
    let logs = load_audit_logs(&filters, conn);
    AuditContext { logs, filters, years: find_years(conn), authors }
}

} // verus!
