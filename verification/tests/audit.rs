use hwpb::db::models::Year;
use hwpb::db::store::Database;
use hwpb::web::admin::audit::{load_authors, load_logs, select_logs, Filters, Log};
use hwpb::web::api::add_audit_log;
use hwpb::web::audit::{audit_index, audit_logs, load_audit_logs, AuditFilters};
use hwpb::web::session::User;

fn word(s: &str) -> String {
    String::from(s)
}

/// Entries of alice, bob and Alice in the years 2023 and 2024, one second
/// after the other.
fn trail() -> Database {
    let mut db = Database::new();
    db.insert_year(Year { id: 2023, writable: true }).unwrap();
    db.insert_year(Year { id: 2024, writable: true }).unwrap();
    let entries: [(i16, Option<i32>, &str, &str); 6] = [
        (2023, None, "alice", "Create new year 2023"),
        (2023, Some(1), "bob", "Mark task Löten (#1) of Netzteil as completed"),
        (2024, Some(1), "alice", "Mark task Messen (#2) of Verstärker as completed"),
        (2024, Some(2), "bob", "Mark task Messen (#2) of Verstärker as completed"),
        (2024, Some(2), "Alice", "Change desk to 4"),
        (2024, None, "alice", "Create new student Kim Kay (4711, -, #2)"),
    ];
    let mut now: i64 = 1_700_000_000_000_000;
    for (year, group, author, change) in entries {
        db.set_now(now);
        add_audit_log(year, group, author, &mut db, change).unwrap();
        now += 1_000_000;
    }
    db
}

fn changes(logs: &[Log]) -> Vec<&str> {
    logs.iter().map(|log| log.change.as_str()).collect()
}

#[test]
fn the_trail_is_filtered_by_year_and_author() {
    let db = trail();
    let logs = select_logs(Some(2024), &None, None, &Some(word("alice")), None, &db);
    assert_eq!(
        changes(&logs),
        vec![
            "Create new student Kim Kay (4711, -, #2)",
            "Mark task Messen (#2) of Verstärker as completed",
        ]
    );
    assert!(logs.iter().all(|log| log.year == 2024 && log.author == "alice"));
    // The author is matched with regard to case.
    let logs = select_logs(Some(2024), &None, None, &Some(word("Alice")), None, &db);
    assert_eq!(changes(&logs), vec!["Change desk to 4"]);
    let logs = select_logs(Some(2024), &None, None, &Some(word("ALICE")), None, &db);
    assert_eq!(logs.len(), 0);
    // An empty author stands for any.
    let logs = select_logs(Some(2023), &None, None, &Some(word("")), None, &db);
    assert_eq!(logs.len(), 2);
}

#[test]
fn the_search_does_not_mind_the_case() {
    let db = trail();
    let logs = select_logs(Some(2024), &Some(word("MARK verstärker")), None, &None, None, &db);
    assert_eq!(logs.len(), 2);
    assert_eq!(logs[0].author, "bob");
    assert_eq!(logs[1].author, "alice");
    // Every word has to be there.
    let logs = select_logs(Some(2024), &Some(word("mark  desk")), None, &None, None, &db);
    assert_eq!(logs.len(), 0);
    let logs = select_logs(None, &Some(word(" \t löten\n")), None, &None, None, &db);
    assert_eq!(changes(&logs), vec!["Mark task Löten (#1) of Netzteil as completed"]);
    // A search without a word lets everything through.
    let logs = select_logs(None, &Some(word("   ")), None, &None, None, &db);
    assert_eq!(logs.len(), 6);
}

#[test]
fn the_trail_is_filtered_by_group_and_cut_at_the_limit() {
    let db = trail();
    let logs = select_logs(Some(2024), &None, Some(2), &None, None, &db);
    assert_eq!(changes(&logs), vec!["Change desk to 4", "Mark task Messen (#2) of Verstärker as completed"]);
    assert!(logs.iter().all(|log| log.group == Some(2)));
    let logs = select_logs(None, &None, None, &None, Some(2), &db);
    assert_eq!(changes(&logs), vec!["Create new student Kim Kay (4711, -, #2)", "Change desk to 4"]);
    assert_eq!(select_logs(None, &None, None, &None, Some(0), &db).len(), 0);
    assert_eq!(select_logs(None, &None, None, &None, Some(-3), &db).len(), 0);
    assert_eq!(select_logs(None, &None, None, &None, Some(100), &db).len(), 6);
}

#[test]
fn the_newest_entry_comes_first_with_its_time() {
    let db = trail();
    let filters = Filters { search: None, group: None, author: None, limit: None };
    let logs = load_logs(2023, &filters, &db);
    assert_eq!(logs.len(), 2);
    assert_eq!(logs[0].author, "bob");
    assert_eq!(logs[0].time, "2023-11-14T22:13:21+00:00");
    assert_eq!(logs[0].time_short, "2023-11-14 22:13:21");
    assert_eq!(logs[1].time, "2023-11-14T22:13:20+00:00");
    assert_eq!(logs[1].time_short, "2023-11-14 22:13:20");
}

#[test]
fn the_authors_are_listed_once_each() {
    let db = trail();
    assert_eq!(load_authors(&db), vec![word("Alice"), word("alice"), word("bob")]);
    assert_eq!(load_authors(&Database::new()), Vec::<String>::new());
}

#[test]
fn the_page_of_all_years_shows_what_the_filters_let_through() {
    let db = trail();
    let user = User::restore(word("tina"), false, vec![2024], vec![]);
    assert_eq!(audit_index(&user), "/audit?");
    let filters = AuditFilters { year: None, search: Some(word("create")), group: None, author: Some(word("alice")) };
    assert_eq!(load_audit_logs(&filters, &db).len(), 2);
    let page = audit_logs(filters, &db, &user);
    assert_eq!(changes(&page.logs), vec!["Create new student Kim Kay (4711, -, #2)", "Create new year 2023"]);
    assert_eq!(page.authors.len(), 3);
    let years: Vec<i16> = page.years.iter().map(|y| y.name).collect();
    assert_eq!(years, vec![2024, 2023]);
    assert_eq!(page.filters.author, Some(word("alice")));
}
