use hwpb::db::inet::Inet;
use hwpb::db::models::{
    Day, Event, Experiment, Group, GroupMapping, IpWhitelistEntry, Student, Task, Tutor, Year,
};
use hwpb::db::store::Database;
use hwpb::errors::ApiError;
use hwpb::web::admin::audit::Filters;
use hwpb::web::admin::student::{load_students, Order};
use hwpb::web::admin::{self, BaseContext};
use hwpb::web::api::add_audit_log;
use hwpb::web::session::{SiteAdmin, User};

fn word(s: &str) -> String {
    String::from(s)
}

fn student(id: i32, matrikel: &str, given: &str, family: &str, username: Option<&str>, instructed: bool) -> Student {
    Student {
        id,
        matrikel: word(matrikel),
        year: 2024,
        username: username.map(word),
        instructed,
        given_name: word(given),
        family_name: word(family),
    }
}

fn lab() -> Database {
    let mut db = Database::new();
    db.insert_year(Year { id: 2023, writable: false }).unwrap();
    db.insert_year(Year { id: 2024, writable: true }).unwrap();
    db.insert_year(Year { id: 2025, writable: true }).unwrap();
    db.insert_day(Day { id: 1, name: word("Montag"), year: 2024 }).unwrap();
    db.insert_day(Day { id: 2, name: word("Dienstag"), year: 2024 }).unwrap();
    db.insert_experiment(Experiment { id: 1, name: word("Verstärker"), year: 2024 }).unwrap();
    db.insert_experiment(Experiment { id: 2, name: word("Netzteil"), year: 2024 }).unwrap();
    db.insert_task(Task { id: 1, experiment_id: 1, name: word("b") }).unwrap();
    db.insert_task(Task { id: 2, experiment_id: 1, name: word("a") }).unwrap();
    db.insert_event(Event { day_id: 1, experiment_id: 1, date: 739_012 }).unwrap();
    db.insert_group(Group { id: 1, desk: 2, day_id: 1, comment: word("") }).unwrap();
    db.insert_group(Group { id: 2, desk: 1, day_id: 2, comment: word("") }).unwrap();
    db.insert_student(student(1, "300", "Sam", "Sample", Some("sam"), true)).unwrap();
    db.insert_student(student(2, "100", "Kim", "Kay", None, false)).unwrap();
    db.insert_student(student(3, "200", "Lee", "Zed", Some("lee"), false)).unwrap();
    db.insert_group_mapping(GroupMapping { student_id: 1, group_id: 2 }).unwrap();
    db.insert_group_mapping(GroupMapping { student_id: 1, group_id: 1 }).unwrap();
    db.insert_group_mapping(GroupMapping { student_id: 2, group_id: 1 }).unwrap();
    db.insert_tutor(Tutor { id: 1, username: word("tina"), year: 2024, is_admin: false }).unwrap();
    db.insert_tutor(Tutor { id: 2, username: word("adam"), year: 2024, is_admin: true }).unwrap();
    db.insert_tutor(Tutor { id: 3, username: word("old"), year: 2023, is_admin: true }).unwrap();
    db.insert_whitelist_entry(IpWhitelistEntry { id: 1, ipnet: Inet::net_v4(192, 168, 1, 0, 24), year: 2024 }).unwrap();
    db.insert_whitelist_entry(IpWhitelistEntry { id: 2, ipnet: Inet::host_v4(10, 0, 0, 1), year: 2024 }).unwrap();
    db
}

fn adam() -> User {
    User::restore(word("adam"), false, vec![2023, 2024], vec![2024])
}

fn tina() -> User {
    User::restore(word("tina"), false, vec![2024], vec![])
}

fn root() -> SiteAdmin {
    SiteAdmin::new(User::restore(word("root"), true, vec![], vec![])).unwrap()
}

fn ids(list: &[hwpb::web::admin::student::Student]) -> Vec<i32> {
    list.iter().map(|s| s.id).collect()
}

fn by(column: Option<&str>, reverse: Option<bool>) -> Order {
    Order { order: column.map(word), reverse }
}

#[test]
fn every_page_knows_the_years_of_the_admin() {
    let db = lab();
    let base = BaseContext::new("students", 2024, &adam(), &db);
    assert_eq!((base.site, base.year, base.read_only_year, base.site_admin), ("students", 2024, false, false));
    assert_eq!(base.years.iter().map(|y| y.name).collect::<Vec<i16>>(), vec![2024]);
    let base = BaseContext::new("tutors", 2023, root().deref(), &db);
    assert!(base.read_only_year && base.site_admin);
    assert_eq!(base.years.iter().map(|y| y.name).collect::<Vec<i16>>(), vec![2025, 2024, 2023]);
}

#[test]
fn the_pages_are_for_the_admins_of_the_year() {
    let db = lab();
    assert_eq!(admin::index(2024, &adam()), Ok(word("/admin/2024/experiments")));
    assert_eq!(admin::index(2024, &tina()), Err(ApiError::Forbidden));
    assert_eq!(admin::index(2023, &adam()), Err(ApiError::Forbidden));
    assert!(matches!(admin::experiments(2024, &db, &tina()), Err(ApiError::Forbidden)));
    assert!(matches!(admin::events(2024, &db, &tina()), Err(ApiError::Forbidden)));
    assert!(matches!(admin::students(2024, &db, &tina()), Err(ApiError::Forbidden)));
    assert!(matches!(admin::students_ordered(2024, by(None, None), &db, &tina()), Err(ApiError::Forbidden)));
    assert_eq!(admin::audit_index(2024, &root()), "/admin/2024/audit?limit=100");
}

#[test]
fn the_experiments_are_listed_with_their_tasks() {
    let db = lab();
    let page = admin::experiments(2024, &db, &adam()).unwrap();
    assert_eq!(page.base.site, "experiments");
    let shown: Vec<(i32, &str)> = page.experiments.iter().map(|x| (x.id, x.name.as_str())).collect();
    assert_eq!(shown, vec![(2, "Netzteil"), (1, "Verstärker")]);
    assert_eq!(page.experiments[0].tasks.len(), 0);
    let tasks: Vec<(i32, &str)> = page.experiments[1].tasks.iter().map(|t| (t.id, t.name.as_str())).collect();
    assert_eq!(tasks, vec![(2, "a"), (1, "b")]);
}

#[test]
fn the_days_are_listed_with_the_dates_of_the_experiments() {
    let db = lab();
    let page = admin::events(2024, &db, &adam()).unwrap();
    assert_eq!(page.days.iter().map(|d| d.name.as_str()).collect::<Vec<&str>>(), vec!["Dienstag", "Montag"]);
    let montag: Vec<(i32, &str, Option<&str>)> =
        page.days[1].experiments.iter().map(|x| (x.id, x.name.as_str(), x.date.as_deref())).collect();
    assert_eq!(montag, vec![(2, "Netzteil", None), (1, "Verstärker", Some("2024-05-06"))]);
    assert!(page.days[0].experiments.iter().all(|x| x.date.is_none()));
}

#[test]
fn the_students_are_listed_in_the_chosen_order() {
    let db = lab();
    let (list, _) = load_students(2024, by(None, None), &db);
    // Who is in no group comes first.
    assert_eq!(ids(&list), vec![3, 2, 1]);
    // The groups stand in the order in which the student joined them.
    assert_eq!(list[2].groups, vec![2, 1]);
    assert_eq!(list[0].groups, Vec::<i32>::new());
    assert_eq!(ids(&load_students(2024, by(Some("matrikel"), None), &db).0), vec![2, 3, 1]);
    assert_eq!(ids(&load_students(2024, by(Some("matrikel"), Some(true)), &db).0), vec![1, 3, 2]);
    assert_eq!(ids(&load_students(2024, by(Some("given-name"), Some(false)), &db).0), vec![2, 3, 1]);
    assert_eq!(ids(&load_students(2024, by(Some("family-name"), None), &db).0), vec![2, 1, 3]);
    assert_eq!(ids(&load_students(2024, by(Some("instructed"), None), &db).0), vec![2, 3, 1]);
    assert_eq!(ids(&load_students(2024, by(Some("username"), None), &db).0), vec![2, 3, 1]);
    assert_eq!(ids(&load_students(2024, by(Some("shoe-size"), None), &db).0), vec![3, 2, 1]);
    assert_eq!(load_students(2023, by(None, None), &db).0.len(), 0);
    let page = admin::students_ordered(2024, by(Some("matrikel"), Some(true)), &db, &adam()).unwrap();
    assert_eq!(ids(&page.students), vec![1, 3, 2]);
    assert_eq!(page.order.order, Some(word("matrikel")));
    let page = admin::students(2024, &db, &adam()).unwrap();
    assert_eq!(ids(&page.students), vec![3, 2, 1]);
    assert_eq!(page.order.order, Some(word("groups")));
    assert_eq!(page.order.reverse, Some(false));
}

#[test]
fn the_tutors_are_listed_with_the_whitelist() {
    let db = lab();
    let page = admin::tutors(2024, true, &db, &root());
    let names: Vec<(&str, bool)> = page.tutors.iter().map(|t| (t.username.as_str(), t.is_admin)).collect();
    assert_eq!(names, vec![("adam", true), ("tina", false)]);
    let nets: Vec<&str> = page.ip_whitelist.as_ref().unwrap().iter().map(|e| e.ipnet.as_str()).collect();
    assert_eq!(nets, vec!["10.0.0.1", "192.168.1.0/24"]);
    let page = admin::tutors(2024, false, &db, &root());
    assert!(page.ip_whitelist.is_none());
}

#[test]
fn the_audit_page_of_a_year_shows_its_entries() {
    let mut db = lab();
    add_audit_log(2024, None, "adam", &mut db, "one").unwrap();
    add_audit_log(2023, None, "adam", &mut db, "two").unwrap();
    add_audit_log(2024, Some(1), "tina", &mut db, "three").unwrap();
    let filters = Filters { search: None, group: None, author: None, limit: Some(100) };
    let page = admin::audit(2024, filters, &db, &root());
    assert_eq!(page.logs.iter().map(|l| l.change.as_str()).collect::<Vec<&str>>(), vec!["three", "one"]);
    assert_eq!(page.authors, vec![word("adam"), word("tina")]);
    assert_eq!(page.base.site, "audit");
}
