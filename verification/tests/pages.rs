use hwpb::db::models::{
    Completion, Day, Elaboration, Event, Experiment, Group, GroupMapping, Student, Task, Year,
};
use hwpb::db::store::Database;
use hwpb::errors::ApiError;
use hwpb::web::api::{search_groups, search_students, Search};
use hwpb::web::models::{find_events, find_writable_year, find_years, is_writable_year};
use hwpb::web::pages::{
    find_groups, find_students, load_event, load_group, load_students_for_groups, neighbour,
};
use hwpb::web::session::User;
use hwpb::web::views::{elaboration_of, is_disqualified, marks_of, members_of};
use hwpb::web::{event, event_finder, group, index, overview, Date};

fn word(s: &str) -> String {
    String::from(s)
}

fn student(id: i32, matrikel: &str, given: &str, family: &str) -> Student {
    Student {
        id,
        matrikel: word(matrikel),
        year: 2024,
        username: None,
        instructed: false,
        given_name: word(given),
        family_name: word(family),
    }
}

const MAY_6: i32 = 739_012;

/// Year 2024 (open) and 2023 (closed). In 2024 the days Montag (#1) and
/// Dienstag (#2), the experiments Verstärker (#1, tasks b, a) and Netzteil
/// (#2, task c) and Leer (#3, no task). Events: Verstärker on Montag at 6,
/// 13 and on Dienstag at 7 May; Netzteil on Montag at 20 May. Groups on
/// Montag: #1 desk 2 (Sam, Kim), #2 desk 1 "(ENDE)" (Lee), #3 desk 1; on
/// Dienstag: #4.
fn lab() -> Database {
    let mut db = Database::new();
    db.insert_year(Year { id: 2023, writable: false }).unwrap();
    db.insert_year(Year { id: 2024, writable: true }).unwrap();
    db.insert_day(Day { id: 1, name: word("Montag"), year: 2024 }).unwrap();
    db.insert_day(Day { id: 2, name: word("Dienstag"), year: 2024 }).unwrap();
    db.insert_experiment(Experiment { id: 1, name: word("Verstärker"), year: 2024 }).unwrap();
    db.insert_experiment(Experiment { id: 2, name: word("Netzteil"), year: 2024 }).unwrap();
    db.insert_experiment(Experiment { id: 3, name: word("Leer"), year: 2024 }).unwrap();
    db.insert_task(Task { id: 1, experiment_id: 1, name: word("b") }).unwrap();
    db.insert_task(Task { id: 2, experiment_id: 1, name: word("a") }).unwrap();
    db.insert_task(Task { id: 3, experiment_id: 2, name: word("c") }).unwrap();
    db.insert_event(Event { day_id: 1, experiment_id: 1, date: MAY_6 + 7 }).unwrap();
    db.insert_event(Event { day_id: 2, experiment_id: 1, date: MAY_6 + 1 }).unwrap();
    db.insert_event(Event { day_id: 1, experiment_id: 2, date: MAY_6 + 14 }).unwrap();
    db.insert_event(Event { day_id: 2, experiment_id: 2, date: MAY_6 }).unwrap();
    db.insert_event(Event { day_id: 1, experiment_id: 3, date: MAY_6 }).unwrap();
    db.insert_group(Group { id: 1, desk: 2, day_id: 1, comment: word("") }).unwrap();
    db.insert_group(Group { id: 2, desk: 1, day_id: 1, comment: word("raus (ENDE)") }).unwrap();
    db.insert_group(Group { id: 3, desk: 1, day_id: 1, comment: word("") }).unwrap();
    db.insert_group(Group { id: 4, desk: 7, day_id: 2, comment: word("") }).unwrap();
    db.insert_student(student(1, "300", "Sam", "Sample")).unwrap();
    db.insert_student(student(2, "100", "Kim", "Kay")).unwrap();
    db.insert_student(student(3, "200", "Lee", "")).unwrap();
    db.insert_student(student(4, "400", "Kimberly", "Zed")).unwrap();
    db.insert_group_mapping(GroupMapping { student_id: 1, group_id: 1 }).unwrap();
    db.insert_group_mapping(GroupMapping { student_id: 3, group_id: 2 }).unwrap();
    db.insert_group_mapping(GroupMapping { student_id: 2, group_id: 1 }).unwrap();
    db.insert_group_mapping(GroupMapping { student_id: 4, group_id: 4 }).unwrap();
    db.insert_completion(Completion { group_id: 1, task_id: 2 }).unwrap();
    db.insert_elaboration(Elaboration { group_id: 1, experiment_id: 2, rework_required: true, accepted: false }).unwrap();
    db
}

fn tutor() -> User {
    User::restore(word("tina"), false, vec![2024], vec![])
}

fn stranger() -> User {
    User::restore(word("otto"), false, vec![2023], vec![2023])
}

fn terms(list: &[&str]) -> Vec<String> {
    list.iter().map(|t| word(t)).collect()
}

#[test]
fn years_are_listed_the_latest_first() {
    let db = lab();
    let years: Vec<(i16, bool)> = find_years(&db).iter().map(|y| (y.name, y.read_only)).collect();
    assert_eq!(years, vec![(2024, false), (2023, true)]);
    assert!(is_writable_year(2024, &db));
    assert!(!is_writable_year(2023, &db));
    assert!(!is_writable_year(1999, &db));
    assert_eq!(find_writable_year(1, &db), Ok(2024));
    assert_eq!(find_writable_year(77, &db), Err(ApiError::NotFound));
    let page = index(&db, &tutor(), "1.0", "abc");
    assert_eq!(page.years.iter().map(|y| y.name).collect::<Vec<i16>>(), vec![2024]);
    assert_eq!((page.version, page.commit_id), ("1.0", "abc"));
}

#[test]
fn a_group_of_a_closed_year_is_locked() {
    let mut db = lab();
    db.insert_day(Day { id: 9, name: word("Alt"), year: 2023 }).unwrap();
    db.insert_group(Group { id: 9, desk: 1, day_id: 9, comment: word("") }).unwrap();
    assert_eq!(find_writable_year(9, &db), Err(ApiError::Locked));
}

#[test]
fn the_overview_lists_the_experiments_with_their_dates() {
    let db = lab();
    let experiments = find_events(2024, &db);
    assert_eq!(experiments.iter().map(|x| x.id).collect::<Vec<i32>>(), vec![1, 2, 3]);
    assert_eq!(experiments[0].name, "Verstärker");
    let dates: Vec<(&str, &str)> =
        experiments[0].events.iter().map(|e| (e.date.as_str(), e.day.as_str())).collect();
    assert_eq!(dates, vec![("2024-05-07", "Dienstag"), ("2024-05-13", "Montag")]);
    assert!(experiments[0].events.iter().all(|e| e.year == 2024 && !e.read_only && e.groups.is_empty()));
    assert_eq!(find_events(2023, &db).len(), 0);
    let page = overview(2024, &db, &tutor()).unwrap();
    assert_eq!((page.year, page.read_only, page.is_admin), (2024, false, false));
    assert_eq!(page.experiments.len(), 3);
    assert!(matches!(overview(2024, &db, &stranger()), Err(ApiError::Forbidden)));
    let closed = overview(2023, &db, &stranger()).unwrap();
    assert!(closed.read_only && closed.is_admin);
}

#[test]
fn an_event_shows_its_groups_with_what_they_did() {
    let db = lab();
    let page = load_event(MAY_6 + 7, &db).unwrap();
    assert_eq!((page.year, page.read_only), (2024, false));
    assert_eq!(page.date, "2024-05-13");
    assert_eq!((page.day_id, page.day.as_str()), (1, "Montag"));
    assert_eq!((page.experiment_id, page.experiment.as_str()), (1, "Verstärker"));
    assert_eq!(page.prev_event, Some(word("2024-05-06")));
    assert_eq!(page.next_event, Some(word("2024-05-20")));
    // Groups that are out come last; the others stand by desk.
    assert_eq!(page.groups.iter().map(|g| g.id).collect::<Vec<i32>>(), vec![3, 1, 2]);
    let first = &page.groups[1];
    assert_eq!(first.desk, 2);
    assert!(!first.disqualified);
    assert_eq!(first.students.iter().map(|s| s.name.as_str()).collect::<Vec<&str>>(), vec!["Sam Sample", "Kim Kay"]);
    assert_eq!(first.tasks, vec![(2, word("a"), true), (1, word("b"), false)]);
    assert_eq!(first.elaboration, None);
    assert!(page.groups[2].disqualified);
    assert_eq!(page.groups[2].comment, "raus (ENDE)");
    assert!(matches!(load_event(1, &db), Err(ApiError::NotFound)));
}

#[test]
fn of_two_events_on_a_date_the_first_day_is_shown() {
    let db = lab();
    let page = load_event(MAY_6, &db).unwrap();
    assert_eq!((page.day_id, page.experiment_id), (1, 3));
    assert_eq!(page.prev_event, None);
    assert_eq!(page.next_event, Some(word("2024-05-13")));
    assert_eq!(event_finder(Date(MAY_6), &db).unwrap(), "/2024-05-06/Montag");
    assert_eq!(event_finder(Date(MAY_6 + 1), &db).unwrap(), "/2024-05-07/Dienstag");
    assert!(matches!(event_finder(Date(5), &db), Err(ApiError::NotFound)));
    assert!(event(Date(MAY_6), &db, &tutor()).is_ok());
    assert!(matches!(event(Date(MAY_6), &db, &stranger()), Err(ApiError::Forbidden)));
    assert!(matches!(event(Date(5), &db, &stranger()), Err(ApiError::NotFound)));
}

#[test]
fn the_next_date_of_a_day_is_found() {
    let db = lab();
    assert_eq!(neighbour(1, MAY_6 + 7, true, &db), Some(MAY_6));
    assert_eq!(neighbour(1, MAY_6 + 7, false, &db), Some(MAY_6 + 14));
    assert_eq!(neighbour(1, MAY_6, true, &db), None);
    assert_eq!(neighbour(2, MAY_6 + 1, false, &db), None);
    assert_eq!(neighbour(2, MAY_6 + 1, true, &db), Some(MAY_6));
    assert_eq!(neighbour(5, MAY_6, true, &db), None);
}

#[test]
fn a_date_is_read_from_an_address() {
    assert_eq!(Date::from_param("2024-05-06"), Some(Date(MAY_6)));
    assert_eq!(Date::from_param("0001-01-01"), Some(Date(1)));
    assert_eq!(Date::from_param("2024-02-30"), None);
    assert_eq!(Date::from_param("gestern"), None);
    assert_eq!(*Date(MAY_6).deref(), MAY_6);
}

#[test]
fn the_page_of_a_group_shows_its_progress() {
    let db = lab();
    let page = load_group(1, &db).unwrap();
    assert_eq!((page.id, page.desk, page.year, page.read_only), (1, 2, 2024, false));
    assert_eq!(page.day, "Montag");
    assert_eq!(page.students.iter().map(|s| s.id).collect::<Vec<i32>>(), vec![1, 2]);
    // The experiments that have tasks, by name.
    let shown: Vec<(i32, &str)> =
        page.events.iter().map(|e| (e.experiment_id, e.experiment.as_str())).collect();
    assert_eq!(shown, vec![(2, "Netzteil"), (1, "Verstärker")]);
    assert_eq!(page.events[0].group.elaboration, Some((true, false)));
    assert_eq!(page.events[0].group.tasks, vec![(3, word("c"), false)]);
    assert_eq!(page.events[1].group.tasks, vec![(2, word("a"), true), (1, word("b"), false)]);
    assert_eq!(page.events[1].group.elaboration, None);
    assert!(!page.events[1].group.disqualified);
    assert!(matches!(load_group(99, &db), Err(ApiError::NotFound)));
    assert!(group(1, &db, &tutor()).is_ok());
    assert!(matches!(group(1, &db, &stranger()), Err(ApiError::Forbidden)));
    assert!(matches!(group(99, &db, &stranger()), Err(ApiError::NotFound)));
}

#[test]
fn what_a_group_did_is_read_piece_by_piece() {
    let db = lab();
    assert_eq!(members_of(1, &db).iter().map(|s| s.name.as_str()).collect::<Vec<&str>>(), vec!["Sam Sample", "Kim Kay"]);
    assert_eq!(members_of(3, &db).len(), 0);
    assert_eq!(
        marks_of(1, &vec![Task { id: 1, experiment_id: 1, name: word("b") }, Task { id: 2, experiment_id: 1, name: word("a") }], &db),
        vec![(1, word("b"), false), (2, word("a"), true)]
    );
    assert_eq!(elaboration_of(1, 2, &db), Some((true, false)));
    assert_eq!(elaboration_of(1, 1, &db), None);
    assert!(is_disqualified(&db.groups()[1]));
    assert!(!is_disqualified(&db.groups()[0]));
}

#[test]
fn students_are_sought_by_name_and_number() {
    let db = lab();
    let names = |found: Vec<hwpb::web::models::Student>| -> Vec<String> {
        found.into_iter().map(|s| s.name).collect()
    };
    assert_eq!(names(find_students(&terms(&["kim"]), 2024, &db)), vec!["Kim Kay", "Kimberly Zed"]);
    assert_eq!(names(find_students(&terms(&["KIM", "zed"]), 2024, &db)), vec!["Kimberly Zed"]);
    assert_eq!(names(find_students(&terms(&["00"]), 2024, &db)), vec!["Kim Kay", "Kimberly Zed", "Lee", "Sam Sample"]);
    assert_eq!(names(find_students(&terms(&["m s"]), 2024, &db)), vec!["Sam Sample"]);
    assert_eq!(names(find_students(&terms(&[]), 2024, &db)).len(), 4);
    assert_eq!(names(find_students(&terms(&["kim"]), 2023, &db)).len(), 0);
    assert_eq!(names(find_students(&terms(&["kim", "300"]), 2024, &db)).len(), 0);
    let search = Search { terms: terms(&["lee"]), year: 2024 };
    assert_eq!(search_students(&search, &db, &tutor()).unwrap().len(), 1);
    assert!(matches!(search_students(&search, &db, &stranger()), Err(ApiError::Forbidden)));
}

#[test]
fn groups_are_sought_by_their_students() {
    let db = lab();
    let found = find_groups(&terms(&["kim"]), 2024, &db);
    // Dienstag comes before Montag.
    assert_eq!(found.iter().map(|g| (g.id, g.desk, g.day.as_str())).collect::<Vec<_>>(), vec![(4, 7, "Dienstag"), (1, 2, "Montag")]);
    assert_eq!(found[1].students.iter().map(|s| s.id).collect::<Vec<i32>>(), vec![1, 2]);
    // One student has to be found by every term.
    assert_eq!(find_groups(&terms(&["kim", "sam"]), 2024, &db).len(), 0);
    assert_eq!(find_groups(&terms(&["kim", "kay"]), 2024, &db).len(), 1);
    assert_eq!(find_groups(&terms(&[]), 2024, &db).len(), 3);
    assert_eq!(find_groups(&terms(&["kim"]), 2023, &db).len(), 0);
    let search = Search { terms: terms(&["sample"]), year: 2024 };
    assert_eq!(search_groups(&search, &db, &tutor()).unwrap().len(), 1);
    assert!(matches!(search_groups(&search, &db, &stranger()), Err(ApiError::Forbidden)));
}

#[test]
fn groups_come_with_the_rows_of_their_students() {
    let db = lab();
    let groups = vec![
        Group { id: 1, desk: 2, day_id: 1, comment: word("") },
        Group { id: 3, desk: 1, day_id: 1, comment: word("") },
    ];
    let loaded = load_students_for_groups(groups, &db);
    assert_eq!(loaded.len(), 2);
    assert_eq!(loaded[0].0.id, 1);
    assert_eq!(loaded[0].1.iter().map(|s| s.id).collect::<Vec<i32>>(), vec![1, 2]);
    assert_eq!(loaded[1].1.len(), 0);
}
