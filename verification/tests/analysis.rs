use hwpb::db::models::{
    Completion, Day, Elaboration, Experiment, Group, GroupMapping, Student, Task, Year,
};
use hwpb::db::store::Database;
use hwpb::web::analysis::report::{eligible_of, owing_rework};
use hwpb::web::analysis::student::Student as Entry;
use hwpb::web::analysis::verdict::{intersection, students_with_all, students_with_any};
use hwpb::web::analysis::{load_elaborations_by_student, load_tasks_by_student};

fn text(s: &str) -> String {
    String::from(s)
}

/// Year 2024 with experiment E1 (#1), tasks T1 (#1) and T2 (#2), student S
/// (#1) in group G (#1).
fn course() -> Database {
    let mut db = Database::new();
    db.insert_year(Year { id: 2024, writable: true }).unwrap();
    db.insert_day(Day { id: 1, name: text("Montag"), year: 2024 }).unwrap();
    db.insert_experiment(Experiment { id: 1, name: text("E1"), year: 2024 }).unwrap();
    db.insert_task(Task { id: 1, experiment_id: 1, name: text("T1") }).unwrap();
    db.insert_task(Task { id: 2, experiment_id: 1, name: text("T2") }).unwrap();
    db.insert_group(Group { id: 1, desk: 1, day_id: 1, comment: text("") }).unwrap();
    db.insert_student(Student {
        id: 1,
        matrikel: text("1234567"),
        year: 2024,
        username: None,
        instructed: false,
        given_name: text("Sam"),
        family_name: text("Sample"),
    }).unwrap();
    db.insert_group_mapping(GroupMapping { student_id: 1, group_id: 1 }).unwrap();
    db
}

fn ids(students: &[hwpb::web::analysis::student::Student]) -> Vec<i32> {
    students.iter().map(|s| s.id).collect()
}

#[test]
fn one_task_of_two_is_not_enough() {
    let mut db = course();
    db.insert_completion(Completion { group_id: 1, task_id: 1 }).unwrap();
    let (entries, tasks) = load_tasks_by_student(2024, false, &db);
    assert_eq!(tasks.len(), 2);
    assert_eq!(entries.len(), 1);
    assert_eq!(entries[0].0.id, 1);
    assert_eq!(entries[0].0.name, "Sam Sample");
    assert_eq!(entries[0].1.iter().collect::<Vec<bool>>(), vec![true, false]);
    assert_eq!(ids(&eligible_of(2024, &db)), Vec::<i32>::new());
}

#[test]
fn both_tasks_and_an_accepted_elaboration_make_eligible() {
    let mut db = course();
    db.insert_completion(Completion { group_id: 1, task_id: 1 }).unwrap();
    db.insert_completion(Completion { group_id: 1, task_id: 2 }).unwrap();
    let (entries, _) = load_tasks_by_student(2024, false, &db);
    assert_eq!(entries[0].1.iter().collect::<Vec<bool>>(), vec![true, true]);
    assert_eq!(ids(&eligible_of(2024, &db)), Vec::<i32>::new());
    db.insert_elaboration(Elaboration {
        group_id: 1,
        experiment_id: 1,
        rework_required: false,
        accepted: true,
    }).unwrap();
    let (accepted, experiments) = load_elaborations_by_student(2024, None, Some(true), &db);
    assert_eq!(experiments.len(), 1);
    assert_eq!(accepted[0].1.iter().collect::<Vec<bool>>(), vec![true]);
    assert_eq!(ids(&eligible_of(2024, &db)), vec![1]);
}

#[test]
fn an_open_rework_is_owed() {
    let mut db = course();
    db.insert_completion(Completion { group_id: 1, task_id: 1 }).unwrap();
    db.insert_completion(Completion { group_id: 1, task_id: 2 }).unwrap();
    db.insert_elaboration(Elaboration {
        group_id: 1,
        experiment_id: 1,
        rework_required: true,
        accepted: false,
    }).unwrap();
    assert_eq!(ids(&owing_rework(2024, &db)), vec![1]);
    assert_eq!(ids(&eligible_of(2024, &db)), Vec::<i32>::new());
}

#[test]
fn an_empty_year_asks_nothing() {
    let mut db = Database::new();
    db.insert_year(Year { id: 2024, writable: true }).unwrap();
    assert_eq!(ids(&eligible_of(2024, &db)), Vec::<i32>::new());
    let (entries, tasks) = load_tasks_by_student(2024, false, &db);
    assert!(entries.is_empty());
    assert!(tasks.is_empty());
}

fn viewer(years: Vec<i16>) -> hwpb::web::session::User {
    hwpb::web::session::User::restore(text("tina"), false, years, vec![])
}

#[test]
fn the_lists_are_for_the_tutors_of_the_year() {
    let mut db = course();
    db.insert_completion(Completion { group_id: 1, task_id: 1 }).unwrap();
    db.insert_completion(Completion { group_id: 1, task_id: 2 }).unwrap();
    db.insert_elaboration(Elaboration {
        group_id: 1,
        experiment_id: 1,
        rework_required: false,
        accepted: true,
    }).unwrap();
    let page = hwpb::web::analysis::report::passed(2024, &db, &viewer(vec![2024])).unwrap();
    assert_eq!(page.heading, "Zugelassene Studenten");
    assert_eq!(ids(&page.students), vec![1]);
    assert_eq!((page.year, page.read_only_year, page.show_export_links), (2024, false, false));
    assert!(hwpb::web::analysis::report::passed(2024, &db, &viewer(vec![2023])).is_err());
    let page = hwpb::web::analysis::report::missing_reworks(2024, &db, &viewer(vec![2024])).unwrap();
    assert_eq!(page.students.len(), 0);
    assert!(hwpb::web::analysis::report::missing_reworks(2024, &db, &viewer(vec![])).is_err());
}

#[test]
fn extras_are_asked_of_nobody() {
    let mut db = course();
    db.insert_task(Task { id: 3, experiment_id: 1, name: text("Zusatz") }).unwrap();
    db.insert_completion(Completion { group_id: 1, task_id: 1 }).unwrap();
    db.insert_completion(Completion { group_id: 1, task_id: 2 }).unwrap();
    db.insert_elaboration(Elaboration {
        group_id: 1,
        experiment_id: 1,
        rework_required: false,
        accepted: true,
    }).unwrap();
    let (entries, tasks) = load_tasks_by_student(2024, false, &db);
    assert_eq!(tasks.iter().map(|t| t.id).collect::<Vec<i32>>(), vec![1, 2]);
    assert_eq!(entries[0].1.iter().collect::<Vec<bool>>(), vec![true, true]);
    let (entries, tasks) = load_tasks_by_student(2024, true, &db);
    assert_eq!(tasks.iter().map(|t| t.id).collect::<Vec<i32>>(), vec![1, 2, 3]);
    assert_eq!(entries[0].1.iter().collect::<Vec<bool>>(), vec![true, true, false]);
    assert_eq!(ids(&eligible_of(2024, &db)), vec![1]);
}

#[test]
fn the_two_lists_meet_either_way_round() {
    let mut db = course();
    db.insert_student(Student {
        id: 2,
        matrikel: text("2"),
        year: 2024,
        username: None,
        instructed: false,
        given_name: text("Kim"),
        family_name: text("Kay"),
    }).unwrap();
    db.insert_group(Group { id: 2, desk: 2, day_id: 1, comment: text("") }).unwrap();
    db.insert_group_mapping(GroupMapping { student_id: 2, group_id: 2 }).unwrap();
    db.insert_completion(Completion { group_id: 1, task_id: 1 }).unwrap();
    db.insert_completion(Completion { group_id: 1, task_id: 2 }).unwrap();
    db.insert_completion(Completion { group_id: 2, task_id: 1 }).unwrap();
    for group in [1, 2] {
        db.insert_elaboration(Elaboration {
            group_id: group,
            experiment_id: 1,
            rework_required: true,
            accepted: false,
        }).unwrap();
    }
    let (tasks, _) = load_tasks_by_student(2024, false, &db);
    let (reworks, _) = load_elaborations_by_student(2024, Some(true), Some(false), &db);
    let done = students_with_all(&tasks);
    let open = students_with_any(&reworks);
    assert_eq!(ids(&done), vec![1]);
    assert_eq!(ids(&open), vec![1, 2]);
    let one_way = ids(&intersection(&done, &open));
    let mut other_way = ids(&intersection(&open, &done));
    other_way.sort();
    assert_eq!(one_way, vec![1]);
    assert_eq!(other_way, vec![1]);
    assert_eq!(ids(&owing_rework(2024, &db)), vec![1]);
}

#[test]
fn a_student_is_told_by_the_id() {
    let a = Entry { id: 1, matrikel: text("1"), name: text("A"), username: None, groups: vec![1, 4], instructed: false };
    let b = Entry { id: 1, matrikel: text("2"), name: text("B"), username: None, groups: vec![], instructed: true };
    let c = Entry { id: 2, matrikel: text("1"), name: text("A"), username: None, groups: vec![1, 4], instructed: false };
    assert!(a == b);
    assert!(a != c);
    assert!(a < c);
    assert_eq!(a.last_group(), Some(4));
    assert_eq!(b.last_group(), None);
}

fn newcomer(id: i32, matrikel: &str, given: &str, family: &str) -> Student {
    Student {
        id,
        matrikel: text(matrikel),
        year: 2024,
        username: Some(format!("u{}", id)),
        instructed: id % 2 == 0,
        given_name: text(given),
        family_name: text(family),
    }
}

#[test]
fn who_owes_a_rework_stands_with_their_group() {
    let mut db = course();
    for group in [3, 5] {
        db.insert_group(Group { id: group, desk: group, day_id: 1, comment: text("") }).unwrap();
    }
    db.insert_student(newcomer(2, "22", "Kim", "Kay")).unwrap();
    db.insert_student(newcomer(3, "33", "Lee", "")).unwrap();
    db.insert_student(newcomer(4, "44", "No", "Rework")).unwrap();
    // Sam was in group 1 and is now in group 5, with Lee; Kim is in group 3.
    db.insert_group_mapping(GroupMapping { student_id: 1, group_id: 5 }).unwrap();
    db.insert_group_mapping(GroupMapping { student_id: 3, group_id: 5 }).unwrap();
    db.insert_group_mapping(GroupMapping { student_id: 2, group_id: 3 }).unwrap();
    db.insert_group_mapping(GroupMapping { student_id: 4, group_id: 3 }).unwrap();
    for group in [1, 3, 5] {
        db.insert_completion(Completion { group_id: group, task_id: 1 }).unwrap();
        db.insert_completion(Completion { group_id: group, task_id: 2 }).unwrap();
        db.insert_elaboration(Elaboration {
            group_id: group,
            experiment_id: 1,
            rework_required: true,
            accepted: false,
        }).unwrap();
    }
    let owing = owing_rework(2024, &db);
    // By the largest group, then by id: Kim and No (3), Sam and Lee (5).
    assert_eq!(ids(&owing), vec![2, 4, 1, 3]);
    assert_eq!(owing[2].groups, vec![1, 5]);
    assert_eq!(owing[0].groups, vec![3]);
    assert_eq!(owing[3].groups, vec![5]);
    assert_eq!(owing[2].name, "Sam Sample");
    assert_eq!(owing[2].matrikel, "1234567");
    assert_eq!(owing[2].username, None);
    assert_eq!(owing[3].name, "Lee");
    assert_eq!(owing[3].matrikel, "33");
    assert_eq!(owing[3].username, Some(text("u3")));
    assert!(!owing[3].instructed && owing[1].instructed);
    // The same store gives the same list.
    assert_eq!(ids(&owing_rework(2024, &db)), vec![2, 4, 1, 3]);
    // Group 1 hands in its rework: Sam is still listed, through group 5.
    db.replace_elaboration(Elaboration {
        group_id: 1,
        experiment_id: 1,
        rework_required: true,
        accepted: true,
    }).unwrap();
    let owing = owing_rework(2024, &db);
    assert_eq!(ids(&owing), vec![2, 4, 1, 3]);
    assert_eq!(owing[2].groups, vec![5]);
    // Who is eligible is listed with the groups of the accepted elaborations.
    let eligible = eligible_of(2024, &db);
    assert_eq!(ids(&eligible), vec![1]);
    assert_eq!(eligible[0].groups, vec![1]);
    assert_eq!(eligible[0].name, "Sam Sample");
}
