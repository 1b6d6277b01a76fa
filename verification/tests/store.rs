use hwpb::db::delta::{changes, Action, Change, Row};
use hwpb::db::models::{AuditLog, Completion, Day, Experiment, Group, Task, Tutor, Year};
use hwpb::db::store::Database;
use hwpb::errors::ApiError;

#[test]
fn a_day_needs_its_year() {
    let mut db = Database::new();
    let orphan = Day { id: 1, name: String::from("Montag"), year: 2024 };
    assert_eq!(db.insert_day(orphan), Err(ApiError::ConstraintViolation));
    assert_eq!(db.insert_year(Year { id: 2024, writable: true }), Ok(()));
    let day = Day { id: 1, name: String::from("Montag"), year: 2024 };
    assert_eq!(db.insert_day(day), Ok(()));
    assert_eq!(db.days().len(), 1);
}

fn word(s: &str) -> String {
    String::from(s)
}

fn tutor() -> hwpb::web::session::User {
    hwpb::web::session::User::restore(word("tina"), false, vec![2024, 2023], vec![2024])
}

/// Year 2024 with a day, an experiment with a task, and a group with a
/// student; year 2023 with a day and a tutor.
fn lab() -> Database {
    let mut db = Database::new();
    db.set_now(1_700_000_000_000_000);
    db.insert_year(Year { id: 2024, writable: true }).unwrap();
    db.insert_year(Year { id: 2023, writable: true }).unwrap();
    db.insert_day(Day { id: 1, name: word("Montag"), year: 2024 }).unwrap();
    db.insert_day(Day { id: 2, name: word("Freitag"), year: 2023 }).unwrap();
    db.insert_experiment(Experiment { id: 1, name: word("E1"), year: 2024 }).unwrap();
    db.insert_task(Task { id: 1, experiment_id: 1, name: word("T1") }).unwrap();
    db.insert_group(Group { id: 1, desk: 3, day_id: 1, comment: word("") }).unwrap();
    db.insert_tutor(Tutor { id: 1, username: word("tom"), year: 2023, is_admin: false }).unwrap();
    db
}

#[test]
fn stores_that_hold_the_same_need_no_statement() {
    let db = lab();
    assert_eq!(changes(&db, &db.snapshot()), vec![]);
    assert_eq!(changes(&Database::new(), &Database::new()), vec![]);
}

#[test]
fn what_is_new_is_inserted_the_named_rows_first() {
    let before = lab();
    let mut after = before.snapshot();
    hwpb::web::api::put_completion(1, 1, &mut after, &tutor()).unwrap();
    let log = AuditLog {
        id: 1,
        created_at: 1_700_000_000_000_000,
        year: 2024,
        author: word("tina"),
        affected_group: Some(1),
        change: word("Mark task T1 (#1) of E1 as completed"),
    };
    assert_eq!(
        changes(&before, &after),
        vec![
            Change { action: Action::Insert, row: Row::Completion(Completion { group_id: 1, task_id: 1 }) },
            Change { action: Action::Insert, row: Row::AuditLog(log) },
        ]
    );
    // From an empty store everything is inserted, a table after those that
    // its rows name.
    let all = changes(&Database::new(), &before);
    assert_eq!(all.len(), 8);
    assert!(all.iter().all(|c| c.action == Action::Insert));
    assert!(matches!(all[0].row, Row::Year(_)));
    assert!(matches!(all[2].row, Row::Day(_)));
    assert!(matches!(all[4].row, Row::Experiment(_)));
    assert!(matches!(all[5].row, Row::Group(_)));
    assert!(matches!(all[6].row, Row::Task(_)));
    assert!(matches!(all[7].row, Row::Tutor(_)));
}

#[test]
fn what_has_changed_is_updated() {
    let before = lab();
    let mut after = before.snapshot();
    hwpb::web::api::put_group_desk(1, 9, &mut after, &tutor()).unwrap();
    let made = changes(&before, &after);
    assert_eq!(made.len(), 2);
    assert_eq!(
        made[0],
        Change { action: Action::Update, row: Row::Group(Group { id: 1, desk: 9, day_id: 1, comment: word("") }) }
    );
    assert_eq!(made[1].action, Action::Insert);
    assert!(matches!(made[1].row, Row::AuditLog(_)));
}

#[test]
fn what_is_gone_is_deleted_the_naming_rows_first() {
    let before = lab();
    let mut after = before.snapshot();
    hwpb::db::delete_year(2024, &mut after).unwrap();
    let made = changes(&before, &after);
    assert!(made.iter().all(|c| c.action == Action::Delete));
    assert_eq!(made.len(), 5);
    assert!(matches!(made[0].row, Row::Task(_)));
    assert!(matches!(made[1].row, Row::Group(_)));
    assert!(matches!(made[2].row, Row::Experiment(_)));
    assert!(matches!(made[3].row, Row::Day(_)));
    assert_eq!(made[4].row, Row::Year(Year { id: 2024, writable: true }));
    // Back again, the rows come in the other order.
    let back = changes(&after, &before);
    assert!(back.iter().all(|c| c.action == Action::Insert));
    assert!(matches!(back[0].row, Row::Year(_)));
    assert!(matches!(back[4].row, Row::Task(_)));
}
