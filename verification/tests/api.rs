use hwpb::db::models::{
    Completion, Day, Elaboration, Event, Experiment, Group, GroupMapping, IpWhitelistEntry,
    NewDay, NewExperiment, NewGroup, NewStudent, NewTutor, Student, Task, Tutor, Year,
};
use hwpb::db::inet::Inet;
use hwpb::db::store::Database;
use hwpb::errors::ApiError;
use hwpb::web::analysis::report::owing_rework;
use hwpb::web::api;
use hwpb::web::push;
use hwpb::web::session::{SiteAdmin, User};

fn word(s: &str) -> String {
    String::from(s)
}

fn student(id: i32, year: i16, given: &str, family: &str) -> Student {
    Student {
        id,
        matrikel: format!("{}", 1000 + id),
        year,
        username: None,
        instructed: false,
        given_name: word(given),
        family_name: word(family),
    }
}

/// Year 2024 with day Montag (#1), experiment E1 (#1) with tasks T1 (#1) and
/// T2 (#2), group #1 at desk 3 with student Sam Sample (#1).
fn lab() -> Database {
    let mut db = Database::new();
    db.set_now(1_700_000_000_000_000);
    db.insert_year(Year { id: 2024, writable: true }).unwrap();
    db.insert_day(Day { id: 1, name: word("Montag"), year: 2024 }).unwrap();
    db.insert_experiment(Experiment { id: 1, name: word("E1"), year: 2024 }).unwrap();
    db.insert_task(Task { id: 1, experiment_id: 1, name: word("T1") }).unwrap();
    db.insert_task(Task { id: 2, experiment_id: 1, name: word("T2") }).unwrap();
    db.insert_group(Group { id: 1, desk: 3, day_id: 1, comment: word("") }).unwrap();
    db.insert_student(student(1, 2024, "Sam", "Sample")).unwrap();
    db.insert_group_mapping(GroupMapping { student_id: 1, group_id: 1 }).unwrap();
    db
}

fn tutor() -> User {
    User::restore(word("tina"), false, vec![2024], vec![])
}

fn admin() -> User {
    User::restore(word("adam"), false, vec![2024], vec![2024])
}

fn stranger() -> User {
    User::restore(word("otto"), false, vec![2023], vec![2023])
}

fn root() -> SiteAdmin {
    SiteAdmin::new(User::restore(word("root"), true, vec![], vec![])).unwrap()
}

fn sizes(db: &Database) -> Vec<usize> {
    vec![
        db.years().len(),
        db.days().len(),
        db.experiments().len(),
        db.events().len(),
        db.groups().len(),
        db.students().len(),
        db.group_mappings().len(),
        db.tasks().len(),
        db.completions().len(),
        db.elaborations().len(),
        db.audit_logs().len(),
        db.tutors().len(),
        db.ip_whitelist().len(),
    ]
}

#[test]
fn a_completion_is_put_and_logged_once() {
    let mut db = lab();
    let told = api::put_completion(1, 1, &mut db, &tutor()).unwrap();
    assert_eq!(told, push::Completion { group: 1, task: 1, completed: true });
    assert_eq!(db.completions(), &vec![Completion { group_id: 1, task_id: 1 }]);
    assert_eq!(db.audit_logs().len(), 1);
    let log = &db.audit_logs()[0];
    assert_eq!(log.id, 1);
    assert_eq!(log.year, 2024);
    assert_eq!(log.affected_group, Some(1));
    assert_eq!(log.author, "tina");
    assert_eq!(log.change, "Mark task T1 (#1) of E1 as completed");
    assert_eq!(log.created_at, 1_700_000_000_000_000);
}

#[test]
fn a_completion_put_twice_is_held_once() {
    let mut db = lab();
    api::put_completion(1, 1, &mut db, &tutor()).unwrap();
    api::put_completion(1, 1, &mut db, &tutor()).unwrap();
    assert_eq!(db.completions().len(), 1);
    assert_eq!(db.audit_logs().len(), 2);
}

#[test]
fn a_completion_is_taken_back() {
    let mut db = lab();
    api::put_completion(1, 2, &mut db, &tutor()).unwrap();
    let told = api::delete_completion(1, 2, &mut db, &tutor()).unwrap();
    assert_eq!(told, push::Completion { group: 1, task: 2, completed: false });
    assert_eq!(db.completions().len(), 0);
    assert_eq!(db.audit_logs()[1].change, "Unmark task T2 (#2) of E1 as completed");
}

#[test]
fn a_closed_year_takes_no_change() {
    let mut db = lab();
    api::put_year_writable(2024, &mut db, &root()).unwrap();
    assert_eq!(db.years(), &vec![Year { id: 2024, writable: false }]);
    assert_eq!(db.audit_logs()[0].change, "Close year 2024 (no longer modifiable)");
    let before = sizes(&db);
    assert_eq!(api::put_completion(1, 1, &mut db, &tutor()), Err(ApiError::Locked));
    assert_eq!(api::delete_completion(1, 1, &mut db, &tutor()), Err(ApiError::Locked));
    assert_eq!(api::put_elaboration(1, 1, false, false, &mut db, &tutor()), Err(ApiError::Locked));
    assert_eq!(api::delete_elaboration(1, 1, &mut db, &tutor()), Err(ApiError::Locked));
    assert_eq!(api::put_group_comment(1, word("x"), &mut db, &tutor()), Err(ApiError::Locked));
    assert_eq!(api::put_group_desk(1, 9, &mut db, &tutor()), Err(ApiError::Locked));
    assert_eq!(api::put_group_student(1, 1, &mut db, &tutor()), Err(ApiError::Locked));
    assert_eq!(api::delete_group_student(1, 1, &mut db, &tutor()), Err(ApiError::Locked));
    assert_eq!(
        api::post_group(NewGroup { desk: 1, day_id: 1, comment: word("") }, &mut db, &tutor()),
        Err(ApiError::Locked)
    );
    assert_eq!(
        api::post_experiment(NewExperiment { name: word("E2"), year: 2024 }, &mut db, &admin()),
        Err(ApiError::Locked)
    );
    assert_eq!(api::post_day(NewDay { name: word("Dienstag"), year: 2024 }, &mut db, &admin()), Err(ApiError::Locked));
    assert_eq!(api::delete_experiment(1, &mut db, &admin()), Err(ApiError::Locked));
    assert_eq!(api::delete_day(1, &mut db, &admin()), Err(ApiError::Locked));
    assert_eq!(api::delete_student(1, &mut db, &admin()), Err(ApiError::Locked));
    assert_eq!(api::put_student_instucted(1, true, &mut db, &admin()), Err(ApiError::Locked));
    assert_eq!(api::put_event(1, 1, "2024-05-06", &mut db, &admin()), Err(ApiError::Locked));
    assert_eq!(api::delete_event(1, 1, &mut db, &admin()), Err(ApiError::Locked));
    assert_eq!(api::post_experiment_task(1, word("T3"), &mut db, &admin()), Err(ApiError::Locked));
    assert_eq!(api::delete_experiment_task(1, 1, &mut db, &admin()), Err(ApiError::Locked));
    assert_eq!(
        api::post_tutor(NewTutor { username: word("t"), year: 2024, is_admin: false }, &mut db, &root()),
        Err(ApiError::Locked)
    );
    assert_eq!(api::put_year_writable(2024, &mut db, &root()), Err(ApiError::Locked));
    // A closed year is told before a missing right.
    assert_eq!(api::put_completion(1, 1, &mut db, &stranger()), Err(ApiError::Locked));
    assert_eq!(sizes(&db), before);
}

#[test]
fn a_stranger_is_forbidden() {
    let mut db = lab();
    let before = sizes(&db);
    assert_eq!(api::put_completion(1, 1, &mut db, &stranger()), Err(ApiError::Forbidden));
    assert_eq!(api::post_student(
        NewStudent { matrikel: word("1"), year: 2024, username: None, given_name: word("A"), family_name: word("B") },
        &mut db,
        &tutor(),
    ), Err(ApiError::Forbidden));
    assert_eq!(sizes(&db), before);
}

#[test]
fn what_is_not_there_is_not_found() {
    let mut db = lab();
    assert_eq!(api::put_completion(7, 1, &mut db, &tutor()), Err(ApiError::NotFound));
    assert_eq!(api::put_year_writable(1999, &mut db, &root()), Err(ApiError::NotFound));
    assert_eq!(api::delete_student(9, &mut db, &admin()), Err(ApiError::NotFound));
    assert_eq!(hwpb::db::expect1(0), Err(ApiError::NotFound));
    assert_eq!(hwpb::db::expect1(1), Ok(1));
    assert_eq!(hwpb::db::expect1(2), Err(ApiError::NotFound));
}

#[test]
fn a_broken_reference_is_a_constraint_violation() {
    let mut db = lab();
    assert_eq!(api::put_completion(1, 99, &mut db, &tutor()), Err(ApiError::ConstraintViolation));
    assert_eq!(api::put_group_student(1, 99, &mut db, &tutor()), Err(ApiError::ConstraintViolation));
    // The experiment has tasks, the student is in a group.
    assert_eq!(api::delete_experiment(1, &mut db, &admin()), Err(ApiError::ConstraintViolation));
    assert_eq!(api::delete_student(1, &mut db, &admin()), Err(ApiError::ConstraintViolation));
    assert_eq!(db.audit_logs().len(), 0);
    assert_eq!(api::put_year(2024, &mut db, &root()), Err(ApiError::ConstraintViolation));
}

#[test]
fn ids_that_run_out_are_another_error() {
    let mut db = lab();
    db.insert_student(student(i32::MAX, 2024, "Last", "One")).unwrap();
    let before = sizes(&db);
    assert_eq!(api::post_student(
        NewStudent { matrikel: word("1"), year: 2024, username: None, given_name: word("A"), family_name: word("B") },
        &mut db,
        &admin(),
    ), Err(ApiError::Other));
    assert_eq!(sizes(&db), before);
}

#[test]
fn each_error_has_its_status() {
    assert_eq!(ApiError::Forbidden.status(), 403);
    assert_eq!(ApiError::Locked.status(), 423);
    assert_eq!(ApiError::NotFound.status(), 404);
    assert_eq!(ApiError::ConstraintViolation.status(), 422);
    assert_eq!(ApiError::Other.status(), 500);
}

#[test]
fn an_elaboration_put_again_replaces_the_first() {
    let mut db = lab();
    api::put_completion(1, 1, &mut db, &tutor()).unwrap();
    api::put_completion(1, 2, &mut db, &tutor()).unwrap();
    let told = api::put_elaboration(1, 1, true, false, &mut db, &tutor()).unwrap();
    assert_eq!(told, push::Elaboration { group: 1, experiment: 1, handed_in: true, rework: true, accepted: false });
    assert_eq!(db.audit_logs()[2].change, "Mark elaboration of E1 (#1) as needing rework");
    let owing: Vec<i32> = owing_rework(2024, &db).iter().map(|s| s.id).collect();
    assert_eq!(owing, vec![1]);
    api::put_elaboration(1, 1, true, true, &mut db, &tutor()).unwrap();
    assert_eq!(
        db.elaborations(),
        &vec![Elaboration { group_id: 1, experiment_id: 1, rework_required: true, accepted: true }]
    );
    assert_eq!(db.audit_logs()[3].change, "Mark elaboration of E1 (#1) as rework accepted");
    assert_eq!(owing_rework(2024, &db).len(), 0);
    let told = api::delete_elaboration(1, 1, &mut db, &tutor()).unwrap();
    assert_eq!(told, push::Elaboration { group: 1, experiment: 1, handed_in: false, rework: false, accepted: false });
    assert_eq!(db.elaborations().len(), 0);
    assert_eq!(db.audit_logs()[4].change, "Mark elaboration of E1 (#1) as missing");
}

#[test]
fn a_group_is_made_and_changed() {
    let mut db = lab();
    let told = api::post_group(NewGroup { desk: 5, day_id: 1, comment: word("neu") }, &mut db, &tutor()).unwrap();
    assert_eq!(told, push::Group::New { day: 1 });
    assert_eq!(db.groups()[1], Group { id: 2, desk: 5, day_id: 1, comment: word("neu") });
    assert_eq!(
        db.audit_logs()[0].change,
        "Create new group at desk 5 on Montag (#1) with comment 'neu'"
    );
    assert_eq!(db.audit_logs()[0].affected_group, Some(2));
    let told = api::put_group_comment(2, word("(ENDE)"), &mut db, &tutor()).unwrap();
    assert_eq!(told, push::Comment { group: 2, author: word("tina"), comment: word("(ENDE)") });
    assert_eq!(db.audit_logs()[1].change, "Change comment to '(ENDE)'");
    api::put_group_desk(2, 8, &mut db, &tutor()).unwrap();
    assert_eq!(db.groups()[1], Group { id: 2, desk: 8, day_id: 1, comment: word("(ENDE)") });
    assert_eq!(db.audit_logs()[2].change, "Change desk to 8");
    db.insert_student(student(2, 2024, "Kim", "")).unwrap();
    let told = api::put_group_student(2, 2, &mut db, &tutor()).unwrap();
    assert_eq!(told, push::Student::Add { group: 2, student: 2, name: word("Kim") });
    assert_eq!(db.audit_logs()[3].change, "Add Kim (#2) to group");
    let told = api::delete_group_student(2, 2, &mut db, &tutor()).unwrap();
    assert_eq!(told, push::Student::Remove { student: 2 });
    assert_eq!(db.audit_logs()[4].change, "Remove Kim (#2) from group");
    assert_eq!(db.group_mappings().len(), 1);
}

#[test]
fn the_admins_make_and_remove_what_a_year_holds() {
    let mut db = lab();
    let id = api::post_experiment(NewExperiment { name: word("E2"), year: 2024 }, &mut db, &admin()).unwrap();
    assert_eq!(id, 2);
    assert_eq!(db.audit_logs()[0].change, "Create new experiment E2 (#2)");
    let task = api::post_experiment_task(2, word("Za"), &mut db, &admin()).unwrap();
    assert_eq!(task, 3);
    assert_eq!(db.audit_logs()[1].change, "Create task Za (#3) for experiment E2 (#2)");
    api::delete_experiment_task(2, 3, &mut db, &admin()).unwrap();
    assert_eq!(db.audit_logs()[2].change, "Remove task Za (#3) from experiment E2 (#2)");
    api::delete_experiment(2, &mut db, &admin()).unwrap();
    assert_eq!(db.audit_logs()[3].change, "Remove experiment E2 (#2)");
    let day = api::post_day(NewDay { name: word("Dienstag"), year: 2024 }, &mut db, &admin()).unwrap();
    assert_eq!(day, 2);
    assert_eq!(db.audit_logs()[4].change, "Create new day Dienstag (#2)");
    api::delete_day(2, &mut db, &admin()).unwrap();
    assert_eq!(db.audit_logs()[5].change, "Remove day Dienstag (#2)");
    let s = api::post_student(
        NewStudent {
            matrikel: word("4711"),
            year: 2024,
            username: Some(word("kim")),
            given_name: word("Kim"),
            family_name: word("Kay"),
        },
        &mut db,
        &admin(),
    ).unwrap();
    assert_eq!(s, 2);
    assert_eq!(db.audit_logs()[6].change, "Create new student Kim Kay (4711, kim, #2)");
    let told = api::put_student_instucted(2, true, &mut db, &admin()).unwrap();
    assert_eq!(told, push::Student::Instructed { student: 2, instructed: true });
    assert_eq!(db.audit_logs()[7].change, "Student Kim Kay (#2) is now instructed");
    assert!(db.students()[1].instructed);
    api::delete_student(2, &mut db, &admin()).unwrap();
    assert_eq!(db.audit_logs()[8].change, "Remove student Kim Kay (4711, kim, #2)");
    assert_eq!(sizes(&db), vec![1, 1, 1, 0, 1, 1, 1, 2, 0, 0, 9, 0, 0]);
}

#[test]
fn the_site_admins_keep_the_tutors_and_the_whitelist() {
    let mut db = lab();
    let id = api::post_tutor(NewTutor { username: word("tina"), year: 2024, is_admin: false }, &mut db, &root()).unwrap();
    assert_eq!(id, 1);
    assert_eq!(db.audit_logs()[0].change, "Create new tutor tina (#1, no admin)");
    assert_eq!(db.audit_logs()[0].author, "root");
    api::put_tutor_admin(1, true, &mut db, &root()).unwrap();
    assert_eq!(db.tutors(), &vec![Tutor { id: 1, username: word("tina"), year: 2024, is_admin: true }]);
    assert_eq!(db.audit_logs()[1].change, "Tutor tina (#1) is now admin");
    api::delete_tutor(1, &mut db, &root()).unwrap();
    assert_eq!(db.audit_logs()[2].change, "Remove tutor tina (#1, admin)");
    let net = Inet::net_v4(192, 168, 1, 0, 24);
    let entry = api::post_ip_whitelist(api::NewIpWhitelistEntry { ipnet: net, year: 2024 }, &mut db, &root()).unwrap();
    assert_eq!(entry, 1);
    assert_eq!(db.ip_whitelist(), &vec![IpWhitelistEntry { id: 1, ipnet: net, year: 2024 }]);
    assert_eq!(db.audit_logs()[3].change, "Create new ip whitelist entry 192.168.1.0/24 (#1)");
    api::delete_ip_whitelist(1, &mut db, &root()).unwrap();
    assert_eq!(db.audit_logs()[4].change, "Remove ip whitelist entry 192.168.1.0/24 (#1)");
    assert_eq!(db.ip_whitelist().len(), 0);
}

#[test]
fn an_event_gets_its_date() {
    let mut db = lab();
    api::put_event(1, 1, "2024-05-06", &mut db, &admin()).unwrap();
    assert_eq!(db.events(), &vec![Event { day_id: 1, experiment_id: 1, date: 739_012 }]);
    assert_eq!(
        db.audit_logs()[0].change,
        "Set event date to 2024-05-06 for day Montag (#1) and experiment E1 (#1)"
    );
    api::put_event(1, 1, "2024-05-13", &mut db, &admin()).unwrap();
    assert_eq!(db.events(), &vec![Event { day_id: 1, experiment_id: 1, date: 739_019 }]);
    api::delete_event(1, 1, &mut db, &admin()).unwrap();
    assert_eq!(db.events().len(), 0);
    assert_eq!(
        db.audit_logs()[2].change,
        "Remove event date for day Montag (#1) and experiment E1 (#1)"
    );
}

/// Two years: 2024 as in `lab`, and 2023 with a day, an experiment with one
/// task, a group with a student, a tutor and a whitelist entry.
fn two_years() -> Database {
    let mut db = lab();
    db.insert_year(Year { id: 2023, writable: false }).unwrap();
    db.insert_day(Day { id: 2, name: word("Freitag"), year: 2023 }).unwrap();
    db.insert_experiment(Experiment { id: 2, name: word("Alt"), year: 2023 }).unwrap();
    db.insert_task(Task { id: 3, experiment_id: 2, name: word("A1") }).unwrap();
    db.insert_event(Event { day_id: 2, experiment_id: 2, date: 738_600 }).unwrap();
    db.insert_group(Group { id: 2, desk: 1, day_id: 2, comment: word("") }).unwrap();
    db.insert_student(student(2, 2023, "Old", "Hand")).unwrap();
    db.insert_group_mapping(GroupMapping { student_id: 2, group_id: 2 }).unwrap();
    db.insert_completion(Completion { group_id: 2, task_id: 3 }).unwrap();
    db.insert_elaboration(Elaboration { group_id: 2, experiment_id: 2, rework_required: false, accepted: true }).unwrap();
    db.insert_tutor(Tutor { id: 1, username: word("tom"), year: 2023, is_admin: true }).unwrap();
    db.insert_whitelist_entry(IpWhitelistEntry { id: 1, ipnet: Inet::net_v4(10, 0, 0, 0, 8), year: 2023 }).unwrap();
    api::add_audit_log(2023, Some(2), "tom", &mut db, "something old").unwrap();
    api::put_completion(1, 1, &mut db, &tutor()).unwrap();
    db
}

#[test]
fn a_deleted_year_leaves_nothing_behind() {
    let mut db = two_years();
    assert_eq!(sizes(&db), vec![2, 2, 2, 1, 2, 2, 2, 3, 2, 1, 2, 1, 1]);
    api::delete_year(2023, &mut db, &root()).unwrap();
    assert_eq!(sizes(&db), vec![1, 1, 1, 0, 1, 1, 1, 2, 1, 0, 1, 0, 0]);
    assert!(db.years().iter().all(|y| y.id == 2024));
    assert!(db.days().iter().all(|d| d.year == 2024));
    assert!(db.experiments().iter().all(|e| e.year == 2024));
    assert!(db.students().iter().all(|s| s.year == 2024));
    assert!(db.audit_logs().iter().all(|l| l.year == 2024));
    assert!(db.groups().iter().all(|g| g.day_id == 1));
    assert!(db.tasks().iter().all(|t| t.experiment_id == 1));
    assert!(db.group_mappings().iter().all(|m| m.group_id == 1));
    assert!(db.completions().iter().all(|c| c.group_id == 1));
    // A year that is not there is deleted without a change.
    api::delete_year(2023, &mut db, &root()).unwrap();
    assert_eq!(sizes(&db), vec![1, 1, 1, 0, 1, 1, 1, 2, 1, 0, 1, 0, 0]);
}

#[test]
fn a_year_that_cannot_go_in_full_stays_in_full() {
    let mut db = two_years();
    // A group of 2024 has done a task of 2023: the task cannot go.
    db.insert_completion(Completion { group_id: 1, task_id: 3 }).unwrap();
    let before = db.snapshot();
    assert_eq!(api::delete_year(2023, &mut db, &root()), Err(ApiError::ConstraintViolation));
    assert_eq!(sizes(&db), sizes(&before));
    assert_eq!(db.years(), before.years());
    assert_eq!(db.days(), before.days());
    assert_eq!(db.events(), before.events());
    assert_eq!(db.groups(), before.groups());
    assert_eq!(db.group_mappings(), before.group_mappings());
    assert_eq!(db.completions(), before.completions());
    assert_eq!(db.elaborations(), before.elaborations());
    assert_eq!(db.students(), before.students());
    assert_eq!(db.tutors(), before.tutors());
    assert_eq!(db.audit_logs(), before.audit_logs());
}

#[test]
fn a_group_goes_with_what_belongs_to_it() {
    let mut db = two_years();
    hwpb::db::delete_group(2, &mut db).unwrap();
    assert_eq!(db.groups().len(), 1);
    assert_eq!(db.group_mappings(), &vec![GroupMapping { student_id: 1, group_id: 1 }]);
    assert_eq!(db.completions(), &vec![Completion { group_id: 1, task_id: 1 }]);
    assert_eq!(db.elaborations().len(), 0);
    assert_eq!(db.students().len(), 2);
}

#[test]
fn a_store_is_made_ready() {
    let mut db = Database::new();
    hwpb::db::init_year(false, &mut db).unwrap();
    assert_eq!(db.years().len(), 1);
    assert!(db.years()[0].writable);
    let year = db.years()[0].id;
    assert!(year >= 2024);
    // A store with a year stays as it is.
    hwpb::db::init_year(false, &mut db).unwrap();
    assert_eq!(db.years(), &vec![Year { id: year, writable: true }]);
    assert_eq!(hwpb::db::add_current_year(&mut db), Err(ApiError::ConstraintViolation));
    assert_eq!(hwpb::db::add_year(year, &mut db), Err(ApiError::ConstraintViolation));
    hwpb::db::add_year(1999, &mut db).unwrap();
    assert_eq!(db.years().len(), 2);

    let mut full = two_years();
    hwpb::db::init_year(true, &mut full).unwrap();
    assert_eq!(sizes(&full), vec![1, 0, 0, 0, 0, 0, 0, 0, 0, 0, 0, 0, 0]);
    assert_eq!(full.years(), &vec![Year { id: year, writable: true }]);

    // A group of 2023 has done a task of 2024, which goes first: the task
    // cannot go.
    let mut stuck = two_years();
    stuck.insert_completion(Completion { group_id: 2, task_id: 1 }).unwrap();
    let before = sizes(&stuck);
    assert_eq!(hwpb::db::init_year(true, &mut stuck), Err(ApiError::ConstraintViolation));
    assert_eq!(sizes(&stuck), before);
}
