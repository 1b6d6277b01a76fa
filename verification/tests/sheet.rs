use hwpb::db::models::{
    Completion, Day, Elaboration, Experiment, Group, GroupMapping, Student, Task, Year,
};
use hwpb::db::store::Database;
use hwpb::errors::ApiError;
use hwpb::sheet::write_sheet;
use hwpb::web::admin::export::{create_csv, export_rows};
use hwpb::web::admin::{export, export_on};
use hwpb::web::analysis::graduates::{is_among, passed_complete};
use hwpb::web::analysis::report::eligible_of;
use hwpb::web::analysis::load_elaborations_by_student;
use hwpb::web::intake::{insert_students, post_students_csv, read_student};
use hwpb::web::session::{SiteAdmin, User};

fn word(s: &str) -> String {
    String::from(s)
}

fn student(id: i32, matrikel: &str, given: &str, family: &str) -> Student {
    Student {
        id,
        matrikel: word(matrikel),
        year: 2024,
        username: None,
        instructed: false,
        given_name: word(given),
        family_name: word(family),
    }
}

/// Year 2024 with the experiments E1 (tasks T1, T2) and "E, 2" (task Z);
/// Sam (group 1) and Kim (group 2) and Lee (no group).
fn lab() -> Database {
    let mut db = Database::new();
    db.insert_year(Year { id: 2024, writable: true }).unwrap();
    db.insert_day(Day { id: 1, name: word("Montag"), year: 2024 }).unwrap();
    db.insert_experiment(Experiment { id: 1, name: word("E1"), year: 2024 }).unwrap();
    db.insert_experiment(Experiment { id: 2, name: word("E, 2"), year: 2024 }).unwrap();
    db.insert_task(Task { id: 1, experiment_id: 1, name: word("T2") }).unwrap();
    db.insert_task(Task { id: 2, experiment_id: 1, name: word("T1") }).unwrap();
    db.insert_task(Task { id: 3, experiment_id: 2, name: word("Z") }).unwrap();
    db.insert_group(Group { id: 1, desk: 1, day_id: 1, comment: word("") }).unwrap();
    db.insert_group(Group { id: 2, desk: 2, day_id: 1, comment: word("") }).unwrap();
    let mut sam = student(1, "300", "Sam", "Sample");
    sam.username = Some(word("sam"));
    sam.instructed = true;
    db.insert_student(sam).unwrap();
    db.insert_student(student(2, "100", "Kim", "Kay")).unwrap();
    db.insert_student(student(3, "200", "Lee \"L\"", "")).unwrap();
    db.insert_group_mapping(GroupMapping { student_id: 1, group_id: 1 }).unwrap();
    db.insert_group_mapping(GroupMapping { student_id: 2, group_id: 2 }).unwrap();
    db.insert_completion(Completion { group_id: 1, task_id: 2 }).unwrap();
    db.insert_completion(Completion { group_id: 1, task_id: 3 }).unwrap();
    db.insert_elaboration(Elaboration { group_id: 1, experiment_id: 1, rework_required: false, accepted: true }).unwrap();
    db.insert_elaboration(Elaboration { group_id: 2, experiment_id: 1, rework_required: true, accepted: false }).unwrap();
    db
}

fn root() -> SiteAdmin {
    SiteAdmin::new(User::restore(word("root"), true, vec![], vec![])).unwrap()
}

fn admin() -> User {
    User::restore(word("adam"), false, vec![], vec![2024])
}

#[test]
fn records_are_written_as_comma_separated_text() {
    let rows = vec![
        vec![word("a"), word("b c"), word("")],
        vec![word("x,y"), word("say \"hi\""), word("z")],
    ];
    let bytes = write_sheet(&rows).unwrap();
    assert_eq!(String::from_utf8(bytes).unwrap(), "a,b c,\n\"x,y\",\"say \"\"hi\"\"\",z\n");
    assert_eq!(write_sheet(&vec![]).unwrap(), Vec::<u8>::new());
    // Records of different lengths make no table.
    let ragged = vec![vec![word("a"), word("b")], vec![word("c")]];
    assert_eq!(write_sheet(&ragged), Err(ApiError::Other));
}

#[test]
fn the_sheet_of_a_year_has_a_line_for_each_student() {
    let db = lab();
    let bytes = create_csv(2024, &db).unwrap();
    let text = String::from_utf8(bytes).unwrap();
    let lines: Vec<&str> = text.lines().collect();
    assert_eq!(
        lines,
        vec![
            "Matrikelnummer,Name,Benutzername,Sicherheitsbelehrung,Ausarbeitung E1,\"Ausarbeitung E, 2\",\"E1, T1\",\"E1, T2\",\"E, 2, Z\"",
            "300,Sam Sample,sam,x,x,,x,,x",
            "100,Kim Kay,,,,,,,",
            "200,\"Lee \"\"L\"\"\",,,,,,,",
        ]
    );
    // A year without anything has the fixed titles only.
    let text = String::from_utf8(create_csv(1999, &db).unwrap()).unwrap();
    assert_eq!(text, "Matrikelnummer,Name,Benutzername,Sicherheitsbelehrung\n");
}

#[test]
fn the_lines_follow_the_students_as_given() {
    let db = lab();
    let (accepted, experiments) = load_elaborations_by_student(2024, None, Some(true), &db);
    let rows = export_rows(&vec![student(9, "9", "No", "Body")], &accepted, &experiments, &vec![], &vec![]);
    assert_eq!(rows.len(), 2);
    assert_eq!(rows[0].len(), 6);
    assert_eq!(rows[1], vec![word("9"), word("No Body"), word(""), word(""), word(""), word("")]);
}

#[test]
fn the_sheet_is_named_after_the_day() {
    let db = lab();
    let file = export_on("2024-05-06", 2024, &db).unwrap();
    assert_eq!(file.filename, "hwpb-export-2024-05-06.csv");
    assert_eq!(file.content, create_csv(2024, &db).unwrap());
    let file = export(2024, &db, &root()).unwrap();
    assert!(file.filename.starts_with("hwpb-export-20"));
    assert!(file.filename.ends_with(".csv"));
    assert_eq!(file.filename.len(), "hwpb-export-2024-05-06.csv".len());
}

#[test]
fn the_roll_puts_who_passed_first() {
    let mut db = lab();
    let file = passed_complete(2024, &db, &root()).unwrap();
    assert_eq!(file.filename, "Hardwarepraktikum-2024.csv");
    assert_eq!(
        String::from_utf8(file.content).unwrap(),
        "100,Kim,Kay,nicht bestanden\n200,\"Lee \"\"L\"\"\",,nicht bestanden\n300,Sam,Sample,nicht bestanden\n"
    );
    // An accepted elaboration for every experiment is not enough: a task
    // that is asked for is still open.
    db.insert_elaboration(Elaboration { group_id: 1, experiment_id: 2, rework_required: false, accepted: true }).unwrap();
    let file = passed_complete(2024, &db, &root()).unwrap();
    assert!(String::from_utf8(file.content).unwrap().ends_with("300,Sam,Sample,nicht bestanden\n"));
    db.insert_completion(Completion { group_id: 1, task_id: 1 }).unwrap();
    let file = passed_complete(2024, &db, &root()).unwrap();
    assert_eq!(
        String::from_utf8(file.content).unwrap(),
        "300,Sam,Sample,bestanden\n100,Kim,Kay,nicht bestanden\n200,\"Lee \"\"L\"\"\",,nicht bestanden\n"
    );
    let eligible = eligible_of(2024, &db);
    assert!(is_among(&eligible, 1));
    assert!(!is_among(&eligible, 2));
    // A year without students has an empty roll.
    assert_eq!(passed_complete(1999, &db, &root()).unwrap().content, Vec::<u8>::new());
}

#[test]
fn students_come_in_as_a_table() {
    let mut db = lab();
    let data = b"4711,Ann,Arbor,ann\n4712,\"Ben, jr.\",Bold,\n".to_vec();
    post_students_csv(2024, &data, &mut db, &admin()).unwrap();
    assert_eq!(db.students().len(), 5);
    let ann = &db.students()[3];
    assert_eq!((ann.id, ann.matrikel.as_str(), ann.year, ann.instructed), (4, "4711", 2024, false));
    assert_eq!(ann.username, Some(word("ann")));
    assert_eq!((ann.given_name.as_str(), ann.family_name.as_str()), ("Ann", "Arbor"));
    let ben = &db.students()[4];
    assert_eq!((ben.id, ben.matrikel.as_str(), ben.given_name.as_str()), (5, "4712", "Ben, jr."));
    assert_eq!(ben.username, None);
    assert_eq!(db.audit_logs().len(), 2);
    assert_eq!(db.audit_logs()[0].change, "Create new student Ann Arbor (4711, ann, #4)");
    assert_eq!(db.audit_logs()[1].change, "Create new student Ben, jr. Bold (4712, -, #5)");
    assert_eq!(db.audit_logs()[1].author, "adam");
    // No record makes no student.
    post_students_csv(2024, &Vec::new(), &mut db, &admin()).unwrap();
    assert_eq!(db.students().len(), 5);
}

#[test]
fn a_table_comes_in_as_a_whole_or_not_at_all() {
    let mut db = lab();
    // The second record is too short.
    let short = b"4711,Ann,Arbor,ann\n4712,Ben,Bold\n".to_vec();
    assert_eq!(post_students_csv(2024, &short, &mut db, &admin()), Err(ApiError::Other));
    // The records are of different lengths.
    let ragged = b"4711,Ann,Arbor,ann\n4712,Ben,Bold,ben,more\n".to_vec();
    assert_eq!(post_students_csv(2024, &ragged, &mut db, &admin()), Err(ApiError::Other));
    // The text is no text.
    let broken = vec![0x34u8, 0x2c, 0xff, 0xfe, 0x2c, 0x41, 0x2c, 0x0a];
    assert_eq!(post_students_csv(2024, &broken, &mut db, &admin()), Err(ApiError::Other));
    let good = b"4711,Ann,Arbor,ann\n".to_vec();
    let tutor = User::restore(word("tina"), false, vec![2024], vec![]);
    assert_eq!(post_students_csv(2024, &good, &mut db, &tutor), Err(ApiError::Forbidden));
    assert_eq!(post_students_csv(1999, &good, &mut db, &admin()), Err(ApiError::NotFound));
    assert_eq!(db.students().len(), 3);
    assert_eq!(db.audit_logs().len(), 0);
    // What follows the fourth field is not read.
    let wide = b"4711,Ann,Arbor,ann,x,y\n".to_vec();
    post_students_csv(2024, &wide, &mut db, &admin()).unwrap();
    assert_eq!(db.students().len(), 4);
}

#[test]
fn a_record_is_read_as_a_student() {
    let record = vec![word("1"), word("G"), word("F"), word("")];
    let s = read_student(&record, 2024).unwrap();
    assert_eq!((s.matrikel.as_str(), s.given_name.as_str(), s.family_name.as_str()), ("1", "G", "F"));
    assert_eq!(s.username, None);
    assert_eq!(s.year, 2024);
    assert!(read_student(&vec![word("1"), word("G"), word("F")], 2024).is_none());
    let mut db = lab();
    assert_eq!(insert_students(&vec![record, vec![word("2")]], 2024, &mut db, "x"), Err(ApiError::Other));
}
