//! What has changed from one store to another, as the statements that turn
//! the first into the second: rows to insert, to update and to delete, in
//! an order in which a row is there before the rows that name it come, and
//! gone only after they went.
use vstd::prelude::*;
use super::models::{
    AuditLog, Completion, Day, Elaboration, Event, Experiment, Group, GroupMapping,
    IpWhitelistEntry, Student, Task, Tutor, Year,
};
use super::schema::{
    audit_log_id, completion_key, day_id, elaboration_key, event_key, experiment_id, group_id,
    mapping_key, student_id, task_id, tutor_id, whitelist_id, year_id, Tables,
};
use super::store::Database;
use crate::relation::{find_row, has_key, keys_distinct, lemma_the_row, the_row};

verus! {

/// A row of one of the tables.
#[derive(Debug, PartialEq, Eq)]
pub enum Row {
    Year(Year),
    Day(Day),
    Experiment(Experiment),
    Event(Event),
    Group(Group),
    Student(Student),
    GroupMapping(GroupMapping),
    Task(Task),
    Completion(Completion),
    Elaboration(Elaboration),
    AuditLog(AuditLog),
    Tutor(Tutor),
    IpWhitelistEntry(IpWhitelistEntry),
}

/// What a statement does with a row.
#[derive(Debug, Clone, Copy, PartialEq, Eq, Structural)]
pub enum Action {
    /// The row is new.
    Insert,
    /// The row takes the place of the row with its key.
    Update,
    /// The row with this key goes.
    Delete,
}

/// One statement: a row, and what is done with it.
#[derive(Debug, PartialEq, Eq)]
pub struct Change {
    pub action: Action,
    pub row: Row,
}

/// What a store holds, table by table: each row under its key.
pub struct Held {
    pub years: Map<i32, Year>,
    pub days: Map<i32, Day>,
    pub experiments: Map<i32, Experiment>,
    pub events: Map<(i32, i32), Event>,
    pub groups: Map<i32, Group>,
    pub students: Map<i32, Student>,
    pub group_mappings: Map<(i32, i32), GroupMapping>,
    pub tasks: Map<i32, Task>,
    pub completions: Map<(i32, i32), Completion>,
    pub elaborations: Map<(i32, i32), Elaboration>,
    pub audit_logs: Map<i32, AuditLog>,
    pub tutors: Map<i32, Tutor>,
    pub ip_whitelist: Map<i32, IpWhitelistEntry>,
}

/// The rows under their keys.
pub open spec fn keyed<T, K>(rows: Seq<T>, key: spec_fn(T) -> K) -> Map<K, T> {
    Map::new(|k: K| has_key(rows, key, k), |k: K| the_row(rows, key, k))
}

/// What the tables hold.
pub open spec fn held(t: Tables) -> Held {
    Held {
        years: keyed(t.years, year_id()),
        days: keyed(t.days, day_id()),
        experiments: keyed(t.experiments, experiment_id()),
        events: keyed(t.events, event_key()),
        groups: keyed(t.groups, group_id()),
        students: keyed(t.students, student_id()),
        group_mappings: keyed(t.group_mappings, mapping_key()),
        tasks: keyed(t.tasks, task_id()),
        completions: keyed(t.completions, completion_key()),
        elaborations: keyed(t.elaborations, elaboration_key()),
        audit_logs: keyed(t.audit_logs, audit_log_id()),
        tutors: keyed(t.tutors, tutor_id()),
        ip_whitelist: keyed(t.ip_whitelist, whitelist_id()),
    }
}

/// A table after a statement, if the table takes the statement: a row is
/// inserted where none has its key, and updated or deleted where one has.
pub open spec fn act<K, T>(m: Map<K, T>, action: Action, k: K, row: T) -> Option<Map<K, T>> {
    match action {
        Action::Insert => if m.dom().contains(k) {
            None
        } else {
            Some(m.insert(k, row))
        },
        Action::Update => if m.dom().contains(k) {
            Some(m.insert(k, row))
        } else {
            None
        },
        Action::Delete => if m.dom().contains(k) {
            Some(m.remove(k))
        } else {
            None
        },
    }
}

/// The store after a statement, if it takes the statement.
pub open spec fn apply(h: Held, c: Change) -> Option<Held> {
    match c.row {
        Row::Year(r) => match act(h.years, c.action, year_id()(r), r) {
            Some(m) => Some(Held { years: m, ..h }),
            None => None,
        },
        Row::Day(r) => match act(h.days, c.action, day_id()(r), r) {
            Some(m) => Some(Held { days: m, ..h }),
            None => None,
        },
        Row::Experiment(r) => match act(h.experiments, c.action, experiment_id()(r), r) {
            Some(m) => Some(Held { experiments: m, ..h }),
            None => None,
        },
        Row::Event(r) => match act(h.events, c.action, event_key()(r), r) {
            Some(m) => Some(Held { events: m, ..h }),
            None => None,
        },
        Row::Group(r) => match act(h.groups, c.action, group_id()(r), r) {
            Some(m) => Some(Held { groups: m, ..h }),
            None => None,
        },
        Row::Student(r) => match act(h.students, c.action, student_id()(r), r) {
            Some(m) => Some(Held { students: m, ..h }),
            None => None,
        },
        Row::GroupMapping(r) => match act(h.group_mappings, c.action, mapping_key()(r), r) {
            Some(m) => Some(Held { group_mappings: m, ..h }),
            None => None,
        },
        Row::Task(r) => match act(h.tasks, c.action, task_id()(r), r) {
            Some(m) => Some(Held { tasks: m, ..h }),
            None => None,
        },
        Row::Completion(r) => match act(h.completions, c.action, completion_key()(r), r) {
            Some(m) => Some(Held { completions: m, ..h }),
            None => None,
        },
        Row::Elaboration(r) => match act(h.elaborations, c.action, elaboration_key()(r), r) {
            Some(m) => Some(Held { elaborations: m, ..h }),
            None => None,
        },
        Row::AuditLog(r) => match act(h.audit_logs, c.action, audit_log_id()(r), r) {
            Some(m) => Some(Held { audit_logs: m, ..h }),
            None => None,
        },
        Row::Tutor(r) => match act(h.tutors, c.action, tutor_id()(r), r) {
            Some(m) => Some(Held { tutors: m, ..h }),
            None => None,
        },
        Row::IpWhitelistEntry(r) => match act(h.ip_whitelist, c.action, whitelist_id()(r), r) {
            Some(m) => Some(Held { ip_whitelist: m, ..h }),
            None => None,
        },
    }
}

/// The store after the statements, one after the other, if it takes each.
pub open spec fn apply_all(h: Held, changes: Seq<Change>) -> Option<Held>
    decreases changes.len(),
{
    if changes.len() == 0 {
        Some(h)
    } else {
        match apply_all(h, changes.drop_last()) {
            Some(m) => apply(m, changes.last()),
            None => None,
        }
    }
}

/// The place of a table among the tables: a table comes after the tables
/// that its rows name.
pub open spec fn table_of_row(row: Row) -> int {
    match row {
        Row::Year(_) => 0,
        Row::Day(_) => 1,
        Row::Experiment(_) => 2,
        Row::Event(_) => 3,
        Row::Group(_) => 4,
        Row::Student(_) => 5,
        Row::GroupMapping(_) => 6,
        Row::Task(_) => 7,
        Row::Completion(_) => 8,
        Row::Elaboration(_) => 9,
        Row::AuditLog(_) => 10,
        Row::Tutor(_) => 11,
        Row::IpWhitelistEntry(_) => 12,
    }
}

/// The place of a statement in the order: what is inserted or updated comes
/// first, table by table; then what is deleted, the tables the other way
/// round.
pub open spec fn rank(c: Change) -> int {
    match c.action {
        Action::Delete => 25 - table_of_row(c.row),
        _ => table_of_row(c.row),
    }
}

/// The statements stand in the order of their ranks, none beyond `r`.
pub open spec fn ranks_up_to(changes: Seq<Change>, r: int) -> bool {
    &&& forall|i: int, j: int| 0 <= i < j < changes.len() ==> rank(changes[i]) <= rank(changes[j])
    &&& forall|i: int| 0 <= i < changes.len() ==> rank(#[trigger] changes[i]) <= r
}

/// The statements stand in the order of their ranks.
pub open spec fn in_order(changes: Seq<Change>) -> bool {
    forall|i: int, j: int| 0 <= i < j < changes.len() ==> rank(changes[i]) <= rank(changes[j])
}

/// Two tables hold the same keys, and under each key rows that are alike.
pub open spec fn alike_map<K, T>(a: Map<K, T>, b: Map<K, T>, alike: spec_fn(T, T) -> bool) -> bool {
    &&& forall|k: K| a.dom().contains(k) <==> b.dom().contains(k)
    &&& forall|k: K| a.dom().contains(k) ==> alike(#[trigger] a[k], b[k])
}

/// Two rows of `years` are alike where they are equal.
pub open spec fn alike_years() -> spec_fn(Year, Year) -> bool {
    |a: Year, b: Year| a == b
}

fn same_years(a: &Year, b: &Year) -> (r: bool)
    ensures
        r == alike_years()(*a, *b),
{
    *a == *b
}

/// Two rows of `days` are alike where their fields agree, texts by what
/// they say.
pub open spec fn alike_days() -> spec_fn(Day, Day) -> bool {
    |a: Day, b: Day|
        {
        &&& a.id == b.id
        &&& a.name@ == b.name@
        &&& a.year == b.year
        }
}

fn same_days(a: &Day, b: &Day) -> (r: bool)
    ensures
        r == alike_days()(*a, *b),
{
    a.id == b.id && same_text(a.name.as_str(), b.name.as_str()) && a.year == b.year
}

/// Two rows of `experiments` are alike where their fields agree, texts by what
/// they say.
pub open spec fn alike_experiments() -> spec_fn(Experiment, Experiment) -> bool {
    |a: Experiment, b: Experiment|
        {
        &&& a.id == b.id
        &&& a.name@ == b.name@
        &&& a.year == b.year
        }
}

fn same_experiments(a: &Experiment, b: &Experiment) -> (r: bool)
    ensures
        r == alike_experiments()(*a, *b),
{
    a.id == b.id && same_text(a.name.as_str(), b.name.as_str()) && a.year == b.year
}

/// Two rows of `events` are alike where they are equal.
pub open spec fn alike_events() -> spec_fn(Event, Event) -> bool {
    |a: Event, b: Event| a == b
}

fn same_events(a: &Event, b: &Event) -> (r: bool)
    ensures
        r == alike_events()(*a, *b),
{
    *a == *b
}

/// Two rows of `groups` are alike where their fields agree, texts by what
/// they say.
pub open spec fn alike_groups() -> spec_fn(Group, Group) -> bool {
    |a: Group, b: Group|
        {
        &&& a.id == b.id
        &&& a.desk == b.desk
        &&& a.day_id == b.day_id
        &&& a.comment@ == b.comment@
        }
}

fn same_groups(a: &Group, b: &Group) -> (r: bool)
    ensures
        r == alike_groups()(*a, *b),
{
    a.id == b.id && a.desk == b.desk && a.day_id == b.day_id && same_text(a.comment.as_str(), b.comment.as_str())
}

/// Two rows of `students` are alike where their fields agree, texts by what
/// they say.
pub open spec fn alike_students() -> spec_fn(Student, Student) -> bool {
    |a: Student, b: Student|
        {
        &&& a.id == b.id
        &&& a.matrikel@ == b.matrikel@
        &&& a.year == b.year
        &&& alike_optional(a.username, b.username)
        &&& a.instructed == b.instructed
        &&& a.given_name@ == b.given_name@
        &&& a.family_name@ == b.family_name@
        }
}

fn same_students(a: &Student, b: &Student) -> (r: bool)
    ensures
        r == alike_students()(*a, *b),
{
    a.id == b.id && same_text(a.matrikel.as_str(), b.matrikel.as_str()) && a.year == b.year && same_optional(&a.username, &b.username) && a.instructed == b.instructed && same_text(a.given_name.as_str(), b.given_name.as_str()) && same_text(a.family_name.as_str(), b.family_name.as_str())
}

/// Two rows of `group_mappings` are alike where they are equal.
pub open spec fn alike_group_mappings() -> spec_fn(GroupMapping, GroupMapping) -> bool {
    |a: GroupMapping, b: GroupMapping| a == b
}

fn same_group_mappings(a: &GroupMapping, b: &GroupMapping) -> (r: bool)
    ensures
        r == alike_group_mappings()(*a, *b),
{
    *a == *b
}

/// Two rows of `tasks` are alike where their fields agree, texts by what
/// they say.
pub open spec fn alike_tasks() -> spec_fn(Task, Task) -> bool {
    |a: Task, b: Task|
        {
        &&& a.id == b.id
        &&& a.experiment_id == b.experiment_id
        &&& a.name@ == b.name@
        }
}

fn same_tasks(a: &Task, b: &Task) -> (r: bool)
    ensures
        r == alike_tasks()(*a, *b),
{
    a.id == b.id && a.experiment_id == b.experiment_id && same_text(a.name.as_str(), b.name.as_str())
}

/// Two rows of `completions` are alike where they are equal.
pub open spec fn alike_completions() -> spec_fn(Completion, Completion) -> bool {
    |a: Completion, b: Completion| a == b
}

fn same_completions(a: &Completion, b: &Completion) -> (r: bool)
    ensures
        r == alike_completions()(*a, *b),
{
    *a == *b
}

/// Two rows of `elaborations` are alike where they are equal.
pub open spec fn alike_elaborations() -> spec_fn(Elaboration, Elaboration) -> bool {
    |a: Elaboration, b: Elaboration| a == b
}

fn same_elaborations(a: &Elaboration, b: &Elaboration) -> (r: bool)
    ensures
        r == alike_elaborations()(*a, *b),
{
    *a == *b
}

/// Two rows of `audit_logs` are alike where their fields agree, texts by what
/// they say.
pub open spec fn alike_audit_logs() -> spec_fn(AuditLog, AuditLog) -> bool {
    |a: AuditLog, b: AuditLog|
        {
        &&& a.id == b.id
        &&& a.created_at == b.created_at
        &&& a.year == b.year
        &&& a.author@ == b.author@
        &&& a.affected_group == b.affected_group
        &&& a.change@ == b.change@
        }
}

fn same_audit_logs(a: &AuditLog, b: &AuditLog) -> (r: bool)
    ensures
        r == alike_audit_logs()(*a, *b),
{
    a.id == b.id && a.created_at == b.created_at && a.year == b.year && same_text(a.author.as_str(), b.author.as_str()) && a.affected_group == b.affected_group && same_text(a.change.as_str(), b.change.as_str())
}

/// Two rows of `tutors` are alike where their fields agree, texts by what
/// they say.
pub open spec fn alike_tutors() -> spec_fn(Tutor, Tutor) -> bool {
    |a: Tutor, b: Tutor|
        {
        &&& a.id == b.id
        &&& a.username@ == b.username@
        &&& a.year == b.year
        &&& a.is_admin == b.is_admin
        }
}

fn same_tutors(a: &Tutor, b: &Tutor) -> (r: bool)
    ensures
        r == alike_tutors()(*a, *b),
{
    a.id == b.id && same_text(a.username.as_str(), b.username.as_str()) && a.year == b.year && a.is_admin == b.is_admin
}

/// Two rows of `ip_whitelist` are alike where they are equal.
pub open spec fn alike_ip_whitelist() -> spec_fn(IpWhitelistEntry, IpWhitelistEntry) -> bool {
    |a: IpWhitelistEntry, b: IpWhitelistEntry| a == b
}

fn same_ip_whitelist(a: &IpWhitelistEntry, b: &IpWhitelistEntry) -> (r: bool)
    ensures
        r == alike_ip_whitelist()(*a, *b),
{
    *a == *b
}

/// Two optional texts say the same.
pub open spec fn alike_optional(a: Option<String>, b: Option<String>) -> bool {
    match (a, b) {
        (Some(x), Some(y)) => x@ == y@,
        (None, None) => true,
        _ => false,
    }
}

fn same_optional(a: &Option<String>, b: &Option<String>) -> (r: bool)
    ensures
        r == alike_optional(*a, *b),
{
    match (a, b) {
        (Some(x), Some(y)) => same_text(x.as_str(), y.as_str()),
        (None, None) => true,
        _ => false,
    }
}

fn same_text(a: &str, b: &str) -> (r: bool)
    ensures
        r == (a@ == b@),
{
    let x = a.to_owned();
    let y = b.to_owned();
    x == y
}

/// Two stores hold the same: in every table the same keys, and under each
/// key rows that are alike.
pub open spec fn alike_held(a: Held, b: Held) -> bool {
    &&& alike_map(a.years, b.years, alike_years())
    &&& alike_map(a.days, b.days, alike_days())
    &&& alike_map(a.experiments, b.experiments, alike_experiments())
    &&& alike_map(a.events, b.events, alike_events())
    &&& alike_map(a.groups, b.groups, alike_groups())
    &&& alike_map(a.students, b.students, alike_students())
    &&& alike_map(a.group_mappings, b.group_mappings, alike_group_mappings())
    &&& alike_map(a.tasks, b.tasks, alike_tasks())
    &&& alike_map(a.completions, b.completions, alike_completions())
    &&& alike_map(a.elaborations, b.elaborations, alike_elaborations())
    &&& alike_map(a.audit_logs, b.audit_logs, alike_audit_logs())
    &&& alike_map(a.tutors, b.tutors, alike_tutors())
    &&& alike_map(a.ip_whitelist, b.ip_whitelist, alike_ip_whitelist())
}

/// The statements turn the first store into the second: the first takes
/// them one after the other, and then holds what the second holds.
pub open spec fn gives(before: Tables, changes: Seq<Change>, after: Tables) -> bool {
    apply_all(held(before), changes) matches Some(h) && alike_held(h, held(after))
}

/// One more statement is applied to what the statements before it gave.
pub proof fn lemma_apply_push(h: Held, changes: Seq<Change>, c: Change)
    ensures
        apply_all(h, changes.push(c)) == match apply_all(h, changes) {
            Some(m) => apply(m, c),
            None => None,
        },
{
    assert(changes.push(c).drop_last() =~= changes);
}

/// A statement of a rank that is not below `r` keeps the order.
pub proof fn lemma_ranks_push(changes: Seq<Change>, c: Change, r: int)
    requires
        ranks_up_to(changes, r),
        rank(c) == r,
    ensures
        ranks_up_to(changes.push(c), r),
{
}

/// The table while the rows of `after` are put: it holds the keys of
/// `before` and of the first `n` rows of `after`; under the key of each of
/// these a row that is alike; under the other keys the row of `before`.
pub open spec fn put_done<T, K>(
    m: Map<K, T>,
    before: Seq<T>,
    after: Seq<T>,
    n: int,
    key: spec_fn(T) -> K,
    alike: spec_fn(T, T) -> bool,
) -> bool {
    &&& forall|k: K| #[trigger]
        m.dom().contains(k) <==> has_key(before, key, k) || has_key(after.take(n), key, k)
    &&& forall|j: int|
        0 <= j < n ==> m.dom().contains(key(#[trigger] after[j])) && alike(m[key(after[j])], after[j])
    &&& forall|k: K|
        has_key(before, key, k) && !has_key(after.take(n), key, k) ==> #[trigger] m[k] == the_row(
            before,
            key,
            k,
        )
}

/// Before any row is put the table is that of `before`.
pub proof fn lemma_put_start<T, K>(before: Seq<T>, after: Seq<T>, key: spec_fn(T) -> K, alike: spec_fn(T, T) -> bool)
    ensures
        put_done(keyed(before, key), before, after, 0, key, alike),
{
    assert(after.take(0).len() == 0);
}

/// The keys of one more row of `after`.
proof fn lemma_take_key<T, K>(after: Seq<T>, n: int, key: spec_fn(T) -> K)
    requires
        0 <= n < after.len(),
        keys_distinct(after, key),
    ensures
        forall|k: K| has_key(after.take(n + 1), key, k) <==> has_key(after.take(n), key, k) || k == key(after[n]),
        !has_key(after.take(n), key, key(after[n])),
{
    assert forall|k: K| has_key(after.take(n + 1), key, k) <==> has_key(after.take(n), key, k) || k == key(
        after[n],
    ) by {
        if has_key(after.take(n + 1), key, k) {
            let i = choose|i: int| 0 <= i < after.take(n + 1).len() && key(#[trigger] after.take(n + 1)[i]) == k;
            if i < n {
                assert(after.take(n)[i] == after.take(n + 1)[i]);
            }
        }
        if has_key(after.take(n), key, k) {
            let i = choose|i: int| 0 <= i < after.take(n).len() && key(#[trigger] after.take(n)[i]) == k;
            assert(after.take(n + 1)[i] == after.take(n)[i]);
        }
        if k == key(after[n]) {
            assert(after.take(n + 1)[n] == after[n]);
        }
    }
    if has_key(after.take(n), key, key(after[n])) {
        let i = choose|i: int| 0 <= i < after.take(n).len() && key(#[trigger] after.take(n)[i]) == key(after[n]);
        assert(after.take(n)[i] == after[i]);
    }
}

/// A row whose key `before` does not have is inserted.
pub proof fn lemma_put_insert<T, K>(
    m: Map<K, T>,
    before: Seq<T>,
    after: Seq<T>,
    n: int,
    key: spec_fn(T) -> K,
    alike: spec_fn(T, T) -> bool,
)
    requires
        put_done(m, before, after, n, key, alike),
        keys_distinct(after, key),
        0 <= n < after.len(),
        !has_key(before, key, key(after[n])),
        alike(after[n], after[n]),
    ensures
        !m.dom().contains(key(after[n])),
        put_done(m.insert(key(after[n]), after[n]), before, after, n + 1, key, alike),
{
    lemma_take_key(after, n, key);
    let more = m.insert(key(after[n]), after[n]);
    assert forall|j: int| 0 <= j < n + 1 implies more.dom().contains(key(#[trigger] after[j])) && alike(
        more[key(after[j])],
        after[j],
    ) by {
        if j < n {
            assert(key(after[j]) != key(after[n]));
        }
    }
}

/// A row whose key `before` has with another row is updated.
pub proof fn lemma_put_update<T, K>(
    m: Map<K, T>,
    before: Seq<T>,
    after: Seq<T>,
    n: int,
    key: spec_fn(T) -> K,
    alike: spec_fn(T, T) -> bool,
)
    requires
        put_done(m, before, after, n, key, alike),
        keys_distinct(after, key),
        0 <= n < after.len(),
        has_key(before, key, key(after[n])),
        alike(after[n], after[n]),
    ensures
        m.dom().contains(key(after[n])),
        put_done(m.insert(key(after[n]), after[n]), before, after, n + 1, key, alike),
{
    lemma_take_key(after, n, key);
    let more = m.insert(key(after[n]), after[n]);
    assert forall|j: int| 0 <= j < n + 1 implies more.dom().contains(key(#[trigger] after[j])) && alike(
        more[key(after[j])],
        after[j],
    ) by {
        if j < n {
            assert(key(after[j]) != key(after[n]));
        }
    }
}

/// A row that `before` has alike stays as it is.
pub proof fn lemma_put_same<T, K>(
    m: Map<K, T>,
    before: Seq<T>,
    after: Seq<T>,
    n: int,
    key: spec_fn(T) -> K,
    alike: spec_fn(T, T) -> bool,
)
    requires
        put_done(m, before, after, n, key, alike),
        keys_distinct(after, key),
        0 <= n < after.len(),
        has_key(before, key, key(after[n])),
        alike(the_row(before, key, key(after[n])), after[n]),
    ensures
        put_done(m, before, after, n + 1, key, alike),
{
    lemma_take_key(after, n, key);
    assert(m[key(after[n])] == the_row(before, key, key(after[n])));
}

/// The table while the rows of `before` that `after` lacks are deleted: of
/// the keys that it held at the start those are gone that belong to one of
/// the first `n` rows of `before` and to no row of `after`; the rows under
/// the other keys are as they were.
pub open spec fn drop_done<T, K>(
    m: Map<K, T>,
    start: Map<K, T>,
    before: Seq<T>,
    after: Seq<T>,
    n: int,
    key: spec_fn(T) -> K,
) -> bool {
    &&& forall|k: K| #[trigger]
        m.dom().contains(k) <==> start.dom().contains(k) && !(has_key(before.take(n), key, k) && !has_key(
            after,
            key,
            k,
        ))
    &&& forall|k: K| #[trigger] m.dom().contains(k) ==> m[k] == start[k]
}

/// A row whose key `after` lacks is deleted.
pub proof fn lemma_drop_delete<T, K>(
    m: Map<K, T>,
    start: Map<K, T>,
    before: Seq<T>,
    after: Seq<T>,
    n: int,
    key: spec_fn(T) -> K,
)
    requires
        drop_done(m, start, before, after, n, key),
        keys_distinct(before, key),
        0 <= n < before.len(),
        !has_key(after, key, key(before[n])),
        start.dom().contains(key(before[n])),
    ensures
        m.dom().contains(key(before[n])),
        drop_done(m.remove(key(before[n])), start, before, after, n + 1, key),
{
    lemma_take_key(before, n, key);
    let gone = key(before[n]);
    let less = m.remove(gone);
    assert(!has_key(before.take(n), key, gone));
    assert(m.dom().contains(gone));
    assert forall|k: K|
        less.dom().contains(k) <==> start.dom().contains(k) && !(has_key(before.take(n + 1), key, k)
            && !has_key(after, key, k)) by {
        assert(has_key(before.take(n + 1), key, k) <==> has_key(before.take(n), key, k) || k == gone);
        assert(m.dom().contains(k) <==> start.dom().contains(k) && !(has_key(before.take(n), key, k)
            && !has_key(after, key, k)));
    }
    assert forall|k: K| #[trigger] less.dom().contains(k) implies less[k] == start[k] by {
        assert(m.dom().contains(k));
    }
}

/// A row whose key `after` has stays.
pub proof fn lemma_drop_keep<T, K>(
    m: Map<K, T>,
    start: Map<K, T>,
    before: Seq<T>,
    after: Seq<T>,
    n: int,
    key: spec_fn(T) -> K,
)
    requires
        drop_done(m, start, before, after, n, key),
        keys_distinct(before, key),
        0 <= n < before.len(),
        has_key(after, key, key(before[n])),
    ensures
        drop_done(m, start, before, after, n + 1, key),
{
    lemma_take_key(before, n, key);
    let kept = key(before[n]);
    assert forall|k: K|
        m.dom().contains(k) <==> start.dom().contains(k) && !(has_key(before.take(n + 1), key, k)
            && !has_key(after, key, k)) by {
        assert(has_key(before.take(n + 1), key, k) <==> has_key(before.take(n), key, k) || k == kept);
        assert(m.dom().contains(k) <==> start.dom().contains(k) && !(has_key(before.take(n), key, k)
            && !has_key(after, key, k)));
    }
}

/// After the rows of `after` were put and the rows that it lacks deleted,
/// the table holds what `after` holds.
pub proof fn lemma_table_done<T, K>(
    m: Map<K, T>,
    start: Map<K, T>,
    before: Seq<T>,
    after: Seq<T>,
    key: spec_fn(T) -> K,
    alike: spec_fn(T, T) -> bool,
)
    requires
        put_done(start, before, after, after.len() as int, key, alike),
        drop_done(m, start, before, after, before.len() as int, key),
        keys_distinct(after, key),
    ensures
        alike_map(m, keyed(after, key), alike),
{
    assert(after.take(after.len() as int) =~= after);
    assert(before.take(before.len() as int) =~= before);
    assert forall|k: K| m.dom().contains(k) <==> has_key(after, key, k) by {
        assert(m.dom().contains(k) <==> start.dom().contains(k) && !(has_key(before, key, k) && !has_key(
            after,
            key,
            k,
        )));
        assert(start.dom().contains(k) <==> has_key(before, key, k) || has_key(after, key, k));
    }
    assert forall|k: K| m.dom().contains(k) implies alike(#[trigger] m[k], keyed(after, key)[k]) by {
        assert(has_key(after, key, k));
        let j = choose|j: int| 0 <= j < after.len() && key(#[trigger] after[j]) == k;
        lemma_the_row(after, key, j);
        assert(alike(start[key(after[j])], after[j]));
        assert(m[k] == start[k]);
    }
}

/// Puts the rows of `years` that are new or changed.
fn put_years(
    out: &mut Vec<Change>,
    before: &Vec<Year>,
    after: &Vec<Year>,
    Ghost(h0): Ghost<Held>,
    Ghost(cur): Ghost<Held>,
) -> (next: Ghost<Held>)
    requires
        apply_all(h0, old(out)@) == Some(cur),
        cur.years == keyed(before@, year_id()),
        keys_distinct(before@, year_id()),
        keys_distinct(after@, year_id()),
        ranks_up_to(old(out)@, 0),
    ensures
        apply_all(h0, final(out)@) == Some(next@),
        next@ == (Held { years: next@.years, ..cur }),
        put_done(next@.years, before@, after@, after@.len() as int, year_id(), alike_years()),
        ranks_up_to(final(out)@, 0),
{
    let ghost mut now = cur;
    let mut i: usize = 0;
    proof {
        lemma_put_start(before@, after@, year_id(), alike_years());
    }
    while i < after.len()
        invariant
            i <= after.len(),
            keys_distinct(before@, year_id()),
            keys_distinct(after@, year_id()),
            apply_all(h0, out@) == Some(now),
            now == (Held { years: now.years, ..cur }),
            put_done(now.years, before@, after@, i as int, year_id(), alike_years()),
            ranks_up_to(out@, 0),
        decreases after.len() - i,
    {
        let row = &after[i];
        let ghost k = year_id()(*row);
        let ghost named = |x: Year| year_id()(x) == k;
        let found = find_row(
            before,
            &|x: &Year| -> (b: bool)
                ensures
                    b == named(*x)
            {
                x.id == row.id
            },
            Ghost(named),
        );
        match found {
            None => {
                let change = Change { action: Action::Insert, row: Row::Year(*row) };
                proof {
                    if has_key(before@, year_id(), k) {
                        let j = choose|j: int| 0 <= j < before@.len() && year_id()(#[trigger] before@[j]) == k;
                        assert(named(before@[j]));
                    }
                    lemma_put_insert(now.years, before@, after@, i as int, year_id(), alike_years());
                    lemma_apply_push(h0, out@, change);
                    lemma_ranks_push(out@, change, 0);
                    now = Held { years: now.years.insert(k, *row), ..now };
                }
                out.push(change);
            },
            Some(j) => {
                proof {
                    lemma_the_row(before@, year_id(), j as int);
                }
                if same_years(&before[j], row) {
                    proof {
                        lemma_put_same(now.years, before@, after@, i as int, year_id(), alike_years());
                    }
                } else {
                    let change = Change { action: Action::Update, row: Row::Year(*row) };
                    proof {
                        lemma_put_update(now.years, before@, after@, i as int, year_id(), alike_years());
                        lemma_apply_push(h0, out@, change);
                        lemma_ranks_push(out@, change, 0);
                        now = Held { years: now.years.insert(k, *row), ..now };
                    }
                    out.push(change);
                }
            },
        }
        i += 1;
    }
    Ghost(now)
}

/// Deletes the rows of `years` that are gone.
fn drop_years(
    out: &mut Vec<Change>,
    before: &Vec<Year>,
    after: &Vec<Year>,
    Ghost(h0): Ghost<Held>,
    Ghost(cur): Ghost<Held>,
) -> (next: Ghost<Held>)
    requires
        apply_all(h0, old(out)@) == Some(cur),
        put_done(cur.years, before@, after@, after@.len() as int, year_id(), alike_years()),
        keys_distinct(before@, year_id()),
        keys_distinct(after@, year_id()),
        ranks_up_to(old(out)@, 25),
    ensures
        apply_all(h0, final(out)@) == Some(next@),
        next@ == (Held { years: next@.years, ..cur }),
        alike_map(next@.years, keyed(after@, year_id()), alike_years()),
        ranks_up_to(final(out)@, 25),
{
    let ghost mut now = cur;
    let mut i: usize = 0;
    proof {
        assert(before@.take(0).len() == 0);
    }
    while i < before.len()
        invariant
            i <= before.len(),
            keys_distinct(before@, year_id()),
            keys_distinct(after@, year_id()),
            apply_all(h0, out@) == Some(now),
            now == (Held { years: now.years, ..cur }),
            put_done(cur.years, before@, after@, after@.len() as int, year_id(), alike_years()),
            drop_done(now.years, cur.years, before@, after@, i as int, year_id()),
            ranks_up_to(out@, 25),
        decreases before.len() - i,
    {
        let row = &before[i];
        let ghost k = year_id()(*row);
        let ghost named = |x: Year| year_id()(x) == k;
        let found = find_row(
            after,
            &|x: &Year| -> (b: bool)
                ensures
                    b == named(*x)
            {
                x.id == row.id
            },
            Ghost(named),
        );
        match found {
            None => {
                let change = Change { action: Action::Delete, row: Row::Year(*row) };
                proof {
                    if has_key(after@, year_id(), k) {
                        let j = choose|j: int| 0 <= j < after@.len() && year_id()(#[trigger] after@[j]) == k;
                        assert(named(after@[j]));
                    }
                    assert(has_key(before@, year_id(), k));
                    lemma_drop_delete(now.years, cur.years, before@, after@, i as int, year_id());
                    lemma_apply_push(h0, out@, change);
                    lemma_ranks_push(out@, change, 25);
                    now = Held { years: now.years.remove(k), ..now };
                }
                out.push(change);
            },
            Some(j) => {
                proof {
                    lemma_drop_keep(now.years, cur.years, before@, after@, i as int, year_id());
                }
            },
        }
        i += 1;
    }
    proof {
        lemma_table_done(now.years, cur.years, before@, after@, year_id(), alike_years());
    }
    Ghost(now)
}

/// Puts the rows of `days` that are new or changed.
fn put_days(
    out: &mut Vec<Change>,
    before: &Vec<Day>,
    after: &Vec<Day>,
    Ghost(h0): Ghost<Held>,
    Ghost(cur): Ghost<Held>,
) -> (next: Ghost<Held>)
    requires
        apply_all(h0, old(out)@) == Some(cur),
        cur.days == keyed(before@, day_id()),
        keys_distinct(before@, day_id()),
        keys_distinct(after@, day_id()),
        ranks_up_to(old(out)@, 1),
    ensures
        apply_all(h0, final(out)@) == Some(next@),
        next@ == (Held { days: next@.days, ..cur }),
        put_done(next@.days, before@, after@, after@.len() as int, day_id(), alike_days()),
        ranks_up_to(final(out)@, 1),
{
    let ghost mut now = cur;
    let mut i: usize = 0;
    proof {
        lemma_put_start(before@, after@, day_id(), alike_days());
    }
    while i < after.len()
        invariant
            i <= after.len(),
            keys_distinct(before@, day_id()),
            keys_distinct(after@, day_id()),
            apply_all(h0, out@) == Some(now),
            now == (Held { days: now.days, ..cur }),
            put_done(now.days, before@, after@, i as int, day_id(), alike_days()),
            ranks_up_to(out@, 1),
        decreases after.len() - i,
    {
        let row = &after[i];
        let ghost k = day_id()(*row);
        let ghost named = |x: Day| day_id()(x) == k;
        let found = find_row(
            before,
            &|x: &Day| -> (b: bool)
                ensures
                    b == named(*x)
            {
                x.id == row.id
            },
            Ghost(named),
        );
        match found {
            None => {
                let change = Change { action: Action::Insert, row: Row::Day(row.clone()) };
                proof {
                    if has_key(before@, day_id(), k) {
                        let j = choose|j: int| 0 <= j < before@.len() && day_id()(#[trigger] before@[j]) == k;
                        assert(named(before@[j]));
                    }
                    lemma_put_insert(now.days, before@, after@, i as int, day_id(), alike_days());
                    lemma_apply_push(h0, out@, change);
                    lemma_ranks_push(out@, change, 1);
                    now = Held { days: now.days.insert(k, *row), ..now };
                }
                out.push(change);
            },
            Some(j) => {
                proof {
                    lemma_the_row(before@, day_id(), j as int);
                }
                if same_days(&before[j], row) {
                    proof {
                        lemma_put_same(now.days, before@, after@, i as int, day_id(), alike_days());
                    }
                } else {
                    let change = Change { action: Action::Update, row: Row::Day(row.clone()) };
                    proof {
                        lemma_put_update(now.days, before@, after@, i as int, day_id(), alike_days());
                        lemma_apply_push(h0, out@, change);
                        lemma_ranks_push(out@, change, 1);
                        now = Held { days: now.days.insert(k, *row), ..now };
                    }
                    out.push(change);
                }
            },
        }
        i += 1;
    }
    Ghost(now)
}

/// Deletes the rows of `days` that are gone.
fn drop_days(
    out: &mut Vec<Change>,
    before: &Vec<Day>,
    after: &Vec<Day>,
    Ghost(h0): Ghost<Held>,
    Ghost(cur): Ghost<Held>,
) -> (next: Ghost<Held>)
    requires
        apply_all(h0, old(out)@) == Some(cur),
        put_done(cur.days, before@, after@, after@.len() as int, day_id(), alike_days()),
        keys_distinct(before@, day_id()),
        keys_distinct(after@, day_id()),
        ranks_up_to(old(out)@, 24),
    ensures
        apply_all(h0, final(out)@) == Some(next@),
        next@ == (Held { days: next@.days, ..cur }),
        alike_map(next@.days, keyed(after@, day_id()), alike_days()),
        ranks_up_to(final(out)@, 24),
{
    let ghost mut now = cur;
    let mut i: usize = 0;
    proof {
        assert(before@.take(0).len() == 0);
    }
    while i < before.len()
        invariant
            i <= before.len(),
            keys_distinct(before@, day_id()),
            keys_distinct(after@, day_id()),
            apply_all(h0, out@) == Some(now),
            now == (Held { days: now.days, ..cur }),
            put_done(cur.days, before@, after@, after@.len() as int, day_id(), alike_days()),
            drop_done(now.days, cur.days, before@, after@, i as int, day_id()),
            ranks_up_to(out@, 24),
        decreases before.len() - i,
    {
        let row = &before[i];
        let ghost k = day_id()(*row);
        let ghost named = |x: Day| day_id()(x) == k;
        let found = find_row(
            after,
            &|x: &Day| -> (b: bool)
                ensures
                    b == named(*x)
            {
                x.id == row.id
            },
            Ghost(named),
        );
        match found {
            None => {
                let change = Change { action: Action::Delete, row: Row::Day(row.clone()) };
                proof {
                    if has_key(after@, day_id(), k) {
                        let j = choose|j: int| 0 <= j < after@.len() && day_id()(#[trigger] after@[j]) == k;
                        assert(named(after@[j]));
                    }
                    assert(has_key(before@, day_id(), k));
                    lemma_drop_delete(now.days, cur.days, before@, after@, i as int, day_id());
                    lemma_apply_push(h0, out@, change);
                    lemma_ranks_push(out@, change, 24);
                    now = Held { days: now.days.remove(k), ..now };
                }
                out.push(change);
            },
            Some(j) => {
                proof {
                    lemma_drop_keep(now.days, cur.days, before@, after@, i as int, day_id());
                }
            },
        }
        i += 1;
    }
    proof {
        lemma_table_done(now.days, cur.days, before@, after@, day_id(), alike_days());
    }
    Ghost(now)
}

/// Puts the rows of `experiments` that are new or changed.
fn put_experiments(
    out: &mut Vec<Change>,
    before: &Vec<Experiment>,
    after: &Vec<Experiment>,
    Ghost(h0): Ghost<Held>,
    Ghost(cur): Ghost<Held>,
) -> (next: Ghost<Held>)
    requires
        apply_all(h0, old(out)@) == Some(cur),
        cur.experiments == keyed(before@, experiment_id()),
        keys_distinct(before@, experiment_id()),
        keys_distinct(after@, experiment_id()),
        ranks_up_to(old(out)@, 2),
    ensures
        apply_all(h0, final(out)@) == Some(next@),
        next@ == (Held { experiments: next@.experiments, ..cur }),
        put_done(next@.experiments, before@, after@, after@.len() as int, experiment_id(), alike_experiments()),
        ranks_up_to(final(out)@, 2),
{
    let ghost mut now = cur;
    let mut i: usize = 0;
    proof {
        lemma_put_start(before@, after@, experiment_id(), alike_experiments());
    }
    while i < after.len()
        invariant
            i <= after.len(),
            keys_distinct(before@, experiment_id()),
            keys_distinct(after@, experiment_id()),
            apply_all(h0, out@) == Some(now),
            now == (Held { experiments: now.experiments, ..cur }),
            put_done(now.experiments, before@, after@, i as int, experiment_id(), alike_experiments()),
            ranks_up_to(out@, 2),
        decreases after.len() - i,
    {
        let row = &after[i];
        let ghost k = experiment_id()(*row);
        let ghost named = |x: Experiment| experiment_id()(x) == k;
        let found = find_row(
            before,
            &|x: &Experiment| -> (b: bool)
                ensures
                    b == named(*x)
            {
                x.id == row.id
            },
            Ghost(named),
        );
        match found {
            None => {
                let change = Change { action: Action::Insert, row: Row::Experiment(row.clone()) };
                proof {
                    if has_key(before@, experiment_id(), k) {
                        let j = choose|j: int| 0 <= j < before@.len() && experiment_id()(#[trigger] before@[j]) == k;
                        assert(named(before@[j]));
                    }
                    lemma_put_insert(now.experiments, before@, after@, i as int, experiment_id(), alike_experiments());
                    lemma_apply_push(h0, out@, change);
                    lemma_ranks_push(out@, change, 2);
                    now = Held { experiments: now.experiments.insert(k, *row), ..now };
                }
                out.push(change);
            },
            Some(j) => {
                proof {
                    lemma_the_row(before@, experiment_id(), j as int);
                }
                if same_experiments(&before[j], row) {
                    proof {
                        lemma_put_same(now.experiments, before@, after@, i as int, experiment_id(), alike_experiments());
                    }
                } else {
                    let change = Change { action: Action::Update, row: Row::Experiment(row.clone()) };
                    proof {
                        lemma_put_update(now.experiments, before@, after@, i as int, experiment_id(), alike_experiments());
                        lemma_apply_push(h0, out@, change);
                        lemma_ranks_push(out@, change, 2);
                        now = Held { experiments: now.experiments.insert(k, *row), ..now };
                    }
                    out.push(change);
                }
            },
        }
        i += 1;
    }
    Ghost(now)
}

/// Deletes the rows of `experiments` that are gone.
fn drop_experiments(
    out: &mut Vec<Change>,
    before: &Vec<Experiment>,
    after: &Vec<Experiment>,
    Ghost(h0): Ghost<Held>,
    Ghost(cur): Ghost<Held>,
) -> (next: Ghost<Held>)
    requires
        apply_all(h0, old(out)@) == Some(cur),
        put_done(cur.experiments, before@, after@, after@.len() as int, experiment_id(), alike_experiments()),
        keys_distinct(before@, experiment_id()),
        keys_distinct(after@, experiment_id()),
        ranks_up_to(old(out)@, 23),
    ensures
        apply_all(h0, final(out)@) == Some(next@),
        next@ == (Held { experiments: next@.experiments, ..cur }),
        alike_map(next@.experiments, keyed(after@, experiment_id()), alike_experiments()),
        ranks_up_to(final(out)@, 23),
{
    let ghost mut now = cur;
    let mut i: usize = 0;
    proof {
        assert(before@.take(0).len() == 0);
    }
    while i < before.len()
        invariant
            i <= before.len(),
            keys_distinct(before@, experiment_id()),
            keys_distinct(after@, experiment_id()),
            apply_all(h0, out@) == Some(now),
            now == (Held { experiments: now.experiments, ..cur }),
            put_done(cur.experiments, before@, after@, after@.len() as int, experiment_id(), alike_experiments()),
            drop_done(now.experiments, cur.experiments, before@, after@, i as int, experiment_id()),
            ranks_up_to(out@, 23),
        decreases before.len() - i,
    {
        let row = &before[i];
        let ghost k = experiment_id()(*row);
        let ghost named = |x: Experiment| experiment_id()(x) == k;
        let found = find_row(
            after,
            &|x: &Experiment| -> (b: bool)
                ensures
                    b == named(*x)
            {
                x.id == row.id
            },
            Ghost(named),
        );
        match found {
            None => {
                let change = Change { action: Action::Delete, row: Row::Experiment(row.clone()) };
                proof {
                    if has_key(after@, experiment_id(), k) {
                        let j = choose|j: int| 0 <= j < after@.len() && experiment_id()(#[trigger] after@[j]) == k;
                        assert(named(after@[j]));
                    }
                    assert(has_key(before@, experiment_id(), k));
                    lemma_drop_delete(now.experiments, cur.experiments, before@, after@, i as int, experiment_id());
                    lemma_apply_push(h0, out@, change);
                    lemma_ranks_push(out@, change, 23);
                    now = Held { experiments: now.experiments.remove(k), ..now };
                }
                out.push(change);
            },
            Some(j) => {
                proof {
                    lemma_drop_keep(now.experiments, cur.experiments, before@, after@, i as int, experiment_id());
                }
            },
        }
        i += 1;
    }
    proof {
        lemma_table_done(now.experiments, cur.experiments, before@, after@, experiment_id(), alike_experiments());
    }
    Ghost(now)
}

/// Puts the rows of `events` that are new or changed.
fn put_events(
    out: &mut Vec<Change>,
    before: &Vec<Event>,
    after: &Vec<Event>,
    Ghost(h0): Ghost<Held>,
    Ghost(cur): Ghost<Held>,
) -> (next: Ghost<Held>)
    requires
        apply_all(h0, old(out)@) == Some(cur),
        cur.events == keyed(before@, event_key()),
        keys_distinct(before@, event_key()),
        keys_distinct(after@, event_key()),
        ranks_up_to(old(out)@, 3),
    ensures
        apply_all(h0, final(out)@) == Some(next@),
        next@ == (Held { events: next@.events, ..cur }),
        put_done(next@.events, before@, after@, after@.len() as int, event_key(), alike_events()),
        ranks_up_to(final(out)@, 3),
{
    let ghost mut now = cur;
    let mut i: usize = 0;
    proof {
        lemma_put_start(before@, after@, event_key(), alike_events());
    }
    while i < after.len()
        invariant
            i <= after.len(),
            keys_distinct(before@, event_key()),
            keys_distinct(after@, event_key()),
            apply_all(h0, out@) == Some(now),
            now == (Held { events: now.events, ..cur }),
            put_done(now.events, before@, after@, i as int, event_key(), alike_events()),
            ranks_up_to(out@, 3),
        decreases after.len() - i,
    {
        let row = &after[i];
        let ghost k = event_key()(*row);
        let ghost named = |x: Event| event_key()(x) == k;
        let found = find_row(
            before,
            &|x: &Event| -> (b: bool)
                ensures
                    b == named(*x)
            {
                x.day_id == row.day_id && x.experiment_id == row.experiment_id
            },
            Ghost(named),
        );
        match found {
            None => {
                let change = Change { action: Action::Insert, row: Row::Event(*row) };
                proof {
                    if has_key(before@, event_key(), k) {
                        let j = choose|j: int| 0 <= j < before@.len() && event_key()(#[trigger] before@[j]) == k;
                        assert(named(before@[j]));
                    }
                    lemma_put_insert(now.events, before@, after@, i as int, event_key(), alike_events());
                    lemma_apply_push(h0, out@, change);
                    lemma_ranks_push(out@, change, 3);
                    now = Held { events: now.events.insert(k, *row), ..now };
                }
                out.push(change);
            },
            Some(j) => {
                proof {
                    lemma_the_row(before@, event_key(), j as int);
                }
                if same_events(&before[j], row) {
                    proof {
                        lemma_put_same(now.events, before@, after@, i as int, event_key(), alike_events());
                    }
                } else {
                    let change = Change { action: Action::Update, row: Row::Event(*row) };
                    proof {
                        lemma_put_update(now.events, before@, after@, i as int, event_key(), alike_events());
                        lemma_apply_push(h0, out@, change);
                        lemma_ranks_push(out@, change, 3);
                        now = Held { events: now.events.insert(k, *row), ..now };
                    }
                    out.push(change);
                }
            },
        }
        i += 1;
    }
    Ghost(now)
}

/// Deletes the rows of `events` that are gone.
fn drop_events(
    out: &mut Vec<Change>,
    before: &Vec<Event>,
    after: &Vec<Event>,
    Ghost(h0): Ghost<Held>,
    Ghost(cur): Ghost<Held>,
) -> (next: Ghost<Held>)
    requires
        apply_all(h0, old(out)@) == Some(cur),
        put_done(cur.events, before@, after@, after@.len() as int, event_key(), alike_events()),
        keys_distinct(before@, event_key()),
        keys_distinct(after@, event_key()),
        ranks_up_to(old(out)@, 22),
    ensures
        apply_all(h0, final(out)@) == Some(next@),
        next@ == (Held { events: next@.events, ..cur }),
        alike_map(next@.events, keyed(after@, event_key()), alike_events()),
        ranks_up_to(final(out)@, 22),
{
    let ghost mut now = cur;
    let mut i: usize = 0;
    proof {
        assert(before@.take(0).len() == 0);
    }
    while i < before.len()
        invariant
            i <= before.len(),
            keys_distinct(before@, event_key()),
            keys_distinct(after@, event_key()),
            apply_all(h0, out@) == Some(now),
            now == (Held { events: now.events, ..cur }),
            put_done(cur.events, before@, after@, after@.len() as int, event_key(), alike_events()),
            drop_done(now.events, cur.events, before@, after@, i as int, event_key()),
            ranks_up_to(out@, 22),
        decreases before.len() - i,
    {
        let row = &before[i];
        let ghost k = event_key()(*row);
        let ghost named = |x: Event| event_key()(x) == k;
        let found = find_row(
            after,
            &|x: &Event| -> (b: bool)
                ensures
                    b == named(*x)
            {
                x.day_id == row.day_id && x.experiment_id == row.experiment_id
            },
            Ghost(named),
        );
        match found {
            None => {
                let change = Change { action: Action::Delete, row: Row::Event(*row) };
                proof {
                    if has_key(after@, event_key(), k) {
                        let j = choose|j: int| 0 <= j < after@.len() && event_key()(#[trigger] after@[j]) == k;
                        assert(named(after@[j]));
                    }
                    assert(has_key(before@, event_key(), k));
                    lemma_drop_delete(now.events, cur.events, before@, after@, i as int, event_key());
                    lemma_apply_push(h0, out@, change);
                    lemma_ranks_push(out@, change, 22);
                    now = Held { events: now.events.remove(k), ..now };
                }
                out.push(change);
            },
            Some(j) => {
                proof {
                    lemma_drop_keep(now.events, cur.events, before@, after@, i as int, event_key());
                }
            },
        }
        i += 1;
    }
    proof {
        lemma_table_done(now.events, cur.events, before@, after@, event_key(), alike_events());
    }
    Ghost(now)
}

/// Puts the rows of `groups` that are new or changed.
fn put_groups(
    out: &mut Vec<Change>,
    before: &Vec<Group>,
    after: &Vec<Group>,
    Ghost(h0): Ghost<Held>,
    Ghost(cur): Ghost<Held>,
) -> (next: Ghost<Held>)
    requires
        apply_all(h0, old(out)@) == Some(cur),
        cur.groups == keyed(before@, group_id()),
        keys_distinct(before@, group_id()),
        keys_distinct(after@, group_id()),
        ranks_up_to(old(out)@, 4),
    ensures
        apply_all(h0, final(out)@) == Some(next@),
        next@ == (Held { groups: next@.groups, ..cur }),
        put_done(next@.groups, before@, after@, after@.len() as int, group_id(), alike_groups()),
        ranks_up_to(final(out)@, 4),
{
    let ghost mut now = cur;
    let mut i: usize = 0;
    proof {
        lemma_put_start(before@, after@, group_id(), alike_groups());
    }
    while i < after.len()
        invariant
            i <= after.len(),
            keys_distinct(before@, group_id()),
            keys_distinct(after@, group_id()),
            apply_all(h0, out@) == Some(now),
            now == (Held { groups: now.groups, ..cur }),
            put_done(now.groups, before@, after@, i as int, group_id(), alike_groups()),
            ranks_up_to(out@, 4),
        decreases after.len() - i,
    {
        let row = &after[i];
        let ghost k = group_id()(*row);
        let ghost named = |x: Group| group_id()(x) == k;
        let found = find_row(
            before,
            &|x: &Group| -> (b: bool)
                ensures
                    b == named(*x)
            {
                x.id == row.id
            },
            Ghost(named),
        );
        match found {
            None => {
                let change = Change { action: Action::Insert, row: Row::Group(row.clone()) };
                proof {
                    if has_key(before@, group_id(), k) {
                        let j = choose|j: int| 0 <= j < before@.len() && group_id()(#[trigger] before@[j]) == k;
                        assert(named(before@[j]));
                    }
                    lemma_put_insert(now.groups, before@, after@, i as int, group_id(), alike_groups());
                    lemma_apply_push(h0, out@, change);
                    lemma_ranks_push(out@, change, 4);
                    now = Held { groups: now.groups.insert(k, *row), ..now };
                }
                out.push(change);
            },
            Some(j) => {
                proof {
                    lemma_the_row(before@, group_id(), j as int);
                }
                if same_groups(&before[j], row) {
                    proof {
                        lemma_put_same(now.groups, before@, after@, i as int, group_id(), alike_groups());
                    }
                } else {
                    let change = Change { action: Action::Update, row: Row::Group(row.clone()) };
                    proof {
                        lemma_put_update(now.groups, before@, after@, i as int, group_id(), alike_groups());
                        lemma_apply_push(h0, out@, change);
                        lemma_ranks_push(out@, change, 4);
                        now = Held { groups: now.groups.insert(k, *row), ..now };
                    }
                    out.push(change);
                }
            },
        }
        i += 1;
    }
    Ghost(now)
}

/// Deletes the rows of `groups` that are gone.
fn drop_groups(
    out: &mut Vec<Change>,
    before: &Vec<Group>,
    after: &Vec<Group>,
    Ghost(h0): Ghost<Held>,
    Ghost(cur): Ghost<Held>,
) -> (next: Ghost<Held>)
    requires
        apply_all(h0, old(out)@) == Some(cur),
        put_done(cur.groups, before@, after@, after@.len() as int, group_id(), alike_groups()),
        keys_distinct(before@, group_id()),
        keys_distinct(after@, group_id()),
        ranks_up_to(old(out)@, 21),
    ensures
        apply_all(h0, final(out)@) == Some(next@),
        next@ == (Held { groups: next@.groups, ..cur }),
        alike_map(next@.groups, keyed(after@, group_id()), alike_groups()),
        ranks_up_to(final(out)@, 21),
{
    let ghost mut now = cur;
    let mut i: usize = 0;
    proof {
        assert(before@.take(0).len() == 0);
    }
    while i < before.len()
        invariant
            i <= before.len(),
            keys_distinct(before@, group_id()),
            keys_distinct(after@, group_id()),
            apply_all(h0, out@) == Some(now),
            now == (Held { groups: now.groups, ..cur }),
            put_done(cur.groups, before@, after@, after@.len() as int, group_id(), alike_groups()),
            drop_done(now.groups, cur.groups, before@, after@, i as int, group_id()),
            ranks_up_to(out@, 21),
        decreases before.len() - i,
    {
        let row = &before[i];
        let ghost k = group_id()(*row);
        let ghost named = |x: Group| group_id()(x) == k;
        let found = find_row(
            after,
            &|x: &Group| -> (b: bool)
                ensures
                    b == named(*x)
            {
                x.id == row.id
            },
            Ghost(named),
        );
        match found {
            None => {
                let change = Change { action: Action::Delete, row: Row::Group(row.clone()) };
                proof {
                    if has_key(after@, group_id(), k) {
                        let j = choose|j: int| 0 <= j < after@.len() && group_id()(#[trigger] after@[j]) == k;
                        assert(named(after@[j]));
                    }
                    assert(has_key(before@, group_id(), k));
                    lemma_drop_delete(now.groups, cur.groups, before@, after@, i as int, group_id());
                    lemma_apply_push(h0, out@, change);
                    lemma_ranks_push(out@, change, 21);
                    now = Held { groups: now.groups.remove(k), ..now };
                }
                out.push(change);
            },
            Some(j) => {
                proof {
                    lemma_drop_keep(now.groups, cur.groups, before@, after@, i as int, group_id());
                }
            },
        }
        i += 1;
    }
    proof {
        lemma_table_done(now.groups, cur.groups, before@, after@, group_id(), alike_groups());
    }
    Ghost(now)
}

/// Puts the rows of `students` that are new or changed.
fn put_students(
    out: &mut Vec<Change>,
    before: &Vec<Student>,
    after: &Vec<Student>,
    Ghost(h0): Ghost<Held>,
    Ghost(cur): Ghost<Held>,
) -> (next: Ghost<Held>)
    requires
        apply_all(h0, old(out)@) == Some(cur),
        cur.students == keyed(before@, student_id()),
        keys_distinct(before@, student_id()),
        keys_distinct(after@, student_id()),
        ranks_up_to(old(out)@, 5),
    ensures
        apply_all(h0, final(out)@) == Some(next@),
        next@ == (Held { students: next@.students, ..cur }),
        put_done(next@.students, before@, after@, after@.len() as int, student_id(), alike_students()),
        ranks_up_to(final(out)@, 5),
{
    let ghost mut now = cur;
    let mut i: usize = 0;
    proof {
        lemma_put_start(before@, after@, student_id(), alike_students());
    }
    while i < after.len()
        invariant
            i <= after.len(),
            keys_distinct(before@, student_id()),
            keys_distinct(after@, student_id()),
            apply_all(h0, out@) == Some(now),
            now == (Held { students: now.students, ..cur }),
            put_done(now.students, before@, after@, i as int, student_id(), alike_students()),
            ranks_up_to(out@, 5),
        decreases after.len() - i,
    {
        let row = &after[i];
        let ghost k = student_id()(*row);
        let ghost named = |x: Student| student_id()(x) == k;
        let found = find_row(
            before,
            &|x: &Student| -> (b: bool)
                ensures
                    b == named(*x)
            {
                x.id == row.id
            },
            Ghost(named),
        );
        match found {
            None => {
                let change = Change { action: Action::Insert, row: Row::Student(row.clone()) };
                proof {
                    if has_key(before@, student_id(), k) {
                        let j = choose|j: int| 0 <= j < before@.len() && student_id()(#[trigger] before@[j]) == k;
                        assert(named(before@[j]));
                    }
                    lemma_put_insert(now.students, before@, after@, i as int, student_id(), alike_students());
                    lemma_apply_push(h0, out@, change);
                    lemma_ranks_push(out@, change, 5);
                    now = Held { students: now.students.insert(k, *row), ..now };
                }
                out.push(change);
            },
            Some(j) => {
                proof {
                    lemma_the_row(before@, student_id(), j as int);
                }
                if same_students(&before[j], row) {
                    proof {
                        lemma_put_same(now.students, before@, after@, i as int, student_id(), alike_students());
                    }
                } else {
                    let change = Change { action: Action::Update, row: Row::Student(row.clone()) };
                    proof {
                        lemma_put_update(now.students, before@, after@, i as int, student_id(), alike_students());
                        lemma_apply_push(h0, out@, change);
                        lemma_ranks_push(out@, change, 5);
                        now = Held { students: now.students.insert(k, *row), ..now };
                    }
                    out.push(change);
                }
            },
        }
        i += 1;
    }
    Ghost(now)
}

/// Deletes the rows of `students` that are gone.
fn drop_students(
    out: &mut Vec<Change>,
    before: &Vec<Student>,
    after: &Vec<Student>,
    Ghost(h0): Ghost<Held>,
    Ghost(cur): Ghost<Held>,
) -> (next: Ghost<Held>)
    requires
        apply_all(h0, old(out)@) == Some(cur),
        put_done(cur.students, before@, after@, after@.len() as int, student_id(), alike_students()),
        keys_distinct(before@, student_id()),
        keys_distinct(after@, student_id()),
        ranks_up_to(old(out)@, 20),
    ensures
        apply_all(h0, final(out)@) == Some(next@),
        next@ == (Held { students: next@.students, ..cur }),
        alike_map(next@.students, keyed(after@, student_id()), alike_students()),
        ranks_up_to(final(out)@, 20),
{
    let ghost mut now = cur;
    let mut i: usize = 0;
    proof {
        assert(before@.take(0).len() == 0);
    }
    while i < before.len()
        invariant
            i <= before.len(),
            keys_distinct(before@, student_id()),
            keys_distinct(after@, student_id()),
            apply_all(h0, out@) == Some(now),
            now == (Held { students: now.students, ..cur }),
            put_done(cur.students, before@, after@, after@.len() as int, student_id(), alike_students()),
            drop_done(now.students, cur.students, before@, after@, i as int, student_id()),
            ranks_up_to(out@, 20),
        decreases before.len() - i,
    {
        let row = &before[i];
        let ghost k = student_id()(*row);
        let ghost named = |x: Student| student_id()(x) == k;
        let found = find_row(
            after,
            &|x: &Student| -> (b: bool)
                ensures
                    b == named(*x)
            {
                x.id == row.id
            },
            Ghost(named),
        );
        match found {
            None => {
                let change = Change { action: Action::Delete, row: Row::Student(row.clone()) };
                proof {
                    if has_key(after@, student_id(), k) {
                        let j = choose|j: int| 0 <= j < after@.len() && student_id()(#[trigger] after@[j]) == k;
                        assert(named(after@[j]));
                    }
                    assert(has_key(before@, student_id(), k));
                    lemma_drop_delete(now.students, cur.students, before@, after@, i as int, student_id());
                    lemma_apply_push(h0, out@, change);
                    lemma_ranks_push(out@, change, 20);
                    now = Held { students: now.students.remove(k), ..now };
                }
                out.push(change);
            },
            Some(j) => {
                proof {
                    lemma_drop_keep(now.students, cur.students, before@, after@, i as int, student_id());
                }
            },
        }
        i += 1;
    }
    proof {
        lemma_table_done(now.students, cur.students, before@, after@, student_id(), alike_students());
    }
    Ghost(now)
}

/// Puts the rows of `group_mappings` that are new or changed.
fn put_group_mappings(
    out: &mut Vec<Change>,
    before: &Vec<GroupMapping>,
    after: &Vec<GroupMapping>,
    Ghost(h0): Ghost<Held>,
    Ghost(cur): Ghost<Held>,
) -> (next: Ghost<Held>)
    requires
        apply_all(h0, old(out)@) == Some(cur),
        cur.group_mappings == keyed(before@, mapping_key()),
        keys_distinct(before@, mapping_key()),
        keys_distinct(after@, mapping_key()),
        ranks_up_to(old(out)@, 6),
    ensures
        apply_all(h0, final(out)@) == Some(next@),
        next@ == (Held { group_mappings: next@.group_mappings, ..cur }),
        put_done(next@.group_mappings, before@, after@, after@.len() as int, mapping_key(), alike_group_mappings()),
        ranks_up_to(final(out)@, 6),
{
    let ghost mut now = cur;
    let mut i: usize = 0;
    proof {
        lemma_put_start(before@, after@, mapping_key(), alike_group_mappings());
    }
    while i < after.len()
        invariant
            i <= after.len(),
            keys_distinct(before@, mapping_key()),
            keys_distinct(after@, mapping_key()),
            apply_all(h0, out@) == Some(now),
            now == (Held { group_mappings: now.group_mappings, ..cur }),
            put_done(now.group_mappings, before@, after@, i as int, mapping_key(), alike_group_mappings()),
            ranks_up_to(out@, 6),
        decreases after.len() - i,
    {
        let row = &after[i];
        let ghost k = mapping_key()(*row);
        let ghost named = |x: GroupMapping| mapping_key()(x) == k;
        let found = find_row(
            before,
            &|x: &GroupMapping| -> (b: bool)
                ensures
                    b == named(*x)
            {
                x.student_id == row.student_id && x.group_id == row.group_id
            },
            Ghost(named),
        );
        match found {
            None => {
                let change = Change { action: Action::Insert, row: Row::GroupMapping(*row) };
                proof {
                    if has_key(before@, mapping_key(), k) {
                        let j = choose|j: int| 0 <= j < before@.len() && mapping_key()(#[trigger] before@[j]) == k;
                        assert(named(before@[j]));
                    }
                    lemma_put_insert(now.group_mappings, before@, after@, i as int, mapping_key(), alike_group_mappings());
                    lemma_apply_push(h0, out@, change);
                    lemma_ranks_push(out@, change, 6);
                    now = Held { group_mappings: now.group_mappings.insert(k, *row), ..now };
                }
                out.push(change);
            },
            Some(j) => {
                proof {
                    lemma_the_row(before@, mapping_key(), j as int);
                }
                if same_group_mappings(&before[j], row) {
                    proof {
                        lemma_put_same(now.group_mappings, before@, after@, i as int, mapping_key(), alike_group_mappings());
                    }
                } else {
                    let change = Change { action: Action::Update, row: Row::GroupMapping(*row) };
                    proof {
                        lemma_put_update(now.group_mappings, before@, after@, i as int, mapping_key(), alike_group_mappings());
                        lemma_apply_push(h0, out@, change);
                        lemma_ranks_push(out@, change, 6);
                        now = Held { group_mappings: now.group_mappings.insert(k, *row), ..now };
                    }
                    out.push(change);
                }
            },
        }
        i += 1;
    }
    Ghost(now)
}

/// Deletes the rows of `group_mappings` that are gone.
fn drop_group_mappings(
    out: &mut Vec<Change>,
    before: &Vec<GroupMapping>,
    after: &Vec<GroupMapping>,
    Ghost(h0): Ghost<Held>,
    Ghost(cur): Ghost<Held>,
) -> (next: Ghost<Held>)
    requires
        apply_all(h0, old(out)@) == Some(cur),
        put_done(cur.group_mappings, before@, after@, after@.len() as int, mapping_key(), alike_group_mappings()),
        keys_distinct(before@, mapping_key()),
        keys_distinct(after@, mapping_key()),
        ranks_up_to(old(out)@, 19),
    ensures
        apply_all(h0, final(out)@) == Some(next@),
        next@ == (Held { group_mappings: next@.group_mappings, ..cur }),
        alike_map(next@.group_mappings, keyed(after@, mapping_key()), alike_group_mappings()),
        ranks_up_to(final(out)@, 19),
{
    let ghost mut now = cur;
    let mut i: usize = 0;
    proof {
        assert(before@.take(0).len() == 0);
    }
    while i < before.len()
        invariant
            i <= before.len(),
            keys_distinct(before@, mapping_key()),
            keys_distinct(after@, mapping_key()),
            apply_all(h0, out@) == Some(now),
            now == (Held { group_mappings: now.group_mappings, ..cur }),
            put_done(cur.group_mappings, before@, after@, after@.len() as int, mapping_key(), alike_group_mappings()),
            drop_done(now.group_mappings, cur.group_mappings, before@, after@, i as int, mapping_key()),
            ranks_up_to(out@, 19),
        decreases before.len() - i,
    {
        let row = &before[i];
        let ghost k = mapping_key()(*row);
        let ghost named = |x: GroupMapping| mapping_key()(x) == k;
        let found = find_row(
            after,
            &|x: &GroupMapping| -> (b: bool)
                ensures
                    b == named(*x)
            {
                x.student_id == row.student_id && x.group_id == row.group_id
            },
            Ghost(named),
        );
        match found {
            None => {
                let change = Change { action: Action::Delete, row: Row::GroupMapping(*row) };
                proof {
                    if has_key(after@, mapping_key(), k) {
                        let j = choose|j: int| 0 <= j < after@.len() && mapping_key()(#[trigger] after@[j]) == k;
                        assert(named(after@[j]));
                    }
                    assert(has_key(before@, mapping_key(), k));
                    lemma_drop_delete(now.group_mappings, cur.group_mappings, before@, after@, i as int, mapping_key());
                    lemma_apply_push(h0, out@, change);
                    lemma_ranks_push(out@, change, 19);
                    now = Held { group_mappings: now.group_mappings.remove(k), ..now };
                }
                out.push(change);
            },
            Some(j) => {
                proof {
                    lemma_drop_keep(now.group_mappings, cur.group_mappings, before@, after@, i as int, mapping_key());
                }
            },
        }
        i += 1;
    }
    proof {
        lemma_table_done(now.group_mappings, cur.group_mappings, before@, after@, mapping_key(), alike_group_mappings());
    }
    Ghost(now)
}

/// Puts the rows of `tasks` that are new or changed.
fn put_tasks(
    out: &mut Vec<Change>,
    before: &Vec<Task>,
    after: &Vec<Task>,
    Ghost(h0): Ghost<Held>,
    Ghost(cur): Ghost<Held>,
) -> (next: Ghost<Held>)
    requires
        apply_all(h0, old(out)@) == Some(cur),
        cur.tasks == keyed(before@, task_id()),
        keys_distinct(before@, task_id()),
        keys_distinct(after@, task_id()),
        ranks_up_to(old(out)@, 7),
    ensures
        apply_all(h0, final(out)@) == Some(next@),
        next@ == (Held { tasks: next@.tasks, ..cur }),
        put_done(next@.tasks, before@, after@, after@.len() as int, task_id(), alike_tasks()),
        ranks_up_to(final(out)@, 7),
{
    let ghost mut now = cur;
    let mut i: usize = 0;
    proof {
        lemma_put_start(before@, after@, task_id(), alike_tasks());
    }
    while i < after.len()
        invariant
            i <= after.len(),
            keys_distinct(before@, task_id()),
            keys_distinct(after@, task_id()),
            apply_all(h0, out@) == Some(now),
            now == (Held { tasks: now.tasks, ..cur }),
            put_done(now.tasks, before@, after@, i as int, task_id(), alike_tasks()),
            ranks_up_to(out@, 7),
        decreases after.len() - i,
    {
        let row = &after[i];
        let ghost k = task_id()(*row);
        let ghost named = |x: Task| task_id()(x) == k;
        let found = find_row(
            before,
            &|x: &Task| -> (b: bool)
                ensures
                    b == named(*x)
            {
                x.id == row.id
            },
            Ghost(named),
        );
        match found {
            None => {
                let change = Change { action: Action::Insert, row: Row::Task(row.clone()) };
                proof {
                    if has_key(before@, task_id(), k) {
                        let j = choose|j: int| 0 <= j < before@.len() && task_id()(#[trigger] before@[j]) == k;
                        assert(named(before@[j]));
                    }
                    lemma_put_insert(now.tasks, before@, after@, i as int, task_id(), alike_tasks());
                    lemma_apply_push(h0, out@, change);
                    lemma_ranks_push(out@, change, 7);
                    now = Held { tasks: now.tasks.insert(k, *row), ..now };
                }
                out.push(change);
            },
            Some(j) => {
                proof {
                    lemma_the_row(before@, task_id(), j as int);
                }
                if same_tasks(&before[j], row) {
                    proof {
                        lemma_put_same(now.tasks, before@, after@, i as int, task_id(), alike_tasks());
                    }
                } else {
                    let change = Change { action: Action::Update, row: Row::Task(row.clone()) };
                    proof {
                        lemma_put_update(now.tasks, before@, after@, i as int, task_id(), alike_tasks());
                        lemma_apply_push(h0, out@, change);
                        lemma_ranks_push(out@, change, 7);
                        now = Held { tasks: now.tasks.insert(k, *row), ..now };
                    }
                    out.push(change);
                }
            },
        }
        i += 1;
    }
    Ghost(now)
}

/// Deletes the rows of `tasks` that are gone.
fn drop_tasks(
    out: &mut Vec<Change>,
    before: &Vec<Task>,
    after: &Vec<Task>,
    Ghost(h0): Ghost<Held>,
    Ghost(cur): Ghost<Held>,
) -> (next: Ghost<Held>)
    requires
        apply_all(h0, old(out)@) == Some(cur),
        put_done(cur.tasks, before@, after@, after@.len() as int, task_id(), alike_tasks()),
        keys_distinct(before@, task_id()),
        keys_distinct(after@, task_id()),
        ranks_up_to(old(out)@, 18),
    ensures
        apply_all(h0, final(out)@) == Some(next@),
        next@ == (Held { tasks: next@.tasks, ..cur }),
        alike_map(next@.tasks, keyed(after@, task_id()), alike_tasks()),
        ranks_up_to(final(out)@, 18),
{
    let ghost mut now = cur;
    let mut i: usize = 0;
    proof {
        assert(before@.take(0).len() == 0);
    }
    while i < before.len()
        invariant
            i <= before.len(),
            keys_distinct(before@, task_id()),
            keys_distinct(after@, task_id()),
            apply_all(h0, out@) == Some(now),
            now == (Held { tasks: now.tasks, ..cur }),
            put_done(cur.tasks, before@, after@, after@.len() as int, task_id(), alike_tasks()),
            drop_done(now.tasks, cur.tasks, before@, after@, i as int, task_id()),
            ranks_up_to(out@, 18),
        decreases before.len() - i,
    {
        let row = &before[i];
        let ghost k = task_id()(*row);
        let ghost named = |x: Task| task_id()(x) == k;
        let found = find_row(
            after,
            &|x: &Task| -> (b: bool)
                ensures
                    b == named(*x)
            {
                x.id == row.id
            },
            Ghost(named),
        );
        match found {
            None => {
                let change = Change { action: Action::Delete, row: Row::Task(row.clone()) };
                proof {
                    if has_key(after@, task_id(), k) {
                        let j = choose|j: int| 0 <= j < after@.len() && task_id()(#[trigger] after@[j]) == k;
                        assert(named(after@[j]));
                    }
                    assert(has_key(before@, task_id(), k));
                    lemma_drop_delete(now.tasks, cur.tasks, before@, after@, i as int, task_id());
                    lemma_apply_push(h0, out@, change);
                    lemma_ranks_push(out@, change, 18);
                    now = Held { tasks: now.tasks.remove(k), ..now };
                }
                out.push(change);
            },
            Some(j) => {
                proof {
                    lemma_drop_keep(now.tasks, cur.tasks, before@, after@, i as int, task_id());
                }
            },
        }
        i += 1;
    }
    proof {
        lemma_table_done(now.tasks, cur.tasks, before@, after@, task_id(), alike_tasks());
    }
    Ghost(now)
}

/// Puts the rows of `completions` that are new or changed.
fn put_completions(
    out: &mut Vec<Change>,
    before: &Vec<Completion>,
    after: &Vec<Completion>,
    Ghost(h0): Ghost<Held>,
    Ghost(cur): Ghost<Held>,
) -> (next: Ghost<Held>)
    requires
        apply_all(h0, old(out)@) == Some(cur),
        cur.completions == keyed(before@, completion_key()),
        keys_distinct(before@, completion_key()),
        keys_distinct(after@, completion_key()),
        ranks_up_to(old(out)@, 8),
    ensures
        apply_all(h0, final(out)@) == Some(next@),
        next@ == (Held { completions: next@.completions, ..cur }),
        put_done(next@.completions, before@, after@, after@.len() as int, completion_key(), alike_completions()),
        ranks_up_to(final(out)@, 8),
{
    let ghost mut now = cur;
    let mut i: usize = 0;
    proof {
        lemma_put_start(before@, after@, completion_key(), alike_completions());
    }
    while i < after.len()
        invariant
            i <= after.len(),
            keys_distinct(before@, completion_key()),
            keys_distinct(after@, completion_key()),
            apply_all(h0, out@) == Some(now),
            now == (Held { completions: now.completions, ..cur }),
            put_done(now.completions, before@, after@, i as int, completion_key(), alike_completions()),
            ranks_up_to(out@, 8),
        decreases after.len() - i,
    {
        let row = &after[i];
        let ghost k = completion_key()(*row);
        let ghost named = |x: Completion| completion_key()(x) == k;
        let found = find_row(
            before,
            &|x: &Completion| -> (b: bool)
                ensures
                    b == named(*x)
            {
                x.group_id == row.group_id && x.task_id == row.task_id
            },
            Ghost(named),
        );
        match found {
            None => {
                let change = Change { action: Action::Insert, row: Row::Completion(*row) };
                proof {
                    if has_key(before@, completion_key(), k) {
                        let j = choose|j: int| 0 <= j < before@.len() && completion_key()(#[trigger] before@[j]) == k;
                        assert(named(before@[j]));
                    }
                    lemma_put_insert(now.completions, before@, after@, i as int, completion_key(), alike_completions());
                    lemma_apply_push(h0, out@, change);
                    lemma_ranks_push(out@, change, 8);
                    now = Held { completions: now.completions.insert(k, *row), ..now };
                }
                out.push(change);
            },
            Some(j) => {
                proof {
                    lemma_the_row(before@, completion_key(), j as int);
                }
                if same_completions(&before[j], row) {
                    proof {
                        lemma_put_same(now.completions, before@, after@, i as int, completion_key(), alike_completions());
                    }
                } else {
                    let change = Change { action: Action::Update, row: Row::Completion(*row) };
                    proof {
                        lemma_put_update(now.completions, before@, after@, i as int, completion_key(), alike_completions());
                        lemma_apply_push(h0, out@, change);
                        lemma_ranks_push(out@, change, 8);
                        now = Held { completions: now.completions.insert(k, *row), ..now };
                    }
                    out.push(change);
                }
            },
        }
        i += 1;
    }
    Ghost(now)
}

/// Deletes the rows of `completions` that are gone.
fn drop_completions(
    out: &mut Vec<Change>,
    before: &Vec<Completion>,
    after: &Vec<Completion>,
    Ghost(h0): Ghost<Held>,
    Ghost(cur): Ghost<Held>,
) -> (next: Ghost<Held>)
    requires
        apply_all(h0, old(out)@) == Some(cur),
        put_done(cur.completions, before@, after@, after@.len() as int, completion_key(), alike_completions()),
        keys_distinct(before@, completion_key()),
        keys_distinct(after@, completion_key()),
        ranks_up_to(old(out)@, 17),
    ensures
        apply_all(h0, final(out)@) == Some(next@),
        next@ == (Held { completions: next@.completions, ..cur }),
        alike_map(next@.completions, keyed(after@, completion_key()), alike_completions()),
        ranks_up_to(final(out)@, 17),
{
    let ghost mut now = cur;
    let mut i: usize = 0;
    proof {
        assert(before@.take(0).len() == 0);
    }
    while i < before.len()
        invariant
            i <= before.len(),
            keys_distinct(before@, completion_key()),
            keys_distinct(after@, completion_key()),
            apply_all(h0, out@) == Some(now),
            now == (Held { completions: now.completions, ..cur }),
            put_done(cur.completions, before@, after@, after@.len() as int, completion_key(), alike_completions()),
            drop_done(now.completions, cur.completions, before@, after@, i as int, completion_key()),
            ranks_up_to(out@, 17),
        decreases before.len() - i,
    {
        let row = &before[i];
        let ghost k = completion_key()(*row);
        let ghost named = |x: Completion| completion_key()(x) == k;
        let found = find_row(
            after,
            &|x: &Completion| -> (b: bool)
                ensures
                    b == named(*x)
            {
                x.group_id == row.group_id && x.task_id == row.task_id
            },
            Ghost(named),
        );
        match found {
            None => {
                let change = Change { action: Action::Delete, row: Row::Completion(*row) };
                proof {
                    if has_key(after@, completion_key(), k) {
                        let j = choose|j: int| 0 <= j < after@.len() && completion_key()(#[trigger] after@[j]) == k;
                        assert(named(after@[j]));
                    }
                    assert(has_key(before@, completion_key(), k));
                    lemma_drop_delete(now.completions, cur.completions, before@, after@, i as int, completion_key());
                    lemma_apply_push(h0, out@, change);
                    lemma_ranks_push(out@, change, 17);
                    now = Held { completions: now.completions.remove(k), ..now };
                }
                out.push(change);
            },
            Some(j) => {
                proof {
                    lemma_drop_keep(now.completions, cur.completions, before@, after@, i as int, completion_key());
                }
            },
        }
        i += 1;
    }
    proof {
        lemma_table_done(now.completions, cur.completions, before@, after@, completion_key(), alike_completions());
    }
    Ghost(now)
}

/// Puts the rows of `elaborations` that are new or changed.
fn put_elaborations(
    out: &mut Vec<Change>,
    before: &Vec<Elaboration>,
    after: &Vec<Elaboration>,
    Ghost(h0): Ghost<Held>,
    Ghost(cur): Ghost<Held>,
) -> (next: Ghost<Held>)
    requires
        apply_all(h0, old(out)@) == Some(cur),
        cur.elaborations == keyed(before@, elaboration_key()),
        keys_distinct(before@, elaboration_key()),
        keys_distinct(after@, elaboration_key()),
        ranks_up_to(old(out)@, 9),
    ensures
        apply_all(h0, final(out)@) == Some(next@),
        next@ == (Held { elaborations: next@.elaborations, ..cur }),
        put_done(next@.elaborations, before@, after@, after@.len() as int, elaboration_key(), alike_elaborations()),
        ranks_up_to(final(out)@, 9),
{
    let ghost mut now = cur;
    let mut i: usize = 0;
    proof {
        lemma_put_start(before@, after@, elaboration_key(), alike_elaborations());
    }
    while i < after.len()
        invariant
            i <= after.len(),
            keys_distinct(before@, elaboration_key()),
            keys_distinct(after@, elaboration_key()),
            apply_all(h0, out@) == Some(now),
            now == (Held { elaborations: now.elaborations, ..cur }),
            put_done(now.elaborations, before@, after@, i as int, elaboration_key(), alike_elaborations()),
            ranks_up_to(out@, 9),
        decreases after.len() - i,
    {
        let row = &after[i];
        let ghost k = elaboration_key()(*row);
        let ghost named = |x: Elaboration| elaboration_key()(x) == k;
        let found = find_row(
            before,
            &|x: &Elaboration| -> (b: bool)
                ensures
                    b == named(*x)
            {
                x.group_id == row.group_id && x.experiment_id == row.experiment_id
            },
            Ghost(named),
        );
        match found {
            None => {
                let change = Change { action: Action::Insert, row: Row::Elaboration(*row) };
                proof {
                    if has_key(before@, elaboration_key(), k) {
                        let j = choose|j: int| 0 <= j < before@.len() && elaboration_key()(#[trigger] before@[j]) == k;
                        assert(named(before@[j]));
                    }
                    lemma_put_insert(now.elaborations, before@, after@, i as int, elaboration_key(), alike_elaborations());
                    lemma_apply_push(h0, out@, change);
                    lemma_ranks_push(out@, change, 9);
                    now = Held { elaborations: now.elaborations.insert(k, *row), ..now };
                }
                out.push(change);
            },
            Some(j) => {
                proof {
                    lemma_the_row(before@, elaboration_key(), j as int);
                }
                if same_elaborations(&before[j], row) {
                    proof {
                        lemma_put_same(now.elaborations, before@, after@, i as int, elaboration_key(), alike_elaborations());
                    }
                } else {
                    let change = Change { action: Action::Update, row: Row::Elaboration(*row) };
                    proof {
                        lemma_put_update(now.elaborations, before@, after@, i as int, elaboration_key(), alike_elaborations());
                        lemma_apply_push(h0, out@, change);
                        lemma_ranks_push(out@, change, 9);
                        now = Held { elaborations: now.elaborations.insert(k, *row), ..now };
                    }
                    out.push(change);
                }
            },
        }
        i += 1;
    }
    Ghost(now)
}

/// Deletes the rows of `elaborations` that are gone.
fn drop_elaborations(
    out: &mut Vec<Change>,
    before: &Vec<Elaboration>,
    after: &Vec<Elaboration>,
    Ghost(h0): Ghost<Held>,
    Ghost(cur): Ghost<Held>,
) -> (next: Ghost<Held>)
    requires
        apply_all(h0, old(out)@) == Some(cur),
        put_done(cur.elaborations, before@, after@, after@.len() as int, elaboration_key(), alike_elaborations()),
        keys_distinct(before@, elaboration_key()),
        keys_distinct(after@, elaboration_key()),
        ranks_up_to(old(out)@, 16),
    ensures
        apply_all(h0, final(out)@) == Some(next@),
        next@ == (Held { elaborations: next@.elaborations, ..cur }),
        alike_map(next@.elaborations, keyed(after@, elaboration_key()), alike_elaborations()),
        ranks_up_to(final(out)@, 16),
{
    let ghost mut now = cur;
    let mut i: usize = 0;
    proof {
        assert(before@.take(0).len() == 0);
    }
    while i < before.len()
        invariant
            i <= before.len(),
            keys_distinct(before@, elaboration_key()),
            keys_distinct(after@, elaboration_key()),
            apply_all(h0, out@) == Some(now),
            now == (Held { elaborations: now.elaborations, ..cur }),
            put_done(cur.elaborations, before@, after@, after@.len() as int, elaboration_key(), alike_elaborations()),
            drop_done(now.elaborations, cur.elaborations, before@, after@, i as int, elaboration_key()),
            ranks_up_to(out@, 16),
        decreases before.len() - i,
    {
        let row = &before[i];
        let ghost k = elaboration_key()(*row);
        let ghost named = |x: Elaboration| elaboration_key()(x) == k;
        let found = find_row(
            after,
            &|x: &Elaboration| -> (b: bool)
                ensures
                    b == named(*x)
            {
                x.group_id == row.group_id && x.experiment_id == row.experiment_id
            },
            Ghost(named),
        );
        match found {
            None => {
                let change = Change { action: Action::Delete, row: Row::Elaboration(*row) };
                proof {
                    if has_key(after@, elaboration_key(), k) {
                        let j = choose|j: int| 0 <= j < after@.len() && elaboration_key()(#[trigger] after@[j]) == k;
                        assert(named(after@[j]));
                    }
                    assert(has_key(before@, elaboration_key(), k));
                    lemma_drop_delete(now.elaborations, cur.elaborations, before@, after@, i as int, elaboration_key());
                    lemma_apply_push(h0, out@, change);
                    lemma_ranks_push(out@, change, 16);
                    now = Held { elaborations: now.elaborations.remove(k), ..now };
                }
                out.push(change);
            },
            Some(j) => {
                proof {
                    lemma_drop_keep(now.elaborations, cur.elaborations, before@, after@, i as int, elaboration_key());
                }
            },
        }
        i += 1;
    }
    proof {
        lemma_table_done(now.elaborations, cur.elaborations, before@, after@, elaboration_key(), alike_elaborations());
    }
    Ghost(now)
}

/// Puts the rows of `audit_logs` that are new or changed.
fn put_audit_logs(
    out: &mut Vec<Change>,
    before: &Vec<AuditLog>,
    after: &Vec<AuditLog>,
    Ghost(h0): Ghost<Held>,
    Ghost(cur): Ghost<Held>,
) -> (next: Ghost<Held>)
    requires
        apply_all(h0, old(out)@) == Some(cur),
        cur.audit_logs == keyed(before@, audit_log_id()),
        keys_distinct(before@, audit_log_id()),
        keys_distinct(after@, audit_log_id()),
        ranks_up_to(old(out)@, 10),
    ensures
        apply_all(h0, final(out)@) == Some(next@),
        next@ == (Held { audit_logs: next@.audit_logs, ..cur }),
        put_done(next@.audit_logs, before@, after@, after@.len() as int, audit_log_id(), alike_audit_logs()),
        ranks_up_to(final(out)@, 10),
{
    let ghost mut now = cur;
    let mut i: usize = 0;
    proof {
        lemma_put_start(before@, after@, audit_log_id(), alike_audit_logs());
    }
    while i < after.len()
        invariant
            i <= after.len(),
            keys_distinct(before@, audit_log_id()),
            keys_distinct(after@, audit_log_id()),
            apply_all(h0, out@) == Some(now),
            now == (Held { audit_logs: now.audit_logs, ..cur }),
            put_done(now.audit_logs, before@, after@, i as int, audit_log_id(), alike_audit_logs()),
            ranks_up_to(out@, 10),
        decreases after.len() - i,
    {
        let row = &after[i];
        let ghost k = audit_log_id()(*row);
        let ghost named = |x: AuditLog| audit_log_id()(x) == k;
        let found = find_row(
            before,
            &|x: &AuditLog| -> (b: bool)
                ensures
                    b == named(*x)
            {
                x.id == row.id
            },
            Ghost(named),
        );
        match found {
            None => {
                let change = Change { action: Action::Insert, row: Row::AuditLog(row.clone()) };
                proof {
                    if has_key(before@, audit_log_id(), k) {
                        let j = choose|j: int| 0 <= j < before@.len() && audit_log_id()(#[trigger] before@[j]) == k;
                        assert(named(before@[j]));
                    }
                    lemma_put_insert(now.audit_logs, before@, after@, i as int, audit_log_id(), alike_audit_logs());
                    lemma_apply_push(h0, out@, change);
                    lemma_ranks_push(out@, change, 10);
                    now = Held { audit_logs: now.audit_logs.insert(k, *row), ..now };
                }
                out.push(change);
            },
            Some(j) => {
                proof {
                    lemma_the_row(before@, audit_log_id(), j as int);
                }
                if same_audit_logs(&before[j], row) {
                    proof {
                        lemma_put_same(now.audit_logs, before@, after@, i as int, audit_log_id(), alike_audit_logs());
                    }
                } else {
                    let change = Change { action: Action::Update, row: Row::AuditLog(row.clone()) };
                    proof {
                        lemma_put_update(now.audit_logs, before@, after@, i as int, audit_log_id(), alike_audit_logs());
                        lemma_apply_push(h0, out@, change);
                        lemma_ranks_push(out@, change, 10);
                        now = Held { audit_logs: now.audit_logs.insert(k, *row), ..now };
                    }
                    out.push(change);
                }
            },
        }
        i += 1;
    }
    Ghost(now)
}

/// Deletes the rows of `audit_logs` that are gone.
fn drop_audit_logs(
    out: &mut Vec<Change>,
    before: &Vec<AuditLog>,
    after: &Vec<AuditLog>,
    Ghost(h0): Ghost<Held>,
    Ghost(cur): Ghost<Held>,
) -> (next: Ghost<Held>)
    requires
        apply_all(h0, old(out)@) == Some(cur),
        put_done(cur.audit_logs, before@, after@, after@.len() as int, audit_log_id(), alike_audit_logs()),
        keys_distinct(before@, audit_log_id()),
        keys_distinct(after@, audit_log_id()),
        ranks_up_to(old(out)@, 15),
    ensures
        apply_all(h0, final(out)@) == Some(next@),
        next@ == (Held { audit_logs: next@.audit_logs, ..cur }),
        alike_map(next@.audit_logs, keyed(after@, audit_log_id()), alike_audit_logs()),
        ranks_up_to(final(out)@, 15),
{
    let ghost mut now = cur;
    let mut i: usize = 0;
    proof {
        assert(before@.take(0).len() == 0);
    }
    while i < before.len()
        invariant
            i <= before.len(),
            keys_distinct(before@, audit_log_id()),
            keys_distinct(after@, audit_log_id()),
            apply_all(h0, out@) == Some(now),
            now == (Held { audit_logs: now.audit_logs, ..cur }),
            put_done(cur.audit_logs, before@, after@, after@.len() as int, audit_log_id(), alike_audit_logs()),
            drop_done(now.audit_logs, cur.audit_logs, before@, after@, i as int, audit_log_id()),
            ranks_up_to(out@, 15),
        decreases before.len() - i,
    {
        let row = &before[i];
        let ghost k = audit_log_id()(*row);
        let ghost named = |x: AuditLog| audit_log_id()(x) == k;
        let found = find_row(
            after,
            &|x: &AuditLog| -> (b: bool)
                ensures
                    b == named(*x)
            {
                x.id == row.id
            },
            Ghost(named),
        );
        match found {
            None => {
                let change = Change { action: Action::Delete, row: Row::AuditLog(row.clone()) };
                proof {
                    if has_key(after@, audit_log_id(), k) {
                        let j = choose|j: int| 0 <= j < after@.len() && audit_log_id()(#[trigger] after@[j]) == k;
                        assert(named(after@[j]));
                    }
                    assert(has_key(before@, audit_log_id(), k));
                    lemma_drop_delete(now.audit_logs, cur.audit_logs, before@, after@, i as int, audit_log_id());
                    lemma_apply_push(h0, out@, change);
                    lemma_ranks_push(out@, change, 15);
                    now = Held { audit_logs: now.audit_logs.remove(k), ..now };
                }
                out.push(change);
            },
            Some(j) => {
                proof {
                    lemma_drop_keep(now.audit_logs, cur.audit_logs, before@, after@, i as int, audit_log_id());
                }
            },
        }
        i += 1;
    }
    proof {
        lemma_table_done(now.audit_logs, cur.audit_logs, before@, after@, audit_log_id(), alike_audit_logs());
    }
    Ghost(now)
}

/// Puts the rows of `tutors` that are new or changed.
fn put_tutors(
    out: &mut Vec<Change>,
    before: &Vec<Tutor>,
    after: &Vec<Tutor>,
    Ghost(h0): Ghost<Held>,
    Ghost(cur): Ghost<Held>,
) -> (next: Ghost<Held>)
    requires
        apply_all(h0, old(out)@) == Some(cur),
        cur.tutors == keyed(before@, tutor_id()),
        keys_distinct(before@, tutor_id()),
        keys_distinct(after@, tutor_id()),
        ranks_up_to(old(out)@, 11),
    ensures
        apply_all(h0, final(out)@) == Some(next@),
        next@ == (Held { tutors: next@.tutors, ..cur }),
        put_done(next@.tutors, before@, after@, after@.len() as int, tutor_id(), alike_tutors()),
        ranks_up_to(final(out)@, 11),
{
    let ghost mut now = cur;
    let mut i: usize = 0;
    proof {
        lemma_put_start(before@, after@, tutor_id(), alike_tutors());
    }
    while i < after.len()
        invariant
            i <= after.len(),
            keys_distinct(before@, tutor_id()),
            keys_distinct(after@, tutor_id()),
            apply_all(h0, out@) == Some(now),
            now == (Held { tutors: now.tutors, ..cur }),
            put_done(now.tutors, before@, after@, i as int, tutor_id(), alike_tutors()),
            ranks_up_to(out@, 11),
        decreases after.len() - i,
    {
        let row = &after[i];
        let ghost k = tutor_id()(*row);
        let ghost named = |x: Tutor| tutor_id()(x) == k;
        let found = find_row(
            before,
            &|x: &Tutor| -> (b: bool)
                ensures
                    b == named(*x)
            {
                x.id == row.id
            },
            Ghost(named),
        );
        match found {
            None => {
                let change = Change { action: Action::Insert, row: Row::Tutor(row.clone()) };
                proof {
                    if has_key(before@, tutor_id(), k) {
                        let j = choose|j: int| 0 <= j < before@.len() && tutor_id()(#[trigger] before@[j]) == k;
                        assert(named(before@[j]));
                    }
                    lemma_put_insert(now.tutors, before@, after@, i as int, tutor_id(), alike_tutors());
                    lemma_apply_push(h0, out@, change);
                    lemma_ranks_push(out@, change, 11);
                    now = Held { tutors: now.tutors.insert(k, *row), ..now };
                }
                out.push(change);
            },
            Some(j) => {
                proof {
                    lemma_the_row(before@, tutor_id(), j as int);
                }
                if same_tutors(&before[j], row) {
                    proof {
                        lemma_put_same(now.tutors, before@, after@, i as int, tutor_id(), alike_tutors());
                    }
                } else {
                    let change = Change { action: Action::Update, row: Row::Tutor(row.clone()) };
                    proof {
                        lemma_put_update(now.tutors, before@, after@, i as int, tutor_id(), alike_tutors());
                        lemma_apply_push(h0, out@, change);
                        lemma_ranks_push(out@, change, 11);
                        now = Held { tutors: now.tutors.insert(k, *row), ..now };
                    }
                    out.push(change);
                }
            },
        }
        i += 1;
    }
    Ghost(now)
}

/// Deletes the rows of `tutors` that are gone.
fn drop_tutors(
    out: &mut Vec<Change>,
    before: &Vec<Tutor>,
    after: &Vec<Tutor>,
    Ghost(h0): Ghost<Held>,
    Ghost(cur): Ghost<Held>,
) -> (next: Ghost<Held>)
    requires
        apply_all(h0, old(out)@) == Some(cur),
        put_done(cur.tutors, before@, after@, after@.len() as int, tutor_id(), alike_tutors()),
        keys_distinct(before@, tutor_id()),
        keys_distinct(after@, tutor_id()),
        ranks_up_to(old(out)@, 14),
    ensures
        apply_all(h0, final(out)@) == Some(next@),
        next@ == (Held { tutors: next@.tutors, ..cur }),
        alike_map(next@.tutors, keyed(after@, tutor_id()), alike_tutors()),
        ranks_up_to(final(out)@, 14),
{
    let ghost mut now = cur;
    let mut i: usize = 0;
    proof {
        assert(before@.take(0).len() == 0);
    }
    while i < before.len()
        invariant
            i <= before.len(),
            keys_distinct(before@, tutor_id()),
            keys_distinct(after@, tutor_id()),
            apply_all(h0, out@) == Some(now),
            now == (Held { tutors: now.tutors, ..cur }),
            put_done(cur.tutors, before@, after@, after@.len() as int, tutor_id(), alike_tutors()),
            drop_done(now.tutors, cur.tutors, before@, after@, i as int, tutor_id()),
            ranks_up_to(out@, 14),
        decreases before.len() - i,
    {
        let row = &before[i];
        let ghost k = tutor_id()(*row);
        let ghost named = |x: Tutor| tutor_id()(x) == k;
        let found = find_row(
            after,
            &|x: &Tutor| -> (b: bool)
                ensures
                    b == named(*x)
            {
                x.id == row.id
            },
            Ghost(named),
        );
        match found {
            None => {
                let change = Change { action: Action::Delete, row: Row::Tutor(row.clone()) };
                proof {
                    if has_key(after@, tutor_id(), k) {
                        let j = choose|j: int| 0 <= j < after@.len() && tutor_id()(#[trigger] after@[j]) == k;
                        assert(named(after@[j]));
                    }
                    assert(has_key(before@, tutor_id(), k));
                    lemma_drop_delete(now.tutors, cur.tutors, before@, after@, i as int, tutor_id());
                    lemma_apply_push(h0, out@, change);
                    lemma_ranks_push(out@, change, 14);
                    now = Held { tutors: now.tutors.remove(k), ..now };
                }
                out.push(change);
            },
            Some(j) => {
                proof {
                    lemma_drop_keep(now.tutors, cur.tutors, before@, after@, i as int, tutor_id());
                }
            },
        }
        i += 1;
    }
    proof {
        lemma_table_done(now.tutors, cur.tutors, before@, after@, tutor_id(), alike_tutors());
    }
    Ghost(now)
}

/// Puts the rows of `ip_whitelist` that are new or changed.
fn put_ip_whitelist(
    out: &mut Vec<Change>,
    before: &Vec<IpWhitelistEntry>,
    after: &Vec<IpWhitelistEntry>,
    Ghost(h0): Ghost<Held>,
    Ghost(cur): Ghost<Held>,
) -> (next: Ghost<Held>)
    requires
        apply_all(h0, old(out)@) == Some(cur),
        cur.ip_whitelist == keyed(before@, whitelist_id()),
        keys_distinct(before@, whitelist_id()),
        keys_distinct(after@, whitelist_id()),
        ranks_up_to(old(out)@, 12),
    ensures
        apply_all(h0, final(out)@) == Some(next@),
        next@ == (Held { ip_whitelist: next@.ip_whitelist, ..cur }),
        put_done(next@.ip_whitelist, before@, after@, after@.len() as int, whitelist_id(), alike_ip_whitelist()),
        ranks_up_to(final(out)@, 12),
{
    let ghost mut now = cur;
    let mut i: usize = 0;
    proof {
        lemma_put_start(before@, after@, whitelist_id(), alike_ip_whitelist());
    }
    while i < after.len()
        invariant
            i <= after.len(),
            keys_distinct(before@, whitelist_id()),
            keys_distinct(after@, whitelist_id()),
            apply_all(h0, out@) == Some(now),
            now == (Held { ip_whitelist: now.ip_whitelist, ..cur }),
            put_done(now.ip_whitelist, before@, after@, i as int, whitelist_id(), alike_ip_whitelist()),
            ranks_up_to(out@, 12),
        decreases after.len() - i,
    {
        let row = &after[i];
        let ghost k = whitelist_id()(*row);
        let ghost named = |x: IpWhitelistEntry| whitelist_id()(x) == k;
        let found = find_row(
            before,
            &|x: &IpWhitelistEntry| -> (b: bool)
                ensures
                    b == named(*x)
            {
                x.id == row.id
            },
            Ghost(named),
        );
        match found {
            None => {
                let change = Change { action: Action::Insert, row: Row::IpWhitelistEntry(*row) };
                proof {
                    if has_key(before@, whitelist_id(), k) {
                        let j = choose|j: int| 0 <= j < before@.len() && whitelist_id()(#[trigger] before@[j]) == k;
                        assert(named(before@[j]));
                    }
                    lemma_put_insert(now.ip_whitelist, before@, after@, i as int, whitelist_id(), alike_ip_whitelist());
                    lemma_apply_push(h0, out@, change);
                    lemma_ranks_push(out@, change, 12);
                    now = Held { ip_whitelist: now.ip_whitelist.insert(k, *row), ..now };
                }
                out.push(change);
            },
            Some(j) => {
                proof {
                    lemma_the_row(before@, whitelist_id(), j as int);
                }
                if same_ip_whitelist(&before[j], row) {
                    proof {
                        lemma_put_same(now.ip_whitelist, before@, after@, i as int, whitelist_id(), alike_ip_whitelist());
                    }
                } else {
                    let change = Change { action: Action::Update, row: Row::IpWhitelistEntry(*row) };
                    proof {
                        lemma_put_update(now.ip_whitelist, before@, after@, i as int, whitelist_id(), alike_ip_whitelist());
                        lemma_apply_push(h0, out@, change);
                        lemma_ranks_push(out@, change, 12);
                        now = Held { ip_whitelist: now.ip_whitelist.insert(k, *row), ..now };
                    }
                    out.push(change);
                }
            },
        }
        i += 1;
    }
    Ghost(now)
}

/// Deletes the rows of `ip_whitelist` that are gone.
fn drop_ip_whitelist(
    out: &mut Vec<Change>,
    before: &Vec<IpWhitelistEntry>,
    after: &Vec<IpWhitelistEntry>,
    Ghost(h0): Ghost<Held>,
    Ghost(cur): Ghost<Held>,
) -> (next: Ghost<Held>)
    requires
        apply_all(h0, old(out)@) == Some(cur),
        put_done(cur.ip_whitelist, before@, after@, after@.len() as int, whitelist_id(), alike_ip_whitelist()),
        keys_distinct(before@, whitelist_id()),
        keys_distinct(after@, whitelist_id()),
        ranks_up_to(old(out)@, 13),
    ensures
        apply_all(h0, final(out)@) == Some(next@),
        next@ == (Held { ip_whitelist: next@.ip_whitelist, ..cur }),
        alike_map(next@.ip_whitelist, keyed(after@, whitelist_id()), alike_ip_whitelist()),
        ranks_up_to(final(out)@, 13),
{
    let ghost mut now = cur;
    let mut i: usize = 0;
    proof {
        assert(before@.take(0).len() == 0);
    }
    while i < before.len()
        invariant
            i <= before.len(),
            keys_distinct(before@, whitelist_id()),
            keys_distinct(after@, whitelist_id()),
            apply_all(h0, out@) == Some(now),
            now == (Held { ip_whitelist: now.ip_whitelist, ..cur }),
            put_done(cur.ip_whitelist, before@, after@, after@.len() as int, whitelist_id(), alike_ip_whitelist()),
            drop_done(now.ip_whitelist, cur.ip_whitelist, before@, after@, i as int, whitelist_id()),
            ranks_up_to(out@, 13),
        decreases before.len() - i,
    {
        let row = &before[i];
        let ghost k = whitelist_id()(*row);
        let ghost named = |x: IpWhitelistEntry| whitelist_id()(x) == k;
        let found = find_row(
            after,
            &|x: &IpWhitelistEntry| -> (b: bool)
                ensures
                    b == named(*x)
            {
                x.id == row.id
            },
            Ghost(named),
        );
        match found {
            None => {
                let change = Change { action: Action::Delete, row: Row::IpWhitelistEntry(*row) };
                proof {
                    if has_key(after@, whitelist_id(), k) {
                        let j = choose|j: int| 0 <= j < after@.len() && whitelist_id()(#[trigger] after@[j]) == k;
                        assert(named(after@[j]));
                    }
                    assert(has_key(before@, whitelist_id(), k));
                    lemma_drop_delete(now.ip_whitelist, cur.ip_whitelist, before@, after@, i as int, whitelist_id());
                    lemma_apply_push(h0, out@, change);
                    lemma_ranks_push(out@, change, 13);
                    now = Held { ip_whitelist: now.ip_whitelist.remove(k), ..now };
                }
                out.push(change);
            },
            Some(j) => {
                proof {
                    lemma_drop_keep(now.ip_whitelist, cur.ip_whitelist, before@, after@, i as int, whitelist_id());
                }
            },
        }
        i += 1;
    }
    proof {
        lemma_table_done(now.ip_whitelist, cur.ip_whitelist, before@, after@, whitelist_id(), alike_ip_whitelist());
    }
    Ghost(now)
}

/// The statements that turn the store `before` into the store `after`:
/// first what is new or changed, a table after the tables that its rows
/// name; then what is gone, the tables the other way round.
pub fn changes(before: &Database, after: &Database) -> (r: Vec<Change>)
    requires
        before.wf(),
        after.wf(),
    ensures
        gives(before@, r@, after@),
        in_order(r@),
{
    let ghost h0 = held(before@);
    let mut out: Vec<Change> = Vec::new();
    let Ghost(p0) = put_years(&mut out, before.years(), after.years(), Ghost(h0), Ghost(h0));
    let Ghost(p1) = put_days(&mut out, before.days(), after.days(), Ghost(h0), Ghost(p0));
    let Ghost(p2) = put_experiments(&mut out, before.experiments(), after.experiments(), Ghost(h0), Ghost(p1));
    let Ghost(p3) = put_events(&mut out, before.events(), after.events(), Ghost(h0), Ghost(p2));
    let Ghost(p4) = put_groups(&mut out, before.groups(), after.groups(), Ghost(h0), Ghost(p3));
    let Ghost(p5) = put_students(&mut out, before.students(), after.students(), Ghost(h0), Ghost(p4));
    let Ghost(p6) = put_group_mappings(&mut out, before.group_mappings(), after.group_mappings(), Ghost(h0), Ghost(p5));
    let Ghost(p7) = put_tasks(&mut out, before.tasks(), after.tasks(), Ghost(h0), Ghost(p6));
    let Ghost(p8) = put_completions(&mut out, before.completions(), after.completions(), Ghost(h0), Ghost(p7));
    let Ghost(p9) = put_elaborations(&mut out, before.elaborations(), after.elaborations(), Ghost(h0), Ghost(p8));
    let Ghost(p10) = put_audit_logs(&mut out, before.audit_logs(), after.audit_logs(), Ghost(h0), Ghost(p9));
    let Ghost(p11) = put_tutors(&mut out, before.tutors(), after.tutors(), Ghost(h0), Ghost(p10));
    let Ghost(p12) = put_ip_whitelist(&mut out, before.ip_whitelist(), after.ip_whitelist(), Ghost(h0), Ghost(p11));
    let Ghost(d12) = drop_ip_whitelist(&mut out, before.ip_whitelist(), after.ip_whitelist(), Ghost(h0), Ghost(p12));
    let Ghost(d11) = drop_tutors(&mut out, before.tutors(), after.tutors(), Ghost(h0), Ghost(d12));
    let Ghost(d10) = drop_audit_logs(&mut out, before.audit_logs(), after.audit_logs(), Ghost(h0), Ghost(d11));
    let Ghost(d9) = drop_elaborations(&mut out, before.elaborations(), after.elaborations(), Ghost(h0), Ghost(d10));
    let Ghost(d8) = drop_completions(&mut out, before.completions(), after.completions(), Ghost(h0), Ghost(d9));
    let Ghost(d7) = drop_tasks(&mut out, before.tasks(), after.tasks(), Ghost(h0), Ghost(d8));
    let Ghost(d6) = drop_group_mappings(&mut out, before.group_mappings(), after.group_mappings(), Ghost(h0), Ghost(d7));
    let Ghost(d5) = drop_students(&mut out, before.students(), after.students(), Ghost(h0), Ghost(d6));
    let Ghost(d4) = drop_groups(&mut out, before.groups(), after.groups(), Ghost(h0), Ghost(d5));
    let Ghost(d3) = drop_events(&mut out, before.events(), after.events(), Ghost(h0), Ghost(d4));
    let Ghost(d2) = drop_experiments(&mut out, before.experiments(), after.experiments(), Ghost(h0), Ghost(d3));
    let Ghost(d1) = drop_days(&mut out, before.days(), after.days(), Ghost(h0), Ghost(d2));
    let Ghost(d0) = drop_years(&mut out, before.years(), after.years(), Ghost(h0), Ghost(d1));
    proof {
        assert(alike_held(d0, held(after@)));
    }
    out
}

} // verus!
