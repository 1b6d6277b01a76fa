//! The audit trail as it is read: the entries that a filter lets through,
//! the newest first.
use vstd::prelude::*;
use vstd::relations::sorted_by;
use crate::calendar::{show_time, show_time_short, shown_time, shown_time_short};
use crate::db::models::AuditLog;
use crate::db::store::Database;
use crate::ordering::{
    by_key, lemma_reordered_distinct, lemma_same_rows, lex_le, make_text_key, sort_by_key, text_key,
};
use crate::relation::{keys_distinct, select_rows};
use crate::text::{
    chars_of, contains_chars, holds_every_word, lemma_words_cover, lowercase, lowercase_of, occurs_in,
    split_words, splits_into,
};
use crate::web::session::eq_text;

verus! {

/// An audit entry as it is shown.
pub struct Log {
    pub year: i16,
    pub time: String,
    pub time_short: String,
    pub author: String,
    pub group: Option<i32>,
    pub change: String,
}

/// The audit page of a year.
pub struct Context {
    pub base: super::BaseContext,
    pub logs: Vec<Log>,
    pub filters: Filters,
    pub authors: Vec<String>,
}

/// What to show of the audit trail of a year: the entries that mention
/// every word of the search, that are about the group, that are by the
/// author, and no more than the limit.
pub struct Filters {
    pub search: Option<String>,
    pub group: Option<i32>,
    pub author: Option<String>,
    pub limit: Option<i64>,
}

/// The text of an optional text.
pub open spec fn text_of(text: Option<String>) -> Option<Seq<char>> {
    match text {
        Some(s) => Some(s@),
        None => None,
    }
}

/// The description mentions every word of the search, in whatever case: in
/// lower case, each word of the search stands in the description.
pub open spec fn mentions(change: Seq<char>, search: Seq<char>) -> bool {
    holds_every_word(lowercase_of(change), lowercase_of(search))
}

/// The entries that a filter lets through. The year, the group and the
/// author are matched exactly, the author with regard to case; an empty
/// author stands for any.
pub open spec fn let_through(
    year: Option<i16>,
    search: Option<Seq<char>>,
    group: Option<i32>,
    author: Option<Seq<char>>,
) -> spec_fn(AuditLog) -> bool {
    |row: AuditLog|
        {
            &&& year matches Some(y) ==> row.year == y
            &&& search matches Some(s) ==> mentions(row.change@, s)
            &&& group matches Some(g) ==> row.affected_group == Some(g)
            &&& author matches Some(a) ==> a.len() == 0 || row.author@ == a
        }
}

/// The order of the audit trail: the newest entry first, and of two entries
/// of one moment the later one.
pub open spec fn newest_first() -> spec_fn(AuditLog) -> Seq<i128> {
    |row: AuditLog| seq![(-(row.created_at as int)) as i128, (-(row.id as int)) as i128]
}

fn newest_first_of(row: &AuditLog) -> (k: Vec<i128>)
    ensures
        k@ == newest_first()(*row),
{
    let mut k: Vec<i128> = Vec::new();
    k.push(-(row.created_at as i128));
    k.push(-(row.id as i128));
    assert(k@ =~= newest_first()(*row));
    k
}

/// The entry is shown as the row says.
pub open spec fn shows(log: Log, row: AuditLog) -> bool {
    &&& log.year == row.year
    &&& log.time@ == shown_time(row.created_at)
    &&& log.time_short@ == shown_time_short(row.created_at)
    &&& log.author == row.author
    &&& log.group == row.affected_group
    &&& log.change == row.change
}

/// How many of `count` entries a limit lets through: all without a limit,
/// none with a limit below one.
pub open spec fn limited(count: nat, limit: Option<i64>) -> nat {
    match limit {
        None => count,
        Some(n) => if n <= 0 {
            0
        } else if n < count {
            n as nat
        } else {
            count
        },
    }
}

/// The logs are what the filter lets through of the rows, the newest first,
/// cut at the limit.
pub open spec fn is_selection(
    rows: Seq<AuditLog>,
    keep: spec_fn(AuditLog) -> bool,
    limit: Option<i64>,
    logs: Seq<Log>,
) -> bool {
    exists|sorted: Seq<AuditLog>|
        {
            &&& sorted_by(sorted, by_key(newest_first()))
            &&& #[trigger] sorted.to_multiset() == rows.filter(keep).to_multiset()
            &&& logs.len() == limited(sorted.len(), limit)
            &&& forall|i: int| 0 <= i < logs.len() ==> shows(#[trigger] logs[i], sorted[i])
        }
}

/// The views of the terms.
pub open spec fn views_of(terms: Seq<Vec<char>>) -> Seq<Seq<char>> {
    Seq::new(terms.len(), |k: int| terms[k]@)
}

/// Whether the description mentions every word of the search, of which
/// `terms` are the words in lower case.
fn mentions_all(change: &str, terms: &Vec<Vec<char>>, Ghost(search): Ghost<Seq<char>>) -> (r: bool)
    requires
        splits_into(lowercase_of(search), views_of(terms@)),
    ensures
        r == mentions(change@, search),
{
    let lower = lowercase(change);
    let whole = chars_of(lower.as_str());
    let ghost words = views_of(terms@);
    proof {
        lemma_words_cover(whole@, lowercase_of(search), words);
    }
    let mut k: usize = 0;
    while k < terms.len()
        invariant
            k <= terms.len(),
            words == views_of(terms@),
            (forall|j: int| 0 <= j < words.len() ==> occurs_in(whole@, #[trigger] words[j])) <==> mentions(
                change@,
                search,
            ),
            forall|j: int| 0 <= j < k ==> occurs_in(whole@, #[trigger] words[j]),
        decreases terms.len() - k,
    {
        if !contains_chars(&whole, &terms[k]) {
            assert(!occurs_in(whole@, words[k as int]));
            return false;
        }
        assert(words[k as int] == terms@[k as int]@);
        k += 1;
    }
    true
}

/// The entries of the audit trail that the filter lets through, the newest
/// first, cut at the limit.
pub fn select_logs(
    year: Option<i16>,
    search: &Option<String>,
    group: Option<i32>,
    author: &Option<String>,
    limit: Option<i64>,
    conn: &Database,
) -> (r: Vec<Log>)
    ensures
        is_selection(
            conn@.audit_logs,
            let_through(year, text_of(*search), group, text_of(*author)),
            limit,
            r@,
        ),
{
    let ghost keep = let_through(year, text_of(*search), group, text_of(*author));
    let terms: Vec<Vec<char>> = match search {
        Some(s) => split_words(lowercase(s.as_str()).as_str()),
        None => Vec::new(),
    };
    assert(search matches Some(s) ==> splits_into(lowercase_of(s@), views_of(terms@))) by {
        assert(views_of(terms@) =~= Seq::new(terms@.len(), |k: int| terms@[k]@));
    }
    let selected = select_rows(
        conn.audit_logs(),
        &|row: &AuditLog| -> (b: bool)
            ensures
                b == keep(*row)
        {
            let in_year = match year {
                Some(y) => row.year == y,
                None => true,
            };
            let found = match search {
                Some(s) => mentions_all(row.change.as_str(), &terms, Ghost(s@)),
                None => true,
            };
            let of_group = match group {
                Some(g) => match row.affected_group {
                    Some(a) => a == g,
                    None => false,
                },
                None => true,
            };
            let by_author = match author {
                Some(a) => a.as_str().unicode_len() == 0 || eq_text(row.author.as_str(), a.as_str()),
                None => true,
            };
            in_year && found && of_group && by_author
        },
        Ghost(keep),
    );
    let sorted = sort_by_key(selected, &newest_first_of, Ghost(newest_first()));
    let count = match limit {
        None => sorted.len(),
        Some(n) => if n <= 0 {
            0
        } else if (n as u64) < (sorted.len() as u64) {
            n as usize
        } else {
            sorted.len()
        },
    };
    let mut logs: Vec<Log> = Vec::new();
    let mut i: usize = 0;
    while i < count
        invariant
            i <= count,
            count <= sorted.len(),
            logs@.len() == i,
            forall|j: int| 0 <= j < i ==> shows(#[trigger] logs@[j], sorted@[j]),
        decreases count - i,
    {
        let row = &sorted[i];
        logs.push(
            Log {
                year: row.year,
                time: show_time(row.created_at),
                time_short: show_time_short(row.created_at),
                author: row.author.clone(),
                group: row.affected_group,
                change: row.change.clone(),
            },
        );
        i += 1;
    }
    assert(sorted@.to_multiset() == conn@.audit_logs.filter(keep).to_multiset());
    logs
}

/// The entries of the audit trail of a year that the filters let through,
/// the newest first.
pub fn load_logs(year: i16, filters: &Filters, conn: &Database) -> (r: Vec<Log>)
    ensures
        is_selection(
            conn@.audit_logs,
            let_through(Some(year), text_of(filters.search), filters.group, text_of(filters.author)),
            filters.limit,
            r@,
        ),
{
    select_logs(Some(year), &filters.search, filters.group, &filters.author, filters.limit, conn)
}

/// Someone of this name wrote one of the entries.
pub open spec fn wrote(rows: Seq<AuditLog>, name: Seq<char>) -> bool {
    exists|k: int| 0 <= k < rows.len() && (#[trigger] rows[k]).author@ == name
}

/// The texts of the names.
pub open spec fn texts_of(names: Seq<String>) -> Seq<Seq<char>> {
    Seq::new(names.len(), |i: int| names[i]@)
}

/// The authors are those of the entries, each once, in the order of the
/// dictionary.
pub open spec fn are_authors(rows: Seq<AuditLog>, authors: Seq<Seq<char>>) -> bool {
    &&& authors.no_duplicates()
    &&& forall|i: int, j: int|
        0 <= i < j < authors.len() ==> lex_le(text_key(authors[i]), text_key(authors[j]))
    &&& forall|i: int| 0 <= i < authors.len() ==> wrote(rows, #[trigger] authors[i])
    &&& forall|k: int| 0 <= k < rows.len() ==> authors.contains((#[trigger] rows[k]).author@)
}

/// The order of texts in the dictionary.
pub open spec fn text_order() -> spec_fn(String) -> Seq<i128> {
    |s: String| text_key(s@)
}

fn text_order_of(s: &String) -> (k: Vec<i128>)
    ensures
        k@ == text_order()(*s),
{
    make_text_key(s.as_str())
}

/// Whether the name is among the names.
fn knows(names: &Vec<String>, name: &str) -> (r: bool)
    ensures
        r == texts_of(names@).contains(name@),
{
    let mut i: usize = 0;
    while i < names.len()
        invariant
            i <= names.len(),
            forall|j: int| 0 <= j < i ==> texts_of(names@)[j] != name@,
        decreases names.len() - i,
    {
        if eq_text(names[i].as_str(), name) {
            assert(texts_of(names@)[i as int] == name@);
            return true;
        }
        i += 1;
    }
    false
}

/// The names of all who wrote one of the rows, each once, in the order in
/// which they first wrote.
fn collect_authors(rows: &Vec<AuditLog>) -> (names: Vec<String>)
    ensures
        texts_of(names@).no_duplicates(),
        forall|i: int| 0 <= i < names@.len() ==> wrote(rows@, #[trigger] texts_of(names@)[i]),
        forall|k: int| 0 <= k < rows@.len() ==> texts_of(names@).contains((#[trigger] rows@[k]).author@),
{
    let mut names: Vec<String> = Vec::new();
    let mut k: usize = 0;
    while k < rows.len()
        invariant
            k <= rows.len(),
            texts_of(names@).no_duplicates(),
            forall|i: int| 0 <= i < names@.len() ==> wrote(rows@, #[trigger] texts_of(names@)[i]),
            forall|n: int| 0 <= n < k ==> texts_of(names@).contains((#[trigger] rows@[n]).author@),
        decreases rows.len() - k,
    {
        let author = &rows[k].author;
        let ghost before = texts_of(names@);
        if !knows(&names, author.as_str()) {
            names.push(author.clone());
            proof {
                let after = texts_of(names@);
                assert(after =~= before.push(author@));
                assert(wrote(rows@, author@));
                assert forall|n: int| 0 <= n < k + 1 implies after.contains((#[trigger] rows@[n]).author@) by {
                    if n < k {
                        let i = choose|i: int| 0 <= i < before.len() && before[i] == rows@[n].author@;
                        assert(after[i] == rows@[n].author@);
                    } else {
                        assert(after[before.len() as int] == rows@[n].author@);
                    }
                }
            }
        }
        k += 1;
    }
    names
}

/// All who wrote to the audit trail, each once, in the order of the
/// dictionary.
pub fn load_authors(conn: &Database) -> (r: Vec<String>)
    ensures
        are_authors(conn@.audit_logs, texts_of(r@)),
{
    let names = collect_authors(conn.audit_logs());
    let ghost found = names@;
    let sorted = sort_by_key(names, &text_order_of, Ghost(text_order()));
    proof {
        lemma_sorted_names(conn@.audit_logs, found, sorted@);
    }
    sorted
}

/// Names in the order of the dictionary are still the authors.
proof fn lemma_sorted_names(rows: Seq<AuditLog>, found: Seq<String>, sorted: Seq<String>)
    requires
        texts_of(found).no_duplicates(),
        forall|i: int| 0 <= i < found.len() ==> wrote(rows, #[trigger] texts_of(found)[i]),
        forall|k: int| 0 <= k < rows.len() ==> texts_of(found).contains((#[trigger] rows[k]).author@),
        sorted_by(sorted, by_key(text_order())),
        sorted.to_multiset() == found.to_multiset(),
    ensures
        are_authors(rows, texts_of(sorted)),
{
    let a = texts_of(found);
    let b = texts_of(sorted);
    lemma_same_rows(found, sorted);
    assert(keys_distinct(found, |s: String| s@)) by {
        assert forall|i: int, j: int|
            0 <= i < found.len() && 0 <= j < found.len() && i != j implies (#[trigger] found[i])@ != (
        #[trigger] found[j])@ by {
            assert(a[i] != a[j]);
        }
    }
    lemma_reordered_distinct(found, sorted, |s: String| s@);
    assert forall|i: int, j: int| 0 <= i < b.len() && 0 <= j < b.len() && i != j implies b[i] != b[j] by {
        assert(sorted[i]@ != sorted[j]@);
    }
    assert forall|i: int, j: int| 0 <= i < j < b.len() implies lex_le(text_key(b[i]), text_key(b[j])) by {
        assert(by_key(text_order())(sorted[i], sorted[j]));
    }
    assert forall|i: int| 0 <= i < b.len() implies wrote(rows, #[trigger] b[i]) by {
        assert(sorted.contains(sorted[i]));
        let j = choose|j: int| 0 <= j < found.len() && found[j] == sorted[i];
        assert(a[j] == b[i]);
    }
    assert forall|k: int| 0 <= k < rows.len() implies b.contains((#[trigger] rows[k]).author@) by {
        let j = choose|j: int| 0 <= j < a.len() && a[j] == rows[k].author@;
        assert(found.contains(found[j]));
        let i = choose|i: int| 0 <= i < sorted.len() && sorted[i] == found[j];
        assert(b[i] == rows[k].author@);
    }
}

} // verus!
