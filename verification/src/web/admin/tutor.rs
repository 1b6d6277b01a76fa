//! The tutors of a year and the networks from which they may log in.
use vstd::prelude::*;
use crate::db::models::{IpWhitelistEntry, Tutor as TutorRow};
use crate::db::schema::{tutor_year, whitelist_year};
use crate::db::store::Database;
use crate::db::inet::abbreviated;
use crate::listing::{lists, presents, select_sorted, shown_by};
use crate::ordering::{make_text_key, text_key};
use crate::relation::key_is;

verus! {

/// The page of the tutors.
pub struct Context {
    pub base: super::BaseContext,
    pub tutors: Vec<Tutor>,
    pub ip_whitelist: Option<Vec<WhitelistEntry>>,
}

/// A tutor as the page shows them.
pub struct Tutor {
    pub id: i32,
    pub username: String,
    pub is_admin: bool,
}

/// A whitelisted network as the page shows it.
pub struct WhitelistEntry {
    pub id: i32,
    pub ipnet: String,
}

/// The order of the tutors: by user name, then by id.
pub open spec fn tutor_order() -> spec_fn(TutorRow) -> Seq<i128> {
    |t: TutorRow| text_key(t.username@) + seq![t.id as i128]
}

fn tutor_order_of(t: &TutorRow) -> (k: Vec<i128>)
    ensures
        k@ == tutor_order()(*t),
{
    let mut k = make_text_key(t.username.as_str());
    k.push(t.id as i128);
    assert(k@ =~= text_key(t.username@) + seq![t.id as i128]);
    k
}

/// The entry shows the tutor.
pub open spec fn shows_tutor() -> spec_fn(Tutor, TutorRow) -> bool {
    |out: Tutor, row: TutorRow| out.id == row.id && out.username == row.username && out.is_admin
        == row.is_admin
}

/// The tutors of a year, in the order of their user names.
pub fn load_tutors(year: i16, conn: &Database) -> (r: Vec<Tutor>)
    ensures
        presents(conn@.tutors, key_is(tutor_year(), year as i32), tutor_order(), shows_tutor(), r@),
{
    let rows = select_sorted(
        conn.tutors(),
        &|t: &TutorRow| -> (b: bool)
            ensures
                b == key_is(tutor_year(), year as i32)(*t)
        {
            t.year == year
        },
        Ghost(key_is(tutor_year(), year as i32)),
        &tutor_order_of,
        Ghost(tutor_order()),
    );
    let mut out: Vec<Tutor> = Vec::new();
    let mut i: usize = 0;
    while i < rows.len()
        invariant
            i <= rows.len(),
            out@.len() == i,
            forall|j: int| 0 <= j < i ==> shows_tutor()(#[trigger] out@[j], rows@[j]),
        decreases rows.len() - i,
    {
        let row = &rows[i];
        out.push(Tutor { id: row.id, username: row.username.clone(), is_admin: row.is_admin });
        i += 1;
    }
    assert(shown_by(rows@, shows_tutor(), out@));
    assert(lists(conn@.tutors, key_is(tutor_year(), year as i32), tutor_order(), rows@));
    out
}

/// The order of the networks: the older family first, then by address, by
/// the length of the prefix and by id.
pub open spec fn network_order() -> spec_fn(IpWhitelistEntry) -> Seq<i128> {
    |e: IpWhitelistEntry|
        seq![
            if e.ipnet.v6 {
                1i128
            } else {
                0i128
            },
            (e.ipnet.bits >> 64u128) as i128,
            (e.ipnet.bits & 0xffff_ffff_ffff_ffffu128) as i128,
            e.ipnet.prefix as i128,
            e.id as i128,
        ]
}

fn network_order_of(e: &IpWhitelistEntry) -> (k: Vec<i128>)
    ensures
        k@ == network_order()(*e),
{
    let bits = e.ipnet.bits;
    let high = bits >> 64u128;
    let low = bits & 0xffff_ffff_ffff_ffffu128;
    assert(high <= 0xffff_ffff_ffff_ffffu128 && low <= 0xffff_ffff_ffff_ffffu128) by (bit_vector)
        requires
            high == bits >> 64u128,
            low == bits & 0xffff_ffff_ffff_ffffu128,
    ;
    let mut k: Vec<i128> = Vec::new();
    k.push(if e.ipnet.v6 {
        1
    } else {
        0
    });
    k.push(high as i128);
    k.push(low as i128);
    k.push(e.ipnet.prefix as i128);
    k.push(e.id as i128);
    assert(k@ =~= network_order()(*e));
    k
}

/// The entry shows the network in its short text.
pub open spec fn shows_network() -> spec_fn(WhitelistEntry, IpWhitelistEntry) -> bool {
    |out: WhitelistEntry, row: IpWhitelistEntry| out.id == row.id && out.ipnet@ == abbreviated(row.ipnet)
}

/// The whitelisted networks of a year, in the order of their addresses.
pub fn load_whitelist(year: i16, conn: &Database) -> (r: Vec<WhitelistEntry>)
    ensures
        presents(
            conn@.ip_whitelist,
            key_is(whitelist_year(), year as i32),
            network_order(),
            shows_network(),
            r@,
        ),
{
    let rows = select_sorted(
        conn.ip_whitelist(),
        &|e: &IpWhitelistEntry| -> (b: bool)
            ensures
                b == key_is(whitelist_year(), year as i32)(*e)
        {
            e.year == year
        },
        Ghost(key_is(whitelist_year(), year as i32)),
        &network_order_of,
        Ghost(network_order()),
    );
    let mut out: Vec<WhitelistEntry> = Vec::new();
    let mut i: usize = 0;
    while i < rows.len()
        invariant
            i <= rows.len(),
            out@.len() == i,
            forall|j: int| 0 <= j < i ==> shows_network()(#[trigger] out@[j], rows@[j]),
        decreases rows.len() - i,
    {
        let row = &rows[i];
        out.push(WhitelistEntry { id: row.id, ipnet: row.ipnet.abbrev() });
        i += 1;
    }
    assert(shown_by(rows@, shows_network(), out@));
    assert(lists(conn@.ip_whitelist, key_is(whitelist_year(), year as i32), network_order(), rows@));
    out
}

} // verus!
