//! Who acts: the user with the years in which they hold authority, how a
//! user is resolved at login, and the check of the network they come from.
use vstd::prelude::*;
use std::collections::HashSet;
use crate::db::inet::Inet;
use crate::db::models::{IpWhitelistEntry, Tutor};
use crate::db::store::Database;
use crate::errors::{ApiError, ApiResult};

verus! {

broadcast use vstd::std_specs::hash::group_hash_axioms;

/// The names of the users who administer the whole site.
pub struct SiteAdmins(Vec<String>);

impl View for SiteAdmins {
    type V = Seq<Seq<char>>;

    closed spec fn view(&self) -> Seq<Seq<char>> {
        Seq::new(self.0@.len(), |i: int| self.0@[i]@)
    }
}

impl SiteAdmins {
    pub fn new(users: Vec<String>) -> (r: SiteAdmins)
        ensures
            r@ == Seq::new(users@.len(), |i: int| users@[i]@),
    {
        SiteAdmins(users)
    }

    /// Whether the name is that of a site admin.
    pub fn contains(&self, name: &str) -> (r: bool)
        ensures
            r == self@.contains(name@),
    {
        let mut i: usize = 0;
        while i < self.0.len()
            invariant
                i <= self.0.len(),
                forall|j: int| 0 <= j < i ==> self@[j] != name@,
            decreases self.0.len() - i,
        {
            if eq_text(self.0[i].as_str(), name) {
                assert(self@[i as int] == name@);
                return true;
            }
            i += 1;
        }
        false
    }

    pub fn is_empty(&self) -> (r: bool)
        ensures
            r == (self@.len() == 0),
    {
        self.0.len() == 0
    }
}

/// Whether two texts are the same.
pub fn eq_text(a: &str, b: &str) -> (r: bool)
    ensures
        r == (a@ == b@),
{
    let x = a.to_owned();
    let y = b.to_owned();
    x == y
}

/// The site admins as configured. At least one must be named.
pub fn load_site_admins(names: Vec<String>) -> (r: ApiResult<SiteAdmins>)
    ensures
        r is Ok <==> names@.len() > 0,
        r matches Ok(admins) ==> admins@ == Seq::new(names@.len(), |i: int| names@[i]@),
        r is Err ==> r->Err_0 == ApiError::Other,
{
    if names.len() == 0 {
        return Err(ApiError::Other);
    }
    Ok(SiteAdmins::new(names))
}

/// What a user is allowed: whether they administer the site, and the years
/// in which they are tutor and admin.
pub struct Principal {
    pub name: Seq<char>,
    pub site_admin: bool,
    pub tutor_years: Set<i16>,
    pub admin_years: Set<i16>,
}

impl Principal {
    pub open spec fn is_tutor_for(self, year: i16) -> bool {
        self.site_admin || self.tutor_years.contains(year)
    }

    pub open spec fn is_admin_for(self, year: i16) -> bool {
        self.site_admin || self.admin_years.contains(year)
    }
}

/// An authenticated user, as resolved at login. The authority is a snapshot:
/// a change of roles shows at the next login.
pub struct User {
    name: String,
    site_admin: bool,
    tutor_years: HashSet<i16>,
    admin_years: HashSet<i16>,
}

impl View for User {
    type V = Principal;

    closed spec fn view(&self) -> Principal {
        Principal {
            name: self.name@,
            site_admin: self.site_admin,
            tutor_years: self.tutor_years@,
            admin_years: self.admin_years@,
        }
    }
}

/// The years in which the rows make `name` a tutor.
pub open spec fn tutor_years_of(tutors: Seq<Tutor>, name: Seq<char>) -> Set<i16> {
    Set::new(
        |y: i16|
            exists|i: int|
                0 <= i < tutors.len() && (#[trigger] tutors[i]).username@ == name && tutors[i].year
                    == y,
    )
}

/// The years in which the rows make `name` an admin.
pub open spec fn admin_years_of(tutors: Seq<Tutor>, name: Seq<char>) -> Set<i16> {
    Set::new(
        |y: i16|
            exists|i: int|
                0 <= i < tutors.len() && (#[trigger] tutors[i]).username@ == name && tutors[i].year
                    == y && tutors[i].is_admin,
    )
}

/// The authority of `name`: that of a site admin where the name is one,
/// without any year; else what the tutor rows of that name give.
pub open spec fn resolve(name: Seq<char>, site_admins: Seq<Seq<char>>, tutors: Seq<Tutor>) -> Principal {
    if site_admins.contains(name) {
        Principal { name, site_admin: true, tutor_years: Set::empty(), admin_years: Set::empty() }
    } else {
        Principal {
            name,
            site_admin: false,
            tutor_years: tutor_years_of(tutors, name),
            admin_years: admin_years_of(tutors, name),
        }
    }
}

impl User {
    /// Builds a user from the parts of a snapshot that was handed out at a
    /// login.
    pub fn restore(name: String, site_admin: bool, tutor_years: Vec<i16>, admin_years: Vec<i16>) -> (r:
        User)
        ensures
            r@ == (Principal {
                name: name@,
                site_admin,
                tutor_years: tutor_years@.to_set(),
                admin_years: admin_years@.to_set(),
            }),
    {
        let tutor = set_of(&tutor_years);
        let admin = set_of(&admin_years);
        User { name, site_admin, tutor_years: tutor, admin_years: admin }
    }

    /// Resolves the authority of a name from the configured site admins and
    /// the tutor rows of the store.
    pub fn resolve(name: String, site_admins: &SiteAdmins, conn: &Database) -> (r: User)
        ensures
            r@ == resolve(name@, site_admins@, conn@.tutors),
    {
        let site_admin = site_admins.contains(name.as_str());
        let mut tutor_years: HashSet<i16> = HashSet::new();
        let mut admin_years: HashSet<i16> = HashSet::new();
        if !site_admin {
            let tutors = conn.tutors();
            let mut i: usize = 0;
            while i < tutors.len()
                invariant
                    i <= tutors.len(),
                    tutor_years@ == tutor_years_of(tutors@.take(i as int), name@),
                    admin_years@ == admin_years_of(tutors@.take(i as int), name@),
                decreases tutors.len() - i,
            {
                let ghost before = tutors@.take(i as int);
                let ghost after = tutors@.take(i + 1);
                let tutor = &tutors[i];
                let named = eq_text(tutor.username.as_str(), name.as_str());
                if named {
                    tutor_years.insert(tutor.year);
                    if tutor.is_admin {
                        admin_years.insert(tutor.year);
                    }
                }
                proof {
                    assert(after =~= before.push(*tutor));
                    assert forall|y: i16|
                        tutor_years@.contains(y) <==> tutor_years_of(after, name@).contains(y) by {
                        if tutor_years_of(before, name@).contains(y) {
                            let j = choose|j: int|
                                0 <= j < before.len() && (#[trigger] before[j]).username@ == name@
                                    && before[j].year == y;
                            assert(after[j] == before[j]);
                        }
                        if named && y == tutor.year {
                            assert(after[i as int] == *tutor);
                        }
                        if tutor_years_of(after, name@).contains(y) {
                            let j = choose|j: int|
                                0 <= j < after.len() && (#[trigger] after[j]).username@ == name@
                                    && after[j].year == y;
                            if j < i {
                                assert(before[j] == after[j]);
                            }
                        }
                    }
                    assert forall|y: i16|
                        admin_years@.contains(y) <==> admin_years_of(after, name@).contains(y) by {
                        if admin_years_of(before, name@).contains(y) {
                            let j = choose|j: int|
                                0 <= j < before.len() && (#[trigger] before[j]).username@ == name@
                                    && before[j].year == y && before[j].is_admin;
                            assert(after[j] == before[j]);
                        }
                        if named && y == tutor.year && tutor.is_admin {
                            assert(after[i as int] == *tutor);
                        }
                        if admin_years_of(after, name@).contains(y) {
                            let j = choose|j: int|
                                0 <= j < after.len() && (#[trigger] after[j]).username@ == name@
                                    && after[j].year == y && after[j].is_admin;
                            if j < i {
                                assert(before[j] == after[j]);
                            }
                        }
                    }
                    assert(tutor_years@ =~= tutor_years_of(after, name@));
                    assert(admin_years@ =~= admin_years_of(after, name@));
                }
                i += 1;
            }
            assert(tutors@.take(tutors.len() as int) =~= tutors@);
        }
        User { name, site_admin, tutor_years, admin_years }
    }

    pub fn name(&self) -> (r: &str)
        ensures
            r@ == self@.name,
    {
        self.name.as_str()
    }

    pub fn is_tutor_for(&self, year: i16) -> (r: bool)
        ensures
            r == self@.is_tutor_for(year),
    {
        self.site_admin || self.tutor_years.contains(&year)
    }

    pub fn is_admin_for(&self, year: i16) -> (r: bool)
        ensures
            r == self@.is_admin_for(year),
    {
        self.site_admin || self.admin_years.contains(&year)
    }

    pub fn is_site_admin(&self) -> (r: bool)
        ensures
            r == self@.site_admin,
    {
        self.site_admin
    }

    /// The years in which the user is tutor by their own right, rising.
    pub fn tutor_years(&self) -> (r: Vec<i16>)
        ensures
            forall|y: i16| r@.contains(y) <==> self@.tutor_years.contains(y),
            forall|i: int, j: int| 0 <= i < j < r@.len() ==> r@[i] < r@[j],
    {
        years_in(&self.tutor_years)
    }

    /// The years in which the user is admin by their own right, rising.
    pub fn admin_years(&self) -> (r: Vec<i16>)
        ensures
            forall|y: i16| r@.contains(y) <==> self@.admin_years.contains(y),
            forall|i: int, j: int| 0 <= i < j < r@.len() ==> r@[i] < r@[j],
    {
        years_in(&self.admin_years)
    }

    /// Whether the user is tutor in no year at all.
    pub fn has_no_year(&self) -> (r: bool)
        ensures
            r == self@.tutor_years.is_empty(),
    {
        self.tutor_years.is_empty()
    }

    pub fn ensure_tutor_for(&self, year: i16) -> (r: ApiResult<()>)
        ensures
            r is Ok <==> self@.is_tutor_for(year),
            r is Err ==> r->Err_0 == ApiError::Forbidden,
    {
        match self.is_tutor_for(year) {
            true => Ok(()),
            false => Err(ApiError::Forbidden),
        }
    }

    pub fn ensure_admin_for(&self, year: i16) -> (r: ApiResult<()>)
        ensures
            r is Ok <==> self@.is_admin_for(year),
            r is Err ==> r->Err_0 == ApiError::Forbidden,
    {
        match self.is_admin_for(year) {
            true => Ok(()),
            false => Err(ApiError::Forbidden),
        }
    }
}

/// A user who administers the whole site.
pub struct SiteAdmin(User);

impl SiteAdmin {
    /// Takes a user as site admin. Refused to everyone else.
    pub fn new(user: User) -> (r: ApiResult<SiteAdmin>)
        ensures
            r is Ok <==> user@.site_admin,
            r matches Ok(admin) ==> admin.user() == user,
            r is Err ==> r->Err_0 == ApiError::Forbidden,
    {
        if user.is_site_admin() {
            Ok(SiteAdmin(user))
        } else {
            Err(ApiError::Forbidden)
        }
    }

    pub closed spec fn user(self) -> User {
        self.0
    }

    #[verifier::type_invariant]
    spec fn is_site_admin(self) -> bool {
        self.0@.site_admin
    }

    /// The user behind the site admin.
    pub fn deref(&self) -> (r: &User)
        ensures
            *r == self.user(),
            r@.site_admin,
    {
        proof {
            use_type_invariant(self);
        }
        &self.0
    }
}

/// Whether logins are held to the network whitelist.
pub struct IpWhitelisting(pub bool);

/// A notice to show on the login page.
pub struct LoginMessage(pub Option<String>);

/// Why a login was turned down.
#[derive(Debug, Clone, Copy, PartialEq, Eq, Structural)]
pub enum LoginError {
    /// The name is neither a site admin's nor a tutor's.
    UnknownUser,
    /// No whitelisted network of the user's years holds the address.
    ForeignNetwork,
    /// The password was not accepted.
    WrongPassword,
}

impl LoginError {
    /// The notice shown to the user.
    pub fn message(self) -> (r: &'static str)
        ensures
            r@ == match self {
                LoginError::UnknownUser => "Ungültiger Benutzername!"@,
                LoginError::ForeignNetwork => "Login auf diesem Gerät nicht möglich!"@,
                LoginError::WrongPassword => "Ungültiger Benutzername oder Passwort!"@,
            },
    {
        match self {
            LoginError::UnknownUser => "Ungültiger Benutzername!",
            LoginError::ForeignNetwork => "Login auf diesem Gerät nicht möglich!",
            LoginError::WrongPassword => "Ungültiger Benutzername oder Passwort!",
        }
    }
}

/// Some whitelisted network of one of the years holds the address.
pub open spec fn whitelisted(entries: Seq<IpWhitelistEntry>, address: Inet, years: Set<i16>) -> bool {
    exists|i: int|
        0 <= i < entries.len() && (#[trigger] entries[i]).ipnet.spec_contains_or_equals(address)
            && years.contains(entries[i].year)
}

/// Whether the address lies in a whitelisted network of one of the years.
pub fn check_ip_whitelist(address: Inet, tutor_years: &HashSet<i16>, conn: &Database) -> (r: bool)
    ensures
        r == whitelisted(conn@.ip_whitelist, address, tutor_years@),
{
    let entries = conn.ip_whitelist();
    let mut i: usize = 0;
    while i < entries.len()
        invariant
            i <= entries.len(),
            entries@ == conn@.ip_whitelist,
            forall|j: int|
                0 <= j < i ==> !((#[trigger] entries@[j]).ipnet.spec_contains_or_equals(address)
                    && tutor_years@.contains(entries@[j].year)),
        decreases entries.len() - i,
    {
        let entry = entries[i];
        if entry.ipnet.contains_or_equals(address) && tutor_years.contains(&entry.year) {
            assert(entries@[i as int].ipnet.spec_contains_or_equals(address));
            return true;
        }
        i += 1;
    }
    false
}

/// What a resolved user is told before the password is asked for:
/// a name without authority is unknown; with the whitelist on, everyone but
/// a site admin must come from a network of one of their years.
pub open spec fn admission(
    p: Principal,
    whitelisting: bool,
    entries: Seq<IpWhitelistEntry>,
    address: Inet,
) -> Result<(), LoginError> {
    if !p.site_admin && p.tutor_years.is_empty() {
        Err(LoginError::UnknownUser)
    } else if whitelisting && !p.site_admin && !whitelisted(entries, address, p.tutor_years) {
        Err(LoginError::ForeignNetwork)
    } else {
        Ok(())
    }
}

/// Resolves the user who asks to log in and decides on their admission. The
/// password is checked afterwards, by `finish_login`.
pub fn post_login(
    username: String,
    site_admins: &SiteAdmins,
    ip_whitelisting: &IpWhitelisting,
    address: Inet,
    conn: &Database,
) -> (r: Result<User, LoginError>)
    ensures
        match r {
            Ok(user) => user@ == resolve(username@, site_admins@, conn@.tutors) && admission(
                user@,
                ip_whitelisting.0,
                conn@.ip_whitelist,
                address,
            ) is Ok,
            Err(e) => admission(
                resolve(username@, site_admins@, conn@.tutors),
                ip_whitelisting.0,
                conn@.ip_whitelist,
                address,
            ) == Err::<(), LoginError>(e),
        },
        site_admins@.contains(username@) ==> r is Ok,
{
    let user = User::resolve(username, site_admins, conn);
    if !user.site_admin && user.has_no_year() {
        return Err(LoginError::UnknownUser);
    }
    if ip_whitelisting.0 && !user.site_admin {
        if !check_ip_whitelist(address, &user.tutor_years, conn) {
            return Err(LoginError::ForeignNetwork);
        }
    }
    Ok(user)
}

/// Ends a login once the password was checked: the user is in exactly if the
/// check said yes. A check that failed to run counts as a no.
pub fn finish_login(user: User, authenticated: Result<bool, ()>) -> (r: Result<User, LoginError>)
    ensures
        r == if authenticated == Ok::<bool, ()>(true) {
            Ok::<User, LoginError>(user)
        } else {
            Err::<User, LoginError>(LoginError::WrongPassword)
        },
{
    match authenticated {
        Ok(true) => Ok(user),
        _ => Err(LoginError::WrongPassword),
    }
}

/// The years of a set, rising.
fn years_in(years: &HashSet<i16>) -> (r: Vec<i16>)
    ensures
        forall|y: i16| r@.contains(y) <==> years@.contains(y),
        forall|i: int, j: int| 0 <= i < j < r@.len() ==> r@[i] < r@[j],
{
    let mut out: Vec<i16> = Vec::new();
    let mut y: i16 = i16::MIN;
    loop
        invariant_except_break
            forall|x: i16| out@.contains(x) <==> years@.contains(x) && x < y,
            forall|i: int| 0 <= i < out@.len() ==> out@[i] < y,
        invariant
            forall|i: int, j: int| 0 <= i < j < out@.len() ==> out@[i] < out@[j],
        ensures
            forall|x: i16| out@.contains(x) <==> years@.contains(x),
            forall|i: int, j: int| 0 <= i < j < out@.len() ==> out@[i] < out@[j],
        decreases i16::MAX - y,
    {
        let ghost before = out@;
        if years.contains(&y) {
            out.push(y);
            assert(out@[before.len() as int] == y);
        }
        assert forall|x: i16| out@.contains(x) <==> years@.contains(x) && x <= y by {
            if before.contains(x) {
                let i = choose|i: int| 0 <= i < before.len() && before[i] == x;
                assert(out@[i] == x);
            }
            if out@.contains(x) {
                let i = choose|i: int| 0 <= i < out@.len() && out@[i] == x;
                if i < before.len() {
                    assert(before[i] == x);
                }
            }
        }
        if y == i16::MAX {
            break;
        }
        y += 1;
    }
    out
}

/// The years of a list, as a set.
fn set_of(years: &Vec<i16>) -> (r: HashSet<i16>)
    ensures
        r@ == years@.to_set(),
{
    let mut out: HashSet<i16> = HashSet::new();
    let mut i: usize = 0;
    while i < years.len()
        invariant
            i <= years.len(),
            out@ == years@.take(i as int).to_set(),
        decreases years.len() - i,
    {
        out.insert(years[i]);
        proof {
            let before = years@.take(i as int);
            let after = years@.take(i + 1);
            assert(after =~= before.push(years@[i as int]));
            assert forall|y: i16| out@.contains(y) <==> after.to_set().contains(y) by {
                if before.contains(y) {
                    let j = choose|j: int| 0 <= j < before.len() && before[j] == y;
                    assert(after[j] == y);
                }
                if y == years@[i as int] {
                    assert(after[i as int] == y);
                }
                if after.contains(y) {
                    let j = choose|j: int| 0 <= j < after.len() && after[j] == y;
                    if j < i {
                        assert(before[j] == y);
                    }
                }
            }
            assert(out@ =~= after.to_set());
        }
        i += 1;
    }
    assert(years@.take(years.len() as int) =~= years@);
    out
}

/// A site admin holds every authority in every year, whatever the sets of
/// years hold.
pub proof fn lemma_site_admin_holds_all(p: Principal, year: i16)
    requires
        p.site_admin,
    ensures
        p.is_tutor_for(year),
        p.is_admin_for(year),
{
}

/// Authority only grows with the sets of years: who is tutor or admin for a
/// year stays so when years are added or the user becomes a site admin.
pub proof fn lemma_authority_is_monotone(p: Principal, q: Principal, year: i16)
    requires
        p.site_admin ==> q.site_admin,
        p.tutor_years.subset_of(q.tutor_years),
        p.admin_years.subset_of(q.admin_years),
    ensures
        p.is_tutor_for(year) ==> q.is_tutor_for(year),
        p.is_admin_for(year) ==> q.is_admin_for(year),
{
}

} // verus!
