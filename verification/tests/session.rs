use hwpb::db::inet::Inet;
use hwpb::db::models::{IpWhitelistEntry, Tutor, Year};
use hwpb::db::store::Database;
use hwpb::errors::ApiError;
use hwpb::web::session::{
    check_ip_whitelist, finish_login, load_site_admins, post_login, IpWhitelisting, LoginError,
    SiteAdmin, SiteAdmins, User,
};
use std::collections::HashSet;

fn word(s: &str) -> String {
    String::from(s)
}

/// Years 2023 and 2024; tina is tutor in 2024, adam admin in 2024 and tutor
/// in 2023; the network 192.168.1.0/24 is on the whitelist of 2024.
fn staff() -> Database {
    let mut db = Database::new();
    db.insert_year(Year { id: 2023, writable: false }).unwrap();
    db.insert_year(Year { id: 2024, writable: true }).unwrap();
    db.insert_tutor(Tutor { id: 1, username: word("tina"), year: 2024, is_admin: false }).unwrap();
    db.insert_tutor(Tutor { id: 2, username: word("adam"), year: 2024, is_admin: true }).unwrap();
    db.insert_tutor(Tutor { id: 3, username: word("adam"), year: 2023, is_admin: false }).unwrap();
    db.insert_whitelist_entry(IpWhitelistEntry { id: 1, ipnet: Inet::net_v4(192, 168, 1, 0, 24), year: 2024 }).unwrap();
    db
}

fn admins() -> SiteAdmins {
    SiteAdmins::new(vec![word("root")])
}

#[test]
fn a_site_admin_holds_every_year() {
    let db = staff();
    let root = User::resolve(word("root"), &admins(), &db);
    assert!(root.is_site_admin());
    for year in [i16::MIN, -1, 0, 1999, 2023, 2024, 2025, i16::MAX] {
        assert!(root.is_tutor_for(year));
        assert!(root.is_admin_for(year));
        assert_eq!(root.ensure_tutor_for(year), Ok(()));
        assert_eq!(root.ensure_admin_for(year), Ok(()));
    }
    let bare = User::restore(word("root"), true, vec![], vec![]);
    assert!(bare.is_tutor_for(7) && bare.is_admin_for(7));
    assert!(SiteAdmin::new(bare).is_ok());
}

#[test]
fn a_tutor_holds_the_years_of_the_store() {
    let db = staff();
    let tina = User::resolve(word("tina"), &admins(), &db);
    assert_eq!(tina.name(), "tina");
    assert!(!tina.is_site_admin());
    assert!(tina.is_tutor_for(2024));
    assert!(!tina.is_tutor_for(2023));
    assert!(!tina.is_admin_for(2024));
    assert_eq!(tina.ensure_admin_for(2024), Err(ApiError::Forbidden));
    assert_eq!(tina.ensure_tutor_for(2023), Err(ApiError::Forbidden));
    let adam = User::resolve(word("adam"), &admins(), &db);
    assert!(adam.is_tutor_for(2023) && adam.is_tutor_for(2024));
    assert!(adam.is_admin_for(2024));
    assert!(!adam.is_admin_for(2023));
    assert!(!adam.has_no_year());
    let nobody = User::resolve(word("nobody"), &admins(), &db);
    assert!(nobody.has_no_year());
    assert!(matches!(SiteAdmin::new(adam), Err(ApiError::Forbidden)));
}

#[test]
fn a_restored_user_holds_what_was_noted_at_login() {
    let user = User::restore(word("x"), false, vec![2023, 2023], vec![2024]);
    assert!(user.is_admin_for(2024));
    assert!(!user.is_tutor_for(2024));
    assert!(user.is_tutor_for(2023));
    assert!(!user.is_admin_for(2023));
    assert!(!user.has_no_year());
    assert!(User::restore(word("y"), false, vec![], vec![2024]).has_no_year());
}

#[test]
fn site_admins_are_found_by_their_exact_name() {
    let list = load_site_admins(vec![word("root"), word("Eve")]).unwrap();
    assert!(list.contains("root"));
    assert!(list.contains("Eve"));
    assert!(!list.contains("eve"));
    assert!(!list.contains("roo"));
    assert!(!list.is_empty());
    assert!(SiteAdmins::new(vec![]).is_empty());
}

#[test]
fn a_network_of_24_bits_holds_its_block_and_nothing_else() {
    let net = Inet::net_v4(192, 168, 1, 0, 24);
    for last in [0u8, 1, 77, 254, 255] {
        assert!(net.contains_or_equals(Inet::host_v4(192, 168, 1, last)));
        assert!(net.contains(Inet::host_v4(192, 168, 1, last)));
    }
    assert!(!net.contains_or_equals(Inet::host_v4(192, 168, 0, 255)));
    assert!(!net.contains_or_equals(Inet::host_v4(192, 168, 2, 0)));
    assert!(!net.contains_or_equals(Inet::host_v4(193, 168, 1, 1)));
    assert!(!net.contains_or_equals(Inet::host_v4(10, 0, 0, 1)));
    assert!(net.contains_or_equals(net));
    assert!(!net.contains(net));
    assert!(net.contains_or_equals(Inet::net_v4(192, 168, 1, 128, 25)));
    assert!(!net.contains_or_equals(Inet::net_v4(192, 168, 0, 0, 16)));
    // An address of the other family is never inside.
    assert!(!net.contains_or_equals(Inet { v6: true, bits: 0xC0A8_0101, prefix: 128 }));
}

#[test]
fn the_whitelist_is_asked_for_the_years_of_the_tutor() {
    let db = staff();
    let this_year: HashSet<i16> = [2024].into_iter().collect();
    let last_year: HashSet<i16> = [2023].into_iter().collect();
    assert!(check_ip_whitelist(Inet::host_v4(192, 168, 1, 9), &this_year, &db));
    assert!(!check_ip_whitelist(Inet::host_v4(192, 168, 2, 9), &this_year, &db));
    assert!(!check_ip_whitelist(Inet::host_v4(192, 168, 1, 9), &last_year, &db));
    assert!(!check_ip_whitelist(Inet::host_v4(192, 168, 1, 9), &HashSet::new(), &db));
}

#[test]
fn a_login_from_a_foreign_network_is_refused_to_tutors_only() {
    let db = staff();
    let on = IpWhitelisting(true);
    let off = IpWhitelisting(false);
    let inside = Inet::host_v4(192, 168, 1, 9);
    let outside = Inet::host_v4(8, 8, 8, 8);
    assert!(post_login(word("tina"), &admins(), &on, inside, &db).is_ok());
    assert_eq!(post_login(word("tina"), &admins(), &on, outside, &db).err(), Some(LoginError::ForeignNetwork));
    assert!(post_login(word("tina"), &admins(), &off, outside, &db).is_ok());
    // A site admin comes in from anywhere, with no entry for them at all.
    let root = post_login(word("root"), &admins(), &on, outside, &db).unwrap();
    assert!(root.is_site_admin());
    let empty = Database::new();
    assert!(post_login(word("root"), &admins(), &on, outside, &empty).is_ok());
    // Who has no year and is no site admin is not known.
    assert_eq!(post_login(word("nobody"), &admins(), &on, inside, &db).err(), Some(LoginError::UnknownUser));
    assert_eq!(post_login(word("nobody"), &admins(), &off, inside, &db).err(), Some(LoginError::UnknownUser));
}

#[test]
fn a_login_ends_with_the_password() {
    let user = || User::restore(word("tina"), false, vec![2024], vec![]);
    assert!(finish_login(user(), Ok(true)).is_ok());
    assert_eq!(finish_login(user(), Ok(false)).err(), Some(LoginError::WrongPassword));
    assert_eq!(finish_login(user(), Err(())).err(), Some(LoginError::WrongPassword));
    assert!(LoginError::UnknownUser.message().len() > 0);
    assert!(LoginError::ForeignNetwork.message().len() > 0);
    assert!(LoginError::WrongPassword.message().len() > 0);
}

#[test]
fn networks_are_shown_in_short() {
    assert_eq!(Inet::host_v4(192, 168, 1, 9).abbrev(), "192.168.1.9");
    assert_eq!(Inet::net_v4(192, 168, 1, 0, 24).abbrev(), "192.168.1.0/24");
    assert_eq!(Inet::net_v4(10, 0, 0, 0, 8).abbrev(), "10.0.0.0/8");
    assert!(Inet::net_v4(10, 0, 0, 0, 8).is_valid());
    assert!(!Inet { v6: false, bits: 1, prefix: 33 }.is_valid());
}

#[test]
fn networks_of_the_newer_family_are_written_in_full() {
    let host = Inet { v6: true, bits: 0x2001_0db8_0000_0000_0000_0000_0000_0001, prefix: 128 };
    assert_eq!(host.abbrev(), "2001:db8:0:0:0:0:0:1");
    let net = Inet { v6: true, bits: 0x2001_0db8_0000_0000_0000_0000_0000_0000, prefix: 64 };
    assert_eq!(net.abbrev(), "2001:db8:0:0:0:0:0:0/64");
    assert!(net.is_valid() && host.is_valid());
    assert!(net.contains_or_equals(host));
    assert!(net.contains(host));
    let other = Inet { v6: true, bits: 0x2001_0db9_0000_0000_0000_0000_0000_0001, prefix: 128 };
    assert!(!net.contains_or_equals(other));
    // A network of no bits holds every address of its family.
    let all = Inet { v6: true, bits: 0, prefix: 0 };
    assert!(all.contains_or_equals(other));
    assert!(!all.contains_or_equals(Inet::host_v4(1, 2, 3, 4)));
    assert!(Inet::net_v4(0, 0, 0, 0, 0).contains(Inet::host_v4(1, 2, 3, 4)));
}
