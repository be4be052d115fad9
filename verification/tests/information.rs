use stash_server::info::audit::{pack, Audit, Event, Row};
use stash_server::info::cache::WeakCache;
use stash_server::info::file::{File, Probe};
use stash_server::info::stash::{FileRow, Stash};
use stash_server::info::user::{hex_of, User, UserPool};

fn row(id: u64, name: &str, update_time: u64) -> FileRow {
    FileRow { id, name: name.to_string(), update_time }
}

#[test]
fn address_is_packed_first_octet_first() {
    assert_eq!(pack([1, 2, 3, 4]), 0x0102_0304);
    assert_eq!(pack([0, 0, 0, 0]), 0);
    assert_eq!(pack([255, 255, 255, 255]), u32::MAX);
    assert_eq!(pack([127, 0, 0, 1]), 2130706433);
    assert_eq!(pack([192, 168, 1, 20]), u32::from_be_bytes([192, 168, 1, 20]));
}

#[test]
fn event_names() {
    let names: Vec<&str> = [
        Event::Auth,
        Event::NewStash,
        Event::DeleteStash,
        Event::List,
        Event::Download,
        Event::Upload,
        Event::DeleteFile,
    ]
    .into_iter()
    .map(|e| e.into())
    .collect();
    assert_eq!(
        names,
        vec!["AUTH", "NEW_STASH", "DELETE_STASH", "LIST", "DOWNLOAD", "UPLOAD", "DELETE_FILE"]
    );
}

#[test]
fn rows_are_appended_in_order() {
    let mut audit = Audit::new();
    assert!(audit.take().is_empty());
    let user = User::from_db_username("bob", 42, "s.x".to_string());
    audit.log(Some(&user), [10, 0, 0, 1], Event::List, true, Some("docs"));
    audit.log(None, [10, 0, 0, 2], Event::Auth, false, None);
    let rows = audit.take();
    assert_eq!(
        rows,
        vec![
            Row {
                user: Some(42),
                address: 0x0a00_0001,
                event: Event::List,
                success: true,
                info: Some("docs".to_string()),
            },
            Row { user: None, address: 0x0a00_0002, event: Event::Auth, success: false, info: None },
        ]
    );
    assert_eq!(rows[0].mark(), 'Y');
    assert_eq!(rows[1].mark(), 'N');
    assert!(audit.take().is_empty());
}

#[test]
fn hex_is_lower_case_two_digits_a_byte() {
    assert_eq!(hex_of(&vec![]), Vec::<char>::new());
    assert_eq!(hex_of(&vec![10, 20, 30]).iter().collect::<String>(), "0a141e");
    assert_eq!(hex_of(&vec![0, 255, 0xab, 0x09]).iter().collect::<String>(), "00ffab09");
}

#[test]
fn password_is_checked_against_salted_sha3() {
    let hash = "a.3a985da74fe225b2045c172d6bd390bd855f086e3e9d525b46bfe24511431532";
    let user = User::from_db_username("u", 1, hash.to_string());
    assert!(user.check_password("bc"));
    assert!(!user.check_password("abc"));
    assert!(!user.check_password("bC"));
    assert!(!user.check_password(""));
}

#[test]
fn password_with_empty_salt() {
    let hash = ".3a985da74fe225b2045c172d6bd390bd855f086e3e9d525b46bfe24511431532";
    let user = User::from_db_username("u", 1, hash.to_string());
    assert!(user.check_password("abc"));
    assert!(!user.check_password("ab"));
}

#[test]
fn password_and_salt_beyond_ascii() {
    let hash = "sält.fd7ae03fbdfc824905121ce213b81c07aa886e513c5b980aef5863e56f242164";
    let user = User::from_db_username("u", 1, hash.to_string());
    assert!(user.check_password("hunter2"));
    assert!(!user.check_password("hunter3"));
}

#[test]
fn stored_hash_is_cut_at_its_first_dot() {
    let hash = "a.b.3a985da74fe225b2045c172d6bd390bd855f086e3e9d525b46bfe24511431532";
    let user = User::from_db_username("u", 1, hash.to_string());
    assert!(!user.check_password("bc"));
    assert!(!user.check_password(".bbc"));
}

#[test]
fn stored_hash_without_dot_matches_nothing() {
    let hash = "3a985da74fe225b2045c172d6bd390bd855f086e3e9d525b46bfe24511431532";
    let user = User::from_db_username("u", 1, hash.to_string());
    assert!(!user.check_password("abc"));
    assert!(!user.check_password(""));
}

#[test]
fn upper_case_digest_does_not_match() {
    let hash = "a.3A985DA74FE225B2045C172D6BD390BD855F086E3E9D525B46BFE24511431532";
    let user = User::from_db_username("u", 1, hash.to_string());
    assert!(!user.check_password("bc"));
}

#[test]
fn user_fields() {
    let user = User::from_db_username("alice", 7, "s.h".to_string());
    assert_eq!(user.id(), 7);
    assert_eq!(user.username(), "alice");
    let copy = user.duplicate();
    assert_eq!(copy.id(), 7);
    assert_eq!(copy.username(), "alice");
}

#[test]
fn file_location() {
    assert_eq!(File::locate("/srv/stash", 42), "/srv/stash/42");
    assert_eq!(File::locate("", 0), "/0");
    assert_eq!(File::locate("data/", u64::MAX), "data//18446744073709551615");
}

#[test]
fn file_exists_only_as_a_regular_file() {
    let file = File::new(5, 1700000000, "/srv", Probe::Regular).unwrap();
    assert_eq!(file.id(), 5);
    assert_eq!(file.update_time(), 1700000000);
    assert_eq!(file.path(), "/srv/5");
    assert_eq!(File::new(5, 1, "/srv", Probe::Other), None);
    assert_eq!(File::new(5, 1, "/srv", Probe::Missing), None);
}

#[test]
fn stash_holds_each_name_once() {
    let stash = Stash::new(vec![row(1, "a", 10), row(2, "b", 20), row(3, "a", 30)]);
    assert_eq!(stash.len(), 2);
    assert_eq!(stash.get("a"), Some((3, 30)));
    assert_eq!(stash.get("b"), Some((2, 20)));
    assert_eq!(stash.get("c"), None);
    assert_eq!(stash.get(""), None);
    assert_eq!(stash.paths("/r"), vec!["/r/3".to_string(), "/r/2".to_string()]);
}

#[test]
fn empty_stash() {
    let stash = Stash::new(vec![]);
    assert_eq!(stash.len(), 0);
    assert_eq!(stash.get("a"), None);
    assert!(stash.paths("/r").is_empty());
    assert_eq!(stash.into_iter("/r", vec![]).next(), None);
}

#[test]
fn files_pass_over_what_is_not_on_disk() {
    let stash = Stash::new(vec![row(1, "a", 10), row(2, "b", 20), row(3, "c", 30), row(4, "d", 40)]);
    let mut files = stash.into_iter(
        "/r",
        vec![Probe::Missing, Probe::Regular, Probe::Other, Probe::Regular],
    );
    let (name, file) = files.next().unwrap();
    assert_eq!((name.as_str(), file.id(), file.update_time(), file.path()), ("b", 2, 20, "/r/2"));
    let (name, file) = files.next().unwrap();
    assert_eq!((name.as_str(), file.id(), file.update_time(), file.path()), ("d", 4, 40, "/r/4"));
    assert_eq!(files.next(), None);
    assert_eq!(files.next(), None);
}

#[test]
fn files_when_nothing_is_on_disk() {
    let stash = Stash::new(vec![row(1, "a", 10), row(2, "b", 20)]);
    let mut files = stash.into_iter("/r", vec![Probe::Missing, Probe::Other]);
    assert_eq!(files.next(), None);
}

#[test]
fn stash_copy_holds_the_same_files() {
    let stash = Stash::new(vec![row(1, "a", 10), row(2, "b", 20)]);
    let copy = stash.duplicate();
    assert_eq!(copy.len(), 2);
    assert_eq!(copy.get("a"), Some((1, 10)));
    assert_eq!(copy.get("b"), Some((2, 20)));
}

#[test]
fn cache_hands_out_what_is_alive() {
    let mut cache: WeakCache<u32> = WeakCache::new();
    assert_eq!(cache.len(), 0);
    assert_eq!(cache.get("a"), None);
    assert_eq!(cache.add("a", 1), 0);
    assert_eq!(cache.add("b", 2), 1);
    assert_eq!(cache.find("b"), 1);
    assert_eq!(cache.find("c"), 2);
    assert_eq!(cache.get("a"), Some(0));
    assert_eq!(*cache.value(0), 1);
    assert_eq!(cache.key(1), "b");
    assert_eq!(cache.holders(0), 2);
    assert_eq!(cache.holders(1), 1);
}

#[test]
fn live_value_is_never_replaced() {
    let mut cache: WeakCache<u32> = WeakCache::new();
    cache.add("a", 1);
    assert_eq!(cache.add("a", 99), 0);
    assert_eq!(*cache.value(0), 1);
    assert_eq!(cache.holders(0), 2);
    assert_eq!(cache.len(), 1);
    let i = cache.get("a").unwrap();
    assert_eq!(*cache.value(i), 1);
}

#[test]
fn dead_slot_is_evicted_by_the_next_lookup() {
    let mut cache: WeakCache<u32> = WeakCache::new();
    cache.add("a", 1);
    cache.add("b", 2);
    cache.release("a");
    assert_eq!(cache.len(), 2);
    assert_eq!(cache.holders(0), 0);
    assert_eq!(cache.get("a"), None);
    assert_eq!(cache.len(), 1);
    assert_eq!(cache.find("a"), 1);
    assert_eq!(cache.find("b"), 0);
    assert_eq!(cache.get("a"), None);
    assert_eq!(cache.len(), 1);
}

#[test]
fn dead_slot_takes_a_new_value() {
    let mut cache: WeakCache<u32> = WeakCache::new();
    cache.add("a", 1);
    cache.add("b", 2);
    cache.release("a");
    assert_eq!(cache.add("a", 3), 0);
    assert_eq!(*cache.value(0), 3);
    assert_eq!(cache.holders(0), 1);
    assert_eq!(cache.len(), 2);
}

#[test]
fn release_counts_down_and_stops_at_zero() {
    let mut cache: WeakCache<u32> = WeakCache::new();
    cache.add("a", 1);
    cache.get("a");
    cache.release("a");
    assert_eq!(cache.holders(0), 1);
    assert_eq!(cache.get("a"), Some(0));
    cache.release("a");
    cache.release("a");
    cache.release("a");
    assert_eq!(cache.holders(0), 0);
    cache.release("nobody");
    assert_eq!(cache.len(), 1);
}

#[test]
fn pool_misses_until_a_user_is_installed() {
    let mut pool = UserPool::new();
    assert!(pool.get("alice").is_none());
    assert!(pool.install("alice", None).is_none());
    assert!(pool.get("alice").is_none());
    let user = pool.install("alice", Some((7, "s.h".to_string()))).unwrap();
    assert_eq!((user.id(), user.username()), (7, "alice"));
    let again = pool.get("alice").unwrap();
    assert_eq!((again.id(), again.username()), (7, "alice"));
    assert!(pool.get("bob").is_none());
}

#[test]
fn all_holders_of_a_name_share_one_principal() {
    let mut pool = UserPool::new();
    let first = pool.install("alice", Some((7, "s.h".to_string()))).unwrap();
    let second = pool.install("alice", Some((8, "other.hash".to_string()))).unwrap();
    let third = pool.get("alice").unwrap();
    assert_eq!(first.id(), 7);
    assert_eq!(second.id(), 7);
    assert_eq!(third.id(), 7);
    assert!(pool.get_by_id(8).is_none());
    assert_eq!(pool.get_by_id(7).map(|u| u.id()), Some(7));
}

#[test]
fn principal_without_holders_is_dropped_at_the_next_lookup() {
    let mut pool = UserPool::new();
    pool.install("alice", Some((7, "s.h".to_string())));
    pool.get("alice");
    pool.release("alice");
    assert!(pool.get("alice").is_some());
    pool.release("alice");
    pool.release("alice");
    assert!(pool.get("alice").is_none());
    assert!(pool.get_by_id(7).is_none());
    let reloaded = pool.install("alice", Some((9, "s2.h2".to_string()))).unwrap();
    assert_eq!(reloaded.id(), 9);
    assert_eq!(pool.get("alice").map(|u| u.id()), Some(9));
}

#[test]
fn lookup_by_id() {
    let mut pool = UserPool::new();
    pool.install("alice", Some((7, "s.h".to_string())));
    pool.install("bob", Some((3, "s.h".to_string())));
    assert_eq!(pool.get_by_id(3).map(|u| u.username().to_string()), Some("bob".to_string()));
    assert!(pool.get_by_id(4).is_none());
    pool.release("bob");
    pool.release("bob");
    assert!(pool.get_by_id(3).is_none());
    assert!(pool.get("bob").is_none());
    assert!(pool.get("alice").is_some());
}

#[test]
fn stashes_are_cached_per_owner() {
    let mut pool = UserPool::new();
    let alice = pool.install("alice", Some((7, "s.h".to_string()))).unwrap();
    let bob = pool.install("bob", Some((8, "s.h".to_string()))).unwrap();
    assert!(pool.get_shash(&alice, "docs").is_none());
    assert!(pool.load_stash(&alice, "docs", None).is_none());
    assert!(pool.get_shash(&alice, "docs").is_none());
    let loaded = pool.load_stash(&alice, "docs", Some(vec![row(1, "a", 10)])).unwrap();
    assert_eq!(loaded.get("a"), Some((1, 10)));
    assert_eq!(pool.get_shash(&alice, "docs").unwrap().get("a"), Some((1, 10)));
    assert!(pool.get_shash(&bob, "docs").is_none());
    assert!(pool.get_shash(&alice, "other").is_none());
}

#[test]
fn stash_without_holders_is_loaded_anew() {
    let mut pool = UserPool::new();
    let alice = pool.install("alice", Some((7, "s.h".to_string()))).unwrap();
    pool.load_stash(&alice, "docs", Some(vec![row(1, "a", 10)]));
    let kept = pool.load_stash(&alice, "docs", Some(vec![row(2, "b", 20)])).unwrap();
    assert_eq!(kept.get("a"), Some((1, 10)));
    assert_eq!(kept.get("b"), None);
    pool.release_stash(&alice, "docs");
    pool.release_stash(&alice, "docs");
    assert!(pool.get_shash(&alice, "docs").is_none());
    let fresh = pool.load_stash(&alice, "docs", Some(vec![row(2, "b", 20)])).unwrap();
    assert_eq!(fresh.get("a"), None);
    assert_eq!(fresh.get("b"), Some((2, 20)));
}

#[test]
fn stash_keys_of_different_owners_do_not_collide() {
    let mut pool = UserPool::new();
    let one = User::from_db_username("one", 1, "s.h".to_string());
    let eleven = User::from_db_username("eleven", 11, "s.h".to_string());
    pool.load_stash(&one, "1/x", Some(vec![row(1, "a", 10)]));
    assert!(pool.get_shash(&eleven, "/x").is_none());
    assert!(pool.get_shash(&eleven, "x").is_none());
    assert!(pool.get_shash(&one, "1/x").is_some());
}

#[test]
fn one_id_under_two_names_stands_for_the_principal_installed_last() {
    let mut pool = UserPool::new();
    let x = pool.install("x", Some((7, "s.h".to_string()))).unwrap();
    assert_eq!(pool.get_by_id(7).map(|u| u.username().to_string()), Some("x".to_string()));
    assert!(pool.get("y").is_none());
    let y = pool.install("y", Some((7, "s.h".to_string()))).unwrap();
    assert_eq!((x.id(), y.id()), (7, 7));
    assert_eq!(pool.get_by_id(7).map(|u| u.username().to_string()), Some("y".to_string()));
    assert_eq!(pool.get("x").map(|u| u.username().to_string()), Some("x".to_string()));
    assert_eq!(pool.get("y").map(|u| u.username().to_string()), Some("y".to_string()));
    assert_eq!(pool.get_by_id(7).map(|u| u.username().to_string()), Some("y".to_string()));
}

#[test]
fn id_of_a_renamed_user_finds_the_live_principal() {
    let mut pool = UserPool::new();
    pool.install("alice", Some((7, "s.h".to_string())));
    pool.release("alice");
    let renamed = pool.install("Alice", Some((7, "s.h".to_string()))).unwrap();
    assert_eq!(renamed.username(), "Alice");
    assert_eq!(pool.get_by_id(7).map(|u| u.username().to_string()), Some("Alice".to_string()));
    assert!(pool.get("alice").is_none());
    assert_eq!(pool.get_by_id(7).map(|u| u.username().to_string()), Some("Alice".to_string()));
}

#[test]
fn id_whose_principal_is_dead_is_forgotten() {
    let mut pool = UserPool::new();
    pool.install("x", Some((7, "s.h".to_string())));
    pool.install("y", Some((7, "s.h".to_string())));
    pool.release("y");
    assert!(pool.get_by_id(7).is_none());
    assert!(pool.get_by_id(7).is_none());
    assert_eq!(pool.get("x").map(|u| u.id()), Some(7));
    assert!(pool.get("y").is_none());
}

#[test]
fn id_follows_a_name_that_is_loaded_anew_with_another_id() {
    let mut pool = UserPool::new();
    pool.install("x", Some((7, "s.h".to_string())));
    pool.release("x");
    pool.install("x", Some((8, "s.h".to_string())));
    assert!(pool.get_by_id(7).is_none());
    assert_eq!(pool.get_by_id(8).map(|u| u.username().to_string()), Some("x".to_string()));
}

#[test]
fn live_name_keeps_its_principal_and_its_id() {
    let mut pool = UserPool::new();
    pool.install("x", Some((7, "s.h".to_string())));
    let kept = pool.install("x", Some((8, "other.h".to_string()))).unwrap();
    assert_eq!(kept.id(), 7);
    assert!(pool.get_by_id(8).is_none());
    assert_eq!(pool.get_by_id(7).map(|u| u.username().to_string()), Some("x".to_string()));
}
