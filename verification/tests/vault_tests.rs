use linkify::error::DBError;
use linkify::link::Link;
use linkify::query::DBLookupType;
use linkify::user::User;
use linkify::vault::Vault;
use linkify::version::Version;

fn link(href: &str, name: &str) -> Link {
    Link::new(None, href, name, None, None)
}

fn tagged(href: &str, name: &str, tags: &[&str]) -> Link {
    Link::new(None, href, name, None, Some(tags.iter().map(|t| t.to_string()).collect()))
}

fn all(vault: &Vault, user: &User, floor: Version) -> Vec<Link> {
    vault.query_for(user, "", floor, Some(100)).0
}

#[test]
fn empty_store_has_watermark_zero() {
    let vault = Vault::new();
    let user = User::new(1, "Ann");
    let (links, version) = vault.query_for(&user, "", Version::unknown(), None);
    assert_eq!(version.offset(), 0);
    assert!(links.is_empty());
    assert_eq!(vault.get_latest_version(&user).offset(), 0);
}

#[test]
fn first_link_moves_the_watermark_to_one() {
    let mut vault = Vault::new();
    let auth = Ok(User::new(1, "ann"));
    let added = vault.add_link(&auth, tagged("http://a.com/x", "A", &["rust", "web"]));
    assert_eq!(added.unwrap().offset(), 1);
    let (links, version) =
        vault.query_links(&auth, "", Version::new(1), None).unwrap();
    assert_eq!(version.offset(), 1);
    assert_eq!(links.len(), 1);
    assert_eq!(links[0].href, "http://a.com/x");
    assert_eq!(links[0].tags, Some(vec!["rust".to_string(), "web".to_string()]));
    assert_eq!(links[0].id, Some(1));
}

#[test]
fn second_link_is_the_only_one_from_version_two() {
    let mut vault = Vault::new();
    let auth = Ok(User::new(1, "ann"));
    vault.add_link(&auth, tagged("http://a.com/x", "A", &["rust", "web"])).unwrap();
    let second = vault.add_link(&auth, link("http://b.com", "B")).unwrap();
    assert_eq!(second.offset(), 2);
    let (links, version) = vault.query_links(&auth, "", Version::new(2), None).unwrap();
    assert_eq!(version.offset(), 2);
    assert_eq!(links.len(), 1);
    assert_eq!(links[0].href, "http://b.com");
    let (everything, _) = vault.query_links(&auth, "", Version::unknown(), None).unwrap();
    assert_eq!(everything.len(), 2);
    assert_eq!(everything[0].href, "http://b.com");
    assert_eq!(everything[1].href, "http://a.com/x");
}

#[test]
fn stale_update_is_dropped() {
    let mut vault = Vault::new();
    let auth = Ok(User::new(1, "ann"));
    vault.add_link(&auth, link("http://a.com/x", "first title")).unwrap();
    vault.add_link(&auth, link("http://b.com", "B")).unwrap();
    let v = vault
        .add_links(&auth, vec![link("http://a.com/x", "changed")], Version::new(1))
        .unwrap();
    assert_eq!(v.offset(), 2);
    let found = vault.get_link(&auth, "http://a.com/x").unwrap().unwrap();
    assert_eq!(found.name, "first title");
    assert_eq!(vault.get_latest_version(&User::new(1, "ann")).offset(), 2);
}

#[test]
fn fresh_update_replaces_the_link() {
    let mut vault = Vault::new();
    let user = User::new(1, "ann");
    vault.merge_links(&user, vec![link("http://a.com/x", "first title")], Version::new(0)).unwrap();
    let v = vault
        .merge_links(&user, vec![tagged("https://a.com/x/", "changed", &["t"])], Version::new(2))
        .unwrap();
    assert_eq!(v.offset(), 2);
    let links = all(&vault, &user, Version::unknown());
    assert_eq!(links.len(), 1);
    assert_eq!(links[0].name, "changed");
    assert_eq!(links[0].href, "https://a.com/x/");
    assert_eq!(links[0].tags, Some(vec!["t".to_string()]));
    assert_eq!(links[0].id, Some(1));
}

#[test]
fn batch_versions_ascend_and_conflicts_are_skipped() {
    let mut vault = Vault::new();
    let user = User::new(1, "ann");
    let first = vec![link("http://foo.boo.bazz", "foo"), link("http://moo.boo", "moo")];
    assert_eq!(vault.merge_links(&user, first, Version::new(1)).unwrap().offset(), 2);
    let second = vec![link("http://foo.boo.bazz", "foo modified"), link("http://moo.io", "ioo")];
    assert_eq!(vault.merge_links(&user, second, Version::new(1)).unwrap().offset(), 3);
    let links = all(&vault, &user, Version::unknown());
    assert_eq!(links.len(), 3);
    assert!(links.iter().all(|l| l.name != "foo modified"));
    assert_eq!(all(&vault, &user, Version::new(3)).len(), 1);
    assert_eq!(all(&vault, &user, Version::new(2)).len(), 2);
}

#[test]
fn watermark_counts_single_link_calls() {
    let mut vault = Vault::new();
    let auth = Ok(User::new(4, "dan"));
    for n in 1..=7 {
        let href = format!("http://site{}.com", n);
        let v = vault.add_link(&auth, link(&href, "x")).unwrap();
        assert_eq!(v.offset(), n);
    }
    assert_eq!(vault.get_latest_version(&User::new(4, "dan")).offset(), 7);
    assert_eq!(vault.get_latest_version(&User::new(5, "eve")).offset(), 0);
}

#[test]
fn all_conflicting_batch_changes_nothing() {
    let mut vault = Vault::new();
    let user = User::new(1, "ann");
    vault.merge_links(&user, vec![link("http://a.com", "a")], Version::new(0)).unwrap();
    let v = vault.merge_links(&user, vec![link("a.com", "late")], Version::new(1)).unwrap();
    assert_eq!(v.offset(), 1);
    let links = all(&vault, &user, Version::unknown());
    assert_eq!(links.len(), 1);
    assert_eq!(links[0].name, "a");
    let v = vault.merge_links(&user, Vec::new(), Version::new(0)).unwrap();
    assert_eq!(v.offset(), 1);
}

#[test]
fn upsert_round_trip_keeps_content() {
    let mut vault = Vault::new();
    let user = User::new(1, "ann");
    let written = Link::new(
        None,
        "http://a.com/page/",
        "Title",
        Some("some notes"),
        Some(vec!["x".to_string(), "y".to_string()]),
    )
    .set_toread(true)
    .set_favourite(true);
    let (stored, version) = vault.store_link(written, Version::new(5), &user).unwrap();
    assert_eq!(version.offset(), 5);
    assert_eq!(stored.id, Some(1));
    let found = vault.link_for(&user, "https://a.com/page").unwrap();
    assert_eq!(found.href, "http://a.com/page/");
    assert_eq!(found.name, "Title");
    assert_eq!(found.description, Some("some notes".to_string()));
    assert_eq!(found.tags, Some(vec!["x".to_string(), "y".to_string()]));
    assert!(found.toread && found.favourite && !found.shared);
    assert_eq!(found.hash, stored.hash);
    assert_eq!(vault.get_latest_version(&user).offset(), 5);
}

#[test]
fn store_link_refuses_the_unknown_version() {
    let mut vault = Vault::new();
    let user = User::new(1, "ann");
    let r = vault.store_link(link("http://a.com", "a"), Version::unknown(), &user);
    assert_eq!(r.err(), Some(DBError::BadVersion));
    assert!(all(&vault, &user, Version::unknown()).is_empty());
}

#[test]
fn failed_authentication_stops_every_operation() {
    let mut vault = Vault::new();
    let good = Ok(User::new(1, "ann"));
    vault.add_link(&good, link("http://a.com", "a")).unwrap();
    let errors = [DBError::Unauthenticated, DBError::UnknownUser, DBError::BadPassword];
    for e in errors.iter() {
        let bad: Result<User, DBError> = Err(*e);
        assert_eq!(vault.add_link(&bad, link("http://b.com", "b")).err(), Some(*e));
        assert_eq!(vault.add_links(&bad, vec![link("c", "c")], Version::new(0)).err(), Some(*e));
        assert_eq!(vault.import_links(&bad, vec![link("d", "d")]).err(), Some(*e));
        assert_eq!(vault.del_link(&bad, "http://a.com").err(), Some(*e));
        assert_eq!(vault.read_link(&bad, "http://a.com").err(), Some(*e));
        assert_eq!(vault.get_link(&bad, "http://a.com").err(), Some(*e));
        assert_eq!(vault.get_href(&bad, 1).err(), Some(*e));
        assert_eq!(vault.query_links(&bad, "", Version::unknown(), None).err(), Some(*e));
        let pattern = link("", "");
        assert_eq!(
            vault
                .find_links(&bad, &pattern, DBLookupType::Exact, Version::unknown(), None)
                .err(),
            Some(*e)
        );
        assert_eq!(
            vault.find_matching_links(&bad, &pattern, Version::unknown(), None).err(),
            Some(*e)
        );
    }
    let (links, version) = vault.query_links(&good, "", Version::unknown(), None).unwrap();
    assert_eq!(links.len(), 1);
    assert_eq!(version.offset(), 1);
}

#[test]
fn import_always_wins() {
    let mut vault = Vault::new();
    let auth = Ok(User::new(1, "ann"));
    vault.add_link(&auth, link("http://a.com", "old")).unwrap();
    let n = vault
        .import_links(&auth, vec![link("http://a.com", "new"), link("http://b.com", "b")])
        .unwrap();
    assert_eq!(n, 2);
    let (links, version) = vault.query_links(&auth, "", Version::unknown(), None).unwrap();
    assert_eq!(version.offset(), 3);
    assert_eq!(links.len(), 2);
    assert_eq!(vault.get_link(&auth, "a.com").unwrap().unwrap().name, "new");
}

#[test]
fn search_filters_by_facet_flags_text_and_path() {
    let mut vault = Vault::new();
    let user = User::new(1, "ann");
    let batch = vec![
        tagged("http://rust-lang.org", "Rust language", &["rust"]),
        tagged("http://old.rust.org", "Old rust", &["rust", "archived"]),
        tagged("http://go.dev", "Go language", &["go"]).set_toread(true),
        link("http://plain.org/docs", "Plain docs"),
    ];
    vault.import_for(&user, batch).unwrap();
    let names = |q: &str| -> Vec<String> {
        vault.query_for(&user, q, Version::unknown(), None).0.into_iter().map(|l| l.name).collect()
    };
    assert_eq!(names("tags:rust,-archived"), vec!["Rust language"]);
    assert_eq!(names("tags:rust"), vec!["Old rust", "Rust language"]);
    assert_eq!(names("tags:-archived"), vec!["Plain docs", "Go language", "Rust language"]);
    assert_eq!(names("tags:+rust,+archived"), vec!["Old rust"]);
    assert_eq!(names("tags:rust,go"), vec!["Go language", "Old rust", "Rust language"]);
    assert_eq!(names("flags:toread"), vec!["Go language"]);
    assert_eq!(names("language"), vec!["Go language", "Rust language"]);
    assert_eq!(names("Rust language"), vec!["Rust language"]);
    assert_eq!(names("language Rust"), Vec::<String>::new());
    assert_eq!(names("href:rust"), vec!["Old rust", "Rust language"]);
    assert_eq!(names("href:plain.org/docs/"), vec!["Plain docs"]);
    assert_eq!(names("href:http://plain.org/"), Vec::<String>::new());
    assert_eq!(names("plain.org"), vec!["Plain docs"]);
    let exact = Link::new(None, "plain.org", "", None, None);
    let (none, _) = vault.find_for(&user, &exact, DBLookupType::Exact, Version::unknown(), None);
    assert!(none.is_empty());
    let exact = Link::new(None, "https://plain.org/docs/", "", None, None);
    let (one, _) = vault.find_for(&user, &exact, DBLookupType::Exact, Version::unknown(), None);
    assert_eq!(one.len(), 1);
}

#[test]
fn favourites_come_first_and_the_limit_cuts() {
    let mut vault = Vault::new();
    let user = User::new(1, "ann");
    let mut batch = Vec::new();
    for n in 0..12 {
        let l = link(&format!("http://s{}.com", n), &format!("n{}", n));
        batch.push(if n == 3 || n == 5 { l.set_favourite(true) } else { l });
    }
    vault.import_for(&user, batch).unwrap();
    let names = |limit: Option<u16>| -> Vec<String> {
        vault.query_for(&user, "", Version::unknown(), limit).0.into_iter().map(|l| l.name).collect()
    };
    assert_eq!(names(Some(4)), vec!["n5", "n3", "n11", "n10"]);
    assert_eq!(names(Some(1)), vec!["n5"]);
    assert_eq!(names(None).len(), 10);
    assert_eq!(names(Some(0)).len(), 10);
    assert_eq!(names(Some(50)).len(), 12);
}

#[test]
fn shared_links_of_others_are_visible_and_safe() {
    let mut vault = Vault::new();
    let ann = User::new(1, "ann");
    let bob = User::new(2, "bob");
    vault.import_for(&ann, vec![link("http://a.com", "private"), link("http://s.com", "shared").set_shared(true)]).unwrap();
    vault.import_for(&bob, vec![link("http://b.com", "bobs")]).unwrap();
    let seen: Vec<String> = all(&vault, &bob, Version::unknown()).into_iter().map(|l| l.name).collect();
    assert_eq!(seen, vec!["bobs", "shared"]);
    assert_eq!(vault.get_latest_version(&bob).offset(), 1);
    assert!(vault.delete_for(&bob, "http://s.com").is_none());
    assert!(vault.read_for(&bob, "http://s.com").is_none());
    assert_eq!(all(&vault, &ann, Version::unknown()).len(), 2);
    assert_eq!(vault.merge_links(&bob, vec![link("http://a.com", "bobs a")], Version::new(0)).unwrap().offset(), 2);
    assert_eq!(vault.link_for(&ann, "a.com").unwrap().name, "private");
}

#[test]
fn delete_and_mark_read_touch_one_link() {
    let mut vault = Vault::new();
    let auth = Ok(User::new(1, "ann"));
    vault.add_link(&auth, link("http://a.com", "a").set_toread(true)).unwrap();
    vault.add_link(&auth, link("http://b.com", "b")).unwrap();
    assert_eq!(vault.get_href(&auth, 2).unwrap(), "http://b.com");
    assert_eq!(vault.get_href(&auth, 9).err(), Some(DBError::Sqlite));
    let was = vault.read_link(&auth, "a.com").unwrap().unwrap();
    assert!(was.toread);
    assert!(!vault.get_link(&auth, "a.com").unwrap().unwrap().toread);
    assert_eq!(vault.read_link(&auth, "nowhere").unwrap().map(|l| l.name), None);
    let gone = vault.del_link(&auth, "http://a.com/").unwrap().unwrap();
    assert_eq!(gone.name, "a");
    assert!(vault.get_link(&auth, "a.com").unwrap().is_none());
    assert!(vault.del_link(&auth, "a.com").unwrap().is_none());
    let (links, version) = vault.query_links(&auth, "", Version::unknown(), None).unwrap();
    assert_eq!(links.len(), 1);
    assert_eq!(version.offset(), 2);
}

#[test]
fn versions_cannot_leave_their_range() {
    let mut vault = Vault::new();
    let user = User::new(1, "ann");
    vault.store_link(link("http://a.com", "a"), Version::new(i32::MAX), &user).unwrap();
    let r = vault.merge_links(&user, vec![link("http://b.com", "b")], Version::new(0));
    assert_eq!(r.err(), Some(DBError::BadVersion));
    assert_eq!(all(&vault, &user, Version::unknown()).len(), 1);
    let late = vault.merge_links(&user, vec![link("http://a.com", "late")], Version::new(0));
    assert_eq!(late.unwrap().offset(), i32::MAX);
}

#[test]
fn stale_upsert_is_refused() {
    let mut vault = Vault::new();
    let user = User::new(1, "ann");
    vault.store_link(link("http://a.com/x", "first title"), Version::new(5), &user).unwrap();
    let r = vault.store_link(link("https://a.com/x/", "late"), Version::new(4), &user);
    assert_eq!(r.err(), Some(DBError::BadVersion));
    let kept = vault.link_for(&user, "a.com/x").unwrap();
    assert_eq!(kept.name, "first title");
    assert_eq!(kept.href, "http://a.com/x");
    assert_eq!(vault.get_latest_version(&user).offset(), 5);
    let same = vault.store_link(link("a.com/x", "same version"), Version::new(5), &user);
    assert_eq!(same.unwrap().1.offset(), 5);
    let later = vault.store_link(link("a.com/x", "later"), Version::new(9), &user);
    assert_eq!(later.unwrap().1.offset(), 9);
    let other = User::new(2, "bob");
    let theirs = vault.store_link(link("a.com/x", "bob's"), Version::new(0), &other);
    assert!(theirs.is_ok());
    let elsewhere = vault.store_link(link("a.com/y", "other path"), Version::new(1), &user);
    assert!(elsewhere.is_ok());
    assert_eq!(vault.link_for(&user, "a.com/x").unwrap().name, "later");
}

#[test]
fn the_store_stamps_the_time_of_creation() {
    let mut vault = Vault::new();
    let user = User::new(1, "ann");
    let given = link("http://a.com", "a").set_timestamp("2030".to_string());
    let (stored, _) = vault.store_link(given, Version::new(1), &user).unwrap();
    assert_eq!(stored.created_at, "0000000000000000001");
    let (second, _) = vault.store_link(link("http://b.com", "b"), Version::new(2), &user).unwrap();
    assert_eq!(second.created_at, "0000000000000000002");
    let again = link("http://a.com", "a2").set_timestamp("1999".to_string());
    let (rewritten, _) = vault.store_link(again, Version::new(3), &user).unwrap();
    assert_eq!(rewritten.created_at, "0000000000000000001");
    assert_eq!(rewritten.id, Some(1));
    let found = all(&vault, &user, Version::unknown());
    let mut times: Vec<String> = found.iter().map(|l| l.created_at.clone()).collect();
    assert_eq!(times, vec!["0000000000000000002", "0000000000000000001"]);
    times.sort();
    times.reverse();
    assert_eq!(times, vec!["0000000000000000002", "0000000000000000001"]);
}

#[test]
fn results_are_ordered_by_favour_then_recency() {
    let mut vault = Vault::new();
    let user = User::new(1, "ann");
    let mut batch = Vec::new();
    for n in 0..30 {
        let l = link(&format!("http://s{}.com", n), &format!("n{}", n));
        batch.push(if n % 4 == 1 { l.set_favourite(true) } else { l });
    }
    vault.import_for(&user, batch).unwrap();
    vault.delete_for(&user, "s5.com").unwrap();
    vault.store_link(link("s2.com", "n2 again").set_favourite(true), Version::new(40), &user).unwrap();
    let found = all(&vault, &user, Version::unknown());
    assert_eq!(found.len(), 29);
    for pair in found.windows(2) {
        assert!(pair[0].favourite || !pair[1].favourite);
        if pair[0].favourite == pair[1].favourite {
            assert!(pair[0].created_at > pair[1].created_at);
        }
    }
}
