use linkify::link::Link;
use linkify::version::Version;

#[test]
fn version_positions() {
    assert_eq!(Version::new(5).offset(), 5);
    assert_eq!(Version::unknown().offset(), -1);
    assert!(!Version::unknown().is_valid());
    assert!(Version::new(0).is_valid());
    assert_eq!(Version::new(0).bump().offset(), 1);
    assert_eq!(Version::unknown().bump().offset(), 0);
    assert_eq!(Version::new(42).to_text(), "42");
    assert_eq!(Version::unknown().to_text(), "-1");
}

#[test]
fn new_link_has_no_flags_and_a_hash() {
    let link = Link::new(None, "http://a.com", "a", None, None);
    assert_eq!(link.id, None);
    assert_eq!(link.href, "http://a.com");
    assert_eq!(link.name, "a");
    assert_eq!(link.description, None);
    assert_eq!(link.tags, None);
    assert!(!link.shared && !link.toread && !link.favourite);
    assert_eq!(link.created_at, "");
    assert_eq!(link.hash, Some("fe22d52295cb20828b7c46b002afa1c410331efb".to_string()));
}

#[test]
fn digest_covers_notes_tags_and_flags() {
    let link = Link::new(
        Some(3),
        "http://a.com/x",
        "A",
        Some("notes"),
        Some(vec!["rust".to_string(), "web".to_string()]),
    )
    .set_toread(true)
    .digest();
    assert_eq!(link.hash, Some("0e2514ef1a2c15bd0a2fb4a9253668e503bb26c4".to_string()));
}

#[test]
fn setters_change_one_field_and_leave_the_hash() {
    let base = Link::new(None, "http://a.com", "a", None, None);
    let hash = base.hash.clone();
    let link = base
        .set_id(Some(7))
        .set_timestamp("2020-01-01 00:00:00".to_string())
        .set_toread(true)
        .set_shared(true)
        .set_favourite(true);
    assert_eq!(link.id, Some(7));
    assert_eq!(link.created_at, "2020-01-01 00:00:00");
    assert!(link.toread && link.shared && link.favourite);
    assert_eq!(link.hash, hash);
    assert_eq!(link.href, "http://a.com");
    let copy = link.duplicate();
    assert_eq!(copy.id, Some(7));
    assert_eq!(copy.hash, hash);
    assert!(copy.favourite);
}

#[test]
fn link_from_columns_splits_the_grouped_tags() {
    let link = Link::from_columns(
        9,
        "http://a.com",
        "a",
        Some("d"),
        Some("rust,web"),
        true,
        false,
        true,
        "2020".to_string(),
    );
    assert_eq!(link.id, Some(9));
    assert_eq!(link.description, Some("d".to_string()));
    assert_eq!(link.tags, Some(vec!["rust".to_string(), "web".to_string()]));
    assert!(link.toread && !link.shared && link.favourite);
    assert_eq!(link.created_at, "2020");
    let bare = Link::from_columns(1, "h", "n", None, None, false, false, false, String::new());
    assert_eq!(bare.tags, Some(Vec::new()));
    assert_eq!(bare.description, None);
}
