use linkify::link::Link;
use linkify::query::{DBLookupType, Query, SqlParam};
use linkify::statements::{find_links_query, limit_or, lookup_pattern};
use linkify::stored_query::{find_queries_query, get_query_query, recent_tags_query};
use linkify::sync::{
    check_target, conflicts_query, plan_merge, watermark_query, write_link_query,
};
use linkify::writes::{
    find_users_query, join_tags_query, schema_state_query, stored_version_query, text_or_null,
    upsert_link_query,
};
use linkify::version::Version;

fn shown(query: &Query) -> Vec<String> {
    query
        .named_params()
        .iter()
        .map(|(name, value)| match value {
            SqlParam::Null => format!("{}=null", name),
            SqlParam::Bool(b) => format!("{}={}", name, b),
            SqlParam::Int(i) => format!("{}={}", name, i),
            SqlParam::Text(t) => format!("{}='{}'", name, t),
            SqlParam::List(l) => format!("{}=[{}]", name, l.join("|")),
        })
        .collect()
}

#[test]
fn builder_joins_fragments_with_single_spaces() {
    let mut q = Query::new();
    assert_eq!(q.build(), "");
    assert!(q.named_params().is_empty());
    q.concat("SELECT 1");
    assert_eq!(q.build(), "SELECT 1");
    q.concat_with_param("WHERE a = :a AND", (":a", SqlParam::Int(3)));
    q.concat_with_param("b = :b", (":b", SqlParam::Text("x".to_string())));
    assert_eq!(q.build(), "SELECT 1 WHERE a = :a AND b = :b");
    assert_eq!(shown(&q), vec![":a=3", ":b='x'"]);
    let r = Query::new_with_initial("SELECT 2");
    assert_eq!(r.build(), "SELECT 2");
    assert_eq!(Query::patternize("a'b"), "%a'b%");
    assert_eq!(Query::patternize(""), "%%");
}

#[test]
fn link_search_binds_every_value() {
    let pattern = Link::new(
        None,
        "http://a.com/",
        "it's",
        None,
        Some(vec!["rust".to_string(), "+web".to_string(), "+db".to_string(), "-old".to_string()]),
    )
    .set_toread(true)
    .set_favourite(true);
    let q = find_links_query(&pattern, DBLookupType::Patterned, Version::new(3), Some(5), 7);
    assert_eq!(
        q.build(),
        "SELECT l.id, href, name, description, group_concat(tag) AS tagz, is_toread, is_shared, \
         is_favourite, datetime(l.created_at) FROM links l LEFT JOIN links_tags lt ON l.id = \
         lt.link_id LEFT JOIN tags t ON lt.tag_id = t.id WHERE version >= :version AND \
         (fits(:name, name) OR (description IS NOT NULL AND fits(:name, description))) AND \
         instr(path(href), :href) > 0 AND l.is_toread = TRUE \
         AND l.is_favourite = TRUE AND (l.user_id = :id OR l.is_shared) GROUP BY l.id HAVING \
         l.id IN (SELECT link_id FROM links_tags lt2 JOIN tags t2 ON lt2.tag_id = t2.id AND \
         t2.tag IN rarray(:tags)) AND LENGTH(tagz) > 0 AND every(tagz, :reqs) AND (tagz IS \
         NULL OR some(tagz, :excls) = FALSE) AND 1=1 ORDER BY l.is_favourite DESC, \
         l.created_at DESC, l.id DESC LIMIT :limit"
    );
    assert_eq!(
        shown(&q),
        vec![
            ":version=3",
            ":name='%it's%'",
            ":href='a.com'",
            ":id=7",
            ":tags=[rust]",
            ":reqs='web,db'",
            ":excls='old'",
            ":limit=5"
        ]
    );
}

#[test]
fn link_search_leaves_out_what_is_not_asked() {
    let pattern = Link::new(None, "", "", None, None);
    let q = find_links_query(&pattern, DBLookupType::Exact, Version::unknown(), None, 1);
    assert_eq!(
        q.build(),
        "SELECT l.id, href, name, description, group_concat(tag) AS tagz, is_toread, is_shared, \
         is_favourite, datetime(l.created_at) FROM links l LEFT JOIN links_tags lt ON l.id = \
         lt.link_id LEFT JOIN tags t ON lt.tag_id = t.id WHERE (fits(:name, name) OR \
         fits(:name, href) OR (description IS NOT NULL AND fits(:name, description))) AND \
         (l.user_id = :id OR l.is_shared) GROUP BY l.id \
         ORDER BY l.is_favourite DESC, l.created_at DESC, l.id DESC LIMIT :limit"
    );
    assert_eq!(shown(&q), vec![":name='%%'", ":id=1", ":limit=10"]);
    let patterned = find_links_query(&pattern, DBLookupType::Patterned, Version::new(0), Some(0), 1);
    assert_eq!(shown(&patterned), vec![":version=0", ":name='%%'", ":id=1", ":limit=10"]);
    let exact = Link::new(None, "https://a.com/x/", "", None, None);
    let q = find_links_query(&exact, DBLookupType::Exact, Version::unknown(), Some(1), 1);
    assert_eq!(shown(&q), vec![":name='%%'", ":href='a.com/x'", ":id=1", ":limit=1"]);
    assert!(q.build().contains("path(href) = :href AND"));
    assert!(!q.build().contains("instr("));
}

#[test]
fn limits_and_lookups() {
    assert_eq!(limit_or(None, 10), 10);
    assert_eq!(limit_or(Some(0), 10), 10);
    assert_eq!(limit_or(Some(3), 10), 3);
    assert_eq!(lookup_pattern("abc", DBLookupType::Exact), "abc");
    assert_eq!(lookup_pattern("abc", DBLookupType::Patterned), "%abc%");
}

#[test]
fn satellite_statements() {
    let q = find_queries_query(4, Some("work"), DBLookupType::Patterned);
    assert_eq!(
        q.build(),
        "SELECT s.id, name, query FROM queries s INNER JOIN users u ON s.user_id = u.id WHERE \
         u.id = :id AND fits(:name, name) ORDER BY s.created_at DESC, s.id DESC"
    );
    assert_eq!(shown(&q), vec![":id=4", ":name='%work%'"]);
    assert_eq!(shown(&find_queries_query(4, Some("work"), DBLookupType::Exact))[1], ":name='work'");
    assert_eq!(shown(&find_queries_query(4, None, DBLookupType::Patterned))[1], ":name=''");
    let g = get_query_query(4, 9);
    assert_eq!(g.build(), "SELECT id, name, query FROM queries WHERE id = :sid AND user_id = :uid");
    assert_eq!(shown(&g), vec![":sid=9", ":uid=4"]);
    let t = recent_tags_query(4, Some("ru"), &Some(vec!["a".to_string(), "b".to_string()]), None);
    assert_eq!(
        t.build(),
        "SELECT tag FROM tags WHERE user_id = :id AND fits(:pattern, tag) AND tag NOT IN \
         rarray(:excludes) ORDER BY used_at DESC LIMIT :limit"
    );
    assert_eq!(shown(&t), vec![":id=4", ":pattern='%ru%'", ":excludes=[a|b]", ":limit=8"]);
    let t = recent_tags_query(4, None, &None, Some(0));
    assert_eq!(shown(&t), vec![":id=4", ":pattern='%%'", ":excludes=[]", ":limit=0"]);
}

#[test]
fn merge_plan_drops_reported_paths_and_stamps_the_rest() {
    let links = vec![
        Link::new(None, "http://a.com/", "a", None, None),
        Link::new(None, "http://b.com", "b", None, None).set_toread(true),
        Link::new(None, "https://c.com", "c", None, None),
    ];
    let q = conflicts_query(2, Version::new(4), &links);
    assert_eq!(
        q.build(),
        "SELECT path(href) FROM links WHERE user_id = :user_id AND version >= :version AND \
         path(href) IN rarray(:hrefs)"
    );
    assert_eq!(shown(&q), vec![":user_id=2", ":version=4", ":hrefs=[a.com|b.com|c.com]"]);
    let w = watermark_query(2);
    assert_eq!(w.build(), "SELECT ifnull(max(version), 0) FROM links WHERE user_id = :user_id");
    let (writes, after) = plan_merge(links, &vec!["a.com".to_string()], Version::new(6)).unwrap();
    assert_eq!(after.offset(), 8);
    assert_eq!(writes.len(), 2);
    assert_eq!(writes[0].link.name, "b");
    assert_eq!(writes[0].version.offset(), 7);
    assert_eq!(writes[1].link.name, "c");
    assert_eq!(writes[1].version.offset(), 8);
    let fresh = Link::new(None, "http://b.com", "b", None, None).set_toread(true).digest();
    assert_eq!(writes[0].link.hash, fresh.hash);
    let (none, same) = plan_merge(Vec::new(), &Vec::new(), Version::new(6)).unwrap();
    assert!(none.is_empty());
    assert_eq!(same.offset(), 6);
    let full = plan_merge(
        vec![Link::new(None, "x", "x", None, None)],
        &Vec::new(),
        Version::new(i32::MAX),
    );
    assert!(full.is_err());
    let unknown = plan_merge(Vec::new(), &Vec::new(), Version::unknown());
    assert!(unknown.is_err());
}

#[test]
fn write_statements_bind_every_value() {
    let link = Link::new(None, "https://a.com/x/", "A", None, Some(vec!["t".to_string()]))
        .set_shared(true);
    let q = upsert_link_query(&link, Version::new(4), 2);
    assert_eq!(
        q.build(),
        "INSERT INTO links(href, name, description, hash, is_toread, is_shared, is_favourite, \
         user_id, version) VALUES( :href, :name, :description, :hash, :toread, :shared, \
         :favourite, :user_id, :version) ON CONFLICT(path(href), user_id) DO UPDATE SET href = \
         :href, name = :name, description = :description, hash = :hash, is_toread = :toread, \
         is_shared = :shared, is_favourite = :favourite, version = :version, updated_at = \
         CURRENT_TIMESTAMP"
    );
    let hash = link.hash.clone().unwrap();
    assert_eq!(
        shown(&q),
        vec![
            ":href='https://a.com/x/'".to_string(),
            ":name='A'".to_string(),
            ":description=null".to_string(),
            format!(":hash='{}'", hash),
            ":toread=false".to_string(),
            ":shared=true".to_string(),
            ":favourite=false".to_string(),
            ":user_id=2".to_string(),
            ":version=4".to_string(),
        ]
    );
    let v = stored_version_query(2, "https://a.com/x/");
    assert_eq!(v.build(), "SELECT version FROM links WHERE user_id = :user_id AND path(href) = :path");
    assert_eq!(shown(&v), vec![":user_id=2", ":path='a.com/x'"]);
    let j = join_tags_query(9, 2, &vec!["a".to_string(), "b".to_string()]);
    assert_eq!(shown(&j), vec![":link_id=9", ":tags=[a|b]", ":user_id=2"]);
    let u = find_users_query("an", DBLookupType::Patterned);
    assert_eq!(shown(&u), vec![":login='%an%'"]);
    assert!(schema_state_query().named_params().is_empty());
    assert!(matches!(text_or_null(&None), SqlParam::Null));
    assert!(matches!(text_or_null(&Some("x".to_string())), SqlParam::Text(_)));
}

#[test]
fn target_version_must_be_a_position_and_not_stale() {
    assert!(check_target(Version::new(3), None).is_ok());
    assert!(check_target(Version::new(3), Some(3)).is_ok());
    assert!(check_target(Version::new(3), Some(2)).is_ok());
    assert!(check_target(Version::new(3), Some(4)).is_err());
    assert!(check_target(Version::unknown(), None).is_err());
    assert!(check_target(Version::new(0), Some(0)).is_ok());
    let link = Link::new(None, "a.com", "a", None, None);
    let q = write_link_query(&link, Version::new(3), Some(2), 1).unwrap();
    assert_eq!(q.build(), upsert_link_query(&link, Version::new(3), 1).build());
    assert_eq!(shown(&q)[8], ":version=3");
    assert!(write_link_query(&link, Version::new(3), Some(4), 1).is_err());
    assert!(write_link_query(&link, Version::unknown(), None, 1).is_err());
}
