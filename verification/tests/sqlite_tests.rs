use linkify::link::Link;
use linkify::query::{DBLookupType, Query, SqlParam};
use linkify::search::parse_query;
use linkify::statements::find_links_query;
use linkify::sync::{conflicts_query, watermark_query};
use linkify::user::User;
use linkify::utils::{every, like, path, some};
use linkify::writes::{
    clear_tags_query, delete_link_query, join_tags_query, link_meta_query, mark_read_query,
    own_link_query, stored_version_query, touch_tag_query, upsert_link_query,
};
use linkify::vault::Vault;
use linkify::version::Version;

use rusqlite::functions::FunctionFlags;
use rusqlite::types::Value;
use rusqlite::vtab::array;
use rusqlite::{Connection, ToSql};
use std::rc::Rc;

const SCHEMA: &str = "
CREATE TABLE links(id INTEGER PRIMARY KEY, href TEXT, name TEXT, description TEXT, hash TEXT,
    is_toread BOOLEAN, is_shared BOOLEAN, is_favourite BOOLEAN, user_id INTEGER,
    version INTEGER, created_at DATETIME DEFAULT CURRENT_TIMESTAMP, updated_at DATETIME,
    read_at DATETIME);
CREATE UNIQUE INDEX links_path_user ON links(path(href), user_id);
CREATE TABLE tags(id INTEGER PRIMARY KEY, tag TEXT, user_id INTEGER,
    used_at DATETIME DEFAULT CURRENT_TIMESTAMP, UNIQUE(tag, user_id));
CREATE TABLE links_tags(link_id INTEGER, tag_id INTEGER);";

fn open() -> Connection {
    let conn = Connection::open_in_memory().unwrap();
    let flags = FunctionFlags::SQLITE_UTF8 | FunctionFlags::SQLITE_DETERMINISTIC;
    conn.create_scalar_function("path", 1, flags, |ctx| Ok(path(&ctx.get::<String>(0)?))).unwrap();
    conn.create_scalar_function("every", 2, flags, |ctx| {
        Ok(every(&ctx.get::<String>(0)?, &ctx.get::<String>(1)?))
    })
    .unwrap();
    conn.create_scalar_function("some", 2, flags, |ctx| {
        Ok(some(&ctx.get::<String>(0)?, &ctx.get::<String>(1)?))
    })
    .unwrap();
    conn.create_scalar_function("fits", 2, flags, |ctx| {
        Ok(like(&ctx.get::<String>(0)?, &ctx.get::<String>(1)?))
    })
    .unwrap();
    array::load_module(&conn).unwrap();
    conn.execute_batch(SCHEMA).unwrap();
    conn
}

fn insert(conn: &Connection, user_id: i64, link: &Link, version: i32, second: u32) {
    let created = format!("2020-01-01 00:00:{:02}", second);
    let values: [&dyn ToSql; 9] = [
        &link.href,
        &link.name,
        &link.description,
        &link.toread,
        &link.shared,
        &link.favourite,
        &user_id,
        &version,
        &created,
    ];
    conn.execute(
        "INSERT INTO links(href, name, description, is_toread, is_shared, is_favourite, user_id, \
         version, created_at) VALUES(?1, ?2, ?3, ?4, ?5, ?6, ?7, ?8, ?9)",
        &values,
    )
    .unwrap();
    let id = conn.last_insert_rowid();
    for tag in link.tags.clone().unwrap_or_default() {
        let tag_values: [&dyn ToSql; 2] = [&tag, &user_id];
        conn.execute("INSERT OR IGNORE INTO tags(tag, user_id) VALUES(?1, ?2)", &tag_values).unwrap();
        let join_values: [&dyn ToSql; 3] = [&id, &tag, &user_id];
        conn.execute(
            "INSERT INTO links_tags(link_id, tag_id) SELECT ?1, id FROM tags WHERE tag = ?2 AND \
             user_id = ?3",
            &join_values,
        )
        .unwrap();
    }
}

fn run(conn: &Connection, query: &Query, column: usize) -> Vec<String> {
    let values: Vec<(&str, Box<dyn ToSql>)> = query
        .named_params()
        .iter()
        .map(|(name, value)| {
            let boxed: Box<dyn ToSql> = match value {
                SqlParam::Null => Box::new(Value::Null),
                SqlParam::Bool(b) => Box::new(*b),
                SqlParam::Int(i) => Box::new(*i),
                SqlParam::Text(t) => Box::new(t.clone()),
                SqlParam::List(l) => {
                    Box::new(Rc::new(l.iter().cloned().map(Value::from).collect::<Vec<Value>>()))
                }
            };
            (*name, boxed)
        })
        .collect();
    let params: Vec<(&str, &dyn ToSql)> = values.iter().map(|(n, v)| (*n, v.as_ref())).collect();
    let mut stmt = conn.prepare(&query.build()).unwrap();
    let rows = stmt
        .query_map_named(&params, |row| {
            let value: Value = row.get(column)?;
            Ok(match value {
                Value::Text(t) => t,
                Value::Integer(i) => i.to_string(),
                _ => String::new(),
            })
        })
        .unwrap();
    rows.map(|r| r.unwrap()).collect()
}

fn tagged(href: &str, name: &str, notes: Option<&str>, tags: &[&str]) -> Link {
    let tags = if tags.is_empty() { None } else { Some(tags.iter().map(|t| t.to_string()).collect()) };
    Link::new(None, href, name, notes, tags)
}

fn sample() -> Vec<(i64, Link)> {
    vec![
        (1, tagged("http://rust-lang.org/", "rust language", Some("systems"), &["rust", "lang"])),
        (1, tagged("http://old.rust.org", "old rust", None, &["rust", "archived"])),
        (1, tagged("https://go.dev", "go language", Some("simple"), &["go", "lang"]).set_toread(true)),
        (1, tagged("http://plain.org/docs", "plain docs", None, &[]).set_favourite(true)),
        (2, tagged("http://shared.org", "shared language notes", None, &["lang"]).set_shared(true)),
        (2, tagged("http://secret.org", "secret", None, &["rust"])),
        (1, tagged("http://late.org/a/b", "late entry", Some("language of late"), &["archived"])),
        (1, tagged("http://Mixed.org/Case_x", "Mixed Case_name", Some("100% sure"), &["Rust"])),
        (2, tagged("http://mixed.org/casexx", "mixed casexname", None, &["lang"]).set_shared(true)),
    ]
}

#[test]
fn composed_search_agrees_with_the_store_rules() {
    let conn = open();
    let mut vault = Vault::new();
    let mut versions = [0i32, 0, 0];
    for (n, (owner, link)) in sample().into_iter().enumerate() {
        versions[owner as usize] += 1;
        let version = versions[owner as usize];
        insert(&conn, owner, &link, version, n as u32);
        vault.store_link(link, Version::new(version), &User::new(owner, "u")).unwrap();
    }
    let queries = [
        "",
        "language",
        "rust language",
        "language rust",
        "tags:rust",
        "tags:rust,-archived",
        "tags:-archived",
        "tags:+lang,+rust",
        "tags:go,rust,-lang",
        "tags:+missing",
        "flags:toread",
        "flags:fav",
        "href:rust",
        "href:late.org/a/b/",
        "docs",
        "late tags:archived",
        "nothing-like-it",
        "mixed",
        "Mixed",
        "case_name",
        "Case_name",
        "100%",
        "href:mixed.org/case_x",
        "href:Mixed.org/Case_x",
        "href:http://Mixed.org/Case%",
        "tags:rust,Rust",
    ];
    let floors = [Version::unknown(), Version::new(0), Version::new(2), Version::new(4), Version::new(9)];
    let sixth = Link::new(None, "mixed.org/case_x", "", None, None);
    let by_sql = run(
        &conn,
        &find_links_query(&sixth, DBLookupType::Exact, Version::unknown(), None, 1),
        2,
    );
    assert!(by_sql.is_empty());
    let limits = [None, Some(0), Some(1), Some(3), Some(50)];
    for user_id in [1i64, 2, 3] {
        let user = User::new(user_id, "u");
        for q in queries.iter() {
            for floor in floors.iter() {
                for limit in limits.iter() {
                    for lookup in [DBLookupType::Patterned, DBLookupType::Exact] {
                        let pattern = parse_query(q);
                        let statement = find_links_query(&pattern, lookup, *floor, *limit, user_id);
                        let from_sql = run(&conn, &statement, 2);
                        let from_rules: Vec<String> = vault
                            .find_for(&user, &pattern, lookup, *floor, *limit)
                            .0
                            .into_iter()
                            .map(|l| l.name)
                            .collect();
                        assert_eq!(from_sql, from_rules, "query {:?} for user {}", q, user_id);
                    }
                }
            }
        }
    }
}

#[test]
fn composed_sync_statements_run() {
    let conn = open();
    let links: Vec<Link> = sample().into_iter().map(|(_, l)| l).collect();
    for (n, link) in links.iter().take(3).enumerate() {
        insert(&conn, 1, link, n as i32 + 1, n as u32);
    }
    assert_eq!(run(&conn, &watermark_query(1), 0), vec!["3"]);
    assert_eq!(run(&conn, &watermark_query(2), 0), vec!["0"]);
    let mut late = run(&conn, &conflicts_query(1, Version::new(2), &links), 0);
    late.sort();
    assert_eq!(late, vec!["go.dev", "old.rust.org"]);
    assert!(run(&conn, &conflicts_query(2, Version::new(0), &links), 0).is_empty());
}

fn exec(conn: &Connection, query: &Query) -> usize {
    let values: Vec<(&str, Box<dyn ToSql>)> = query
        .named_params()
        .iter()
        .map(|(name, value)| {
            let boxed: Box<dyn ToSql> = match value {
                SqlParam::Null => Box::new(Value::Null),
                SqlParam::Bool(b) => Box::new(*b),
                SqlParam::Int(i) => Box::new(*i),
                SqlParam::Text(t) => Box::new(t.clone()),
                SqlParam::List(l) => {
                    Box::new(Rc::new(l.iter().cloned().map(Value::from).collect::<Vec<Value>>()))
                }
            };
            (*name, boxed)
        })
        .collect();
    let params: Vec<(&str, &dyn ToSql)> = values.iter().map(|(n, v)| (*n, v.as_ref())).collect();
    conn.execute_named(&query.build(), &params).unwrap()
}

fn write(conn: &Connection, user_id: i64, link: &Link, version: i32) {
    exec(conn, &upsert_link_query(link, Version::new(version), user_id));
    let id: i64 = run(conn, &link_meta_query(user_id, &link.href), 0)[0].parse().unwrap();
    exec(conn, &clear_tags_query(id));
    if let Some(tags) = &link.tags {
        for tag in tags {
            exec(conn, &touch_tag_query(user_id, tag));
        }
        exec(conn, &join_tags_query(id, user_id, tags));
    }
}

#[test]
fn composed_writes_follow_the_store_rules() {
    let conn = open();
    let mut vault = Vault::new();
    let user = User::new(1, "u");
    let steps = [
        tagged("http://a.com/x", "first", Some("n"), &["rust", "web"]),
        tagged("http://b.com", "second", None, &["web"]).set_favourite(true),
        tagged("https://a.com/x/", "first again", None, &["rust"]).set_toread(true),
        tagged("http://c.com", "third", None, &[]),
    ];
    for (n, link) in steps.iter().enumerate() {
        let version = n as i32 + 1;
        write(&conn, 1, link, version);
        vault.store_link(link.duplicate(), Version::new(version), &user).unwrap();
    }
    assert_eq!(run(&conn, &stored_version_query(1, "a.com/x"), 0), vec!["3"]);
    assert!(run(&conn, &stored_version_query(1, "nowhere"), 0).is_empty());
    assert_eq!(run(&conn, &own_link_query(1, "http://a.com/x/"), 2), vec!["first again"]);
    assert_eq!(run(&conn, &own_link_query(1, "http://a.com/x/"), 4), vec!["rust"]);
    let pattern = Link::new(None, "", "", None, None);
    let names = |conn: &Connection, vault: &Vault| -> (Vec<String>, Vec<String>) {
        let q = find_links_query(&pattern, DBLookupType::Patterned, Version::unknown(), None, 1);
        let rule: Vec<String> = vault
            .find_for(&user, &pattern, DBLookupType::Patterned, Version::unknown(), None)
            .0
            .into_iter()
            .map(|l| l.name)
            .collect();
        (run(conn, &q, 2), rule)
    };
    let (sql, rule) = names(&conn, &vault);
    assert_eq!(sql, rule);
    assert_eq!(sql, vec!["second", "third", "first again"]);
    let id: i64 = run(&conn, &own_link_query(1, "a.com/x"), 0)[0].parse().unwrap();
    assert_eq!(exec(&conn, &mark_read_query(id)), 1);
    vault.read_for(&user, "a.com/x").unwrap();
    assert_eq!(run(&conn, &own_link_query(1, "a.com/x"), 5), vec!["0"]);
    assert_eq!(exec(&conn, &delete_link_query(id)), 1);
    vault.delete_for(&user, "a.com/x").unwrap();
    let (sql, rule) = names(&conn, &vault);
    assert_eq!(sql, rule);
    assert_eq!(sql, vec!["second", "third"]);
}
