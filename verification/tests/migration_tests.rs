use linkify::appver::Precedence;
use linkify::error::DBError;
use linkify::migration::{
    build_migration, compare_app_versions, decide_open, pending_scripts, plan_open, Migration,
    SchemaState, Script,
};

fn script(file: &str, body: &str) -> Script {
    Script { file: file.to_string(), body: body.to_string() }
}

fn scripts() -> Vec<Script> {
    vec![
        script("V2__add_tags.sql", "CREATE TABLE tags(id);"),
        script("README.md", "no migration"),
        script("V1__initial_schema.sql", "CREATE TABLE links(id);"),
        script("V3__more__ignored.sql", "ALTER TABLE links ADD x;"),
    ]
}

#[test]
fn file_name_gives_version_and_description() {
    let m = Migration::from_file_name("V1__initial_schema.sql").unwrap();
    assert_eq!(m.file, "V1__initial_schema.sql");
    assert_eq!(m.version, "V1");
    assert_eq!(m.description, "initial schema");
    assert_eq!(m.to_text(), "V1__initial_schema.sql => V1 (initial schema)");
    let n = Migration::from_file_name("V3__more__ignored.sql").unwrap();
    assert_eq!(n.description, "more");
    assert!(Migration::from_file_name("README.md").is_none());
    let e = Migration::from_file_name("__x.sql.sql").unwrap();
    assert_eq!((e.version.as_str(), e.description.as_str()), ("", "x"));
    let made = Migration::new("f".to_string(), "v".to_string(), "d".to_string());
    assert_eq!(made.duplicate().to_text(), "f => v (d)");
}

#[test]
fn due_scripts_ascend_behind_the_base() {
    let versions = |base: &str| -> Vec<String> {
        pending_scripts(&scripts(), base).into_iter().map(|p| p.migration.version).collect()
    };
    assert_eq!(versions(""), vec!["V1", "V2", "V3"]);
    assert_eq!(versions("V1"), vec!["V2", "V3"]);
    assert_eq!(versions("V2"), vec!["V3"]);
    assert_eq!(versions("V3"), Vec::<String>::new());
    assert_eq!(versions("V10"), vec!["V2", "V3"]);
}

#[test]
fn batch_wraps_scripts_and_ledger_entries_in_one_transaction() {
    let batch = build_migration(&scripts(), "V1", "0.3.0").unwrap();
    assert_eq!(
        batch,
        "BEGIN TRANSACTION;\n\nCREATE TABLE tags(id);\n\nINSERT INTO migrations(version, \
         description, script, app_semver) VALUES ('V2', 'add tags', 'V2__add_tags.sql', \
         '0.3.0');\n\nALTER TABLE links ADD x;\n\nINSERT INTO migrations(version, description, \
         script, app_semver) VALUES ('V3', 'more', 'V3__more__ignored.sql', \
         '0.3.0');\n\n\n\nCOMMIT;"
    );
    assert_eq!(build_migration(&scripts(), "V3", "0.3.0"), None);
    assert_eq!(build_migration(&Vec::new(), "", "0.3.0"), None);
}

#[test]
fn opening_follows_the_precedence_of_application_versions() {
    let s = scripts();
    assert!(decide_open(Some(Precedence::Older), &s, "V2", "1.0.0").unwrap().is_some());
    assert_eq!(decide_open(Some(Precedence::Older), &s, "V3", "1.0.0"), Ok(None));
    assert_eq!(decide_open(Some(Precedence::Same), &s, "", "1.0.0"), Ok(None));
    assert_eq!(decide_open(Some(Precedence::Newer), &s, "", "1.0.0"), Err(DBError::FatalSchema));
    assert_eq!(decide_open(None, &s, "", "1.0.0"), Err(DBError::FatalSchema));
}

#[test]
fn fresh_store_gets_every_script() {
    let batch = plan_open(&None, &scripts(), "0.1.0").unwrap().unwrap();
    assert!(batch.starts_with("BEGIN TRANSACTION;\n\nCREATE TABLE links(id);"));
    assert!(batch.ends_with("COMMIT;"));
    assert_eq!(plan_open(&None, &scripts(), "0.0.0"), Ok(None));
}

#[test]
fn newer_schema_is_refused() {
    let last = Some(SchemaState { version: "V1".to_string(), app_semver: "2.0.0".to_string() });
    assert_eq!(plan_open(&last, &scripts(), "1.9.9"), Err(DBError::FatalSchema));
    let pre = Some(SchemaState { version: "V1".to_string(), app_semver: "1.0.0".to_string() });
    assert_eq!(plan_open(&pre, &scripts(), "1.0.0-beta"), Err(DBError::FatalSchema));
    let bad = Some(SchemaState { version: "V1".to_string(), app_semver: "one".to_string() });
    assert_eq!(plan_open(&bad, &scripts(), "1.0.0"), Err(DBError::FatalSchema));
    let long = format!("1.0.0-a{}", "-b".repeat(300));
    assert_eq!(plan_open(&None, &scripts(), &long), Err(DBError::FatalSchema));
    assert_eq!(compare_app_versions("1.2.3", "1.2.3"), Some(Precedence::Same));
    assert_eq!(compare_app_versions("1.2.3", "1.10.0"), Some(Precedence::Older));
    assert_eq!(compare_app_versions("2.0.0", "1.10.0"), Some(Precedence::Newer));
    assert_eq!(compare_app_versions("1.0.0-rc.1", "1.0.0"), Some(Precedence::Older));
    assert_eq!(compare_app_versions("1.0", "1.0.0"), None);
}

#[test]
fn second_opening_applies_nothing() {
    let first = plan_open(&None, &scripts(), "0.2.0").unwrap();
    assert!(first.is_some());
    let after = Some(SchemaState { version: "V3".to_string(), app_semver: "0.2.0".to_string() });
    assert_eq!(plan_open(&after, &scripts(), "0.2.0"), Ok(None));
    assert_eq!(plan_open(&after, &scripts(), "0.2.1"), Ok(None));
    let behind = Some(SchemaState { version: "V1".to_string(), app_semver: "0.2.0".to_string() });
    assert_eq!(plan_open(&behind, &scripts(), "0.2.0"), Ok(None));
    let odd = Some(SchemaState { version: "V1".to_string(), app_semver: "odd".to_string() });
    assert_eq!(plan_open(&odd, &scripts(), "odd"), Err(DBError::FatalSchema));
    let older = Some(SchemaState { version: "V1".to_string(), app_semver: "0.1.9".to_string() });
    assert!(plan_open(&older, &scripts(), "0.10.0").unwrap().is_some());
}
