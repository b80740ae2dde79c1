use linkify::order::str_lt;
use linkify::utils::{
    chars_of, contains_str, every, int_to_string, join_strings, like, path, remove_first, some,
    split_char, split_first, trim_end_matches, truncate, underscores_to_spaces,
};

#[test]
fn path_strips_scheme_and_one_trailing_slash() {
    assert_eq!(path("http://a.com/x/"), "a.com/x");
    assert_eq!(path("a.com"), "a.com");
    assert_eq!(path("https://a.com//"), "a.com/");
    assert_eq!(path(""), "");
    assert_eq!(path("http://"), "");
    assert_eq!(path("a://b://c"), "b://c");
    assert_eq!(path("/"), "");
}

#[test]
fn every_and_some_compare_whole_entries() {
    assert!(every("rust,start", "rust"));
    assert!(every("rust,web", "web,rust"));
    assert!(!every("rust,web", "web,go"));
    assert!(!every("start", "art"));
    assert!(some("rust,web", "go,web"));
    assert!(!some("rust,web", "go,c"));
    assert!(!some("start", "art"));
    assert!(every("", ""));
    assert!(some("a,,b", ""));
}

#[test]
fn truncate_counts_characters() {
    assert_eq!(truncate("héllo", 2), "hé");
    assert_eq!(truncate("abc", 10), "abc");
    assert_eq!(truncate("abc", 3), "abc");
    assert_eq!(truncate("abc", 0), "");
    assert_eq!(truncate("abc", -1), "");
}

#[test]
fn remove_first_drops_one_character() {
    assert_eq!(remove_first("+tag"), Some("tag"));
    assert_eq!(remove_first("é"), Some(""));
    assert_eq!(remove_first(""), None);
}

#[test]
fn split_keeps_empty_entries() {
    assert_eq!(split_char("a,b", ','), vec!["a", "b"]);
    assert_eq!(split_char("", ','), vec![""]);
    assert_eq!(split_char("a,", ','), vec!["a", ""]);
    assert_eq!(split_char(",a,,", ','), vec!["", "a", "", ""]);
    assert_eq!(chars_of("añ"), vec!['a', 'ñ']);
}

#[test]
fn join_puts_the_separator_between() {
    let parts = vec!["a".to_string(), "b".to_string(), "c".to_string()];
    assert_eq!(join_strings(&parts, "%"), "a%b%c");
    assert_eq!(join_strings(&Vec::new(), ","), "");
    assert_eq!(join_strings(&vec!["x".to_string()], ","), "x");
}

#[test]
fn like_reads_percent_as_any_run() {
    assert!(like("%%", ""));
    assert!(like("%rust%", "learn rust now"));
    assert!(like("%learn%now%", "learn rust now"));
    assert!(!like("%now%learn%", "learn rust now"));
    assert!(like("abc", "abc"));
    assert!(!like("abc", "abcd"));
    assert!(!like("", "a"));
    assert!(like("a%", "a"));
    assert!(!like("%Rust%", "rust"));
}

#[test]
fn contains_finds_a_part() {
    assert!(contains_str("toread,shared", "shared"));
    assert!(contains_str("abc", ""));
    assert!(!contains_str("fa", "fav"));
}

#[test]
fn split_first_cuts_at_the_leftmost() {
    assert_eq!(
        split_first("V1__create__x", "__"),
        Some(("V1".to_string(), "create__x".to_string()))
    );
    assert_eq!(split_first("a___b", "__"), Some(("a".to_string(), "_b".to_string())));
    assert_eq!(split_first("plain", "__"), None);
}

#[test]
fn trim_end_matches_takes_every_suffix() {
    assert_eq!(trim_end_matches("a.sql.sql", ".sql"), "a");
    assert_eq!(trim_end_matches("a.sqlx", ".sql"), "a.sqlx");
    assert_eq!(trim_end_matches(".sql", ".sql"), "");
    assert_eq!(trim_end_matches("abc", ""), "abc");
    assert_eq!(underscores_to_spaces("add_user_table"), "add user table");
}

#[test]
fn integers_are_written_in_decimal() {
    assert_eq!(int_to_string(0), "0");
    assert_eq!(int_to_string(-1), "-1");
    assert_eq!(int_to_string(1234567890), "1234567890");
    assert_eq!(int_to_string(i64::MIN), "-9223372036854775808");
    assert_eq!(int_to_string(i64::MAX), "9223372036854775807");
}

#[test]
fn strings_are_ordered_as_str_orders_them() {
    let samples = ["", "V1", "V10", "V2", "v1", "V1a", "é", "z"];
    for a in samples.iter() {
        for b in samples.iter() {
            assert_eq!(str_lt(a, b), a < b);
        }
    }
}
