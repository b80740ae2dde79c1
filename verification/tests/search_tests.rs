use linkify::search::{is_separator, parse_query, split_words, trim};

#[test]
fn words_are_runs_without_white_space() {
    assert_eq!(split_words("  a  b\tc\n"), vec!["a", "b", "c"]);
    assert_eq!(split_words(""), Vec::<String>::new());
    assert_eq!(split_words("   "), Vec::<String>::new());
    assert_eq!(split_words("one"), vec!["one"]);
    assert_eq!(split_words("a\u{3000}b\u{a0}c"), vec!["a", "b", "c"]);
}

#[test]
fn separators_are_the_white_space_characters() {
    let mut c = 0u32;
    while c < 0x3100 {
        if let Some(ch) = char::from_u32(c) {
            assert_eq!(is_separator(ch), ch.is_whitespace());
        }
        c += 1;
    }
}

#[test]
fn trim_takes_white_space_off_both_ends() {
    assert_eq!(trim("  a b \n"), "a b");
    assert_eq!(trim(""), "");
    assert_eq!(trim(" \t "), "");
    assert_eq!(trim("x"), "x");
}

#[test]
fn query_terms_fill_the_pattern() {
    let p = parse_query("learn tags:rust,-archived flags:toread,fav href:a.com desc:note now");
    assert_eq!(p.name, "learn%now");
    assert_eq!(p.href, "a.com");
    assert_eq!(p.description, Some("note".to_string()));
    assert_eq!(p.tags, Some(vec!["rust".to_string(), "-archived".to_string()]));
    assert!(p.toread && p.favourite && !p.shared);
    assert_eq!(p.id, None);
}

#[test]
fn unknown_keys_and_odd_tokens_are_free_text() {
    let p = parse_query("title:x a:b:c :");
    assert_eq!(p.name, "title:x%a:b:c%:");
    assert_eq!(p.tags, Some(Vec::new()));
    assert_eq!(p.description, Some(String::new()));
    assert_eq!(p.href, "");
    let q = parse_query("notes:later href:x href:y tags:a tags:b flags:shared flags:none");
    assert_eq!(q.description, Some("later".to_string()));
    assert_eq!(q.href, "y");
    assert_eq!(q.tags, Some(vec!["a".to_string(), "b".to_string()]));
    assert!(!q.shared && !q.toread && !q.favourite);
    assert_eq!(q.name, "");
}

#[test]
fn empty_query_is_the_empty_pattern() {
    let p = parse_query("");
    assert_eq!(p.name, "");
    assert_eq!(p.href, "");
    assert_eq!(p.tags, Some(Vec::new()));
    assert!(!p.toread && !p.shared && !p.favourite);
}
