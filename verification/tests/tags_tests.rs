use linkify::tags::{classify_tags, TagFacet};
use linkify::utils::{every, join_strings, some};
use linkify::vault::Vault;

fn strings(items: &[&str]) -> Vec<String> {
    items.iter().map(|s| s.to_string()).collect()
}

#[test]
fn classify_sorts_by_sigil() {
    let (optional, required, excluded) =
        classify_tags(strings(&["rust", "+server", "-hyper", "programming", "+", "-", ""]));
    assert_eq!(optional, strings(&["rust", "programming", ""]));
    assert_eq!(required, strings(&["server", ""]));
    assert_eq!(excluded, strings(&["hyper", ""]));
    let (o, r, e) = Vault::classify_tags(strings(&["+a", "b"]));
    assert_eq!((o, r, e), (strings(&["b"]), strings(&["a"]), Vec::new()));
}

#[test]
fn facet_follows_the_tag_algebra() {
    let facet = TagFacet::from_tokens(strings(&["rust", "programming", "-hyper", "+server"]));
    assert!(facet.matches(&strings(&["rust", "server"])));
    assert!(facet.matches(&strings(&["programming", "server", "web"])));
    assert!(!facet.matches(&strings(&["rust"])));
    assert!(!facet.matches(&strings(&["server"])));
    assert!(!facet.matches(&strings(&["rust", "server", "hyper"])));
    let none = TagFacet::from_tokens(Vec::new());
    assert!(none.matches(&Vec::new()));
    assert!(none.matches(&strings(&["x"])));
}

#[test]
fn excluded_tag_hides_a_link_tagged_with_it() {
    let facet = TagFacet::from_tokens(strings(&["rust", "-archived"]));
    assert!(!facet.matches(&strings(&["rust", "archived"])));
    assert!(facet.matches(&strings(&["rust"])));
    let only_excluded = TagFacet::from_tokens(strings(&["-archived"]));
    assert!(only_excluded.matches(&Vec::new()));
}

#[test]
fn grouped_tag_predicates_agree_with_the_facet() {
    let tag_sets = [strings(&["rust"]), strings(&["rust", "web"]), strings(&["start", "go"])];
    let wanted = [strings(&["rust"]), strings(&["art"]), strings(&["go", "web"])];
    for tags in tag_sets.iter() {
        for want in wanted.iter() {
            let tagz = join_strings(tags, ",");
            let csv = join_strings(want, ",");
            let mut req: Vec<String> = Vec::new();
            let mut exc: Vec<String> = Vec::new();
            for w in want.iter() {
                req.push(format!("+{}", w));
                exc.push(format!("-{}", w));
            }
            assert_eq!(every(&tagz, &csv), TagFacet::from_tokens(req).matches(tags));
            assert_eq!(!some(&tagz, &csv), TagFacet::from_tokens(exc).matches(tags));
        }
    }
}
