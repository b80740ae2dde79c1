use linkify::error::DBError;
use linkify::query::DBLookupType;
use linkify::server::{
    bearer_token, check_content_type, error_status, link_from_post, lookup_type, parse_tag_list,
    JsonError, LinkPostData,
};
use linkify::stored_query::{SavedQueries, Search, StoredQuery};
use linkify::user::User;

#[test]
fn errors_map_to_statuses_and_messages() {
    assert_eq!(error_status(&DBError::UnknownUser), 403);
    assert_eq!(error_status(&DBError::Unauthenticated), 401);
    assert_eq!(error_status(&DBError::BadPassword), 400);
    assert_eq!(error_status(&DBError::BadVersion), 400);
    assert_eq!(error_status(&DBError::Sqlite), 400);
    assert_eq!(error_status(&DBError::FatalSchema), 400);
    assert_eq!(DBError::BadVersion.message(), "Incorrect version");
    assert_eq!(DBError::Unauthenticated.message(), "Unauthenticated request");
    assert!(DBError::BadVersion.is_recoverable());
    assert!(!DBError::FatalSchema.is_recoverable());
    assert_eq!(JsonError::ParseError.to_text(), "JsonError(ParseError)");
}

#[test]
fn request_parameters() {
    assert_eq!(lookup_type(Some("TRUE")), DBLookupType::Exact);
    assert_eq!(lookup_type(Some("true")), DBLookupType::Exact);
    assert_eq!(lookup_type(Some("yes")), DBLookupType::Patterned);
    assert_eq!(lookup_type(None), DBLookupType::Patterned);
    assert_eq!(bearer_token("Bearer abc"), Some("abc".to_string()));
    assert_eq!(bearer_token("abc"), Some("abc".to_string()));
    assert_eq!(bearer_token("  "), None);
    assert_eq!(check_content_type(Some("application/json; charset=utf-8")), Ok(()));
    assert_eq!(check_content_type(Some("text/plain")), Err(JsonError::WrongContentType));
    assert_eq!(check_content_type(Some("application")), Err(JsonError::WrongContentType));
    assert_eq!(check_content_type(None), Err(JsonError::WrongContentType));
}

#[test]
fn posted_link_is_read() {
    let data = LinkPostData {
        href: "http://a.com".to_string(),
        name: "A".to_string(),
        description: "  notes \n".to_string(),
        tags: Some(" rust , ,web,".to_string()),
        flags: Some("toread,favourite".to_string()),
    };
    let link = link_from_post(&data);
    assert_eq!(link.href, "http://a.com");
    assert_eq!(link.description, Some("notes".to_string()));
    assert_eq!(link.tags, Some(vec!["rust".to_string(), "web".to_string()]));
    assert!(link.toread && link.favourite && !link.shared);
    let bare = LinkPostData {
        href: "h".to_string(),
        name: "n".to_string(),
        description: " ".to_string(),
        tags: None,
        flags: None,
    };
    let link = link_from_post(&bare);
    assert_eq!(link.description, None);
    assert_eq!(link.tags, None);
    assert!(!link.toread && !link.favourite && !link.shared);
    assert_eq!(parse_tag_list(""), Vec::<String>::new());
}

#[test]
fn stored_queries_hold_what_they_are_given() {
    let q = StoredQuery::new(Some(1), "work".to_string(), "tags:work".to_string());
    assert_eq!((q.id, q.name.as_str(), q.query.as_str()), (Some(1), "work", "tags:work"));
    let s = Search::new(None, "n".to_string(), "q".to_string());
    assert_eq!((s.id, s.name.as_str(), s.query.as_str()), (None, "n", "q"));
}

#[test]
fn register_keeps_one_query_per_name() {
    let mut register = SavedQueries::new();
    let ann = Ok(User::new(1, "ann"));
    let bob = Ok(User::new(2, "bob"));
    let nobody: Result<User, DBError> = Err(DBError::Unauthenticated);
    assert_eq!(register.store_query(&ann, "work".to_string(), "tags:work".to_string()), Ok(1));
    assert_eq!(register.store_query(&ann, "home".to_string(), "tags:home".to_string()), Ok(2));
    assert_eq!(register.store_query(&bob, "work".to_string(), "tags:job".to_string()), Ok(3));
    assert_eq!(register.store_query(&ann, "work".to_string(), "tags:work,-old".to_string()), Ok(1));
    assert_eq!(
        register.store_query(&nobody, "x".to_string(), "y".to_string()),
        Err(DBError::Unauthenticated)
    );
    let names = |r: &SavedQueries, name: Option<&str>, lookup: DBLookupType| -> Vec<String> {
        r.find_queries(&ann, name, lookup).unwrap().into_iter().map(|q| q.name).collect()
    };
    assert_eq!(names(&register, Some(""), DBLookupType::Patterned), vec!["work", "home"]);
    assert_eq!(names(&register, Some("om"), DBLookupType::Patterned), vec!["home"]);
    assert_eq!(names(&register, Some("om"), DBLookupType::Exact), Vec::<String>::new());
    assert_eq!(names(&register, Some("home"), DBLookupType::Exact), vec!["home"]);
    assert_eq!(names(&register, None, DBLookupType::Patterned), Vec::<String>::new());
    let found = register.get_query(&ann, 1).unwrap().unwrap();
    assert_eq!(found.query, "tags:work,-old");
    assert!(register.get_query(&ann, 3).unwrap().is_none());
    assert!(register.del_query(&ann, 3).unwrap().is_none());
    assert_eq!(register.del_query(&bob, 3).unwrap().map(|q| q.query), Some("tags:job".to_string()));
    assert!(register.get_query(&bob, 3).unwrap().is_none());
    assert_eq!(register.del_query(&nobody, 1).err(), Some(DBError::Unauthenticated));
    assert!(register.find_queries(&nobody, None, DBLookupType::Exact).is_err());
}
