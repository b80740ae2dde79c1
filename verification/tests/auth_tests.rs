use linkify::auth::{
    authenticate_user, generate_key, new_user_record, user_info, user_record_with_hash,
    Authentication, UserLookup, UserRecord,
};
use linkify::config::{Config, Env};
use linkify::error::DBError;
use linkify::user::{to_lower_ascii, User};

const HASH: &str = "$2b$04$EGdrhbKUv8Oc9vGiXX0HQOxSg445d458Muh7DAHskb6QbtCvdxcie";

fn record() -> Option<UserRecord> {
    Some(UserRecord { id: 5, login: "Ann".to_string(), password: HASH.to_string() })
}

#[test]
fn request_without_credentials_is_unauthenticated() {
    assert_eq!(authenticate_user(&None, &record()).err(), Some(DBError::Unauthenticated));
    assert_eq!(authenticate_user(&None, &None).err(), Some(DBError::Unauthenticated));
    assert!(Authentication::from_token(None).is_none());
}

#[test]
fn credentials_are_held_against_the_hash() {
    let good = Authentication::from_credentials(
        "Ann".to_string(),
        "correctbatteryhorsestapler".to_string(),
    );
    let user = authenticate_user(&good, &record()).unwrap();
    assert_eq!(user.id, 5);
    assert_eq!(user.login, "ann");
    let wrong = Authentication::from_credentials("Ann".to_string(), "wrong".to_string());
    assert_eq!(authenticate_user(&wrong, &record()).err(), Some(DBError::BadPassword));
    assert_eq!(authenticate_user(&good, &None).err(), Some(DBError::UnknownUser));
    let broken = Some(UserRecord { id: 5, login: "ann".to_string(), password: "nohash".to_string() });
    assert_eq!(authenticate_user(&good, &broken).err(), Some(DBError::BadPassword));
    let odd = Some(UserRecord { id: 5, login: "ann".to_string(), password: "é".repeat(30) });
    assert_eq!(authenticate_user(&good, &odd).err(), Some(DBError::BadPassword));
}

#[test]
fn token_needs_only_a_known_user() {
    let auth = Authentication::from_token(Some("k3y"));
    assert_eq!(authenticate_user(&auth, &record()).unwrap().login, "ann");
    assert_eq!(authenticate_user(&auth, &None).err(), Some(DBError::UnknownUser));
    match auth.unwrap().lookup() {
        UserLookup::ByToken(t) => assert_eq!(t, "k3y"),
        UserLookup::ByLogin(_) => panic!("a token is looked up as a token"),
    }
    let creds = Authentication::from_credentials("Ann".to_string(), "p".to_string()).unwrap();
    match creds.lookup() {
        UserLookup::ByLogin(l) => assert_eq!(l, "Ann"),
        UserLookup::ByToken(_) => panic!("credentials are looked up by login"),
    }
}

#[test]
fn new_user_can_authenticate() {
    let made = new_user_record(8, "Bob", "s3cret").unwrap();
    assert_eq!(made.id, 8);
    assert_eq!(made.login, "Bob");
    assert_ne!(made.password, "s3cret");
    let found = Some(made);
    let good = Authentication::from_credentials("Bob".to_string(), "s3cret".to_string());
    assert_eq!(authenticate_user(&good, &found).unwrap().login, "bob");
    let bad = Authentication::from_credentials("Bob".to_string(), "other".to_string());
    assert_eq!(authenticate_user(&bad, &found).err(), Some(DBError::BadPassword));
    assert!(new_user_record(8, "Bob", "nul\0byte").is_none());
    let long = "x".repeat(100);
    let made = new_user_record(9, "Cy", &long);
    let good = Authentication::from_credentials("Cy".to_string(), long);
    assert_eq!(authenticate_user(&good, &made).unwrap().id, 9);
    assert!(made.unwrap().password.is_ascii());
    let empty = new_user_record(10, "Di", "");
    let good = Authentication::from_credentials("Di".to_string(), String::new());
    assert_eq!(authenticate_user(&good, &empty).unwrap().id, 10);
}

#[test]
fn record_takes_the_hash_as_it_is() {
    let record = user_record_with_hash(4, "Eve", Some("$2b$04$abc".to_string())).unwrap();
    assert_eq!(record.id, 4);
    assert_eq!(record.login, "Eve");
    assert_eq!(record.password, "$2b$04$abc");
    assert!(user_record_with_hash(4, "Eve", None).is_none());
}

#[test]
fn keys_are_letters_and_digits() {
    for len in [0u8, 1, 32, 255] {
        let key = generate_key(len);
        assert_eq!(key.chars().count(), len as usize);
        assert!(key.chars().all(|c| c.is_ascii_alphanumeric()));
    }
    assert_ne!(generate_key(32), generate_key(32));
}

#[test]
fn user_and_config_basics() {
    let user = User::new(3, "MiXed-Ünï");
    assert_eq!(user.login, "mixed-Ünï");
    assert_eq!(user.to_text(), "mixed-Ünï");
    assert_eq!(user.duplicate().id, 3);
    assert_eq!(to_lower_ascii("AZaz[@"), "azaz[@");
    let info = user_info(User::new(3, "Ann"), Some("tok".to_string())).unwrap();
    assert_eq!((info.login.as_str(), info.token.as_str()), ("ann", "tok"));
    assert_eq!(user_info(User::new(3, "Ann"), None).err(), Some(DBError::UnknownUser));
    let config = Config::new(Some("/tmp/db".to_string()), None);
    assert_eq!(config.get(Env::Database), Some("/tmp/db"));
    assert_eq!(config.get(Env::ApiKey), None);
}
