use vstd::prelude::*;
use crate::error::{DBError, DBResult};
use crate::user::{lower_ascii, User, UserView};

verus! {

/// A token that stands for a user in requests.
#[derive(Debug)]
pub struct ApiKey(pub String);

/// What a user learns about their own account.
#[derive(Debug)]
pub struct UserInfo {
    pub login: String,
    pub token: String,
}

/// The two ways in which a request says who makes it.
#[derive(Debug)]
pub enum Authentication {
    /// A login and a password.
    Credentials(String, String),
    /// A token.
    Token(ApiKey),
}

/// What the store holds about a user, as far as authentication reads it.
#[derive(Debug)]
pub struct UserRecord {
    pub id: i64,
    pub login: String,
    /// The bcrypt hash of the user's password.
    pub password: String,
}

/// By what a user is looked up for an authentication.
#[derive(Debug)]
pub enum UserLookup {
    ByLogin(String),
    ByToken(String),
}

/// What bcrypt says of a password and a hash: `Some(true)` where the hash is that of the
/// password, `Some(false)` where it is the hash of another, `None` where it is no bcrypt
/// hash or the password cannot be hashed.
pub uninterp spec fn bcrypt_verify(password: Seq<char>, hash: Seq<char>) -> Option<bool>;

/// `bcrypt::verify`. Trusted: the answer is a function of the password and the hash alone;
/// an error of bcrypt is given as `None`. The hash has to be ASCII, as every bcrypt hash is:
/// on other text bcrypt may cut inside a character and panic.
#[verifier::external_body]
fn verify_password(password: &str, hash: &str) -> (r: Option<bool>)
    requires
        hash.is_ascii(),
    ensures
        r == bcrypt_verify(password@, hash@),
{
    bcrypt::verify(password, hash).ok()
}

/// `bcrypt::hash`. Trusted: the hash holds a salt that bcrypt draws at random, so nothing is
/// claimed of its text but what holds of every hash that bcrypt makes: it is ASCII, and
/// `bcrypt::verify` accepts the password that it was made of. `None` where bcrypt reports
/// an error, as it always does for a password that holds a NUL character. The cost has to
/// be one that bcrypt knows how to count.
#[verifier::external_body]
fn hash_password(password: &str, cost: u32) -> (r: Option<String>)
    requires
        4 <= cost <= 31,
    ensures
        r matches Some(hash) ==> password_matches(password@, hash@),
        password@.contains('\0') ==> r is None,
{
    bcrypt::hash(password, cost).ok()
}

/// `rand::Rng::gen_range` on the thread's generator. Trusted: the number drawn is below
/// `bound`.
#[verifier::external_body]
fn random_below(bound: usize) -> (r: usize)
    requires
        bound > 0,
    ensures
        r < bound,
{
    rand::Rng::gen_range(&mut rand::thread_rng(), 0, bound)
}

/// Whether a password is the one that a stored hash was made of.
pub open spec fn password_matches(password: Seq<char>, hash: Seq<char>) -> bool {
    vstd::utf8::is_ascii_chars(hash) && bcrypt_verify(password, hash) == Some(true)
}

/// The work factor of new password hashes.
pub const HASH_COST: u32 = 10;

/// How many characters a generated token has.
pub const KEY_LENGTH: u8 = 32;

/// The characters that a generated token is made of.
pub const KEY_CHARSET: &'static str = "ABCDEFGHIJKLMNOPQRSTUVWXYZabcdefghijklmnopqrstuvwxyz0123456789";

impl Authentication {
    /// Authentication by a token; none where there is no token.
    pub fn from_token(token: Option<&str>) -> (auth: Option<Authentication>)
        ensures
            token is None <==> auth is None,
            token matches Some(t) ==> auth matches Some(Authentication::Token(key)) && key.0@
                == t@,
    {
        match token {
            Some(t) => Some(Authentication::Token(ApiKey(String::from_str(t)))),
            None => None,
        }
    }

    /// Authentication by login and password.
    pub fn from_credentials(login: String, password: String) -> (auth: Option<Authentication>)
        ensures
            auth matches Some(Authentication::Credentials(l, p)) && l@ == login@ && p@
                == password@,
    {
        Some(Authentication::Credentials(login, password))
    }

    /// By what the store looks the user up.
    pub fn lookup(&self) -> (by: UserLookup)
        ensures
            match *self {
                Authentication::Credentials(login, _) => by matches UserLookup::ByLogin(l) && l@
                    == login@,
                Authentication::Token(key) => by matches UserLookup::ByToken(t) && t@ == key.0@,
            },
    {
        match self {
            Authentication::Credentials(login, _) => UserLookup::ByLogin(login.clone()),
            Authentication::Token(key) => UserLookup::ByToken(key.0.clone()),
        }
    }
}

/// What an authentication comes to, given the user that the store found for it.
pub open spec fn authenticated(
    auth: Option<Authentication>,
    found: Option<UserRecord>,
) -> Result<UserView, DBError> {
    match auth {
        None => Err(DBError::Unauthenticated),
        Some(a) => match found {
            None => Err(DBError::UnknownUser),
            Some(record) => {
                let user = UserView { id: record.id, login: lower_ascii(record.login@) };
                match a {
                    Authentication::Token(_) => Ok(user),
                    Authentication::Credentials(_, password) => if password_matches(
                        password@,
                        record.password@,
                    ) {
                        Ok(user)
                    } else {
                        Err(DBError::BadPassword)
                    },
                }
            },
        },
    }
}

/// Decides an authentication. `found` is the user that the store holds under the login or
/// the token that `auth` names (see [`Authentication::lookup`]). A request without
/// credentials is `Unauthenticated`; where the store found nobody the user is unknown; a
/// token needs no more; a password is held against the stored hash.
pub fn authenticate_user(auth: &Option<Authentication>, found: &Option<UserRecord>) -> (r:
    DBResult<User>)
    ensures
        r is Ok <==> authenticated(*auth, *found) is Ok,
        r matches Ok(user) ==> Ok::<UserView, DBError>(user@) == authenticated(*auth, *found),
        r matches Err(e) ==> Err::<UserView, DBError>(e) == authenticated(*auth, *found),
{
    match auth {
        None => Err(DBError::Unauthenticated),
        Some(a) => match found {
            None => Err(DBError::UnknownUser),
            Some(record) => match a {
                Authentication::Token(_) => Ok(User::new(record.id, record.login.as_str())),
                Authentication::Credentials(_, password) => {
                    let hash = record.password.as_str();
                    let good = if hash.is_ascii() {
                        match verify_password(password.as_str(), hash) {
                            Some(b) => b,
                            None => false,
                        }
                    } else {
                        false
                    };
                    if good {
                        Ok(User::new(record.id, record.login.as_str()))
                    } else {
                        Err(DBError::BadPassword)
                    }
                },
            },
        },
    }
}

/// What a user is told about their account, or that they are unknown where the store holds
/// no token for them.
pub fn user_info(user: User, token: Option<String>) -> (r: DBResult<UserInfo>)
    ensures
        token is None ==> r == Err::<UserInfo, DBError>(DBError::UnknownUser),
        token matches Some(t) ==> r matches Ok(info) && info.login@ == user@.login
            && info.token@ == t@,
{
    match token {
        Some(t) => Ok(UserInfo { login: user.login, token: t }),
        None => Err(DBError::UnknownUser),
    }
}

/// The record of a user with the identifier `id` and the login `login` whose password has
/// been hashed to `hashed`; `None` where there is no hash.
pub fn user_record_with_hash(id: i64, login: &str, hashed: Option<String>) -> (r: Option<
    UserRecord,
>)
    ensures
        r is Some <==> hashed is Some,
        r matches Some(record) ==> record.id == id && record.login@ == login@ && Some(
            record.password,
        ) == hashed,
{
    match hashed {
        Some(hash) => Some(UserRecord { id, login: String::from_str(login), password: hash }),
        None => None,
    }
}

/// The record of a new user: the login as given, and a fresh hash of the password, which
/// the password matches. Whether there is a hash is for bcrypt to say: `None` where the
/// password cannot be hashed.
pub fn new_user_record(id: i64, login: &str, password: &str) -> (r: Option<UserRecord>)
    ensures
        r matches Some(record) ==> record.id == id && record.login@ == login@
            && password_matches(password@, record.password@),
        password@.contains('\0') ==> r is None,
{
    user_record_with_hash(id, login, hash_password(password, HASH_COST))
}

/// Whether `c` may stand in a generated token.
pub open spec fn is_key_char(c: char) -> bool {
    KEY_CHARSET@.contains(c)
}

/// A random token of `len` characters, each a letter or a digit.
pub fn generate_key(len: u8) -> (key: String)
    ensures
        key@.len() == len,
        forall|i: int| 0 <= i < key@.len() ==> is_key_char(#[trigger] key@[i]),
{
    let size = KEY_CHARSET.unicode_len();
    proof {
        reveal_strlit("ABCDEFGHIJKLMNOPQRSTUVWXYZabcdefghijklmnopqrstuvwxyz0123456789");
        assert(KEY_CHARSET@.len() == 62);
    }
    let mut key = String::new();
    let mut i: u8 = 0;
    while i < len
        invariant
            i <= len,
            size == KEY_CHARSET@.len(),
            size == 62,
            key@.len() == i,
            forall|k: int| 0 <= k < key@.len() ==> is_key_char(#[trigger] key@[k]),
        decreases len - i,
    {
        let idx = random_below(size);
        let piece = KEY_CHARSET.substring_char(idx, idx + 1);
        proof {
            assert(piece@ =~= seq![KEY_CHARSET@[idx as int]]);
            assert(is_key_char(KEY_CHARSET@[idx as int]));
        }
        key.append(piece);
        i = i + 1;
    }
    key
}

} // verus!
