use vstd::prelude::*;
use crate::link::{Link, LinkView};
use crate::query::{DBLookupType, Query, QueryView, SqlParam, SqlParamView};
use crate::statements::{lookup_pattern, lookup_text};
use crate::utils::{clone_strings, path, path_spec, views};
use crate::version::Version;

verus! {

/// The bound value of an optional text: the text, or the store's null.
pub open spec fn text_or_null_view(text: Option<Seq<char>>) -> SqlParamView {
    match text {
        Some(t) => SqlParamView::Text(t),
        None => SqlParamView::Null,
    }
}

/// The bound value of an optional text.
pub fn text_or_null(text: &Option<String>) -> (value: SqlParam)
    ensures
        value@ == text_or_null_view(crate::link::opt_view(*text)),
{
    match text {
        Some(t) => SqlParam::Text(t.clone()),
        None => SqlParam::Null,
    }
}

/// The statement that writes a link for a user at a version: a new row, or, where the user
/// has a link at the same normalized path, new values in that row.
pub open spec fn upsert_link_statement(link: LinkView, version: int, user_id: i64) -> QueryView {
    QueryView::empty().with(
        "INSERT INTO links(href, name, description, hash, is_toread, is_shared, is_favourite, user_id, version) VALUES("@,
    ).with_param(
        ":href,"@,
        ":href"@,
        SqlParamView::Text(link.href),
    ).with_param(
        ":name,"@,
        ":name"@,
        SqlParamView::Text(link.name),
    ).with_param(
        ":description,"@,
        ":description"@,
        text_or_null_view(link.description),
    ).with_param(
        ":hash,"@,
        ":hash"@,
        text_or_null_view(link.hash),
    ).with_param(
        ":toread,"@,
        ":toread"@,
        SqlParamView::Bool(link.toread),
    ).with_param(
        ":shared,"@,
        ":shared"@,
        SqlParamView::Bool(link.shared),
    ).with_param(
        ":favourite,"@,
        ":favourite"@,
        SqlParamView::Bool(link.favourite),
    ).with_param(
        ":user_id,"@,
        ":user_id"@,
        SqlParamView::Int(user_id as int),
    ).with_param(
        ":version)"@,
        ":version"@,
        SqlParamView::Int(version),
    ).with(
        "ON CONFLICT(path(href), user_id) DO UPDATE SET href = :href, name = :name, description = :description, hash = :hash, is_toread = :toread, is_shared = :shared, is_favourite = :favourite, version = :version, updated_at = CURRENT_TIMESTAMP"@,
    )
}

/// Composes the statement that writes `link` for user `user_id` at `version`.
pub fn upsert_link_query(link: &Link, version: Version, user_id: i64) -> (query: Query)
    ensures
        query@ == upsert_link_statement(link@, version@, user_id),
{
    let mut query = Query::new_with_initial(
        "INSERT INTO links(href, name, description, hash, is_toread, is_shared, is_favourite, user_id, version) VALUES(",
    );
    query.concat_with_param(
        ":href,",
        (":href", SqlParam::Text(String::from_str(link.href.as_str()))),
    );
    query.concat_with_param(
        ":name,",
        (":name", SqlParam::Text(String::from_str(link.name.as_str()))),
    );
    query.concat_with_param(
        ":description,",
        (":description", text_or_null(&link.description)),
    );
    query.concat_with_param(
        ":hash,",
        (":hash", text_or_null(&link.hash)),
    );
    query.concat_with_param(
        ":toread,",
        (":toread", SqlParam::Bool(link.toread)),
    );
    query.concat_with_param(
        ":shared,",
        (":shared", SqlParam::Bool(link.shared)),
    );
    query.concat_with_param(
        ":favourite,",
        (":favourite", SqlParam::Bool(link.favourite)),
    );
    query.concat_with_param(
        ":user_id,",
        (":user_id", SqlParam::Int(user_id)),
    );
    query.concat_with_param(
        ":version)",
        (":version", SqlParam::Int(version.offset() as i64)),
    );
    query.concat(
        "ON CONFLICT(path(href), user_id) DO UPDATE SET href = :href, name = :name, description = :description, hash = :hash, is_toread = :toread, is_shared = :shared, is_favourite = :favourite, version = :version, updated_at = CURRENT_TIMESTAMP",
    );
    query
}

/// Composes the statement that asks at which version user `user_id` has the link at the
/// normalized path of `href` stored.
pub fn stored_version_query(user_id: i64, href: &str) -> (query: Query)
    ensures
        query@ == QueryView::empty().with(
            "SELECT version FROM links WHERE"@,
        ).with_param(
            "user_id = :user_id AND"@,
            ":user_id"@,
            SqlParamView::Int(user_id as int),
        ).with_param(
            "path(href) = :path"@,
            ":path"@,
            SqlParamView::Text(path_spec(href@)),
        ),
{
    let mut query = Query::new_with_initial(
        "SELECT version FROM links WHERE",
    );
    query.concat_with_param(
        "user_id = :user_id AND",
        (":user_id", SqlParam::Int(user_id)),
    );
    query.concat_with_param(
        "path(href) = :path",
        (":path", SqlParam::Text(path(href))),
    );
    query
}

/// Composes the statement that asks for the identifier and the time of creation of the link
/// of user `user_id` at the normalized path of `href`.
pub fn link_meta_query(user_id: i64, href: &str) -> (query: Query)
    ensures
        query@ == QueryView::empty().with(
            "SELECT id, datetime(created_at) FROM links WHERE"@,
        ).with_param(
            "user_id = :user_id AND"@,
            ":user_id"@,
            SqlParamView::Int(user_id as int),
        ).with_param(
            "path(href) = :path"@,
            ":path"@,
            SqlParamView::Text(path_spec(href@)),
        ),
{
    let mut query = Query::new_with_initial(
        "SELECT id, datetime(created_at) FROM links WHERE",
    );
    query.concat_with_param(
        "user_id = :user_id AND",
        (":user_id", SqlParam::Int(user_id)),
    );
    query.concat_with_param(
        "path(href) = :path",
        (":path", SqlParam::Text(path(href))),
    );
    query
}

/// Composes the statement that takes every tag off the link `link_id`.
pub fn clear_tags_query(link_id: i64) -> (query: Query)
    ensures
        query@ == QueryView::empty().with(
            "DELETE FROM links_tags WHERE"@,
        ).with_param(
            "link_id = :link_id"@,
            ":link_id"@,
            SqlParamView::Int(link_id as int),
        ),
{
    let mut query = Query::new_with_initial(
        "DELETE FROM links_tags WHERE",
    );
    query.concat_with_param(
        "link_id = :link_id",
        (":link_id", SqlParam::Int(link_id)),
    );
    query
}

/// Composes the statement that notes that user `user_id` has just used `tag`, a new tag or
/// a known one.
pub fn touch_tag_query(user_id: i64, tag: &str) -> (query: Query)
    ensures
        query@ == QueryView::empty().with(
            "INSERT INTO tags(tag, user_id) VALUES("@,
        ).with_param(
            ":tag,"@,
            ":tag"@,
            SqlParamView::Text(tag@),
        ).with_param(
            ":user_id)"@,
            ":user_id"@,
            SqlParamView::Int(user_id as int),
        ).with(
            "ON CONFLICT(tag, user_id) DO UPDATE SET used_at = CURRENT_TIMESTAMP"@,
        ),
{
    let mut query = Query::new_with_initial(
        "INSERT INTO tags(tag, user_id) VALUES(",
    );
    query.concat_with_param(
        ":tag,",
        (":tag", SqlParam::Text(String::from_str(tag))),
    );
    query.concat_with_param(
        ":user_id)",
        (":user_id", SqlParam::Int(user_id)),
    );
    query.concat(
        "ON CONFLICT(tag, user_id) DO UPDATE SET used_at = CURRENT_TIMESTAMP",
    );
    query
}

/// Composes the statement that puts the tags `tags` of user `user_id` on the link `link_id`.
pub fn join_tags_query(link_id: i64, user_id: i64, tags: &Vec<String>) -> (query: Query)
    ensures
        query@ == QueryView::empty().with(
            "INSERT INTO links_tags(link_id, tag_id) SELECT"@,
        ).with_param(
            ":link_id, id FROM tags WHERE"@,
            ":link_id"@,
            SqlParamView::Int(link_id as int),
        ).with_param(
            "tag IN rarray(:tags) AND"@,
            ":tags"@,
            SqlParamView::List(views(tags@)),
        ).with_param(
            "user_id = :user_id"@,
            ":user_id"@,
            SqlParamView::Int(user_id as int),
        ),
{
    let mut query = Query::new_with_initial(
        "INSERT INTO links_tags(link_id, tag_id) SELECT",
    );
    query.concat_with_param(
        ":link_id, id FROM tags WHERE",
        (":link_id", SqlParam::Int(link_id)),
    );
    query.concat_with_param(
        "tag IN rarray(:tags) AND",
        (":tags", SqlParam::List(clone_strings(tags))),
    );
    query.concat_with_param(
        "user_id = :user_id",
        (":user_id", SqlParam::Int(user_id)),
    );
    query
}

/// Composes the statement that fetches the link of user `user_id` at the normalized path of
/// `href`, with its tags grouped.
pub fn own_link_query(user_id: i64, href: &str) -> (query: Query)
    ensures
        query@ == QueryView::empty().with(
            "SELECT l.id, href, name, description, (SELECT group_concat(tag) FROM links_tags lt JOIN tags t ON lt.tag_id = t.id WHERE lt.link_id = l.id), is_toread, is_shared, is_favourite, datetime(l.created_at) FROM links l WHERE"@,
        ).with_param(
            "l.user_id = :user_id AND"@,
            ":user_id"@,
            SqlParamView::Int(user_id as int),
        ).with_param(
            "path(href) = :path"@,
            ":path"@,
            SqlParamView::Text(path_spec(href@)),
        ),
{
    let mut query = Query::new_with_initial(
        "SELECT l.id, href, name, description, (SELECT group_concat(tag) FROM links_tags lt JOIN tags t ON lt.tag_id = t.id WHERE lt.link_id = l.id), is_toread, is_shared, is_favourite, datetime(l.created_at) FROM links l WHERE",
    );
    query.concat_with_param(
        "l.user_id = :user_id AND",
        (":user_id", SqlParam::Int(user_id)),
    );
    query.concat_with_param(
        "path(href) = :path",
        (":path", SqlParam::Text(path(href))),
    );
    query
}

/// Composes the statement that deletes the link `link_id`.
pub fn delete_link_query(link_id: i64) -> (query: Query)
    ensures
        query@ == QueryView::empty().with(
            "DELETE FROM links WHERE"@,
        ).with_param(
            "id = :link_id"@,
            ":link_id"@,
            SqlParamView::Int(link_id as int),
        ),
{
    let mut query = Query::new_with_initial(
        "DELETE FROM links WHERE",
    );
    query.concat_with_param(
        "id = :link_id",
        (":link_id", SqlParam::Int(link_id)),
    );
    query
}

/// Composes the statement that marks the link `link_id` as read.
pub fn mark_read_query(link_id: i64) -> (query: Query)
    ensures
        query@ == QueryView::empty().with(
            "UPDATE links SET is_toread = FALSE, read_at = CURRENT_TIMESTAMP WHERE"@,
        ).with_param(
            "id = :link_id"@,
            ":link_id"@,
            SqlParamView::Int(link_id as int),
        ),
{
    let mut query = Query::new_with_initial(
        "UPDATE links SET is_toread = FALSE, read_at = CURRENT_TIMESTAMP WHERE",
    );
    query.concat_with_param(
        "id = :link_id",
        (":link_id", SqlParam::Int(link_id)),
    );
    query
}

/// Composes the statement that asks for the address of the link `link_id` of user `user_id`.
pub fn href_query(user_id: i64, link_id: i64) -> (query: Query)
    ensures
        query@ == QueryView::empty().with(
            "SELECT href FROM links WHERE"@,
        ).with_param(
            "id = :link_id AND"@,
            ":link_id"@,
            SqlParamView::Int(link_id as int),
        ).with_param(
            "user_id = :user_id"@,
            ":user_id"@,
            SqlParamView::Int(user_id as int),
        ),
{
    let mut query = Query::new_with_initial(
        "SELECT href FROM links WHERE",
    );
    query.concat_with_param(
        "id = :link_id AND",
        (":link_id", SqlParam::Int(link_id)),
    );
    query.concat_with_param(
        "user_id = :user_id",
        (":user_id", SqlParam::Int(user_id)),
    );
    query
}

/// Composes the statement that stores `text` under `name` for user `user_id`, in place of
/// what the user had under that name.
pub fn store_query_query(user_id: i64, name: &str, text: &str) -> (query: Query)
    ensures
        query@ == QueryView::empty().with(
            "INSERT INTO queries(user_id, name, query) VALUES("@,
        ).with_param(
            ":user_id,"@,
            ":user_id"@,
            SqlParamView::Int(user_id as int),
        ).with_param(
            ":name,"@,
            ":name"@,
            SqlParamView::Text(name@),
        ).with_param(
            ":query)"@,
            ":query"@,
            SqlParamView::Text(text@),
        ).with(
            "ON CONFLICT(user_id, name) DO UPDATE SET name = :name, query = :query, created_at = CURRENT_TIMESTAMP"@,
        ),
{
    let mut query = Query::new_with_initial(
        "INSERT INTO queries(user_id, name, query) VALUES(",
    );
    query.concat_with_param(
        ":user_id,",
        (":user_id", SqlParam::Int(user_id)),
    );
    query.concat_with_param(
        ":name,",
        (":name", SqlParam::Text(String::from_str(name))),
    );
    query.concat_with_param(
        ":query)",
        (":query", SqlParam::Text(String::from_str(text))),
    );
    query.concat(
        "ON CONFLICT(user_id, name) DO UPDATE SET name = :name, query = :query, created_at = CURRENT_TIMESTAMP",
    );
    query
}

/// Composes the statement that asks for the identifier of the query that user `user_id` has
/// stored under `name`.
pub fn query_id_query(user_id: i64, name: &str) -> (query: Query)
    ensures
        query@ == QueryView::empty().with(
            "SELECT id FROM queries WHERE"@,
        ).with_param(
            "user_id = :user_id AND"@,
            ":user_id"@,
            SqlParamView::Int(user_id as int),
        ).with_param(
            "name = :name"@,
            ":name"@,
            SqlParamView::Text(name@),
        ),
{
    let mut query = Query::new_with_initial(
        "SELECT id FROM queries WHERE",
    );
    query.concat_with_param(
        "user_id = :user_id AND",
        (":user_id", SqlParam::Int(user_id)),
    );
    query.concat_with_param(
        "name = :name",
        (":name", SqlParam::Text(String::from_str(name))),
    );
    query
}

/// Composes the statement that deletes the stored query `query_id`.
pub fn delete_query_query(query_id: i64) -> (query: Query)
    ensures
        query@ == QueryView::empty().with(
            "DELETE FROM queries WHERE"@,
        ).with_param(
            "id = :query_id"@,
            ":query_id"@,
            SqlParamView::Int(query_id as int),
        ),
{
    let mut query = Query::new_with_initial(
        "DELETE FROM queries WHERE",
    );
    query.concat_with_param(
        "id = :query_id",
        (":query_id", SqlParam::Int(query_id)),
    );
    query
}

/// Composes the statement that fetches the user with the login `login`.
pub fn user_by_login_query(login: &str) -> (query: Query)
    ensures
        query@ == QueryView::empty().with(
            "SELECT id, login, password FROM users WHERE"@,
        ).with_param(
            "login = :login"@,
            ":login"@,
            SqlParamView::Text(login@),
        ),
{
    let mut query = Query::new_with_initial(
        "SELECT id, login, password FROM users WHERE",
    );
    query.concat_with_param(
        "login = :login",
        (":login", SqlParam::Text(String::from_str(login))),
    );
    query
}

/// Composes the statement that fetches the user with the token `token`.
pub fn user_by_token_query(token: &str) -> (query: Query)
    ensures
        query@ == QueryView::empty().with(
            "SELECT id, login, password FROM users WHERE"@,
        ).with_param(
            "api_key = :token"@,
            ":token"@,
            SqlParamView::Text(token@),
        ),
{
    let mut query = Query::new_with_initial(
        "SELECT id, login, password FROM users WHERE",
    );
    query.concat_with_param(
        "api_key = :token",
        (":token", SqlParam::Text(String::from_str(token))),
    );
    query
}

/// Composes the statement that asks for the token of user `user_id`.
pub fn api_key_query(user_id: i64) -> (query: Query)
    ensures
        query@ == QueryView::empty().with(
            "SELECT api_key FROM users WHERE"@,
        ).with_param(
            "id = :user_id"@,
            ":user_id"@,
            SqlParamView::Int(user_id as int),
        ),
{
    let mut query = Query::new_with_initial(
        "SELECT api_key FROM users WHERE",
    );
    query.concat_with_param(
        "id = :user_id",
        (":user_id", SqlParam::Int(user_id)),
    );
    query
}

/// Composes the statement that adds a user with the login `login` and the password hash
/// `hash`.
pub fn add_user_query(login: &str, hash: &str) -> (query: Query)
    ensures
        query@ == QueryView::empty().with(
            "INSERT INTO users(login, password) VALUES("@,
        ).with_param(
            ":login,"@,
            ":login"@,
            SqlParamView::Text(login@),
        ).with_param(
            ":password)"@,
            ":password"@,
            SqlParamView::Text(hash@),
        ),
{
    let mut query = Query::new_with_initial(
        "INSERT INTO users(login, password) VALUES(",
    );
    query.concat_with_param(
        ":login,",
        (":login", SqlParam::Text(String::from_str(login))),
    );
    query.concat_with_param(
        ":password)",
        (":password", SqlParam::Text(String::from_str(hash))),
    );
    query
}

/// Composes the statement that gives user `user_id` the password hash `hash`.
pub fn set_password_query(user_id: i64, hash: &str) -> (query: Query)
    ensures
        query@ == QueryView::empty().with(
            "UPDATE users SET"@,
        ).with_param(
            "password = :password WHERE"@,
            ":password"@,
            SqlParamView::Text(hash@),
        ).with_param(
            "id = :user_id"@,
            ":user_id"@,
            SqlParamView::Int(user_id as int),
        ),
{
    let mut query = Query::new_with_initial(
        "UPDATE users SET",
    );
    query.concat_with_param(
        "password = :password WHERE",
        (":password", SqlParam::Text(String::from_str(hash))),
    );
    query.concat_with_param(
        "id = :user_id",
        (":user_id", SqlParam::Int(user_id)),
    );
    query
}

/// Composes the statement that gives user `user_id` the token `key`.
pub fn set_api_key_query(user_id: i64, key: &str) -> (query: Query)
    ensures
        query@ == QueryView::empty().with(
            "UPDATE users SET"@,
        ).with_param(
            "api_key = :key WHERE"@,
            ":key"@,
            SqlParamView::Text(key@),
        ).with_param(
            "id = :user_id"@,
            ":user_id"@,
            SqlParamView::Int(user_id as int),
        ),
{
    let mut query = Query::new_with_initial(
        "UPDATE users SET",
    );
    query.concat_with_param(
        "api_key = :key WHERE",
        (":key", SqlParam::Text(String::from_str(key))),
    );
    query.concat_with_param(
        "id = :user_id",
        (":user_id", SqlParam::Int(user_id)),
    );
    query
}

/// Composes the statement that deletes user `user_id`.
pub fn delete_user_query(user_id: i64) -> (query: Query)
    ensures
        query@ == QueryView::empty().with(
            "DELETE FROM users WHERE"@,
        ).with_param(
            "id = :user_id"@,
            ":user_id"@,
            SqlParamView::Int(user_id as int),
        ),
{
    let mut query = Query::new_with_initial(
        "DELETE FROM users WHERE",
    );
    query.concat_with_param(
        "id = :user_id",
        (":user_id", SqlParam::Int(user_id)),
    );
    query
}

/// Composes the statement that lists the users whose login is `pattern` (exact lookup) or
/// holds it (patterned lookup), each with the number of their links.
pub fn find_users_query(pattern: &str, lookup_type: DBLookupType) -> (query: Query)
    ensures
        query@ == QueryView::empty().with(
            "SELECT u.id, login, count(l.id) FROM users u LEFT JOIN links l ON l.user_id = u.id WHERE"@,
        ).with_param(
            "fits(:login, login) GROUP BY login"@,
            ":login"@,
            SqlParamView::Text(lookup_text(pattern@, lookup_type)),
        ),
{
    let mut query = Query::new_with_initial(
        "SELECT u.id, login, count(l.id) FROM users u LEFT JOIN links l ON l.user_id = u.id WHERE",
    );
    query.concat_with_param(
        "fits(:login, login) GROUP BY login",
        (":login", SqlParam::Text(lookup_pattern(pattern, lookup_type))),
    );
    query
}

/// Composes the statement that asks the ledger for its newest entry: the schema version and
/// the version of the application that applied it.
pub fn schema_state_query() -> (query: Query)
    ensures
        query@ == QueryView::empty().with(
            "SELECT version, app_semver FROM migrations ORDER BY version DESC LIMIT 1"@,
        ),
{
    Query::new_with_initial(
        "SELECT version, app_semver FROM migrations ORDER BY version DESC LIMIT 1",
    )
}

} // verus!
