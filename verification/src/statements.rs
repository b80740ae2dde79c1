use vstd::prelude::*;
use crate::link::{Link, LinkView, Tag};
use crate::query::{DBLookupType, Query, QueryView, SqlParam, SqlParamView};
use crate::tags::{classify_spec, classify_tags, TagFacetView};
use crate::utils::{clone_strings, join_seq, join_strings, path, path_spec, views};
use crate::version::Version;

verus! {

/// How many links a search returns where the caller names no limit.
pub const DEFAULT_LINK_LIMIT: u16 = 10;

/// How many tags a look at the recent tags returns where the caller names no limit.
pub const DEFAULT_TAG_LIMIT: u16 = 8;

pub const SELECT_LINKS: &'static str =
    "SELECT l.id, href, name, description, group_concat(tag) AS tagz, is_toread, is_shared, is_favourite, datetime(l.created_at) FROM links l LEFT JOIN links_tags lt ON l.id = lt.link_id LEFT JOIN tags t ON lt.tag_id = t.id WHERE";

pub const VERSION_FLOOR: &'static str = "version >= :version AND";

pub const TEXT_ANYWHERE: &'static str =
    "(fits(:name, name) OR fits(:name, href) OR (description IS NOT NULL AND fits(:name, description))) AND";

pub const TEXT_IN_TITLE_OR_NOTES: &'static str =
    "(fits(:name, name) OR (description IS NOT NULL AND fits(:name, description))) AND";

pub const PATH_IS: &'static str = "path(href) = :href AND";

pub const PATH_HOLDS: &'static str = "instr(path(href), :href) > 0 AND";

pub const ONLY_TOREAD: &'static str = "l.is_toread = TRUE AND";

pub const ONLY_FAVOURITE: &'static str = "l.is_favourite = TRUE AND";

pub const OWN_OR_SHARED: &'static str = "(l.user_id = :id OR l.is_shared) GROUP BY l.id";

pub const HAVING: &'static str = "HAVING";

pub const ANY_OPTIONAL: &'static str =
    "l.id IN (SELECT link_id FROM links_tags lt2 JOIN tags t2 ON lt2.tag_id = t2.id AND t2.tag IN rarray(:tags)) AND";

pub const ALL_REQUIRED: &'static str = "LENGTH(tagz) > 0 AND every(tagz, :reqs) AND";

pub const NONE_EXCLUDED: &'static str = "(tagz IS NULL OR some(tagz, :excls) = FALSE) AND";

pub const HAVING_END: &'static str = "1=1";

pub const FAVOURITES_THEN_NEWEST: &'static str =
    "ORDER BY l.is_favourite DESC, l.created_at DESC, l.id DESC";

pub const LIMIT: &'static str = "LIMIT :limit";

/// The number of results asked for: the caller's limit, or the default where the caller
/// names none or names zero.
pub open spec fn effective_limit(limit: Option<u16>, default: u16) -> u16 {
    match limit {
        Some(n) => if n > 0 {
            n
        } else {
            default
        },
        None => default,
    }
}

/// The number of results asked for.
pub fn limit_or(limit: Option<u16>, default: u16) -> (n: u16)
    ensures
        n == effective_limit(limit, default),
{
    match limit {
        Some(n) => if n > 0 {
            n
        } else {
            default
        },
        None => default,
    }
}

/// The text that a lookup of `text` binds: `text` itself for an exact lookup, `text` between
/// two `%` for a patterned one.
pub open spec fn lookup_text(text: Seq<char>, lookup_type: DBLookupType) -> Seq<char> {
    match lookup_type {
        DBLookupType::Exact => text,
        DBLookupType::Patterned => "%"@ + text + "%"@,
    }
}

/// The text that a lookup of `text` binds.
pub fn lookup_pattern(text: &str, lookup_type: DBLookupType) -> (r: String)
    ensures
        r@ == lookup_text(text@, lookup_type),
{
    match lookup_type {
        DBLookupType::Exact => String::from_str(text),
        DBLookupType::Patterned => Query::patternize(text),
    }
}

/// The part of a link search that restricts it to versions from `version` on. An unknown
/// version restricts nothing.
pub open spec fn version_clause(q: QueryView, version: int) -> QueryView {
    if version >= 0 {
        q.with_param(VERSION_FLOOR@, ":version"@, SqlParamView::Int(version))
    } else {
        q
    }
}

/// The part of a link search that looks for the pattern's title in title and notes, and in
/// the address too where the pattern gives no address of its own. `fits` is
/// [`crate::utils::like`], which the store knows under that name.
pub open spec fn text_clause(q: QueryView, pattern: LinkView) -> QueryView {
    let name = SqlParamView::Text("%"@ + pattern.name + "%"@);
    if path_spec(pattern.href).len() == 0 {
        q.with_param(TEXT_ANYWHERE@, ":name"@, name)
    } else {
        q.with_param(TEXT_IN_TITLE_OR_NOTES@, ":name"@, name)
    }
}

/// The part of a link search that compares normalized paths: the link's path is the
/// pattern's (exact lookup) or holds it (patterned lookup). An empty path restricts
/// nothing.
pub open spec fn path_clause(
    q: QueryView,
    pattern: LinkView,
    lookup_type: DBLookupType,
) -> QueryView {
    let href = path_spec(pattern.href);
    if href.len() == 0 {
        q
    } else {
        match lookup_type {
            DBLookupType::Exact => q.with_param(PATH_IS@, ":href"@, SqlParamView::Text(href)),
            DBLookupType::Patterned => q.with_param(
                PATH_HOLDS@,
                ":href"@,
                SqlParamView::Text(href),
            ),
        }
    }
}

/// The part of a link search that asks for the flags that the pattern sets, and for links
/// that the user owns or that are shared.
pub open spec fn flags_clause(q: QueryView, pattern: LinkView, user_id: i64) -> QueryView {
    let q1 = if pattern.toread {
        q.with(ONLY_TOREAD@)
    } else {
        q
    };
    let q2 = if pattern.favourite {
        q1.with(ONLY_FAVOURITE@)
    } else {
        q1
    };
    q2.with_param(OWN_OR_SHARED@, ":id"@, SqlParamView::Int(user_id as int))
}

/// The part of a link search that holds the links' grouped tags against a facet. Each kind
/// of tag adds its test only where the facet has tags of that kind, and a facet without
/// tags adds nothing.
pub open spec fn facet_clause(q: QueryView, facet: TagFacetView) -> QueryView {
    if facet.optional.len() == 0 && facet.required.len() == 0 && facet.excluded.len() == 0 {
        q
    } else {
        let q0 = q.with(HAVING@);
        let q1 = if facet.optional.len() > 0 {
            q0.with_param(ANY_OPTIONAL@, ":tags"@, SqlParamView::List(facet.optional))
        } else {
            q0
        };
        let q2 = if facet.required.len() > 0 {
            q1.with_param(
                ALL_REQUIRED@,
                ":reqs"@,
                SqlParamView::Text(join_seq(facet.required, ","@)),
            )
        } else {
            q1
        };
        let q3 = if facet.excluded.len() > 0 {
            q2.with_param(
                NONE_EXCLUDED@,
                ":excls"@,
                SqlParamView::Text(join_seq(facet.excluded, ","@)),
            )
        } else {
            q2
        };
        q3.with(HAVING_END@)
    }
}

/// The tag tokens of a pattern; none where it has no tags.
pub open spec fn pattern_tokens(pattern: LinkView) -> Seq<Seq<char>> {
    match pattern.tags {
        Some(t) => t,
        None => Seq::empty(),
    }
}

/// The statement that finds a user's links: the clauses above in their order, then the
/// order of the results, favourites first and the newest first among equals, and the limit.
pub open spec fn find_links_statement(
    pattern: LinkView,
    lookup_type: DBLookupType,
    version: int,
    limit: Option<u16>,
    user_id: i64,
) -> QueryView {
    let q0 = QueryView::empty().with(SELECT_LINKS@);
    let q1 = version_clause(q0, version);
    let q2 = text_clause(q1, pattern);
    let q3 = path_clause(q2, pattern, lookup_type);
    let q4 = flags_clause(q3, pattern, user_id);
    let q5 = facet_clause(q4, classify_spec(pattern_tokens(pattern)));
    q5.with(FAVOURITES_THEN_NEWEST@).with_param(
        LIMIT@,
        ":limit"@,
        SqlParamView::Int(effective_limit(limit, DEFAULT_LINK_LIMIT) as int),
    )
}

/// Composes the statement that finds the links of user `user_id` that match `pattern`.
/// Every value of the pattern travels as a bound parameter.
pub fn find_links_query(
    pattern: &Link,
    lookup_type: DBLookupType,
    version: Version,
    limit: Option<u16>,
    user_id: i64,
) -> (query: Query)
    ensures
        query@ == find_links_statement(pattern@, lookup_type, version@, limit, user_id),
{
    let mut query = Query::new_with_initial(SELECT_LINKS);
    let tags: Vec<Tag> = match &pattern.tags {
        Some(t) => clone_strings(t),
        None => Vec::new(),
    };
    proof {
        assert(views(tags@) =~= pattern_tokens(pattern@));
    }
    let path = path(pattern.href.as_str());
    let name = Query::patternize(pattern.name.as_str());
    let limit = limit_or(limit, DEFAULT_LINK_LIMIT);

    if version.is_valid() {
        query.concat_with_param(VERSION_FLOOR, (":version", SqlParam::Int(version.offset() as i64)));
    }
    if path.as_str().unicode_len() == 0 {
        query.concat_with_param(TEXT_ANYWHERE, (":name", SqlParam::Text(name)));
    } else {
        query.concat_with_param(TEXT_IN_TITLE_OR_NOTES, (":name", SqlParam::Text(name)));
        match lookup_type {
            DBLookupType::Exact => {
                query.concat_with_param(PATH_IS, (":href", SqlParam::Text(path)));
            },
            DBLookupType::Patterned => {
                query.concat_with_param(PATH_HOLDS, (":href", SqlParam::Text(path)));
            },
        }
    }
    if pattern.toread {
        query.concat(ONLY_TOREAD);
    }
    if pattern.favourite {
        query.concat(ONLY_FAVOURITE);
    }
    query.concat_with_param(OWN_OR_SHARED, (":id", SqlParam::Int(user_id)));

    let (optional, required, excluded) = classify_tags(tags);
    let has_optional = optional.len() > 0;
    let has_required = required.len() > 0;
    let has_excluded = excluded.len() > 0;
    assert(views(optional@).len() == optional@.len());
    assert(views(required@).len() == required@.len());
    assert(views(excluded@).len() == excluded@.len());
    if has_optional || has_required || has_excluded {
        query.concat(HAVING);
        if has_optional {
            query.concat_with_param(ANY_OPTIONAL, (":tags", SqlParam::List(optional)));
        }
        if has_required {
            let required = join_strings(&required, ",");
            query.concat_with_param(ALL_REQUIRED, (":reqs", SqlParam::Text(required)));
        }
        if has_excluded {
            let excluded = join_strings(&excluded, ",");
            query.concat_with_param(NONE_EXCLUDED, (":excls", SqlParam::Text(excluded)));
        }
        query.concat(HAVING_END);
    }
    query.concat(FAVOURITES_THEN_NEWEST);
    query.concat_with_param(LIMIT, (":limit", SqlParam::Int(limit as i64)));
    query
}

} // verus!
