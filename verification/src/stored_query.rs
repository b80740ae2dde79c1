use vstd::prelude::*;
use crate::query::{DBLookupType, Query, QueryView, SqlParam, SqlParamView};
use crate::statements::{lookup_pattern, lookup_text, DEFAULT_TAG_LIMIT};
use crate::error::{DBError, DBResult};
use crate::user::User;
use crate::utils::{clone_strings, like, like_spec, views};

verus! {

/// A query in the query language that a user has saved under a name.
#[derive(Debug)]
pub struct StoredQuery {
    pub id: Option<i64>,
    pub name: String,
    pub query: String,
}

impl StoredQuery {
    pub fn new(id: Option<i64>, name: String, query: String) -> (q: StoredQuery)
        ensures
            q.id == id,
            q.name@ == name@,
            q.query@ == query@,
    {
        StoredQuery { id, name, query }
    }
}

/// A saved search, the older name of a stored query.
#[derive(Debug)]
pub struct Search {
    pub id: Option<i64>,
    pub name: String,
    pub query: String,
}

impl Search {
    pub fn new(id: Option<i64>, name: String, query: String) -> (q: Search)
        ensures
            q.id == id,
            q.name@ == name@,
            q.query@ == query@,
    {
        Search { id, name, query }
    }
}

pub const SELECT_QUERIES: &'static str =
    "SELECT s.id, name, query FROM queries s INNER JOIN users u ON s.user_id = u.id WHERE";

pub const QUERY_OWNER: &'static str = "u.id = :id AND";

pub const QUERY_NAME: &'static str = "fits(:name, name) ORDER BY s.created_at DESC, s.id DESC";

pub const SELECT_QUERY: &'static str = "SELECT id, name, query FROM queries WHERE";

pub const QUERY_ID: &'static str = "id = :sid AND";

pub const QUERY_USER: &'static str = "user_id = :uid";

pub const SELECT_TAGS: &'static str = "SELECT tag FROM tags";

pub const TAG_OWNER: &'static str = "WHERE user_id = :id AND";

pub const TAG_LIKE: &'static str = "fits(:pattern, tag) AND";

pub const TAG_NOT_IN: &'static str = "tag NOT IN rarray(:excludes)";

pub const TAG_RECENT: &'static str = "ORDER BY used_at DESC LIMIT :limit";

/// The text that a lookup of a name binds; nothing for no name.
pub open spec fn name_text(name: Option<&str>, lookup_type: DBLookupType) -> Seq<char> {
    match name {
        Some(n) => lookup_text(n@, lookup_type),
        None => Seq::<char>::empty(),
    }
}

/// The statement that finds a user's stored queries by name, the newest first.
pub open spec fn find_queries_statement(
    user_id: i64,
    name: Option<&str>,
    lookup_type: DBLookupType,
) -> QueryView {
    QueryView::empty().with(SELECT_QUERIES@).with_param(
        QUERY_OWNER@,
        ":id"@,
        SqlParamView::Int(user_id as int),
    ).with_param(QUERY_NAME@, ":name"@, SqlParamView::Text(name_text(name, lookup_type)))
}

/// Composes the statement that finds the stored queries of user `user_id` whose name is
/// `name` (exact lookup) or holds it (patterned lookup).
pub fn find_queries_query(user_id: i64, name: Option<&str>, lookup_type: DBLookupType) -> (query:
    Query)
    ensures
        query@ == find_queries_statement(user_id, name, lookup_type),
{
    let name = match name {
        Some(n) => lookup_pattern(n, lookup_type),
        None => String::new(),
    };
    let mut query = Query::new_with_initial(SELECT_QUERIES);
    query.concat_with_param(QUERY_OWNER, (":id", SqlParam::Int(user_id)));
    query.concat_with_param(QUERY_NAME, (":name", SqlParam::Text(name)));
    query
}

/// The statement that fetches one stored query of a user by its identifier.
pub open spec fn get_query_statement(user_id: i64, query_id: i64) -> QueryView {
    QueryView::empty().with(SELECT_QUERY@).with_param(
        QUERY_ID@,
        ":sid"@,
        SqlParamView::Int(query_id as int),
    ).with_param(QUERY_USER@, ":uid"@, SqlParamView::Int(user_id as int))
}

/// Composes the statement that fetches the stored query `query_id` of user `user_id`.
pub fn get_query_query(user_id: i64, query_id: i64) -> (query: Query)
    ensures
        query@ == get_query_statement(user_id, query_id),
{
    let mut query = Query::new_with_initial(SELECT_QUERY);
    query.concat_with_param(QUERY_ID, (":sid", SqlParam::Int(query_id)));
    query.concat_with_param(QUERY_USER, (":uid", SqlParam::Int(user_id)));
    query
}

/// The tags left out of a look at the recent tags; none where none are named.
pub open spec fn excluded_tags(exclude: Option<Vec<String>>) -> Seq<Seq<char>> {
    match exclude {
        Some(e) => views(e@),
        None => Seq::empty(),
    }
}

/// The statement that lists a user's tags by recency.
pub open spec fn recent_tags_statement(
    user_id: i64,
    pattern: Option<&str>,
    exclude: Option<Vec<String>>,
    limit: Option<u16>,
) -> QueryView {
    QueryView::empty().with(SELECT_TAGS@).with_param(
        TAG_OWNER@,
        ":id"@,
        SqlParamView::Int(user_id as int),
    ).with_param(
        TAG_LIKE@,
        ":pattern"@,
        SqlParamView::Text(
            "%"@ + (match pattern {
                Some(p) => p@,
                None => Seq::<char>::empty(),
            }) + "%"@,
        ),
    ).with_param(TAG_NOT_IN@, ":excludes"@, SqlParamView::List(excluded_tags(exclude))).with_param(
        TAG_RECENT@,
        ":limit"@,
        SqlParamView::Int(
            (match limit {
                Some(n) => n,
                None => DEFAULT_TAG_LIMIT,
            }) as int,
        ),
    )
}

/// Composes the statement that lists the tags of user `user_id` that hold `pattern` and
/// are not among `exclude`, the most recently used first, at most `limit` of them, eight
/// where no limit is given.
pub fn recent_tags_query(
    user_id: i64,
    pattern: Option<&str>,
    exclude: &Option<Vec<String>>,
    limit: Option<u16>,
) -> (query: Query)
    ensures
        query@ == recent_tags_statement(user_id, pattern, *exclude, limit),
{
    let pattern = match pattern {
        Some(p) => Query::patternize(p),
        None => {
            proof {
                reveal_strlit("");
                assert("%"@ + ""@ + "%"@ =~= "%"@ + Seq::<char>::empty() + "%"@);
            }
            Query::patternize("")
        },
    };
    let excludes: Vec<String> = match exclude {
        Some(e) => clone_strings(e),
        None => {
            let none: Vec<String> = Vec::new();
            proof {
                assert(views(none@) =~= Seq::<Seq<char>>::empty());
            }
            none
        },
    };
    let limit = match limit {
        Some(n) => n,
        None => DEFAULT_TAG_LIMIT,
    };
    let mut query = Query::new_with_initial(SELECT_TAGS);
    query.concat_with_param(TAG_OWNER, (":id", SqlParam::Int(user_id)));
    query.concat_with_param(TAG_LIKE, (":pattern", SqlParam::Text(pattern)));
    query.concat_with_param(TAG_NOT_IN, (":excludes", SqlParam::List(excludes)));
    query.concat_with_param(TAG_RECENT, (":limit", SqlParam::Int(limit as i64)));
    query
}

/// A stored query as the register keeps it, under its owner.
#[derive(Debug)]
pub struct SavedQuery {
    pub owner: i64,
    pub id: i64,
    pub name: String,
    pub query: String,
}

/// A kept query, as mathematical values.
pub ghost struct SavedQueryView {
    pub owner: i64,
    pub id: i64,
    pub name: Seq<char>,
    pub query: Seq<char>,
}

impl View for SavedQuery {
    type V = SavedQueryView;

    open spec fn view(&self) -> SavedQueryView {
        SavedQueryView { owner: self.owner, id: self.id, name: self.name@, query: self.query@ }
    }
}

/// The views of a list of kept queries.
pub open spec fn saved_views(rows: Seq<SavedQuery>) -> Seq<SavedQueryView> {
    Seq::new(rows.len(), |i: int| rows[i]@)
}

/// What the register holds.
pub ghost struct SavedQueriesView {
    /// The queries of all owners; the one stored last stands last.
    pub rows: Seq<SavedQueryView>,
    /// The identifier that the next new query gets.
    pub next_id: int,
}

/// Whether the row at `i` is the query that `owner` stored under `name`.
pub open spec fn named_at(rows: Seq<SavedQueryView>, owner: i64, name: Seq<char>, i: int) -> bool {
    0 <= i < rows.len() && rows[i].owner == owner && rows[i].name == name
}

/// Whether the row at `i` is the first query of `owner` with the identifier `id`.
pub open spec fn first_with_id(rows: Seq<SavedQueryView>, owner: i64, id: i64, i: int) -> bool {
    &&& 0 <= i < rows.len()
    &&& rows[i].owner == owner
    &&& rows[i].id == id
    &&& forall|k: int| 0 <= k < i ==> !((#[trigger] rows[k]).owner == owner && rows[k].id == id)
}

/// The queries of `owner` whose name fits `wanted`, the one stored last first.
pub open spec fn matching_queries(rows: Seq<SavedQueryView>, owner: i64, wanted: Seq<char>) -> Seq<
    SavedQueryView,
>
    decreases rows.len(),
{
    if rows.len() == 0 {
        Seq::<SavedQueryView>::empty()
    } else {
        let older = matching_queries(rows.drop_last(), owner, wanted);
        if rows.last().owner == owner && like_spec(wanted, rows.last().name) {
            seq![rows.last()] + older
        } else {
            older
        }
    }
}

impl SavedQueriesView {
    /// What holds of every register: an owner has at most one query under a name.
    pub open spec fn wf(self) -> bool {
        &&& forall|i: int, j: int|
            0 <= i < j < self.rows.len() ==> !((#[trigger] self.rows[i]).owner == (
            #[trigger] self.rows[j]).owner && self.rows[i].name == self.rows[j].name)
        &&& 1 <= self.next_id <= i64::MAX
    }
}

/// The register of stored queries: for every owner, queries in the query language under
/// names of the owner's choice.
pub struct SavedQueries {
    rows: Vec<SavedQuery>,
    next_id: i64,
}

impl View for SavedQueries {
    type V = SavedQueriesView;

    closed spec fn view(&self) -> SavedQueriesView {
        SavedQueriesView { rows: saved_views(self.rows@), next_id: self.next_id as int }
    }
}

/// What a stored query shows of a kept one.
pub open spec fn shown(q: StoredQuery, row: SavedQueryView) -> bool {
    q.id == Some(row.id) && q.name@ == row.name && q.query@ == row.query
}

impl SavedQueries {
    /// A register without queries.
    pub fn new() -> (register: SavedQueries)
        ensures
            register@.wf(),
            register@.rows.len() == 0,
            register@.next_id == 1,
    {
        SavedQueries { rows: Vec::new(), next_id: 1 }
    }

    /// Stores `query` under `name` for the authenticated user and returns its identifier.
    /// A query that the user already has under that name is replaced and keeps its
    /// identifier; either way the query is now the user's newest. Where authentication
    /// failed its error is returned, and `Sqlite` where no identifier is left; then nothing
    /// changes.
    pub fn store_query(&mut self, auth: &DBResult<User>, name: String, query: String) -> (r:
        DBResult<i64>)
        requires
            old(self)@.wf(),
        ensures
            final(self)@.wf(),
            auth matches Err(e) ==> r == Err::<i64, DBError>(*e) && final(self)@ == old(self)@,
            auth matches Ok(user) ==> {
                let rows = old(self)@.rows;
                let known = exists|i: int| named_at(rows, user.id, name@, i);
                &&& r is Ok <==> known || old(self)@.next_id < i64::MAX
                &&& r matches Err(e) ==> e == DBError::Sqlite && final(self)@ == old(self)@
                &&& r matches Ok(id) ==> {
                    let kept = SavedQueryView { owner: user.id, id, name: name@, query: query@ };
                    if known {
                        let at = choose|i: int| named_at(rows, user.id, name@, i);
                        &&& id == rows[at].id
                        &&& final(self)@.rows == rows.remove(at).push(kept)
                        &&& final(self)@.next_id == old(self)@.next_id
                    } else {
                        &&& id == old(self)@.next_id
                        &&& final(self)@.rows == rows.push(kept)
                        &&& final(self)@.next_id == old(self)@.next_id + 1
                    }
                }
            },
    {
        let user = match auth {
            Err(e) => {
                return Err(*e);
            },
            Ok(user) => user,
        };
        let ghost rows = self@.rows;
        let mut i: usize = 0;
        let mut hit = false;
        while i < self.rows.len() && !hit
            invariant
                i <= self.rows.len(),
                rows == self@.rows,
                forall|k: int| 0 <= k < i ==> !named_at(rows, user.id, name@, k),
                hit ==> i < self.rows.len() && named_at(rows, user.id, name@, i as int),
            decreases self.rows.len() - i + (if hit { 0int } else { 1int }),
        {
            if self.rows[i].owner == user.id && self.rows[i].name == name {
                hit = true;
            } else {
                i = i + 1;
            }
        }
        if hit {
            proof {
                assert(named_at(rows, user.id, name@, i as int));
                let at = choose|k: int| named_at(rows, user.id, name@, k);
                if at < i {
                    assert(!named_at(rows, user.id, name@, at));
                } else if i < at {
                    assert(!(rows[i as int].owner == rows[at].owner && rows[i as int].name
                        == rows[at].name));
                }
            }
            let old_row = self.rows.remove(i);
            let id = old_row.id;
            self.rows.push(SavedQuery { owner: user.id, id, name, query });
            proof {
                let kept = SavedQueryView { owner: user.id, id, name: name@, query: query@ };
                let after = rows.remove(i as int).push(kept);
                assert(self@.rows =~= after);
                assert forall|a: int, b: int| 0 <= a < b < after.len() implies !((
                #[trigger] after[a]).owner == (#[trigger] after[b]).owner && after[a].name
                    == after[b].name) by {
                    let a0 = if a < i {
                        a
                    } else {
                        a + 1
                    };
                    assert(after[a] == rows[a0]);
                    if b < after.len() - 1 {
                        let b0 = if b < i {
                            b
                        } else {
                            b + 1
                        };
                        assert(after[b] == rows[b0]);
                        assert(!(rows[a0].owner == rows[b0].owner && rows[a0].name
                            == rows[b0].name));
                    } else {
                        if a0 < i {
                            assert(!(rows[a0].owner == rows[i as int].owner && rows[a0].name
                                == rows[i as int].name));
                        } else {
                            assert(!(rows[i as int].owner == rows[a0].owner
                                && rows[i as int].name == rows[a0].name));
                        }
                    }
                }
            }
            Ok(id)
        } else {
            proof {
                assert forall|k: int| !named_at(rows, user.id, name@, k) by {}
            }
            if self.next_id == i64::MAX {
                return Err(DBError::Sqlite);
            }
            let id = self.next_id;
            self.next_id = self.next_id + 1;
            self.rows.push(SavedQuery { owner: user.id, id, name, query });
            proof {
                let kept = SavedQueryView { owner: user.id, id, name: name@, query: query@ };
                assert(self@.rows =~= rows.push(kept));
                assert forall|a: int, b: int| 0 <= a < b < self@.rows.len() implies !((
                #[trigger] self@.rows[a]).owner == (#[trigger] self@.rows[b]).owner
                    && self@.rows[a].name == self@.rows[b].name) by {
                    if b < rows.len() {
                        assert(!(rows[a].owner == rows[b].owner && rows[a].name == rows[b].name));
                    } else {
                        assert(!named_at(rows, user.id, name@, a));
                    }
                }
            }
            Ok(id)
        }
    }

    /// The queries of the authenticated user whose name is `name` (exact lookup) or holds
    /// it (patterned lookup), the one stored last first. Without a name the empty name is
    /// looked for.
    pub fn find_queries(
        &self,
        auth: &DBResult<User>,
        name: Option<&str>,
        lookup_type: DBLookupType,
    ) -> (r: DBResult<Vec<StoredQuery>>)
        ensures
            auth matches Err(e) ==> r == Err::<Vec<StoredQuery>, DBError>(*e),
            auth matches Ok(user) ==> r matches Ok(queries) && ({
                let hits = matching_queries(self@.rows, user.id, name_text(name, lookup_type));
                &&& queries@.len() == hits.len()
                &&& forall|k: int| 0 <= k < hits.len() ==> shown(#[trigger] queries@[k], hits[k])
            }),
    {
        let user = match auth {
            Err(e) => {
                return Err(*e);
            },
            Ok(user) => user,
        };
        let wanted = match name {
            Some(n) => lookup_pattern(n, lookup_type),
            None => String::new(),
        };
        let ghost rows = self@.rows;
        let ghost hits = matching_queries(rows, user.id, wanted@);
        let mut out: Vec<StoredQuery> = Vec::new();
        let ghost mut got: Seq<SavedQueryView> = Seq::empty();
        let mut i: usize = self.rows.len();
        proof {
            assert(rows.take(i as int) =~= rows);
            assert(got + hits =~= hits);
        }
        while i > 0
            invariant
                i <= self.rows.len(),
                rows == self@.rows,
                hits == matching_queries(rows, user.id, wanted@),
                hits == got + matching_queries(rows.take(i as int), user.id, wanted@),
                out@.len() == got.len(),
                forall|k: int| 0 <= k < got.len() ==> shown(#[trigger] out@[k], got[k]),
            decreases i,
        {
            i = i - 1;
            proof {
                let upto = rows.take(i as int + 1);
                assert(upto.drop_last() =~= rows.take(i as int));
                assert(upto.last() == rows[i as int]);
            }
            let row = &self.rows[i];
            if row.owner == user.id && like(wanted.as_str(), row.name.as_str()) {
                out.push(StoredQuery::new(Some(row.id), row.name.clone(), row.query.clone()));
                proof {
                    let older = matching_queries(rows.take(i as int), user.id, wanted@);
                    assert(got + (seq![rows[i as int]] + older) =~= got.push(rows[i as int])
                        + older);
                    got = got.push(rows[i as int]);
                }
            }
        }
        proof {
            assert(rows.take(0) =~= Seq::<SavedQueryView>::empty());
            assert(got + Seq::<SavedQueryView>::empty() =~= got);
        }
        Ok(out)
    }

    /// Where the first query of `owner` with the identifier `id` stands.
    fn find_id(&self, owner: i64, id: i64) -> (r: Option<usize>)
        ensures
            r is Some <==> exists|i: int| first_with_id(self@.rows, owner, id, i),
            r matches Some(i) ==> first_with_id(self@.rows, owner, id, i as int),
    {
        let mut i: usize = 0;
        while i < self.rows.len()
            invariant
                i <= self.rows.len(),
                forall|k: int|
                    0 <= k < i ==> !((#[trigger] self@.rows[k]).owner == owner
                        && self@.rows[k].id == id),
            decreases self.rows.len() - i,
        {
            if self.rows[i].owner == owner && self.rows[i].id == id {
                assert(first_with_id(self@.rows, owner, id, i as int));
                return Some(i);
            }
            i = i + 1;
        }
        proof {
            assert forall|k: int| !first_with_id(self@.rows, owner, id, k) by {
                if 0 <= k < self@.rows.len() {
                    assert(!(self@.rows[k].owner == owner && self@.rows[k].id == id));
                }
            }
        }
        None
    }

    /// The query of the authenticated user with the identifier `query_id`, if the user has
    /// one.
    pub fn get_query(&self, auth: &DBResult<User>, query_id: i64) -> (r: DBResult<
        Option<StoredQuery>,
    >)
        ensures
            auth matches Err(e) ==> r == Err::<Option<StoredQuery>, DBError>(*e),
            auth matches Ok(user) ==> r matches Ok(found) && ({
                &&& found is Some <==> exists|i: int|
                    first_with_id(self@.rows, user.id, query_id, i)
                &&& found matches Some(q) ==> exists|i: int|
                    first_with_id(self@.rows, user.id, query_id, i) && shown(q, self@.rows[i])
            }),
    {
        let user = match auth {
            Err(e) => {
                return Err(*e);
            },
            Ok(user) => user,
        };
        match self.find_id(user.id, query_id) {
            Some(i) => {
                let row = &self.rows[i];
                let q = StoredQuery::new(Some(row.id), row.name.clone(), row.query.clone());
                assert(shown(q, self@.rows[i as int]));
                Ok(Some(q))
            },
            None => Ok(None),
        }
    }

    /// Deletes the query of the authenticated user with the identifier `query_id` and
    /// returns it; `None`, and no change, where the user has no such query. Where
    /// authentication failed its error is returned and nothing changes.
    pub fn del_query(&mut self, auth: &DBResult<User>, query_id: i64) -> (r: DBResult<
        Option<StoredQuery>,
    >)
        requires
            old(self)@.wf(),
        ensures
            final(self)@.wf(),
            final(self)@.next_id == old(self)@.next_id,
            auth matches Err(e) ==> r == Err::<Option<StoredQuery>, DBError>(*e) && final(self)@
                == old(self)@,
            auth matches Ok(user) ==> r matches Ok(found) && ({
                &&& found is Some <==> exists|i: int|
                    first_with_id(old(self)@.rows, user.id, query_id, i)
                &&& found is None ==> final(self)@ == old(self)@
                &&& found matches Some(q) ==> exists|i: int|
                    first_with_id(old(self)@.rows, user.id, query_id, i) && shown(
                        q,
                        old(self)@.rows[i],
                    ) && final(self)@.rows == old(self)@.rows.remove(i)
            }),
    {
        let user = match auth {
            Err(e) => {
                return Err(*e);
            },
            Ok(user) => user,
        };
        match self.find_id(user.id, query_id) {
            Some(i) => {
                let ghost rows = self@.rows;
                let row = self.rows.remove(i);
                proof {
                    let after = rows.remove(i as int);
                    assert(self@.rows =~= after);
                    assert forall|a: int, b: int| 0 <= a < b < after.len() implies !((
                    #[trigger] after[a]).owner == (#[trigger] after[b]).owner && after[a].name
                        == after[b].name) by {
                        let a0 = if a < i {
                            a
                        } else {
                            a + 1
                        };
                        let b0 = if b < i {
                            b
                        } else {
                            b + 1
                        };
                        assert(after[a] == rows[a0]);
                        assert(after[b] == rows[b0]);
                        assert(!(rows[a0].owner == rows[b0].owner && rows[a0].name
                            == rows[b0].name));
                    }
                }
                let q = StoredQuery::new(Some(row.id), row.name, row.query);
                assert(shown(q, rows[i as int]));
                Ok(Some(q))
            },
            None => Ok(None),
        }
    }
}

} // verus!
