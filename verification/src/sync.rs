use vstd::prelude::*;
use crate::error::{DBError, DBResult};
use crate::link::{link_views, Link, LinkView};
use crate::query::{Query, QueryView, SqlParam, SqlParamView};
use crate::utils::{contains_entry, path, path_spec, views};
use crate::vault::{accepted, conflicts, StoredLinkView};
use crate::version::Version;
use crate::writes::{upsert_link_query, upsert_link_statement};

verus! {

pub const SELECT_CONFLICTS: &'static str = "SELECT path(href) FROM links WHERE";

pub const CONFLICT_OWNER: &'static str = "user_id = :user_id";

pub const CONFLICT_VERSION: &'static str = "AND version >= :version";

pub const CONFLICT_PATHS: &'static str = "AND path(href) IN rarray(:hrefs)";

pub const SELECT_WATERMARK: &'static str = "SELECT ifnull(max(version), 0) FROM links WHERE";

pub const WATERMARK_OWNER: &'static str = "user_id = :user_id";

/// The normalized paths of a batch, in its order.
pub open spec fn batch_paths(batch: Seq<LinkView>) -> Seq<Seq<char>> {
    Seq::new(batch.len(), |i: int| path_spec(batch[i].href))
}

/// The statement that asks the store which paths of a batch come too late.
pub open spec fn conflicts_statement(user_id: i64, version: int, batch: Seq<LinkView>) -> QueryView {
    QueryView::empty().with(SELECT_CONFLICTS@).with_param(
        CONFLICT_OWNER@,
        ":user_id"@,
        SqlParamView::Int(user_id as int),
    ).with_param(CONFLICT_VERSION@, ":version"@, SqlParamView::Int(version)).with_param(
        CONFLICT_PATHS@,
        ":hrefs"@,
        SqlParamView::List(batch_paths(batch)),
    )
}

/// Composes the statement that asks for the normalized paths, among those of `links`,
/// at which user `user_id` has a link stored at `version` or later.
pub fn conflicts_query(user_id: i64, version: Version, links: &Vec<Link>) -> (query: Query)
    ensures
        query@ == conflicts_statement(user_id, version@, link_views(links@)),
{
    let mut paths: Vec<String> = Vec::new();
    let mut i: usize = 0;
    while i < links.len()
        invariant
            i <= links.len(),
            paths@.len() == i,
            forall|k: int| 0 <= k < i ==> paths@[k]@ == path_spec(links@[k]@.href),
        decreases links.len() - i,
    {
        paths.push(path(links[i].href.as_str()));
        i = i + 1;
    }
    proof {
        assert(views(paths@) =~= batch_paths(link_views(links@)));
    }
    let mut query = Query::new_with_initial(SELECT_CONFLICTS);
    query.concat_with_param(CONFLICT_OWNER, (":user_id", SqlParam::Int(user_id)));
    query.concat_with_param(CONFLICT_VERSION, (":version", SqlParam::Int(version.offset() as i64)));
    query.concat_with_param(CONFLICT_PATHS, (":hrefs", SqlParam::List(paths)));
    query
}

/// The statement that asks the store for a user's watermark.
pub open spec fn watermark_statement(user_id: i64) -> QueryView {
    QueryView::empty().with(SELECT_WATERMARK@).with_param(
        WATERMARK_OWNER@,
        ":user_id"@,
        SqlParamView::Int(user_id as int),
    )
}

/// Composes the statement that asks for the watermark of user `user_id`.
pub fn watermark_query(user_id: i64) -> (query: Query)
    ensures
        query@ == watermark_statement(user_id),
{
    let mut query = Query::new_with_initial(SELECT_WATERMARK);
    query.concat_with_param(WATERMARK_OWNER, (":user_id", SqlParam::Int(user_id)));
    query
}

/// The links of `batch` whose normalized path is not among `conflicting`, in their order.
pub open spec fn kept_links(batch: Seq<LinkView>, conflicting: Seq<Seq<char>>) -> Seq<LinkView>
    decreases batch.len(),
{
    if batch.len() == 0 {
        Seq::<LinkView>::empty()
    } else {
        let before = kept_links(batch.drop_last(), conflicting);
        if conflicting.contains(path_spec(batch.last().href)) {
            before
        } else {
            before.push(batch.last())
        }
    }
}

/// A write that is to be made: a link and the version that it is written at.
#[derive(Debug)]
pub struct Write {
    pub link: Link,
    pub version: Version,
}

/// The writes of `links`, the first at version `first` and each further one at the next
/// version, each link with its content hash taken anew.
pub open spec fn stamped(links: Seq<LinkView>, first: int) -> Seq<(LinkView, int)> {
    Seq::new(links.len(), |i: int| (links[i].digested(), first + i))
}

/// The links and versions of a list of writes.
pub open spec fn write_views(writes: Seq<Write>) -> Seq<(LinkView, int)> {
    Seq::new(writes.len(), |i: int| (writes[i].link@, writes[i].version@))
}

/// Plans the writes for a batch. `conflicting` holds the normalized paths that the store
/// reported as stored at the batch's version or later, `latest` is the user's watermark.
/// First write wins: the links at those paths are dropped. The others are written in their
/// order at the versions behind the watermark. With the writes comes the watermark that
/// they leave. Fails with `BadVersion` where the watermark is no position, or where the
/// versions would leave the range of a version.
pub fn plan_merge(links: Vec<Link>, conflicting: &Vec<String>, latest: Version) -> (r: DBResult<
    (Vec<Write>, Version),
>)
    ensures
        r is Ok <==> latest.valid() && latest@ + kept_links(
            link_views(links@),
            views(conflicting@),
        ).len() <= i32::MAX,
        r matches Err(e) ==> e == DBError::BadVersion,
        r matches Ok((writes, v)) ==> {
            let kept = kept_links(link_views(links@), views(conflicting@));
            &&& write_views(writes@) == stamped(kept, latest@ + 1)
            &&& v@ == latest@ + kept.len()
        },
{
    if !latest.is_valid() {
        return Err(DBError::BadVersion);
    }
    let ghost batch = link_views(links@);
    let ghost late = views(conflicting@);
    let mut writes: Vec<Write> = Vec::new();
    let mut ver: i32 = latest.offset();
    let mut i: usize = 0;
    let mut full = false;
    proof {
        assert(batch.take(0) =~= Seq::<LinkView>::empty());
        assert(write_views(writes@) =~= stamped(Seq::<LinkView>::empty(), latest@ + 1));
    }
    while i < links.len()
        invariant
            i <= links.len(),
            batch == link_views(links@),
            late == views(conflicting@),
            latest@ >= 0,
            ver == latest@ + writes@.len(),
            !full ==> write_views(writes@) == stamped(
                kept_links(batch.take(i as int), late),
                latest@ + 1,
            ),
            !full ==> writes@.len() == kept_links(batch.take(i as int), late).len(),
            full ==> latest@ + kept_links(batch.take(i as int), late).len() > i32::MAX,
        decreases links.len() - i,
    {
        let p = path(links[i].href.as_str());
        proof {
            let upto = batch.take(i as int + 1);
            assert(upto.drop_last() =~= batch.take(i as int));
            assert(upto.last() == links@[i as int]@);
        }
        if !contains_entry(conflicting, &p) && !full {
            if ver == i32::MAX {
                full = true;
            } else {
                ver = ver + 1;
                let ghost had = write_views(writes@);
                let link = links[i].duplicate().digest();
                writes.push(Write { link, version: Version::new(ver) });
                proof {
                    let kept = kept_links(batch.take(i as int + 1), late);
                    assert(write_views(writes@) =~= had.push((links@[i as int]@.digested(), ver as int)));
                    assert(write_views(writes@) =~= stamped(kept, latest@ + 1));
                }
            }
        }
        i = i + 1;
    }
    proof {
        assert(batch.take(links@.len() as int) =~= batch);
        lemma_kept_grows(batch, late, links@.len() as int);
    }
    if full {
        Err(DBError::BadVersion)
    } else {
        Ok((writes, Version::new(ver)))
    }
}

/// A longer part of a batch keeps at least as many links as a shorter one.
pub proof fn lemma_kept_grows(batch: Seq<LinkView>, late: Seq<Seq<char>>, n: int)
    requires
        0 <= n <= batch.len(),
    ensures
        kept_links(batch.take(n), late).len() <= kept_links(batch, late).len(),
    decreases batch.len() - n,
{
    if n < batch.len() {
        lemma_kept_grows(batch, late, n + 1);
        let upto = batch.take(n + 1);
        assert(upto.drop_last() =~= batch.take(n));
    } else {
        assert(batch.take(n) =~= batch);
    }
}

/// Where the reported paths are those of the batch that come too late, the plan keeps the
/// links that the store's own rule accepts.
pub proof fn lemma_plan_follows_rule(
    rows: Seq<StoredLinkView>,
    owner: i64,
    batch: Seq<LinkView>,
    base: int,
    conflicting: Seq<Seq<char>>,
)
    requires
        forall|k: int|
            0 <= k < batch.len() ==> (conflicting.contains(path_spec((#[trigger] batch[k]).href))
                <==> conflicts(rows, owner, path_spec(batch[k].href), base)),
    ensures
        kept_links(batch, conflicting) == accepted(rows, owner, batch, base),
    decreases batch.len(),
{
    if batch.len() > 0 {
        let front = batch.drop_last();
        assert forall|k: int| 0 <= k < front.len() implies (conflicting.contains(
            path_spec((#[trigger] front[k]).href),
        ) <==> conflicts(rows, owner, path_spec(front[k].href), base)) by {
            assert(front[k] == batch[k]);
        }
        lemma_plan_follows_rule(rows, owner, front, base, conflicting);
        assert(batch[batch.len() - 1] == batch.last());
    }
}

/// Decides whether a link may be written at `version`. `stored` is the version at which
/// the user has the link at that path stored, `None` where the user has none there. A
/// version that is no position is refused, and so is a stale one: a version below the
/// stored one.
pub fn check_target(version: Version, stored: Option<i32>) -> (r: DBResult<()>)
    ensures
        r is Ok <==> version.valid() && !(stored matches Some(v) && v > version@),
        r matches Err(e) ==> e == DBError::BadVersion,
{
    if !version.is_valid() {
        return Err(DBError::BadVersion);
    }
    match stored {
        Some(v) => if v > version.offset() {
            Err(DBError::BadVersion)
        } else {
            Ok(())
        },
        None => Ok(()),
    }
}

/// Composes the statement that writes `link` for user `user_id` at `version`, where the
/// link may be written there: see [`check_target`]. `stored` is the version at which the
/// user has the link at that path stored.
pub fn write_link_query(link: &Link, version: Version, stored: Option<i32>, user_id: i64) -> (r:
    DBResult<Query>)
    ensures
        r is Ok <==> version.valid() && !(stored matches Some(v) && v > version@),
        r matches Err(e) ==> e == DBError::BadVersion,
        r matches Ok(query) ==> query@ == upsert_link_statement(link@, version@, user_id),
{
    match check_target(version, stored) {
        Ok(_) => Ok(upsert_link_query(link, version, user_id)),
        Err(e) => Err(e),
    }
}

} // verus!
