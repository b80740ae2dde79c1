use vstd::prelude::*;
use crate::error::{DBError, DBResult};
use crate::link::{link_views, Link, LinkView};
use crate::query::{DBLookupType, Query};
use crate::search::{parse_query, words, QueryTerms};
use crate::statements::{effective_limit, limit_or, pattern_tokens, DEFAULT_LINK_LIMIT};
use crate::link::Tag;
use crate::tags::{classify_spec, classify_tags, excluded_of, optional_of, required_of, TagFacet};
use crate::user::User;
use crate::order::lex_lt;
use crate::utils::{
    clone_strings, contains_seq, contains_str, lemma_padded_order, like, like_spec, pad_decimal,
    padded, path, path_spec, views, without_digits,
};
use crate::version::Version;

verus! {

/// A link as the store keeps it: under its owner, stamped with the version of its last
/// write.
#[derive(Debug)]
pub struct StoredLink {
    pub owner: i64,
    pub version: i32,
    pub link: Link,
}

/// A stored link, as mathematical values.
pub ghost struct StoredLinkView {
    pub owner: i64,
    pub version: int,
    pub link: LinkView,
}

impl View for StoredLink {
    type V = StoredLinkView;

    open spec fn view(&self) -> StoredLinkView {
        StoredLinkView { owner: self.owner, version: self.version as int, link: self.link@ }
    }
}

impl StoredLinkView {
    /// What identifies a stored link: its owner and the normalized path of its address.
    pub open spec fn key(self) -> (i64, Seq<char>) {
        (self.owner, path_spec(self.link.href))
    }
}

/// The views of a list of stored links.
pub open spec fn row_views(rows: Seq<StoredLink>) -> Seq<StoredLinkView> {
    Seq::new(rows.len(), |i: int| rows[i]@)
}

/// Whether the row at `i` is the link of `owner` at `path`.
pub open spec fn row_at(rows: Seq<StoredLinkView>, owner: i64, path: Seq<char>, i: int) -> bool {
    0 <= i < rows.len() && rows[i].key() == (owner, path)
}

/// Whether `owner` has a link at `path`.
pub open spec fn holds(rows: Seq<StoredLinkView>, owner: i64, path: Seq<char>) -> bool {
    exists|i: int| row_at(rows, owner, path, i)
}

/// Whether no two rows are the same owner's link at the same path.
pub open spec fn distinct_keys(rows: Seq<StoredLinkView>) -> bool {
    forall|i: int, j: int|
        0 <= i < j < rows.len() ==> (#[trigger] rows[i]).key() != (#[trigger] rows[j]).key()
}

/// The watermark of `owner`: the highest version among the owner's links, or 0 where the
/// owner has none.
pub open spec fn watermark(rows: Seq<StoredLinkView>, owner: i64) -> int
    decreases rows.len(),
{
    if rows.len() == 0 {
        0
    } else {
        let before = watermark(rows.drop_last(), owner);
        if rows.last().owner == owner && rows.last().version > before {
            rows.last().version
        } else {
            before
        }
    }
}

/// The watermark is at least 0 and at least the version of each of the owner's links, and
/// where it is not 0 it is the version of one of them.
pub proof fn lemma_watermark_is_max(rows: Seq<StoredLinkView>, owner: i64)
    ensures
        watermark(rows, owner) >= 0,
        forall|i: int|
            0 <= i < rows.len() && rows[i].owner == owner ==> (#[trigger] rows[i]).version
                <= watermark(rows, owner),
        watermark(rows, owner) > 0 ==> exists|i: int|
            0 <= i < rows.len() && (#[trigger] rows[i]).owner == owner && rows[i].version
                == watermark(rows, owner),
    decreases rows.len(),
{
    if rows.len() > 0 {
        let front = rows.drop_last();
        lemma_watermark_is_max(front, owner);
        assert forall|i: int| 0 <= i < rows.len() && rows[i].owner == owner implies (
        #[trigger] rows[i]).version <= watermark(rows, owner) by {
            if i < rows.len() - 1 {
                assert(front[i] == rows[i]);
            }
        }
        if watermark(rows, owner) > 0 {
            if rows.last().owner == owner && rows.last().version > watermark(front, owner) {
                assert(rows[rows.len() - 1].owner == owner);
            } else {
                let i = choose|i: int|
                    0 <= i < front.len() && (#[trigger] front[i]).owner == owner
                        && front[i].version == watermark(front, owner);
                assert(rows[i] == front[i]);
            }
        }
    }
}

/// Where the link of `owner` at `path` stands.
pub open spec fn place(rows: Seq<StoredLinkView>, owner: i64, path: Seq<char>) -> int {
    choose|i: int| row_at(rows, owner, path, i)
}

/// Among distinct keys a link stands at one place only.
pub proof fn lemma_place_unique(rows: Seq<StoredLinkView>, owner: i64, path: Seq<char>, i: int)
    requires
        distinct_keys(rows),
        row_at(rows, owner, path, i),
    ensures
        place(rows, owner, path) == i,
{
    let j = place(rows, owner, path);
    assert(row_at(rows, owner, path, j));
    if i < j {
        assert(rows[i].key() != rows[j].key());
    } else if j < i {
        assert(rows[j].key() != rows[i].key());
    }
}

/// The row that a write of `link` at `version` leaves where `owner` already has a link at
/// that path: everything is replaced but the identifier and the time of creation.
pub open spec fn rewritten(
    old_row: StoredLinkView,
    owner: i64,
    link: LinkView,
    version: int,
) -> StoredLinkView {
    StoredLinkView {
        owner,
        version,
        link: LinkView {
            id: old_row.link.id,
            created_at: old_row.link.created_at,
            ..link.digested()
        },
    }
}

/// How many digits a time of creation has.
pub const STAMP_WIDTH: usize = 19;

/// The time of creation of the link with the identifier `id`. The store's clock counts the
/// links that it has created, and a time is that count in nineteen digits: so the times
/// of two links, held against each other as texts, tell which link is the older.
pub open spec fn stamp_text(id: int) -> Seq<char> {
    padded(id as nat, STAMP_WIDTH as nat)
}

/// A later link has a later time of creation.
pub proof fn lemma_stamp_order(a: int, b: int)
    requires
        0 <= a < b <= i64::MAX,
    ensures
        lex_lt(stamp_text(a), stamp_text(b)),
{
    reveal_with_fuel(without_digits, 20);
    assert(without_digits(a as nat, STAMP_WIDTH as nat) == 0);
    assert(without_digits(b as nat, STAMP_WIDTH as nat) == 0);
    lemma_padded_order(a as nat, b as nat, STAMP_WIDTH as nat);
}

/// The row that a write of `link` at `version` adds where `owner` has no link at that
/// path. The store gives the link its identifier and its time of creation.
pub open spec fn created(owner: i64, link: LinkView, version: int, new_id: i64) -> StoredLinkView {
    StoredLinkView {
        owner,
        version,
        link: LinkView {
            id: Some(new_id),
            created_at: stamp_text(new_id as int),
            ..link.digested()
        },
    }
}

/// Whether a write of `owner` at `path` and `version` is stale: the owner's link at that
/// path is already stored at a later version.
pub open spec fn stale(rows: Seq<StoredLinkView>, owner: i64, path: Seq<char>, version: int) -> bool {
    exists|i: int| row_at(rows, owner, path, i) && rows[i].version > version
}

/// Among distinct keys, a write is stale exactly if the link that stands at its path has
/// a later version.
pub proof fn lemma_stale_at_place(
    rows: Seq<StoredLinkView>,
    owner: i64,
    path: Seq<char>,
    version: int,
    i: int,
)
    requires
        distinct_keys(rows),
        row_at(rows, owner, path, i),
    ensures
        stale(rows, owner, path, version) <==> rows[i].version > version,
{
    if stale(rows, owner, path, version) {
        let j = choose|j: int| row_at(rows, owner, path, j) && rows[j].version > version;
        lemma_place_unique(rows, owner, path, i);
        lemma_place_unique(rows, owner, path, j);
    }
}

/// The identifier of a stored link.
pub open spec fn id_of(row: StoredLinkView) -> int {
    row.link.id->Some_0 as int
}

/// Whether the rows stand in the order of their creation: every link has an identifier
/// below `next_id` and the time of creation that goes with it, and identifiers ascend.
pub open spec fn in_order_of_creation(rows: Seq<StoredLinkView>, next_id: int) -> bool {
    &&& forall|i: int|
        0 <= i < rows.len() ==> (#[trigger] rows[i]).link.id is Some && 1 <= id_of(rows[i])
            < next_id && rows[i].link.created_at == stamp_text(id_of(rows[i]))
    &&& forall|i: int, j: int|
        0 <= i < j < rows.len() ==> id_of(#[trigger] rows[i]) < id_of(#[trigger] rows[j])
}

/// The rows after `owner` has written `link` at `version`: the owner's link at that path
/// is replaced where it stands, or the link is added behind all others.
pub open spec fn upserted(
    rows: Seq<StoredLinkView>,
    owner: i64,
    link: LinkView,
    version: int,
    new_id: i64,
) -> Seq<StoredLinkView> {
    let path = path_spec(link.href);
    if holds(rows, owner, path) {
        let i = place(rows, owner, path);
        rows.update(i, rewritten(rows[i], owner, link, version))
    } else {
        rows.push(created(owner, link, version, new_id))
    }
}

/// A write keeps the keys distinct, changes no other link, and leaves the owner's link at
/// that path with the written content and version.
pub proof fn lemma_upserted(
    rows: Seq<StoredLinkView>,
    owner: i64,
    link: LinkView,
    version: int,
    new_id: i64,
)
    requires
        distinct_keys(rows),
    ensures
        distinct_keys(upserted(rows, owner, link, version, new_id)),
        holds(upserted(rows, owner, link, version, new_id), owner, path_spec(link.href)),
        ({
            let after = upserted(rows, owner, link, version, new_id);
            let at = place(after, owner, path_spec(link.href));
            &&& at == if holds(rows, owner, path_spec(link.href)) {
                place(rows, owner, path_spec(link.href))
            } else {
                rows.len() as int
            }
            &&& after[at].version == version
            &&& after[at].owner == owner
            &&& after[at].link.same_content(link)
            &&& forall|i: int|
                0 <= i < rows.len() && rows[i].key() != (owner, path_spec(link.href))
                    ==> after[i] == #[trigger] rows[i]
            &&& forall|i: int|
                0 <= i < after.len() && after[i].key() != (owner, path_spec(link.href)) ==> 0
                    <= i < rows.len() && rows[i] == #[trigger] after[i]
        }),
{
    let path = path_spec(link.href);
    let after = upserted(rows, owner, link, version, new_id);
    if holds(rows, owner, path) {
        let i = place(rows, owner, path);
        assert(row_at(rows, owner, path, i));
        assert(after[i].key() == (owner, path));
        assert forall|a: int, b: int| 0 <= a < b < after.len() implies (#[trigger] after[a]).key()
            != (#[trigger] after[b]).key() by {
            assert(rows[a].key() != rows[b].key());
        }
        assert(row_at(after, owner, path, i));
        lemma_place_unique(after, owner, path, i);
    } else {
        let i = rows.len() as int;
        assert(after[i].key() == (owner, path));
        assert forall|a: int, b: int| 0 <= a < b < after.len() implies (#[trigger] after[a]).key()
            != (#[trigger] after[b]).key() by {
            if b < rows.len() {
                assert(rows[a].key() != rows[b].key());
            } else {
                assert(!row_at(rows, owner, path, a));
            }
        }
        assert(row_at(after, owner, path, i));
        lemma_place_unique(after, owner, path, i);
    }
}

/// Whether a write of `owner` at `path` that was prepared at version `base` comes too late:
/// the owner's link at that path is already stored at `base` or later.
pub open spec fn conflicts(rows: Seq<StoredLinkView>, owner: i64, path: Seq<char>, base: int) -> bool {
    exists|i: int| row_at(rows, owner, path, i) && rows[i].version >= base
}

/// The links of `batch` that are not in conflict with what is stored, in their order.
pub open spec fn accepted(
    rows: Seq<StoredLinkView>,
    owner: i64,
    batch: Seq<LinkView>,
    base: int,
) -> Seq<LinkView>
    decreases batch.len(),
{
    if batch.len() == 0 {
        Seq::<LinkView>::empty()
    } else {
        let before = accepted(rows, owner, batch.drop_last(), base);
        if conflicts(rows, owner, path_spec(batch.last().href), base) {
            before
        } else {
            before.push(batch.last())
        }
    }
}

/// What a search asks of a stored link.
pub ghost struct Criteria {
    pub pattern: LinkView,
    pub lookup: DBLookupType,
    pub floor: int,
    pub user_id: i64,
}

/// The tags of a link; none where it was given none.
pub open spec fn tags_of(link: LinkView) -> Seq<Seq<char>> {
    match link.tags {
        Some(t) => t,
        None => Seq::empty(),
    }
}

impl Criteria {
    /// Whether the searching user may see the link: it is their own, or it is shared.
    pub open spec fn visible(self, row: StoredLinkView) -> bool {
        row.owner == self.user_id || row.link.shared
    }

    /// Whether the link is new enough: the floor is unknown, or the link's version is the
    /// floor or later.
    pub open spec fn recent(self, row: StoredLinkView) -> bool {
        self.floor < 0 || row.version >= self.floor
    }

    /// Whether the pattern's title stands in the link's title or notes, or, where the
    /// pattern gives no address, in the link's address.
    pub open spec fn text_fits(self, row: StoredLinkView) -> bool {
        let wanted = "%"@ + self.pattern.name + "%"@;
        ||| like_spec(wanted, row.link.name)
        ||| (row.link.description matches Some(d) && like_spec(wanted, d))
        ||| (path_spec(self.pattern.href).len() == 0 && like_spec(wanted, row.link.href))
    }

    /// Whether the link's normalized path is the pattern's (exact lookup), or holds it
    /// (patterned lookup). An exact lookup of the empty path asks nothing.
    pub open spec fn path_fits(self, row: StoredLinkView) -> bool {
        let wanted = path_spec(self.pattern.href);
        match self.lookup {
            DBLookupType::Exact => wanted.len() == 0 || path_spec(row.link.href) == wanted,
            DBLookupType::Patterned => contains_seq(path_spec(row.link.href), wanted),
        }
    }

    /// Whether the link has the flags that the pattern sets.
    pub open spec fn flags_fit(self, row: StoredLinkView) -> bool {
        (self.pattern.toread ==> row.link.toread) && (self.pattern.favourite
            ==> row.link.favourite)
    }

    /// Whether the link's tags pass the facet of the pattern's tag tokens.
    pub open spec fn tags_fit(self, row: StoredLinkView) -> bool {
        classify_spec(pattern_tokens(self.pattern)).admits(tags_of(row.link))
    }

    /// Whether the search returns the link, as far as it is not cut off by the limit.
    pub open spec fn admits(self, row: StoredLinkView) -> bool {
        &&& self.visible(row)
        &&& self.recent(row)
        &&& self.text_fits(row)
        &&& self.path_fits(row)
        &&& self.flags_fit(row)
        &&& self.tags_fit(row)
    }
}

/// The links among `rows` that the search admits and whose favourite flag is `favourite`,
/// the newest first.
pub open spec fn newest_first(rows: Seq<StoredLinkView>, c: Criteria, favourite: bool) -> Seq<
    LinkView,
>
    decreases rows.len(),
{
    if rows.len() == 0 {
        Seq::<LinkView>::empty()
    } else {
        let older = newest_first(rows.drop_last(), c, favourite);
        if c.admits(rows.last()) && rows.last().link.favourite == favourite {
            seq![rows.last().link] + older
        } else {
            older
        }
    }
}

/// All that the search admits: the favourites before the others, the newest first among
/// each.
pub open spec fn all_found(rows: Seq<StoredLinkView>, c: Criteria) -> Seq<LinkView> {
    newest_first(rows, c, true) + newest_first(rows, c, false)
}

/// What the search returns: the first `limit` of all that it admits.
pub open spec fn found(rows: Seq<StoredLinkView>, c: Criteria, limit: u16) -> Seq<LinkView> {
    let all = all_found(rows, c);
    if all.len() <= limit {
        all
    } else {
        all.take(limit as int)
    }
}

/// Whether `links` stand in the order of a search's results: favourites first, and among
/// links with the same favourite flag the one created later first.
pub open spec fn by_favour_and_recency(links: Seq<LinkView>) -> bool {
    forall|i: int, j: int|
        0 <= i < j < links.len() ==> {
            &&& (#[trigger] links[i]).favourite || !(#[trigger] links[j]).favourite
            &&& links[i].favourite == links[j].favourite ==> lex_lt(
                links[j].created_at,
                links[i].created_at,
            )
        }
}

/// The identifier of a link.
pub open spec fn link_id(link: LinkView) -> int {
    link.id->Some_0 as int
}

/// The links that a search finds with one favourite flag have that flag, carry their
/// identifiers and times of creation, and stand with their identifiers descending.
pub proof fn lemma_newest_first_descends(
    rows: Seq<StoredLinkView>,
    next_id: int,
    c: Criteria,
    favourite: bool,
)
    requires
        in_order_of_creation(rows, next_id),
    ensures
        forall|k: int|
            0 <= k < newest_first(rows, c, favourite).len() ==> {
                let link = #[trigger] newest_first(rows, c, favourite)[k];
                &&& link.favourite == favourite
                &&& link.id is Some
                &&& 1 <= link_id(link) < next_id
                &&& link.created_at == stamp_text(link_id(link))
                &&& link_id(link) <= id_of(rows.last())
            },
        forall|a: int, b: int|
            0 <= a < b < newest_first(rows, c, favourite).len() ==> link_id(
                #[trigger] newest_first(rows, c, favourite)[a],
            ) > link_id(#[trigger] newest_first(rows, c, favourite)[b]),
    decreases rows.len(),
{
    if rows.len() > 0 {
        let front = rows.drop_last();
        assert(in_order_of_creation(front, next_id)) by {
            assert forall|i: int| 0 <= i < front.len() implies (#[trigger] front[i]).link.id is Some
                && 1 <= id_of(front[i]) < next_id && front[i].link.created_at == stamp_text(
                id_of(front[i]),
            ) by {
                assert(front[i] == rows[i]);
            }
            assert forall|i: int, j: int| 0 <= i < j < front.len() implies id_of(
                #[trigger] front[i],
            ) < id_of(#[trigger] front[j]) by {
                assert(front[i] == rows[i]);
                assert(front[j] == rows[j]);
            }
        }
        lemma_newest_first_descends(front, next_id, c, favourite);
        let older = newest_first(front, c, favourite);
        let mine = newest_first(rows, c, favourite);
        let first = c.admits(rows.last()) && rows.last().link.favourite == favourite;
        let last = rows[rows.len() - 1];
        if front.len() > 0 {
            assert(front.last() == rows[rows.len() - 2]);
            assert(id_of(rows[rows.len() - 2]) < id_of(rows[rows.len() - 1]));
        }
        assert forall|k: int| 0 <= k < mine.len() implies {
            let link = #[trigger] mine[k];
            &&& link.favourite == favourite
            &&& link.id is Some
            &&& 1 <= link_id(link) < next_id
            &&& link.created_at == stamp_text(link_id(link))
            &&& link_id(link) <= id_of(rows.last())
        } by {
            if first && k == 0 {
                assert(mine[0] == last.link);
            } else {
                let j = if first {
                    k - 1
                } else {
                    k
                };
                assert(mine[k] == older[j]);
            }
        }
        assert forall|a: int, b: int| 0 <= a < b < mine.len() implies link_id(#[trigger] mine[a])
            > link_id(#[trigger] mine[b]) by {
            if first {
                assert(mine[b] == older[b - 1]);
                if a == 0 {
                    assert(mine[0] == last.link);
                } else {
                    assert(mine[a] == older[a - 1]);
                }
            } else {
                assert(mine[a] == older[a]);
                assert(mine[b] == older[b]);
            }
        }
    }
}

/// What a search returns stands with the favourites first and, among links with the same
/// favourite flag, with the one created later first.
pub proof fn lemma_found_in_order(v: VaultView, c: Criteria, limit: u16)
    requires
        v.wf(),
    ensures
        by_favour_and_recency(found(v.links, c, limit)),
{
    lemma_newest_first_descends(v.links, v.next_id, c, true);
    lemma_newest_first_descends(v.links, v.next_id, c, false);
    let favourites = newest_first(v.links, c, true);
    let others = newest_first(v.links, c, false);
    let all = all_found(v.links, c);
    let hits = found(v.links, c, limit);
    assert forall|i: int, j: int| 0 <= i < j < hits.len() implies {
        &&& (#[trigger] hits[i]).favourite || !(#[trigger] hits[j]).favourite
        &&& hits[i].favourite == hits[j].favourite ==> lex_lt(
            hits[j].created_at,
            hits[i].created_at,
        )
    } by {
        assert(hits[i] == all[i]);
        assert(hits[j] == all[j]);
        if j < favourites.len() {
            assert(all[i] == favourites[i] && all[j] == favourites[j]);
            lemma_stamp_order(link_id(favourites[j]), link_id(favourites[i]));
        } else if i >= favourites.len() {
            let a = i - favourites.len();
            let b = j - favourites.len();
            assert(all[i] == others[a] && all[j] == others[b]);
            lemma_stamp_order(link_id(others[b]), link_id(others[a]));
        } else {
            assert(all[i] == favourites[i]);
            assert(all[j] == others[j - favourites.len()]);
        }
    }
}

/// The pattern that looks a link up by its address alone.
pub open spec fn address_pattern(href: Seq<char>) -> LinkView {
    (LinkView {
        id: None,
        href,
        name: Seq::empty(),
        description: None,
        tags: None,
        hash: None,
        shared: false,
        toread: false,
        favourite: false,
        created_at: Seq::empty(),
    }).digested()
}

/// The search that looks for the link at the address `href`, whatever its version.
pub open spec fn address_search(href: Seq<char>, user_id: i64) -> Criteria {
    Criteria { pattern: address_pattern(href), lookup: DBLookupType::Exact, floor: -1, user_id }
}

/// Taking one row out keeps the keys distinct.
pub proof fn lemma_remove_keeps_distinct(rows: Seq<StoredLinkView>, i: int)
    requires
        distinct_keys(rows),
        0 <= i < rows.len(),
    ensures
        distinct_keys(rows.remove(i)),
{
    let after = rows.remove(i);
    assert forall|a: int, b: int| 0 <= a < b < after.len() implies (#[trigger] after[a]).key() != (
    #[trigger] after[b]).key() by {
        let a0 = if a < i {
            a
        } else {
            a + 1
        };
        let b0 = if b < i {
            b
        } else {
            b + 1
        };
        assert(after[a] == rows[a0]);
        assert(after[b] == rows[b0]);
        assert(rows[a0].key() != rows[b0].key());
    }
}

/// What the store holds.
pub ghost struct VaultView {
    /// The links of all owners, the oldest first.
    pub links: Seq<StoredLinkView>,
    /// The identifier that the next new link gets.
    pub next_id: int,
}

impl VaultView {
    /// What holds of every store: an owner has at most one link at a path, no version is
    /// negative, and the links stand in the order of their creation.
    pub open spec fn wf(self) -> bool {
        &&& distinct_keys(self.links)
        &&& forall|i: int| 0 <= i < self.links.len() ==> (#[trigger] self.links[i]).version >= 0
        &&& 1 <= self.next_id <= i64::MAX
        &&& in_order_of_creation(self.links, self.next_id)
    }

    /// The watermark of `owner`.
    pub open spec fn watermark(self, owner: i64) -> int {
        watermark(self.links, owner)
    }

    /// The store after `owner` has written `link` at `version`.
    pub open spec fn stored(self, owner: i64, link: LinkView, version: int) -> VaultView {
        VaultView {
            links: upserted(self.links, owner, link, version, self.next_id as i64),
            next_id: if holds(self.links, owner, path_spec(link.href)) {
                self.next_id
            } else {
                self.next_id + 1
            },
        }
    }

    /// The store after `owner` has written `links` one after the other, the first at
    /// version `first` and each further one at the next version.
    pub open spec fn written(self, owner: i64, links: Seq<LinkView>, first: int) -> VaultView
        decreases links.len(),
    {
        if links.len() == 0 {
            self
        } else {
            self.written(owner, links.drop_last(), first).stored(
                owner,
                links.last(),
                first + links.len() - 1,
            )
        }
    }

    /// The store after `owner` has offered `batch`, prepared at version `base`: the links
    /// in conflict are dropped, and the others are written at the versions that follow the
    /// owner's watermark.
    pub open spec fn merged(self, owner: i64, batch: Seq<LinkView>, base: int) -> VaultView {
        self.written(
            owner,
            accepted(self.links, owner, batch, base),
            self.watermark(owner) + 1,
        )
    }
}

/// A number that bounds the versions of the owner's links from above, and that is 0 or the
/// version of one of them, is the owner's watermark.
pub proof fn lemma_watermark_characterized(rows: Seq<StoredLinkView>, owner: i64, m: int)
    requires
        m >= 0,
        forall|i: int|
            0 <= i < rows.len() && rows[i].owner == owner ==> (#[trigger] rows[i]).version <= m,
        m == 0 || exists|i: int|
            0 <= i < rows.len() && (#[trigger] rows[i]).owner == owner && rows[i].version == m,
    ensures
        watermark(rows, owner) == m,
{
    lemma_watermark_is_max(rows, owner);
    let w = watermark(rows, owner);
    if w > m {
        let i = choose|i: int|
            0 <= i < rows.len() && (#[trigger] rows[i]).owner == owner && rows[i].version == w;
        assert(rows[i].version <= m);
    } else if w < m {
        let i = choose|i: int|
            0 <= i < rows.len() && (#[trigger] rows[i]).owner == owner && rows[i].version == m;
        assert(rows[i].version <= w);
    }
}

/// A write at a version that is a position leaves a store as every store is.
pub proof fn lemma_stored_wf(v: VaultView, owner: i64, link: LinkView, version: int)
    requires
        v.wf(),
        version >= 0,
        v.next_id < i64::MAX || holds(v.links, owner, path_spec(link.href)),
    ensures
        v.stored(owner, link, version).wf(),
{
    let after = v.stored(owner, link, version);
    let path = path_spec(link.href);
    lemma_upserted(v.links, owner, link, version, v.next_id as i64);
    let at = place(after.links, owner, path);
    assert(row_at(after.links, owner, path, at));
    assert forall|i: int| 0 <= i < after.links.len() implies (#[trigger] after.links[i]).version
        >= 0 by {
        if i != at {
            assert(after.links[i] == v.links[i]);
        }
    }
    assert forall|i: int| 0 <= i < after.links.len() implies (
    #[trigger] after.links[i]).link.id is Some && 1 <= id_of(after.links[i]) < after.next_id
        && after.links[i].link.created_at == stamp_text(id_of(after.links[i])) by {
        if i != at {
            assert(after.links[i] == v.links[i]);
        } else if holds(v.links, owner, path) {
            assert(row_at(v.links, owner, path, at));
            assert(id_of(after.links[i]) == id_of(v.links[i]));
        }
    }
    assert forall|i: int, j: int| 0 <= i < j < after.links.len() implies id_of(
        #[trigger] after.links[i],
    ) < id_of(#[trigger] after.links[j]) by {
        if holds(v.links, owner, path) {
            assert(id_of(after.links[i]) == id_of(v.links[i]));
            assert(id_of(after.links[j]) == id_of(v.links[j]));
        } else {
            assert(after.links[i] == v.links[i]);
            if j < v.links.len() {
                assert(after.links[j] == v.links[j]);
            }
        }
    }
}

/// A write at a version that is not below the owner's watermark makes that version the
/// owner's watermark, and leaves every other owner's watermark as it was.
pub proof fn lemma_write_moves_watermark(v: VaultView, owner: i64, link: LinkView, version: int)
    requires
        v.wf(),
        version >= v.watermark(owner),
        v.next_id < i64::MAX || holds(v.links, owner, path_spec(link.href)),
    ensures
        v.stored(owner, link, version).wf(),
        v.stored(owner, link, version).watermark(owner) == version,
        forall|other: i64|
            other != owner ==> v.stored(owner, link, version).watermark(other) == v.watermark(
                other,
            ),
{
    let after = v.stored(owner, link, version);
    let path = path_spec(link.href);
    lemma_upserted(v.links, owner, link, version, v.next_id as i64);
    lemma_watermark_is_max(v.links, owner);
    lemma_stored_wf(v, owner, link, version);
    let at = place(after.links, owner, path);
    assert(row_at(after.links, owner, path, at));
    assert forall|i: int|
        0 <= i < after.links.len() && after.links[i].owner == owner implies (
    #[trigger] after.links[i]).version <= version by {
        if i != at {
            assert(after.links[i] == v.links[i]);
        }
    }
    assert(after.links[at].owner == owner && after.links[at].version == version);
    lemma_watermark_characterized(after.links, owner, version);
    assert forall|other: i64| other != owner implies after.watermark(other) == v.watermark(
        other,
    ) by {
        lemma_watermark_is_max(v.links, other);
        let m = v.watermark(other);
        assert forall|i: int|
            0 <= i < after.links.len() && after.links[i].owner == other implies (
        #[trigger] after.links[i]).version <= m by {
            assert(after.links[i].key() != (owner, path));
            assert(v.links[i] == after.links[i]);
        }
        if m > 0 {
            let i = choose|i: int|
                0 <= i < v.links.len() && (#[trigger] v.links[i]).owner == other
                    && v.links[i].version == m;
            assert(v.links[i].key() != (owner, path));
            assert(after.links[i] == v.links[i]);
        }
        lemma_watermark_characterized(after.links, other, m);
    }
}

/// Writing `links` at the versions that follow the owner's watermark raises the watermark
/// by their number, uses at most one identifier for each, and leaves every other owner's
/// watermark as it was.
pub proof fn lemma_written(v: VaultView, owner: i64, links: Seq<LinkView>)
    requires
        v.wf(),
        v.next_id + links.len() <= i64::MAX,
    ensures
        v.written(owner, links, v.watermark(owner) + 1).wf(),
        v.written(owner, links, v.watermark(owner) + 1).watermark(owner) == v.watermark(owner)
            + links.len(),
        v.next_id <= v.written(owner, links, v.watermark(owner) + 1).next_id <= v.next_id
            + links.len(),
        forall|other: i64|
            other != owner ==> v.written(owner, links, v.watermark(owner) + 1).watermark(other)
                == v.watermark(other),
    decreases links.len(),
{
    lemma_watermark_is_max(v.links, owner);
    if links.len() > 0 {
        let first = v.watermark(owner) + 1;
        lemma_written(v, owner, links.drop_last());
        let before = v.written(owner, links.drop_last(), first);
        lemma_write_moves_watermark(before, owner, links.last(), first + links.len() - 1);
    }
}

/// Among distinct keys, a write comes too late exactly if the link that stands at its path
/// is stored at `base` or later.
pub proof fn lemma_conflicts_at_place(
    rows: Seq<StoredLinkView>,
    owner: i64,
    path: Seq<char>,
    base: int,
    i: int,
)
    requires
        distinct_keys(rows),
        row_at(rows, owner, path, i),
    ensures
        conflicts(rows, owner, path, base) <==> rows[i].version >= base,
{
    if conflicts(rows, owner, path, base) {
        let j = choose|j: int| row_at(rows, owner, path, j) && rows[j].version >= base;
        lemma_place_unique(rows, owner, path, i);
        lemma_place_unique(rows, owner, path, j);
    }
}

/// The time of creation of the link with the identifier `id`.
pub fn stamp(id: i64) -> (s: String)
    requires
        id >= 0,
    ensures
        s@ == stamp_text(id as int),
{
    pad_decimal(id as u64, STAMP_WIDTH)
}

/// The store: the links of every owner, each stamped with the version of its last write.
/// It keeps its links in memory and follows the rules that hold of every store of links;
/// the statements of [`crate::statements`] and [`crate::sync`] ask a store on disk for the
/// same answers.
pub struct Vault {
    links: Vec<StoredLink>,
    next_id: i64,
}

impl View for Vault {
    type V = VaultView;

    closed spec fn view(&self) -> VaultView {
        VaultView { links: row_views(self.links@), next_id: self.next_id as int }
    }
}

impl Vault {
    /// A store without links.
    pub fn new() -> (vault: Vault)
        ensures
            vault@.wf(),
            vault@.links.len() == 0,
            vault@.next_id == 1,
    {
        Vault { links: Vec::new(), next_id: 1 }
    }

    /// Where the link of `owner` at `path` stands, if the owner has one there.
    fn find_row(&self, owner: i64, path: &String) -> (r: Option<usize>)
        ensures
            r is Some <==> holds(self@.links, owner, path@),
            r matches Some(i) ==> row_at(self@.links, owner, path@, i as int),
    {
        let mut i: usize = 0;
        while i < self.links.len()
            invariant
                i <= self.links.len(),
                forall|k: int| 0 <= k < i ==> !row_at(self@.links, owner, path@, k),
            decreases self.links.len() - i,
        {
            if self.links[i].owner == owner {
                let p = crate::utils::path(self.links[i].link.href.as_str());
                if p == *path {
                    assert(row_at(self@.links, owner, path@, i as int));
                    return Some(i);
                }
            }
            assert(!row_at(self@.links, owner, path@, i as int));
            i = i + 1;
        }
        None
    }

    /// The latest version that links of `user` have been stored with; 0 where the user has
    /// no links yet.
    pub fn get_latest_version(&self, user: &User) -> (v: Version)
        requires
            self@.wf(),
        ensures
            v@ == self@.watermark(user.id),
            v.valid(),
    {
        let mut best: i32 = 0;
        let mut i: usize = 0;
        proof {
            assert(self@.links.take(0) =~= Seq::empty());
        }
        while i < self.links.len()
            invariant
                i <= self.links.len(),
                best == watermark(self@.links.take(i as int), user.id),
                best >= 0,
            decreases self.links.len() - i,
        {
            proof {
                let upto = self@.links.take(i as int + 1);
                assert(upto.drop_last() =~= self@.links.take(i as int));
                assert(upto.last() == self.links@[i as int]@);
            }
            if self.links[i].owner == user.id && self.links[i].version > best {
                best = self.links[i].version;
            }
            i = i + 1;
        }
        proof {
            assert(self@.links.take(self.links@.len() as int) =~= self@.links);
        }
        Version::new(best)
    }
    /// Writes `link` for `user` at `version`: the user's link at the same normalized path is
    /// replaced, tags and all, or the link is added, with the next identifier and the time
    /// of creation that goes with it. The content hash is taken anew. Fails with
    /// `BadVersion` where `version` is no position or is stale, that is, where the user's
    /// link at that path is stored at a later version; and with `Sqlite` where a new link
    /// would need an identifier and none is left. Then nothing changes.
    pub fn store_link(&mut self, link: Link, version: Version, user: &User) -> (r: DBResult<
        (Link, Version),
    >)
        requires
            old(self)@.wf(),
        ensures
            final(self)@.wf(),
            r is Ok <==> version.valid() && !stale(
                old(self)@.links,
                user.id,
                path_spec(link@.href),
                version@,
            ) && (holds(old(self)@.links, user.id, path_spec(link@.href)) || old(self)@.next_id
                < i64::MAX),
            r matches Err(e) ==> final(self)@ == old(self)@ && e == (if version.valid() && !stale(
                old(self)@.links,
                user.id,
                path_spec(link@.href),
                version@,
            ) {
                DBError::Sqlite
            } else {
                DBError::BadVersion
            }),
            r matches Ok((stored, v)) ==> {
                &&& v@ == version@
                &&& final(self)@.links == upserted(
                    old(self)@.links,
                    user.id,
                    link@,
                    version@,
                    old(self)@.next_id as i64,
                )
                &&& final(self)@.next_id == if holds(
                    old(self)@.links,
                    user.id,
                    path_spec(link@.href),
                ) {
                    old(self)@.next_id
                } else {
                    old(self)@.next_id + 1
                }
                &&& stored@ == final(self)@.links[place(
                    final(self)@.links,
                    user.id,
                    path_spec(link@.href),
                )].link
            },
    {
        if !version.is_valid() {
            return Err(DBError::BadVersion);
        }
        let ghost before = self@.links;
        let ghost given = link@;
        let link = link.digest();
        let p = path(link.href.as_str());
        let ghost start = self@;
        proof {
            lemma_upserted(before, user.id, given, version@, self.next_id);
        }
        match self.find_row(user.id, &p) {
            Some(i) => {
                proof {
                    lemma_place_unique(before, user.id, p@, i as int);
                    lemma_stale_at_place(before, user.id, p@, version@, i as int);
                }
                if self.links[i].version > version.offset() {
                    return Err(DBError::BadVersion);
                }
                proof {
                    lemma_stored_wf(start, user.id, given, version@);
                }
                let id = self.links[i].link.id;
                let ts = self.links[i].link.created_at.clone();
                let link = link.set_id(id).set_timestamp(ts);
                let copy = link.duplicate();
                self.links.set(i, StoredLink { owner: user.id, version: version.offset(), link });
                proof {
                    assert(self@.links =~= upserted(
                        before,
                        user.id,
                        given,
                        version@,
                        self.next_id,
                    ));
                }
                Ok((copy, version))
            },
            None => {
                proof {
                    assert forall|k: int| !row_at(before, user.id, p@, k) by {}
                }
                if self.next_id == i64::MAX {
                    return Err(DBError::Sqlite);
                }
                proof {
                    lemma_stored_wf(start, user.id, given, version@);
                }
                let link = link.set_id(Some(self.next_id)).set_timestamp(stamp(self.next_id));
                let copy = link.duplicate();
                let ghost id = self.next_id;
                self.next_id = self.next_id + 1;
                self.links.push(StoredLink { owner: user.id, version: version.offset(), link });
                proof {
                    assert(self@.links =~= upserted(before, user.id, given, version@, id));
                }
                Ok((copy, version))
            },
        }
    }
    /// Writes `links` for `user` one after the other at the versions that follow the user's
    /// watermark, and returns the new watermark. Fails, and then changes nothing, with
    /// `BadVersion` where the versions would leave the range of a version, and with `Sqlite`
    /// where the identifiers could run out.
    fn write_all(&mut self, user: &User, links: Vec<Link>) -> (r: DBResult<Version>)
        requires
            old(self)@.wf(),
        ensures
            final(self)@.wf(),
            r is Ok <==> old(self)@.watermark(user.id) + links@.len() <= i32::MAX && old(
                self,
            )@.next_id + links@.len() <= i64::MAX,
            r matches Err(e) ==> final(self)@ == old(self)@ && e == (if old(self)@.watermark(
                user.id,
            ) + links@.len() > i32::MAX {
                DBError::BadVersion
            } else {
                DBError::Sqlite
            }),
            r matches Ok(v) ==> {
                &&& final(self)@ == old(self)@.written(
                    user.id,
                    link_views(links@),
                    old(self)@.watermark(user.id) + 1,
                )
                &&& v@ == old(self)@.watermark(user.id) + links@.len()
                &&& v@ == final(self)@.watermark(user.id)
            },
    {
        let latest = self.get_latest_version(user).offset();
        let n = links.len();
        if n > (i32::MAX - latest) as usize {
            return Err(DBError::BadVersion);
        }
        if n as u64 > (i64::MAX - self.next_id) as u64 {
            return Err(DBError::Sqlite);
        }
        let ghost start = self@;
        let ghost all = link_views(links@);
        let ghost first = start.watermark(user.id) + 1;
        let mut ver: i32 = latest;
        let mut k: usize = 0;
        proof {
            assert(all.take(0) =~= Seq::<LinkView>::empty());
            lemma_watermark_is_max(start.links, user.id);
        }
        while k < n
            invariant
                k <= n,
                n == links@.len(),
                start.watermark(user.id) >= 0,
                all == link_views(links@),
                start.wf(),
                first == start.watermark(user.id) + 1,
                start.watermark(user.id) + n <= i32::MAX,
                start.next_id + n <= i64::MAX,
                ver == start.watermark(user.id) + k,
                self@ == start.written(user.id, all.take(k as int), first),
                self@.wf(),
                self@.next_id <= start.next_id + k,
            decreases n - k,
        {
            let link = links[k].duplicate();
            proof {
                let upto = all.take(k as int + 1);
                assert(upto.drop_last() =~= all.take(k as int));
                assert(upto.last() == link@);
                lemma_written(start, user.id, upto);
                // No link of the user is stored behind the version that comes next.
                lemma_written(start, user.id, all.take(k as int));
                lemma_watermark_is_max(self@.links, user.id);
                assert forall|i: int| !(row_at(self@.links, user.id, path_spec(link@.href), i)
                    && self@.links[i].version > ver + 1) by {}
            }
            ver = ver + 1;
            match self.store_link(link, Version::new(ver), user) {
                Ok(_) => {},
                Err(e) => {
                    return Err(e);
                },
            }
            k = k + 1;
        }
        proof {
            assert(all.take(n as int) =~= all);
            lemma_written(start, user.id, all);
        }
        Ok(Version::new(ver))
    }

    /// Takes in a batch of links that `user` prepared when their watermark was `version`.
    /// First write wins: a link of the batch whose path the user already has stored at
    /// `version` or later is dropped, and the stored link stays as it is. The other links
    /// are written in their order, the first at the version behind the user's watermark and
    /// each further one at the next version. Returns the new watermark. Fails, and then
    /// changes nothing, with `BadVersion` where the versions would leave the range of a
    /// version, and with `Sqlite` where the identifiers could run out.
    pub fn merge_links(&mut self, user: &User, links: Vec<Link>, version: Version) -> (r: DBResult<
        Version,
    >)
        requires
            old(self)@.wf(),
        ensures
            final(self)@.wf(),
            ({
                let kept = accepted(old(self)@.links, user.id, link_views(links@), version@);
                let latest = old(self)@.watermark(user.id);
                &&& r is Ok <==> latest + kept.len() <= i32::MAX && old(self)@.next_id
                    + kept.len() <= i64::MAX
                &&& r matches Err(e) ==> final(self)@ == old(self)@ && e == (if latest
                    + kept.len() > i32::MAX {
                    DBError::BadVersion
                } else {
                    DBError::Sqlite
                })
                &&& r matches Ok(v) ==> {
                    &&& final(self)@ == old(self)@.merged(user.id, link_views(links@), version@)
                    &&& v@ == latest + kept.len()
                    &&& v@ == final(self)@.watermark(user.id)
                }
            }),
    {
        let ghost rows = self@.links;
        let ghost batch = link_views(links@);
        let mut kept: Vec<Link> = Vec::new();
        let mut i: usize = 0;
        proof {
            assert(batch.take(0) =~= Seq::<LinkView>::empty());
            assert(link_views(kept@) =~= Seq::<LinkView>::empty());
        }
        while i < links.len()
            invariant
                i <= links.len(),
                rows == self@.links,
                self@.wf(),
                batch == link_views(links@),
                link_views(kept@) == accepted(rows, user.id, batch.take(i as int), version@),
            decreases links.len() - i,
        {
            let p = path(links[i].href.as_str());
            proof {
                let upto = batch.take(i as int + 1);
                assert(upto.drop_last() =~= batch.take(i as int));
                assert(upto.last() == links@[i as int]@);
            }
            let late = match self.find_row(user.id, &p) {
                Some(j) => {
                    proof {
                        lemma_conflicts_at_place(rows, user.id, p@, version@, j as int);
                    }
                    self.links[j].version >= version.offset()
                },
                None => false,
            };
            if !late {
                let ghost had = link_views(kept@);
                kept.push(links[i].duplicate());
                proof {
                    assert(link_views(kept@) =~= had.push(links@[i as int]@));
                }
            }
            i = i + 1;
        }
        proof {
            assert(batch.take(links@.len() as int) =~= batch);
        }
        self.write_all(user, kept)
    }

    /// Writes `links` for `user` whatever is stored: nothing is held back as a conflict.
    /// The links are written in their order at the versions that follow the user's
    /// watermark. Returns how many were written. Fails as [`Vault::merge_links`] does.
    pub fn import_for(&mut self, user: &User, links: Vec<Link>) -> (r: DBResult<u32>)
        requires
            old(self)@.wf(),
        ensures
            final(self)@.wf(),
            r is Ok <==> old(self)@.watermark(user.id) + links@.len() <= i32::MAX && old(
                self,
            )@.next_id + links@.len() <= i64::MAX,
            r matches Err(e) ==> final(self)@ == old(self)@ && e == (if old(self)@.watermark(
                user.id,
            ) + links@.len() > i32::MAX {
                DBError::BadVersion
            } else {
                DBError::Sqlite
            }),
            r matches Ok(n) ==> {
                &&& final(self)@ == old(self)@.written(
                    user.id,
                    link_views(links@),
                    old(self)@.watermark(user.id) + 1,
                )
                &&& n == links@.len()
                &&& final(self)@.watermark(user.id) == old(self)@.watermark(user.id) + n
            },
    {
        let n = links.len();
        proof {
            lemma_watermark_is_max(self@.links, user.id);
        }
        match self.write_all(user, links) {
            Ok(_) => Ok(n as u32),
            Err(e) => Err(e),
        }
    }
    /// Whether a search returns the row at `i`.
    fn admits_row(
        &self,
        i: usize,
        pattern: &Link,
        wanted_text: &String,
        wanted_path: &String,
        facet: &TagFacet,
        lookup_type: DBLookupType,
        version: Version,
        user_id: i64,
    ) -> (b: bool)
        requires
            i < self@.links.len(),
            wanted_text@ == "%"@ + pattern@.name + "%"@,
            wanted_path@ == path_spec(pattern@.href),
            facet@ == classify_spec(pattern_tokens(pattern@)),
        ensures
            b == (Criteria {
                pattern: pattern@,
                lookup: lookup_type,
                floor: version@,
                user_id,
            }).admits(self@.links[i as int]),
    {
        let row = &self.links[i];
        if !(row.owner == user_id || row.link.shared) {
            return false;
        }
        if version.is_valid() && row.version < version.offset() {
            return false;
        }
        if pattern.toread && !row.link.toread {
            return false;
        }
        if pattern.favourite && !row.link.favourite {
            return false;
        }
        let no_path = wanted_path.as_str().unicode_len() == 0;
        let row_path = path(row.link.href.as_str());
        let path_fits = match lookup_type {
            DBLookupType::Exact => no_path || row_path == *wanted_path,
            DBLookupType::Patterned => contains_str(row_path.as_str(), wanted_path.as_str()),
        };
        if !path_fits {
            return false;
        }
        let in_notes = match &row.link.description {
            Some(d) => like(wanted_text.as_str(), d.as_str()),
            None => false,
        };
        let text_fits = like(wanted_text.as_str(), row.link.name.as_str()) || in_notes || (no_path
            && like(wanted_text.as_str(), row.link.href.as_str()));
        if !text_fits {
            return false;
        }
        match &row.link.tags {
            Some(t) => facet.matches(t),
            None => {
                let none: Vec<String> = Vec::new();
                proof {
                    assert(views(none@) =~= Seq::<Seq<char>>::empty());
                }
                facet.matches(&none)
            },
        }
    }

    /// Adds to `out` the links that the search admits and whose favourite flag is
    /// `favourite`, the newest first, until `out` holds `limit` links.
    fn collect(
        &self,
        out: &mut Vec<Link>,
        favourite: bool,
        limit: u16,
        pattern: &Link,
        wanted_text: &String,
        wanted_path: &String,
        facet: &TagFacet,
        lookup_type: DBLookupType,
        version: Version,
        user_id: i64,
    )
        requires
            old(out)@.len() <= limit,
            wanted_text@ == "%"@ + pattern@.name + "%"@,
            wanted_path@ == path_spec(pattern@.href),
            facet@ == classify_spec(pattern_tokens(pattern@)),
        ensures
            final(out)@.len() <= limit,
            ({
                let c = Criteria {
                    pattern: pattern@,
                    lookup: lookup_type,
                    floor: version@,
                    user_id,
                };
                let more = newest_first(self@.links, c, favourite);
                let whole = link_views(old(out)@) + more;
                &&& final(out)@.len() <= whole.len()
                &&& link_views(final(out)@) == whole.take(final(out)@.len() as int)
                &&& final(out)@.len() == limit || final(out)@.len() == whole.len()
            }),
    {
        let ghost c = Criteria { pattern: pattern@, lookup: lookup_type, floor: version@, user_id };
        let ghost rows = self@.links;
        let ghost had = link_views(out@);
        let ghost more = newest_first(rows, c, favourite);
        let mut i: usize = self.links.len();
        proof {
            assert(rows.take(i as int) =~= rows);
            assert(had + Seq::<LinkView>::empty() =~= had);
        }
        let ghost mut got: Seq<LinkView> = Seq::empty();
        while i > 0 && out.len() < limit as usize
            invariant
                i <= self.links.len(),
                rows == self@.links,
                out@.len() <= limit,
                c == (Criteria { pattern: pattern@, lookup: lookup_type, floor: version@, user_id }),
                wanted_text@ == "%"@ + pattern@.name + "%"@,
                wanted_path@ == path_spec(pattern@.href),
                facet@ == classify_spec(pattern_tokens(pattern@)),
                more == newest_first(rows, c, favourite),
                link_views(out@) == had + got,
                more == got + newest_first(rows.take(i as int), c, favourite),
            decreases i,
        {
            i = i - 1;
            proof {
                let upto = rows.take(i as int + 1);
                assert(upto.drop_last() =~= rows.take(i as int));
                assert(upto.last() == rows[i as int]);
            }
            let fits = self.admits_row(
                i,
                pattern,
                wanted_text,
                wanted_path,
                facet,
                lookup_type,
                version,
                user_id,
            );
            if fits && self.links[i].link.favourite == favourite {
                let ghost before = link_views(out@);
                out.push(self.links[i].link.duplicate());
                proof {
                    assert(link_views(out@) =~= before.push(rows[i as int].link));
                    let older = newest_first(rows.take(i as int), c, favourite);
                    assert(got + (seq![rows[i as int].link] + older) =~= got.push(
                        rows[i as int].link,
                    ) + older);
                    got = got.push(rows[i as int].link);
                    assert(link_views(out@) =~= had + got);
                }
            }
        }
        proof {
            let whole = had + more;
            let rest = newest_first(rows.take(i as int), c, favourite);
            assert(whole =~= link_views(out@) + rest);
            assert(link_views(out@) =~= whole.take(out@.len() as int));
            if i == 0 {
                assert(rows.take(0) =~= Seq::<StoredLinkView>::empty());
                assert(rest.len() == 0);
            }
        }
    }

    /// Finds the links that `user` may see and that match `pattern`: the user's own links
    /// and the links that others share, from version `version` on where that is a position,
    /// with the pattern's title in title or notes (or in the address, where the pattern
    /// gives no address), at the pattern's path or, for a patterned lookup, at a path
    /// that holds it, with the flags `toread` and `favourite` where the pattern sets them,
    /// and with tags that pass the facet of the pattern's tag tokens. Favourites come first,
    /// and the newest first among equals; at most `limit` links are returned, ten where no
    /// limit or zero is given. With the links comes the user's watermark.
    pub fn find_for(
        &self,
        user: &User,
        pattern: &Link,
        lookup_type: DBLookupType,
        version: Version,
        limit: Option<u16>,
    ) -> (r: (Vec<Link>, Version))
        requires
            self@.wf(),
        ensures
            link_views(r.0@) == found(
                self@.links,
                Criteria { pattern: pattern@, lookup: lookup_type, floor: version@, user_id: user.id },
                effective_limit(limit, DEFAULT_LINK_LIMIT),
            ),
            by_favour_and_recency(link_views(r.0@)),
            r.1@ == self@.watermark(user.id),
    {
        proof {
            lemma_found_in_order(
                self@,
                Criteria { pattern: pattern@, lookup: lookup_type, floor: version@, user_id: user.id },
                effective_limit(limit, DEFAULT_LINK_LIMIT),
            );
        }
        let limit = limit_or(limit, DEFAULT_LINK_LIMIT);
        let wanted_text = Query::patternize(pattern.name.as_str());
        let wanted_path = path(pattern.href.as_str());
        let tokens: Vec<String> = match &pattern.tags {
            Some(t) => clone_strings(t),
            None => Vec::new(),
        };
        proof {
            assert(views(tokens@) =~= pattern_tokens(pattern@));
        }
        let facet = TagFacet::from_tokens(tokens);
        let mut out: Vec<Link> = Vec::new();
        let ghost c = Criteria {
            pattern: pattern@,
            lookup: lookup_type,
            floor: version@,
            user_id: user.id,
        };
        proof {
            assert(link_views(out@) =~= Seq::<LinkView>::empty());
        }
        self.collect(
            &mut out,
            true,
            limit,
            pattern,
            &wanted_text,
            &wanted_path,
            &facet,
            lookup_type,
            version,
            user.id,
        );
        let ghost favourites = newest_first(self@.links, c, true);
        let ghost first = link_views(out@);
        proof {
            assert(Seq::<LinkView>::empty() + favourites =~= favourites);
        }
        self.collect(
            &mut out,
            false,
            limit,
            pattern,
            &wanted_text,
            &wanted_path,
            &facet,
            lookup_type,
            version,
            user.id,
        );
        proof {
            let others = newest_first(self@.links, c, false);
            let all = favourites + others;
            assert(all.take(all.len() as int) =~= all);
            if first.len() == favourites.len() {
                assert(first =~= favourites);
                assert(link_views(out@) =~= all.take(out@.len() as int));
            } else {
                // The favourites alone reach the limit.
                assert(first.len() == limit);
                assert(first =~= favourites.take(limit as int));
                assert((first + others).take(limit as int) =~= first);
                assert(all.take(limit as int) =~= favourites.take(limit as int));
            }
            assert(link_views(out@) =~= found(self@.links, c, limit));
        }
        (out, self.get_latest_version(user))
    }
    /// Finds the links that match `pattern` as [`Vault::find_for`] does, by a patterned
    /// lookup.
    pub fn find_matching_for(
        &self,
        user: &User,
        pattern: &Link,
        version: Version,
        limit: Option<u16>,
    ) -> (r: (Vec<Link>, Version))
        requires
            self@.wf(),
        ensures
            link_views(r.0@) == found(
                self@.links,
                Criteria {
                    pattern: pattern@,
                    lookup: DBLookupType::Patterned,
                    floor: version@,
                    user_id: user.id,
                },
                effective_limit(limit, DEFAULT_LINK_LIMIT),
            ),
            by_favour_and_recency(link_views(r.0@)),
            r.1@ == self@.watermark(user.id),
    {
        self.find_for(user, pattern, DBLookupType::Patterned, version, limit)
    }

    /// Finds the links that match a query in the query language: the query is read by
    /// [`parse_query`], and the pattern is looked up as [`Vault::find_matching_for`] does.
    pub fn query_for(&self, user: &User, query: &str, version: Version, limit: Option<u16>) -> (r: (
        Vec<Link>,
        Version,
    ))
        requires
            self@.wf(),
        ensures
            link_views(r.0@) == found(
                self@.links,
                Criteria {
                    pattern: QueryTerms::of_tokens(words(query@)).flagged_pattern(),
                    lookup: DBLookupType::Patterned,
                    floor: version@,
                    user_id: user.id,
                },
                effective_limit(limit, DEFAULT_LINK_LIMIT),
            ),
            by_favour_and_recency(link_views(r.0@)),
            r.1@ == self@.watermark(user.id),
    {
        let pattern = parse_query(query);
        self.find_matching_for(user, &pattern, version, limit)
    }

    /// The first link that `user` may see at the address `href`, if there is one.
    pub fn link_for(&self, user: &User, href: &str) -> (r: Option<Link>)
        requires
            self@.wf(),
        ensures
            ({
                let hits = found(self@.links, address_search(href@, user.id), 1);
                &&& r is Some <==> hits.len() > 0
                &&& r matches Some(link) ==> link@ == hits[0]
            }),
    {
        let pattern = Link::new(None, href, "", None, None);
        proof {
            reveal_strlit("");
            assert(""@ =~= Seq::<char>::empty());
            assert(pattern@ == address_pattern(href@));
        }
        let (mut links, _) = self.find_for(
            user,
            &pattern,
            DBLookupType::Exact,
            Version::unknown(),
            Some(1),
        );
        let ghost hits = link_views(links@);
        if links.len() > 0 {
            let link = links.swap_remove(0);
            assert(link@ == hits[0]);
            Some(link)
        } else {
            None
        }
    }

    /// Deletes the link of `user` at the normalized path of `href` and returns it as it was
    /// stored; `None`, and no change, where the user has no link there.
    pub fn delete_for(&mut self, user: &User, href: &str) -> (r: Option<Link>)
        requires
            old(self)@.wf(),
        ensures
            final(self)@.wf(),
            final(self)@.next_id == old(self)@.next_id,
            r is Some <==> holds(old(self)@.links, user.id, path_spec(href@)),
            r is None ==> final(self)@ == old(self)@,
            r matches Some(link) ==> {
                let at = place(old(self)@.links, user.id, path_spec(href@));
                &&& link@ == old(self)@.links[at].link
                &&& final(self)@.links == old(self)@.links.remove(at)
                &&& !holds(final(self)@.links, user.id, path_spec(href@))
            },
    {
        let p = path(href);
        match self.find_row(user.id, &p) {
            Some(i) => {
                let ghost before = self@.links;
                proof {
                    lemma_place_unique(before, user.id, p@, i as int);
                    lemma_remove_keeps_distinct(before, i as int);
                }
                let row = self.links.remove(i);
                proof {
                    let after = before.remove(i as int);
                    assert(self@.links =~= after);
                    assert forall|k: int| !row_at(after, user.id, p@, k) by {
                        if 0 <= k < after.len() {
                            if k < i {
                                assert(after[k] == before[k]);
                                assert(before[k].key() != before[i as int].key());
                            } else {
                                assert(after[k] == before[k + 1]);
                                assert(before[i as int].key() != before[k + 1].key());
                            }
                        }
                    }
                }
                Some(row.link)
            },
            None => None,
        }
    }

    /// Marks the link of `user` at the normalized path of `href` as read and returns it as
    /// it was before; `None`, and no change, where the user has no link there. Nothing but
    /// the flag changes: the link keeps its version.
    pub fn read_for(&mut self, user: &User, href: &str) -> (r: Option<Link>)
        requires
            old(self)@.wf(),
        ensures
            final(self)@.wf(),
            final(self)@.next_id == old(self)@.next_id,
            r is Some <==> holds(old(self)@.links, user.id, path_spec(href@)),
            r is None ==> final(self)@ == old(self)@,
            r matches Some(link) ==> {
                let at = place(old(self)@.links, user.id, path_spec(href@));
                let was = old(self)@.links[at];
                &&& link@ == was.link
                &&& final(self)@.links == old(self)@.links.update(
                    at,
                    StoredLinkView { link: LinkView { toread: false, ..was.link }, ..was },
                )
            },
    {
        let p = path(href);
        match self.find_row(user.id, &p) {
            Some(i) => {
                let ghost before = self@.links;
                proof {
                    lemma_place_unique(before, user.id, p@, i as int);
                }
                let was = self.links[i].link.duplicate();
                let now = self.links[i].link.duplicate().set_toread(false);
                let owner = self.links[i].owner;
                let version = self.links[i].version;
                self.links.set(i, StoredLink { owner, version, link: now });
                proof {
                    let was_row = before[i as int];
                    let after = before.update(
                        i as int,
                        StoredLinkView { link: LinkView { toread: false, ..was_row.link }, ..was_row },
                    );
                    assert(self@.links =~= after);
                    assert forall|a: int, b: int| 0 <= a < b < after.len() implies (
                    #[trigger] after[a]).key() != (#[trigger] after[b]).key() by {
                        assert(before[a].key() != before[b].key());
                    }
                }
                Some(was)
            },
            None => None,
        }
    }

    /// The address of the link of `user` with the identifier `link_id`: that of the oldest
    /// such link. Fails with `Sqlite` where the user has no link with that identifier.
    pub fn href_for(&self, user: &User, link_id: i64) -> (r: DBResult<String>)
        ensures
            r is Ok <==> exists|i: int|
                0 <= i < self@.links.len() && (#[trigger] self@.links[i]).owner == user.id
                    && self@.links[i].link.id == Some(link_id),
            r matches Err(e) ==> e == DBError::Sqlite,
            r matches Ok(href) ==> exists|i: int|
                0 <= i < self@.links.len() && (#[trigger] self@.links[i]).owner == user.id
                    && self@.links[i].link.id == Some(link_id) && self@.links[i].link.href
                    == href@ && forall|k: int|
                    0 <= k < i ==> !((#[trigger] self@.links[k]).owner == user.id
                        && self@.links[k].link.id == Some(link_id)),
    {
        let mut i: usize = 0;
        while i < self.links.len()
            invariant
                i <= self.links.len(),
                forall|k: int|
                    0 <= k < i ==> !((#[trigger] self@.links[k]).owner == user.id
                        && self@.links[k].link.id == Some(link_id)),
            decreases self.links.len() - i,
        {
            let hit = self.links[i].owner == user.id && match self.links[i].link.id {
                Some(id) => id == link_id,
                None => false,
            };
            if hit {
                let href = self.links[i].link.href.clone();
                assert(self@.links[i as int].owner == user.id);
                return Ok(href);
            }
            i = i + 1;
        }
        Err(DBError::Sqlite)
    }
    /// Sorts tag tokens by their sigil; see [`classify_tags`].
    pub fn classify_tags(tags: Vec<Tag>) -> (facet: (Vec<Tag>, Vec<Tag>, Vec<Tag>))
        ensures
            views(facet.0@) == optional_of(views(tags@)),
            views(facet.1@) == required_of(views(tags@)),
            views(facet.2@) == excluded_of(views(tags@)),
    {
        classify_tags(tags)
    }

    /// Adds one link for the authenticated user, prepared at the user's current watermark,
    /// so that only a link that the user has never stored at this path is held back.
    /// `auth` is what authentication gave; where it failed, its error is returned and
    /// nothing is read or written.
    pub fn add_link(&mut self, auth: &DBResult<User>, link: Link) -> (r: DBResult<Version>)
        requires
            old(self)@.wf(),
        ensures
            final(self)@.wf(),
            auth matches Err(e) ==> r == Err::<Version, DBError>(*e) && final(self)@ == old(self)@,
            auth matches Ok(user) ==> {
                let latest = old(self)@.watermark(user.id);
                let kept = accepted(old(self)@.links, user.id, seq![link@], latest);
                &&& r is Ok <==> latest + kept.len() <= i32::MAX && old(self)@.next_id
                    + kept.len() <= i64::MAX
                &&& r matches Err(e) ==> final(self)@ == old(self)@ && e == (if latest
                    + kept.len() > i32::MAX {
                    DBError::BadVersion
                } else {
                    DBError::Sqlite
                })
                &&& r matches Ok(v) ==> {
                    &&& final(self)@ == old(self)@.merged(user.id, seq![link@], latest)
                    &&& v@ == latest + kept.len()
                    &&& v@ == final(self)@.watermark(user.id)
                }
            },
    {
        match auth {
            Err(e) => Err(*e),
            Ok(user) => {
                let latest = self.get_latest_version(user);
                let mut links: Vec<Link> = Vec::new();
                links.push(link);
                proof {
                    assert(link_views(links@) =~= seq![link@]);
                }
                self.merge_links(user, links, latest)
            },
        }
    }

    /// Takes in a batch of links of the authenticated user, as [`Vault::merge_links`] does.
    /// `auth` is what authentication gave; where it failed, its error is returned and
    /// nothing is read or written.
    pub fn add_links(&mut self, auth: &DBResult<User>, links: Vec<Link>, version: Version) -> (r:
        DBResult<Version>)
        requires
            old(self)@.wf(),
        ensures
            final(self)@.wf(),
            auth matches Err(e) ==> r == Err::<Version, DBError>(*e) && final(self)@ == old(self)@,
            auth matches Ok(user) ==> {
                let kept = accepted(old(self)@.links, user.id, link_views(links@), version@);
                let latest = old(self)@.watermark(user.id);
                &&& r is Ok <==> latest + kept.len() <= i32::MAX && old(self)@.next_id
                    + kept.len() <= i64::MAX
                &&& r matches Err(e) ==> final(self)@ == old(self)@ && e == (if latest
                    + kept.len() > i32::MAX {
                    DBError::BadVersion
                } else {
                    DBError::Sqlite
                })
                &&& r matches Ok(v) ==> {
                    &&& final(self)@ == old(self)@.merged(user.id, link_views(links@), version@)
                    &&& v@ == latest + kept.len()
                    &&& v@ == final(self)@.watermark(user.id)
                }
            },
    {
        match auth {
            Err(e) => Err(*e),
            Ok(user) => self.merge_links(user, links, version),
        }
    }

    /// Writes a batch of links of the authenticated user whatever is stored, as
    /// [`Vault::import_for`] does. Where authentication failed, its error is returned and
    /// nothing is read or written.
    pub fn import_links(&mut self, auth: &DBResult<User>, links: Vec<Link>) -> (r: DBResult<u32>)
        requires
            old(self)@.wf(),
        ensures
            final(self)@.wf(),
            auth matches Err(e) ==> r == Err::<u32, DBError>(*e) && final(self)@ == old(self)@,
            auth matches Ok(user) ==> {
                let latest = old(self)@.watermark(user.id);
                &&& r is Ok <==> latest + links@.len() <= i32::MAX && old(self)@.next_id
                    + links@.len() <= i64::MAX
                &&& r matches Err(e) ==> final(self)@ == old(self)@ && e == (if latest
                    + links@.len() > i32::MAX {
                    DBError::BadVersion
                } else {
                    DBError::Sqlite
                })
                &&& r matches Ok(n) ==> {
                    &&& final(self)@ == old(self)@.written(
                        user.id,
                        link_views(links@),
                        latest + 1,
                    )
                    &&& n == links@.len()
                    &&& final(self)@.watermark(user.id) == latest + n
                }
            },
    {
        match auth {
            Err(e) => Err(*e),
            Ok(user) => self.import_for(user, links),
        }
    }

    /// Finds the links that the authenticated user may see and that match `pattern`, as
    /// [`Vault::find_for`] does. Where authentication failed, its error is returned.
    pub fn find_links(
        &self,
        auth: &DBResult<User>,
        pattern: &Link,
        lookup_type: DBLookupType,
        version: Version,
        limit: Option<u16>,
    ) -> (r: DBResult<(Vec<Link>, Version)>)
        requires
            self@.wf(),
        ensures
            auth matches Err(e) ==> r == Err::<(Vec<Link>, Version), DBError>(*e),
            auth matches Ok(user) ==> r is Ok && link_views(r->Ok_0.0@) == found(
                self@.links,
                Criteria { pattern: pattern@, lookup: lookup_type, floor: version@, user_id: user.id },
                effective_limit(limit, DEFAULT_LINK_LIMIT),
            ) && by_favour_and_recency(link_views(r->Ok_0.0@)) && r->Ok_0.1@ == self@.watermark(
                user.id,
            ),
    {
        match auth {
            Err(e) => Err(*e),
            Ok(user) => Ok(self.find_for(user, pattern, lookup_type, version, limit)),
        }
    }

    /// Finds links by a patterned lookup; see [`Vault::find_links`].
    pub fn find_matching_links(
        &self,
        auth: &DBResult<User>,
        pattern: &Link,
        version: Version,
        limit: Option<u16>,
    ) -> (r: DBResult<(Vec<Link>, Version)>)
        requires
            self@.wf(),
        ensures
            auth matches Err(e) ==> r == Err::<(Vec<Link>, Version), DBError>(*e),
            auth matches Ok(user) ==> r is Ok && link_views(r->Ok_0.0@) == found(
                self@.links,
                Criteria {
                    pattern: pattern@,
                    lookup: DBLookupType::Patterned,
                    floor: version@,
                    user_id: user.id,
                },
                effective_limit(limit, DEFAULT_LINK_LIMIT),
            ) && by_favour_and_recency(link_views(r->Ok_0.0@)) && r->Ok_0.1@ == self@.watermark(
                user.id,
            ),
    {
        self.find_links(auth, pattern, DBLookupType::Patterned, version, limit)
    }

    /// Finds links by a query in the query language; see [`Vault::query_for`].
    pub fn query_links(
        &self,
        auth: &DBResult<User>,
        query: &str,
        version: Version,
        limit: Option<u16>,
    ) -> (r: DBResult<(Vec<Link>, Version)>)
        requires
            self@.wf(),
        ensures
            auth matches Err(e) ==> r == Err::<(Vec<Link>, Version), DBError>(*e),
            auth matches Ok(user) ==> r is Ok && link_views(r->Ok_0.0@) == found(
                self@.links,
                Criteria {
                    pattern: QueryTerms::of_tokens(words(query@)).flagged_pattern(),
                    lookup: DBLookupType::Patterned,
                    floor: version@,
                    user_id: user.id,
                },
                effective_limit(limit, DEFAULT_LINK_LIMIT),
            ) && by_favour_and_recency(link_views(r->Ok_0.0@)) && r->Ok_0.1@ == self@.watermark(
                user.id,
            ),
    {
        match auth {
            Err(e) => Err(*e),
            Ok(user) => Ok(self.query_for(user, query, version, limit)),
        }
    }

    /// The address of the authenticated user's link with the identifier `link_id`; see
    /// [`Vault::href_for`].
    pub fn get_href(&self, auth: &DBResult<User>, link_id: i64) -> (r: DBResult<String>)
        ensures
            auth matches Err(e) ==> r == Err::<String, DBError>(*e),
            auth matches Ok(user) ==> {
                &&& r is Ok <==> exists|i: int|
                    0 <= i < self@.links.len() && (#[trigger] self@.links[i]).owner == user.id
                        && self@.links[i].link.id == Some(link_id)
                &&& r matches Err(e) ==> e == DBError::Sqlite
                &&& r matches Ok(href) ==> exists|i: int|
                    0 <= i < self@.links.len() && (#[trigger] self@.links[i]).owner == user.id
                        && self@.links[i].link.id == Some(link_id) && self@.links[i].link.href
                        == href@
            },
    {
        match auth {
            Err(e) => Err(*e),
            Ok(user) => self.href_for(user, link_id),
        }
    }

    /// The first link that the authenticated user may see at the address `href`; see
    /// [`Vault::link_for`].
    pub fn get_link(&self, auth: &DBResult<User>, href: &str) -> (r: DBResult<Option<Link>>)
        requires
            self@.wf(),
        ensures
            auth matches Err(e) ==> r == Err::<Option<Link>, DBError>(*e),
            auth matches Ok(user) ==> {
                let hits = found(self@.links, address_search(href@, user.id), 1);
                &&& r is Ok
                &&& r->Ok_0 is Some <==> hits.len() > 0
                &&& r->Ok_0 matches Some(link) ==> link@ == hits[0]
            },
    {
        match auth {
            Err(e) => Err(*e),
            Ok(user) => Ok(self.link_for(user, href)),
        }
    }

    /// Deletes the authenticated user's link at `href`; see [`Vault::delete_for`]. Where
    /// authentication failed, its error is returned and nothing changes.
    pub fn del_link(&mut self, auth: &DBResult<User>, href: &str) -> (r: DBResult<Option<Link>>)
        requires
            old(self)@.wf(),
        ensures
            final(self)@.wf(),
            auth matches Err(e) ==> r == Err::<Option<Link>, DBError>(*e) && final(self)@ == old(
                self,
            )@,
            auth matches Ok(user) ==> {
                &&& r is Ok
                &&& r->Ok_0 is Some <==> holds(old(self)@.links, user.id, path_spec(href@))
                &&& r->Ok_0 is None ==> final(self)@ == old(self)@
                &&& r->Ok_0 matches Some(link) ==> {
                    let at = place(old(self)@.links, user.id, path_spec(href@));
                    &&& link@ == old(self)@.links[at].link
                    &&& final(self)@.links == old(self)@.links.remove(at)
                    &&& final(self)@.next_id == old(self)@.next_id
                    &&& !holds(final(self)@.links, user.id, path_spec(href@))
                }
            },
    {
        match auth {
            Err(e) => Err(*e),
            Ok(user) => Ok(self.delete_for(user, href)),
        }
    }

    /// Marks the authenticated user's link at `href` as read; see [`Vault::read_for`]. Where
    /// authentication failed, its error is returned and nothing changes.
    pub fn read_link(&mut self, auth: &DBResult<User>, href: &str) -> (r: DBResult<Option<Link>>)
        requires
            old(self)@.wf(),
        ensures
            final(self)@.wf(),
            auth matches Err(e) ==> r == Err::<Option<Link>, DBError>(*e) && final(self)@ == old(
                self,
            )@,
            auth matches Ok(user) ==> {
                &&& r is Ok
                &&& r->Ok_0 is Some <==> holds(old(self)@.links, user.id, path_spec(href@))
                &&& r->Ok_0 is None ==> final(self)@ == old(self)@
                &&& r->Ok_0 matches Some(link) ==> {
                    let at = place(old(self)@.links, user.id, path_spec(href@));
                    let was = old(self)@.links[at];
                    &&& link@ == was.link
                    &&& final(self)@.next_id == old(self)@.next_id
                    &&& final(self)@.links == old(self)@.links.update(
                        at,
                        StoredLinkView { link: LinkView { toread: false, ..was.link }, ..was },
                    )
                }
            },
    {
        match auth {
            Err(e) => Err(*e),
            Ok(user) => Ok(self.read_for(user, href)),
        }
    }
}

} // verus!
