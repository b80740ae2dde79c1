use vstd::prelude::*;
use crate::link::LinkView;
use crate::query::DBLookupType;
use crate::statements::pattern_tokens;
use crate::tags::classify_spec;
use crate::utils::{contains_seq, lemma_like_anything, occurs_at, path_spec, scheme_mark};
use crate::vault::{
    accepted, address_search, all_found, conflicts, distinct_keys, found, holds, lemma_upserted,
    lemma_written, newest_first, place, row_at, tags_of, Criteria, StoredLinkView, VaultView,
};

verus! {

/// A link that the search admits is among all that it finds.
pub proof fn lemma_admitted_is_found(rows: Seq<StoredLinkView>, c: Criteria, i: int)
    requires
        0 <= i < rows.len(),
        c.admits(rows[i]),
    ensures
        newest_first(rows, c, rows[i].link.favourite).contains(rows[i].link),
        all_found(rows, c).contains(rows[i].link),
    decreases rows.len(),
{
    let f = rows[i].link.favourite;
    let front = rows.drop_last();
    let older = newest_first(front, c, f);
    if i == rows.len() - 1 {
        assert((seq![rows.last().link] + older)[0] == rows[i].link);
    } else {
        lemma_admitted_is_found(front, c, i);
        assert(front[i] == rows[i]);
        let k = choose|k: int| 0 <= k < older.len() && older[k] == rows[i].link;
        if c.admits(rows.last()) && rows.last().link.favourite == f {
            assert((seq![rows.last().link] + older)[k + 1] == rows[i].link);
        }
    }
    let mine = newest_first(rows, c, f);
    let k = choose|k: int| 0 <= k < mine.len() && mine[k] == rows[i].link;
    if f {
        assert(all_found(rows, c)[k] == rows[i].link);
    } else {
        assert(all_found(rows, c)[newest_first(rows, c, true).len() + k] == rows[i].link);
    }
}

/// Where the search admits one row only, that row's link is all that it finds.
pub proof fn lemma_only_admitted_is_all(rows: Seq<StoredLinkView>, c: Criteria, i: int)
    requires
        0 <= i < rows.len(),
        c.admits(rows[i]),
        forall|j: int| 0 <= j < rows.len() && j != i ==> !c.admits(#[trigger] rows[j]),
    ensures
        all_found(rows, c) == seq![rows[i].link],
{
    lemma_newest_first_of_one(rows, c, i, true);
    lemma_newest_first_of_one(rows, c, i, false);
    if rows[i].link.favourite {
        assert(seq![rows[i].link] + Seq::<LinkView>::empty() =~= seq![rows[i].link]);
    } else {
        assert(Seq::<LinkView>::empty() + seq![rows[i].link] =~= seq![rows[i].link]);
    }
}

/// Where the search admits no row but perhaps the one at `i`, it finds that row's link
/// among the links with its favourite flag, and nothing else.
pub proof fn lemma_newest_first_of_one(
    rows: Seq<StoredLinkView>,
    c: Criteria,
    i: int,
    favourite: bool,
)
    requires
        forall|j: int| 0 <= j < rows.len() && j != i ==> !c.admits(#[trigger] rows[j]),
    ensures
        newest_first(rows, c, favourite) == if 0 <= i < rows.len() && c.admits(rows[i])
            && rows[i].link.favourite == favourite {
            seq![rows[i].link]
        } else {
            Seq::<LinkView>::empty()
        },
    decreases rows.len(),
{
    if rows.len() > 0 {
        let front = rows.drop_last();
        assert forall|j: int| 0 <= j < front.len() && j != i implies !c.admits(
            #[trigger] front[j],
        ) by {
            assert(front[j] == rows[j]);
        }
        lemma_newest_first_of_one(front, c, i, favourite);
        if i == rows.len() - 1 {
            assert(seq![rows.last().link] + Seq::<LinkView>::empty() =~= seq![rows.last().link]);
        } else {
            assert(!c.admits(rows[rows.len() - 1]));
            if 0 <= i < front.len() {
                assert(front[i] == rows[i]);
            }
        }
    }
}

/// The search for an address admits the searching user's own link at that address.
pub proof fn lemma_address_search_admits(row: StoredLinkView, href: Seq<char>)
    requires
        path_spec(row.link.href) == path_spec(href),
    ensures
        address_search(href, row.owner).admits(row),
{
    let c = address_search(href, row.owner);
    reveal_strlit("%");
    reveal_strlit("%%");
    assert("%"@ + c.pattern.name + "%"@ =~= "%%"@);
    lemma_like_anything(row.link.name, 0);
    let facet = classify_spec(pattern_tokens(c.pattern));
    assert(pattern_tokens(c.pattern) =~= Seq::<Seq<char>>::empty());
    assert(facet.optional.len() == 0);
    assert(facet.required.len() == 0);
    assert(facet.excluded.len() == 0);
}

/// Round trip. After a user has written a link, a search for its exact address by the same
/// user finds a link with the written address, title, notes, tags and flags.
pub proof fn lemma_written_link_is_found(v: VaultView, owner: i64, link: LinkView, version: int)
    requires
        v.wf(),
    ensures
        exists|k: int|
            0 <= k < all_found(
                v.stored(owner, link, version).links,
                address_search(link.href, owner),
            ).len() && (#[trigger] all_found(
                v.stored(owner, link, version).links,
                address_search(link.href, owner),
            )[k]).same_content(link),
{
    let after = v.stored(owner, link, version).links;
    let c = address_search(link.href, owner);
    lemma_upserted(v.links, owner, link, version, v.next_id as i64);
    let at = place(after, owner, path_spec(link.href));
    assert(row_at(after, owner, path_spec(link.href), at));
    lemma_address_search_admits(after[at], link.href);
    lemma_admitted_is_found(after, c, at);
    let all = all_found(after, c);
    let k = choose|k: int| 0 <= k < all.len() && all[k] == after[at].link;
    assert(all[k].same_content(link));
}

/// Round trip, exactly. After a user has written a link with a path that is not empty, a
/// search for its exact address by the same user returns one link, with the written
/// address, title, notes, tags and flags, as long as no other user shares a link at that
/// path.
pub proof fn lemma_round_trip(
    v: VaultView,
    owner: i64,
    link: LinkView,
    version: int,
    limit: u16,
)
    requires
        v.wf(),
        limit >= 1,
        path_spec(link.href).len() > 0,
        forall|i: int|
            0 <= i < v.links.len() && (#[trigger] v.links[i]).link.shared && path_spec(
                v.links[i].link.href,
            ) == path_spec(link.href) ==> v.links[i].owner == owner,
    ensures
        ({
            let hits = found(
                v.stored(owner, link, version).links,
                address_search(link.href, owner),
                limit,
            );
            hits.len() == 1 && hits[0].same_content(link)
        }),
{
    let after = v.stored(owner, link, version).links;
    let path = path_spec(link.href);
    let c = address_search(link.href, owner);
    lemma_upserted(v.links, owner, link, version, v.next_id as i64);
    let at = place(after, owner, path);
    assert(row_at(after, owner, path, at));
    lemma_address_search_admits(after[at], link.href);
    assert forall|j: int| 0 <= j < after.len() && j != at implies !c.admits(
        #[trigger] after[j],
    ) by {
        if c.admits(after[j]) {
            assert(c.path_fits(after[j]));
            assert(path_spec(after[j].link.href) == path);
            if after[j].owner == owner {
                if j < at {
                    assert(after[j].key() != after[at].key());
                } else {
                    assert(after[at].key() != after[j].key());
                }
            } else {
                assert(after[j].key() != (owner, path));
                assert(v.links[j] == after[j]);
            }
        }
    }
    lemma_only_admitted_is_all(after, c, at);
}

/// Every accepted link is free of conflict.
pub proof fn lemma_accepted_are_free(
    rows: Seq<StoredLinkView>,
    owner: i64,
    batch: Seq<LinkView>,
    base: int,
)
    ensures
        forall|k: int|
            0 <= k < accepted(rows, owner, batch, base).len() ==> !conflicts(
                rows,
                owner,
                path_spec((#[trigger] accepted(rows, owner, batch, base)[k]).href),
                base,
            ),
    decreases batch.len(),
{
    if batch.len() > 0 {
        lemma_accepted_are_free(rows, owner, batch.drop_last(), base);
    }
}

/// Writes at other paths leave a stored link where and as it is.
pub proof fn lemma_written_keeps_row(
    v: VaultView,
    owner: i64,
    links: Seq<LinkView>,
    first: int,
    i: int,
)
    requires
        distinct_keys(v.links),
        0 <= i < v.links.len(),
        forall|k: int|
            0 <= k < links.len() ==> (owner, path_spec((#[trigger] links[k]).href))
                != v.links[i].key(),
    ensures
        distinct_keys(v.written(owner, links, first).links),
        i < v.written(owner, links, first).links.len(),
        v.written(owner, links, first).links[i] == v.links[i],
    decreases links.len(),
{
    if links.len() > 0 {
        lemma_written_keeps_row(v, owner, links.drop_last(), first, i);
        let before = v.written(owner, links.drop_last(), first);
        let link = links.last();
        lemma_upserted(
            before.links,
            owner,
            link,
            first + links.len() - 1,
            before.next_id as i64,
        );
        assert(links[links.len() - 1] == link);
    }
}

/// Conflict rejection, the link. Where a user's link is stored at a version, a batch of
/// the same user that was prepared at that version or an earlier one leaves the stored link
/// as it is, whatever else the batch holds.
pub proof fn lemma_conflict_keeps_link(
    v: VaultView,
    owner: i64,
    batch: Seq<LinkView>,
    base: int,
    i: int,
)
    requires
        v.wf(),
        0 <= i < v.links.len(),
        v.links[i].owner == owner,
        base <= v.links[i].version,
    ensures
        i < v.merged(owner, batch, base).links.len(),
        v.merged(owner, batch, base).links[i] == v.links[i],
{
    let kept = accepted(v.links, owner, batch, base);
    lemma_accepted_are_free(v.links, owner, batch, base);
    let path = path_spec(v.links[i].link.href);
    assert(row_at(v.links, owner, path, i));
    assert(conflicts(v.links, owner, path, base));
    lemma_written_keeps_row(v, owner, kept, v.watermark(owner) + 1, i);
}

/// Conflict rejection, the watermark. A batch of which every link is in conflict changes
/// nothing: every stored link and every watermark stay as they are.
pub proof fn lemma_conflict_keeps_watermark(
    v: VaultView,
    owner: i64,
    batch: Seq<LinkView>,
    base: int,
)
    requires
        forall|k: int|
            0 <= k < batch.len() ==> conflicts(
                v.links,
                owner,
                path_spec((#[trigger] batch[k]).href),
                base,
            ),
    ensures
        accepted(v.links, owner, batch, base).len() == 0,
        v.merged(owner, batch, base) == v,
    decreases batch.len(),
{
    if batch.len() > 0 {
        let front = batch.drop_last();
        assert forall|k: int| 0 <= k < front.len() implies conflicts(
            v.links,
            owner,
            path_spec((#[trigger] front[k]).href),
            base,
        ) by {
            assert(front[k] == batch[k]);
        }
        lemma_conflict_keeps_watermark(v, owner, front, base);
        assert(batch[batch.len() - 1] == batch.last());
    }
}

/// The store after a user's batches have been taken in one after the other; each entry
/// is a batch and the version at which it was prepared.
pub open spec fn merged_all(v: VaultView, owner: i64, calls: Seq<(Seq<LinkView>, int)>) -> VaultView
    decreases calls.len(),
{
    if calls.len() == 0 {
        v
    } else {
        merged_all(v, owner, calls.drop_last()).merged(owner, calls.last().0, calls.last().1)
    }
}

/// Monotonic watermark. Where a user starts at watermark 0 and each of `calls` has exactly
/// one link accepted, the user's watermark after them is their number.
pub proof fn lemma_monotonic_watermark(v: VaultView, owner: i64, calls: Seq<(Seq<LinkView>, int)>)
    requires
        v.wf(),
        v.watermark(owner) == 0,
        v.next_id + calls.len() <= i64::MAX,
        forall|k: int|
            0 <= k < calls.len() ==> accepted(
                merged_all(v, owner, calls.take(k)).links,
                owner,
                (#[trigger] calls[k]).0,
                calls[k].1,
            ).len() == 1,
    ensures
        merged_all(v, owner, calls).wf(),
        merged_all(v, owner, calls).watermark(owner) == calls.len(),
        merged_all(v, owner, calls).next_id <= v.next_id + calls.len(),
    decreases calls.len(),
{
    if calls.len() > 0 {
        let front = calls.drop_last();
        assert forall|k: int| 0 <= k < front.len() implies accepted(
            merged_all(v, owner, front.take(k)).links,
            owner,
            (#[trigger] front[k]).0,
            front[k].1,
        ).len() == 1 by {
            assert(front.take(k) =~= calls.take(k));
            assert(front[k] == calls[k]);
        }
        lemma_monotonic_watermark(v, owner, front);
        let before = merged_all(v, owner, front);
        let last = calls[calls.len() - 1];
        assert(calls.take(calls.len() - 1) =~= front);
        let kept = accepted(before.links, owner, last.0, last.1);
        assert(kept.len() == 1);
        lemma_written(before, owner, kept);
    }
}

/// The watermark after a batch: it grows by the number of accepted links, and no other
/// user's watermark moves.
pub proof fn lemma_merge_moves_watermark(v: VaultView, owner: i64, batch: Seq<LinkView>, base: int)
    requires
        v.wf(),
        v.next_id + accepted(v.links, owner, batch, base).len() <= i64::MAX,
    ensures
        v.merged(owner, batch, base).wf(),
        v.merged(owner, batch, base).watermark(owner) == v.watermark(owner) + accepted(
            v.links,
            owner,
            batch,
            base,
        ).len(),
        forall|other: i64|
            other != owner ==> v.merged(owner, batch, base).watermark(other) == v.watermark(
                other,
            ),
{
    lemma_written(v, owner, accepted(v.links, owner, batch, base));
}

/// Whatever the search finds is the link of a row that it admits.
pub proof fn lemma_found_are_admitted(rows: Seq<StoredLinkView>, c: Criteria, favourite: bool)
    ensures
        forall|k: int|
            0 <= k < newest_first(rows, c, favourite).len() ==> exists|i: int|
                0 <= i < rows.len() && c.admits(rows[i]) && rows[i].link == #[trigger] newest_first(
                    rows,
                    c,
                    favourite,
                )[k],
    decreases rows.len(),
{
    if rows.len() > 0 {
        let front = rows.drop_last();
        lemma_found_are_admitted(front, c, favourite);
        let older = newest_first(front, c, favourite);
        let mine = newest_first(rows, c, favourite);
        let first = c.admits(rows.last()) && rows.last().link.favourite == favourite;
        assert forall|k: int| 0 <= k < mine.len() implies exists|i: int|
            0 <= i < rows.len() && c.admits(rows[i]) && rows[i].link == #[trigger] mine[k] by {
            if first && k == 0 {
                assert(rows[rows.len() - 1].link == mine[0]);
            } else {
                let j = if first {
                    k - 1
                } else {
                    k
                };
                assert(mine[k] == older[j]);
                let i = choose|i: int|
                    0 <= i < front.len() && c.admits(front[i]) && front[i].link == older[j];
                assert(rows[i] == front[i]);
            }
        }
    }
}

/// The search that asks for nothing but tags: the tokens `tokens`, any version, any
/// address, any title.
pub open spec fn tag_search(tokens: Seq<Seq<char>>, user_id: i64) -> Criteria {
    Criteria {
        pattern: (LinkView {
            id: None,
            href: Seq::empty(),
            name: Seq::empty(),
            description: None,
            tags: Some(tokens),
            hash: None,
            shared: false,
            toread: false,
            favourite: false,
            created_at: Seq::empty(),
        }).digested(),
        lookup: DBLookupType::Patterned,
        floor: -1,
        user_id,
    }
}

/// The tag algebra. A search by tag tokens admits a link that the user may see exactly if
/// the link has one of the optional tags (where there is any), has all the required tags,
/// and has none of the excluded tags; and what it admits it finds.
pub proof fn lemma_tag_algebra(
    rows: Seq<StoredLinkView>,
    tokens: Seq<Seq<char>>,
    user_id: i64,
    i: int,
)
    requires
        0 <= i < rows.len(),
        rows[i].owner == user_id || rows[i].link.shared,
    ensures
        tag_search(tokens, user_id).admits(rows[i]) <==> classify_spec(tokens).admits(
            tags_of(rows[i].link),
        ),
        classify_spec(tokens).admits(tags_of(rows[i].link)) ==> all_found(
            rows,
            tag_search(tokens, user_id),
        ).contains(rows[i].link),
{
    let c = tag_search(tokens, user_id);
    let row = rows[i];
    reveal_strlit("%");
    reveal_strlit("%%");
    assert("%"@ + c.pattern.name + "%"@ =~= "%%"@);
    lemma_like_anything(row.link.name, 0);
    assert(c.text_fits(row));
    let none = Seq::<char>::empty();
    assert(!contains_seq(none, scheme_mark())) by {
        assert forall|at: int| !occurs_at(none, scheme_mark(), at) by {}
    }
    assert(path_spec(none) =~= none);
    let target = path_spec(row.link.href);
    assert(occurs_at(target, none, 0)) by {
        assert(target.subrange(0, 0) =~= none);
    }
    assert(c.path_fits(row));
    assert(pattern_tokens(c.pattern) == tokens);
    if c.admits(row) {
        lemma_admitted_is_found(rows, c, i);
    }
}

} // verus!
