use vstd::prelude::*;
use crate::link::Tag;
use crate::utils::{
    chars_of, contains_entry, every_spec, join_seq, some_spec, split_seq, substring, views,
};

verus! {

/// What a list of tag tokens asks of a link's tags: at least one of `optional` (where there
/// is any), all of `required`, none of `excluded`.
#[derive(Debug)]
pub struct TagFacet {
    pub optional: Vec<Tag>,
    pub required: Vec<Tag>,
    pub excluded: Vec<Tag>,
}

/// A facet as three lists of tag texts.
pub ghost struct TagFacetView {
    pub optional: Seq<Seq<char>>,
    pub required: Seq<Seq<char>>,
    pub excluded: Seq<Seq<char>>,
}

impl View for TagFacet {
    type V = TagFacetView;

    open spec fn view(&self) -> TagFacetView {
        TagFacetView {
            optional: views(self.optional@),
            required: views(self.required@),
            excluded: views(self.excluded@),
        }
    }
}

/// Whether a token asks for its tag to be present.
pub open spec fn is_required_token(token: Seq<char>) -> bool {
    token.len() > 0 && token[0] == '+'
}

/// Whether a token asks for its tag to be absent.
pub open spec fn is_excluded_token(token: Seq<char>) -> bool {
    token.len() > 0 && token[0] == '-'
}

/// The tokens without a sigil, in their order.
pub open spec fn optional_of(tokens: Seq<Seq<char>>) -> Seq<Seq<char>> {
    tokens.filter(|t: Seq<char>| !is_required_token(t) && !is_excluded_token(t))
}

/// The tokens that start with `+`, without it, in their order.
pub open spec fn required_of(tokens: Seq<Seq<char>>) -> Seq<Seq<char>> {
    tokens.filter(|t: Seq<char>| is_required_token(t)).map_values(|t: Seq<char>| t.skip(1))
}

/// The tokens that start with `-`, without it, in their order.
pub open spec fn excluded_of(tokens: Seq<Seq<char>>) -> Seq<Seq<char>> {
    tokens.filter(|t: Seq<char>| is_excluded_token(t)).map_values(|t: Seq<char>| t.skip(1))
}

/// The facet that a list of tokens stands for.
pub open spec fn classify_spec(tokens: Seq<Seq<char>>) -> TagFacetView {
    TagFacetView {
        optional: optional_of(tokens),
        required: required_of(tokens),
        excluded: excluded_of(tokens),
    }
}

impl TagFacetView {
    /// Whether a link with the tags `tags`, read as a set, passes: it has one of the
    /// optional tags, unless there is none to have; it has every required tag; it has no
    /// excluded tag.
    pub open spec fn admits(self, tags: Seq<Seq<char>>) -> bool {
        &&& self.optional.len() == 0 || exists|k: int|
            0 <= k < self.optional.len() && tags.contains(#[trigger] self.optional[k])
        &&& forall|k: int|
            0 <= k < self.required.len() ==> tags.contains(#[trigger] self.required[k])
        &&& forall|k: int|
            0 <= k < self.excluded.len() ==> !tags.contains(#[trigger] self.excluded[k])
    }
}

/// Whether no entry of `parts` holds a comma.
pub open spec fn comma_free(parts: Seq<Seq<char>>) -> bool {
    forall|k: int, j: int|
        0 <= k < parts.len() && 0 <= j < parts[k].len() ==> #[trigger] parts[k][j] != ','
}

/// A text without separator, written behind a separator, is one more entry.
pub proof fn lemma_split_append_entry(a: Seq<char>, y: Seq<char>, sep: char)
    requires
        forall|j: int| 0 <= j < y.len() ==> y[j] != sep,
    ensures
        split_seq(a + seq![sep] + y, sep) == split_seq(a, sep).push(y),
    decreases y.len(),
{
    let whole = a + seq![sep] + y;
    if y.len() == 0 {
        assert(whole.drop_last() =~= a);
        assert(y =~= Seq::<char>::empty());
    } else {
        let shorter = y.drop_last();
        lemma_split_append_entry(a, shorter, sep);
        assert(whole.drop_last() =~= a + seq![sep] + shorter);
        assert(whole.last() == y.last());
        let before = split_seq(a, sep).push(shorter);
        assert(before.drop_last() =~= split_seq(a, sep));
        assert(shorter.push(y.last()) =~= y);
    }
}

/// A text without separator is its own single entry.
pub proof fn lemma_split_single(y: Seq<char>, sep: char)
    requires
        forall|j: int| 0 <= j < y.len() ==> y[j] != sep,
    ensures
        split_seq(y, sep) == seq![y],
    decreases y.len(),
{
    if y.len() > 0 {
        let shorter = y.drop_last();
        lemma_split_single(shorter, sep);
        assert(seq![shorter].drop_last().push(shorter.push(y.last())) =~= seq![y]) by {
            assert(shorter.push(y.last()) =~= y);
        }
    } else {
        assert(y =~= Seq::<char>::empty());
    }
}

/// Joining tags by commas and splitting the result on commas gives the tags back, as long
/// as there is at least one tag and none holds a comma.
pub proof fn lemma_split_of_join(parts: Seq<Seq<char>>)
    requires
        parts.len() > 0,
        comma_free(parts),
    ensures
        split_seq(join_seq(parts, ","@), ',') == parts,
    decreases parts.len(),
{
    reveal_strlit(",");
    assert(","@ =~= seq![',']);
    if parts.len() == 1 {
        assert forall|j: int| 0 <= j < parts[0].len() implies parts[0][j] != ',' by {
            assert(parts[0][j] != ',');
        }
        lemma_split_single(parts[0], ',');
        assert(seq![parts[0]] =~= parts);
    } else {
        let front = parts.drop_last();
        assert(comma_free(front)) by {
            assert forall|k: int, j: int|
                0 <= k < front.len() && 0 <= j < front[k].len() implies #[trigger] front[k][j]
                != ',' by {
                assert(parts[k][j] != ',');
            }
        }
        lemma_split_of_join(front);
        assert forall|j: int| 0 <= j < parts.last().len() implies parts.last()[j] != ',' by {
            assert(parts[parts.len() - 1][j] != ',');
        }
        lemma_split_append_entry(join_seq(front, ","@), parts.last(), ',');
        assert(front.push(parts.last()) =~= parts);
    }
}

/// What `every` decides on grouped tags: applied to a link's tags joined by commas and to
/// the required tags joined by commas, it says whether the link has all of them.
pub proof fn lemma_every_is_containment(tags: Seq<Seq<char>>, required: Seq<Seq<char>>)
    requires
        tags.len() > 0,
        required.len() > 0,
        comma_free(tags),
        comma_free(required),
    ensures
        every_spec(join_seq(tags, ","@), join_seq(required, ","@)) <==> (forall|k: int|
            0 <= k < required.len() ==> tags.contains(#[trigger] required[k])),
{
    lemma_split_of_join(tags);
    lemma_split_of_join(required);
}

/// What `some` decides on grouped tags: applied to a link's tags joined by commas and to
/// the excluded tags joined by commas, it says whether the link has one of them.
pub proof fn lemma_some_is_overlap(tags: Seq<Seq<char>>, excluded: Seq<Seq<char>>)
    requires
        tags.len() > 0,
        excluded.len() > 0,
        comma_free(tags),
        comma_free(excluded),
    ensures
        some_spec(join_seq(tags, ","@), join_seq(excluded, ","@)) <==> (exists|k: int|
            0 <= k < excluded.len() && tags.contains(#[trigger] excluded[k])),
{
    lemma_split_of_join(tags);
    lemma_split_of_join(excluded);
}

impl TagFacet {
    /// The facet that a list of tag tokens stands for.
    pub fn from_tokens(tokens: Vec<Tag>) -> (facet: TagFacet)
        ensures
            facet@ == classify_spec(views(tokens@)),
    {
        let (optional, required, excluded) = classify_tags(tokens);
        TagFacet { optional, required, excluded }
    }

    /// Whether a link with the tags `tags` passes this facet.
    pub fn matches(&self, tags: &Vec<Tag>) -> (b: bool)
        ensures
            b == self@.admits(views(tags@)),
    {
        let mut any_optional = self.optional.len() == 0;
        let mut i: usize = 0;
        while i < self.optional.len()
            invariant
                i <= self.optional.len(),
                any_optional == (self.optional.len() == 0 || exists|k: int|
                    0 <= k < i && views(tags@).contains(#[trigger] views(self.optional@)[k])),
            decreases self.optional.len() - i,
        {
            let found = contains_entry(tags, &self.optional[i]);
            assert(views(self.optional@)[i as int] == self.optional@[i as int]@);
            if found {
                any_optional = true;
            }
            i = i + 1;
        }
        if !any_optional {
            return false;
        }
        let mut j: usize = 0;
        while j < self.required.len()
            invariant
                j <= self.required.len(),
                forall|k: int|
                    0 <= k < j ==> views(tags@).contains(#[trigger] views(self.required@)[k]),
            decreases self.required.len() - j,
        {
            let found = contains_entry(tags, &self.required[j]);
            assert(views(self.required@)[j as int] == self.required@[j as int]@);
            if !found {
                assert(!views(tags@).contains(self@.required[j as int]));
                return false;
            }
            j = j + 1;
        }
        let mut m: usize = 0;
        while m < self.excluded.len()
            invariant
                m <= self.excluded.len(),
                forall|k: int|
                    0 <= k < m ==> !views(tags@).contains(#[trigger] views(self.excluded@)[k]),
            decreases self.excluded.len() - m,
        {
            let found = contains_entry(tags, &self.excluded[m]);
            assert(views(self.excluded@)[m as int] == self.excluded@[m as int]@);
            if found {
                assert(views(tags@).contains(self@.excluded[m as int]));
                return false;
            }
            m = m + 1;
        }
        true
    }
}

/// Sorts tag tokens by their sigil: `+tag` is required, `-tag` is excluded, and any other
/// token is optional as it stands. The sigil is taken off.
pub fn classify_tags(tags: Vec<Tag>) -> (facet: (Vec<Tag>, Vec<Tag>, Vec<Tag>))
    ensures
        views(facet.0@) == optional_of(views(tags@)),
        views(facet.1@) == required_of(views(tags@)),
        views(facet.2@) == excluded_of(views(tags@)),
{
    let mut optional: Vec<Tag> = Vec::new();
    let mut required: Vec<Tag> = Vec::new();
    let mut excluded: Vec<Tag> = Vec::new();
    let ghost tokens = views(tags@);
    let ghost is_opt = |t: Seq<char>| !is_required_token(t) && !is_excluded_token(t);
    let ghost is_req = |t: Seq<char>| is_required_token(t);
    let ghost is_exc = |t: Seq<char>| is_excluded_token(t);
    let ghost strip = |t: Seq<char>| t.skip(1);
    let mut i: usize = 0;
    proof {
        assert(tokens.take(0) =~= Seq::empty());
        assert(views(optional@) =~= tokens.take(0).filter(is_opt));
        assert(views(required@) =~= tokens.take(0).filter(is_req).map_values(strip));
        assert(views(excluded@) =~= tokens.take(0).filter(is_exc).map_values(strip));
    }
    while i < tags.len()
        invariant
            i <= tags.len(),
            tokens == views(tags@),
            is_opt == |t: Seq<char>| !is_required_token(t) && !is_excluded_token(t),
            is_req == |t: Seq<char>| is_required_token(t),
            is_exc == |t: Seq<char>| is_excluded_token(t),
            strip == |t: Seq<char>| t.skip(1),
            views(optional@) == tokens.take(i as int).filter(is_opt),
            views(required@) == tokens.take(i as int).filter(is_req).map_values(strip),
            views(excluded@) == tokens.take(i as int).filter(is_exc).map_values(strip),
        decreases tags.len() - i,
    {
        let t = &tags[i];
        let chars = chars_of(t.as_str());
        let ghost before = tokens.take(i as int);
        let ghost now = tokens.take(i as int + 1);
        proof {
            assert(now =~= before.push(t@));
            assert(now.drop_last() =~= before);
            assert(now.last() == t@);
            before.lemma_filter_push(t@, is_opt);
            before.lemma_filter_push(t@, is_req);
            before.lemma_filter_push(t@, is_exc);
        }
        if chars.len() > 0 && chars[0] == '+' {
            let s = substring(t.as_str(), 1, chars.len());
            proof {
                assert(s@ =~= t@.skip(1));
                assert(strip(t@) == t@.skip(1));
                assert(before.filter(is_req).push(t@).map_values(strip) =~= before.filter(
                    is_req,
                ).map_values(strip).push(strip(t@)));
                assert(views(required@.push(s)) =~= views(required@).push(s@));
            }
            required.push(s);
        } else if chars.len() > 0 && chars[0] == '-' {
            let s = substring(t.as_str(), 1, chars.len());
            proof {
                assert(s@ =~= t@.skip(1));
                assert(strip(t@) == t@.skip(1));
                assert(before.filter(is_exc).push(t@).map_values(strip) =~= before.filter(
                    is_exc,
                ).map_values(strip).push(strip(t@)));
                assert(views(excluded@.push(s)) =~= views(excluded@).push(s@));
            }
            excluded.push(s);
        } else {
            let s = t.clone();
            proof {
                assert(views(optional@.push(s)) =~= before.filter(is_opt).push(t@));
            }
            optional.push(s);
        }
        i = i + 1;
    }
    proof {
        assert(tokens.take(tags@.len() as int) =~= tokens);
    }
    (optional, required, excluded)
}

} // verus!
