use vstd::prelude::*;
use crate::link::{Link, LinkView, Tag};
use crate::utils::{
    chars_of, contains_seq, contains_str, join_seq, join_strings, split_char, split_seq,
    substring, views,
};

verus! {

/// Whether `c` separates the tokens of a query: the characters with the Unicode property
/// White_Space, which are the ones that `char::is_whitespace` accepts.
pub open spec fn is_space(c: char) -> bool {
    let n = c as u32;
    ||| 0x09 <= n <= 0x0d
    ||| n == 0x20
    ||| n == 0x85
    ||| n == 0xa0
    ||| n == 0x1680
    ||| 0x2000 <= n <= 0x200a
    ||| n == 0x2028
    ||| n == 0x2029
    ||| n == 0x202f
    ||| n == 0x205f
    ||| n == 0x3000
}

/// Whether `c` separates the tokens of a query.
pub fn is_separator(c: char) -> (b: bool)
    ensures
        b == is_space(c),
{
    let n = c as u32;
    (0x09 <= n && n <= 0x0d) || n == 0x20 || n == 0x85 || n == 0xa0 || n == 0x1680 || (0x2000
        <= n && n <= 0x200a) || n == 0x2028 || n == 0x2029 || n == 0x202f || n == 0x205f || n
        == 0x3000
}

/// The tokens of `s`: its maximal runs of characters that are not separators, from left to
/// right. Reading `s` from left to right, a separator adds nothing, a character behind a
/// separator or at the start opens a token, and any other character extends the last one.
pub open spec fn words(s: Seq<char>) -> Seq<Seq<char>>
    decreases s.len(),
{
    if s.len() == 0 {
        Seq::<Seq<char>>::empty()
    } else {
        let before = words(s.drop_last());
        if is_space(s.last()) {
            before
        } else if s.len() >= 2 && !is_space(s[s.len() - 2]) {
            before.drop_last().push(before.last().push(s.last()))
        } else {
            before.push(seq![s.last()])
        }
    }
}

/// The tokens of `s`, as `str::split_whitespace` gives them.
pub fn split_words(s: &str) -> (tokens: Vec<String>)
    ensures
        views(tokens@) == words(s@),
{
    let chars = chars_of(s);
    let n = chars.len();
    let mut tokens: Vec<String> = Vec::new();
    // Where the token that is being read starts; `n` while none is.
    let mut start: usize = n;
    let mut i: usize = 0;
    proof {
        assert(s@.take(0) =~= Seq::<char>::empty());
        assert(views(tokens@) =~= words(s@.take(0)));
    }
    while i < n
        invariant
            chars@ == s@,
            n == chars@.len(),
            i <= n,
            start == n || start < i,
            start == n ==> i == 0 || is_space(s@[i - 1]),
            start == n ==> views(tokens@) == words(s@.take(i as int)),
            start < n ==> !is_space(s@[i - 1]),
            start < n ==> words(s@.take(i as int)) == views(tokens@).push(
                s@.subrange(start as int, i as int),
            ),
        decreases n - i,
    {
        let ghost before = s@.take(i as int);
        let ghost now = s@.take(i as int + 1);
        proof {
            assert(now.drop_last() =~= before);
            assert(now.last() == s@[i as int]);
            if i > 0 {
                assert(now[now.len() - 2] == s@[i - 1]);
            }
        }
        if is_separator(chars[i]) {
            if start < n {
                let token = substring(s, start, i);
                proof {
                    assert(views(tokens@.push(token)) =~= views(tokens@).push(token@));
                }
                tokens.push(token);
                start = n;
            }
        } else {
            if start == n {
                start = i;
                proof {
                    assert(s@.subrange(i as int, i as int + 1) =~= seq![s@[i as int]]);
                }
            } else {
                proof {
                    let prior = views(tokens@).push(s@.subrange(start as int, i as int));
                    assert(prior.drop_last() =~= views(tokens@));
                    assert(s@.subrange(start as int, i as int).push(s@[i as int])
                        =~= s@.subrange(start as int, i as int + 1));
                }
            }
        }
        i = i + 1;
    }
    proof {
        assert(s@.take(n as int) =~= s@);
    }
    if start < n {
        let token = substring(s, start, n);
        proof {
            assert(views(tokens@.push(token)) =~= views(tokens@).push(token@));
        }
        tokens.push(token);
    }
    tokens
}

/// What the tokens of a query add up to.
pub ghost struct QueryTerms {
    pub href: Seq<char>,
    pub desc: Seq<char>,
    pub name: Seq<Seq<char>>,
    pub tags: Seq<Seq<char>>,
    pub toread: bool,
    pub shared: bool,
    pub favourite: bool,
}

impl QueryTerms {
    /// The terms of the empty query.
    pub open spec fn none() -> QueryTerms {
        QueryTerms {
            href: Seq::empty(),
            desc: Seq::empty(),
            name: Seq::empty(),
            tags: Seq::empty(),
            toread: false,
            shared: false,
            favourite: false,
        }
    }

    /// The terms after one more token. A token of the form `key:value` with a known key
    /// sets or extends the term of that key: `tags` adds the comma-separated entries of the
    /// value, sigils included; `flags` sets each flag by whether its word stands anywhere in
    /// the value; `href`, and `desc` or `notes`, replace the address and notes fragments.
    /// Any other token is one more word of the free text.
    pub open spec fn absorb(self, token: Seq<char>) -> QueryTerms {
        let parts = split_seq(token, ':');
        if parts.len() == 2 && parts[0] == "tags"@ {
            QueryTerms { tags: self.tags + split_seq(parts[1], ','), ..self }
        } else if parts.len() == 2 && parts[0] == "flags"@ {
            QueryTerms {
                toread: contains_seq(parts[1], "toread"@),
                shared: contains_seq(parts[1], "shared"@),
                favourite: contains_seq(parts[1], "fav"@),
                ..self
            }
        } else if parts.len() == 2 && parts[0] == "href"@ {
            QueryTerms { href: parts[1], ..self }
        } else if parts.len() == 2 && (parts[0] == "desc"@ || parts[0] == "notes"@) {
            QueryTerms { desc: parts[1], ..self }
        } else {
            QueryTerms { name: self.name.push(token), ..self }
        }
    }

    /// The terms of a list of tokens, taken in from left to right.
    pub open spec fn of_tokens(tokens: Seq<Seq<char>>) -> QueryTerms
        decreases tokens.len(),
    {
        if tokens.len() == 0 {
            QueryTerms::none()
        } else {
            QueryTerms::of_tokens(tokens.drop_last()).absorb(tokens.last())
        }
    }

    /// The search pattern for these terms: the words of the free text joined by `%`, so
    /// that they are looked for in their order with anything between them.
    pub open spec fn pattern(self) -> LinkView {
        (LinkView {
            id: None,
            href: self.href,
            name: join_seq(self.name, "%"@),
            description: Some(self.desc),
            tags: Some(self.tags),
            hash: None,
            shared: false,
            toread: false,
            favourite: false,
            created_at: Seq::empty(),
        }).digested()
    }

    /// The pattern with the flags of these terms set.
    pub open spec fn flagged_pattern(self) -> LinkView {
        LinkView {
            toread: self.toread,
            shared: self.shared,
            favourite: self.favourite,
            ..self.pattern()
        }
    }
}

/// Reads a query into the pattern that links are matched against. The query is a list of
/// tokens separated by white space; see [`QueryTerms::absorb`] for what each token means.
pub fn parse_query(query: &str) -> (pattern: Link)
    ensures
        pattern@ == QueryTerms::of_tokens(words(query@)).flagged_pattern(),
{
    let tokens = split_words(query);
    let mut href = String::new();
    let mut desc = String::new();
    let mut name: Vec<String> = Vec::new();
    let mut tags: Vec<Tag> = Vec::new();
    let mut toread = false;
    let mut shared = false;
    let mut favourite = false;
    let key_tags = String::from_str("tags");
    let key_flags = String::from_str("flags");
    let key_href = String::from_str("href");
    let key_desc = String::from_str("desc");
    let key_notes = String::from_str("notes");
    let ghost all = views(tokens@);
    let mut i: usize = 0;
    proof {
        assert(all.take(0) =~= Seq::empty());
        assert(views(name@) =~= Seq::<Seq<char>>::empty());
        assert(views(tags@) =~= Seq::<Seq<char>>::empty());
    }
    while i < tokens.len()
        invariant
            i <= tokens.len(),
            all == views(tokens@),
            key_tags@ == "tags"@,
            key_flags@ == "flags"@,
            key_href@ == "href"@,
            key_desc@ == "desc"@,
            key_notes@ == "notes"@,
            QueryTerms::of_tokens(all.take(i as int)) == (QueryTerms {
                href: href@,
                desc: desc@,
                name: views(name@),
                tags: views(tags@),
                toread,
                shared,
                favourite,
            }),
        decreases tokens.len() - i,
    {
        let token = &tokens[i];
        let ghost upto = all.take(i as int + 1);
        proof {
            assert(upto.drop_last() =~= all.take(i as int));
            assert(upto.last() == token@);
        }
        let mut parts = split_char(token.as_str(), ':');
        assert(views(parts@).len() == parts@.len());
        if parts.len() == 2 {
            assert(views(parts@)[0] == parts@[0]@);
            assert(views(parts@)[1] == parts@[1]@);
            let value = parts.pop().unwrap();
            let key = parts.pop().unwrap();
            if key == key_tags {
                let mut more = split_char(value.as_str(), ',');
                let ghost had = views(tags@);
                let ghost extra = views(more@);
                tags.append(&mut more);
                proof {
                    assert(views(tags@) =~= had + extra);
                }
            } else if key == key_flags {
                toread = contains_str(value.as_str(), "toread");
                shared = contains_str(value.as_str(), "shared");
                favourite = contains_str(value.as_str(), "fav");
            } else if key == key_href {
                href = value;
            } else if key == key_desc || key == key_notes {
                desc = value;
            } else {
                let ghost had = views(name@);
                name.push(token.clone());
                proof {
                    assert(views(name@) =~= had.push(token@));
                }
            }
        } else {
            let ghost had = views(name@);
            name.push(token.clone());
            proof {
                assert(views(name@) =~= had.push(token@));
            }
        }
        i = i + 1;
    }
    proof {
        assert(all.take(tokens@.len() as int) =~= all);
    }
    let joined = join_strings(&name, "%");
    Link::new(None, href.as_str(), joined.as_str(), Some(desc.as_str()), Some(tags)).set_toread(
        toread,
    ).set_shared(shared).set_favourite(favourite)
}

/// `s` without the separators at its start.
pub open spec fn trim_start_spec(s: Seq<char>) -> Seq<char>
    decreases s.len(),
{
    if s.len() > 0 && is_space(s[0]) {
        trim_start_spec(s.skip(1))
    } else {
        s
    }
}

/// `s` without the separators at its end.
pub open spec fn trim_end_spec(s: Seq<char>) -> Seq<char>
    decreases s.len(),
{
    if s.len() > 0 && is_space(s.last()) {
        trim_end_spec(s.drop_last())
    } else {
        s
    }
}

/// `s` without the separators at its start and at its end.
pub open spec fn trimmed(s: Seq<char>) -> Seq<char> {
    trim_end_spec(trim_start_spec(s))
}

/// `s` without the white space at its start and at its end, as `str::trim` gives it.
pub fn trim(s: &str) -> (r: String)
    ensures
        r@ == trimmed(s@),
{
    let chars = chars_of(s);
    let n = chars.len();
    let mut from: usize = 0;
    proof {
        assert(s@.skip(0) =~= s@);
    }
    while from < n && is_separator(chars[from])
        invariant
            from <= n,
            n == chars@.len(),
            chars@ == s@,
            trim_start_spec(s@) == trim_start_spec(s@.skip(from as int)),
        decreases n - from,
    {
        proof {
            let rest = s@.skip(from as int);
            assert(rest[0] == s@[from as int]);
            assert(rest.skip(1) =~= s@.skip(from as int + 1));
        }
        from = from + 1;
    }
    proof {
        let rest = s@.skip(from as int);
        if from < n {
            assert(rest[0] == s@[from as int]);
        }
        assert(trim_start_spec(s@) == rest);
        assert(rest =~= s@.subrange(from as int, n as int));
    }
    let mut to: usize = n;
    while to > from && is_separator(chars[to - 1])
        invariant
            from <= to <= n,
            n == chars@.len(),
            chars@ == s@,
            trimmed(s@) == trim_end_spec(s@.subrange(from as int, to as int)),
        decreases to,
    {
        proof {
            let cur = s@.subrange(from as int, to as int);
            assert(cur.last() == s@[to - 1]);
            assert(cur.drop_last() =~= s@.subrange(from as int, to - 1));
        }
        to = to - 1;
    }
    proof {
        let cur = s@.subrange(from as int, to as int);
        if to > from {
            assert(cur.last() == s@[to - 1]);
        }
    }
    substring(s, from, to)
}

} // verus!
