use vstd::prelude::*;
use crate::utils::{clone_strings, join_seq, join_strings, views};

verus! {

/// A tag is a plain string.
pub type Tag = String;

/// The SHA-1 digest of the UTF-8 bytes of `text`, as forty lowercase hexadecimal digits.
pub uninterp spec fn sha1_hex(text: Seq<char>) -> Seq<char>;

/// `sha1::Sha1::from(..).digest()`, shown through the digest's `Display`. Trusted: the
/// result is a function of the text alone, namely the SHA-1 digest of its UTF-8 bytes in
/// lowercase hexadecimal. Nothing else is claimed.
#[verifier::external_body]
fn sha1_hex_digest(text: &str) -> (hex: String)
    ensures
        hex@ == sha1_hex(text@),
{
    sha1::Sha1::from(text).digest().to_string()
}

/// A bookmark, or a pattern that bookmarks are matched against.
#[derive(Debug)]
pub struct Link {
    pub id: Option<i64>,
    pub href: String,
    pub name: String,
    pub description: Option<String>,
    pub tags: Option<Vec<Tag>>,
    pub hash: Option<String>,
    pub shared: bool,
    pub toread: bool,
    pub favourite: bool,
    pub created_at: String,
}

/// What a link holds, as mathematical values.
pub ghost struct LinkView {
    pub id: Option<i64>,
    pub href: Seq<char>,
    pub name: Seq<char>,
    pub description: Option<Seq<char>>,
    pub tags: Option<Seq<Seq<char>>>,
    pub hash: Option<Seq<char>>,
    pub shared: bool,
    pub toread: bool,
    pub favourite: bool,
    pub created_at: Seq<char>,
}

/// The view of an optional string.
pub open spec fn opt_view(s: Option<String>) -> Option<Seq<char>> {
    match s {
        Some(t) => Some(t@),
        None => None,
    }
}

/// The view of an optional list of tags.
pub open spec fn opt_views(tags: Option<Vec<Tag>>) -> Option<Seq<Seq<char>>> {
    match tags {
        Some(t) => Some(views(t@)),
        None => None,
    }
}

/// The views of a list of links.
pub open spec fn link_views(links: Seq<Link>) -> Seq<LinkView> {
    Seq::new(links.len(), |i: int| links[i]@)
}

/// `true` or `false`, as `bool` is displayed.
pub open spec fn bool_text(b: bool) -> Seq<char> {
    if b {
        "true"@
    } else {
        "false"@
    }
}

impl View for Link {
    type V = LinkView;

    open spec fn view(&self) -> LinkView {
        LinkView {
            id: self.id,
            href: self.href@,
            name: self.name@,
            description: opt_view(self.description),
            tags: opt_views(self.tags),
            hash: opt_view(self.hash),
            shared: self.shared,
            toread: self.toread,
            favourite: self.favourite,
            created_at: self.created_at@,
        }
    }
}

impl LinkView {
    /// The text that a link's content hash is taken over: address, title, notes, the tags
    /// joined by commas, and the three flags, one after the other.
    pub open spec fn digest_input(self) -> Seq<char> {
        self.href + self.name + (match self.description {
            Some(d) => d,
            None => Seq::<char>::empty(),
        }) + (match self.tags {
            Some(t) => join_seq(t, ","@),
            None => Seq::<char>::empty(),
        }) + bool_text(self.toread) + bool_text(self.shared) + bool_text(self.favourite)
    }

    /// This link with its content hash brought up to date.
    pub open spec fn digested(self) -> LinkView {
        LinkView { hash: Some(sha1_hex(self.digest_input())), ..self }
    }

    /// Whether two links say the same where the user has a say: address, title, notes,
    /// tags and flags. Identifier, hash and timestamp are left out.
    pub open spec fn same_content(self, other: LinkView) -> bool {
        &&& self.href == other.href
        &&& self.name == other.name
        &&& self.description == other.description
        &&& self.tags == other.tags
        &&& self.shared == other.shared
        &&& self.toread == other.toread
        &&& self.favourite == other.favourite
    }
}

/// `true` or `false`.
fn bool_str(b: bool) -> (s: &'static str)
    ensures
        s@ == bool_text(b),
{
    if b {
        "true"
    } else {
        "false"
    }
}

impl Link {
    /// A link with the given content, no flag set, no timestamp, and its content hash.
    pub fn new(
        id: Option<i64>,
        href: &str,
        name: &str,
        description: Option<&str>,
        tags: Option<Vec<Tag>>,
    ) -> (link: Link)
        ensures
            link@ == (LinkView {
                id,
                href: href@,
                name: name@,
                description: match description {
                    Some(d) => Some(d@),
                    None => None,
                },
                tags: opt_views(tags),
                hash: None,
                shared: false,
                toread: false,
                favourite: false,
                created_at: Seq::<char>::empty(),
            }).digested(),
    {
        let description = match description {
            Some(d) => Some(String::from_str(d)),
            None => None,
        };
        let link = Link {
            id,
            href: String::from_str(href),
            name: String::from_str(name),
            description,
            tags,
            hash: None,
            shared: false,
            toread: false,
            favourite: false,
            created_at: String::new(),
        };
        link.digest()
    }

    /// Brings the content hash up to date with the link's content.
    pub fn digest(self) -> (link: Link)
        ensures
            link@ == self@.digested(),
    {
        let mut text = self.href.clone();
        text.append(self.name.as_str());
        match &self.description {
            Some(d) => {
                text.append(d.as_str());
            },
            None => {},
        }
        match &self.tags {
            Some(t) => {
                let joined = join_strings(t, ",");
                text.append(joined.as_str());
            },
            None => {},
        }
        text.append(bool_str(self.toread));
        text.append(bool_str(self.shared));
        text.append(bool_str(self.favourite));
        proof {
            assert(text@ =~= self@.digest_input());
        }
        let hash = sha1_hex_digest(text.as_str());
        let mut link = self;
        link.hash = Some(hash);
        link
    }

    pub fn set_id(self, id: Option<i64>) -> (link: Link)
        ensures
            link@ == (LinkView { id, ..self@ }),
    {
        let mut link = self;
        link.id = id;
        link
    }

    pub fn set_timestamp(self, ts: String) -> (link: Link)
        ensures
            link@ == (LinkView { created_at: ts@, ..self@ }),
    {
        let mut link = self;
        link.created_at = ts;
        link
    }

    pub fn set_toread(self, toread: bool) -> (link: Link)
        ensures
            link@ == (LinkView { toread, ..self@ }),
    {
        let mut link = self;
        link.toread = toread;
        link
    }

    pub fn set_shared(self, shared: bool) -> (link: Link)
        ensures
            link@ == (LinkView { shared, ..self@ }),
    {
        let mut link = self;
        link.shared = shared;
        link
    }

    pub fn set_favourite(self, favourite: bool) -> (link: Link)
        ensures
            link@ == (LinkView { favourite, ..self@ }),
    {
        let mut link = self;
        link.favourite = favourite;
        link
    }

    /// A copy of this link.
    pub fn duplicate(&self) -> (link: Link)
        ensures
            link@ == self@,
    {
        Link {
            id: self.id,
            href: self.href.clone(),
            name: self.name.clone(),
            description: match &self.description {
                Some(d) => Some(d.clone()),
                None => None,
            },
            tags: match &self.tags {
                Some(t) => Some(clone_strings(t)),
                None => None,
            },
            hash: match &self.hash {
                Some(h) => Some(h.clone()),
                None => None,
            },
            shared: self.shared,
            toread: self.toread,
            favourite: self.favourite,
            created_at: self.created_at.clone(),
        }
    }
    /// The link that a row of a search stands for. `tagz` holds the link's tags joined by
    /// commas, and is absent where the link has none.
    pub fn from_columns(
        id: i64,
        href: &str,
        name: &str,
        description: Option<&str>,
        tagz: Option<&str>,
        toread: bool,
        shared: bool,
        favourite: bool,
        created_at: String,
    ) -> (link: Link)
        ensures
            link@ == (LinkView {
                toread,
                shared,
                favourite,
                created_at: created_at@,
                ..(LinkView {
                    id: Some(id),
                    href: href@,
                    name: name@,
                    description: match description {
                        Some(d) => Some(d@),
                        None => None,
                    },
                    tags: Some(
                        match tagz {
                            Some(t) => crate::utils::split_seq(t@, ','),
                            None => Seq::<Seq<char>>::empty(),
                        },
                    ),
                    hash: None,
                    shared: false,
                    toread: false,
                    favourite: false,
                    created_at: Seq::<char>::empty(),
                }).digested()
            }),
    {
        let tags: Vec<Tag> = match tagz {
            Some(t) => crate::utils::split_char(t, ','),
            None => {
                let none: Vec<Tag> = Vec::new();
                proof {
                    assert(views(none@) =~= Seq::<Seq<char>>::empty());
                }
                none
            },
        };
        Link::new(Some(id), href, name, description, Some(tags)).set_toread(toread).set_shared(
            shared,
        ).set_favourite(favourite).set_timestamp(created_at)
    }
}

} // verus!
