use vstd::prelude::*;
use crate::error::DBError;
use crate::link::{Link, LinkView, Tag};
use crate::query::DBLookupType;
use crate::search::{split_words, trim, trimmed, words};
use crate::user::{lower_ascii, to_lower_ascii};
use crate::utils::{contains_seq, contains_str, split_char, split_seq, views};

verus! {

/// Why the body of a request could not be read as JSON.
#[derive(Clone, Copy, Debug, PartialEq, Eq, Structural)]
pub enum JsonError {
    /// The body of the request was already taken.
    BodyAlreadyExtracted,
    /// The request does not say that its body is JSON.
    WrongContentType,
    /// The body could not be read, or is no UTF-8.
    IoError,
    /// The body is no JSON of the expected shape.
    ParseError,
}

impl JsonError {
    /// The error as it is shown.
    pub fn to_text(&self) -> (s: &'static str)
        ensures
            s@ == match *self {
                JsonError::BodyAlreadyExtracted => "JsonError(BodyAlreadyExtracted)"@,
                JsonError::WrongContentType => "JsonError(WrongContentType)"@,
                JsonError::IoError => "JsonError(IoError)"@,
                JsonError::ParseError => "JsonError(ParseError)"@,
            },
    {
        match self {
            JsonError::BodyAlreadyExtracted => "JsonError(BodyAlreadyExtracted)",
            JsonError::WrongContentType => "JsonError(WrongContentType)",
            JsonError::IoError => "JsonError(IoError)",
            JsonError::ParseError => "JsonError(ParseError)",
        }
    }
}

/// The body of a request for a user's own account data.
#[derive(Debug)]
pub struct AuthRequest {
    pub login: String,
    pub password: String,
}

/// The body of a request that saves a query.
#[derive(Debug)]
pub struct QueryRequest {
    pub name: String,
    pub query: String,
}

/// A link as a client sends it.
#[derive(Debug)]
pub struct LinkPostData {
    pub href: String,
    pub name: String,
    pub description: String,
    pub tags: Option<String>,
    pub flags: Option<String>,
}

/// The body of a request that sends a batch of links, prepared at `version`.
#[derive(Debug)]
pub struct LinksRequest {
    pub version: i32,
    pub links: Vec<LinkPostData>,
}

/// The answer to a request for links: the links and the user's watermark.
#[derive(Debug)]
pub struct LinksResponse {
    pub version: i32,
    pub links: Vec<Link>,
}

/// The status that tells a client of an error: 403 for an unknown user, 401 for a request
/// without credentials, 400 for anything else.
pub fn error_status(err: &DBError) -> (code: u16)
    ensures
        code == match *err {
            DBError::UnknownUser => 403u16,
            DBError::Unauthenticated => 401u16,
            _ => 400u16,
        },
{
    match err {
        DBError::UnknownUser => 403,
        DBError::Unauthenticated => 401,
        _ => 400,
    }
}

/// Whether a request is checked for its content type: it is JSON exactly if the header is
/// there and starts with `application/json`.
pub fn check_content_type(header: Option<&str>) -> (r: Result<(), JsonError>)
    ensures
        r is Ok <==> (header matches Some(h) && h@.len() >= "application/json"@.len()
            && h@.take("application/json"@.len() as int) == "application/json"@),
        r matches Err(e) ==> e == JsonError::WrongContentType,
{
    match header {
        Some(h) => {
            let chars = crate::utils::chars_of(h);
            let want = crate::utils::chars_of("application/json");
            if crate::utils::matches_at(&chars, &want, 0) {
                proof {
                    assert(h@.subrange(0, want@.len() as int) =~= h@.take(want@.len() as int));
                }
                Ok(())
            } else {
                proof {
                    if h@.len() >= want@.len() {
                        assert(h@.subrange(0, want@.len() as int) =~= h@.take(
                            want@.len() as int,
                        ));
                    }
                }
                Err(JsonError::WrongContentType)
            }
        },
        None => Err(JsonError::WrongContentType),
    }
}

/// The lookup that a request asks for: exact where its parameter `exact` is `true` in any
/// mix of ASCII capitals, patterned otherwise.
pub fn lookup_type(exact: Option<&str>) -> (t: DBLookupType)
    ensures
        t == if exact matches Some(v) && lower_ascii(v@) == "true"@ {
            DBLookupType::Exact
        } else {
            DBLookupType::Patterned
        },
{
    match exact {
        Some(v) => {
            if to_lower_ascii(v) == String::from_str("true") {
                DBLookupType::Exact
            } else {
                DBLookupType::Patterned
            }
        },
        None => DBLookupType::Patterned,
    }
}

/// The token of an `Authorization` header: its last word.
pub fn bearer_token(header: &str) -> (token: Option<String>)
    ensures
        token is Some <==> words(header@).len() > 0,
        token matches Some(t) ==> t@ == words(header@).last(),
{
    let mut tokens = split_words(header);
    assert(views(tokens@).len() == tokens@.len());
    if tokens.len() > 0 {
        assert(views(tokens@).last() == tokens@.last()@);
    }
    tokens.pop()
}

/// The entries of a comma-separated list, trimmed, without the empty ones.
pub open spec fn listed(entries: Seq<Seq<char>>) -> Seq<Seq<char>>
    decreases entries.len(),
{
    if entries.len() == 0 {
        Seq::<Seq<char>>::empty()
    } else {
        let before = listed(entries.drop_last());
        let entry = trimmed(entries.last());
        if entry.len() > 0 {
            before.push(entry)
        } else {
            before
        }
    }
}

/// The tags of a comma-separated list: its entries, trimmed, without the empty ones.
pub fn parse_tag_list(text: &str) -> (tags: Vec<Tag>)
    ensures
        views(tags@) == listed(split_seq(text@, ',')),
{
    let entries = split_char(text, ',');
    let ghost all = views(entries@);
    let mut tags: Vec<Tag> = Vec::new();
    let mut i: usize = 0;
    proof {
        assert(all.take(0) =~= Seq::empty());
        assert(views(tags@) =~= Seq::<Seq<char>>::empty());
    }
    while i < entries.len()
        invariant
            i <= entries.len(),
            all == views(entries@),
            views(tags@) == listed(all.take(i as int)),
        decreases entries.len() - i,
    {
        proof {
            let upto = all.take(i as int + 1);
            assert(upto.drop_last() =~= all.take(i as int));
            assert(upto.last() == entries@[i as int]@);
        }
        let entry = trim(entries[i].as_str());
        if entry.as_str().unicode_len() > 0 {
            let ghost had = views(tags@);
            proof {
                assert(views(tags@.push(entry)) =~= had.push(entry@));
            }
            tags.push(entry);
        }
        i = i + 1;
    }
    proof {
        assert(all.take(entries@.len() as int) =~= all);
    }
    tags
}

/// The text of an optional field; nothing where it is absent.
pub open spec fn field_text(field: Option<String>) -> Seq<char> {
    match field {
        Some(t) => t@,
        None => Seq::<char>::empty(),
    }
}

/// The link that a client's data stands for: notes and tags are absent where they are
/// empty, and a flag is set where its name stands anywhere in the flags.
pub open spec fn posted_link(data: LinkPostData) -> LinkView {
    let tags = listed(split_seq(field_text(data.tags), ','));
    let notes = trimmed(data.description@);
    let flags = field_text(data.flags);
    LinkView {
        toread: contains_seq(flags, "toread"@),
        shared: contains_seq(flags, "shared"@),
        favourite: contains_seq(flags, "favourite"@),
        ..(LinkView {
            id: None,
            href: data.href@,
            name: data.name@,
            description: if notes.len() == 0 {
                None
            } else {
                Some(notes)
            },
            tags: if tags.len() == 0 {
                None
            } else {
                Some(tags)
            },
            hash: None,
            shared: false,
            toread: false,
            favourite: false,
            created_at: Seq::<char>::empty(),
        }).digested()
    }
}

/// Reads the link that a client sent.
pub fn link_from_post(data: &LinkPostData) -> (link: Link)
    ensures
        link@ == posted_link(*data),
{
    let tags = match &data.tags {
        Some(t) => parse_tag_list(t.as_str()),
        None => {
            proof {
                reveal_strlit("");
                assert(""@ =~= Seq::<char>::empty());
            }
            parse_tag_list("")
        },
    };
    let flags = match &data.flags {
        Some(f) => f.clone(),
        None => String::new(),
    };
    let notes = trim(data.description.as_str());
    assert(views(tags@).len() == tags@.len());
    let has_notes = notes.as_str().unicode_len() > 0;
    let tags = if tags.len() == 0 {
        None
    } else {
        Some(tags)
    };
    let link = if has_notes {
        Link::new(None, data.href.as_str(), data.name.as_str(), Some(notes.as_str()), tags)
    } else {
        Link::new(None, data.href.as_str(), data.name.as_str(), None, tags)
    };
    link.set_toread(contains_str(flags.as_str(), "toread")).set_shared(
        contains_str(flags.as_str(), "shared"),
    ).set_favourite(contains_str(flags.as_str(), "favourite"))
}

} // verus!
