use std::cmp::Ordering;
use vstd::prelude::*;

verus! {

/// How one application version stands to another.
#[derive(Clone, Copy, Debug, PartialEq, Eq, Structural)]
pub enum Precedence {
    Older,
    Same,
    Newer,
}

/// How the semantic version `a` stands to the semantic version `b`, by the precedence
/// rules of semantic versioning; `None` where one of the two texts is no semantic version.
pub uninterp spec fn semver_precedence(a: Seq<char>, b: Seq<char>) -> Option<Precedence>;

/// The longest text that is read as a semantic version.
pub const MAX_SEMVER_LEN: usize = 255;

/// `semver::Version::parse` on both texts and `Ord::cmp` on the two versions. Trusted: the
/// answer is a function of the two texts alone, `None` where `parse` refuses one of them
/// and else the ordering that `cmp` gives, one variant for one; so a text held against
/// itself is the same version, where it is one at all. The texts have to be short: the
/// parser gives up with a panic on an identifier of more than 255 parts joined by hyphens,
/// which no text of 255 characters holds.
#[verifier::external_body]
pub(crate) fn semver_order(a: &str, b: &str) -> (r: Option<Precedence>)
    requires
        a@.len() <= MAX_SEMVER_LEN,
        b@.len() <= MAX_SEMVER_LEN,
    ensures
        r == semver_precedence(a@, b@),
        a@ == b@ ==> r is None || r == Some(Precedence::Same),
{
    match (semver::Version::parse(a), semver::Version::parse(b)) {
        (Ok(x), Ok(y)) => Some(
            match x.cmp(&y) {
                Ordering::Less => Precedence::Older,
                Ordering::Equal => Precedence::Same,
                Ordering::Greater => Precedence::Newer,
            },
        ),
        _ => None,
    }
}

} // verus!
