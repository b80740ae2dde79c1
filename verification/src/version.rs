use vstd::prelude::*;

verus! {

/// A position on an owner's version line. Every write stamps the link with one; a reader
/// keeps the highest it has seen and later asks for everything from there on. A negative
/// offset is no position: it stands for "unknown".
#[derive(Clone, Copy, Debug)]
pub struct Version(pub i32);

impl View for Version {
    type V = int;

    open spec fn view(&self) -> int {
        self.0 as int
    }
}

impl Version {
    /// Whether the offset is a position, that is, not negative.
    pub open spec fn valid(&self) -> bool {
        self@ >= 0
    }

    pub fn new(offset: i32) -> (v: Version)
        ensures
            v@ == offset,
    {
        Version(offset)
    }

    pub fn offset(&self) -> (o: i32)
        ensures
            o == self@,
    {
        self.0
    }

    /// The version that is no position, with offset -1.
    pub fn unknown() -> (v: Version)
        ensures
            v@ == -1,
            !v.valid(),
    {
        Version(-1)
    }

    /// The next position.
    pub fn bump(&self) -> (v: Version)
        requires
            self@ < i32::MAX,
        ensures
            v@ == self@ + 1,
    {
        Version(self.0 + 1)
    }

    pub fn is_valid(&self) -> (b: bool)
        ensures
            b == self.valid(),
    {
        self.0 >= 0
    }

    /// The offset in decimal, as it is shown to a user.
    pub fn to_text(&self) -> (s: String)
        ensures
            s@ == crate::utils::decimal(self@),
    {
        crate::utils::int_to_string(self.0 as i64)
    }
}

} // verus!
