use vstd::prelude::*;
use crate::utils::{chars_of, substring};

verus! {

/// The lower-case form of an ASCII capital; any other character as it is.
pub open spec fn lower_char(c: char) -> char {
    if 'A' <= c && c <= 'Z' {
        ((c as u32) + 32) as char
    } else {
        c
    }
}

/// `s` with its ASCII capitals in lower case.
pub open spec fn lower_ascii(s: Seq<char>) -> Seq<char> {
    s.map_values(|c: char| lower_char(c))
}

/// `s` with its ASCII capitals in lower case, as `to_ascii_lowercase` gives it.
pub fn to_lower_ascii(s: &str) -> (r: String)
    ensures
        r@ == lower_ascii(s@),
{
    let letters = "abcdefghijklmnopqrstuvwxyz";
    proof {
        reveal_strlit("abcdefghijklmnopqrstuvwxyz");
    }
    let chars = chars_of(s);
    let mut r = String::new();
    let mut i: usize = 0;
    while i < chars.len()
        invariant
            i <= chars.len(),
            chars@ == s@,
            letters@ == "abcdefghijklmnopqrstuvwxyz"@,
            letters@.len() == 26,
            r@ == lower_ascii(s@.take(i as int)),
        decreases chars.len() - i,
    {
        let c = chars[i];
        if 'A' <= c && c <= 'Z' {
            let k: usize = (c as u32 - 'A' as u32) as usize;
            let piece = letters.substring_char(k, k + 1);
            proof {
                reveal_strlit("abcdefghijklmnopqrstuvwxyz");
                assert(letters@[k as int] == lower_char(c));
                assert(piece@ =~= seq![lower_char(c)]);
            }
            r.append(piece);
        } else {
            let piece = s.substring_char(i, i + 1);
            proof {
                assert(piece@ =~= seq![lower_char(c)]);
            }
            r.append(piece);
        }
        proof {
            assert(lower_ascii(s@.take(i as int + 1)) =~= lower_ascii(s@.take(i as int)) + seq![
                lower_char(c),
            ]);
        }
        i = i + 1;
    }
    proof {
        assert(s@.take(chars@.len() as int) =~= s@);
    }
    r
}

/// A user of the store, known by a login that is kept in lower case.
#[derive(Debug)]
pub struct User {
    pub id: i64,
    pub login: String,
}

/// What a user is, as mathematical values.
pub ghost struct UserView {
    pub id: i64,
    pub login: Seq<char>,
}

impl View for User {
    type V = UserView;

    open spec fn view(&self) -> UserView {
        UserView { id: self.id, login: self.login@ }
    }
}

impl User {
    pub fn new(id: i64, login: &str) -> (user: User)
        ensures
            user@ == (UserView { id, login: lower_ascii(login@) }),
    {
        User { id, login: to_lower_ascii(login) }
    }

    /// The login, as the user is shown.
    pub fn to_text(&self) -> (s: String)
        ensures
            s@ == self@.login,
    {
        self.login.clone()
    }

    /// A copy of this user.
    pub fn duplicate(&self) -> (user: User)
        ensures
            user@ == self@,
    {
        User { id: self.id, login: self.login.clone() }
    }
}

} // verus!
