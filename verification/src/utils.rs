use vstd::prelude::*;

verus! {

/// The characters of `s`, in order.
pub fn chars_of(s: &str) -> (v: Vec<char>)
    ensures
        v@ == s@,
{
    let mut v: Vec<char> = Vec::new();
    for c in it: s.chars()
        invariant
            v@ == it.seq().take(it.index() as int),
            it.seq() == s@,
    {
        v.push(c);
    }
    v
}

/// The entries of `s` between occurrences of `sep`. Reading `s` from left to right, a
/// separator opens a new, empty entry and any other character extends the last entry; so
/// there is always at least one entry, and `n` separators give `n + 1` entries.
pub open spec fn split_seq(s: Seq<char>, sep: char) -> Seq<Seq<char>>
    decreases s.len(),
{
    if s.len() == 0 {
        seq![Seq::<char>::empty()]
    } else {
        let before = split_seq(s.drop_last(), sep);
        if s.last() == sep {
            before.push(Seq::<char>::empty())
        } else {
            before.drop_last().push(before.last().push(s.last()))
        }
    }
}

/// The views of a vector of strings.
pub open spec fn views(v: Seq<String>) -> Seq<Seq<char>> {
    Seq::new(v.len(), |i: int| v[i]@)
}

/// `parts` written one after the other with `sep` between neighbours.
pub open spec fn join_seq(parts: Seq<Seq<char>>, sep: Seq<char>) -> Seq<char>
    decreases parts.len(),
{
    if parts.len() == 0 {
        Seq::<char>::empty()
    } else if parts.len() == 1 {
        parts[0]
    } else {
        join_seq(parts.drop_last(), sep) + sep + parts.last()
    }
}

/// Splitting never yields an empty list of entries.
pub proof fn lemma_split_nonempty(s: Seq<char>, sep: char)
    ensures
        split_seq(s, sep).len() >= 1,
    decreases s.len(),
{
    if s.len() > 0 {
        lemma_split_nonempty(s.drop_last(), sep);
    }
}

/// A copy of the characters of `s` from position `from` up to, not including, `to`.
pub fn substring(s: &str, from: usize, to: usize) -> (r: String)
    requires
        from <= to <= s@.len(),
    ensures
        r@ == s@.subrange(from as int, to as int),
{
    String::from_str(s.substring_char(from, to))
}

/// The entries of `s` between occurrences of `sep`, as `str::split` on a character gives
/// them.
pub fn split_char(s: &str, sep: char) -> (parts: Vec<String>)
    ensures
        views(parts@) == split_seq(s@, sep),
{
    let chars = chars_of(s);
    let n = chars.len();
    let mut parts: Vec<String> = Vec::new();
    let mut start: usize = 0;
    let mut i: usize = 0;
    proof {
        assert(s@.take(0) =~= Seq::<char>::empty());
        assert(s@.subrange(0, 0) =~= Seq::<char>::empty());
        assert(views(parts@).push(s@.subrange(0, 0)) =~= seq![Seq::<char>::empty()]);
    }
    while i < n
        invariant
            chars@ == s@,
            n == chars@.len(),
            start <= i <= n,
            split_seq(s@.take(i as int), sep) == views(parts@).push(
                s@.subrange(start as int, i as int),
            ),
        decreases n - i,
    {
        let ghost before = s@.take(i as int);
        let ghost now = s@.take(i as int + 1);
        proof {
            assert(now.drop_last() == before);
            assert(now.last() == s@[i as int]);
            lemma_split_nonempty(before, sep);
        }
        if chars[i] == sep {
            let entry = substring(s, start, i);
            proof {
                assert(views(parts@.push(entry)) == views(parts@).push(entry@));
            }
            parts.push(entry);
            start = i + 1;
            proof {
                assert(s@.subrange(start as int, i as int + 1) == Seq::<char>::empty());
            }
        } else {
            proof {
                let prior = views(parts@).push(s@.subrange(start as int, i as int));
                assert(prior.drop_last() == views(parts@));
                assert(s@.subrange(start as int, i as int).push(s@[i as int]) == s@.subrange(
                    start as int,
                    i as int + 1,
                ));
            }
        }
        i = i + 1;
    }
    let entry = substring(s, start, n);
    proof {
        assert(s@.take(n as int) == s@);
        assert(views(parts@.push(entry)) == views(parts@).push(entry@));
    }
    parts.push(entry);
    parts
}

/// Whether `needle` is one of `entries`.
pub fn contains_entry(entries: &Vec<String>, needle: &String) -> (found: bool)
    ensures
        found == views(entries@).contains(needle@),
{
    let mut i: usize = 0;
    while i < entries.len()
        invariant
            i <= entries.len(),
            forall|k: int| 0 <= k < i ==> views(entries@)[k] != needle@,
        decreases entries.len() - i,
    {
        if entries[i] == *needle {
            assert(views(entries@)[i as int] == needle@);
            return true;
        }
        i = i + 1;
    }
    false
}

/// Whether every entry of `expected` is an entry of `elements`.
pub open spec fn every_spec(elements: Seq<char>, expected: Seq<char>) -> bool {
    forall|k: int|
        0 <= k < split_seq(expected, ',').len() ==> split_seq(elements, ',').contains(
            #[trigger] split_seq(expected, ',')[k],
        )
}

/// Whether some entry of `expected` is an entry of `elements`.
pub open spec fn some_spec(elements: Seq<char>, expected: Seq<char>) -> bool {
    exists|k: int|
        0 <= k < split_seq(expected, ',').len() && split_seq(elements, ',').contains(
            #[trigger] split_seq(expected, ',')[k],
        )
}

/// True if and only if every comma-separated entry of `expected` occurs as a whole entry of
/// the comma-separated list `elements`.
pub fn every(elements: &str, expected: &str) -> (all: bool)
    ensures
        all == every_spec(elements@, expected@),
{
    let have = split_char(elements, ',');
    let want = split_char(expected, ',');
    let mut i: usize = 0;
    while i < want.len()
        invariant
            i <= want.len(),
            views(have@) == split_seq(elements@, ','),
            views(want@) == split_seq(expected@, ','),
            forall|k: int| 0 <= k < i ==> views(have@).contains(#[trigger] views(want@)[k]),
        decreases want.len() - i,
    {
        if !contains_entry(&have, &want[i]) {
            assert(views(want@)[i as int] == want@[i as int]@);
            return false;
        }
        assert(views(want@)[i as int] == want@[i as int]@);
        i = i + 1;
    }
    true
}

/// True if and only if at least one comma-separated entry of `expected` occurs as a whole
/// entry of the comma-separated list `elements`.
pub fn some(elements: &str, expected: &str) -> (any: bool)
    ensures
        any == some_spec(elements@, expected@),
{
    let have = split_char(elements, ',');
    let want = split_char(expected, ',');
    let mut i: usize = 0;
    while i < want.len()
        invariant
            i <= want.len(),
            views(have@) == split_seq(elements@, ','),
            views(want@) == split_seq(expected@, ','),
            forall|k: int| 0 <= k < i ==> !views(have@).contains(#[trigger] views(want@)[k]),
        decreases want.len() - i,
    {
        if contains_entry(&have, &want[i]) {
            assert(views(want@)[i as int] == want@[i as int]@);
            return true;
        }
        assert(views(want@)[i as int] == want@[i as int]@);
        i = i + 1;
    }
    false
}

/// The first `len` characters of `input`, or all of it where it has fewer; nothing where
/// `len` is negative.
pub open spec fn truncate_spec(input: Seq<char>, len: int) -> Seq<char> {
    if len <= 0 {
        Seq::<char>::empty()
    } else if len >= input.len() {
        input
    } else {
        input.take(len)
    }
}

/// Cuts `input` down to at most `len` characters, counted as characters and not as bytes.
pub fn truncate(input: &str, len: i16) -> (r: &str)
    ensures
        r@ == truncate_spec(input@, len as int),
{
    let n = input.unicode_len();
    let keep: usize = if len <= 0 {
        0
    } else if len as usize >= n {
        n
    } else {
        len as usize
    };
    let r = input.substring_char(0, keep);
    proof {
        assert(input@.subrange(0, keep as int) =~= truncate_spec(input@, len as int));
    }
    r
}

/// `s` without its first character; `None` where `s` is empty.
pub fn remove_first(s: &str) -> (r: Option<&str>)
    ensures
        s@.len() == 0 <==> r is None,
        r matches Some(rest) ==> rest@ == s@.skip(1),
{
    let n = s.unicode_len();
    if n == 0 {
        None
    } else {
        let rest = s.substring_char(1, n);
        proof {
            assert(s@.subrange(1, n as int) =~= s@.skip(1));
        }
        Some(rest)
    }
}

/// Whether `needle` stands in `s` at position `at`.
pub open spec fn occurs_at(s: Seq<char>, needle: Seq<char>, at: int) -> bool {
    0 <= at && at + needle.len() <= s.len() && s.subrange(at, at + needle.len()) == needle
}

/// Whether `needle` stands somewhere in `s`.
pub open spec fn contains_seq(s: Seq<char>, needle: Seq<char>) -> bool {
    exists|at: int| occurs_at(s, needle, at)
}

/// Whether `at` is the leftmost position of `needle` in `s`.
pub open spec fn first_occurrence(s: Seq<char>, needle: Seq<char>, at: int) -> bool {
    occurs_at(s, needle, at) && forall|j: int| 0 <= j < at ==> !occurs_at(s, needle, j)
}

/// Whether `needle` stands in `s` at position `at`.
pub fn matches_at(s: &Vec<char>, needle: &Vec<char>, at: usize) -> (b: bool)
    ensures
        b == occurs_at(s@, needle@, at as int),
{
    if needle.len() > s.len() || at > s.len() - needle.len() {
        return false;
    }
    let mut k: usize = 0;
    while k < needle.len()
        invariant
            k <= needle.len(),
            at + needle.len() <= s.len(),
            forall|j: int| 0 <= j < k ==> s@[at + j] == needle@[j],
        decreases needle.len() - k,
    {
        if s[at + k] != needle[k] {
            proof {
                let part = s@.subrange(at as int, at + needle@.len());
                assert(part[k as int] == s@[at + k]);
            }
            return false;
        }
        k = k + 1;
    }
    proof {
        assert(s@.subrange(at as int, at + needle@.len()) =~= needle@);
    }
    true
}

/// The leftmost position of `needle` in `s`, if it stands there at all.
pub fn find_seq(s: &Vec<char>, needle: &Vec<char>) -> (r: Option<usize>)
    ensures
        r is Some <==> contains_seq(s@, needle@),
        r matches Some(at) ==> first_occurrence(s@, needle@, at as int),
{
    if needle.len() > s.len() {
        proof {
            assert forall|at: int| !occurs_at(s@, needle@, at) by {}
        }
        return None;
    }
    if needle.len() == 0 {
        proof {
            assert(s@.subrange(0, 0) =~= needle@);
            assert(occurs_at(s@, needle@, 0));
        }
        return Some(0);
    }
    let last = s.len() - needle.len();
    let mut at: usize = 0;
    while at <= last
        invariant
            at <= last + 1,
            last == s.len() - needle.len(),
            last < usize::MAX,
            forall|j: int| 0 <= j < at ==> !occurs_at(s@, needle@, j),
        decreases last + 1 - at,
    {
        if matches_at(s, needle, at) {
            return Some(at);
        }
        at = at + 1;
    }
    proof {
        assert forall|j: int| !occurs_at(s@, needle@, j) by {}
    }
    None
}

/// Whether `needle` stands somewhere in `s`.
pub fn contains_str(s: &str, needle: &str) -> (b: bool)
    ensures
        b == contains_seq(s@, needle@),
{
    let hay = chars_of(s);
    let pin = chars_of(needle);
    find_seq(&hay, &pin).is_some()
}

/// The three characters that end a URL's scheme.
pub open spec fn scheme_mark() -> Seq<char> {
    seq![':', '/', '/']
}

/// `url` from behind the leftmost `://` on, or all of it where it holds none.
pub open spec fn strip_scheme(url: Seq<char>) -> Seq<char> {
    if contains_seq(url, scheme_mark()) {
        url.skip(
            (choose|at: int| first_occurrence(url, scheme_mark(), at)) + scheme_mark().len(),
        )
    } else {
        url
    }
}

/// The normalized path of `url`: the scheme with its `://` is taken off, and after that one
/// trailing slash, if there is one.
pub open spec fn path_spec(url: Seq<char>) -> Seq<char> {
    let rest = strip_scheme(url);
    if rest.len() > 0 && rest.last() == '/' {
        rest.drop_last()
    } else {
        rest
    }
}

/// There is only one leftmost position.
pub proof fn lemma_first_occurrence_unique(s: Seq<char>, needle: Seq<char>, a: int, b: int)
    requires
        first_occurrence(s, needle, a),
        first_occurrence(s, needle, b),
    ensures
        a == b,
{
    if a < b {
        assert(!occurs_at(s, needle, a));
    } else if b < a {
        assert(!occurs_at(s, needle, b));
    }
}

/// The normalized path of `url`, by which a link is identified and looked up.
pub fn path(url: &str) -> (r: String)
    ensures
        r@ == path_spec(url@),
{
    let chars = chars_of(url);
    let mark: Vec<char> = vec![':', '/', '/'];
    assert(mark@ =~= scheme_mark());
    let n = chars.len();
    let from: usize = match find_seq(&chars, &mark) {
        Some(at) => {
            proof {
                let chosen = choose|c: int| first_occurrence(url@, scheme_mark(), c);
                lemma_first_occurrence_unique(url@, scheme_mark(), at as int, chosen);
            }
            at + 3
        },
        None => 0,
    };
    proof {
        assert(url@.skip(from as int) == strip_scheme(url@));
    }
    let to: usize = if from < n && chars[n - 1] == '/' {
        n - 1
    } else {
        n
    };
    let r = substring(url, from, to);
    proof {
        let rest = url@.skip(from as int);
        if from < n {
            assert(rest.last() == url@[n - 1]);
        }
        assert(url@.subrange(from as int, to as int) =~= path_spec(url@));
    }
    r
}

/// The decimal digit for `d`.
pub open spec fn digit_char(d: int) -> char
    recommends
        0 <= d < 10,
{
    if d == 0 {
        '0'
    } else if d == 1 {
        '1'
    } else if d == 2 {
        '2'
    } else if d == 3 {
        '3'
    } else if d == 4 {
        '4'
    } else if d == 5 {
        '5'
    } else if d == 6 {
        '6'
    } else if d == 7 {
        '7'
    } else if d == 8 {
        '8'
    } else {
        '9'
    }
}

/// The digits of a natural number, most significant first; a single `0` for zero.
pub open spec fn decimal_nat(n: nat) -> Seq<char>
    decreases n,
{
    if n < 10 {
        seq![digit_char(n as int)]
    } else {
        decimal_nat(n / 10).push(digit_char((n % 10) as int))
    }
}

/// An integer in decimal, with a leading minus sign where it is negative.
pub open spec fn decimal(n: int) -> Seq<char> {
    if n < 0 {
        seq!['-'] + decimal_nat((-n) as nat)
    } else {
        decimal_nat(n as nat)
    }
}

/// The text of the decimal digit `d`.
fn digit_str(d: u8) -> (s: &'static str)
    requires
        d < 10,
    ensures
        s@ == seq![digit_char(d as int)],
{
    proof {
        reveal_strlit("0");
        reveal_strlit("1");
        reveal_strlit("2");
        reveal_strlit("3");
        reveal_strlit("4");
        reveal_strlit("5");
        reveal_strlit("6");
        reveal_strlit("7");
        reveal_strlit("8");
        reveal_strlit("9");
    }
    let s = if d == 0 {
        "0"
    } else if d == 1 {
        "1"
    } else if d == 2 {
        "2"
    } else if d == 3 {
        "3"
    } else if d == 4 {
        "4"
    } else if d == 5 {
        "5"
    } else if d == 6 {
        "6"
    } else if d == 7 {
        "7"
    } else if d == 8 {
        "8"
    } else {
        "9"
    };
    assert(s@ =~= seq![digit_char(d as int)]);
    s
}

/// A natural number in decimal.
pub fn nat_to_string(n: u64) -> (s: String)
    ensures
        s@ == decimal_nat(n as nat),
    decreases n,
{
    if n < 10 {
        String::from_str(digit_str(n as u8))
    } else {
        let mut s = nat_to_string(n / 10);
        s.append(digit_str((n % 10) as u8));
        proof {
            assert(decimal_nat((n / 10) as nat) + seq![digit_char((n % 10) as int)]
                =~= decimal_nat(n as nat));
        }
        s
    }
}

/// An integer in decimal.
pub fn int_to_string(n: i64) -> (s: String)
    ensures
        s@ == decimal(n as int),
{
    if n < 0 {
        proof {
            reveal_strlit("-");
        }
        let mut s = String::from_str("-");
        let magnitude: u64 = if n == i64::MIN {
            9223372036854775808u64
        } else {
            (-n) as u64
        };
        let digits = nat_to_string(magnitude);
        s.append(digits.as_str());
        proof {
            assert("-"@ =~= seq!['-']);
        }
        s
    } else {
        nat_to_string(n as u64)
    }
}

/// `parts` written one after the other with `sep` between neighbours, as `join` on a slice
/// of strings gives it.
pub fn join_strings(parts: &Vec<String>, sep: &str) -> (r: String)
    ensures
        r@ == join_seq(views(parts@), sep@),
{
    let mut r = String::new();
    let mut i: usize = 0;
    while i < parts.len()
        invariant
            i <= parts.len(),
            r@ == join_seq(views(parts@).take(i as int), sep@),
        decreases parts.len() - i,
    {
        let ghost upto = views(parts@).take(i as int + 1);
        proof {
            assert(upto.drop_last() =~= views(parts@).take(i as int));
            assert(upto.last() == parts@[i as int]@);
        }
        if i > 0 {
            r.append(sep);
        }
        r.append(parts[i].as_str());
        proof {
            if i == 0 {
                assert(r@ =~= parts@[0]@);
            }
        }
        i = i + 1;
    }
    proof {
        assert(views(parts@).take(parts@.len() as int) =~= views(parts@));
    }
    r
}

/// A copy of a list of strings.
pub fn clone_strings(v: &Vec<String>) -> (r: Vec<String>)
    ensures
        views(r@) == views(v@),
{
    let mut r: Vec<String> = Vec::new();
    let mut i: usize = 0;
    while i < v.len()
        invariant
            i <= v.len(),
            r@.len() == i,
            forall|k: int| 0 <= k < i ==> r@[k]@ == v@[k]@,
        decreases v.len() - i,
    {
        r.push(v[i].clone());
        i = i + 1;
    }
    proof {
        assert(views(r@) =~= views(v@));
    }
    r
}

/// Whether `text` from position `j` on fits `pattern` from position `i` on. A `%` in the
/// pattern stands for any run of characters, the empty one too; every other character
/// stands for itself.
pub open spec fn like_from(pattern: Seq<char>, text: Seq<char>, i: int, j: int) -> bool
    decreases pattern.len() - i, text.len() - j,
{
    if i >= pattern.len() {
        j >= text.len()
    } else if pattern[i] == '%' {
        like_from(pattern, text, i + 1, j) || (j < text.len() && like_from(
            pattern,
            text,
            i,
            j + 1,
        ))
    } else {
        j < text.len() && text[j] == pattern[i] && like_from(pattern, text, i + 1, j + 1)
    }
}

/// Whether `text` fits `pattern`.
pub open spec fn like_spec(pattern: Seq<char>, text: Seq<char>) -> bool {
    like_from(pattern, text, 0, 0)
}

/// Whether `text` fits `pattern`, in which `%` stands for any run of characters.
pub fn like(pattern: &str, text: &str) -> (b: bool)
    ensures
        b == like_spec(pattern@, text@),
{
    let p = chars_of(pattern);
    let t = chars_of(text);
    let m = p.len();
    let n = t.len();
    if n == usize::MAX {
        // The table below has one more column than the text has characters. Where that
        // number cannot be held, the definition is followed step by step.
        return like_rec(&p, &t, 0, 0);
    }
    // `below[j]` says whether the text from `j` on fits the pattern from `i + 1` on.
    let mut below: Vec<bool> = Vec::new();
    let mut j: usize = 0;
    while j <= n
        invariant
            j <= n + 1,
            n < usize::MAX,
            n == t@.len(),
            m == p@.len(),
            below@.len() == j,
            forall|k: int| 0 <= k < j ==> below@[k] == like_from(p@, t@, m as int, k),
        decreases n + 1 - j,
    {
        below.push(j == n);
        j = j + 1;
    }
    let mut i: usize = m;
    while i > 0
        invariant
            i <= m,
            n < usize::MAX,
            n == t@.len(),
            m == p@.len(),
            below@.len() == n + 1,
            forall|k: int| 0 <= k <= n ==> below@[k] == like_from(p@, t@, i as int, k),
        decreases i,
    {
        i = i - 1;
        let c = p[i];
        // `row[n - k]` is filled for `k` from `n` down to 0, then turned round.
        let mut row: Vec<bool> = Vec::new();
        let mut done: usize = 0;
        while done <= n
            invariant
                done <= n + 1,
                i < m,
                n < usize::MAX,
                n == t@.len(),
                m == p@.len(),
                c == p@[i as int],
                below@.len() == n + 1,
                row@.len() == done,
                forall|k: int| 0 <= k <= n ==> below@[k] == like_from(p@, t@, i as int + 1, k),
                forall|d: int| 0 <= d < done ==> row@[d] == like_from(p@, t@, i as int, n - d),
            decreases n + 1 - done,
        {
            let k: usize = n - done;
            let fits = if c == '%' {
                below[k] || (k < n && row[done - 1])
            } else {
                k < n && t[k] == c && below[k + 1]
            };
            row.push(fits);
            done = done + 1;
        }
        let mut turned: Vec<bool> = Vec::new();
        let mut k: usize = 0;
        while k <= n
            invariant
                k <= n + 1,
                n < usize::MAX,
                row@.len() == n + 1,
                turned@.len() == k,
                forall|d: int| 0 <= d <= n ==> row@[d] == like_from(p@, t@, i as int, n - d),
                forall|q: int| 0 <= q < k ==> turned@[q] == like_from(p@, t@, i as int, q),
            decreases n + 1 - k,
        {
            turned.push(row[n - k]);
            k = k + 1;
        }
        below = turned;
    }
    below[0]
}

/// Whether `t` from `j` on fits `p` from `i` on, by the definition.
fn like_rec(p: &Vec<char>, t: &Vec<char>, i: usize, j: usize) -> (b: bool)
    requires
        i <= p@.len(),
        j <= t@.len(),
    ensures
        b == like_from(p@, t@, i as int, j as int),
    decreases p@.len() - i, t@.len() - j,
{
    if i >= p.len() {
        j >= t.len()
    } else if p[i] == '%' {
        like_rec(p, t, i + 1, j) || (j < t.len() && like_rec(p, t, i, j + 1))
    } else {
        j < t.len() && t[j] == p[i] && like_rec(p, t, i + 1, j + 1)
    }
}

/// A pattern of two `%` fits every text.
pub proof fn lemma_like_anything(text: Seq<char>, j: int)
    requires
        0 <= j <= text.len(),
    ensures
        like_from("%%"@, text, 1, j),
        like_from("%%"@, text, 0, j),
    decreases text.len() - j,
{
    reveal_strlit("%%");
    let p = "%%"@;
    assert(p.len() == 2 && p[0] == '%' && p[1] == '%');
    if j < text.len() {
        lemma_like_anything(text, j + 1);
    } else {
        assert(like_from(p, text, 2, j));
    }
}

/// The leftmost position of `needle` in `s`.
pub open spec fn first_index(s: Seq<char>, needle: Seq<char>) -> int {
    choose|at: int| first_occurrence(s, needle, at)
}

/// `s` up to the leftmost `needle`; all of `s` where it holds none.
pub open spec fn before_first(s: Seq<char>, needle: Seq<char>) -> Seq<char> {
    if contains_seq(s, needle) {
        s.take(first_index(s, needle))
    } else {
        s
    }
}

/// `s` from behind the leftmost `needle` on; nothing where it holds none.
pub open spec fn after_first(s: Seq<char>, needle: Seq<char>) -> Seq<char> {
    if contains_seq(s, needle) {
        s.skip(first_index(s, needle) + needle.len())
    } else {
        Seq::<char>::empty()
    }
}

/// Cuts `s` at the leftmost `needle` into what stands before it and what stands behind
/// it; `None` where `s` holds no `needle`.
pub fn split_first(s: &str, needle: &str) -> (r: Option<(String, String)>)
    ensures
        r is Some <==> contains_seq(s@, needle@),
        r matches Some((head, tail)) ==> head@ == before_first(s@, needle@) && tail@
            == after_first(s@, needle@),
{
    let chars = chars_of(s);
    let pin = chars_of(needle);
    match find_seq(&chars, &pin) {
        Some(at) => {
            proof {
                assert(first_occurrence(s@, needle@, at as int));
                assert(occurs_at(s@, needle@, at as int));
                assert(at + pin@.len() <= chars@.len());
                lemma_first_occurrence_unique(
                    s@,
                    needle@,
                    at as int,
                    first_index(s@, needle@),
                );
            }
            let n = chars.len();
            let m = pin.len();
            let head = substring(s, 0, at);
            let tail = substring(s, at + m, n);
            proof {
                assert(s@.subrange(0, at as int) =~= s@.take(at as int));
                assert(s@.subrange(at + needle@.len(), s@.len() as int) =~= s@.skip(
                    at + needle@.len(),
                ));
            }
            Some((head, tail))
        },
        None => None,
    }
}

/// Whether `s` ends with `suffix`.
pub open spec fn ends_with(s: Seq<char>, suffix: Seq<char>) -> bool {
    s.len() >= suffix.len() && s.skip(s.len() - suffix.len()) == suffix
}

/// `s` without every `suffix` that stands at its end, one behind the other.
pub open spec fn trim_end(s: Seq<char>, suffix: Seq<char>) -> Seq<char>
    decreases s.len(),
{
    if suffix.len() > 0 && ends_with(s, suffix) {
        trim_end(s.take(s.len() - suffix.len()), suffix)
    } else {
        s
    }
}

/// `s` without every `suffix` that stands at its end, as `trim_end_matches` gives it.
pub fn trim_end_matches(s: &str, suffix: &str) -> (r: String)
    ensures
        r@ == trim_end(s@, suffix@),
{
    let chars = chars_of(s);
    let tail = chars_of(suffix);
    let mut end: usize = chars.len();
    proof {
        assert(s@.take(end as int) =~= s@);
    }
    if tail.len() == 0 {
        return String::from_str(s);
    }
    while end >= tail.len() && matches_at(&chars, &tail, end - tail.len())
        invariant
            end <= chars.len(),
            chars@ == s@,
            tail@ == suffix@,
            tail@.len() > 0,
            trim_end(s@, suffix@) == trim_end(s@.take(end as int), suffix@),
        decreases end,
    {
        proof {
            let cur = s@.take(end as int);
            assert(cur.skip(cur.len() - suffix@.len()) =~= s@.subrange(
                end - suffix@.len(),
                end as int,
            ));
            assert(cur.take(cur.len() - suffix@.len()) =~= s@.take(end - suffix@.len()));
        }
        end = end - tail.len();
    }
    proof {
        let cur = s@.take(end as int);
        if end >= tail.len() {
            assert(cur.skip(cur.len() - suffix@.len()) =~= s@.subrange(
                end - suffix@.len(),
                end as int,
            ));
        }
        assert(s@.subrange(0, end as int) =~= cur);
    }
    substring(s, 0, end)
}

/// `s` with every `from` replaced by `to`.
pub open spec fn replace_char(s: Seq<char>, from: char, to: char) -> Seq<char> {
    s.map_values(
        |c: char|
            if c == from {
                to
            } else {
                c
            },
    )
}

/// `s` with every underscore replaced by a space.
pub fn underscores_to_spaces(s: &str) -> (r: String)
    ensures
        r@ == replace_char(s@, '_', ' '),
{
    let chars = chars_of(s);
    let mut r = String::new();
    let mut i: usize = 0;
    proof {
        reveal_strlit(" ");
    }
    while i < chars.len()
        invariant
            i <= chars.len(),
            chars@ == s@,
            " "@ == seq![' '],
            r@ == replace_char(s@.take(i as int), '_', ' '),
        decreases chars.len() - i,
    {
        if chars[i] == '_' {
            r.append(" ");
        } else {
            r.append(s.substring_char(i, i + 1));
        }
        proof {
            assert(replace_char(s@.take(i as int + 1), '_', ' ') =~= replace_char(
                s@.take(i as int),
                '_',
                ' ',
            ) + seq![
                if s@[i as int] == '_' {
                    ' '
                } else {
                    s@[i as int]
                },
            ]);
            assert(s@.subrange(i as int, i as int + 1) =~= seq![s@[i as int]]);
        }
        i = i + 1;
    }
    proof {
        assert(s@.take(chars@.len() as int) =~= s@);
    }
    r
}

/// The last `width` decimal digits of `n`, most significant first, with zeros in front
/// where `n` has fewer.
pub open spec fn padded(n: nat, width: nat) -> Seq<char>
    decreases width,
{
    if width == 0 {
        Seq::<char>::empty()
    } else {
        padded(n / 10, (width - 1) as nat).push(digit_char((n % 10) as int))
    }
}

/// What is left of `n` when its last `width` decimal digits are taken off.
pub open spec fn without_digits(n: nat, width: nat) -> nat
    decreases width,
{
    if width == 0 {
        n
    } else {
        without_digits(n / 10, (width - 1) as nat)
    }
}

/// `n` in `width` decimal digits.
pub fn pad_decimal(n: u64, width: usize) -> (s: String)
    ensures
        s@ == padded(n as nat, width as nat),
    decreases width,
{
    if width == 0 {
        String::new()
    } else {
        let mut s = pad_decimal(n / 10, width - 1);
        s.append(digit_str((n % 10) as u8));
        proof {
            assert(padded((n / 10) as nat, (width - 1) as nat) + seq![digit_char((n % 10) as int)]
                =~= padded(n as nat, width as nat));
        }
        s
    }
}

/// Padded numbers have the length asked for.
pub proof fn lemma_padded_len(n: nat, width: nat)
    ensures
        padded(n, width).len() == width,
    decreases width,
{
    if width > 0 {
        lemma_padded_len(n / 10, (width - 1) as nat);
    }
}

/// Numbers that fit the width are ordered as their padded texts are.
pub proof fn lemma_padded_order(a: nat, b: nat, width: nat)
    requires
        a < b,
        without_digits(a, width) == without_digits(b, width),
    ensures
        crate::order::lex_lt(padded(a, width), padded(b, width)),
    decreases width,
{
    if width > 0 {
        let w = (width - 1) as nat;
        lemma_padded_len(a / 10, w);
        lemma_padded_len(b / 10, w);
        if a / 10 < b / 10 {
            lemma_padded_order(a / 10, b / 10, w);
            crate::order::lemma_lex_push_lt(
                padded(a / 10, w),
                padded(b / 10, w),
                digit_char((a % 10) as int),
                digit_char((b % 10) as int),
            );
        } else {
            assert(a / 10 == b / 10);
            assert(a % 10 < b % 10);
            crate::order::lemma_lex_push_last(
                padded(a / 10, w),
                digit_char((a % 10) as int),
                digit_char((b % 10) as int),
            );
        }
    }
}

} // verus!
