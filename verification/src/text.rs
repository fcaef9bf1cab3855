//! Small tools for reading and writing text.
use crate::names::{compare, lemma_name_lt_asymmetric, NameOrder};
use vstd::prelude::*;
use vstd::string::*;

verus! {

/// The decimal digit of value `d`, for `d` below ten.
pub open spec fn digit(d: nat) -> char {
    ('0' as nat + d) as char
}

/// `n` written in decimal, without sign or leading zeros.
pub open spec fn decimal(n: nat) -> Seq<char>
    decreases n,
{
    if n < 10 {
        seq![digit(n)]
    } else {
        decimal(n / 10).push(digit(n % 10))
    }
}

/// The decimal digit of value `d` as a string.
fn digit_str(d: u32) -> (s: &'static str)
    requires
        d < 10,
    ensures
        s@ == seq![digit(d as nat)],
{
    proof {
        reveal_strlit("0");
        reveal_strlit("1");
        reveal_strlit("2");
        reveal_strlit("3");
        reveal_strlit("4");
        reveal_strlit("5");
        reveal_strlit("6");
        reveal_strlit("7");
        reveal_strlit("8");
        reveal_strlit("9");
    }
    let s = if d == 0 {
        "0"
    } else if d == 1 {
        "1"
    } else if d == 2 {
        "2"
    } else if d == 3 {
        "3"
    } else if d == 4 {
        "4"
    } else if d == 5 {
        "5"
    } else if d == 6 {
        "6"
    } else if d == 7 {
        "7"
    } else if d == 8 {
        "8"
    } else {
        "9"
    };
    assert(s@ =~= seq![digit(d as nat)]);
    s
}

/// `n` written in decimal, without sign or leading zeros.
pub fn decimal_string(n: u32) -> (s: String)
    ensures
        s@ == decimal(n as nat),
    decreases n,
{
    if n < 10 {
        String::from_str(digit_str(n))
    } else {
        let mut s = decimal_string(n / 10);
        s.append(digit_str(n % 10));
        s
    }
}

/// Whether `p` is the first position at or after `from` at which `s` holds
/// `c`, or the length of `s` if it holds `c` at none.
pub open spec fn is_next(s: Seq<char>, c: char, from: int, p: int) -> bool {
    &&& from <= p <= s.len()
    &&& forall|j: int| from <= j < p ==> s[j] != c
    &&& p < s.len() ==> s[p] == c
}

/// The first position at or after `from` at which `s` holds `c`, or the
/// length of `s` if it holds `c` at none. Meaningful for `from` within `s`.
pub open spec fn next_index(s: Seq<char>, c: char, from: int) -> int {
    choose|p: int| is_next(s, c, from, p)
}

/// The first position at which `s` holds `c`, or the length of `s` if it
/// holds `c` nowhere.
pub open spec fn position(s: Seq<char>, c: char) -> int {
    next_index(s, c, 0)
}

/// Whether `s` holds `c` at two positions or more.
pub open spec fn occurs_twice(s: Seq<char>, c: char) -> bool {
    exists|i: int, j: int| 0 <= i < j < s.len() && s[i] == c && s[j] == c
}

/// There is one first position only.
pub proof fn lemma_next_unique(s: Seq<char>, c: char, from: int, p: int)
    requires
        is_next(s, c, from, p),
    ensures
        next_index(s, c, from) == p,
{
    let q = next_index(s, c, from);
    assert(is_next(s, c, from, q));
    if q < p {
        assert(s[q] != c);
    } else if p < q {
        assert(s[p] != c);
    }
}

/// The first position at or after `from` at which `s` holds `c`, or the
/// length of `s` in characters if it holds `c` at none.
pub fn find_from(s: &str, c: char, from: usize) -> (p: usize)
    requires
        from <= s@.len(),
    ensures
        is_next(s@, c, from as int, p as int),
        p == next_index(s@, c, from as int),
{
    let n = s.unicode_len();
    let mut i: usize = 0;
    for x in it: s.chars()
        invariant
            n == s@.len(),
            from <= n,
            i == it.index(),
            it.seq() == s@,
            forall|j: int| from <= j < i ==> s@[j] != c,
    {
        if i >= from && x == c {
            proof {
                lemma_next_unique(s@, c, from as int, i as int);
            }
            return i;
        }
        i = i + 1;
    }
    proof {
        lemma_next_unique(s@, c, from as int, n as int);
    }
    n
}

/// Whether two strings hold the same text.
pub fn same(a: &str, b: &str) -> (r: bool)
    ensures
        r == (a@ == b@),
{
    match compare(a, b) {
        NameOrder::Same => true,
        NameOrder::Before => {
            proof {
                lemma_name_lt_asymmetric(a@, b@);
            }
            false
        },
        NameOrder::After => {
            proof {
                lemma_name_lt_asymmetric(b@, a@);
            }
            false
        },
    }
}

/// The two parts of `s` around its first `c`, if it holds one.
pub fn split_once(s: &str, c: char) -> (r: Option<(&str, &str)>)
    ensures
        match r {
            Some((head, tail)) => {
                &&& position(s@, c) < s@.len()
                &&& head@ == s@.take(position(s@, c))
                &&& tail@ == s@.skip(position(s@, c) + 1)
            },
            None => position(s@, c) == s@.len(),
        },
{
    let n = s.unicode_len();
    let p = find_from(s, c, 0);
    if p < n {
        let head = s.substring_char(0, p);
        let tail = s.substring_char(p + 1, n);
        proof {
            assert(s@.subrange(0, p as int) == s@.take(p as int));
            assert(s@.subrange(p + 1, n as int) == s@.skip(p + 1));
        }
        Some((head, tail))
    } else {
        None
    }
}

} // verus!
