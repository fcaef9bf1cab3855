//! What is written down about a service for its human readers.
use crate::text::{
    find_from, is_next, lemma_next_unique, next_index, occurs_twice, position,
};
use vstd::prelude::*;
use vstd::string::*;

verus! {

/// A spec as the texts that it holds.
pub struct SpecView {
    pub description: Seq<char>,
    pub url: Option<Seq<char>>,
    pub group: Option<Seq<char>>,
}

/// Whether `s` can be read as a spec: it holds at most one `@` and at most
/// one `#`.
pub open spec fn spec_text_ok(s: Seq<char>) -> bool {
    !occurs_twice(s, '@') && !occurs_twice(s, '#')
}

/// The spec that `s` is read as, in the format
/// `<description>[@<url>][#<group>]` or `<description>[#<group>][@<url>]`.
///
/// The description runs up to the first `@` or `#`; the URL from behind the
/// `@` up to the `#` behind it or the end; the group from behind the `#` up
/// to the `@` behind it or the end.
pub open spec fn parsed_spec(s: Seq<char>) -> SpecView {
    let at = position(s, '@');
    let hash = position(s, '#');
    SpecView {
        description: s.take(if at < hash { at } else { hash }),
        url: if at < s.len() {
            Some(s.subrange(at + 1, next_index(s, '#', at + 1)))
        } else {
            None
        },
        group: if hash < s.len() {
            Some(s.subrange(hash + 1, next_index(s, '@', hash + 1)))
        } else {
            None
        },
    }
}

/// What is answered for a text that cannot be read as a spec.
pub open spec fn spec_text_error(s: Seq<char>) -> Seq<char> {
    "Invalid spec: "@ + s
        + ". Expected format: <description>[@<url>][#<group>] or <description>[#<group>][@<url>]"@
}

/// The text of a spec: the description, then the URL behind an `@` if there
/// is one, then the group behind a `#` if there is one.
pub open spec fn spec_text(spec: SpecView) -> Seq<char> {
    spec.description + match spec.url {
        Some(url) => seq!['@'] + url,
        None => Seq::empty(),
    } + match spec.group {
        Some(group) => seq!['#'] + group,
        None => Seq::empty(),
    }
}

/// A text holds `c` twice exactly if it holds it again behind the first
/// time.
proof fn lemma_second_occurrence(s: Seq<char>, c: char, first: int, second: int)
    requires
        is_next(s, c, 0, first),
        first < s.len(),
        is_next(s, c, first + 1, second),
    ensures
        occurs_twice(s, c) <==> second < s.len(),
{
    if second < s.len() {
        assert(s[first] == c && s[second] == c);
    }
    if occurs_twice(s, c) {
        let (i, j) = choose|i: int, j: int| 0 <= i < j < s.len() && s[i] == c && s[j] == c;
        if i < first {
            assert(s[i] != c);
        }
        if second >= s.len() {
            assert(s[j] != c);
        }
    }
}

/// A text that holds `c` nowhere does not hold it twice.
proof fn lemma_no_occurrence(s: Seq<char>, c: char)
    requires
        is_next(s, c, 0, s.len() as int),
    ensures
        !occurs_twice(s, c),
{
    if occurs_twice(s, c) {
        let (i, j) = choose|i: int, j: int| 0 <= i < j < s.len() && s[i] == c && s[j] == c;
        assert(s[i] != c);
    }
}

/// Information about a service. Only intended to be read by humans.
#[derive(Debug, PartialEq, Eq)]
pub struct Spec {
    /// Description of the service
    pub description: String,
    /// URL of the service, if applicable
    pub url: Option<String>,
    /// A group the service may belong to
    pub group: Option<String>,
}

impl Clone for Spec {
    fn clone(&self) -> (res: Self)
        ensures
            res == *self,
    {
        Spec {
            description: self.description.clone(),
            url: match &self.url {
                Some(url) => Some(url.clone()),
                None => None,
            },
            group: match &self.group {
                Some(group) => Some(group.clone()),
                None => None,
            },
        }
    }
}

impl View for Spec {
    type V = SpecView;

    open spec fn view(&self) -> SpecView {
        SpecView {
            description: self.description@,
            url: match self.url {
                Some(url) => Some(url@),
                None => None,
            },
            group: match self.group {
                Some(group) => Some(group@),
                None => None,
            },
        }
    }
}

impl Spec {
    #[must_use]
    pub fn new(description: String, url: Option<String>, group: Option<String>) -> (spec: Self)
        ensures
            spec.description == description,
            spec.url == url,
            spec.group == group,
    {
        Self { description, url, group }
    }

    /// Reads a spec from a string in the format
    /// `<description>[@<url>][#<group>]` or
    /// `<description>[#<group>][@<url>]`.
    ///
    /// A string with more than one `@` or more than one `#` is refused.
    pub fn from_str(s: &str) -> (r: Result<Spec, String>)
        ensures
            match r {
                Ok(spec) => spec_text_ok(s@) && spec@ == parsed_spec(s@),
                Err(e) => !spec_text_ok(s@) && e@ == spec_text_error(s@),
            },
    {
        let n = s.unicode_len();
        let at = find_from(s, '@', 0);
        let hash = find_from(s, '#', 0);
        let url_end = if at < n {
            find_from(s, '#', at + 1)
        } else {
            n
        };
        let group_end = if hash < n {
            find_from(s, '@', hash + 1)
        } else {
            n
        };
        let at_twice = at < n && find_from(s, '@', at + 1) < n;
        let hash_twice = hash < n && find_from(s, '#', hash + 1) < n;
        proof {
            if at < n {
                lemma_second_occurrence(s@, '@', at as int, next_index(s@, '@', at + 1));
            } else {
                lemma_no_occurrence(s@, '@');
            }
            if hash < n {
                lemma_second_occurrence(s@, '#', hash as int, next_index(s@, '#', hash + 1));
            } else {
                lemma_no_occurrence(s@, '#');
            }
        }
        if at_twice || hash_twice {
            let mut e = String::from_str("Invalid spec: ");
            e.append(s);
            e.append(
                ". Expected format: <description>[@<url>][#<group>] or <description>[#<group>][@<url>]",
            );
            return Err(e);
        }
        let description = String::from_str(s.substring_char(0, if at < hash { at } else { hash }));
        let url = if at < n {
            Some(String::from_str(s.substring_char(at + 1, url_end)))
        } else {
            None
        };
        let group = if hash < n {
            Some(String::from_str(s.substring_char(hash + 1, group_end)))
        } else {
            None
        };
        let spec = Self::new(description, url, group);
        proof {
            assert(s@.subrange(0, if at < hash { at as int } else { hash as int }) == s@.take(
                if at < hash { at as int } else { hash as int },
            ));
        }
        Ok(spec)
    }

    /// The spec as one string, in the format that [`Spec::from_str`] reads.
    pub fn to_string(&self) -> (s: String)
        ensures
            s@ == spec_text(self@),
    {
        proof {
            reveal_strlit("@");
            reveal_strlit("#");
        }
        let mut s = self.description.clone();
        if let Some(url) = &self.url {
            s.append("@");
            s.append(url.as_str());
            assert(s@ == self.description@ + (seq!['@'] + url@));
        }
        let ghost with_url = s@;
        if let Some(group) = &self.group {
            s.append("#");
            s.append(group.as_str());
            assert(s@ == with_url + (seq!['#'] + group@));
        }
        assert(s@ == spec_text(self@));
        s
    }
}

/// Whether `s` holds neither `@` nor `#`.
pub open spec fn plain(s: Seq<char>) -> bool {
    forall|i: int| 0 <= i < s.len() ==> s[i] != '@' && s[i] != '#'
}

/// Whether none of the texts of `spec` holds an `@` or a `#`.
pub open spec fn plain_spec(spec: SpecView) -> bool {
    &&& plain(spec.description)
    &&& spec.url matches Some(url) ==> plain(url)
    &&& spec.group matches Some(group) ==> plain(group)
}

/// A spec whose texts hold no `@` and no `#` is read from its text as it
/// was written.
pub proof fn lemma_spec_text_round_trip(spec: SpecView)
    requires
        plain_spec(spec),
    ensures
        spec_text_ok(spec_text(spec)),
        parsed_spec(spec_text(spec)) == spec,
{
    let d = spec.description;
    let t = spec_text(spec);
    let n = d.len() as int;
    match (spec.url, spec.group) {
        (Some(u), Some(g)) => {
            let h = n + 1 + u.len();
            assert(t =~= d + seq!['@'] + u + seq!['#'] + g);
            assert(forall|i: int| 0 <= i < n ==> t[i] == d[i]);
            assert(t[n] == '@');
            assert(forall|i: int| n < i < h ==> t[i] == u[i - n - 1]);
            assert(t[h] == '#');
            assert(forall|i: int| h < i < t.len() ==> t[i] == g[i - h - 1]);
            lemma_next_unique(t, '@', 0, n);
            lemma_next_unique(t, '#', 0, h);
            lemma_next_unique(t, '#', n + 1, h);
            lemma_next_unique(t, '@', h + 1, t.len() as int);
            assert(t.take(n) =~= d);
            assert(t.subrange(n + 1, h) =~= u);
            assert(t.subrange(h + 1, t.len() as int) =~= g);
            assert(forall|i: int| 0 <= i < t.len() && t[i] == '@' ==> i == n);
            assert(forall|i: int| 0 <= i < t.len() && t[i] == '#' ==> i == h);
        },
        (Some(u), None) => {
            assert(t =~= d + seq!['@'] + u);
            assert(forall|i: int| 0 <= i < n ==> t[i] == d[i]);
            assert(t[n] == '@');
            assert(forall|i: int| n < i < t.len() ==> t[i] == u[i - n - 1]);
            lemma_next_unique(t, '@', 0, n);
            lemma_next_unique(t, '#', 0, t.len() as int);
            lemma_next_unique(t, '#', n + 1, t.len() as int);
            assert(t.take(n) =~= d);
            assert(t.subrange(n + 1, t.len() as int) =~= u);
            assert(forall|i: int| 0 <= i < t.len() && t[i] == '@' ==> i == n);
            assert(forall|i: int| 0 <= i < t.len() ==> t[i] != '#');
        },
        (None, Some(g)) => {
            assert(t =~= d + seq!['#'] + g);
            assert(forall|i: int| 0 <= i < n ==> t[i] == d[i]);
            assert(t[n] == '#');
            assert(forall|i: int| n < i < t.len() ==> t[i] == g[i - n - 1]);
            lemma_next_unique(t, '#', 0, n);
            lemma_next_unique(t, '@', 0, t.len() as int);
            lemma_next_unique(t, '@', n + 1, t.len() as int);
            assert(t.take(n) =~= d);
            assert(t.subrange(n + 1, t.len() as int) =~= g);
            assert(forall|i: int| 0 <= i < t.len() && t[i] == '#' ==> i == n);
            assert(forall|i: int| 0 <= i < t.len() ==> t[i] != '@');
        },
        (None, None) => {
            assert(t =~= d);
            lemma_next_unique(t, '@', 0, n);
            lemma_next_unique(t, '#', 0, n);
            assert(t.take(n) =~= d);
        },
    }
}

} // verus!
