//! Splitting a `host[/path]` target into its host and its path.
use vstd::prelude::*;
use crate::text::{chars_of, string_of};

verus! {

/// The host part of `s`: everything before the first `/`, or all of `s`.
pub open spec fn url_host(s: Seq<char>) -> Seq<char>
    decreases s.len(),
{
    if s.len() == 0 || s[0] == '/' {
        Seq::empty()
    } else {
        seq![s[0]] + url_host(s.drop_first())
    }
}

/// The path part of `s`: everything after the first `/`, or empty.
pub open spec fn url_path(s: Seq<char>) -> Seq<char>
    decreases s.len(),
{
    if s.len() == 0 {
        Seq::empty()
    } else if s[0] == '/' {
        s.drop_first()
    } else {
        url_path(s.drop_first())
    }
}

/// `url_host` and `url_path` read off the first slash at index `i`.
proof fn lemma_split_at_slash(s: Seq<char>, i: int)
    requires
        0 <= i <= s.len(),
        forall|j: int| 0 <= j < i ==> s[j] != '/',
        i == s.len() || s[i] == '/',
    ensures
        url_host(s) == s.subrange(0, i),
        url_path(s) == if i == s.len() {
            Seq::<char>::empty()
        } else {
            s.subrange(i + 1, s.len() as int)
        },
    decreases i,
{
    if i > 0 {
        let t = s.drop_first();
        assert forall|j: int| 0 <= j < i - 1 implies t[j] != '/' by {
            assert(s[j + 1] != '/');
        }
        lemma_split_at_slash(t, i - 1);
        assert(s.subrange(0, i) =~= seq![s[0]] + t.subrange(0, i - 1));
        if i < s.len() {
            assert(s.subrange(i + 1, s.len() as int) =~= t.subrange(i, t.len() as int));
        }
    } else if s.len() > 0 {
        assert(s.subrange(0, 0) =~= Seq::<char>::empty());
        assert(s.subrange(1, s.len() as int) =~= s.drop_first());
    } else {
        assert(s.subrange(0, 0) =~= Seq::<char>::empty());
    }
}

/// Splits `site` at its first `/` into the host before it and the path
/// after it; with no `/` the whole input is the host and the path is empty.
pub fn parsr_url(site: String) -> (r: (String, String))
    ensures
        r.0@ == url_host(site@),
        r.1@ == url_path(site@),
{
    let cs = chars_of(site.as_str());
    let n = cs.len();
    let mut i: usize = 0;
    while i < n && cs[i] != '/'
        invariant
            i <= n == cs@.len(),
            cs@ == site@,
            forall|j: int| 0 <= j < i ==> cs@[j] != '/',
        decreases n - i,
    {
        i = i + 1;
    }
    proof {
        lemma_split_at_slash(site@, i as int);
    }
    let host = string_of(&cs, 0, i);
    let path = if i < n {
        string_of(&cs, i + 1, n)
    } else {
        String::new()
    };
    (host, path)
}

} // verus!
