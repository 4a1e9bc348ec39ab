//! Character-level helpers on paths, stated over `Seq<char>`.

use vstd::prelude::*;

verus! {

/// An optional string as an optional character sequence.
pub open spec fn opt_view(o: Option<String>) -> Option<Seq<char>> {
    match o {
        Some(s) => Some(s@),
        None => None,
    }
}

/// Position of the last occurrence of `c` in `s`, or -1 when there is none.
pub open spec fn last_index_of(s: Seq<char>, c: char) -> int
    decreases s.len(),
{
    if s.len() == 0 {
        -1
    } else if s.last() == c {
        s.len() - 1
    } else {
        last_index_of(s.drop_last(), c)
    }
}

pub proof fn lemma_last_index_of_bounds(s: Seq<char>, c: char)
    ensures
        -1 <= last_index_of(s, c) < s.len(),
        last_index_of(s, c) >= 0 ==> s[last_index_of(s, c)] == c,
        forall|i: int| last_index_of(s, c) < i < s.len() ==> s[i] != c,
    decreases s.len(),
{
    if s.len() > 0 && s.last() != c {
        lemma_last_index_of_bounds(s.drop_last(), c);
        assert forall|i: int| last_index_of(s, c) < i < s.len() - 1 implies s[i] != c by {
            assert(s[i] == s.drop_last()[i]);
        }
    }
}

/// Finds the last occurrence of `c` in `s`.
pub fn find_last(s: &str, c: char) -> (r: Option<usize>)
    ensures
        match r {
            None => last_index_of(s@, c) == -1,
            Some(i) => i as int == last_index_of(s@, c),
        },
{
    let n = s.unicode_len();
    let mut i: usize = n;
    assert(s@.subrange(0, n as int) =~= s@);
    while i > 0
        invariant
            i <= n,
            n == s@.len(),
            last_index_of(s@, c) == last_index_of(s@.subrange(0, i as int), c),
        decreases i,
    {
        let ch = s.get_char(i - 1);
        if ch == c {
            return Some(i - 1);
        }
        assert(s@.subrange(0, i as int).drop_last() =~= s@.subrange(0, i - 1));
        i = i - 1;
    }
    None
}

/// `prefix` followed by nothing or by a separator starts `s`: a whole-segment prefix.
pub open spec fn is_segment_prefix(prefix: Seq<char>, s: Seq<char>) -> bool {
    s == prefix || (prefix.len() < s.len() && s.subrange(0, prefix.len() as int) == prefix
        && s[prefix.len() as int] == '/')
}

/// Tests whether `prefix` is a whole-segment prefix of `s`.
pub fn segment_prefix(prefix: &str, s: &str) -> (r: bool)
    ensures
        r == is_segment_prefix(prefix@, s@),
{
    let np = prefix.unicode_len();
    let ns = s.unicode_len();
    if np > ns {
        return false;
    }
    let mut i: usize = 0;
    while i < np
        invariant
            i <= np <= ns,
            np == prefix@.len(),
            ns == s@.len(),
            forall|j: int| 0 <= j < i ==> s@[j] == prefix@[j],
        decreases np - i,
    {
        if s.get_char(i) != prefix.get_char(i) {
            return false;
        }
        i = i + 1;
    }
    assert(s@.subrange(0, np as int) =~= prefix@);
    if np == ns {
        assert(s@ =~= prefix@);
        true
    } else {
        s.get_char(np) == '/'
    }
}

/// A path read as rooted: a leading separator is added when it has none.
pub open spec fn rooted(p: Seq<char>) -> Seq<char> {
    if p.len() > 0 && p[0] == '/' {
        p
    } else {
        seq!['/'] + p
    }
}

/// Builds `rooted(p)`.
pub fn make_rooted(p: &str) -> (r: String)
    ensures
        r@ == rooted(p@),
{
    if p.unicode_len() > 0 && p.get_char(0) == '/' {
        p.to_owned()
    } else {
        let mut r = String::new();
        r.append("/");
        proof {
            reveal_strlit("/");
        }
        r.append(p);
        r
    }
}

/// `dir` holds `p`: `p` is `dir` itself or lies below it.
pub open spec fn is_within(dir: Seq<char>, p: Seq<char>) -> bool {
    p == dir || (dir.len() < p.len() && p.subrange(0, dir.len() as int) == dir && (
    p[dir.len() as int] == '/' || (dir.len() > 0 && dir.last() == '/')))
}

/// Tests whether `p` lies within `dir`.
pub fn within(dir: &str, p: &str) -> (r: bool)
    ensures
        r == is_within(dir@, p@),
{
    if segment_prefix(dir, p) {
        return true;
    }
    let nd = dir.unicode_len();
    let np = p.unicode_len();
    if nd == 0 || nd >= np || dir.get_char(nd - 1) != '/' {
        return false;
    }
    let mut i: usize = 0;
    while i < nd
        invariant
            i <= nd < np,
            nd == dir@.len(),
            np == p@.len(),
            forall|j: int| 0 <= j < i ==> p@[j] == dir@[j],
        decreases nd - i,
    {
        if p.get_char(i) != dir.get_char(i) {
            return false;
        }
        i = i + 1;
    }
    assert(p@.subrange(0, nd as int) =~= dir@);
    true
}

} // verus!
