//! Routing of request paths onto directories: the longest configured prefix
//! that matches whole segments wins, else the base directory serves.

use vstd::prelude::*;
use crate::error::{ServeError, result_view};
use crate::table::{Table, lemma_map_of_unique};
use crate::text::{is_segment_prefix, is_within, make_rooted, opt_view, rooted, segment_prefix, within};

verus! {

/// `k` is a key of `m`, a whole-segment prefix of `q`, and no key of `m`
/// that is one is longer.
pub open spec fn is_longest_match(m: Map<Seq<char>, Seq<char>>, q: Seq<char>, k: Seq<char>) -> bool {
    &&& m.contains_key(k)
    &&& is_segment_prefix(k, q)
    &&& forall|k2: Seq<char>| #[trigger]
        m.contains_key(k2) && is_segment_prefix(k2, q) ==> k2.len() <= k.len()
}

/// The prefix of `m` that routes `q`, if any matches.
pub open spec fn matched_prefix(m: Map<Seq<char>, Seq<char>>, q: Seq<char>) -> Option<Seq<char>> {
    if exists|k: Seq<char>| is_longest_match(m, q, k) {
        Some(choose|k: Seq<char>| is_longest_match(m, q, k))
    } else {
        None
    }
}

/// At most one prefix is the longest match.
pub proof fn lemma_longest_match_unique(
    m: Map<Seq<char>, Seq<char>>,
    q: Seq<char>,
    k1: Seq<char>,
    k2: Seq<char>,
)
    requires
        is_longest_match(m, q, k1),
        is_longest_match(m, q, k2),
    ensures
        k1 == k2,
{
    assert(k1.len() == k2.len());
    if k1 != q && k2 != q {
        assert(k1 =~= q.subrange(0, k1.len() as int));
        assert(k2 =~= q.subrange(0, k2.len() as int));
    }
}

/// The directory that serves virtual path `p`, and the path looked up on
/// disk: a matched prefix is replaced by its directory; otherwise the rooted
/// path is appended to the base directory.
pub open spec fn route_of(base: Seq<char>, m: Map<Seq<char>, Seq<char>>, p: Seq<char>) -> (
    Seq<char>,
    Seq<char>,
) {
    let q = rooted(p);
    match matched_prefix(m, q) {
        Some(k) => (m[k], m[k] + q.subrange(k.len() as int, q.len() as int)),
        None => (base, base + q),
    }
}

/// The outcome for a routed path once the filesystem has canonicalized it
/// (`None` when it could not): the canonical path must lie within `dir`.
pub open spec fn settled(dir: Seq<char>, canonical: Option<Seq<char>>) -> Result<
    Seq<char>,
    ServeError,
> {
    match canonical {
        None => Err(ServeError::NotFound),
        Some(c) => if is_within(dir, c) {
            Ok(c)
        } else {
            Err(ServeError::Forbidden)
        },
    }
}

/// Where a virtual path was routed: the directory serving it and the path to
/// canonicalize.
pub struct Route {
    pub dir: String,
    pub candidate: String,
}

impl Route {
    /// Finishes resolution with what canonicalizing `self.candidate` gave.
    pub fn settle(&self, canonical: Option<String>) -> (r: Result<String, ServeError>)
        ensures
            result_view(r) == settled(self.dir@, opt_view(canonical)),
    {
        match canonical {
            None => Err(ServeError::NotFound),
            Some(c) => if within(self.dir.as_str(), c.as_str()) {
                Ok(c)
            } else {
                Err(ServeError::Forbidden)
            },
        }
    }
}

/// Index of the entry of `m` whose key is the longest match for `q`.
fn longest_match(m: &Table, q: &str) -> (r: Option<usize>)
    requires
        m.wf(),
    ensures
        match r {
            None => matched_prefix(m@, q@) is None,
            Some(i) => i < m.pairs().len() && matched_prefix(m@, q@) == Some(m.pairs()[i as int].0),
        },
{
    let n = m.len();
    proof {
        m.lemma_pairs();
        lemma_map_of_unique(m.pairs());
    }
    let mut best: Option<usize> = None;
    let mut best_len: usize = 0;
    let mut i: usize = 0;
    while i < n
        invariant
            i <= n == m.pairs().len(),
            m.wf(),
            match best {
                None => forall|j: int| 0 <= j < i ==> !is_segment_prefix(m.pairs()[j].0, q@),
                Some(b) => b < i && is_segment_prefix(m.pairs()[b as int].0, q@) && best_len
                    == m.pairs()[b as int].0.len() && forall|j: int|
                    0 <= j < i && is_segment_prefix(m.pairs()[j].0, q@) ==> m.pairs()[j].0.len()
                        <= best_len,
            },
        decreases n - i,
    {
        let (k, _t) = m.entry(i);
        if segment_prefix(k.as_str(), q) {
            let kl = k.as_str().unicode_len();
            let better = match best {
                None => true,
                Some(_) => kl > best_len,
            };
            if better {
                best = Some(i);
                best_len = kl;
            }
        }
        i = i + 1;
    }
    proof {
        match best {
            None => {
                if exists|k: Seq<char>| is_longest_match(m@, q@, k) {
                    let k = choose|k: Seq<char>| is_longest_match(m@, q@, k);
                    assert(m@.contains_key(k));
                    let j = choose|j: int| 0 <= j < m.pairs().len() && m.pairs()[j].0 == k;
                    assert(!is_segment_prefix(m.pairs()[j].0, q@));
                }
            },
            Some(b) => {
                let kb = m.pairs()[b as int].0;
                assert(m@.contains_key(kb));
                assert forall|k2: Seq<char>| #[trigger]
                    m@.contains_key(k2) && is_segment_prefix(k2, q@) implies k2.len() <= kb.len() by {
                    let j = choose|j: int| 0 <= j < m.pairs().len() && m.pairs()[j].0 == k2;
                    assert(is_segment_prefix(m.pairs()[j].0, q@));
                }
                assert(is_longest_match(m@, q@, kb));
                let c = choose|k: Seq<char>| is_longest_match(m@, q@, k);
                lemma_longest_match_unique(m@, q@, c, kb);
            },
        }
    }
    best
}

/// Routes virtual path `p` under base directory `base` and the prefix
/// mappings `m`.
pub fn route(base: &String, m: &Table, p: &str) -> (r: Route)
    requires
        m.wf(),
    ensures
        (r.dir@, r.candidate@) == route_of(base@, m@, p@),
{
    let q = make_rooted(p);
    proof {
        m.lemma_pairs();
        lemma_map_of_unique(m.pairs());
    }
    let nq = q.as_str().unicode_len();
    match longest_match(m, q.as_str()) {
        Some(i) => {
            let (k, t) = m.entry(i);
            let kl = k.as_str().unicode_len();
            assert(kl <= nq) by {
                assert(is_longest_match(m@, q@, k@));
            }
            let rest = q.as_str().substring_char(kl, nq);
            let dir = t.clone();
            assert(m@.contains_key(m.pairs()[i as int].0));
            let candidate = t.clone().concat(rest);
            Route { dir, candidate }
        },
        None => {
            let dir = base.clone();
            let candidate = base.clone().concat(q.as_str());
            Route { dir, candidate }
        },
    }
}

/// What canonicalizing `p` gives on a filesystem that maps each existing
/// path to its canonical form.
pub open spec fn canonical_in(fs: Map<Seq<char>, Seq<char>>, p: Seq<char>) -> Option<Seq<char>> {
    if fs.contains_key(p) {
        Some(fs[p])
    } else {
        None
    }
}

/// The whole resolution of virtual path `p`: route it, canonicalize the
/// routed path on `fs`, and check that it stayed within its directory.
pub open spec fn resolution(
    base: Seq<char>,
    m: Map<Seq<char>, Seq<char>>,
    fs: Map<Seq<char>, Seq<char>>,
    p: Seq<char>,
) -> Result<Seq<char>, ServeError> {
    settled(route_of(base, m, p).0, canonical_in(fs, route_of(base, m, p).1))
}

/// A path that no prefix matches is looked up under the base directory: it
/// resolves to the canonical form of the base joined with the path when that
/// exists (and stays under the base), and is not found otherwise.
pub proof fn lemma_unmapped_path(
    base: Seq<char>,
    m: Map<Seq<char>, Seq<char>>,
    fs: Map<Seq<char>, Seq<char>>,
    p: Seq<char>,
)
    requires
        forall|k: Seq<char>| m.contains_key(k) ==> !is_segment_prefix(k, rooted(p)),
    ensures
        route_of(base, m, p) == (base, base + rooted(p)),
        !fs.contains_key(base + rooted(p)) ==> resolution(base, m, fs, p) == Err::<
            Seq<char>,
            ServeError,
        >(ServeError::NotFound),
        fs.contains_key(base + rooted(p)) && is_within(base, fs[base + rooted(p)]) ==> resolution(
            base,
            m,
            fs,
            p,
        ) == Ok::<Seq<char>, ServeError>(fs[base + rooted(p)]),
{
    assert(!exists|k: Seq<char>| is_longest_match(m, rooted(p), k));
}

/// A path routed by prefix `k` (the path is `k` or continues it after a
/// separator, and no longer prefix matches) is looked up in `k`'s directory
/// with the rest of the path appended.
pub proof fn lemma_mapped_path(
    base: Seq<char>,
    m: Map<Seq<char>, Seq<char>>,
    fs: Map<Seq<char>, Seq<char>>,
    p: Seq<char>,
    k: Seq<char>,
)
    requires
        m.contains_key(k),
        is_segment_prefix(k, rooted(p)),
        forall|k2: Seq<char>|
            m.contains_key(k2) && is_segment_prefix(k2, rooted(p)) ==> k2.len() <= k.len(),
    ensures
        ({
            let c = m[k] + rooted(p).subrange(k.len() as int, rooted(p).len() as int);
            &&& route_of(base, m, p) == (m[k], c)
            &&& !fs.contains_key(c) ==> resolution(base, m, fs, p) == Err::<
                Seq<char>,
                ServeError,
            >(ServeError::NotFound)
            &&& fs.contains_key(c) && is_within(m[k], fs[c]) ==> resolution(base, m, fs, p)
                == Ok::<Seq<char>, ServeError>(fs[c])
        }),
{
    let q = rooted(p);
    assert(is_longest_match(m, q, k));
    let c = choose|c: Seq<char>| is_longest_match(m, q, c);
    lemma_longest_match_unique(m, q, c, k);
}

/// Routing a path twice and settling each route against the same
/// filesystem gives the same outcome both times.
pub proof fn lemma_resolution_repeatable(
    base: Seq<char>,
    m: Map<Seq<char>, Seq<char>>,
    fs: Map<Seq<char>, Seq<char>>,
    p: Seq<char>,
    first: Route,
    second: Route,
    first_outcome: Result<Seq<char>, ServeError>,
    second_outcome: Result<Seq<char>, ServeError>,
)
    requires
        (first.dir@, first.candidate@) == route_of(base, m, p),
        (second.dir@, second.candidate@) == route_of(base, m, p),
        first_outcome == settled(first.dir@, canonical_in(fs, first.candidate@)),
        second_outcome == settled(second.dir@, canonical_in(fs, second.candidate@)),
    ensures
        first_outcome == second_outcome,
        first_outcome == resolution(base, m, fs, p),
{
}

} // verus!
