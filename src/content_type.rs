//! Content types by file extension: a fixed default table with overrides laid
//! over it.

use vstd::prelude::*;
use crate::table::{Table, map_of, pairs_view};
use crate::text::{find_last, last_index_of, lemma_last_index_of_bounds};

verus! {

/// The last segment of a path: what follows its last separator.
pub open spec fn final_segment(p: Seq<char>) -> Seq<char> {
    p.subrange(last_index_of(p, '/') + 1, p.len() as int)
}

/// The extension of a path: what follows the last '.' of its final segment,
/// when that segment holds a '.'.
pub open spec fn extension_of(p: Seq<char>) -> Option<Seq<char>> {
    let seg = final_segment(p);
    let dot = last_index_of(seg, '.');
    if dot >= 0 {
        Some(seg.subrange(dot + 1, seg.len() as int))
    } else {
        None
    }
}

/// The built-in content types.
pub open spec fn default_content_types() -> Map<Seq<char>, Seq<char>> {
    map![
        "html"@ => "text/html"@,
        "png"@ => "image/png"@,
        "ico"@ => "image/vnd.microsoft.icon"@,
        "webmanifest"@ => "application/manifest+json"@,
    ]
}

/// The defaults with the overrides laid over them; a later override of an
/// extension replaces an earlier one.
pub open spec fn merged_content_types(overrides: Seq<(Seq<char>, Seq<char>)>) -> Map<
    Seq<char>,
    Seq<char>,
> {
    default_content_types().union_prefer_right(map_of(overrides))
}

/// The content type of a path under `types`: the one listed for its
/// extension, if it has one and it is listed.
pub open spec fn content_type_of(types: Map<Seq<char>, Seq<char>>, p: Seq<char>) -> Option<
    Seq<char>,
> {
    match extension_of(p) {
        Some(e) => if types.contains_key(e) {
            Some(types[e])
        } else {
            None
        },
        None => None,
    }
}

/// The extension of `p`, if its final segment has one.
pub fn extension(p: &str) -> (r: Option<String>)
    ensures
        match r {
            Some(e) => extension_of(p@) == Some(e@),
            None => extension_of(p@) is None,
        },
{
    proof {
        lemma_last_index_of_bounds(p@, '/');
    }
    let n = p.unicode_len();
    let start: usize = match find_last(p, '/') {
        Some(i) => i + 1,
        None => 0,
    };
    let seg = p.substring_char(start, n);
    proof {
        lemma_last_index_of_bounds(seg@, '.');
    }
    match find_last(seg, '.') {
        Some(d) => Some(seg.substring_char(d + 1, seg.unicode_len()).to_owned()),
        None => None,
    }
}

/// The built-in table of content types.
pub fn default_extension_content_types() -> (r: Table)
    ensures
        r.wf(),
        r@ == default_content_types(),
{
    let mut t = Table::new();
    t.insert(String::from_str("html"), String::from_str("text/html"));
    t.insert(String::from_str("png"), String::from_str("image/png"));
    t.insert(String::from_str("ico"), String::from_str("image/vnd.microsoft.icon"));
    t.insert(String::from_str("webmanifest"), String::from_str("application/manifest+json"));
    t
}

/// The built-in table with `overrides` laid over it, in order.
pub fn content_type_table(overrides: &Vec<(String, String)>) -> (r: Table)
    ensures
        r.wf(),
        r@ == merged_content_types(pairs_view(overrides@)),
{
    let mut t = default_extension_content_types();
    let ghost ov = pairs_view(overrides@);
    let mut i: usize = 0;
    assert(ov.take(0).len() == 0);
    assert(default_content_types().union_prefer_right(map_of(ov.take(0))) =~= default_content_types());
    while i < overrides.len()
        invariant
            i <= overrides@.len(),
            ov == pairs_view(overrides@),
            t.wf(),
            t@ == merged_content_types(ov.take(i as int)),
        decreases overrides@.len() - i,
    {
        let k = overrides[i].0.clone();
        let v = overrides[i].1.clone();
        t.insert(k, v);
        assert(ov.take(i + 1).drop_last() =~= ov.take(i as int));
        assert(t@ =~= merged_content_types(ov.take(i + 1)));
        i = i + 1;
    }
    assert(ov.take(overrides@.len() as int) =~= ov);
    t
}

/// The content type of a path is decided by its extension alone; a path
/// whose final segment holds no '.' has none.
pub proof fn lemma_content_type_by_extension(
    types: Map<Seq<char>, Seq<char>>,
    p: Seq<char>,
    q: Seq<char>,
)
    ensures
        extension_of(p) == extension_of(q) ==> content_type_of(types, p) == content_type_of(
            types,
            q,
        ),
        (forall|i: int| 0 <= i < final_segment(p).len() ==> final_segment(p)[i] != '.')
            ==> content_type_of(types, p) is None,
{
    lemma_last_index_of_bounds(final_segment(p), '.');
}

/// An override of an extension decides the content type of every path with
/// that extension, whatever the defaults say of it.
pub proof fn lemma_override_wins(
    overrides: Seq<(Seq<char>, Seq<char>)>,
    ext: Seq<char>,
    p: Seq<char>,
)
    requires
        map_of(overrides).contains_key(ext),
        extension_of(p) == Some(ext),
    ensures
        content_type_of(merged_content_types(overrides), p) == Some(map_of(overrides)[ext]),
{
}

} // verus!
