//! The server's configuration snapshot and the steps of serving a request.

use vstd::prelude::*;
use crate::content_type::{content_type_of, content_type_table, extension, merged_content_types};
use crate::error::{ConfigError, ServeError, result_view};
use crate::route::{Route, route, route_of, settled};
use crate::table::{Table, map_of, pairs_view};
use crate::text::opt_view;

verus! {

/// The `paths` section of a configuration: the base directory and the
/// prefix-to-directory mappings, as written.
pub struct AppPaths {
    pub base: String,
    pub mapped: Vec<(String, String)>,
}

impl AppPaths {
    /// The base directory used when a configuration names none.
    pub fn default_base() -> (r: String)
        ensures
            r@ == "src"@,
    {
        String::from_str("src")
    }
}

/// Mapped directories once canonicalized, all of them present.
pub open spec fn targets_view(s: Seq<(String, Option<String>)>) -> Seq<(Seq<char>, Seq<char>)> {
    s.map_values(|e: (String, Option<String>)| (e.0@, e.1->0@))
}

/// The content type for path `p`, or the error for lacking one.
pub open spec fn content_type_result(types: Map<Seq<char>, Seq<char>>, p: Seq<char>) -> Result<
    Seq<char>,
    ServeError,
> {
    match content_type_of(types, p) {
        Some(m) => Ok(m),
        None => Err(ServeError::UnknownExtension),
    }
}

/// What serving a routed path gives: the canonical path and its content
/// type, or the first error met.
pub open spec fn served_of(
    types: Map<Seq<char>, Seq<char>>,
    dir: Seq<char>,
    canonical: Option<Seq<char>>,
) -> Result<(Seq<char>, Seq<char>), ServeError> {
    match settled(dir, canonical) {
        Err(e) => Err(e),
        Ok(c) => match content_type_result(types, c) {
            Ok(m) => Ok((c, m)),
            Err(e) => Err(e),
        },
    }
}

/// A file found for a request, with its content type.
pub struct Served {
    pub path: String,
    pub content_type: String,
}

/// The response to a request.
pub struct Reply {
    pub status: u16,
    pub content_type: Option<String>,
    pub body: Vec<u8>,
}

/// The response for a serving outcome and the bytes read from the served
/// file (`None` when reading failed). Every failure is the same opaque
/// server error with an empty body.
pub fn reply(outcome: Result<Served, ServeError>, body: Option<Vec<u8>>) -> (r: Reply)
    ensures
        match (outcome, body) {
            (Ok(s), Some(b)) => r.status == 200 && opt_view(r.content_type) == Some(
                s.content_type@,
            ) && r.body@ == b@,
            _ => r.status == 500 && r.content_type is None && r.body@.len() == 0,
        },
{
    match (outcome, body) {
        (Ok(s), Some(b)) => Reply { status: 200, content_type: Some(s.content_type), body: b },
        _ => Reply { status: 500, content_type: None, body: Vec::new() },
    }
}

/// The immutable configuration a server runs with: content types, the
/// canonical base directory, and canonical mapped directories by prefix.
pub struct ServntState {
    extension_content_types: Table,
    full_base_path: String,
    mapped_paths: Table,
}

impl ServntState {
    #[verifier::type_invariant]
    spec fn inv(&self) -> bool {
        self.extension_content_types.wf() && self.mapped_paths.wf()
    }

    /// Content types by extension.
    pub closed spec fn content_types(&self) -> Map<Seq<char>, Seq<char>> {
        self.extension_content_types@
    }

    /// The canonical base directory.
    pub closed spec fn base_dir(&self) -> Seq<char> {
        self.full_base_path@
    }

    /// Canonical mapped directories by prefix.
    pub closed spec fn routes(&self) -> Map<Seq<char>, Seq<char>> {
        self.mapped_paths@
    }

    /// Builds the configuration from the canonicalized base directory, the
    /// canonicalized directory of each prefix (`None` where canonicalizing
    /// failed) and the content-type overrides. Later entries for a prefix or
    /// an extension replace earlier ones.
    pub fn new(
        base: Option<String>,
        mapped: Vec<(String, Option<String>)>,
        extensions: Vec<(String, String)>,
    ) -> (r: Result<ServntState, ConfigError>)
        ensures
            (r matches Err(ConfigError::BaseDirectory)) <==> base is None,
            r matches Err(ConfigError::MappedDirectory(k)) ==> exists|i: int|
                0 <= i < mapped@.len() && mapped@[i].1 is None && mapped@[i].0@ == k@ && forall|
                    j: int,
                | 0 <= j < i ==> mapped@[j].1 is Some,
            r is Ok <==> base is Some && forall|i: int|
                0 <= i < mapped@.len() ==> mapped@[i].1 is Some,
            r matches Ok(st) ==> st.base_dir() == base->0@ && st.routes() == map_of(
                targets_view(mapped@),
            ) && st.content_types() == merged_content_types(pairs_view(extensions@)),
    {
        let extension_content_types = content_type_table(&extensions);
        let full_base_path = match base {
            Some(b) => b,
            None => return Err(ConfigError::BaseDirectory),
        };
        let mut mapped_paths = Table::new();
        let ghost tv = targets_view(mapped@);
        let mut i: usize = 0;
        assert(map_of(tv.take(0)) =~= Map::<Seq<char>, Seq<char>>::empty());
        while i < mapped.len()
            invariant
                i <= mapped@.len(),
                base is Some,
                tv == targets_view(mapped@),
                mapped_paths.wf(),
                mapped_paths@ == map_of(tv.take(i as int)),
                forall|j: int| 0 <= j < i ==> mapped@[j].1 is Some,
            decreases mapped@.len() - i,
        {
            match &mapped[i].1 {
                None => {
                    return Err(ConfigError::MappedDirectory(mapped[i].0.clone()));
                },
                Some(t) => {
                    mapped_paths.insert(mapped[i].0.clone(), t.clone());
                    assert(tv.take(i + 1).drop_last() =~= tv.take(i as int));
                },
            }
            i = i + 1;
        }
        assert(tv.take(mapped@.len() as int) =~= tv);
        Ok(ServntState { extension_content_types, full_base_path, mapped_paths })
    }

    /// Routes virtual path `path`; the route's candidate is then
    /// canonicalized by the caller and handed to [`Route::settle`].
    pub fn resolve_path(&self, path: &str) -> (r: Route)
        ensures
            (r.dir@, r.candidate@) == route_of(self.base_dir(), self.routes(), path@),
    {
        proof {
            use_type_invariant(self);
        }
        route(&self.full_base_path, &self.mapped_paths, path)
    }

    /// The content type of `path`, by its extension.
    pub fn get_content_type(&self, path: &str) -> (r: Result<String, ServeError>)
        ensures
            result_view(r) == content_type_result(self.content_types(), path@),
    {
        proof {
            use_type_invariant(self);
        }
        match extension(path) {
            None => Err(ServeError::UnknownExtension),
            Some(e) => match self.extension_content_types.get(&e) {
                Some(m) => Ok(m),
                None => Err(ServeError::UnknownExtension),
            },
        }
    }

    /// Finishes a request routed to `route`, given what canonicalizing its
    /// candidate gave: the canonical file and its content type.
    pub fn serve(&self, route: &Route, canonical: Option<String>) -> (r: Result<Served, ServeError>)
        ensures
            match r {
                Ok(s) => served_of(self.content_types(), route.dir@, opt_view(canonical)) == Ok::<
                    (Seq<char>, Seq<char>),
                    ServeError,
                >((s.path@, s.content_type@)),
                Err(e) => served_of(self.content_types(), route.dir@, opt_view(canonical))
                    == Err::<(Seq<char>, Seq<char>), ServeError>(e),
            },
    {
        let path = match route.settle(canonical) {
            Ok(p) => p,
            Err(e) => return Err(e),
        };
        match self.get_content_type(path.as_str()) {
            Ok(content_type) => Ok(Served { path, content_type }),
            Err(e) => Err(e),
        }
    }
}

} // verus!
