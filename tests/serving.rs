use servnt::content_type::{content_type_table, default_extension_content_types, extension};
use servnt::error::{ConfigError, ServeError};
use servnt::route::Route;
use servnt::state::{reply, AppPaths, ServntState};
use servnt::table::Table;
use servnt::text::{find_last, make_rooted, segment_prefix, within};

fn s(x: &str) -> String {
    x.to_string()
}

fn state_with(mapped: Vec<(&str, &str)>, extensions: Vec<(&str, &str)>) -> ServntState {
    let mapped = mapped.into_iter().map(|(k, v)| (s(k), Some(s(v)))).collect();
    let extensions = extensions.into_iter().map(|(k, v)| (s(k), s(v))).collect();
    match ServntState::new(Some(s("/srv/app")), mapped, extensions) {
        Ok(st) => st,
        Err(_) => panic!("configuration refused"),
    }
}

fn resolve(st: &ServntState, path: &str, canonical: Option<&str>) -> (Route, Result<String, ServeError>) {
    let route = st.resolve_path(path);
    let outcome = route.settle(canonical.map(s));
    (route, outcome)
}

#[test]
fn base_directory_serves_unmapped_path() {
    let st = state_with(vec![("/static", "/srv/assets")], vec![]);
    let (route, outcome) = resolve(&st, "index.html", Some("/srv/app/index.html"));
    assert_eq!(route.dir, "/srv/app");
    assert_eq!(route.candidate, "/srv/app/index.html");
    assert_eq!(outcome, Ok(s("/srv/app/index.html")));
}

#[test]
fn mapped_prefix_serves_its_directory() {
    let st = state_with(vec![("/static", "/srv/assets")], vec![]);
    let (route, outcome) = resolve(&st, "/static/logo.png", Some("/srv/assets/logo.png"));
    assert_eq!(route.dir, "/srv/assets");
    assert_eq!(route.candidate, "/srv/assets/logo.png");
    assert_eq!(outcome, Ok(s("/srv/assets/logo.png")));
}

#[test]
fn bare_prefix_is_the_mapped_directory() {
    let st = state_with(vec![("/static", "/srv/assets")], vec![]);
    let (route, outcome) = resolve(&st, "/static", Some("/srv/assets"));
    assert_eq!(route.candidate, "/srv/assets");
    assert_eq!(outcome, Ok(s("/srv/assets")));
}

#[test]
fn relative_path_is_read_as_rooted() {
    let st = state_with(vec![("/static", "/srv/assets")], vec![]);
    assert_eq!(st.resolve_path("static/logo.png").candidate, "/srv/assets/logo.png");
}

#[test]
fn prefix_matches_whole_segments_only() {
    let st = state_with(vec![("/foo", "/srv/foo")], vec![]);
    let route = st.resolve_path("/foobar/x.html");
    assert_eq!(route.dir, "/srv/app");
    assert_eq!(route.candidate, "/srv/app/foobar/x.html");
}

#[test]
fn longest_prefix_wins() {
    let st = state_with(vec![("/static", "/srv/assets"), ("/static/img", "/srv/images")], vec![]);
    assert_eq!(st.resolve_path("/static/img/a.png").candidate, "/srv/images/a.png");
    assert_eq!(st.resolve_path("/static/a.png").candidate, "/srv/assets/a.png");
    let st = state_with(vec![("/static/img", "/srv/images"), ("/static", "/srv/assets")], vec![]);
    assert_eq!(st.resolve_path("/static/img/a.png").candidate, "/srv/images/a.png");
}

#[test]
fn later_mapping_of_a_prefix_wins() {
    let st = state_with(vec![("/static", "/srv/one"), ("/static", "/srv/two")], vec![]);
    assert_eq!(st.resolve_path("/static/a.png").candidate, "/srv/two/a.png");
}

#[test]
fn missing_file_is_not_found() {
    let st = state_with(vec![], vec![]);
    let (_, outcome) = resolve(&st, "missing.html", None);
    assert_eq!(outcome, Err(ServeError::NotFound));
    let route = st.resolve_path("missing.html");
    let served = st.serve(&route, None);
    assert!(matches!(served, Err(ServeError::NotFound)));
    let r = reply(served, None);
    assert_eq!(r.status, 500);
    assert!(r.content_type.is_none());
    assert!(r.body.is_empty());
}

#[test]
fn escape_from_directory_is_forbidden() {
    let st = state_with(vec![("/static", "/srv/assets")], vec![]);
    let (_, outcome) = resolve(&st, "../../etc/passwd", Some("/etc/passwd"));
    assert_eq!(outcome, Err(ServeError::Forbidden));
    let (_, outcome) = resolve(&st, "/static/../app/index.html", Some("/srv/app/index.html"));
    assert_eq!(outcome, Err(ServeError::Forbidden));
    let (_, outcome) = resolve(&st, "x.html", Some("/srv/application/x.html"));
    assert_eq!(outcome, Err(ServeError::Forbidden));
}

#[test]
fn resolving_twice_gives_the_same_result() {
    let st = state_with(vec![("/static", "/srv/assets")], vec![]);
    let first = resolve(&st, "/static/logo.png", Some("/srv/assets/logo.png"));
    let second = resolve(&st, "/static/logo.png", Some("/srv/assets/logo.png"));
    assert_eq!(first.0.candidate, second.0.candidate);
    assert_eq!(first.1, second.1);
}

#[test]
fn json_without_override_is_unknown() {
    let st = state_with(vec![], vec![]);
    assert_eq!(st.get_content_type("/srv/app/data.json"), Err(ServeError::UnknownExtension));
    let route = st.resolve_path("data.json");
    let served = st.serve(&route, Some(s("/srv/app/data.json")));
    assert!(matches!(served, Err(ServeError::UnknownExtension)));
    let r = reply(served, Some(vec![1, 2, 3]));
    assert_eq!(r.status, 500);
    assert!(r.body.is_empty());
}

#[test]
fn json_with_override_is_served() {
    let st = state_with(vec![], vec![("json", "application/json")]);
    assert_eq!(st.get_content_type("/srv/app/data.json"), Ok(s("application/json")));
    let route = st.resolve_path("data.json");
    let served = st.serve(&route, Some(s("/srv/app/data.json")));
    let (path, content_type) = match &served {
        Ok(found) => (found.path.clone(), found.content_type.clone()),
        Err(_) => panic!("not served"),
    };
    assert_eq!(path, "/srv/app/data.json");
    assert_eq!(content_type, "application/json");
    let r = reply(served, Some(b"{}".to_vec()));
    assert_eq!(r.status, 200);
    assert_eq!(r.content_type, Some(s("application/json")));
    assert_eq!(r.body, b"{}".to_vec());
}

#[test]
fn unreadable_file_gives_server_error() {
    let st = state_with(vec![], vec![]);
    let route = st.resolve_path("index.html");
    let served = st.serve(&route, Some(s("/srv/app/index.html")));
    assert!(served.is_ok());
    let r = reply(served, None);
    assert_eq!(r.status, 500);
    assert!(r.content_type.is_none());
}

#[test]
fn override_replaces_default() {
    let st = state_with(vec![], vec![("html", "text/plain")]);
    assert_eq!(st.get_content_type("/srv/app/index.html"), Ok(s("text/plain")));
    assert_eq!(st.get_content_type("/srv/app/logo.png"), Ok(s("image/png")));
}

#[test]
fn later_override_wins() {
    let st = state_with(vec![], vec![("json", "text/json"), ("json", "application/json")]);
    assert_eq!(st.get_content_type("a.json"), Ok(s("application/json")));
}

#[test]
fn default_content_types() {
    let st = state_with(vec![], vec![]);
    assert_eq!(st.get_content_type("index.html"), Ok(s("text/html")));
    assert_eq!(st.get_content_type("logo.png"), Ok(s("image/png")));
    assert_eq!(st.get_content_type("favicon.ico"), Ok(s("image/vnd.microsoft.icon")));
    assert_eq!(st.get_content_type("site.webmanifest"), Ok(s("application/manifest+json")));
    let t = default_extension_content_types();
    assert_eq!(t.get(&s("png")), Some(s("image/png")));
    assert_eq!(t.get(&s("json")), None);
}

#[test]
fn content_type_follows_last_extension_of_final_segment() {
    let st = state_with(vec![], vec![]);
    assert_eq!(st.get_content_type("/a/archive.tar.png"), Ok(s("image/png")));
    assert_eq!(st.get_content_type("/a/b.png"), st.get_content_type("/x/y/other.png"));
    assert_eq!(st.get_content_type("/a/README"), Err(ServeError::UnknownExtension));
    assert_eq!(st.get_content_type("/a.html/README"), Err(ServeError::UnknownExtension));
    assert_eq!(st.get_content_type("/a/b."), Err(ServeError::UnknownExtension));
    assert_eq!(st.get_content_type("/a/LOGO.PNG"), Err(ServeError::UnknownExtension));
}

#[test]
fn extension_of_paths() {
    assert_eq!(extension("archive.tar.gz"), Some(s("gz")));
    assert_eq!(extension("/srv/.hidden"), Some(s("hidden")));
    assert_eq!(extension("dir.d/file"), None);
    assert_eq!(extension("name."), Some(s("")));
    assert_eq!(extension(""), None);
}

#[test]
fn missing_base_directory_is_refused() {
    let r = ServntState::new(None, vec![(s("/static"), Some(s("/srv/assets")))], vec![]);
    assert!(matches!(r, Err(ConfigError::BaseDirectory)));
}

#[test]
fn missing_mapped_directory_is_refused() {
    let r = ServntState::new(
        Some(s("/srv/app")),
        vec![(s("/ok"), Some(s("/srv/ok"))), (s("/static"), None), (s("/more"), None)],
        vec![],
    );
    match r {
        Err(ConfigError::MappedDirectory(prefix)) => assert_eq!(prefix, "/static"),
        _ => panic!("expected a mapped-directory error"),
    }
}

#[test]
fn default_base_is_src() {
    assert_eq!(AppPaths::default_base(), "src");
}

#[test]
fn table_insert_replaces() {
    let mut t = Table::new();
    t.insert(s("a"), s("1"));
    t.insert(s("b"), s("2"));
    t.insert(s("a"), s("3"));
    assert_eq!(t.len(), 2);
    assert_eq!(t.get(&s("a")), Some(s("3")));
    assert_eq!(t.get(&s("b")), Some(s("2")));
    let merged = content_type_table(&vec![(s("png"), s("image/x-png"))]);
    assert_eq!(merged.get(&s("png")), Some(s("image/x-png")));
    assert_eq!(merged.len(), 4);
}

#[test]
fn path_helpers() {
    assert_eq!(find_last("a/b/c", '/'), Some(3));
    assert_eq!(find_last("abc", '/'), None);
    assert!(segment_prefix("/static", "/static"));
    assert!(segment_prefix("/static", "/static/x"));
    assert!(!segment_prefix("/static", "/statics"));
    assert!(!segment_prefix("/static", "/stat"));
    assert!(within("/", "/etc"));
    assert!(within("/srv", "/srv/a"));
    assert!(!within("/srv", "/srvx"));
    assert_eq!(make_rooted("a/b"), "/a/b");
    assert_eq!(make_rooted("/a/b"), "/a/b");
}

#[test]
fn error_descriptions() {
    assert_eq!(ServeError::NotFound.describe(), "not found");
    assert_eq!(ServeError::UnknownExtension.describe(), "unknown extension");
    assert_eq!(ServeError::Forbidden.describe(), "outside of its directory");
}
