use mdserve::date::Date;
use mdserve::meta::Meta;
use mdserve::routes::{route_path, route_request, Route};
use mdserve::snapshot::{IndexEntry, Snapshot};

fn entry(path: &str, section: &str) -> IndexEntry {
    IndexEntry {
        meta: Meta {
            title: path.to_string(),
            date: Date { year: 2024, month: 5, day: 1 },
            lang: None,
            desc: None,
        },
        section: section.to_string(),
        path: path.to_string(),
    }
}

fn snap_with(paths: &[(&str, &str)]) -> Snapshot {
    Snapshot {
        sections: vec!["".to_string()],
        index: paths.iter().map(|(p, s)| entry(p, s)).collect(),
    }
}

#[test]
fn root_redirects() {
    let snap = snap_with(&[]);
    assert!(matches!(route_path("/", &snap), Route::Redirect));
}

#[test]
fn root_index_page() {
    let snap = snap_with(&[]);
    assert!(matches!(route_path("/index.html", &snap), Route::IndexPage(None)));
}

#[test]
fn section_index_page() {
    let snap = snap_with(&[]);
    match route_path("/blog/index.html", &snap) {
        Route::IndexPage(Some(s)) => assert_eq!(s, "blog"),
        other => panic!("expected a section listing, got {:?}", route_name(&other)),
    }
}

#[test]
fn asset_and_style_paths() {
    let snap = snap_with(&[]);
    match route_path("/.static-assets/js/app.js", &snap) {
        Route::StaticAsset(rest) => assert_eq!(rest, "js/app.js"),
        other => panic!("expected an asset, got {:?}", route_name(&other)),
    }
    match route_path("/.styles/styles.css", &snap) {
        Route::StyleAsset(rest) => assert_eq!(rest, "styles.css"),
        other => panic!("expected a style, got {:?}", route_name(&other)),
    }
    assert!(matches!(route_path("/.static-assets", &snap), Route::NotFound));
    assert!(matches!(route_path("/.styles", &snap), Route::NotFound));
}

#[test]
fn allow_list_gates_documents() {
    let snap = snap_with(&[("blog/post.md", "blog")]);
    match route_path("/blog/post.md", &snap) {
        Route::Document(p) => assert_eq!(p, "blog/post.md"),
        other => panic!("expected the indexed document, got {:?}", route_name(&other)),
    }
    // anything not indexed is refused, whatever exists on disk
    assert!(matches!(route_path("/blog/other.md", &snap), Route::NotFound));
    assert!(matches!(route_path("/etc/passwd", &snap), Route::NotFound));
}

#[test]
fn traversal_rejected_even_when_indexed() {
    // even if, by coincidence, the index holds such a string
    let snap = snap_with(&[("../secret.md", ""), ("a/./b.md", "a")]);
    assert!(matches!(route_path("/../secret.md", &snap), Route::NotFound));
    assert!(matches!(route_path("/a/./b.md", &snap), Route::NotFound));
}

#[test]
fn hidden_segments_rejected() {
    let snap = snap_with(&[(".git/config", ""), ("a/.draft.md", "a")]);
    assert!(matches!(route_path("/a/.draft.md", &snap), Route::NotFound));
    // note: "/.git/config" does not fall under the reserved prefixes
    assert!(matches!(route_path("/.git/config", &snap), Route::NotFound));
}

#[test]
fn request_routing_host_and_url() {
    let snap = snap_with(&[("blog/post.md", "blog")]);
    assert!(matches!(route_request(None, "/", &snap), Route::BadRequest));
    assert!(matches!(
        route_request(Some("exa mple.com"), "/", &snap),
        Route::BadRequest
    ));
    assert!(matches!(
        route_request(Some("localhost:8080"), "/", &snap),
        Route::Redirect
    ));
    assert!(matches!(
        route_request(Some("localhost:8080"), "/index.html?page=2", &snap),
        Route::IndexPage(None)
    ));
    match route_request(Some("localhost:8080"), "/blog/post.md", &snap) {
        Route::Document(p) => assert_eq!(p, "blog/post.md"),
        other => panic!("expected the document, got {:?}", route_name(&other)),
    }
}

#[test]
fn url_normalization_defuses_escapes() {
    let snap = snap_with(&[("blog/post.md", "blog")]);
    // the URL parser resolves dot segments before routing sees the path
    assert!(matches!(
        route_request(Some("h"), "/blog/../blog/post.md", &snap),
        Route::Document(_)
    ));
    assert!(matches!(
        route_request(Some("h"), "/../../etc/passwd", &snap),
        Route::NotFound
    ));
}

#[test]
fn section_filter_lists_matching_entries() {
    let snap = snap_with(&[("blog/a.md", "blog"), ("notes.md", ""), ("blog/b.md", "blog")]);
    let all = snap.entries_for_section(None);
    assert_eq!(all.len(), 3);
    let blog = snap.entries_for_section(Some("blog"));
    let paths: Vec<&str> = blog.iter().map(|e| e.path.as_str()).collect();
    assert_eq!(paths, vec!["blog/a.md", "blog/b.md"]);
    let none = snap.entries_for_section(Some("zzz"));
    assert!(none.is_empty());
}

#[test]
fn contains_path_looks_up_exactly() {
    let snap = snap_with(&[("blog/a.md", "blog")]);
    assert!(snap.contains_path("blog/a.md"));
    assert!(!snap.contains_path("blog/a.m"));
    assert!(!snap.contains_path(""));
}

fn route_name(r: &Route) -> &'static str {
    match r {
        Route::Redirect => "Redirect",
        Route::IndexPage(_) => "IndexPage",
        Route::StaticAsset(_) => "StaticAsset",
        Route::StyleAsset(_) => "StyleAsset",
        Route::Document(_) => "Document",
        Route::NotFound => "NotFound",
        Route::BadRequest => "BadRequest",
    }
}
