//! The request router: given a request's host header and raw URL and the
//! current snapshot, decide what may be served.
//!
//! The allow-list rule is the heart of it: through the generic path only a
//! document listed in the snapshot's index is ever served, and never one
//! whose path holds a hidden or empty segment — whatever else exists on
//! disk, and even when a crafted path would, as a string, match an indexed
//! one.

use vstd::prelude::*;

use crate::meta::view_opt_string;
use crate::snapshot::{path_clean, path_clean_str, Snapshot, SnapshotView};
use crate::text::{ends_with, find_char_from, first_index_from, starts_with, str_eq,
    lemma_first_index_bounds};

verus! {

/// What a request resolves to.
pub enum Route {
    /// A permanent redirect to the root index page.
    Redirect,
    /// The index listing, filtered to one section when given.
    IndexPage(Option<String>),
    /// An embedded static asset, by the remainder of the path.
    StaticAsset(String),
    /// An embedded stylesheet, by the remainder of the path.
    StyleAsset(String),
    /// An indexed document, by its clean root-relative path.
    Document(String),
    /// Nothing may be served.
    NotFound,
    /// The request itself was malformed.
    BadRequest,
}

/// The mathematical shape of a [`Route`].
pub enum RouteView {
    Redirect,
    IndexPage(Option<Seq<char>>),
    StaticAsset(Seq<char>),
    StyleAsset(Seq<char>),
    Document(Seq<char>),
    NotFound,
    BadRequest,
}

impl View for Route {
    type V = RouteView;

    open spec fn view(&self) -> RouteView {
        match self {
            Route::Redirect => RouteView::Redirect,
            Route::IndexPage(s) => RouteView::IndexPage(view_opt_string_ref(s)),
            Route::StaticAsset(s) => RouteView::StaticAsset(s@),
            Route::StyleAsset(s) => RouteView::StyleAsset(s@),
            Route::Document(s) => RouteView::Document(s@),
            Route::NotFound => RouteView::NotFound,
            Route::BadRequest => RouteView::BadRequest,
        }
    }
}

/// The view of an optional string, by reference.
pub open spec fn view_opt_string_ref(s: &Option<String>) -> Option<Seq<char>> {
    match s {
        Some(x) => Some(x@),
        None => None,
    }
}

/// Whether some indexed entry carries the path `p`.
pub open spec fn indexed(snap: SnapshotView, p: Seq<char>) -> bool {
    exists|i: int| 0 <= i < snap.index.len() && (#[trigger] snap.index[i]).path == p
}

/// The remainder of `path` after its first segment: what follows the first
/// `/` beyond position 0, if any.
pub open spec fn spec_rest_after_first_segment(path: Seq<char>) -> Option<Seq<char>> {
    match first_index_from(path, '/', 1) {
        Some(j) => Some(path.skip(j + 1)),
        None => None,
    }
}

/// Where a request path leads, against a snapshot. The policy, in order:
/// the root redirects to the root index page; `/index.html` lists
/// everything; any path ending in `/index.html` lists one section; the
/// reserved asset and style prefixes serve embedded blobs by the remainder
/// of the path; anything else is served only if it is indexed and clean.
pub open spec fn route_path_spec(path: Seq<char>, snap: SnapshotView) -> RouteView {
    if path == "/"@ {
        RouteView::Redirect
    } else if path == "/index.html"@ {
        RouteView::IndexPage(None)
    } else if "/index.html"@.is_suffix_of(path) {
        RouteView::IndexPage(Some(path.subrange(1, path.len() - "/index.html"@.len())))
    } else if "/.static-assets"@.is_prefix_of(path) {
        match spec_rest_after_first_segment(path) {
            Some(rest) => RouteView::StaticAsset(rest),
            None => RouteView::NotFound,
        }
    } else if "/.styles"@.is_prefix_of(path) {
        match spec_rest_after_first_segment(path) {
            Some(rest) => RouteView::StyleAsset(rest),
            None => RouteView::NotFound,
        }
    } else {
        let candidate = path.skip(1);
        if indexed(snap, candidate) && path_clean(candidate) {
            RouteView::Document(candidate)
        } else {
            RouteView::NotFound
        }
    }
}

/// Resolves a request path, pinned to [`route_path_spec`].
pub fn route_path(path: &str, snap: &Snapshot) -> (r: Route)
    requires
        path@.len() >= 1,
        path@[0] == '/',
    ensures
        r@ == route_path_spec(path@, snap@),
{
    let plen = path.unicode_len();
    if str_eq(path, "/") {
        return Route::Redirect;
    }
    if str_eq(path, "/index.html") {
        return Route::IndexPage(None);
    }
    if ends_with(path, "/index.html") {
        proof {
            reveal_strlit("/index.html");
            if plen == 11 {
                assert(path@ =~= "/index.html"@);
            }
        }
        let section = path.substring_char(1, plen - 11).to_owned();
        return Route::IndexPage(Some(section));
    }
    if starts_with(path, "/.static-assets") {
        return match find_char_from(path, '/', 1) {
            Some(j) => {
                proof {
                    lemma_first_index_bounds(path@, '/', 1, j as int);
                }
                Route::StaticAsset(path.substring_char(j + 1, plen).to_owned())
            },
            None => Route::NotFound,
        };
    }
    if starts_with(path, "/.styles") {
        return match find_char_from(path, '/', 1) {
            Some(j) => {
                proof {
                    lemma_first_index_bounds(path@, '/', 1, j as int);
                }
                Route::StyleAsset(path.substring_char(j + 1, plen).to_owned())
            },
            None => Route::NotFound,
        };
    }
    let candidate = path.substring_char(1, plen).to_owned();
    proof {
        assert(candidate@ =~= path@.skip(1));
    }
    if snap.contains_path(candidate.as_str()) && path_clean_str(candidate.as_str()) {
        Route::Document(candidate)
    } else {
        Route::NotFound
    }
}

/// The path that the request's URL names, as the URL parser normalizes it.
/// Named: it stands for what `url::Url::parse` of `http://{host}{tail}`
/// followed by `Url::path` returns, a function of the two texts alone.
pub uninterp spec fn url_path_of(host: Seq<char>, tail: Seq<char>) -> Option<Seq<char>>;

/// Relies on `url::Url::parse` and `Url::path`: the normalized,
/// percent-encoded path of `http://{host}{tail}`, or `None` when the URL
/// does not parse. For an `http` URL the crate documents that the path
/// always begins with `/`.
#[verifier::external_body]
fn request_path(host: &str, tail: &str) -> (r: Option<String>)
    ensures
        view_opt_string(r) == url_path_of(host@, tail@),
        r matches Some(p) ==> p@.len() >= 1 && p@[0] == '/',
{
    let s = format!("http://{}{}", host, tail);
    match url::Url::parse(&s) {
        Ok(u) => Some(u.path().to_string()),
        Err(_) => None,
    }
}

/// Where a whole request leads: a missing host header or an unparsable URL
/// is a bad request; otherwise the URL's normalized path decides.
pub open spec fn route_request_spec(
    host: Option<Seq<char>>,
    raw_url: Seq<char>,
    snap: SnapshotView,
) -> RouteView {
    match host {
        None => RouteView::BadRequest,
        Some(h) => match url_path_of(h, raw_url) {
            None => RouteView::BadRequest,
            Some(p) => if p.len() >= 1 && p[0] == '/' {
                route_path_spec(p, snap)
            } else {
                RouteView::BadRequest
            },
        },
    }
}

/// Resolves a request, pinned to [`route_request_spec`].
pub fn route_request(host: Option<&str>, raw_url: &str, snap: &Snapshot) -> (r: Route)
    ensures
        r@ == route_request_spec(
            match host {
                Some(h) => Some(h@),
                None => None,
            },
            raw_url@,
            snap@,
        ),
{
    match host {
        None => Route::BadRequest,
        Some(h) => match request_path(h, raw_url) {
            None => Route::BadRequest,
            Some(p) => {
                let plen = p.as_str().unicode_len();
                if plen >= 1 && p.as_str().get_char(0) == '/' {
                    route_path(p.as_str(), snap)
                } else {
                    Route::BadRequest
                }
            },
        },
    }
}

/// The allow-list invariant: a document is served through the generic path
/// only if the requested path, less its leading slash, equals the path of
/// some entry of the snapshot's index; every other served outcome lies
/// under the reserved asset and style prefixes or is an index listing.
pub proof fn lemma_allow_list(path: Seq<char>, snap: SnapshotView)
    ensures
        forall|c: Seq<char>|
            route_path_spec(path, snap) == RouteView::Document(c) ==> c == path.skip(1) && indexed(
                snap,
                c,
            ),
        (route_path_spec(path, snap) matches RouteView::StaticAsset(_)) ==> "/.static-assets"@.is_prefix_of(
            path,
        ),
        (route_path_spec(path, snap) matches RouteView::StyleAsset(_)) ==> "/.styles"@.is_prefix_of(
            path,
        ),
{
}

/// The hidden-path half of serving: a served document's path never holds a
/// hidden or empty segment.
pub proof fn lemma_no_hidden_served(path: Seq<char>, snap: SnapshotView)
    ensures
        forall|c: Seq<char>|
            route_path_spec(path, snap) == RouteView::Document(c) ==> path_clean(c),
{
}

/// Traversal rejection: a request whose candidate path holds an unclean
/// segment — `..`, `.`, a hidden name, or an empty piece — never resolves
/// to a document, even if that string equals some indexed path.
pub proof fn lemma_traversal_rejected(path: Seq<char>, snap: SnapshotView)
    requires
        !path_clean(path.skip(1)),
    ensures
        !(route_path_spec(path, snap) matches RouteView::Document(_)),
{
}

} // verus!
