//! The HTTP route table: which handler a request reaches, decided from the
//! method, the request target, the headers and the shared secret alone.
//! Filesystem work happens outside the library; this module only decides,
//! and every accepted file path has already passed the sandbox.

use vstd::prelude::*;
use vstd::string::StringSliceAdditionalSpecFns;
use crate::bytes::bytes_eq;
use crate::http::{
    extract_header, extract_header_spec, header_views, parse_query_param, parse_query_param_spec,
    split_path_and_query, split_path_and_query_spec,
};
use crate::sandbox::{sanitize_path, sanitize_path_spec};

verus! {

/// The routes that demand the shared secret.
pub open spec fn protected_route(p: Seq<u8>) -> bool {
    p == "/list".spec_bytes() || p == "/download".spec_bytes() || p == "/upload".spec_bytes() || p
        == "/delete".spec_bytes() || p == "/rename".spec_bytes() || p == "/move".spec_bytes()
}

/// Executable test matching `protected_route`.
pub fn is_protected_route(p: &[u8]) -> (r: bool)
    ensures
        r == protected_route(p@),
{
    bytes_eq(p, "/list".as_bytes()) || bytes_eq(p, "/download".as_bytes()) || bytes_eq(
        p,
        "/upload".as_bytes(),
    ) || bytes_eq(p, "/delete".as_bytes()) || bytes_eq(p, "/rename".as_bytes()) || bytes_eq(
        p,
        "/move".as_bytes(),
    )
}

/// True when the request carries the shared secret: the `X-Auth` header
/// value or the decoded `token` query value equals it exactly.
pub open spec fn authorized_spec(h: Option<Seq<u8>>, t: Option<Seq<u8>>, pass: Seq<u8>) -> bool {
    h == Some(pass) || t == Some(pass)
}

/// Where a request goes, in specification terms.
pub enum RouteSpec {
    /// The browser page, with the secret embedded.
    Page,
    /// The public status route.
    Info,
    /// A protected route without the secret.
    Unauthorized,
    /// No route matches the method and path.
    NotFound,
    /// List the directory at the sandboxed path.
    List { path: Seq<u8> },
    /// Send the file at the sandboxed path.
    Download { path: Seq<u8> },
    /// Store the request body at the sandboxed path.
    Upload { path: Seq<u8> },
    /// Delete the entry at the sandboxed path.
    Remove { path: Seq<u8> },
    /// Rename `from` to `to`, both sandboxed.
    Rename { from: Seq<u8>, to: Seq<u8> },
    /// The path argument was rejected by the sandbox.
    BadPath,
    /// The source argument of a rename was rejected.
    BadSource,
    /// The target argument of a rename was rejected.
    BadTarget,
}

/// The `path` query value, or `d` when absent.
pub open spec fn param_or(target: Seq<u8>, key: Seq<u8>, d: Seq<u8>) -> Seq<u8> {
    match parse_query_param_spec(target, key) {
        Some(v) => v,
        None => d,
    }
}

/// The sandbox outcome for a single-path route.
pub open spec fn path_route_spec(
    root: Seq<u8>,
    target: Seq<u8>,
    key: Seq<u8>,
    d: Seq<u8>,
    ok: spec_fn(Seq<u8>) -> RouteSpec,
) -> RouteSpec {
    match sanitize_path_spec(root, param_or(target, key, d)) {
        Some(p) => ok(p),
        None => RouteSpec::BadPath,
    }
}

/// The route a request reaches: `/info` is always public; a protected
/// route without the secret is turned away before its path is even
/// looked at; everything else follows the route table.
pub open spec fn route_spec(
    method: Seq<u8>,
    target: Seq<u8>,
    headers: Seq<(Seq<u8>, Seq<u8>)>,
    pass: Seq<u8>,
    root: Seq<u8>,
) -> RouteSpec {
    let po = split_path_and_query_spec(target).0;
    if po == "/info".spec_bytes() {
        RouteSpec::Info
    } else {
        let h = extract_header_spec(headers, "X-Auth".spec_bytes());
        let t = parse_query_param_spec(target, "token".spec_bytes());
        if protected_route(po) && !authorized_spec(h, t, pass) {
            RouteSpec::Unauthorized
        } else if method == "GET".spec_bytes() && po == "/".spec_bytes() {
            RouteSpec::Page
        } else if method == "GET".spec_bytes() && po == "/list".spec_bytes() {
            path_route_spec(
                root,
                target,
                "path".spec_bytes(),
                "/".spec_bytes(),
                |p: Seq<u8>| RouteSpec::List { path: p },
            )
        } else if method == "GET".spec_bytes() && po == "/download".spec_bytes() {
            path_route_spec(
                root,
                target,
                "path".spec_bytes(),
                "/".spec_bytes(),
                |p: Seq<u8>| RouteSpec::Download { path: p },
            )
        } else if method == "POST".spec_bytes() && po == "/upload".spec_bytes() {
            path_route_spec(
                root,
                target,
                "path".spec_bytes(),
                "/upload.bin".spec_bytes(),
                |p: Seq<u8>| RouteSpec::Upload { path: p },
            )
        } else if method == "DELETE".spec_bytes() && po == "/delete".spec_bytes() {
            path_route_spec(
                root,
                target,
                "path".spec_bytes(),
                "/".spec_bytes(),
                |p: Seq<u8>| RouteSpec::Remove { path: p },
            )
        } else if method == "POST".spec_bytes() && (po == "/rename".spec_bytes() || po
            == "/move".spec_bytes()) {
            let from_key = if po == "/rename".spec_bytes() {
                "path".spec_bytes()
            } else {
                "from".spec_bytes()
            };
            match sanitize_path_spec(root, param_or(target, from_key, "/".spec_bytes())) {
                Some(f) => {
                    match sanitize_path_spec(
                        root,
                        param_or(target, "to".spec_bytes(), "/".spec_bytes()),
                    ) {
                        Some(t2) => RouteSpec::Rename { from: f, to: t2 },
                        None => RouteSpec::BadTarget,
                    }
                },
                None => RouteSpec::BadSource,
            }
        } else {
            RouteSpec::NotFound
        }
    }
}

/// A protected route reached without the shared secret is turned away,
/// whatever the method, headers and root: the router answers
/// `Unauthorized` and no path is resolved.
pub proof fn lemma_unauthorized_turned_away(
    method: Seq<u8>,
    target: Seq<u8>,
    headers: Seq<(Seq<u8>, Seq<u8>)>,
    pass: Seq<u8>,
    root: Seq<u8>,
)
    requires
        protected_route(split_path_and_query_spec(target).0),
        !authorized_spec(
            extract_header_spec(headers, "X-Auth".spec_bytes()),
            parse_query_param_spec(target, "token".spec_bytes()),
            pass,
        ),
    ensures
        route_spec(method, target, headers, pass, root) == RouteSpec::Unauthorized,
{
    broadcast use vstd::string::is_ascii_spec_bytes;

    let po = split_path_and_query_spec(target).0;
    reveal_strlit("/info");
    reveal_strlit("/list");
    reveal_strlit("/download");
    reveal_strlit("/upload");
    reveal_strlit("/delete");
    reveal_strlit("/rename");
    reveal_strlit("/move");
    assert(vstd::string::is_ascii("/info"));
    assert(vstd::string::is_ascii("/list"));
    assert(vstd::string::is_ascii("/download"));
    assert(vstd::string::is_ascii("/upload"));
    assert(vstd::string::is_ascii("/delete"));
    assert(vstd::string::is_ascii("/rename"));
    assert(vstd::string::is_ascii("/move"));
    assert("/list".spec_bytes()[1] != "/info".spec_bytes()[1]);
    assert("/move".spec_bytes()[1] != "/info".spec_bytes()[1]);
    assert("/download".spec_bytes().len() != "/info".spec_bytes().len());
    assert("/upload".spec_bytes().len() != "/info".spec_bytes().len());
    assert("/delete".spec_bytes().len() != "/info".spec_bytes().len());
    assert("/rename".spec_bytes().len() != "/info".spec_bytes().len());
    assert(po != "/info".spec_bytes());
}

/// Where a request goes, carrying the sandboxed paths it resolved.
pub enum HttpRoute {
    Page,
    Info,
    Unauthorized,
    NotFound,
    List { path: Vec<u8> },
    Download { path: Vec<u8> },
    Upload { path: Vec<u8> },
    Remove { path: Vec<u8> },
    Rename { from: Vec<u8>, to: Vec<u8> },
    BadPath,
    BadSource,
    BadTarget,
}

impl View for HttpRoute {
    type V = RouteSpec;

    open spec fn view(&self) -> RouteSpec {
        match self {
            HttpRoute::Page => RouteSpec::Page,
            HttpRoute::Info => RouteSpec::Info,
            HttpRoute::Unauthorized => RouteSpec::Unauthorized,
            HttpRoute::NotFound => RouteSpec::NotFound,
            HttpRoute::List { path } => RouteSpec::List { path: path@ },
            HttpRoute::Download { path } => RouteSpec::Download { path: path@ },
            HttpRoute::Upload { path } => RouteSpec::Upload { path: path@ },
            HttpRoute::Remove { path } => RouteSpec::Remove { path: path@ },
            HttpRoute::Rename { from, to } => RouteSpec::Rename { from: from@, to: to@ },
            HttpRoute::BadPath => RouteSpec::BadPath,
            HttpRoute::BadSource => RouteSpec::BadSource,
            HttpRoute::BadTarget => RouteSpec::BadTarget,
        }
    }
}

/// Fetch the query value under `key`, or `d` when absent.
fn param_or_default(target: &[u8], key: &str, d: &str) -> (r: Vec<u8>)
    ensures
        r@ == param_or(target@, key.spec_bytes(), d.spec_bytes()),
{
    match parse_query_param(target, key.as_bytes()) {
        Some(v) => v,
        None => vstd::slice::slice_to_vec(d.as_bytes()),
    }
}

/// Decide where one request goes. Mirrors `route_spec` exactly; the
/// caller performs the decided action and owes the client nothing else.
pub fn route_request(
    method: &[u8],
    target: &[u8],
    headers: &Vec<(Vec<u8>, Vec<u8>)>,
    pass: &[u8],
    root: &[u8],
) -> (r: HttpRoute)
    ensures
        r@ == route_spec(method@, target@, header_views(headers@), pass@, root@),
{
    let (po, _q) = split_path_and_query(target);
    if bytes_eq(&po, "/info".as_bytes()) {
        return HttpRoute::Info;
    }
    let authed = {
        let h = extract_header(headers, "X-Auth".as_bytes());
        let matched_header = match h {
            Some(p) => bytes_eq(&p, pass),
            None => false,
        };
        if matched_header {
            true
        } else {
            match parse_query_param(target, "token".as_bytes()) {
                Some(t) => bytes_eq(&t, pass),
                None => false,
            }
        }
    };
    if is_protected_route(&po) && !authed {
        return HttpRoute::Unauthorized;
    }
    let get = bytes_eq(method, "GET".as_bytes());
    let post = bytes_eq(method, "POST".as_bytes());
    if get && bytes_eq(&po, "/".as_bytes()) {
        HttpRoute::Page
    } else if get && bytes_eq(&po, "/list".as_bytes()) {
        match sanitize_path(root, &param_or_default(target, "path", "/")) {
            Some(p) => HttpRoute::List { path: p },
            None => HttpRoute::BadPath,
        }
    } else if get && bytes_eq(&po, "/download".as_bytes()) {
        match sanitize_path(root, &param_or_default(target, "path", "/")) {
            Some(p) => HttpRoute::Download { path: p },
            None => HttpRoute::BadPath,
        }
    } else if post && bytes_eq(&po, "/upload".as_bytes()) {
        match sanitize_path(root, &param_or_default(target, "path", "/upload.bin")) {
            Some(p) => HttpRoute::Upload { path: p },
            None => HttpRoute::BadPath,
        }
    } else if bytes_eq(method, "DELETE".as_bytes()) && bytes_eq(&po, "/delete".as_bytes()) {
        match sanitize_path(root, &param_or_default(target, "path", "/")) {
            Some(p) => HttpRoute::Remove { path: p },
            None => HttpRoute::BadPath,
        }
    } else if post && (bytes_eq(&po, "/rename".as_bytes()) || bytes_eq(&po, "/move".as_bytes())) {
        let from_key: &str = if bytes_eq(&po, "/rename".as_bytes()) {
            "path"
        } else {
            "from"
        };
        match sanitize_path(root, &param_or_default(target, from_key, "/")) {
            Some(f) => {
                match sanitize_path(root, &param_or_default(target, "to", "/")) {
                    Some(t2) => HttpRoute::Rename { from: f, to: t2 },
                    None => HttpRoute::BadTarget,
                }
            },
            None => HttpRoute::BadSource,
        }
    } else {
        HttpRoute::NotFound
    }
}

} // verus!
