//! The HTTP router and the response formatting.

use lanshare::http::{content_length_of, parse_header_line, parse_request_line};
use lanshare::lifecycle::{accept_step, AcceptOutcome, LoopStep, ServiceState};
use lanshare::pasv::{pick_lan_ip, select_pasv_ip, V4Addr};
use lanshare::response::{
    delete_response, download_response, escape_for_script, format_list_json, html_head,
    info_response, invalid_path_response, json_response, list_response, not_found_response,
    rename_response, unauthorized_response, upload_response, EntryInfo,
};
use lanshare::router::{is_protected_route, route_request, HttpRoute};

const PASSWORD: &[u8] = b"secret";
const ROOT: &[u8] = b"/srv/www";

fn auth_headers() -> Vec<(Vec<u8>, Vec<u8>)> {
    vec![(b"X-Auth".to_vec(), b"secret".to_vec())]
}

#[test]
fn request_line_and_headers() {
    let (m, t) = parse_request_line(b"GET /list?path=/ HTTP/1.1");
    assert_eq!(m, b"GET".to_vec());
    assert_eq!(t, b"/list?path=/".to_vec());
    let (m2, t2) = parse_request_line(b"GET");
    assert_eq!(m2, b"GET".to_vec());
    assert_eq!(t2, b"/".to_vec());
    assert_eq!(
        parse_header_line(b"Content-Length: 42"),
        Some((b"Content-Length".to_vec(), b"42".to_vec()))
    );
    assert_eq!(parse_header_line(b"no colon here"), None);
    let headers = vec![(b"content-length".to_vec(), b"17".to_vec())];
    assert_eq!(content_length_of(&headers), 17);
    let bad = vec![(b"Content-Length".to_vec(), b"x".to_vec())];
    assert_eq!(content_length_of(&bad), 0);
}

#[test]
fn protected_routes_need_the_secret() {
    for p in [
        b"/list".as_slice(),
        b"/download",
        b"/upload",
        b"/delete",
        b"/rename",
        b"/move",
    ] {
        assert!(is_protected_route(p));
    }
    assert!(!is_protected_route(b"/info"));
    assert!(!is_protected_route(b"/"));
    let none: Vec<(Vec<u8>, Vec<u8>)> = Vec::new();
    let r = route_request(b"GET", b"/list?path=/", &none, PASSWORD, ROOT);
    assert!(matches!(r, HttpRoute::Unauthorized));
    let r = route_request(b"GET", b"/download?path=/f", &none, PASSWORD, ROOT);
    assert!(matches!(r, HttpRoute::Unauthorized));
    // A wrong header falls back to the token, and a wrong token fails.
    let wrong = vec![(b"X-Auth".to_vec(), b"nope".to_vec())];
    let r = route_request(b"GET", b"/list?path=/&token=nope", &wrong, PASSWORD, ROOT);
    assert!(matches!(r, HttpRoute::Unauthorized));
}

#[test]
fn token_query_authorizes() {
    let none: Vec<(Vec<u8>, Vec<u8>)> = Vec::new();
    let r = route_request(b"GET", b"/list?path=/&token=secret", &none, PASSWORD, ROOT);
    match r {
        HttpRoute::List { path } => assert_eq!(path, b"/srv/www".to_vec()),
        _ => panic!("expected the listing route"),
    }
}

#[test]
fn info_and_page_are_public() {
    let none: Vec<(Vec<u8>, Vec<u8>)> = Vec::new();
    assert!(matches!(
        route_request(b"GET", b"/info", &none, PASSWORD, ROOT),
        HttpRoute::Info
    ));
    assert!(matches!(
        route_request(b"POST", b"/info", &none, PASSWORD, ROOT),
        HttpRoute::Info
    ));
    assert!(matches!(
        route_request(b"GET", b"/", &none, PASSWORD, ROOT),
        HttpRoute::Page
    ));
    assert!(matches!(
        route_request(b"GET", b"/nowhere", &none, PASSWORD, ROOT),
        HttpRoute::NotFound
    ));
    // A protected path with the wrong method is authorized but unrouted.
    let r = route_request(b"PUT", b"/list?path=/", &auth_headers(), PASSWORD, ROOT);
    assert!(matches!(r, HttpRoute::NotFound));
}

#[test]
fn routes_resolve_sandboxed_paths() {
    let h = auth_headers();
    match route_request(b"GET", b"/download?path=/a/b", &h, PASSWORD, ROOT) {
        HttpRoute::Download { path } => assert_eq!(path, b"/srv/www/a/b".to_vec()),
        _ => panic!("expected the download route"),
    }
    match route_request(b"POST", b"/upload?path=/x.bin", &h, PASSWORD, ROOT) {
        HttpRoute::Upload { path } => assert_eq!(path, b"/srv/www/x.bin".to_vec()),
        _ => panic!("expected the upload route"),
    }
    // The upload path defaults to /upload.bin.
    match route_request(b"POST", b"/upload", &h, PASSWORD, ROOT) {
        HttpRoute::Upload { path } => assert_eq!(path, b"/srv/www/upload.bin".to_vec()),
        _ => panic!("expected the upload route"),
    }
    match route_request(b"DELETE", b"/delete?path=/old", &h, PASSWORD, ROOT) {
        HttpRoute::Remove { path } => assert_eq!(path, b"/srv/www/old".to_vec()),
        _ => panic!("expected the delete route"),
    }
    match route_request(b"POST", b"/rename?path=/a&to=/b", &h, PASSWORD, ROOT) {
        HttpRoute::Rename { from, to } => {
            assert_eq!(from, b"/srv/www/a".to_vec());
            assert_eq!(to, b"/srv/www/b".to_vec());
        }
        _ => panic!("expected the rename route"),
    }
    match route_request(b"POST", b"/move?from=/a&to=/c/d", &h, PASSWORD, ROOT) {
        HttpRoute::Rename { from, to } => {
            assert_eq!(from, b"/srv/www/a".to_vec());
            assert_eq!(to, b"/srv/www/c/d".to_vec());
        }
        _ => panic!("expected the move route"),
    }
}

#[test]
fn routes_reject_escapes() {
    let h = auth_headers();
    assert!(matches!(
        route_request(b"GET", b"/list?path=/../etc", &h, PASSWORD, ROOT),
        HttpRoute::BadPath
    ));
    assert!(matches!(
        route_request(b"POST", b"/rename?path=/../a&to=/b", &h, PASSWORD, ROOT),
        HttpRoute::BadSource
    ));
    assert!(matches!(
        route_request(b"POST", b"/rename?path=/a&to=/../b", &h, PASSWORD, ROOT),
        HttpRoute::BadTarget
    ));
}

#[test]
fn list_json_shapes() {
    let empty: Vec<EntryInfo> = Vec::new();
    assert_eq!(format_list_json(&empty), b"[]".to_vec());
    let entries = vec![EntryInfo {
        name: b"x.bin".to_vec(),
        is_dir: false,
        size: 3,
    }];
    assert_eq!(
        format_list_json(&entries),
        b"[{\"name\":\"x.bin\",\"is_dir\":false,\"size\":3}]".to_vec()
    );
    let two = vec![
        EntryInfo {
            name: b"a\"b".to_vec(),
            is_dir: true,
            size: 0,
        },
        EntryInfo {
            name: b"c".to_vec(),
            is_dir: false,
            size: 10,
        },
    ];
    assert_eq!(
        format_list_json(&two),
        b"[{\"name\":\"a\\\"b\",\"is_dir\":true,\"size\":0},{\"name\":\"c\",\"is_dir\":false,\"size\":10}]"
            .to_vec()
    );
}

#[test]
fn response_formatting() {
    assert_eq!(
        json_response(200, b"OK", b"{\"status\":\"ok\"}"),
        b"HTTP/1.1 200 OK\r\nContent-Type: application/json\r\nContent-Length: 15\r\n\r\n{\"status\":\"ok\"}"
            .to_vec()
    );
    assert_eq!(
        unauthorized_response(),
        b"HTTP/1.1 401 Unauthorized\r\nContent-Type: application/json\r\nWWW-Authenticate: X-Auth\r\nContent-Length: 24\r\n\r\n{\"error\":\"unauthorized\"}"
            .to_vec()
    );
    assert_eq!(
        download_response(true, true, true, 5),
        b"HTTP/1.1 200 OK\r\nContent-Type: application/octet-stream\r\nContent-Length: 5\r\n\r\n"
            .to_vec()
    );
    let head = html_head(7);
    assert_eq!(
        head,
        b"HTTP/1.1 200 OK\r\nContent-Type: text/html; charset=utf-8\r\nContent-Length: 7\r\n\r\n"
            .to_vec()
    );
}

#[test]
fn outcome_responses() {
    // A missing delete target is 404 before anything is removed.
    let r = delete_response(false, false);
    assert!(r.starts_with(b"HTTP/1.1 404 Not Found\r\n"));
    assert!(r.ends_with(b"{\"error\":\"not found\"}"));
    let r = delete_response(true, true);
    assert!(r.starts_with(b"HTTP/1.1 200 OK\r\n"));
    assert!(r.ends_with(b"{\"status\":\"ok\"}"));
    let r = delete_response(true, false);
    assert!(r.starts_with(b"HTTP/1.1 500 Internal Server Error\r\n"));
    assert!(r.ends_with(b"{\"error\":\"delete failed\"}"));

    assert!(rename_response(true).ends_with(b"{\"status\":\"ok\"}"));
    assert!(rename_response(false).ends_with(b"{\"error\":\"move failed\"}"));

    assert!(upload_response(true, true).ends_with(b"{\"status\":\"ok\"}"));
    assert!(upload_response(false, false).ends_with(b"{\"error\":\"cannot create file\"}"));
    assert!(upload_response(true, false).ends_with(b"{\"error\":\"cannot write file\"}"));

    assert!(download_response(false, false, false, 0).starts_with(b"HTTP/1.1 404"));
    assert!(download_response(true, false, false, 0).starts_with(b"HTTP/1.1 400"));
    assert!(download_response(true, true, false, 0).starts_with(b"HTTP/1.1 500"));

    let empty: Vec<EntryInfo> = Vec::new();
    assert!(list_response(true, &empty).ends_with(b"[]"));
    assert!(list_response(false, &empty).ends_with(b"{\"error\":\"cannot read directory\"}"));

    assert!(info_response().ends_with(b"{\"name\":\"ColourSwift Local HTTP\",\"status\":\"running\"}"));
    assert!(not_found_response().starts_with(b"HTTP/1.1 404 Not Found\r\n"));
    assert!(invalid_path_response().ends_with(b"{\"error\":\"invalid path\"}"));
}

#[test]
fn script_escaping() {
    assert_eq!(escape_for_script(b"plain"), b"plain".to_vec());
    assert_eq!(escape_for_script(b"a'b\\c"), b"a\\'b\\\\c".to_vec());
}

#[test]
fn pasv_address_selection() {
    let a = |a, b, c, d| V4Addr { a, b, c, d };
    // The control connection's concrete address wins.
    assert_eq!(
        select_pasv_ip(Some(a(192, 168, 1, 5)), None, &vec![]),
        a(192, 168, 1, 5)
    );
    // A wildcard or loopback local address falls through to the probe.
    assert_eq!(
        select_pasv_ip(Some(a(0, 0, 0, 0)), Some(a(10, 1, 2, 3)), &vec![]),
        a(10, 1, 2, 3)
    );
    assert_eq!(
        select_pasv_ip(Some(a(127, 0, 0, 1)), Some(a(10, 1, 2, 3)), &vec![]),
        a(10, 1, 2, 3)
    );
    // Then the first private interface address.
    let cands = vec![a(127, 0, 0, 1), a(8, 8, 8, 8), a(172, 16, 0, 9)];
    assert_eq!(select_pasv_ip(None, None, &cands), a(172, 16, 0, 9));
    assert_eq!(pick_lan_ip(&vec![a(9, 9, 9, 9)]), a(127, 0, 0, 1));
    // 172.32.x.x is outside the private /12 block.
    assert_eq!(pick_lan_ip(&vec![a(172, 32, 0, 1)]), a(127, 0, 0, 1));
}

#[test]
fn lifecycle_is_idempotent() {
    let mut st = ServiceState::new();
    assert!(!st.status());
    assert!(st.start(), "the first start spawns");
    assert!(st.status());
    assert!(!st.start(), "a second start is a no-op");
    assert!(st.stop(), "the stop signals the running supervisor");
    assert!(!st.stop(), "a second stop is safe");
    assert!(!st.status());
}

#[test]
fn accept_loop_decisions() {
    assert!(matches!(accept_step(true, &AcceptOutcome::Conn), LoopStep::Stop));
    assert!(matches!(accept_step(false, &AcceptOutcome::Conn), LoopStep::Spawn));
    assert!(matches!(
        accept_step(false, &AcceptOutcome::WouldBlock),
        LoopStep::SleepRetry
    ));
    assert!(matches!(
        accept_step(false, &AcceptOutcome::OtherError),
        LoopStep::Stop
    ));
}
