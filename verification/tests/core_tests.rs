//! Byte helpers, percent decoding, query lookup and the path sandbox.

use lanshare::bytes::{dec_u64, ends_with, parse_usize, trim_bytes};
use lanshare::http::{
    extract_header, hex_val, parse_query_param, split_path_and_query, url_decode,
};
use lanshare::sandbox::{
    accept_new_target, compose_existing, compose_new_target, is_within, sanitize_path,
};

#[test]
fn hex_val_digits() {
    assert_eq!(hex_val(b'0'), Some(0));
    assert_eq!(hex_val(b'9'), Some(9));
    assert_eq!(hex_val(b'a'), Some(10));
    assert_eq!(hex_val(b'f'), Some(15));
    assert_eq!(hex_val(b'A'), Some(10));
    assert_eq!(hex_val(b'F'), Some(15));
    assert_eq!(hex_val(b'g'), None);
    assert_eq!(hex_val(b'/'), None);
}

#[test]
fn url_decode_cases() {
    assert_eq!(url_decode(b"abc"), b"abc".to_vec());
    assert_eq!(url_decode(b"a%20b"), b"a b".to_vec());
    assert_eq!(url_decode(b"a+b"), b"a b".to_vec());
    assert_eq!(url_decode(b"%41%42"), b"AB".to_vec());
    // A truncated or malformed escape passes through unchanged.
    assert_eq!(url_decode(b"%4"), b"%4".to_vec());
    assert_eq!(url_decode(b"%zz"), b"%zz".to_vec());
    assert_eq!(url_decode(b""), b"".to_vec());
}

#[test]
fn query_param_lookup() {
    assert_eq!(
        parse_query_param(b"/list?path=/a&token=s", b"path"),
        Some(b"/a".to_vec())
    );
    assert_eq!(
        parse_query_param(b"/list?path=/a&token=s", b"token"),
        Some(b"s".to_vec())
    );
    assert_eq!(parse_query_param(b"/list?path=/a", b"to"), None);
    assert_eq!(parse_query_param(b"/list", b"path"), None);
    // Values are percent-decoded; a pair without `=` has the empty value.
    assert_eq!(
        parse_query_param(b"/x?p=a%2Fb+c", b"p"),
        Some(b"a/b c".to_vec())
    );
    assert_eq!(parse_query_param(b"/x?flag&p=1", b"flag"), Some(b"".to_vec()));
}

#[test]
fn split_target() {
    let (p, q) = split_path_and_query(b"/download?path=/f");
    assert_eq!(p, b"/download".to_vec());
    assert_eq!(q, Some(b"path=/f".to_vec()));
    let (p2, q2) = split_path_and_query(b"/info");
    assert_eq!(p2, b"/info".to_vec());
    assert_eq!(q2, None);
}

#[test]
fn header_extraction() {
    let headers = vec![
        (b"Host".to_vec(), b"example".to_vec()),
        (b"x-auth".to_vec(), b" secret ".to_vec()),
    ];
    assert_eq!(extract_header(&headers, b"X-Auth"), Some(b"secret".to_vec()));
    assert_eq!(extract_header(&headers, b"HOST"), Some(b"example".to_vec()));
    assert_eq!(extract_header(&headers, b"Content-Length"), None);
}

#[test]
fn parse_usize_cases() {
    assert_eq!(parse_usize(b"0"), Some(0));
    assert_eq!(parse_usize(b"123"), Some(123));
    assert_eq!(parse_usize(b"+42"), Some(42));
    assert_eq!(parse_usize(b""), None);
    assert_eq!(parse_usize(b"+"), None);
    assert_eq!(parse_usize(b"12a"), None);
    assert_eq!(parse_usize(b"99999999999999999999999999"), None);
}

#[test]
fn trim_and_misc() {
    assert_eq!(trim_bytes(b"  a b \r\n"), b"a b".to_vec());
    assert_eq!(trim_bytes(b""), b"".to_vec());
    assert_eq!(dec_u64(0), b"0".to_vec());
    assert_eq!(dec_u64(4242), b"4242".to_vec());
    assert_eq!(dec_u64(u64::MAX), b"18446744073709551615".to_vec());
    assert!(ends_with(b"a/..", b"/.."));
    assert!(!ends_with(b"..", b"/.."));
}

#[test]
fn sanitize_path_rejects_dotdot() {
    // Any argument holding `..` is rejected before the filesystem is touched.
    assert_eq!(sanitize_path(b"/root", b"/../etc/passwd"), None);
    assert_eq!(sanitize_path(b"/root", b"a/../../b"), None);
    assert_eq!(sanitize_path(b"/root", b".."), None);
    assert_eq!(sanitize_path(b"/root", b"a..b"), None);
}

#[test]
fn sanitize_path_accepts_inside() {
    assert_eq!(sanitize_path(b"/root", b"/"), Some(b"/root".to_vec()));
    assert_eq!(sanitize_path(b"/root", b""), Some(b"/root".to_vec()));
    assert_eq!(sanitize_path(b"/root", b"/a/b"), Some(b"/root/a/b".to_vec()));
    assert_eq!(sanitize_path(b"/root", b"a"), Some(b"/root/a".to_vec()));
    assert_eq!(sanitize_path(b"/root", b"  /a  "), Some(b"/root/a".to_vec()));
}

#[test]
fn compose_existing_bases() {
    // Empty argument: the current directory; absolute: the root; relative:
    // the current directory.
    assert_eq!(
        compose_existing(b"/r", b"/r/sub", b""),
        Some(b"/r/sub".to_vec())
    );
    assert_eq!(compose_existing(b"/r", b"/r/sub", b"/x"), Some(b"/r/x".to_vec()));
    assert_eq!(
        compose_existing(b"/r", b"/r/sub", b"x"),
        Some(b"/r/sub/x".to_vec())
    );
    assert_eq!(compose_existing(b"/r", b"/r/sub", b"a/../b"), None);
}

#[test]
fn compose_new_target_cases() {
    assert_eq!(compose_new_target(b"/r", b"/r", b""), None);
    assert_eq!(compose_new_target(b"/r", b"/r", b"dir/"), None);
    assert_eq!(compose_new_target(b"/r", b"/r", b"../x"), None);
    assert_eq!(
        compose_new_target(b"/r", b"/r", b"/a.txt"),
        Some((b"/r".to_vec(), b"a.txt".to_vec()))
    );
    assert_eq!(
        compose_new_target(b"/r", b"/r/sub", b"d/e/f.txt"),
        Some((b"/r/sub/d/e".to_vec(), b"f.txt".to_vec()))
    );
}

#[test]
fn containment_check() {
    assert!(is_within(b"/root", b"/root"));
    assert!(is_within(b"/root/a/b", b"/root"));
    assert!(!is_within(b"/rootx", b"/root"));
    assert!(!is_within(b"/", b"/root"));
    assert!(is_within(b"/x", b"/"));
}

#[test]
fn new_target_acceptance() {
    assert_eq!(
        accept_new_target(b"/root/sub", b"/root", b"f.bin"),
        Some(b"/root/sub/f.bin".to_vec())
    );
    assert_eq!(accept_new_target(b"/elsewhere", b"/root", b"f.bin"), None);
}
