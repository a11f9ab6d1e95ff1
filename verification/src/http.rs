//! HTTP request parsing: percent decoding, query-parameter lookup, header
//! extraction, and the request-line split, all over plain bytes with exact
//! specifications.

use vstd::prelude::*;
use vstd::string::StringSliceAdditionalSpecFns;
use crate::bytes::{eq_ignore_case, eq_ignore_case_spec, trim_bytes, trim_spec};

verus! {

/// Value of an ASCII hex digit, or nothing.
pub open spec fn hex_val_spec(c: u8) -> Option<u8> {
    if 48 <= c <= 57 {
        Some((c - 48) as u8)
    } else if 97 <= c <= 102 {
        Some((c - 97 + 10) as u8)
    } else if 65 <= c <= 70 {
        Some((c - 65 + 10) as u8)
    } else {
        None
    }
}

/// Value of the hex digit `c` (`0-9`, `a-f`, `A-F`), or `None`.
pub fn hex_val(c: u8) -> (r: Option<u8>)
    ensures
        r == hex_val_spec(c),
{
    if 48 <= c && c <= 57 {
        Some(c - 48)
    } else if 97 <= c && c <= 102 {
        Some(c - 97 + 10)
    } else if 65 <= c && c <= 70 {
        Some(c - 65 + 10)
    } else {
        None
    }
}

/// Percent-and-plus decoding: `%hh` with two valid hex digits becomes one
/// byte, `+` becomes a space, and anything else (a stray or truncated `%`
/// included) passes through unchanged.
pub open spec fn url_decode_spec(s: Seq<u8>) -> Seq<u8>
    decreases s.len(),
{
    if s.len() == 0 {
        Seq::empty()
    } else if s[0] == 37 && s.len() > 2 && hex_val_spec(s[1]) is Some && hex_val_spec(
        s[2],
    ) is Some {
        seq![
            (hex_val_spec(s[1]).unwrap() * 16 + hex_val_spec(s[2]).unwrap()) as u8,
        ] + url_decode_spec(s.skip(3))
    } else if s[0] == 43 {
        seq![32u8] + url_decode_spec(s.drop_first())
    } else {
        seq![s[0]] + url_decode_spec(s.drop_first())
    }
}

/// Decode `input` as `url_decode_spec` describes.
pub fn url_decode(input: &[u8]) -> (r: Vec<u8>)
    ensures
        r@ == url_decode_spec(input@),
{
    let mut out: Vec<u8> = Vec::new();
    let mut i: usize = 0;
    proof {
        assert(input@.skip(0) =~= input@);
        assert(Seq::<u8>::empty() + url_decode_spec(input@) =~= url_decode_spec(input@));
    }
    while i < input.len()
        invariant
            i <= input@.len(),
            url_decode_spec(input@) == out@ + url_decode_spec(input@.skip(i as int)),
        decreases input.len() - i,
    {
        let ghost rest = input@.skip(i as int);
        proof {
            assert(rest[0] == input@[i as int]);
            if i + 1 < input@.len() {
                assert(rest[1] == input@[i + 1]);
            }
            if i + 2 < input@.len() {
                assert(rest[2] == input@[i + 2]);
            }
        }
        let b = input[i];
        if b == 37 && input.len() - i > 2 {
            let h = hex_val(input[i + 1]);
            let l = hex_val(input[i + 2]);
            match (h, l) {
                (Some(hv), Some(lv)) => {
                    out.push(hv * 16 + lv);
                    proof {
                        assert(rest.skip(3) =~= input@.skip(i + 3));
                        assert(out@ =~= out@.drop_last() + seq![(hv * 16 + lv) as u8]);
                        assert(url_decode_spec(rest) == seq![(hv * 16 + lv) as u8]
                            + url_decode_spec(rest.skip(3)));
                    }
                    i += 3;
                },
                _ => {
                    out.push(b);
                    proof {
                        assert(rest.drop_first() =~= input@.skip(i + 1));
                        assert(out@ =~= out@.drop_last() + seq![b]);
                    }
                    i += 1;
                },
            }
        } else if b == 43 {
            out.push(32);
            proof {
                assert(rest.drop_first() =~= input@.skip(i + 1));
                assert(out@ =~= out@.drop_last() + seq![32u8]);
            }
            i += 1;
        } else {
            out.push(b);
            proof {
                assert(rest.drop_first() =~= input@.skip(i + 1));
                assert(out@ =~= out@.drop_last() + seq![b]);
            }
            i += 1;
        }
    }
    proof {
        assert(input@.skip(input@.len() as int) =~= Seq::<u8>::empty());
        assert(out@ =~= out@ + url_decode_spec(input@.skip(input@.len() as int)));
    }
    out
}

/// First index of `b` in `q` within `[i, j)`, or `j` when absent.
pub open spec fn find_in(q: Seq<u8>, b: u8, i: int, j: int) -> int
    decreases j - i,
{
    if i >= j {
        j
    } else if q[i] == b {
        i
    } else {
        find_in(q, b, i + 1, j)
    }
}

pub proof fn lemma_find_in(q: Seq<u8>, b: u8, i: int, j: int)
    requires
        i <= j,
    ensures
        i <= find_in(q, b, i, j) <= j,
        forall|k: int| i <= k < find_in(q, b, i, j) ==> q[k] != b,
        find_in(q, b, i, j) < j ==> q[find_in(q, b, i, j)] == b,
    decreases j - i,
{
    if i < j && q[i] != b {
        lemma_find_in(q, b, i + 1, j);
    }
}

/// Exec search matching `find_in` on `[i, j)` with `j <= s.len()`.
pub(crate) fn find_from(s: &[u8], b: u8, i: usize, j: usize) -> (r: usize)
    requires
        i <= j <= s@.len(),
    ensures
        r == find_in(s@, b, i as int, j as int),
{
    let mut k: usize = i;
    while k < j
        invariant
            i <= k <= j <= s@.len(),
            find_in(s@, b, i as int, j as int) == find_in(s@, b, k as int, j as int),
        decreases j - k,
    {
        if s[k] == b {
            return k;
        }
        k += 1;
    }
    j
}

/// The request path split at the first `?`: the path part, and the query
/// part when a `?` is present.
pub open spec fn split_path_and_query_spec(p: Seq<u8>) -> (Seq<u8>, Option<Seq<u8>>) {
    let c = find_in(p, 63, 0, p.len() as int);
    (
        p.subrange(0, c),
        if c < p.len() {
            Some(p.subrange(c + 1, p.len() as int))
        } else {
            None
        },
    )
}

/// Split a request target into its path and its optional query string.
pub fn split_path_and_query(path: &[u8]) -> (r: (Vec<u8>, Option<Vec<u8>>))
    ensures
        r.0@ == split_path_and_query_spec(path@).0,
        match r.1 {
            Some(q) => split_path_and_query_spec(path@).1 == Some(q@),
            None => split_path_and_query_spec(path@).1 is None,
        },
{
    let c = find_from(path, 63, 0, path.len());
    proof {
        lemma_find_in(path@, 63, 0, path@.len() as int);
    }
    let p = crate::bytes::copy_range(path, 0, c);
    if c < path.len() {
        let q = crate::bytes::copy_range(path, c + 1, path.len());
        (p, Some(q))
    } else {
        (p, None)
    }
}

#[via_fn]
proof fn lookup_from_decreases(q: Seq<u8>, key: Seq<u8>, i: int) {
    lemma_find_in(q, 38, i, q.len() as int);
}

/// The value of the first `key=value` pair at or after `i` in the query
/// `q`, percent-decoded; pairs are separated by `&`, and a pair without
/// `=` has the empty value.
pub open spec fn lookup_from(q: Seq<u8>, key: Seq<u8>, i: int) -> Option<Seq<u8>>
    decreases q.len() - i,
    when 0 <= i <= q.len()
    via lookup_from_decreases
{
    let e = find_in(q, 38, i, q.len() as int);
    let m = find_in(q, 61, i, e);
    let k = q.subrange(i, m);
    let v = if m < e {
        q.subrange(m + 1, e)
    } else {
        Seq::<u8>::empty()
    };
    if k == key {
        Some(url_decode_spec(v))
    } else if e < q.len() {
        lookup_from(q, key, e + 1)
    } else {
        None
    }
}

/// What `parse_query_param` returns: the decoded value of `key` in the
/// query part of the request target, when both exist.
pub open spec fn parse_query_param_spec(path: Seq<u8>, key: Seq<u8>) -> Option<Seq<u8>> {
    match split_path_and_query_spec(path).1 {
        Some(q) => lookup_from(q, key, 0),
        None => None,
    }
}

/// Look `key` up in the query string of a request target: `None` when the
/// target has no `?` or no pair matches; the matching value comes back
/// percent-decoded.
pub fn parse_query_param(path: &[u8], key: &[u8]) -> (r: Option<Vec<u8>>)
    ensures
        match r {
            Some(v) => parse_query_param_spec(path@, key@) == Some(v@),
            None => parse_query_param_spec(path@, key@) is None,
        },
{
    let qc = find_from(path, 63, 0, path.len());
    proof {
        lemma_find_in(path@, 63, 0, path@.len() as int);
    }
    if qc >= path.len() {
        return None;
    }
    let q = crate::bytes::copy_range(path, qc + 1, path.len());
    let mut i: usize = 0;
    loop
        invariant
            i <= q@.len(),
            parse_query_param_spec(path@, key@) == lookup_from(q@, key@, i as int),
        decreases q@.len() - i,
    {
        let e = find_from(&q, 38, i, q.len());
        proof {
            lemma_find_in(q@, 38, i as int, q@.len() as int);
        }
        let m = find_from(&q, 61, i, e);
        proof {
            lemma_find_in(q@, 61, i as int, e as int);
        }
        let k = crate::bytes::copy_range(&q, i, m);
        if crate::bytes::bytes_eq(&k, key) {
            let v: Vec<u8> = if m < e {
                crate::bytes::copy_range(&q, m + 1, e)
            } else {
                Vec::new()
            };
            return Some(url_decode(&v));
        }
        if e < q.len() {
            i = e + 1;
        } else {
            return None;
        }
    }
}

/// The views of a list of header pairs.
pub open spec fn header_views(hs: Seq<(Vec<u8>, Vec<u8>)>) -> Seq<(Seq<u8>, Seq<u8>)> {
    hs.map_values(|p: (Vec<u8>, Vec<u8>)| (p.0@, p.1@))
}

/// The trimmed value of the first header whose name equals `name` up to
/// ASCII case, or nothing.
pub open spec fn extract_header_spec(hs: Seq<(Seq<u8>, Seq<u8>)>, name: Seq<u8>) -> Option<Seq<u8>>
    decreases hs.len(),
{
    if hs.len() == 0 {
        None
    } else if eq_ignore_case_spec(hs[0].0, name) {
        Some(trim_spec(hs[0].1))
    } else {
        extract_header_spec(hs.drop_first(), name)
    }
}

/// Look a header up by name, ASCII-case-insensitively, returning its
/// trimmed value.
pub fn extract_header(headers: &Vec<(Vec<u8>, Vec<u8>)>, name: &[u8]) -> (r: Option<Vec<u8>>)
    ensures
        match r {
            Some(v) => extract_header_spec(header_views(headers@), name@) == Some(v@),
            None => extract_header_spec(header_views(headers@), name@) is None,
        },
{
    let ghost full = header_views(headers@);
    let mut i: usize = 0;
    proof {
        assert(full.skip(0) =~= full);
    }
    while i < headers.len()
        invariant
            i <= headers@.len(),
            full == header_views(headers@),
            extract_header_spec(full, name@) == extract_header_spec(full.skip(i as int), name@),
        decreases headers.len() - i,
    {
        proof {
            assert(full.skip(i as int)[0] == full[i as int]);
            assert(full.skip(i as int).drop_first() =~= full.skip(i + 1));
        }
        if eq_ignore_case(&headers[i].0, name) {
            let v = trim_bytes(&headers[i].1);
            return Some(v);
        }
        i += 1;
    }
    proof {
        assert(full.skip(full.len() as int) =~= Seq::<(Seq<u8>, Seq<u8>)>::empty());
    }
    None
}

/// First index at or after `i` (before `j`) whose byte is ASCII
/// whitespace, or `j`.
pub open spec fn find_ws_in(q: Seq<u8>, i: int, j: int) -> int
    decreases j - i,
{
    if i >= j {
        j
    } else if crate::bytes::is_ws(q[i]) {
        i
    } else {
        find_ws_in(q, i + 1, j)
    }
}

/// First index at or after `i` (before `j`) whose byte is not ASCII
/// whitespace, or `j`.
pub open spec fn find_non_ws_in(q: Seq<u8>, i: int, j: int) -> int
    decreases j - i,
{
    if i >= j {
        j
    } else if !crate::bytes::is_ws(q[i]) {
        i
    } else {
        find_non_ws_in(q, i + 1, j)
    }
}

proof fn lemma_find_ws_bounds(q: Seq<u8>, i: int, j: int)
    requires
        i <= j,
    ensures
        i <= find_ws_in(q, i, j) <= j,
        i <= find_non_ws_in(q, i, j) <= j,
    decreases j - i,
{
    if i < j {
        lemma_find_ws_bounds(q, i + 1, j);
    }
}

fn find_ws_from(s: &[u8], i: usize, j: usize) -> (r: usize)
    requires
        i <= j <= s@.len(),
    ensures
        r == find_ws_in(s@, i as int, j as int),
        i <= r <= j,
{
    let mut k: usize = i;
    while k < j
        invariant
            i <= k <= j <= s@.len(),
            find_ws_in(s@, i as int, j as int) == find_ws_in(s@, k as int, j as int),
        decreases j - k,
    {
        if crate::bytes::byte_is_ws(s[k]) {
            return k;
        }
        k += 1;
    }
    j
}

fn find_non_ws_from(s: &[u8], i: usize, j: usize) -> (r: usize)
    requires
        i <= j <= s@.len(),
    ensures
        r == find_non_ws_in(s@, i as int, j as int),
        i <= r <= j,
{
    let mut k: usize = i;
    while k < j
        invariant
            i <= k <= j <= s@.len(),
            find_non_ws_in(s@, i as int, j as int) == find_non_ws_in(s@, k as int, j as int),
        decreases j - k,
    {
        if !crate::bytes::byte_is_ws(s[k]) {
            return k;
        }
        k += 1;
    }
    j
}

/// The request line's first two whitespace-separated tokens: the method
/// and the request target; a missing target reads as `/`.
pub open spec fn parse_request_line_spec(line: Seq<u8>) -> (Seq<u8>, Seq<u8>) {
    let n = line.len() as int;
    let a = find_non_ws_in(line, 0, n);
    let b = find_ws_in(line, a, n);
    let c = find_non_ws_in(line, b, n);
    let d = find_ws_in(line, c, n);
    (
        line.subrange(a, b),
        if c < n {
            line.subrange(c, d)
        } else {
            seq![47u8]
        },
    )
}

/// Split a request line into its method and target tokens.
pub fn parse_request_line(line: &[u8]) -> (r: (Vec<u8>, Vec<u8>))
    ensures
        r.0@ == parse_request_line_spec(line@).0,
        r.1@ == parse_request_line_spec(line@).1,
{
    let n = line.len();
    let a = find_non_ws_from(line, 0, n);
    let b = find_ws_from(line, a, n);
    let c = find_non_ws_from(line, b, n);
    let d = find_ws_from(line, c, n);
    let method = crate::bytes::copy_range(line, a, b);
    let target: Vec<u8> = if c < n {
        crate::bytes::copy_range(line, c, d)
    } else {
        let mut v: Vec<u8> = Vec::new();
        v.push(47);
        proof {
            assert(v@ =~= seq![47u8]);
        }
        v
    };
    (method, target)
}

/// A header line split at its first `:`, both sides trimmed; a line
/// without `:` is ignored.
pub open spec fn parse_header_line_spec(line: Seq<u8>) -> Option<(Seq<u8>, Seq<u8>)> {
    let c = find_in(line, 58, 0, line.len() as int);
    if c < line.len() {
        Some((trim_spec(line.subrange(0, c)), trim_spec(line.subrange(c + 1, line.len() as int))))
    } else {
        None
    }
}

/// Split one header line into its trimmed name and value.
pub fn parse_header_line(line: &[u8]) -> (r: Option<(Vec<u8>, Vec<u8>)>)
    ensures
        match r {
            Some(kv) => parse_header_line_spec(line@) == Some((kv.0@, kv.1@)),
            None => parse_header_line_spec(line@) is None,
        },
{
    let c = find_from(line, 58, 0, line.len());
    proof {
        lemma_find_in(line@, 58, 0, line@.len() as int);
    }
    if c < line.len() {
        let k = trim_bytes(&crate::bytes::copy_range(line, 0, c));
        let v = trim_bytes(&crate::bytes::copy_range(line, c + 1, line.len()));
        Some((k, v))
    } else {
        None
    }
}

/// The body length announced by the `Content-Length` header: 0 when the
/// header is absent or does not parse as a decimal number.
pub open spec fn content_length_spec(hs: Seq<(Seq<u8>, Seq<u8>)>) -> nat {
    match extract_header_spec(hs, "Content-Length".spec_bytes()) {
        Some(v) => {
            let d = crate::bytes::parse_digits(v);
            if d.len() > 0 && crate::bytes::all_digits(d) && crate::bytes::dec_value(d)
                <= usize::MAX {
                crate::bytes::dec_value(d)
            } else {
                0
            }
        },
        None => 0,
    }
}

/// Read the `Content-Length` header as a number, defaulting to 0.
pub fn content_length_of(headers: &Vec<(Vec<u8>, Vec<u8>)>) -> (r: usize)
    ensures
        r == content_length_spec(header_views(headers@)),
{
    match extract_header(headers, "Content-Length".as_bytes()) {
        Some(v) => {
            match crate::bytes::parse_usize(&v) {
                Some(n) => n,
                None => 0,
            }
        },
        None => 0,
    }
}

} // verus!
