//! HTTP response formatting: the status line, the header block, the
//! automatic `Content-Length`, and the exact JSON bodies of every outcome
//! of the file routes.

use vstd::prelude::*;
use vstd::string::StringSliceAdditionalSpecFns;
use crate::bytes::{dec_spec, dec_u64, eq_ignore_case, eq_ignore_case_spec};

verus! {

/// The line terminator of the wire protocols.
pub open spec fn crlf() -> Seq<u8> {
    seq![13u8, 10u8]
}

/// `name: value` lines, each closed by CRLF.
pub open spec fn header_block_spec(hs: Seq<(Seq<u8>, Seq<u8>)>) -> Seq<u8>
    decreases hs.len(),
{
    if hs.len() == 0 {
        Seq::empty()
    } else {
        hs[0].0 + ": ".spec_bytes() + hs[0].1 + crlf() + header_block_spec(hs.drop_first())
    }
}

/// True when some header already names `Content-Length`, up to ASCII case.
pub open spec fn has_length_spec(hs: Seq<(Seq<u8>, Seq<u8>)>) -> bool {
    exists|i: int|
        0 <= i < hs.len() && eq_ignore_case_spec(#[trigger] hs[i].0, "Content-Length".spec_bytes())
}

/// The whole response head: status line, the given headers, a computed
/// `Content-Length` unless one was given, and the closing blank line.
pub open spec fn response_head_spec(
    status: nat,
    text: Seq<u8>,
    hs: Seq<(Seq<u8>, Seq<u8>)>,
    body_len: nat,
) -> Seq<u8> {
    "HTTP/1.1 ".spec_bytes() + dec_spec(status) + seq![32u8] + text + crlf() + header_block_spec(hs)
        + (if has_length_spec(hs) {
        Seq::<u8>::empty()
    } else {
        "Content-Length: ".spec_bytes() + dec_spec(body_len) + crlf()
    }) + crlf()
}

/// Build the response head for `status`/`text` with the given headers and
/// a body of `body_len` bytes, adding `Content-Length` unless present.
pub fn format_response_head(
    status: u16,
    text: &[u8],
    headers: &Vec<(Vec<u8>, Vec<u8>)>,
    body_len: usize,
) -> (r: Vec<u8>)
    ensures
        r@ == response_head_spec(
            status as nat,
            text@,
            crate::http::header_views(headers@),
            body_len as nat,
        ),
{
    let ghost hs = crate::http::header_views(headers@);
    let mut out: Vec<u8> = Vec::new();
    out.extend_from_slice("HTTP/1.1 ".as_bytes());
    let code = dec_u64(status as u64);
    out.extend_from_slice(code.as_slice());
    out.push(32);
    out.extend_from_slice(text);
    out.push(13);
    out.push(10);
    let ghost head_start = out@;
    proof {
        assert(head_start =~= "HTTP/1.1 ".spec_bytes() + dec_spec(status as nat) + seq![32u8]
            + text@ + crlf());
    }
    let mut has_length = false;
    let mut i: usize = 0;
    proof {
        assert(hs.skip(0) =~= hs);
    }
    while i < headers.len()
        invariant
            i <= headers@.len(),
            hs == crate::http::header_views(headers@),
            out@ + header_block_spec(hs.skip(i as int)) == head_start + header_block_spec(hs),
            has_length == exists|k: int|
                0 <= k < i && eq_ignore_case_spec(
                    #[trigger] hs[k].0,
                    "Content-Length".spec_bytes(),
                ),
        decreases headers.len() - i,
    {
        proof {
            assert(hs.skip(i as int)[0] == hs[i as int]);
            assert(hs.skip(i as int).drop_first() =~= hs.skip(i + 1));
        }
        if eq_ignore_case(&headers[i].0, "Content-Length".as_bytes()) {
            has_length = true;
        }
        let ghost out_old = out@;
        let ghost piece = hs[i as int].0 + ": ".spec_bytes() + hs[i as int].1 + crlf();
        out.extend_from_slice(headers[i].0.as_slice());
        out.extend_from_slice(": ".as_bytes());
        out.extend_from_slice(headers[i].1.as_slice());
        out.push(13);
        out.push(10);
        proof {
            assert(out@ =~= out_old + piece);
            assert(header_block_spec(hs.skip(i as int)) =~= piece + header_block_spec(
                hs.skip(i + 1),
            ));
            assert((out_old + piece) + header_block_spec(hs.skip(i + 1)) =~= out_old + (piece
                + header_block_spec(hs.skip(i + 1))));
        }
        i += 1;
    }
    proof {
        assert(hs.skip(headers@.len() as int) =~= Seq::<(Seq<u8>, Seq<u8>)>::empty());
        assert(out@ + Seq::<u8>::empty() =~= out@);
        assert(has_length == has_length_spec(hs));
    }
    if !has_length {
        out.extend_from_slice("Content-Length: ".as_bytes());
        let n = dec_u64(body_len as u64);
        out.extend_from_slice(n.as_slice());
        out.push(13);
        out.push(10);
    }
    out.push(13);
    out.push(10);
    proof {
        assert(out@ =~= response_head_spec(status as nat, text@, hs, body_len as nat));
    }
    out
}

/// A complete response with a JSON body: the head carries
/// `Content-Type: application/json` and a computed `Content-Length`.
pub open spec fn json_response_spec(status: nat, text: Seq<u8>, body: Seq<u8>) -> Seq<u8> {
    response_head_spec(
        status,
        text,
        seq![("Content-Type".spec_bytes(), "application/json".spec_bytes())],
        body.len(),
    ) + body
}

/// Build the complete JSON response for `status`/`text` and `body`.
pub fn json_response(status: u16, text: &[u8], body: &[u8]) -> (r: Vec<u8>)
    ensures
        r@ == json_response_spec(status as nat, text@, body@),
{
    let mut headers: Vec<(Vec<u8>, Vec<u8>)> = Vec::new();
    headers.push(
        (
            vstd::slice::slice_to_vec("Content-Type".as_bytes()),
            vstd::slice::slice_to_vec("application/json".as_bytes()),
        ),
    );
    proof {
        assert(crate::http::header_views(headers@) =~= seq![
            ("Content-Type".spec_bytes(), "application/json".spec_bytes()),
        ]);
    }
    let mut out = format_response_head(status, text, &headers, body.len());
    out.extend_from_slice(body);
    out
}

/// One directory entry as the listing reports it.
pub struct EntryInfo {
    /// The entry's file name bytes.
    pub name: Vec<u8>,
    /// True for a directory.
    pub is_dir: bool,
    /// Size in bytes.
    pub size: u64,
}

impl View for EntryInfo {
    type V = (Seq<u8>, bool, u64);

    open spec fn view(&self) -> (Seq<u8>, bool, u64) {
        (self.name@, self.is_dir, self.size)
    }
}

/// `s` with every `"` escaped as `\"`, the one escape the listing applies.
pub open spec fn json_escape(s: Seq<u8>) -> Seq<u8>
    decreases s.len(),
{
    if s.len() == 0 {
        Seq::empty()
    } else if s[0] == 34 {
        seq![92u8, 34u8] + json_escape(s.drop_first())
    } else {
        seq![s[0]] + json_escape(s.drop_first())
    }
}

/// Escape `s` as `json_escape` describes.
pub fn escape_quotes(s: &[u8]) -> (r: Vec<u8>)
    ensures
        r@ == json_escape(s@),
{
    let mut out: Vec<u8> = Vec::new();
    let mut i: usize = 0;
    proof {
        assert(s@.skip(0) =~= s@);
        assert(Seq::<u8>::empty() + json_escape(s@) =~= json_escape(s@));
    }
    while i < s.len()
        invariant
            i <= s@.len(),
            json_escape(s@) == out@ + json_escape(s@.skip(i as int)),
        decreases s.len() - i,
    {
        let ghost rest = s@.skip(i as int);
        proof {
            assert(rest[0] == s@[i as int]);
            assert(rest.drop_first() =~= s@.skip(i + 1));
        }
        let b = s[i];
        if b == 34 {
            out.push(92);
            out.push(34);
            proof {
                assert(out@ =~= out@.drop_last().drop_last() + seq![92u8, 34u8]);
            }
        } else {
            out.push(b);
            proof {
                assert(out@ =~= out@.drop_last() + seq![b]);
            }
        }
        i += 1;
    }
    proof {
        assert(s@.skip(s@.len() as int) =~= Seq::<u8>::empty());
        assert(out@ =~= out@ + json_escape(s@.skip(s@.len() as int)));
    }
    out
}

/// One listing entry as JSON: name escaped, `is_dir` as `true`/`false`,
/// size in decimal.
pub open spec fn entry_json_spec(e: (Seq<u8>, bool, u64)) -> Seq<u8> {
    "{\"name\":\"".spec_bytes() + json_escape(e.0) + "\",\"is_dir\":".spec_bytes() + (if e.1 {
        "true".spec_bytes()
    } else {
        "false".spec_bytes()
    }) + ",\"size\":".spec_bytes() + dec_spec(e.2 as nat) + "}".spec_bytes()
}

/// The entries joined with commas.
pub open spec fn items_json_spec(es: Seq<(Seq<u8>, bool, u64)>) -> Seq<u8>
    decreases es.len(),
{
    if es.len() == 0 {
        Seq::empty()
    } else if es.len() == 1 {
        entry_json_spec(es[0])
    } else {
        entry_json_spec(es[0]) + ",".spec_bytes() + items_json_spec(es.drop_first())
    }
}

/// The whole listing as a JSON array.
pub open spec fn list_json_spec(es: Seq<(Seq<u8>, bool, u64)>) -> Seq<u8> {
    "[".spec_bytes() + items_json_spec(es) + "]".spec_bytes()
}

proof fn lemma_items_json_push(es: Seq<(Seq<u8>, bool, u64)>, e: (Seq<u8>, bool, u64))
    ensures
        es.len() == 0 ==> items_json_spec(es.push(e)) == entry_json_spec(e),
        es.len() > 0 ==> items_json_spec(es.push(e)) == items_json_spec(es) + ",".spec_bytes()
            + entry_json_spec(e),
    decreases es.len(),
{
    let p = es.push(e);
    if es.len() == 0 {
        assert(p.len() == 1);
        assert(p[0] == e);
    } else {
        lemma_items_json_push(es.drop_first(), e);
        assert(p.drop_first() =~= es.drop_first().push(e));
        assert(p[0] == es[0]);
        if es.len() == 1 {
            assert(items_json_spec(p) =~= items_json_spec(es) + ",".spec_bytes()
                + entry_json_spec(e));
        } else {
            assert(items_json_spec(p) == entry_json_spec(es[0]) + ",".spec_bytes()
                + items_json_spec(p.drop_first()));
            assert(entry_json_spec(es[0]) + ",".spec_bytes() + (items_json_spec(es.drop_first())
                + ",".spec_bytes() + entry_json_spec(e)) =~= items_json_spec(es) + ",".spec_bytes()
                + entry_json_spec(e));
        }
    }
}

/// Views of the collected entries.
pub open spec fn entry_views(es: Seq<EntryInfo>) -> Seq<(Seq<u8>, bool, u64)> {
    es.map_values(|e: EntryInfo| e@)
}

/// Serialize one listing entry as `entry_json_spec` describes.
pub fn format_entry_json(e: &EntryInfo) -> (r: Vec<u8>)
    ensures
        r@ == entry_json_spec(e@),
{
    let mut out: Vec<u8> = Vec::new();
    out.extend_from_slice("{\"name\":\"".as_bytes());
    let escaped = escape_quotes(e.name.as_slice());
    out.extend_from_slice(escaped.as_slice());
    out.extend_from_slice("\",\"is_dir\":".as_bytes());
    if e.is_dir {
        out.extend_from_slice("true".as_bytes());
    } else {
        out.extend_from_slice("false".as_bytes());
    }
    out.extend_from_slice(",\"size\":".as_bytes());
    let size = dec_u64(e.size);
    out.extend_from_slice(size.as_slice());
    out.extend_from_slice("}".as_bytes());
    proof {
        assert(out@ =~= entry_json_spec(e@));
    }
    out
}

/// Serialize the listing entries as the `/list` route reports them.
pub fn format_list_json(entries: &Vec<EntryInfo>) -> (r: Vec<u8>)
    ensures
        r@ == list_json_spec(entry_views(entries@)),
{
    let ghost es = entry_views(entries@);
    let mut out: Vec<u8> = Vec::new();
    out.push(91);
    proof {
        assert(out@ =~= "[".spec_bytes()) by {
            reveal_strlit("[");
            broadcast use vstd::string::is_ascii_spec_bytes;

            assert(vstd::string::is_ascii("["));
        }
    }
    let mut i: usize = 0;
    while i < entries.len()
        invariant
            i <= entries@.len(),
            es == entry_views(entries@),
            out@ == "[".spec_bytes() + items_json_spec(es.take(i as int)),
        decreases entries.len() - i,
    {
        if i > 0 {
            out.push(44);
            proof {
                assert(out@ =~= "[".spec_bytes() + items_json_spec(es.take(i as int))
                    + ",".spec_bytes()) by {
                    reveal_strlit(",");
                    broadcast use vstd::string::is_ascii_spec_bytes;

                    assert(vstd::string::is_ascii(","));
                }
            }
        }
        let item = format_entry_json(&entries[i]);
        out.extend_from_slice(item.as_slice());
        proof {
            assert(es[i as int] == entries@[i as int]@);
            lemma_items_json_push(es.take(i as int), es[i as int]);
            assert(es.take(i as int).push(es[i as int]) =~= es.take(i + 1));
            if i == 0 {
                assert(items_json_spec(es.take(0)) =~= Seq::<u8>::empty());
                assert(out@ =~= "[".spec_bytes() + entry_json_spec(es[0]));
            } else {
                assert(out@ =~= "[".spec_bytes() + (items_json_spec(es.take(i as int))
                    + ",".spec_bytes() + entry_json_spec(es[i as int])));
            }
        }
        i += 1;
    }
    out.push(93);
    proof {
        assert(es.take(entries@.len() as int) =~= es);
        assert(out@ =~= "[".spec_bytes() + items_json_spec(es) + "]".spec_bytes()) by {
            reveal_strlit("]");
            broadcast use vstd::string::is_ascii_spec_bytes;

            assert(vstd::string::is_ascii("]"));
        }
    }
    out
}

/// The `/info` route's fixed answer.
pub fn info_response() -> (r: Vec<u8>)
    ensures
        r@ == json_response_spec(
            200,
            "OK".spec_bytes(),
            "{\"name\":\"ColourSwift Local HTTP\",\"status\":\"running\"}".spec_bytes(),
        ),
{
    json_response(
        200,
        "OK".as_bytes(),
        "{\"name\":\"ColourSwift Local HTTP\",\"status\":\"running\"}".as_bytes(),
    )
}

/// The answer to a protected route reached without the secret: 401 with a
/// `WWW-Authenticate` header naming the scheme.
pub fn unauthorized_response() -> (r: Vec<u8>)
    ensures
        r@ == response_head_spec(
            401,
            "Unauthorized".spec_bytes(),
            seq![
                ("Content-Type".spec_bytes(), "application/json".spec_bytes()),
                ("WWW-Authenticate".spec_bytes(), "X-Auth".spec_bytes()),
            ],
            "{\"error\":\"unauthorized\"}".spec_bytes().len(),
        ) + "{\"error\":\"unauthorized\"}".spec_bytes(),
{
    let mut headers: Vec<(Vec<u8>, Vec<u8>)> = Vec::new();
    headers.push(
        (
            vstd::slice::slice_to_vec("Content-Type".as_bytes()),
            vstd::slice::slice_to_vec("application/json".as_bytes()),
        ),
    );
    headers.push(
        (
            vstd::slice::slice_to_vec("WWW-Authenticate".as_bytes()),
            vstd::slice::slice_to_vec("X-Auth".as_bytes()),
        ),
    );
    proof {
        assert(crate::http::header_views(headers@) =~= seq![
            ("Content-Type".spec_bytes(), "application/json".spec_bytes()),
            ("WWW-Authenticate".spec_bytes(), "X-Auth".spec_bytes()),
        ]);
    }
    let body = "{\"error\":\"unauthorized\"}".as_bytes();
    let mut out = format_response_head(401, "Unauthorized".as_bytes(), &headers, body.len());
    out.extend_from_slice(body);
    out
}

/// The answer when no route matches.
pub fn not_found_response() -> (r: Vec<u8>)
    ensures
        r@ == json_response_spec(
            404,
            "Not Found".spec_bytes(),
            "{\"error\":\"not found\"}".spec_bytes(),
        ),
{
    json_response(404, "Not Found".as_bytes(), "{\"error\":\"not found\"}".as_bytes())
}

/// The answer when the sandbox rejected a `path` argument.
pub fn invalid_path_response() -> (r: Vec<u8>)
    ensures
        r@ == json_response_spec(
            400,
            "Bad Request".spec_bytes(),
            "{\"error\":\"invalid path\"}".spec_bytes(),
        ),
{
    json_response(400, "Bad Request".as_bytes(), "{\"error\":\"invalid path\"}".as_bytes())
}

/// The answer when the sandbox rejected a rename source.
pub fn invalid_source_response() -> (r: Vec<u8>)
    ensures
        r@ == json_response_spec(
            400,
            "Bad Request".spec_bytes(),
            "{\"error\":\"invalid source\"}".spec_bytes(),
        ),
{
    json_response(400, "Bad Request".as_bytes(), "{\"error\":\"invalid source\"}".as_bytes())
}

/// The answer when the sandbox rejected a rename target.
pub fn invalid_target_response() -> (r: Vec<u8>)
    ensures
        r@ == json_response_spec(
            400,
            "Bad Request".spec_bytes(),
            "{\"error\":\"invalid target\"}".spec_bytes(),
        ),
{
    json_response(400, "Bad Request".as_bytes(), "{\"error\":\"invalid target\"}".as_bytes())
}

/// The answer when `/list` names something that is not a directory.
pub fn not_dir_response() -> (r: Vec<u8>)
    ensures
        r@ == json_response_spec(
            400,
            "Bad Request".spec_bytes(),
            "{\"error\":\"not a directory\"}".spec_bytes(),
        ),
{
    json_response(400, "Bad Request".as_bytes(), "{\"error\":\"not a directory\"}".as_bytes())
}

/// The `/list` answer once the sandbox accepted the directory: the entries
/// as JSON when the directory could be read, else the read error.
pub fn list_response(read_ok: bool, entries: &Vec<EntryInfo>) -> (r: Vec<u8>)
    ensures
        read_ok ==> r@ == json_response_spec(
            200,
            "OK".spec_bytes(),
            list_json_spec(entry_views(entries@)),
        ),
        !read_ok ==> r@ == json_response_spec(
            500,
            "Internal Server Error".spec_bytes(),
            "{\"error\":\"cannot read directory\"}".spec_bytes(),
        ),
{
    if read_ok {
        let body = format_list_json(entries);
        json_response(200, "OK".as_bytes(), body.as_slice())
    } else {
        json_response(
            500,
            "Internal Server Error".as_bytes(),
            "{\"error\":\"cannot read directory\"}".as_bytes(),
        )
    }
}

/// The `/download` answer, decided from what the filesystem reported: no
/// metadata means 404, a non-file 400, an unopened file 500; an opened
/// file gets the raw head announcing `file_len` octet-stream bytes, which
/// the caller follows with the file's bytes themselves.
pub fn download_response(found: bool, is_file: bool, opened: bool, file_len: u64) -> (r: Vec<u8>)
    ensures
        !found ==> r@ == json_response_spec(
            404,
            "Not Found".spec_bytes(),
            "{\"error\":\"file not found\"}".spec_bytes(),
        ),
        found && !is_file ==> r@ == json_response_spec(
            400,
            "Bad Request".spec_bytes(),
            "{\"error\":\"not a file\"}".spec_bytes(),
        ),
        found && is_file && !opened ==> r@ == json_response_spec(
            500,
            "Internal Server Error".spec_bytes(),
            "{\"error\":\"cannot open file\"}".spec_bytes(),
        ),
        found && is_file && opened ==> r@ == response_head_spec(
            200,
            "OK".spec_bytes(),
            seq![
                ("Content-Type".spec_bytes(), "application/octet-stream".spec_bytes()),
                ("Content-Length".spec_bytes(), dec_spec(file_len as nat)),
            ],
            0,
        ),
{
    if !found {
        json_response(404, "Not Found".as_bytes(), "{\"error\":\"file not found\"}".as_bytes())
    } else if !is_file {
        json_response(400, "Bad Request".as_bytes(), "{\"error\":\"not a file\"}".as_bytes())
    } else if !opened {
        json_response(
            500,
            "Internal Server Error".as_bytes(),
            "{\"error\":\"cannot open file\"}".as_bytes(),
        )
    } else {
        let mut headers: Vec<(Vec<u8>, Vec<u8>)> = Vec::new();
        headers.push(
            (
                vstd::slice::slice_to_vec("Content-Type".as_bytes()),
                vstd::slice::slice_to_vec("application/octet-stream".as_bytes()),
            ),
        );
        headers.push((vstd::slice::slice_to_vec("Content-Length".as_bytes()), dec_u64(file_len)));
        proof {
            assert(crate::http::header_views(headers@) =~= seq![
                ("Content-Type".spec_bytes(), "application/octet-stream".spec_bytes()),
                ("Content-Length".spec_bytes(), dec_spec(file_len as nat)),
            ]);
        }
        format_response_head(200, "OK".as_bytes(), &headers, 0)
    }
}

/// The `/upload` answer once the sandbox accepted the path: 500 when the
/// file could not be created or written, else the ok body.
pub fn upload_response(create_ok: bool, write_ok: bool) -> (r: Vec<u8>)
    ensures
        !create_ok ==> r@ == json_response_spec(
            500,
            "Internal Server Error".spec_bytes(),
            "{\"error\":\"cannot create file\"}".spec_bytes(),
        ),
        create_ok && !write_ok ==> r@ == json_response_spec(
            500,
            "Internal Server Error".spec_bytes(),
            "{\"error\":\"cannot write file\"}".spec_bytes(),
        ),
        create_ok && write_ok ==> r@ == json_response_spec(
            200,
            "OK".spec_bytes(),
            "{\"status\":\"ok\"}".spec_bytes(),
        ),
{
    if !create_ok {
        json_response(
            500,
            "Internal Server Error".as_bytes(),
            "{\"error\":\"cannot create file\"}".as_bytes(),
        )
    } else if !write_ok {
        json_response(
            500,
            "Internal Server Error".as_bytes(),
            "{\"error\":\"cannot write file\"}".as_bytes(),
        )
    } else {
        json_response(200, "OK".as_bytes(), "{\"status\":\"ok\"}".as_bytes())
    }
}

/// The `/delete` answer: a missing target is 404 before any deletion is
/// tried; a failed removal is 500; a completed one is the ok body.
pub fn delete_response(existed: bool, delete_ok: bool) -> (r: Vec<u8>)
    ensures
        !existed ==> r@ == json_response_spec(
            404,
            "Not Found".spec_bytes(),
            "{\"error\":\"not found\"}".spec_bytes(),
        ),
        existed && !delete_ok ==> r@ == json_response_spec(
            500,
            "Internal Server Error".spec_bytes(),
            "{\"error\":\"delete failed\"}".spec_bytes(),
        ),
        existed && delete_ok ==> r@ == json_response_spec(
            200,
            "OK".spec_bytes(),
            "{\"status\":\"ok\"}".spec_bytes(),
        ),
{
    if !existed {
        json_response(404, "Not Found".as_bytes(), "{\"error\":\"not found\"}".as_bytes())
    } else if !delete_ok {
        json_response(
            500,
            "Internal Server Error".as_bytes(),
            "{\"error\":\"delete failed\"}".as_bytes(),
        )
    } else {
        json_response(200, "OK".as_bytes(), "{\"status\":\"ok\"}".as_bytes())
    }
}

/// The `/rename` and `/move` answer: 500 when the filesystem rename
/// failed, else the ok body.
pub fn rename_response(rename_ok: bool) -> (r: Vec<u8>)
    ensures
        !rename_ok ==> r@ == json_response_spec(
            500,
            "Internal Server Error".spec_bytes(),
            "{\"error\":\"move failed\"}".spec_bytes(),
        ),
        rename_ok ==> r@ == json_response_spec(
            200,
            "OK".spec_bytes(),
            "{\"status\":\"ok\"}".spec_bytes(),
        ),
{
    if !rename_ok {
        json_response(
            500,
            "Internal Server Error".as_bytes(),
            "{\"error\":\"move failed\"}".as_bytes(),
        )
    } else {
        json_response(200, "OK".as_bytes(), "{\"status\":\"ok\"}".as_bytes())
    }
}

/// The head of the browser page: HTML content type and a computed length
/// for the page body the caller supplies.
pub fn html_head(body_len: usize) -> (r: Vec<u8>)
    ensures
        r@ == response_head_spec(
            200,
            "OK".spec_bytes(),
            seq![("Content-Type".spec_bytes(), "text/html; charset=utf-8".spec_bytes())],
            body_len as nat,
        ),
{
    let mut headers: Vec<(Vec<u8>, Vec<u8>)> = Vec::new();
    headers.push(
        (
            vstd::slice::slice_to_vec("Content-Type".as_bytes()),
            vstd::slice::slice_to_vec("text/html; charset=utf-8".as_bytes()),
        ),
    );
    proof {
        assert(crate::http::header_views(headers@) =~= seq![
            ("Content-Type".spec_bytes(), "text/html; charset=utf-8".spec_bytes()),
        ]);
    }
    format_response_head(200, "OK".as_bytes(), &headers, body_len)
}

/// `s` with `\` written as `\\` and `'` as `\'`: how the shared secret is
/// embedded in the page's single-quoted script string.
pub open spec fn script_escape(s: Seq<u8>) -> Seq<u8>
    decreases s.len(),
{
    if s.len() == 0 {
        Seq::empty()
    } else if s[0] == 92 {
        seq![92u8, 92u8] + script_escape(s.drop_first())
    } else if s[0] == 39 {
        seq![92u8, 39u8] + script_escape(s.drop_first())
    } else {
        seq![s[0]] + script_escape(s.drop_first())
    }
}

/// Escape the shared secret as `script_escape` describes.
pub fn escape_for_script(s: &[u8]) -> (r: Vec<u8>)
    ensures
        r@ == script_escape(s@),
{
    let mut out: Vec<u8> = Vec::new();
    let mut i: usize = 0;
    proof {
        assert(s@.skip(0) =~= s@);
        assert(Seq::<u8>::empty() + script_escape(s@) =~= script_escape(s@));
    }
    while i < s.len()
        invariant
            i <= s@.len(),
            script_escape(s@) == out@ + script_escape(s@.skip(i as int)),
        decreases s.len() - i,
    {
        let ghost rest = s@.skip(i as int);
        proof {
            assert(rest[0] == s@[i as int]);
            assert(rest.drop_first() =~= s@.skip(i + 1));
        }
        let b = s[i];
        if b == 92 {
            out.push(92);
            out.push(92);
            proof {
                assert(out@ =~= out@.drop_last().drop_last() + seq![92u8, 92u8]);
            }
        } else if b == 39 {
            out.push(92);
            out.push(39);
            proof {
                assert(out@ =~= out@.drop_last().drop_last() + seq![92u8, 39u8]);
            }
        } else {
            out.push(b);
            proof {
                assert(out@ =~= out@.drop_last() + seq![b]);
            }
        }
        i += 1;
    }
    proof {
        assert(s@.skip(s@.len() as int) =~= Seq::<u8>::empty());
        assert(out@ =~= out@ + script_escape(s@.skip(s@.len() as int)));
    }
    out
}

} // verus!
