//! The HTTP exchange with the recognition server: request texts, the
//! multipart upload, and reading the recognised text out of a response.
use vstd::prelude::*;

use crate::text::chars::{contains, find_chars, first_from, push_all, to_chars, to_string, trim, trim_chars};

verus! {

/// The character of a decimal digit.
pub open spec fn digit_char(d: nat) -> char {
    if d == 0 {
        '0'
    } else if d == 1 {
        '1'
    } else if d == 2 {
        '2'
    } else if d == 3 {
        '3'
    } else if d == 4 {
        '4'
    } else if d == 5 {
        '5'
    } else if d == 6 {
        '6'
    } else if d == 7 {
        '7'
    } else if d == 8 {
        '8'
    } else {
        '9'
    }
}

/// `n` in decimal, without leading zeros.
pub open spec fn decimal(n: nat) -> Seq<char>
    decreases n,
{
    if n < 10 {
        seq![digit_char(n)]
    } else {
        decimal(n / 10).push(digit_char(n % 10))
    }
}

fn digit(d: u64) -> (r: char)
    requires
        d < 10,
    ensures
        r == digit_char(d as nat),
{
    if d == 0 {
        '0'
    } else if d == 1 {
        '1'
    } else if d == 2 {
        '2'
    } else if d == 3 {
        '3'
    } else if d == 4 {
        '4'
    } else if d == 5 {
        '5'
    } else if d == 6 {
        '6'
    } else if d == 7 {
        '7'
    } else if d == 8 {
        '8'
    } else {
        '9'
    }
}

/// `n` in decimal.
pub fn decimal_chars(n: u64) -> (r: Vec<char>)
    ensures
        r@ == decimal(n as nat),
    decreases n,
{
    if n < 10 {
        let mut v: Vec<char> = Vec::new();
        v.push(digit(n));
        assert(v@ =~= decimal(n as nat));
        v
    } else {
        let mut v = decimal_chars(n / 10);
        v.push(digit(n % 10));
        v
    }
}

fn push_str(v: &mut Vec<char>, s: &str)
    ensures
        final(v)@ == old(v)@ + s@,
{
    push_all(v, to_chars(s).as_slice());
}

/// The head of a POST of `len` body bytes to the local server.
pub open spec fn post_head(path: Seq<char>, content_type: Seq<char>, len: nat) -> Seq<char> {
    "POST "@ + path + " HTTP/1.1\r\nHost: 127.0.0.1:8178\r\nContent-Type: "@ + content_type
        + "\r\nContent-Length: "@ + decimal(len) + "\r\nConnection: close\r\n\r\n"@
}

/// A GET request of `path` from the local server on `port`.
pub open spec fn get_request_text(port: nat, path: Seq<char>) -> Seq<char> {
    "GET "@ + path + " HTTP/1.1\r\nHost: 127.0.0.1:"@ + decimal(port) + "\r\nConnection: close\r\n\r\n"@
}

/// The head of a POST of `len` body bytes of `content_type` to `path`.
pub fn post_request_head(path: &str, content_type: &str, len: usize) -> (r: String)
    ensures
        r@ == post_head(path@, content_type@, len as nat),
{
    let mut v: Vec<char> = Vec::new();
    push_str(&mut v, "POST ");
    push_str(&mut v, path);
    push_str(&mut v, " HTTP/1.1\r\nHost: 127.0.0.1:8178\r\nContent-Type: ");
    push_str(&mut v, content_type);
    push_str(&mut v, "\r\nContent-Length: ");
    let d = decimal_chars(len as u64);
    push_all(&mut v, d.as_slice());
    push_str(&mut v, "\r\nConnection: close\r\n\r\n");
    assert(v@ =~= post_head(path@, content_type@, len as nat));
    to_string(v.as_slice())
}

/// A GET request of `path` from the local server on `port`.
pub fn get_request(port: u16, path: &str) -> (r: String)
    ensures
        r@ == get_request_text(port as nat, path@),
{
    let mut v: Vec<char> = Vec::new();
    push_str(&mut v, "GET ");
    push_str(&mut v, path);
    push_str(&mut v, " HTTP/1.1\r\nHost: 127.0.0.1:");
    let d = decimal_chars(port as u64);
    push_all(&mut v, d.as_slice());
    push_str(&mut v, "\r\nConnection: close\r\n\r\n");
    assert(v@ =~= get_request_text(port as nat, path@));
    to_string(v.as_slice())
}

/// The content type of the upload.
pub fn multipart_content_type() -> (r: String)
    ensures
        r@ == "multipart/form-data; boundary=----VoxMiMFormBoundary"@,
{
    to_string(to_chars("multipart/form-data; boundary=----VoxMiMFormBoundary").as_slice())
}

/// The multipart form that uploads a WAV file with the language and asks
/// for a JSON answer.
pub open spec fn multipart_body(file_data: Seq<u8>, file_name: Seq<char>, lang: Seq<char>) -> Seq<u8> {
    vstd::utf8::encode_utf8("------VoxMiMFormBoundary\r\nContent-Disposition: form-data; name=\"file\"; filename=\""@)
        + vstd::utf8::encode_utf8(file_name) + vstd::utf8::encode_utf8("\"\r\nContent-Type: audio/wav\r\n\r\n"@) + file_data
        + vstd::utf8::encode_utf8(
        "\r\n------VoxMiMFormBoundary\r\nContent-Disposition: form-data; name=\"language\"\r\n\r\n"@,
    ) + vstd::utf8::encode_utf8(lang) + vstd::utf8::encode_utf8(
        "\r\n------VoxMiMFormBoundary\r\nContent-Disposition: form-data; name=\"response_format\"\r\n\r\njson\r\n------VoxMiMFormBoundary--\r\n"@,
    )
}

fn push_bytes(v: &mut Vec<u8>, b: &[u8])
    ensures
        final(v)@ == old(v)@ + b@,
{
    let ghost start = v@;
    let mut i: usize = 0;
    while i < b.len()
        invariant
            i <= b@.len(),
            v@ == start + b@.take(i as int),
        decreases b@.len() - i,
    {
        v.push(b[i]);
        i = i + 1;
        assert(v@ =~= start + b@.take(i as int));
    }
    assert(b@.take(i as int) =~= b@);
}

/// The upload of `file_data` named `file_name`, in language `lang`.
pub fn build_multipart(file_data: &[u8], file_name: &str, lang: &str) -> (r: Vec<u8>)
    ensures
        r@ == multipart_body(file_data@, file_name@, lang@),
{
    let mut body: Vec<u8> = Vec::new();
    push_bytes(
        &mut body,
        "------VoxMiMFormBoundary\r\nContent-Disposition: form-data; name=\"file\"; filename=\"".as_bytes(),
    );
    push_bytes(&mut body, file_name.as_bytes());
    push_bytes(&mut body, "\"\r\nContent-Type: audio/wav\r\n\r\n".as_bytes());
    push_bytes(&mut body, file_data);
    push_bytes(
        &mut body,
        "\r\n------VoxMiMFormBoundary\r\nContent-Disposition: form-data; name=\"language\"\r\n\r\n".as_bytes(),
    );
    push_bytes(&mut body, lang.as_bytes());
    push_bytes(
        &mut body,
        "\r\n------VoxMiMFormBoundary\r\nContent-Disposition: form-data; name=\"response_format\"\r\n\r\njson\r\n------VoxMiMFormBoundary--\r\n".as_bytes(),
    );
    assert(body@ =~= multipart_body(file_data@, file_name@, lang@));
    body
}

/// The body of an HTTP response: what follows the first blank line (CRLF
/// style, else LF style), or the whole response when there is none.
pub open spec fn http_body(resp: Seq<char>) -> Seq<char> {
    match first_from(resp, "\r\n\r\n"@, 0) {
        Some(p) => resp.skip(p + 4),
        None => match first_from(resp, "\n\n"@, 0) {
            Some(p) => resp.skip(p + 2),
            None => resp,
        },
    }
}

/// The body of an HTTP response.
pub fn parse_http_body(resp: &str) -> (r: String)
    ensures
        r@ == http_body(resp@),
{
    let s = to_chars(resp);
    let n = s.len();
    let crlf = to_chars("\r\n\r\n");
    match find_chars(s.as_slice(), crlf.as_slice()) {
        Some(p) => {
            proof {
                reveal_strlit("\r\n\r\n");
                crate::text::chars::lemma_first_from_occurs(s@, crlf@, 0);
            }
            let v = crate::text::chars::sub_chars(s.as_slice(), p + 4, n);
            assert(v@ =~= resp@.skip(p + 4));
            return to_string(v.as_slice());
        },
        None => {},
    }
    let lf = to_chars("\n\n");
    match find_chars(s.as_slice(), lf.as_slice()) {
        Some(p) => {
            proof {
                reveal_strlit("\n\n");
                crate::text::chars::lemma_first_from_occurs(s@, lf@, 0);
            }
            let v = crate::text::chars::sub_chars(s.as_slice(), p + 2, n);
            assert(v@ =~= resp@.skip(p + 2));
            to_string(v.as_slice())
        },
        None => to_string(s.as_slice()),
    }
}

/// A response reports success when it holds `200 OK` (in either case of
/// `OK` that servers use).
pub open spec fn status_is_ok(resp: Seq<char>) -> bool {
    contains(resp, "200 OK"@) || contains(resp, "200 ok"@)
}

/// Whether the response reports success.
pub fn status_ok(resp: &str) -> (r: bool)
    ensures
        r == status_is_ok(resp@),
{
    let s = to_chars(resp);
    find_chars(s.as_slice(), to_chars("200 OK").as_slice()).is_some() || find_chars(
        s.as_slice(),
        to_chars("200 ok").as_slice(),
    ).is_some()
}

/// The string at key `text` of a JSON object document, if the document
/// parses and has one.
pub uninterp spec fn json_text_field(doc: Seq<char>) -> Option<Seq<char>>;

/// `serde_json::from_str::<serde_json::Value>` of `doc`, then the string at
/// key `"text"` (`Value`'s index by a key, then `as_str`).
#[verifier::external_body]
fn text_field(doc: &str) -> (r: Option<String>)
    ensures
        match r {
            Some(s) => json_text_field(doc@) == Some(s@),
            None => json_text_field(doc@) is None,
        },
{
    match serde_json::from_str::<serde_json::Value>(doc) {
        Ok(j) => j["text"].as_str().map(|s| s.to_string()),
        Err(_) => None,
    }
}

/// `s` without line feeds.
pub open spec fn without_newlines(s: Seq<char>) -> Seq<char> {
    s.filter(|c: char| c != '\n')
}

fn drop_newlines(s: &[char]) -> (r: Vec<char>)
    ensures
        r@ == without_newlines(s@),
{
    let mut r: Vec<char> = Vec::new();
    let mut i: usize = 0;
    while i < s.len()
        invariant
            i <= s@.len(),
            r@ == without_newlines(s@.take(i as int)),
        decreases s@.len() - i,
    {
        proof {
            assert(s@.take(i + 1).drop_last() =~= s@.take(i as int));
            reveal(Seq::filter);
        }
        if s[i] != '\n' {
            r.push(s[i]);
        }
        i = i + 1;
    }
    assert(s@.take(i as int) =~= s@);
    r
}

/// The recognised text of a server response, given what its body's
/// `text` field holds: an error with the trimmed body unless the status is
/// OK; otherwise the field without line feeds, trimmed, or nothing.
pub open spec fn inference_result(resp: Seq<char>, field: Option<Seq<char>>) -> Result<Seq<char>, Seq<char>> {
    if !status_is_ok(resp) {
        Err("Server error: "@ + trim(http_body(resp)))
    } else {
        match field {
            Some(t) => Ok(trim(without_newlines(t))),
            None => Ok(Seq::empty()),
        }
    }
}

/// The recognised text of a response whose body's `text` field is `field`.
pub fn text_from_response(resp: &str, field: Option<String>) -> (r: Result<String, String>)
    ensures
        match r {
            Ok(t) => inference_result(resp@, field_view(field)) == Ok::<Seq<char>, Seq<char>>(t@),
            Err(e) => inference_result(resp@, field_view(field)) == Err::<Seq<char>, Seq<char>>(e@),
        },
{
    if !status_ok(resp) {
        let body = parse_http_body(resp);
        let mut v = to_chars("Server error: ");
        push_all(&mut v, trim_chars(to_chars(body.as_str()).as_slice()).as_slice());
        return Err(to_string(v.as_slice()));
    }
    match field {
        Some(t) => {
            let cleaned = drop_newlines(to_chars(t.as_str()).as_slice());
            Ok(to_string(trim_chars(cleaned.as_slice()).as_slice()))
        },
        None => Ok(to_string(Vec::<char>::new().as_slice())),
    }
}

/// The view of an optional string.
pub open spec fn field_view(f: Option<String>) -> Option<Seq<char>> {
    match f {
        Some(s) => Some(s@),
        None => None,
    }
}

/// The recognised text of a server response: the body's JSON `text` field
/// without line feeds and trimmed; an error when the status is not OK.
pub fn inference_text(resp: &str) -> (r: Result<String, String>)
    ensures
        match r {
            Ok(t) => inference_result(resp@, json_text_field(http_body(resp@))) == Ok::<Seq<char>, Seq<char>>(t@),
            Err(e) => inference_result(resp@, json_text_field(http_body(resp@))) == Err::<Seq<char>, Seq<char>>(e@),
        },
{
    let body = parse_http_body(resp);
    let field = if status_ok(resp) {
        text_field(body.as_str())
    } else {
        None
    };
    proof {
        if status_is_ok(resp@) {
            assert(field_view(field) == json_text_field(http_body(resp@)));
        }
    }
    text_from_response(resp, field)
}

} // verus!
