//! The request/response pipeline one worker runs per connection:
//! parse the buffer, check the method against the allow-list, resolve the
//! path in the resource map, and render the response.

use vstd::prelude::*;

use crate::request::process_buffer;
use crate::request::parse_spec;
use crate::response::{
    create_response_string, create_response_string_no_body, render_response,
};
use crate::string_map::StringMap;
use crate::text::{dec_str_of, trim_ws, usize_to_string};

verus! {

/// Whether `m` is in the method allow-list; only `GET` is served.
pub open spec fn allowed_method(m: Seq<char>) -> bool {
    m == "GET"@
}

/// The `Allow` header value: the allowed methods joined by `, `.
pub open spec fn allow_value() -> Seq<char> {
    "GET"@
}

/// The `Server` header value.
pub open spec fn server_value() -> Seq<char> {
    "will-serv/0.1.0"@
}

/// A header value fit for rendering: free of newlines and equal to its
/// own trim, so that re-parsing the rendered head reproduces it.  A
/// carriage return inside such a value is harmless: trim-stability keeps
/// one off both ends, where line splitting would strip it.
pub open spec fn wf_header_value(v: Seq<char>) -> bool {
    &&& forall|i: int| 0 <= i < v.len() ==> v[i] != '\n'
    &&& trim_ws(v) == v
}

/// A header key fit for rendering: free of newlines and colons, so that
/// re-parsing the rendered head finds the same key.  A carriage return
/// inside a key is harmless: the `: ` that follows every key keeps it
/// off a line end.
pub open spec fn wf_header_key(k: Seq<char>) -> bool {
    forall|i: int| 0 <= i < k.len() ==> k[i] != '\n' && k[i] != ':'
}

/// The path the directory-index fallback retries with.
pub open spec fn index_path(p: Seq<char>) -> Seq<char> {
    p + "index.html"@
}

/// Resource resolution: an exact match wins; a path ending in `/` is
/// retried with `index.html` appended; everything else is not found.
pub open spec fn resolve_spec(m: Map<Seq<char>, Seq<char>>, p: Seq<char>) -> Option<Seq<char>> {
    if m.dom().contains(p) {
        Some(m[p])
    } else if p.len() > 0 && p.last() == '/' && m.dom().contains(index_path(p)) {
        Some(m[index_path(p)])
    } else {
        None
    }
}

/// The number of bytes the body is sent as: the length of its UTF-8
/// encoding, which `Content-Length` must carry.
pub open spec fn body_byte_len(b: Seq<char>) -> nat {
    vstd::utf8::encode_utf8(b).len()
}

/// What a response is made of before rendering: the status code, the
/// header entries in order, and the optional body.
pub struct Outcome {
    pub code: int,
    pub entries: Seq<(Seq<char>, Seq<char>)>,
    pub body: Option<Seq<char>>,
}

/// The two headers every response carries, in rendering order.
pub open spec fn base_entries(date: Seq<char>) -> Seq<(Seq<char>, Seq<char>)> {
    seq![("Server"@, server_value()), ("Date"@, date)]
}

/// The outcome of the pipeline on raw input `s`, resource map `m` and
/// `Date` header value `date`: 400 on a parse failure, 405 with an
/// `Allow` header on a disallowed method, 404 on an unresolved path, and
/// 200 with `Content-Type` and `Content-Length` on a hit.
pub open spec fn outcome_spec(
    s: Seq<char>,
    m: Map<Seq<char>, Seq<char>>,
    date: Seq<char>,
) -> Outcome {
    match parse_spec(s) {
        None => Outcome { code: 400, entries: base_entries(date), body: None },
        Some(req) => if !allowed_method(req.method) {
            Outcome {
                code: 405,
                entries: base_entries(date).push(("Allow"@, allow_value())),
                body: None,
            }
        } else {
            match resolve_spec(m, req.path) {
                None => Outcome { code: 404, entries: base_entries(date), body: None },
                Some(b) => Outcome {
                    code: 200,
                    entries: base_entries(date).push(
                        ("Content-Type"@, "text/html; charset=UTF-8"@),
                    ).push(("Content-Length"@, dec_str_of(body_byte_len(b)))),
                    body: Some(b),
                },
            }
        },
    }
}

/// The full response text of the pipeline.
pub open spec fn response_spec(
    s: Seq<char>,
    m: Map<Seq<char>, Seq<char>>,
    date: Seq<char>,
) -> Seq<char> {
    let o = outcome_spec(s, m, date);
    render_response(o.entries, o.code, o.body)
}

/// Relies on chrono's `Utc::now` and `DateTime::to_rfc2822` for the
/// `Date` header: the current date in RFC 2822 form, such as
/// `Tue, 1 Jul 2003 10:52:37 +0200`.  That rendering is never empty,
/// holds no line break, and neither starts nor ends with white space.
/// No input can make the call fail; it aborts only under a grossly
/// misconfigured host clock, `Utc::now` expecting a time not before
/// 1970 and `to_rfc2822` a year of at most four digits.
#[verifier::external_body]
fn now_rfc2822() -> (r: String)
    ensures
        r@.len() > 0,
        forall|i: int| 0 <= i < r@.len() ==> r@[i] != '\r' && r@[i] != '\n',
        trim_ws(r@) == r@,
{
    chrono::Utc::now().to_rfc2822()
}

/// Resolves a request path against the resource map, as `resolve_spec`
/// describes: exact match first, then the directory-index fallback.
pub fn resolve_resource<'a>(resource_map: &'a StringMap, path: &String) -> (r: Option<&'a String>)
    requires
        resource_map.wf(),
    ensures
        match r {
            Some(b) => resolve_spec(resource_map@, path@) == Some(b@),
            None => resolve_spec(resource_map@, path@) is None,
        },
{
    if resource_map.contains_key(path) {
        let b = resource_map.get(path);
        match b {
            Some(f) => Some(f),
            None => None,
        }
    } else {
        let plen = path.as_str().unicode_len();
        if plen > 0 && path.as_str().get_char(plen - 1) == '/' {
            let mut requested_file = path.clone();
            requested_file.append("index.html");
            proof {
                assert(requested_file@ == index_path(path@));
            }
            if resource_map.contains_key(&requested_file) {
                resource_map.get(&requested_file)
            } else {
                None
            }
        } else {
            None
        }
    }
}

/// The pipeline on one request buffer, with the `Date` header value
/// handed in; the response is exactly `response_spec` on the inputs.
pub fn process_request_at(input_buffer: &str, resource_map: &StringMap, date: &str) -> (r: String)
    requires
        resource_map.wf(),
    ensures
        r@ == response_spec(input_buffer@, resource_map@, date@),
{
    let mut response_headers = StringMap::new();
    response_headers.insert(String::from_str("Server"), String::from_str("will-serv/0.1.0"));
    response_headers.insert(String::from_str("Date"), String::from_str(date));
    proof {
        reveal_strlit("Server");
        reveal_strlit("Date");
        assert("Server"@.len() == 6);
        assert("Date"@.len() == 4);
        assert("Server"@ != "Date"@);
        assert(response_headers.entries() =~= base_entries(date@));
    }
    let req = match process_buffer(input_buffer) {
        Err(_) => {
            return create_response_string_no_body(response_headers, 400);
        },
        Ok(r) => r,
    };
    let get_method = String::from_str("GET");
    if !(req.method == get_method) {
        response_headers.insert(String::from_str("Allow"), String::from_str("GET"));
        proof {
            reveal_strlit("Server");
            reveal_strlit("Date");
            reveal_strlit("Allow");
            assert("Server"@.len() == 6);
            assert("Date"@.len() == 4);
            assert("Allow"@.len() == 5);
            assert("Allow"@ != "Server"@);
            assert("Allow"@ != "Date"@);
            assert(response_headers.entries() =~= base_entries(date@).push(
                ("Allow"@, allow_value()),
            ));
        }
        return create_response_string_no_body(response_headers, 405);
    }
    let file = resolve_resource(resource_map, &req.path);
    match file {
        None => create_response_string_no_body(response_headers, 404),
        Some(f) => {
            response_headers.insert(
                String::from_str("Content-Type"),
                String::from_str("text/html; charset=UTF-8"),
            );
            let body_len = f.as_str().as_bytes().len();
            proof {
                assert(body_len as nat == body_byte_len(f@));
            }
            response_headers.insert(String::from_str("Content-Length"), usize_to_string(body_len));
            proof {
                reveal_strlit("Server");
                reveal_strlit("Date");
                reveal_strlit("Content-Type");
                reveal_strlit("Content-Length");
                assert("Server"@.len() == 6);
                assert("Date"@.len() == 4);
                assert("Content-Type"@.len() == 12);
                assert("Content-Length"@.len() == 14);
                assert("Content-Type"@ != "Server"@);
                assert("Content-Type"@ != "Date"@);
                assert("Content-Length"@ != "Server"@);
                assert("Content-Length"@ != "Date"@);
                assert("Content-Length"@ != "Content-Type"@);
                assert(response_headers.entries() =~= base_entries(date@).push(
                    ("Content-Type"@, "text/html; charset=UTF-8"@),
                ).push(("Content-Length"@, dec_str_of(body_byte_len(f@)))));
            }
            create_response_string(response_headers, 200, Some(f))
        },
    }
}

/// The pipeline on one request buffer, stamping the response with the
/// current date.  Whatever date the clock gave, the response is
/// `response_spec` for some well-formed `Date` value.
pub fn process_request(input_buffer: &str, resource_map: &StringMap) -> (r: String)
    requires
        resource_map.wf(),
    ensures
        exists|date: Seq<char>|
            wf_header_value(date) && r@ == response_spec(input_buffer@, resource_map@, date),
{
    let date = now_rfc2822();
    let r = process_request_at(input_buffer, resource_map, date.as_str());
    proof {
        assert(wf_header_value(date@) && r@ == response_spec(
            input_buffer@,
            resource_map@,
            date@,
        ));
    }
    r
}

/// A bare 400 response carrying only the `Server` and `Date` headers,
/// for failures answered before the pipeline runs.
pub fn create_short_circuit_error_response() -> (r: String)
    ensures
        exists|date: Seq<char>|
            wf_header_value(date) && r@ == render_response(base_entries(date), 400, None),
{
    let date = now_rfc2822();
    let mut response_headers = StringMap::new();
    response_headers.insert(String::from_str("Server"), String::from_str("will-serv/0.1.0"));
    response_headers.insert(String::from_str("Date"), String::from_str(date.as_str()));
    proof {
        reveal_strlit("Server");
        reveal_strlit("Date");
        assert("Server"@.len() == 6);
        assert("Date"@.len() == 4);
        assert("Server"@ != "Date"@);
        assert(response_headers.entries() =~= base_entries(date@));
    }
    let r = create_response_string_no_body(response_headers, 400);
    proof {
        assert(wf_header_value(date@) && r@ == render_response(base_entries(date@), 400, None));
    }
    r
}

} // verus!
