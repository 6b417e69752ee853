//! The response builder: renders a status code, a header mapping and an
//! optional body into the wire response text.

use vstd::prelude::*;

use crate::string_map::StringMap;
use crate::text::{join_lines, lemma_join_lines_push};

verus! {

/// The reason phrase rendered for a status code; codes the pipeline never
/// produces fall back to the internal-error phrase.
pub open spec fn status_text(code: int) -> Seq<char> {
    if code == 200 {
        "200 OK"@
    } else if code == 400 {
        "400 Bad Request"@
    } else if code == 404 {
        "404 Not Found"@
    } else if code == 405 {
        "405 Method Not Allowed"@
    } else {
        "500 Internal Server Error"@
    }
}

/// The status line of a response, without its line ending.
pub open spec fn status_line(code: int) -> Seq<char> {
    "HTTP/1.1 "@ + status_text(code)
}

/// One rendered header line, without its line ending.
pub open spec fn entry_line(e: (Seq<char>, Seq<char>)) -> Seq<char> {
    e.0 + ": "@ + e.1
}

/// The rendered header lines of an entry sequence, one per entry.
pub open spec fn entry_lines(entries: Seq<(Seq<char>, Seq<char>)>) -> Seq<Seq<char>> {
    entries.map_values(|e: (Seq<char>, Seq<char>)| entry_line(e))
}

/// The head of a response: the status line followed by one line per
/// header entry, in entry order.
pub open spec fn response_lines(entries: Seq<(Seq<char>, Seq<char>)>, code: int) -> Seq<
    Seq<char>,
> {
    seq![status_line(code)] + entry_lines(entries)
}

/// The full response text: the head lines joined by single newlines, the
/// head/body delimiter, then the body if there is one.
pub open spec fn render_response(
    entries: Seq<(Seq<char>, Seq<char>)>,
    code: int,
    body: Option<Seq<char>>,
) -> Seq<char> {
    join_lines(response_lines(entries, code)) + seq!['\r', '\n', '\r', '\n'] + (match body {
        Some(b) => b,
        None => Seq::empty(),
    })
}

/// Renders a response with an optional body.  The headers appear in the
/// entry order of `headers`; the body is appended verbatim after the
/// head/body delimiter.  `Content-Length` is not computed here: callers
/// set it when they pass a body.
pub fn create_response_string(headers: StringMap, return_code: i32, body: Option<&String>) -> (r:
    String)
    ensures
        r@ == render_response(
            headers.entries(),
            return_code as int,
            match body {
                Some(b) => Some(b@),
                None => None,
            },
        ),
{
    let ghost es = headers.entries();
    let ghost code = return_code as int;
    let mut resp = String::from_str("HTTP/1.1 ");
    match return_code {
        200 => resp.append("200 OK"),
        400 => resp.append("400 Bad Request"),
        404 => resp.append("404 Not Found"),
        405 => resp.append("405 Method Not Allowed"),
        _ => resp.append("500 Internal Server Error"),
    }
    proof {
        assert(resp@ == status_line(code));
        assert(es.subrange(0, 0).map_values(|e: (Seq<char>, Seq<char>)| entry_line(e)) =~= Seq::<
            Seq<char>,
        >::empty());
        assert(response_lines(es.subrange(0, 0), code) =~= seq![status_line(code)]);
    }
    let n = headers.entry_count();
    let mut i: usize = 0;
    while i < n
        invariant
            0 <= i <= n,
            n == es.len(),
            es == headers.entries(),
            resp@ == join_lines(response_lines(es.subrange(0, i as int), code)),
        decreases n - i,
    {
        let ghost before = resp@;
        resp.append("\n");
        resp.append(headers.key_at(i).as_str());
        resp.append(": ");
        resp.append(headers.value_at(i).as_str());
        proof {
            reveal_strlit("\n");
            assert("\n"@ =~= seq!['\n']);
            assert(resp@ =~= before + seq!['\n'] + entry_line(es[i as int]));
            let prev = response_lines(es.subrange(0, i as int), code);
            let next = response_lines(es.subrange(0, i + 1), code);
            assert(next =~= prev.push(entry_line(es[i as int])));
            lemma_join_lines_push(prev, entry_line(es[i as int]));
        }
        i = i + 1;
    }
    proof {
        assert(es.subrange(0, n as int) =~= es);
    }
    resp.append("\r\n\r\n");
    proof {
        reveal_strlit("\r\n\r\n");
        assert("\r\n\r\n"@ =~= seq!['\r', '\n', '\r', '\n']);
    }
    match body {
        Some(file) => resp.append(file.as_str()),
        None => {
            proof {
                assert(resp@ =~= resp@ + Seq::<char>::empty());
            }
        },
    }
    resp
}

/// Renders a response without a body, as the error paths need it.
pub fn create_response_string_no_body(headers: StringMap, return_code: i32) -> (r: String)
    ensures
        r@ == render_response(headers.entries(), return_code as int, None),
{
    create_response_string(headers, return_code, None)
}

} // verus!
