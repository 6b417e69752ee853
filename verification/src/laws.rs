//! The guarantees the pipeline gives, stated over its specification
//! functions and proved once for all inputs.

use vstd::prelude::*;

use crate::http::{
    allow_value, body_byte_len, index_path, outcome_spec, wf_header_key, wf_header_value,
};
use crate::request::{
    headers_map_of, lemma_headers_map_some, parse_spec, split_header_line, split_request_line,
};
use crate::response::{
    entry_line, entry_lines, render_response, response_lines, status_line,
};
use crate::string_map::map_of_entries;
use crate::text::{
    delim_at, find_char, first_delim_pos, join_lines, lemma_find_char, lemma_first_delim_pos,
    lemma_join_newline_gap, lemma_split_join, lemma_split_join_strip, lemma_trim_stable_parts,
    split_lines, strip_cr, trim_start, trim_ws,
};

verus! {

/// A request for a path that the resource map holds is answered 200,
/// with exactly the stored body, and with a `Content-Length` header
/// carrying the byte length of that body.
pub proof fn lemma_found_resource(
    s: Seq<char>,
    m: Map<Seq<char>, Seq<char>>,
    date: Seq<char>,
)
    requires
        parse_spec(s) is Some,
        parse_spec(s).unwrap().method == "GET"@,
        m.dom().contains(parse_spec(s).unwrap().path),
    ensures
        outcome_spec(s, m, date).code == 200,
        outcome_spec(s, m, date).body == Some(m[parse_spec(s).unwrap().path]),
        outcome_spec(s, m, date).entries.contains(
            ("Content-Length"@, crate::text::dec_str_of(
                body_byte_len(m[parse_spec(s).unwrap().path]),
            )),
        ),
{
    let o = outcome_spec(s, m, date);
    assert(o.entries.len() == 4);
    assert(o.entries[3] == ("Content-Length"@, crate::text::dec_str_of(
        body_byte_len(m[parse_spec(s).unwrap().path]),
    )));
}

/// A request for a path ending in `/` that is absent itself, while the
/// path with `index.html` appended is present, is answered 200 with
/// that indexed body.
pub proof fn lemma_index_fallback(
    s: Seq<char>,
    m: Map<Seq<char>, Seq<char>>,
    date: Seq<char>,
)
    requires
        parse_spec(s) is Some,
        parse_spec(s).unwrap().method == "GET"@,
        parse_spec(s).unwrap().path.len() > 0,
        parse_spec(s).unwrap().path.last() == '/',
        !m.dom().contains(parse_spec(s).unwrap().path),
        m.dom().contains(index_path(parse_spec(s).unwrap().path)),
    ensures
        outcome_spec(s, m, date).code == 200,
        outcome_spec(s, m, date).body == Some(m[index_path(parse_spec(s).unwrap().path)]),
{
}

/// A request for a path absent under both the direct and the
/// index-fallback lookup is answered 404, with no body.
pub proof fn lemma_not_found(s: Seq<char>, m: Map<Seq<char>, Seq<char>>, date: Seq<char>)
    requires
        parse_spec(s) is Some,
        parse_spec(s).unwrap().method == "GET"@,
        !m.dom().contains(parse_spec(s).unwrap().path),
        !(parse_spec(s).unwrap().path.len() > 0 && parse_spec(s).unwrap().path.last() == '/'
            && m.dom().contains(index_path(parse_spec(s).unwrap().path))),
    ensures
        outcome_spec(s, m, date).code == 404,
        outcome_spec(s, m, date).body is None,
{
}

/// A request whose method is not in the allow-list is answered 405, and
/// its `Allow` header carries exactly the allowed methods.
pub proof fn lemma_method_not_allowed(
    s: Seq<char>,
    m: Map<Seq<char>, Seq<char>>,
    date: Seq<char>,
)
    requires
        parse_spec(s) is Some,
        parse_spec(s).unwrap().method != "GET"@,
    ensures
        outcome_spec(s, m, date).code == 405,
        outcome_spec(s, m, date).body is None,
        outcome_spec(s, m, date).entries.contains(("Allow"@, allow_value())),
        forall|i: int|
            0 <= i < outcome_spec(s, m, date).entries.len() && (#[trigger] outcome_spec(
                s,
                m,
                date,
            ).entries[i]).0 == "Allow"@ ==> outcome_spec(s, m, date).entries[i].1
                == allow_value(),
{
    let o = outcome_spec(s, m, date);
    assert(o.entries.len() == 3);
    assert(o.entries[2] == ("Allow"@, allow_value()));
    reveal_strlit("Server");
    reveal_strlit("Date");
    reveal_strlit("Allow");
    assert("Server"@.len() == 6);
    assert("Date"@.len() == 4);
    assert("Allow"@.len() == 5);
    assert(o.entries[0].0 != "Allow"@);
    assert(o.entries[1].0 != "Allow"@);
}

/// A raw input without the head/body delimiter is answered 400.
pub proof fn lemma_missing_delimiter(
    s: Seq<char>,
    m: Map<Seq<char>, Seq<char>>,
    date: Seq<char>,
)
    requires
        forall|j: int| !delim_at(s, j),
    ensures
        outcome_spec(s, m, date).code == 400,
        outcome_spec(s, m, date).body is None,
{
    lemma_first_delim_pos(s);
    if first_delim_pos(s) >= 0 {
        assert(delim_at(s, first_delim_pos(s)));
    }
}

/// The status line of any response: it begins `HTTP/1.1 `, carries no
/// line break or carriage return, and its first space stands at index 8.
proof fn lemma_status_line_chars(code: int)
    ensures
        status_line(code).len() > 9,
        forall|j: int|
            0 <= j < status_line(code).len() ==> status_line(code)[j] != '\n' && status_line(
                code,
            )[j] != '\r',
        status_line(code)[8] == ' ',
        forall|j: int| 0 <= j < 8 ==> status_line(code)[j] != ' ',
        status_line(code).last() != '\r',
{
    reveal_strlit("HTTP/1.1 ");
    reveal_strlit("200 OK");
    reveal_strlit("400 Bad Request");
    reveal_strlit("404 Not Found");
    reveal_strlit("405 Method Not Allowed");
    reveal_strlit("500 Internal Server Error");
    assert("HTTP/1.1 "@.len() == 9);
}

/// The head lines of a response whose header keys are well-formed and
/// whose values hold no newline: free of newlines and at least two
/// characters each.
proof fn lemma_response_lines_basic(entries: Seq<(Seq<char>, Seq<char>)>, code: int)
    requires
        forall|i: int| 0 <= i < entries.len() ==> wf_header_key((#[trigger] entries[i]).0),
        forall|i: int, j: int|
            0 <= i < entries.len() && 0 <= j < entries[i].1.len() ==> #[trigger] entries[i].1[j]
                != '\n',
    ensures
        forall|a: int, b: int|
            0 <= a < response_lines(entries, code).len() && 0 <= b < response_lines(
                entries,
                code,
            )[a].len() ==> #[trigger] response_lines(entries, code)[a][b] != '\n',
        forall|a: int|
            0 <= a < response_lines(entries, code).len() ==> (#[trigger] response_lines(
                entries,
                code,
            )[a]).len() >= 2,
{
    let ls = response_lines(entries, code);
    lemma_status_line_chars(code);
    reveal_strlit(": ");
    assert(": "@.len() == 2);
    assert(": "@[0] == ':');
    assert(": "@[1] == ' ');
    assert(ls[0] == status_line(code));
    assert forall|a: int, b: int|
        0 <= a < ls.len() && 0 <= b < ls[a].len() implies #[trigger] ls[a][b] != '\n' by {
        if a > 0 {
            let e = entries[a - 1];
            assert(ls[a] == entry_line(e));
            let line = entry_line(e);
            if b < e.0.len() {
                assert(line[b] == e.0[b]);
            } else if b < e.0.len() + 2 {
                assert(line[b] == ": "@[b - e.0.len()]);
            } else {
                assert(line[b] == e.1[b - e.0.len() - 2]);
            }
        }
    }
    assert forall|a: int| 0 <= a < ls.len() implies (#[trigger] ls[a]).len() >= 2 by {
        if a > 0 {
            let e = entries[a - 1];
            assert(ls[a] == entry_line(e));
            assert(entry_line(e).len() == e.0.len() + 2 + e.1.len());
        }
    }
}

/// With fully well-formed entries the head lines can also be joined and
/// split back: no line ends in a carriage return and the last line is
/// nonempty.
proof fn lemma_response_lines_shape(entries: Seq<(Seq<char>, Seq<char>)>, code: int)
    requires
        forall|i: int|
            0 <= i < entries.len() ==> wf_header_key((#[trigger] entries[i]).0)
                && wf_header_value(entries[i].1),
    ensures
        crate::text::joinable_lines(response_lines(entries, code)),
        forall|a: int|
            0 <= a < response_lines(entries, code).len() ==> (#[trigger] response_lines(
                entries,
                code,
            )[a]).len() >= 2,
{
    let ls = response_lines(entries, code);
    lemma_response_lines_basic(entries, code);
    lemma_status_line_chars(code);
    reveal_strlit(": ");
    assert(": "@.len() == 2);
    assert(": "@[1] == ' ');
    assert(ls[0] == status_line(code));
    assert forall|a: int| 0 <= a < ls.len() && ls[a].len() > 0 implies (#[trigger] ls[a]).last()
        != '\r' by {
        if a > 0 {
            let e = entries[a - 1];
            assert(ls[a] == entry_line(e));
            let line = entry_line(e);
            if e.1.len() > 0 {
                lemma_trim_stable_parts(e.1);
                assert(line.last() == e.1.last());
            } else {
                assert(line.last() == ": "@[1]);
            }
        }
    }
    assert(ls.len() > 0);
    assert(ls.last().len() > 0);
}

/// The first head/body delimiter of a rendered response stands exactly
/// where the head ends, whatever the tail holds: inside a join of
/// newline-free lines of length at least two, the delimiter's two
/// newlines, two apart, can find no place.
proof fn lemma_rendered_delim_pos(ls: Seq<Seq<char>>, tail: Seq<char>)
    requires
        ls.len() > 0,
        forall|i: int, j: int|
            0 <= i < ls.len() && 0 <= j < ls[i].len() ==> #[trigger] ls[i][j] != '\n',
        forall|i: int| 0 <= i < ls.len() ==> (#[trigger] ls[i]).len() >= 2,
    ensures
        first_delim_pos(join_lines(ls) + seq!['\r', '\n', '\r', '\n'] + tail) == join_lines(
            ls,
        ).len(),
{
    let head = join_lines(ls);
    let rendered = head + seq!['\r', '\n', '\r', '\n'] + tail;
    lemma_join_newline_gap(ls);
    let d = head.len() as int;
    assert(head.len() >= 2);
    assert(delim_at(rendered, d));
    assert forall|j: int| 0 <= j < d implies !delim_at(rendered, j) by {
        if delim_at(rendered, j) {
            assert(rendered[j + 1] == '\n');
            assert(rendered[j + 3] == '\n');
            if j + 1 < d {
                assert(rendered[j + 1] == head[j + 1]);
                if j + 3 < d {
                    assert(rendered[j + 3] == head[j + 3]);
                    assert(!(head[j + 1] == '\n' && head[j + 3] == '\n'));
                } else if j + 3 == d {
                    assert(rendered[j + 3] == '\r');
                } else if j + 3 == d + 1 {
                    assert(head[d - 1] == head.last());
                    assert(head.last() != '\n');
                } else {
                    assert(j + 3 == d + 2);
                    assert(rendered[j + 3] == '\r');
                }
            } else {
                assert(j + 1 == d);
                assert(rendered[d] == '\r');
            }
        }
    }
    lemma_first_delim_pos(rendered);
    if first_delim_pos(rendered) != d {
        let f = first_delim_pos(rendered);
        if f < 0 {
            assert(delim_at(rendered, d));
        } else if f < d {
            assert(!delim_at(rendered, f));
        } else {
            assert(!delim_at(rendered, d));
        }
        assert(false);
    }
}

/// The header lines rendered from well-formed entries parse back to the
/// entries' mapping.
proof fn lemma_headers_of_entry_lines(entries: Seq<(Seq<char>, Seq<char>)>)
    requires
        forall|i: int|
            0 <= i < entries.len() ==> wf_header_key((#[trigger] entries[i]).0)
                && wf_header_value(entries[i].1),
    ensures
        headers_map_of(entry_lines(entries)) == Some(map_of_entries(entries)),
    decreases entries.len(),
{
    let el = entry_lines(entries);
    if entries.len() == 0 {
        assert(el.len() == 0);
    } else {
        let prior = entries.drop_last();
        assert(el.drop_last() =~= entry_lines(prior));
        assert forall|i: int|
            0 <= i < prior.len() implies wf_header_key((#[trigger] prior[i]).0)
            && wf_header_value(prior[i].1) by {
            assert(prior[i] == entries[i]);
        }
        lemma_headers_of_entry_lines(prior);
        let e = entries.last();
        let k = e.0;
        let v = e.1;
        let line = entry_line(e);
        assert(el.last() == line);
        reveal_strlit(": ");
        assert(": "@.len() == 2);
        assert(": "@[0] == ':');
        assert(": "@[1] == ' ');
        assert(line[k.len() as int] == ':');
        assert forall|j: int| 0 <= j < k.len() implies line[j] != ':' by {
            assert(line[j] == k[j]);
        }
        lemma_find_char(line, ':');
        if find_char(line, ':') != k.len() {
            let f = find_char(line, ':');
            if f < 0 {
                assert(line[k.len() as int] == ':');
            } else if f < k.len() {
                assert(line[f] != ':');
            } else {
                assert(line[k.len() as int] != ':');
            }
            assert(false);
        }
        assert(line.subrange(0, k.len() as int) =~= k);
        let vp = line.subrange(k.len() as int + 1, line.len() as int);
        assert(vp =~= seq![' '] + v);
        lemma_trim_stable_parts(v);
        assert((seq![' '] + v).drop_first() =~= v);
        assert(trim_start(seq![' '] + v) == trim_start(v));
        assert(trim_ws(vp) == v);
        assert(split_header_line(line) == Some((k, v)));
    }
}

/// Rendering a response and splitting the result again on the head/body
/// delimiter reproduces the header mapping and the body unchanged.  The
/// entries must be well-formed — keys free of newlines and colons,
/// values free of newlines and equal to their own trim — which every
/// header the pipeline itself produces is; a value with surrounding
/// white space genuinely reads back trimmed, so the mapping cannot be
/// reproduced without trim-stability, while the body asks for less (see
/// `lemma_render_body_round_trip`).
pub proof fn lemma_render_parse_round_trip(
    entries: Seq<(Seq<char>, Seq<char>)>,
    code: int,
    body: Option<Seq<char>>,
)
    requires
        forall|i: int|
            0 <= i < entries.len() ==> wf_header_key((#[trigger] entries[i]).0)
                && wf_header_value(entries[i].1),
    ensures
        parse_spec(render_response(entries, code, body)) is Some,
        parse_spec(render_response(entries, code, body)).unwrap().headers == map_of_entries(
            entries,
        ),
        parse_spec(render_response(entries, code, body)).unwrap().body == (match body {
            Some(b) => b,
            None => Seq::<char>::empty(),
        }),
{
    let ls = response_lines(entries, code);
    let head = join_lines(ls);
    let bodyseq = match body {
        Some(b) => b,
        None => Seq::<char>::empty(),
    };
    let rendered = render_response(entries, code, body);
    assert(rendered == head + seq!['\r', '\n', '\r', '\n'] + bodyseq);
    lemma_response_lines_shape(entries, code);
    lemma_split_join(ls);
    lemma_rendered_delim_pos(ls, bodyseq);
    let d = head.len() as int;
    assert(first_delim_pos(rendered) == d);
    assert(rendered.subrange(0, d) =~= head);
    assert(rendered.subrange(d + 4, rendered.len() as int) =~= bodyseq);
    assert(split_lines(head) == ls);
    assert(ls.len() >= 1);
    assert(ls[0] == status_line(code));
    lemma_status_line_chars(code);
    lemma_find_char(ls[0], ' ');
    if find_char(ls[0], ' ') != 8 {
        let f = find_char(ls[0], ' ');
        if f < 0 {
            assert(ls[0][8] == ' ');
        } else if f < 8 {
            assert(ls[0][f] != ' ');
        } else {
            assert(ls[0][8] != ' ');
        }
        assert(false);
    }
    assert(split_request_line(ls[0]) is Some);
    assert(ls.drop_first() =~= entry_lines(entries));
    lemma_headers_of_entry_lines(entries);
}

/// Rendering a response and splitting the result again on the head/body
/// delimiter reproduces the body bytes unchanged — even a body holding
/// the delimiter itself — asking of the headers only that no key or
/// value holds a newline and no key a colon.  Values may carry carriage
/// returns or surrounding white space; those alter only how the header
/// lines read back, never where the head ends.
pub proof fn lemma_render_body_round_trip(
    entries: Seq<(Seq<char>, Seq<char>)>,
    code: int,
    body: Option<Seq<char>>,
)
    requires
        forall|i: int| 0 <= i < entries.len() ==> wf_header_key((#[trigger] entries[i]).0),
        forall|i: int, j: int|
            0 <= i < entries.len() && 0 <= j < entries[i].1.len() ==> #[trigger] entries[i].1[j]
                != '\n',
    ensures
        parse_spec(render_response(entries, code, body)) is Some,
        parse_spec(render_response(entries, code, body)).unwrap().body == (match body {
            Some(b) => b,
            None => Seq::<char>::empty(),
        }),
{
    let ls = response_lines(entries, code);
    let head = join_lines(ls);
    let bodyseq = match body {
        Some(b) => b,
        None => Seq::<char>::empty(),
    };
    let rendered = render_response(entries, code, body);
    assert(rendered == head + seq!['\r', '\n', '\r', '\n'] + bodyseq);
    lemma_response_lines_basic(entries, code);
    lemma_rendered_delim_pos(ls, bodyseq);
    let d = head.len() as int;
    assert(first_delim_pos(rendered) == d);
    assert(rendered.subrange(0, d) =~= head);
    assert(rendered.subrange(d + 4, rendered.len() as int) =~= bodyseq);
    lemma_status_line_chars(code);
    lemma_split_join_strip(ls);
    let lines = split_lines(head);
    assert(lines.len() == ls.len());
    assert(lines[0] == status_line(code)) by {
        if ls.len() == 1 {
            assert(lines.last() == ls.last());
        } else {
            assert(lines[0] == strip_cr(ls[0]));
            assert(ls[0] == status_line(code));
            assert(status_line(code).last() != '\r');
        }
    }
    lemma_find_char(lines[0], ' ');
    if find_char(lines[0], ' ') < 0 {
        assert(lines[0][8] == ' ');
        assert(false);
    }
    assert(split_request_line(lines[0]) is Some);
    reveal_strlit(": ");
    assert(": "@.len() == 2);
    assert(": "@[0] == ':');
    assert(": "@[1] == ' ');
    let hlines = lines.drop_first();
    assert forall|i: int|
        0 <= i < hlines.len() implies split_header_line(#[trigger] hlines[i]) is Some by {
        let e = entries[i];
        let line = entry_line(e);
        assert(ls[i + 1] == line);
        let hl = hlines[i];
        assert(hl == lines[i + 1]);
        assert(line[e.0.len() as int] == ':');
        assert(line.len() == e.0.len() + 2 + e.1.len());
        if i + 1 < ls.len() - 1 {
            assert(lines[i + 1] == strip_cr(line));
        } else {
            assert(lines.last() == ls.last());
        }
        if hl == strip_cr(line) && line.last() == '\r' {
            if e.1.len() == 0 {
                assert(line.last() == ": "@[1]);
            }
            assert(e.1.len() > 0);
            assert(hl == line.drop_last());
            assert(hl.len() == line.len() - 1);
            assert(hl[e.0.len() as int] == line[e.0.len() as int]);
        }
        assert(hl.len() > e.0.len());
        assert(hl[e.0.len() as int] == ':');
        lemma_find_char(hl, ':');
        if find_char(hl, ':') < 0 {
            assert(hl[e.0.len() as int] != ':');
            assert(false);
        }
    }
    lemma_headers_map_some(hlines);
}

} // verus!
