//! The request parser: turns the raw text read from a connection into a
//! structured request, or fails when the head/body delimiter is absent or
//! a head line is malformed.

use vstd::prelude::*;

use crate::string_map::StringMap;
use crate::text::{
    find_char, find_char_in, find_delim_in, first_delim_pos, split_lines, trim_str, trim_ws,
};

verus! {

/// The mathematical shape of a parsed request.
pub struct ReqView {
    pub method: Seq<char>,
    pub path: Seq<char>,
    pub headers: Map<Seq<char>, Seq<char>>,
    pub body: Seq<char>,
}

/// Splits a request line at its first two spaces into method and path,
/// discarding the rest; `None` when the line holds no space at all.
pub open spec fn split_request_line(line: Seq<char>) -> Option<(Seq<char>, Seq<char>)> {
    let i = find_char(line, ' ');
    if i < 0 {
        None
    } else {
        let rest = line.subrange(i + 1, line.len() as int);
        let j = find_char(rest, ' ');
        let path = if j < 0 {
            rest
        } else {
            rest.subrange(0, j)
        };
        Some((line.subrange(0, i), path))
    }
}

/// Splits a header line at its first colon into a key and a trimmed
/// value; `None` when the line holds no colon.
pub open spec fn split_header_line(line: Seq<char>) -> Option<(Seq<char>, Seq<char>)> {
    let i = find_char(line, ':');
    if i < 0 {
        None
    } else {
        Some((line.subrange(0, i), trim_ws(line.subrange(i + 1, line.len() as int))))
    }
}

/// The header mapping described by the header lines, a later line
/// overwriting an earlier one with the same key; `None` when some line
/// holds no colon.
pub open spec fn headers_map_of(ls: Seq<Seq<char>>) -> Option<Map<Seq<char>, Seq<char>>>
    decreases ls.len(),
{
    if ls.len() == 0 {
        Some(Map::empty())
    } else {
        match headers_map_of(ls.drop_last()) {
            None => None,
            Some(m) => match split_header_line(ls.last()) {
                None => None,
                Some(kv) => Some(m.insert(kv.0, kv.1)),
            },
        }
    }
}

/// One malformed header line makes the whole mapping fail.
pub proof fn lemma_headers_map_none(ls: Seq<Seq<char>>, i: int)
    requires
        0 <= i < ls.len(),
        split_header_line(ls[i]) is None,
    ensures
        headers_map_of(ls) is None,
    decreases ls.len(),
{
    if i < ls.len() - 1 {
        assert(ls.drop_last()[i] == ls[i]);
        lemma_headers_map_none(ls.drop_last(), i);
    }
}

/// Header lines that each hold a colon always yield a mapping.
pub proof fn lemma_headers_map_some(ls: Seq<Seq<char>>)
    requires
        forall|i: int| 0 <= i < ls.len() ==> split_header_line(#[trigger] ls[i]) is Some,
    ensures
        headers_map_of(ls) is Some,
    decreases ls.len(),
{
    if ls.len() > 0 {
        assert forall|i: int|
            0 <= i < ls.drop_last().len() implies split_header_line(
            #[trigger] ls.drop_last()[i],
        ) is Some by {
            assert(ls.drop_last()[i] == ls[i]);
        }
        lemma_headers_map_some(ls.drop_last());
        assert(split_header_line(ls.last()) is Some);
    }
}

/// What parsing a raw buffer yields: the request, or `None` exactly when
/// the buffer has no head/body delimiter, or its request line has no
/// space, or some header line has no colon.
pub open spec fn parse_spec(s: Seq<char>) -> Option<ReqView> {
    let d = first_delim_pos(s);
    if d < 0 {
        None
    } else {
        let head = s.subrange(0, d);
        let body = s.subrange(d + 4, s.len() as int);
        let lines = split_lines(head);
        if lines.len() == 0 {
            Some(
                ReqView {
                    method: Seq::empty(),
                    path: Seq::empty(),
                    headers: Map::empty(),
                    body,
                },
            )
        } else {
            match split_request_line(lines[0]) {
                None => None,
                Some(mp) => match headers_map_of(lines.drop_first()) {
                    None => None,
                    Some(h) => Some(ReqView { method: mp.0, path: mp.1, headers: h, body }),
                },
            }
        }
    }
}

/// Why parsing a raw buffer failed.  The wire protocol defines one
/// parse failure of its own, the missing head/body delimiter.  The
/// other two cases name head shapes the protocol leaves undefined; on
/// them this parser deliberately reports a failure of its own rather
/// than aborting or demanding anything of its callers, so that it stays
/// total on whatever bytes a peer sends and no worker ever dies.  Each
/// case is terminal for its connection and is answered with status 400.
#[derive(Clone, Copy, Debug, PartialEq, Eq)]
pub enum ParseFailure {
    /// The raw input holds no head/body delimiter.
    MissingDelimiter,
    /// The head's first line holds no space between method and path.
    RequestLineWithoutSpace,
    /// Some header line of the head holds no colon.
    HeaderLineWithoutColon,
}

/// Which failure parsing a raw buffer reports, or `None` exactly when
/// `parse_spec` succeeds.  The missing delimiter is checked first, then
/// the request line, then the header lines.
pub open spec fn parse_failure_spec(s: Seq<char>) -> Option<ParseFailure> {
    let d = first_delim_pos(s);
    if d < 0 {
        Some(ParseFailure::MissingDelimiter)
    } else {
        let lines = split_lines(s.subrange(0, d));
        if lines.len() == 0 {
            None
        } else if split_request_line(lines[0]) is None {
            Some(ParseFailure::RequestLineWithoutSpace)
        } else if headers_map_of(lines.drop_first()) is None {
            Some(ParseFailure::HeaderLineWithoutColon)
        } else {
            None
        }
    }
}

/// A parsed request: the method and path of the request line, the header
/// mapping, and everything after the head/body delimiter as the body.
pub struct HttpRequest {
    pub headers: StringMap,
    pub method: String,
    pub path: String,
    pub body: String,
}

impl View for HttpRequest {
    type V = ReqView;

    open spec fn view(&self) -> ReqView {
        ReqView {
            method: self.method@,
            path: self.path@,
            headers: self.headers@,
            body: self.body@,
        }
    }
}

/// Splits `s` into its lines, as `split_lines` describes them.
fn split_str_lines(s: &str) -> (r: Vec<String>)
    ensures
        r.deep_view() == split_lines(s@),
{
    let n = s.unicode_len();
    let mut out: Vec<String> = Vec::new();
    let mut pos: usize = 0;
    proof {
        assert(out.deep_view() =~= Seq::<Seq<char>>::empty());
        assert(s@.subrange(0, n as int) =~= s@);
        assert(out.deep_view() + split_lines(s@) =~= split_lines(s@));
    }
    while pos < n
        invariant
            0 <= pos <= n,
            n == s@.len(),
            split_lines(s@) == out.deep_view() + split_lines(s@.subrange(pos as int, n as int)),
        decreases n - pos,
    {
        let ghost suffix = s@.subrange(pos as int, n as int);
        let ghost old_out = out.deep_view();
        let mut j: usize = pos;
        while j < n && s.get_char(j) != '\n'
            invariant
                pos <= j <= n,
                n == s@.len(),
                forall|k: int| pos <= k < j ==> s@[k] != '\n',
            decreases n - j,
        {
            j = j + 1;
        }
        proof {
            assert forall|k: int| 0 <= k < j - pos implies suffix[k] != '\n' by {
                assert(suffix[k] == s@[k + pos]);
            }
            crate::text::lemma_find_char(suffix, '\n');
        }
        if j == n {
            proof {
                if find_char(suffix, '\n') >= 0 {
                    assert(suffix[find_char(suffix, '\n')] == '\n');
                }
                assert(split_lines(suffix) == seq![suffix]);
            }
            out.push(String::from_str(s.substring_char(pos, n)));
            proof {
                assert(out.deep_view() =~= old_out.push(suffix));
                assert(old_out.push(suffix) =~= old_out + seq![suffix]);
                assert(split_lines(s@.subrange(n as int, n as int)).len() == 0);
                assert(out.deep_view() + split_lines(s@.subrange(n as int, n as int)) =~= out.deep_view());
                assert(old_out + seq![suffix] =~= old_out + split_lines(suffix));
            }
            pos = n;
        } else {
            proof {
                assert(s@[j as int] == '\n');
                assert(suffix[j - pos] == '\n');
                assert(find_char(suffix, '\n') == j - pos);
            }
            let line_end: usize = if j > pos && s.get_char(j - 1) == '\r' {
                j - 1
            } else {
                j
            };
            out.push(String::from_str(s.substring_char(pos, line_end)));
            proof {
                let i = (j - pos) as int;
                let raw = suffix.subrange(0, i);
                assert(raw =~= s@.subrange(pos as int, j as int));
                if j > pos {
                    assert(raw.last() == s@[j - 1]);
                }
                let line = crate::text::strip_cr(raw);
                assert(line =~= s@.subrange(pos as int, line_end as int));
                let rest = suffix.subrange(i + 1, suffix.len() as int);
                assert(rest =~= s@.subrange(j + 1, n as int));
                assert(split_lines(suffix) == seq![line] + split_lines(rest));
                assert(out.deep_view() =~= old_out.push(line));
                assert(old_out + (seq![line] + split_lines(rest)) =~= old_out.push(line)
                    + split_lines(rest));
            }
            pos = j + 1;
        }
    }
    proof {
        assert(split_lines(s@.subrange(n as int, n as int)).len() == 0);
        assert(out.deep_view() + split_lines(s@.subrange(n as int, n as int)) =~= out.deep_view());
    }
    out
}

/// Parses the raw buffer of one connection.  Fails exactly when the
/// head/body delimiter is missing, the request line holds no space, or a
/// header line holds no colon, naming which of the three it was; every
/// failure is answered with status 400.  The two malformed-head cases
/// are this parser's deliberate widening of the protocol's one failure
/// (see `ParseFailure`), chosen over a caller precondition: a parser of
/// socket text must accept any byte sequence.
pub fn process_buffer(input_buffer: &str) -> (r: Result<HttpRequest, ParseFailure>)
    ensures
        match r {
            Ok(req) => parse_spec(input_buffer@) == Some(req@) && req.headers.wf()
                && parse_failure_spec(input_buffer@) is None,
            Err(f) => parse_spec(input_buffer@) is None && parse_failure_spec(input_buffer@)
                == Some(f),
        },
{
    let n = input_buffer.unicode_len();
    let d = match find_delim_in(input_buffer) {
        None => {
            return Err(ParseFailure::MissingDelimiter);
        },
        Some(d) => d,
    };
    let head = input_buffer.substring_char(0, d);
    let body = String::from_str(input_buffer.substring_char(d + 4, n));
    let ghost head_seq = input_buffer@.subrange(0, d as int);
    let lines = split_str_lines(head);
    let lines_len = lines.len();
    if lines_len == 0 {
        let req = HttpRequest {
            headers: StringMap::new(),
            method: String::new(),
            path: String::new(),
            body,
        };
        proof {
            assert(split_lines(head_seq).len() == 0);
            assert(req@.method =~= Seq::<char>::empty());
            assert(req@.path =~= Seq::<char>::empty());
        }
        return Ok(req);
    }
    let line0 = &lines[0];
    let line0_len = line0.as_str().unicode_len();
    proof {
        assert(lines.deep_view()[0] == lines@[0]@);
    }
    let sp = match find_char_in(line0.as_str(), ' ') {
        None => {
            return Err(ParseFailure::RequestLineWithoutSpace);
        },
        Some(i) => i,
    };
    let method = String::from_str(line0.as_str().substring_char(0, sp));
    let rest = line0.as_str().substring_char(sp + 1, line0_len);
    let path = match find_char_in(rest, ' ') {
        None => String::from_str(rest),
        Some(j) => String::from_str(rest.substring_char(0, j)),
    };
    let ghost lines_seq = lines.deep_view();
    let ghost header_lines = lines_seq.drop_first();
    proof {
        let mp = split_request_line(lines_seq[0]).unwrap();
        assert(method@ == mp.0);
        assert(path@ =~= mp.1);
    }
    let mut hm = StringMap::new();
    let mut idx: usize = 1;
    proof {
        assert(header_lines.subrange(0, 0).len() == 0);
        assert(headers_map_of(header_lines.subrange(0, 0)) == Some(Map::<Seq<char>, Seq<char>>::empty()));
    }
    while idx < lines_len
        invariant
            1 <= idx <= lines_len,
            lines_len == lines_seq.len(),
            lines_seq == lines.deep_view(),
            header_lines == lines_seq.drop_first(),
            first_delim_pos(input_buffer@) == d as int,
            d + 4 <= input_buffer@.len(),
            head_seq == input_buffer@.subrange(0, d as int),
            lines_seq == split_lines(head_seq),
            split_request_line(lines_seq[0]) is Some,
            hm.wf(),
            headers_map_of(header_lines.subrange(0, idx - 1)) == Some(hm@),
        decreases lines_len - idx,
    {
        let line = &lines[idx];
        let line_len = line.as_str().unicode_len();
        proof {
            assert(lines.deep_view()[idx as int] == lines@[idx as int]@);
            assert(header_lines[idx - 1] == lines_seq[idx as int]);
        }
        let ci = match find_char_in(line.as_str(), ':') {
            None => {
                proof {
                    lemma_headers_map_none(header_lines, idx - 1);
                }
                return Err(ParseFailure::HeaderLineWithoutColon);
            },
            Some(ci) => ci,
        };
        let key = String::from_str(line.as_str().substring_char(0, ci));
        let val = trim_str(line.as_str().substring_char(ci + 1, line_len));
        proof {
            let kv = split_header_line(header_lines[idx - 1]).unwrap();
            assert(key@ == kv.0);
            assert(val@ == kv.1);
        }
        hm.insert(key, val);
        proof {
            let upto = header_lines.subrange(0, idx as int);
            assert(upto.drop_last() =~= header_lines.subrange(0, idx - 1));
            assert(upto.last() == header_lines[idx - 1]);
        }
        idx = idx + 1;
    }
    proof {
        assert(header_lines.subrange(0, lines_len - 1) =~= header_lines);
    }
    let req = HttpRequest { headers: hm, method, path, body };
    proof {
        let pv = parse_spec(input_buffer@).unwrap();
        assert(pv.method == req@.method);
        assert(pv.path == req@.path);
        assert(pv.headers == req@.headers);
        assert(pv.body == req@.body);
    }
    Ok(req)
}

} // verus!
