//! The wire codec: turning the headlines and body bytes read from a
//! connection into an `HttpRequest`, and an `HttpResponse` back into the
//! bytes written to the connection.

use vstd::prelude::*;
use vstd::string::*;
use crate::message::{
    HttpRequest, HttpResponse, ResView, StringMap, entries_wf, insert_entry, lookup,
};
use crate::text::{
    dec_str, eq_ignore_ascii_case, first_char_index, first_pair_index, int_dec_str,
    parse_usize_spec, split_on, trim_spec,
};

verus! {

/// Why a byte stream could not be parsed into a request.
#[derive(Debug, PartialEq, Eq, Structural, Clone, Copy)]
pub enum HttpParseError {
    /// The stream ended before a request line was read.
    MissingRequestLine,
    /// The request line has fewer than three space-separated tokens.
    MalformedRequestLine,
}

/// The header entry a headline yields: the name before the first `": "`,
/// the value after it; a line without `": "` yields none.
pub open spec fn header_entry_of(line: Seq<char>) -> Option<(Seq<char>, Seq<char>)> {
    let i = first_pair_index(line, ':', ' ');
    if i == -1 {
        None
    } else {
        Some((line.take(i), line.skip(i + 2)))
    }
}

/// The header map that a sequence of header lines builds up, in order,
/// later values replacing earlier ones; lines without `": "` are skipped.
pub open spec fn headers_of(lines: Seq<Seq<char>>) -> Seq<(Seq<char>, Seq<char>)>
    decreases lines.len(),
{
    if lines.len() == 0 {
        Seq::<(Seq<char>, Seq<char>)>::empty()
    } else {
        let rest = headers_of(lines.drop_last());
        match header_entry_of(lines.last()) {
            Some(kv) => insert_entry(rest, kv.0, kv.1),
            None => rest,
        }
    }
}

/// Split a headline at the first `": "` into name and value.
pub fn split_header_line(line: &str) -> (r: Option<(String, String)>)
    ensures
        match r {
            Some(kv) => header_entry_of(line@) == Some((kv.0@, kv.1@)),
            None => header_entry_of(line@) is None,
        },
{
    let n = line.unicode_len();
    match crate::text::find_pair(line, ':', ' ') {
        Some(i) => {
            proof {
                crate::text::lemma_first_pair_index_props(line@, ':', ' ');
                assert(i as int + 2 <= n as int);
            }
            let name = String::from_str(line.substring_char(0, i));
            let value = String::from_str(line.substring_char(i + 2, n));
            proof {
                assert(line@.subrange(0, i as int) =~= line@.take(i as int));
                assert(line@.subrange(i as int + 2, line@.len() as int) =~= line@.skip(
                    i as int + 2,
                ));
            }
            Some((name, value))
        },
        None => None,
    }
}

impl HttpRequest {
    /// Parse the headlines read from a connection, paired with the body
    /// bytes that followed them, into a request. The first headline must
    /// split on single spaces into at least method, URI and version; the
    /// remaining headlines build the header map.
    pub fn new(headlines: Vec<String>, body: Vec<u8>) -> (r: Result<HttpRequest, HttpParseError>)
        ensures
            match r {
                Ok(req) => {
                    &&& headlines.deep_view().len() > 0
                    &&& split_on(headlines.deep_view()[0], ' ').len() >= 3
                    &&& req@.method == split_on(headlines.deep_view()[0], ' ')[0]
                    &&& req@.uri == split_on(headlines.deep_view()[0], ' ')[1]
                    &&& req@.version == split_on(headlines.deep_view()[0], ' ')[2]
                    &&& req@.headers == headers_of(headlines.deep_view().skip(1))
                    &&& req@.body == body@
                    &&& entries_wf(req@.headers)
                },
                Err(e) => {
                    &&& (e == HttpParseError::MissingRequestLine <==> headlines.deep_view().len()
                        == 0)
                    &&& (e == HttpParseError::MalformedRequestLine <==> (
                    headlines.deep_view().len() > 0 && split_on(headlines.deep_view()[0], ' ').len()
                        < 3))
                },
            },
    {
        let ghost dv = headlines.deep_view();
        let n = headlines.len();
        if n == 0 {
            return Err(HttpParseError::MissingRequestLine);
        }
        let toks = crate::text::split_str(headlines[0].as_str(), ' ');
        if toks.len() < 3 {
            return Err(HttpParseError::MalformedRequestLine);
        }
        let method = toks[0].clone();
        let uri = toks[1].clone();
        let version = toks[2].clone();
        let mut headers = StringMap::new();
        let mut i: usize = 1;
        proof {
            assert(dv.subrange(1, 1) =~= Seq::<Seq<char>>::empty());
        }
        while i < n
            invariant
                1 <= i <= n,
                n == headlines.len(),
                dv == headlines.deep_view(),
                headers@ == headers_of(dv.subrange(1, i as int)),
                entries_wf(headers@),
            decreases n - i,
        {
            proof {
                assert(dv.subrange(1, i as int + 1).drop_last() =~= dv.subrange(1, i as int));
                assert(dv.subrange(1, i as int + 1).last() == dv[i as int]);
                assert(headlines@[i as int]@ == dv[i as int]);
            }
            match split_header_line(headlines[i].as_str()) {
                Some(kv) => {
                    headers.insert(kv.0, kv.1);
                },
                None => {},
            }
            i = i + 1;
        }
        proof {
            assert(dv.subrange(1, n as int) =~= dv.skip(1));
        }
        Ok(HttpRequest::from_parts(headers, body, method, uri, version))
    }
}

/// The length a headline contributes: the part before its first `:` must
/// name `content-length` up to ASCII case, and the part after it, trimmed,
/// must parse as a decimal length.
pub open spec fn content_length_of_line(line: Seq<char>) -> Option<int> {
    let i = first_char_index(line, ':');
    if i == -1 {
        None
    } else if !eq_ignore_ascii_case(line.take(i), "content-length"@) {
        None
    } else {
        parse_usize_spec(trim_spec(line.skip(i + 1)))
    }
}

/// The declared body length: the first headline that contributes one
/// decides; with none, the length is 0.
pub open spec fn content_length_of(lines: Seq<Seq<char>>) -> int
    decreases lines.len(),
{
    if lines.len() == 0 {
        0
    } else {
        match content_length_of_line(lines[0]) {
            Some(v) => v,
            None => content_length_of(lines.drop_first()),
        }
    }
}

fn line_content_length(line: &str) -> (r: Option<usize>)
    ensures
        match r {
            Some(v) => content_length_of_line(line@) == Some(v as int),
            None => content_length_of_line(line@) is None,
        },
{
    let n = line.unicode_len();
    match crate::text::find_char(line, ':') {
        Some(i) => {
            proof {
                crate::text::lemma_first_char_index_props(line@, ':');
            }
            let name = line.substring_char(0, i);
            proof {
                assert(line@.subrange(0, i as int) =~= line@.take(i as int));
            }
            if crate::text::str_eq_ignore_ascii_case(name, "content-length") {
                let rest = line.substring_char(i + 1, n);
                proof {
                    assert(line@.subrange(i as int + 1, n as int) =~= line@.skip(i as int + 1));
                }
                let trimmed = crate::text::trim_str(rest);
                crate::text::parse_usize(trimmed.as_str())
            } else {
                None
            }
        },
        None => None,
    }
}

/// The body length the headlines declare, 0 when none declares one.
/// The name is matched case-insensitively, on any headline.
pub fn content_length(headlines: &Vec<String>) -> (r: usize)
    ensures
        r as int == content_length_of(headlines.deep_view()),
{
    let ghost dv = headlines.deep_view();
    let n = headlines.len();
    let mut i: usize = 0;
    proof {
        assert(dv.skip(0) =~= dv);
    }
    while i < n
        invariant
            n == headlines.len(),
            dv == headlines.deep_view(),
            i <= n,
            content_length_of(dv) == content_length_of(dv.skip(i as int)),
        decreases n - i,
    {
        proof {
            assert(headlines@[i as int]@ == dv[i as int]);
            assert(dv.skip(i as int)[0] == dv[i as int]);
        }
        match line_content_length(headlines[i].as_str()) {
            Some(v) => {
                return v;
            },
            None => {},
        }
        proof {
            assert(dv.skip(i as int).drop_first() =~= dv.skip(i as int + 1));
        }
        i = i + 1;
    }
    proof {
        assert(dv.skip(n as int) =~= Seq::<Seq<char>>::empty());
    }
    0
}

/// One `name: value` line per header entry, in order.
pub open spec fn header_lines_str(hs: Seq<(Seq<char>, Seq<char>)>) -> Seq<char>
    decreases hs.len(),
{
    if hs.len() == 0 {
        Seq::<char>::empty()
    } else {
        header_lines_str(hs.drop_last()) + hs.last().0 + seq![':', ' '] + hs.last().1
            + seq!['\n']
    }
}

/// The status line: the request's version echoed, then code and reason.
pub open spec fn status_line_str(version: Seq<char>, code: int, reason: Seq<char>) -> Seq<char> {
    version + seq![' '] + int_dec_str(code) + seq![' '] + reason + seq!['\n']
}

/// The headers with the default Content-Type added when none is set.
pub open spec fn with_content_type(hs: Seq<(Seq<char>, Seq<char>)>) -> Seq<
    (Seq<char>, Seq<char>),
> {
    if lookup(hs, "Content-Type"@) is Some {
        hs
    } else {
        insert_entry(hs, "Content-Type"@, "application/octet-stream"@)
    }
}

/// The headers as serialized: the Content-Type default applied, and
/// Content-Length always recomputed from the actual body length.
pub open spec fn finalized_headers(res: ResView) -> Seq<(Seq<char>, Seq<char>)> {
    insert_entry(
        with_content_type(res.headers),
        "Content-Length"@,
        dec_str(res.body.len() as int),
    )
}

/// Everything written before the body bytes: the status line, one line per
/// finalized header, and a blank line.
pub open spec fn encoded_head(version: Seq<char>, res: ResView) -> Seq<char> {
    status_line_str(version, res.code, res.reason) + header_lines_str(finalized_headers(res))
        + seq!['\n']
}

/// Serialization only touches Content-Type and Content-Length: every
/// other header keeps the value the handlers set, at its place in the
/// emission order.
pub proof fn lemma_finalized_keeps_other_headers(res: ResView, name: Seq<char>)
    requires
        name != "Content-Length"@,
        name != "Content-Type"@,
    ensures
        lookup(finalized_headers(res), name) == lookup(res.headers, name),
{
    crate::message::lemma_lookup_insert_other(
        with_content_type(res.headers),
        "Content-Length"@,
        crate::text::dec_str(res.body.len() as int),
        name,
    );
    if lookup(res.headers, "Content-Type"@) is None {
        crate::message::lemma_lookup_insert_other(
            res.headers,
            "Content-Type"@,
            "application/octet-stream"@,
            name,
        );
    }
}

/// Serialize a response: the head as text, the body as the raw bytes to
/// append after it. The Content-Length header is recomputed from the body,
/// so the serialized length always equals the body's length.
pub fn encode_response(version: &String, res: HttpResponse) -> (r: (String, Vec<u8>))
    ensures
        r.0@ == encoded_head(version@, res@),
        r.1@ == res@.body,
        lookup(finalized_headers(res@), "Content-Length"@) == Some(
            dec_str(res@.body.len() as int),
        ),
{
    let ghost v0 = res@;
    let mut res = res;
    if !res.headers().contains_key("Content-Type") {
        res.insert_header(
            String::from_str("Content-Type"),
            String::from_str("application/octet-stream"),
        );
    }
    let body_len = res.body().len();
    res.insert_header(String::from_str("Content-Length"), crate::text::u64_to_string(body_len as u64));
    proof {
        assert(res@.headers == finalized_headers(v0));
        crate::message::lemma_lookup_insert_same(
            with_content_type(v0.headers),
            "Content-Length"@,
            dec_str(v0.body.len() as int),
        );
    }
    let ghost fh = finalized_headers(v0);
    let mut head = String::new();
    head.append(version.as_str());
    head.append(" ");
    let code_str = crate::text::i32_to_string(res.status().0);
    head.append(code_str.as_str());
    head.append(" ");
    head.append(res.status().1);
    head.append("\n");
    proof {
        reveal_strlit(" ");
        reveal_strlit("\n");
        assert(" "@ =~= seq![' ']);
        assert("\n"@ =~= seq!['\n']);
        assert(head@ =~= status_line_str(version@, v0.code, v0.reason));
    }
    let hs = res.headers().entries();
    let m = hs.len();
    let mut i: usize = 0;
    proof {
        assert(fh.take(0) =~= Seq::<(Seq<char>, Seq<char>)>::empty());
        assert(head@ =~= status_line_str(version@, v0.code, v0.reason) + header_lines_str(
            fh.take(0),
        ));
    }
    while i < m
        invariant
            m == hs.len(),
            i <= m,
            hs.deep_view() == fh,
            head@ == status_line_str(version@, v0.code, v0.reason) + header_lines_str(
                fh.take(i as int),
            ),
        decreases m - i,
    {
        head.append(hs[i].0.as_str());
        head.append(": ");
        head.append(hs[i].1.as_str());
        head.append("\n");
        proof {
            reveal_strlit(": ");
            reveal_strlit("\n");
            assert(": "@ =~= seq![':', ' ']);
            assert("\n"@ =~= seq!['\n']);
            assert(hs.deep_view()[i as int] == (hs@[i as int].0@, hs@[i as int].1@));
            assert(fh.take(i as int + 1).drop_last() =~= fh.take(i as int));
            assert(fh.take(i as int + 1).last() == fh[i as int]);
            assert(head@ =~= status_line_str(version@, v0.code, v0.reason) + header_lines_str(
                fh.take(i as int + 1),
            ));
        }
        i = i + 1;
    }
    head.append("\n");
    proof {
        reveal_strlit("\n");
        assert("\n"@ =~= seq!['\n']);
        assert(fh.take(m as int) =~= fh);
        assert(head@ =~= encoded_head(version@, v0));
    }
    let body = res.into_body();
    (head, body)
}

} // verus!
