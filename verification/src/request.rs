//! The request decoder: turns the raw bytes of one read into a structured
//! request. The buffer is stripped of NUL bytes, split on "\r\n", the first
//! line is split on single spaces into method and path, the following lines
//! up to the first blank line contribute `Name: Value` headers, and the body
//! is the last "\r\n"-separated segment of the whole buffer.

use vstd::prelude::*;

use crate::headers::{hinsert, Headers};
use crate::strutil::{
    find_first, find_in, lemma_find_first, split_on, split_str, strip_nul, strip_nul_str,
};

verus! {

/// Decoding failed: the buffer is not valid UTF-8, or its request line has
/// fewer than two space-separated tokens.
#[derive(Debug)]
pub struct MalformedRequest;

/// The mathematical content of a request.
pub struct RequestModel {
    pub method: Seq<char>,
    pub path: Seq<char>,
    pub headers: Seq<(Seq<char>, Seq<char>)>,
    pub body: Seq<char>,
}

pub open spec fn crlf() -> Seq<char> {
    seq!['\r', '\n']
}

pub open spec fn sp() -> Seq<char> {
    seq![' ']
}

pub open spec fn colon_sp() -> Seq<char> {
    seq![':', ' ']
}

/// Folds one line into the headers gathered so far: a line with a ": "
/// separator binds everything before its first ": " to everything after it;
/// a line without one is ignored.
pub open spec fn header_step(
    acc: Seq<(Seq<char>, Seq<char>)>,
    line: Seq<char>,
) -> Seq<(Seq<char>, Seq<char>)> {
    let j = find_first(line, colon_sp());
    if j < 0 {
        acc
    } else {
        hinsert(acc, line.subrange(0, j), line.subrange(j + 2, line.len() as int))
    }
}

/// The headers contributed by `lines[i..]`, stopping at the first blank
/// line, folded onto `acc` in order.
pub open spec fn collect_headers(
    lines: Seq<Seq<char>>,
    i: int,
    acc: Seq<(Seq<char>, Seq<char>)>,
) -> Seq<(Seq<char>, Seq<char>)>
    decreases lines.len() - i,
{
    if i < 0 || i >= lines.len() || lines[i].len() == 0 {
        acc
    } else {
        collect_headers(lines, i + 1, header_step(acc, lines[i]))
    }
}

/// What decoding a (NUL-stripped, UTF-8 decoded) buffer yields: `None` when
/// the request line has fewer than two tokens, otherwise the request.
pub open spec fn spec_parse(data: Seq<char>) -> Option<RequestModel> {
    let clean = strip_nul(data);
    let lines = split_on(clean, crlf());
    let toks = split_on(lines[0], sp());
    if toks.len() < 2 {
        None
    } else {
        Some(
            RequestModel {
                method: toks[0],
                path: toks[1],
                headers: collect_headers(lines, 1, Seq::empty()),
                body: lines[lines.len() - 1],
            },
        )
    }
}

/// A decoded HTTP request.
#[derive(Debug)]
pub struct Request {
    pub path: String,
    pub method: String,
    pub headers: Headers,
    pub body: String,
}

impl View for Request {
    type V = RequestModel;

    open spec fn view(&self) -> RequestModel {
        RequestModel {
            method: self.method@,
            path: self.path@,
            headers: self.headers@,
            body: self.body@,
        }
    }
}

impl Request {
    /// Decodes a buffer already known to be text.
    pub fn parse(data: String) -> (r: Result<Request, MalformedRequest>)
        ensures
            r is Ok <==> spec_parse(data@) is Some,
            r is Ok ==> r.unwrap()@ == spec_parse(data@).unwrap(),
    {
        proof {
            reveal_strlit("\r\n");
            reveal_strlit(" ");
            assert("\r\n"@ =~= crlf());
            assert(" "@ =~= sp());
        }
        let clean = strip_nul_str(data.as_str());
        let lines = split_str(clean.as_str(), "\r\n");
        let ghost lv = lines.deep_view();
        proof {
            assert(lv == split_on(strip_nul(data@), crlf()));
            assert(lv.len() >= 1);
            assert(lines@.len() == lv.len());
            assert(lv[0] == lines@[0]@);
        }
        let toks = split_str(lines[0].as_str(), " ");
        let ghost tv = toks.deep_view();
        proof {
            assert(tv.len() >= 1);
            assert(toks@.len() == tv.len());
        }
        if toks.len() < 2 {
            return Err(MalformedRequest);
        }
        let method = toks[0].clone();
        let path = toks[1].clone();
        proof {
            assert(method@ == tv[0]);
            assert(path@ == tv[1]);
        }
        let mut headers = Headers::new();
        let n = lines.len();
        let mut i: usize = 1;
        loop
            invariant
                1 <= i <= n,
                n == lines@.len(),
                lv == lines.deep_view(),
                collect_headers(lv, i as int, headers@) == collect_headers(lv, 1, Seq::empty()),
            ensures
                headers@ == collect_headers(lv, 1, Seq::empty()),
            decreases n - i,
        {
            if i >= n {
                break ;
            }
            let line = lines[i].as_str();
            proof {
                assert(line@ == lv[i as int]);
            }
            if line.is_empty() {
                break ;
            }
            proof {
                reveal_strlit(": ");
                assert(": "@ =~= colon_sp());
            }
            let ghost pre = headers@;
            match find_in(line, ": ") {
                Some(j) => {
                    proof {
                        lemma_find_first(line@, colon_sp());
                    }
                    let line_len = line.unicode_len();
                    let k = line.substring_char(0, j);
                    let v = line.substring_char(j + 2, line_len);
                    headers.insert(k, v);
                    proof {
                        assert(k@ =~= line@.subrange(0, j as int));
                        assert(v@ =~= line@.subrange(j + 2, line@.len() as int));
                        assert(headers@ == header_step(pre, lv[i as int]));
                    }
                },
                None => {
                    proof {
                        assert(headers@ == header_step(pre, lv[i as int]));
                    }
                },
            }
            proof {
                assert(collect_headers(lv, i as int, pre) == collect_headers(
                    lv,
                    i + 1,
                    headers@,
                ));
            }
            i += 1;
        }
        let body = lines[lines.len() - 1].clone();
        proof {
            assert(body@ == lv[lv.len() - 1]);
        }
        Ok(Request { method, path, headers, body })
    }

    /// Decodes a raw buffer. Bytes that are not valid UTF-8 make the request
    /// malformed.
    pub fn parse_from_utf8(data: &[u8]) -> (r: Result<Request, MalformedRequest>)
        ensures
            r is Ok <==> (vstd::utf8::valid_utf8(data@) && spec_parse(
                vstd::utf8::decode_utf8(data@),
            ) is Some),
            r is Ok ==> r.unwrap()@ == spec_parse(vstd::utf8::decode_utf8(data@)).unwrap(),
    {
        match utf8_to_string(data) {
            Some(s) => Request::parse(s),
            None => Err(MalformedRequest),
        }
    }
}

/// Relies on `String::from_utf8`: it succeeds exactly when the bytes are
/// valid UTF-8, and the returned string holds the characters they encode.
#[verifier::external_body]
fn utf8_to_string(data: &[u8]) -> (r: Option<String>)
    ensures
        r is Some <==> vstd::utf8::valid_utf8(data@),
        r is Some ==> r.unwrap()@ == vstd::utf8::decode_utf8(data@),
{
    String::from_utf8(data.to_vec()).ok()
}

} // verus!
