//! The response encoder: turns a structured response into the exact HTTP/1.1
//! wire bytes. The status line is `HTTP/1.1 <code> <reason>\r\n` with reason
//! "OK" for code 200 and a single space otherwise; headers follow in
//! insertion order, one `Name: Value\r\n` each; a blank line closes the head;
//! a body, when present, follows with a trailing `\r\n`.

use vstd::prelude::*;

use crate::headers::{hinsert, Headers};
use crate::strutil::{dec_chars, dec_string};
use vstd::slice::slice_to_vec;
use vstd::utf8::encode_utf8;

verus! {

/// A value that can serve as a response body.
pub trait ToBytes {
    /// The bytes this value contributes to the wire.
    spec fn bytes_view(&self) -> Seq<u8>;

    fn as_bytes(&self) -> (r: &[u8])
        ensures
            r@ == self.bytes_view(),
    ;
}

impl ToBytes for String {
    open spec fn bytes_view(&self) -> Seq<u8> {
        encode_utf8(self@)
    }

    fn as_bytes(&self) -> (r: &[u8]) {
        self.as_str().as_bytes()
    }
}

impl ToBytes for &str {
    open spec fn bytes_view(&self) -> Seq<u8> {
        encode_utf8(self@)
    }

    fn as_bytes(&self) -> (r: &[u8]) {
        (*self).as_bytes()
    }
}

/// The mathematical content of a response.
pub struct ResponseModel {
    pub code: u16,
    pub data: Option<Seq<u8>>,
    pub headers: Seq<(Seq<char>, Seq<char>)>,
}

/// A response with no body and no headers.
pub open spec fn empty_response(code: u16) -> ResponseModel {
    ResponseModel { code, data: None, headers: Seq::empty() }
}

/// A response carrying `body` as plain text: Content-Type and Content-Length
/// are set, in that order.
pub open spec fn text_response(code: u16, body: Seq<u8>) -> ResponseModel {
    ResponseModel {
        code,
        data: Some(body),
        headers: seq![
            ("Content-Type"@, "text/plain"@),
            ("Content-Length"@, dec_chars(body.len() as int)),
        ],
    }
}

/// One serialized header: `Name: Value\r\n`.
pub open spec fn header_line_bytes(e: (Seq<char>, Seq<char>)) -> Seq<u8> {
    encode_utf8(e.0) + encode_utf8(": "@) + encode_utf8(e.1) + encode_utf8("\r\n"@)
}

/// The serialized header block, in insertion order.
pub open spec fn header_block_bytes(hs: Seq<(Seq<char>, Seq<char>)>) -> Seq<u8>
    decreases hs.len(),
{
    if hs.len() == 0 {
        Seq::empty()
    } else {
        header_block_bytes(hs.drop_last()) + header_line_bytes(hs.last())
    }
}

/// The serialized status line: `HTTP/1.1 <code> <reason>\r\n`, where the
/// reason is "OK" for 200 and a single space for every other code.
pub open spec fn status_line_bytes(code: u16) -> Seq<u8> {
    encode_utf8("HTTP/1.1 "@) + encode_utf8(dec_chars(code as int)) + encode_utf8(" "@) + (if code
        == 200 {
        encode_utf8("OK"@)
    } else {
        encode_utf8(" "@)
    }) + encode_utf8("\r\n"@)
}

/// The full wire encoding: status line, header block, a blank line, and the
/// body (if any) followed by a closing `\r\n`.
pub open spec fn spec_encode(r: ResponseModel) -> Seq<u8> {
    status_line_bytes(r.code) + header_block_bytes(r.headers) + encode_utf8("\r\n"@) + (
    match r.data {
        Some(b) => b + encode_utf8("\r\n"@),
        None => Seq::empty(),
    })
}

/// A response under construction: status code, optional body bytes, headers.
pub struct Response {
    code: u16,
    data: Option<Vec<u8>>,
    headers: Headers,
}

impl View for Response {
    type V = ResponseModel;

    closed spec fn view(&self) -> ResponseModel {
        ResponseModel {
            code: self.code,
            data: match self.data {
                Some(b) => Some(b@),
                None => None,
            },
            headers: self.headers@,
        }
    }
}

impl Response {
    /// A response carrying `data` as its body, with Content-Type and
    /// Content-Length set.
    pub fn new<T: ToBytes>(code: u16, data: T) -> (r: Response)
        ensures
            r@ == text_response(code, data.bytes_view()),
    {
        let bytes = slice_to_vec(data.as_bytes());
        let len_str = dec_string(bytes.len() as u64);
        let mut headers = Headers::new();
        headers.insert("Content-Type", "text/plain");
        headers.insert("Content-Length", len_str.as_str());
        proof {
            reveal_strlit("Content-Type");
            reveal_strlit("Content-Length");
            let ct = "Content-Type"@;
            let tp = "text/plain"@;
            let cl = "Content-Length"@;
            let lv = len_str@;
            assert(ct.len() == 12);
            assert(cl.len() == 14);
            assert(ct != cl);
            let h1 = hinsert(Seq::empty(), ct, tp);
            assert(h1 =~= seq![(ct, tp)]);
            assert(h1[0].0 == ct);
            assert(h1.drop_first() =~= Seq::<(Seq<char>, Seq<char>)>::empty());
            assert(hinsert(h1.drop_first(), cl, lv) =~= seq![(cl, lv)]);
            assert(hinsert(h1, cl, lv) =~= seq![(ct, tp), (cl, lv)]);
            assert(headers@ =~= text_response(code, data.bytes_view()).headers);
        }
        Response { code, data: Some(bytes), headers }
    }

    /// A response with no body and no headers.
    pub fn empty(code: u16) -> (r: Response)
        ensures
            r@ == empty_response(code),
    {
        Response { code, data: None, headers: Headers::new() }
    }

    /// `self` with `val` bound to the header `key`.
    pub fn add_header(self, key: &str, val: &str) -> (r: Response)
        ensures
            r@.code == self@.code,
            r@.data == self@.data,
            r@.headers == hinsert(self@.headers, key@, val@),
    {
        let Response { code, data, headers } = self;
        let mut headers = headers;
        headers.insert(key, val);
        Response { code, data, headers }
    }

    /// Binds `val` to the header `key` in place.
    pub fn add_headers(&mut self, key: &str, val: &str)
        ensures
            final(self)@.code == old(self)@.code,
            final(self)@.data == old(self)@.data,
            final(self)@.headers == hinsert(old(self)@.headers, key@, val@),
    {
        self.headers.insert(key, val);
    }

    /// Appends the serialized header block and the blank line that closes
    /// the head.
    pub fn write_headers(&self, out: &mut Vec<u8>)
        ensures
            final(out)@ == old(out)@ + header_block_bytes(self@.headers) + encode_utf8("\r\n"@),
    {
        let n = self.headers.len();
        let mut i: usize = 0;
        while i < n
            invariant
                i <= n,
                n == self@.headers.len(),
                out@ == old(out)@ + header_block_bytes(self@.headers.take(i as int)),
            decreases n - i,
        {
            let e = self.headers.entry_at(i);
            let ghost hs = self@.headers;
            out.extend_from_slice(e.0.as_str().as_bytes());
            out.extend_from_slice(": ".as_bytes());
            out.extend_from_slice(e.1.as_str().as_bytes());
            out.extend_from_slice("\r\n".as_bytes());
            proof {
                assert(hs.take(i + 1).drop_last() =~= hs.take(i as int));
                assert(hs.take(i + 1).last() == hs[i as int]);
                assert(out@ =~= old(out)@ + header_block_bytes(hs.take(i + 1)));
            }
            i += 1;
        }
        proof {
            assert(self@.headers.take(n as int) =~= self@.headers);
        }
        out.extend_from_slice("\r\n".as_bytes());
    }

    /// The exact wire bytes of this response.
    pub fn encode(&self) -> (r: Vec<u8>)
        ensures
            r@ == spec_encode(self@),
    {
        let mut out: Vec<u8> = Vec::new();
        out.extend_from_slice("HTTP/1.1 ".as_bytes());
        let code_str = dec_string(self.code as u64);
        out.extend_from_slice(code_str.as_str().as_bytes());
        out.extend_from_slice(" ".as_bytes());
        if self.code == 200 {
            out.extend_from_slice("OK".as_bytes());
        } else {
            out.extend_from_slice(" ".as_bytes());
        }
        out.extend_from_slice("\r\n".as_bytes());
        proof {
            assert(out@ =~= status_line_bytes(self@.code));
        }
        self.write_headers(&mut out);
        match &self.data {
            Some(b) => {
                out.extend_from_slice(b.as_slice());
                out.extend_from_slice("\r\n".as_bytes());
            },
            None => {},
        }
        proof {
            assert(out@ =~= spec_encode(self@));
        }
        out
    }
}

} // verus!
