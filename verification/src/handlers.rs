//! The default 404/405 handlers and the example handlers: an empty reply, an
//! echo of the path's tail, the User-Agent header echoed back, and the
//! decision half of a file-serving route (the filesystem work itself belongs
//! to the application layer).

use vstd::prelude::*;

use crate::headers::hlookup;
use crate::request::Request;
use crate::response::{empty_response, text_response, Response, ResponseModel};
use crate::strutil::{dec_chars, is_prefix_of, str_eq};
use vstd::utf8::encode_utf8;

verus! {

/// The default reply when no route matches: status 404, no body.
pub fn default_not_found_handler(_req: &Request) -> (r: Response)
    ensures
        r@ == empty_response(404),
{
    Response::empty(404)
}

/// The default reply when a route matches but disallows the method: status
/// 405, no body.
pub fn default_method_not_allowed_handler(_req: &Request) -> (r: Response)
    ensures
        r@ == empty_response(405),
{
    Response::empty(405)
}

/// Replies 200 with no body.
pub fn base_handler(_req: &Request) -> (r: Response)
    ensures
        r@ == empty_response(200),
{
    Response::empty(200)
}

/// Echoes back whatever follows "/echo/" in the path, as a 200 text reply.
pub fn echo_handler(req: &Request) -> (r: Response)
    requires
        is_prefix_of("/echo/"@, req@.path),
    ensures
        r@ == text_response(200, encode_utf8(req@.path.skip(6))),
{
    proof {
        reveal_strlit("/echo/");
    }
    let path = req.path.as_str();
    let n = path.unicode_len();
    let tail = path.substring_char(6, n).to_owned();
    proof {
        assert(tail@ =~= req@.path.skip(6));
    }
    Response::new(200, tail)
}

/// Echoes the request's User-Agent header back, as a 200 text reply.
pub fn user_agent_handler(req: &Request) -> (r: Response)
    requires
        hlookup(req@.headers, "User-Agent"@) is Some,
    ensures
        r@ == text_response(200, encode_utf8(hlookup(req@.headers, "User-Agent"@).unwrap())),
{
    match req.headers.get("User-Agent") {
        Some(agent) => {
            let a = agent.clone();
            Response::new(200, a)
        },
        None => {
            proof {
                assert(false);
            }
            Response::empty(500)
        },
    }
}

/// A file-serving response: `body` carries Content-Length and an
/// octet-stream Content-Type.
pub open spec fn octet_response(body: Seq<u8>) -> ResponseModel {
    ResponseModel {
        code: 200,
        data: Some(body),
        headers: seq![
            ("Content-Type"@, "application/octet-stream"@),
            ("Content-Length"@, dec_chars(body.len() as int)),
        ],
    }
}

/// The decision half of the file route. The application layer performs the
/// filesystem work: on a POST it writes the request body to the target file,
/// and on any other method it hands the file's contents here, or `None` when
/// the file could not be read.
pub fn files_response(req: &Request, contents: Option<String>) -> (r: Response)
    ensures
        req@.method == "POST"@ ==> r@ == empty_response(201),
        req@.method != "POST"@ && contents is None ==> r@ == empty_response(404),
        (req@.method != "POST"@ && contents is Some) ==> r@ == octet_response(
            encode_utf8(contents.unwrap()@),
        ),
{
    if str_eq(req.method.as_str(), "POST") {
        Response::empty(201)
    } else {
        match contents {
            None => Response::empty(404),
            Some(c) => {
                let ghost body = encode_utf8(c@);
                let r = Response::new(200, c).add_header("Content-Type", "application/octet-stream");
                proof {
                    let hs = text_response(200, body).headers;
                    assert(hs[0].0 == "Content-Type"@);
                    assert(r@.headers =~= octet_response(body).headers);
                }
                r
            },
        }
    }
}

} // verus!
