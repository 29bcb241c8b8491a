//! A minimal HTTP/1.1 server core: request decoding from raw bytes, ordered
//! route matching with prefix wildcards, and response serialization to exact
//! wire bytes. Transport (TCP accept loop, per-connection threads) is left to
//! the embedding application.

mod handlers;
mod headers;
mod laws;
mod request;
mod response;
mod router;
mod strutil;

pub use handlers::base_handler;
pub use handlers::default_method_not_allowed_handler;
pub use handlers::default_not_found_handler;
pub use handlers::echo_handler;
pub use handlers::files_response;
pub use handlers::octet_response;
pub use handlers::user_agent_handler;

pub use headers::hinsert;
pub use headers::hlookup;
pub use headers::lemma_hlookup_hinsert_other;
pub use headers::lemma_hlookup_hinsert_same;
pub use headers::Headers;

pub use laws::lemma_echo_exchange_stable;
pub use laws::lemma_parse_collects_headers;
pub use laws::spec_echo_exchange;

pub use request::collect_headers;
pub use request::colon_sp;
pub use request::crlf;
pub use request::header_step;
pub use request::sp;
pub use request::spec_parse;
pub use request::MalformedRequest;
pub use request::Request;
pub use request::RequestModel;

pub use response::empty_response;
pub use response::header_block_bytes;
pub use response::header_line_bytes;
pub use response::spec_encode;
pub use response::status_line_bytes;
pub use response::text_response;
pub use response::Response;
pub use response::ResponseModel;
pub use response::ToBytes;

pub use router::contains_method;
pub use router::ends_with_marker;
pub use router::first_match;
pub use router::lemma_first_match;
pub use router::marker_at;
pub use router::pattern_matches;
pub use router::valid_pattern;
pub use router::wf_pattern;
pub use router::Handler;
pub use router::RouteModel;
pub use router::Router;

pub use strutil::dec_chars;
pub use strutil::digit_char;
pub use strutil::find_first;
pub use strutil::is_prefix_of;
pub use strutil::lemma_find_first;
pub use strutil::occurs_at;
pub use strutil::split_on;
pub use strutil::strip_nul;
