//! Laws relating the decoder, the route table and the encoder across
//! function boundaries.

use vstd::prelude::*;

use crate::headers::{hlookup, lemma_hlookup_hinsert_other, lemma_hlookup_hinsert_same};
use crate::request::{collect_headers, colon_sp, crlf, header_step, spec_parse};
use crate::response::{spec_encode, text_response};
use crate::strutil::{find_first, is_prefix_of, split_on, strip_nul};
use vstd::utf8::{decode_utf8, encode_utf8, valid_utf8};

verus! {

/// A name already bound in `acc` stays bound (possibly to a newer value)
/// after folding in any further header lines.
proof fn lemma_collect_headers_keeps_names(
    lines: Seq<Seq<char>>,
    t: int,
    acc: Seq<(Seq<char>, Seq<char>)>,
    k: Seq<char>,
)
    requires
        hlookup(acc, k) is Some,
    ensures
        hlookup(collect_headers(lines, t, acc), k) is Some,
    decreases lines.len() - t,
{
    if t < 0 || t >= lines.len() || lines[t].len() == 0 {
    } else {
        let stepped = header_step(acc, lines[t]);
        let j = find_first(lines[t], colon_sp());
        if j >= 0 {
            let key = lines[t].subrange(0, j);
            if key == k {
                lemma_hlookup_hinsert_same(acc, key, lines[t].subrange(j + 2, lines[t].len() as int));
            } else {
                lemma_hlookup_hinsert_other(
                    acc,
                    key,
                    lines[t].subrange(j + 2, lines[t].len() as int),
                    k,
                );
            }
        }
        lemma_collect_headers_keeps_names(lines, t + 1, stepped, k);
    }
}

/// Folding in lines `t..` binds the name of every syntactically valid header
/// line among them that stands before the first blank line.
proof fn lemma_collect_headers_binds_line(
    lines: Seq<Seq<char>>,
    t: int,
    acc: Seq<(Seq<char>, Seq<char>)>,
    i: int,
)
    requires
        0 <= t <= i < lines.len(),
        forall|u: int| t <= u <= i ==> #[trigger] lines[u].len() != 0,
        find_first(lines[i], colon_sp()) >= 0,
    ensures
        hlookup(collect_headers(lines, t, acc), lines[i].subrange(0, find_first(lines[i], colon_sp())))
            is Some,
    decreases i - t,
{
    let stepped = header_step(acc, lines[t]);
    assert(lines[t].len() != 0);
    assert(collect_headers(lines, t, acc) == collect_headers(lines, t + 1, stepped));
    if t == i {
        let j = find_first(lines[i], colon_sp());
        let key = lines[i].subrange(0, j);
        lemma_hlookup_hinsert_same(acc, key, lines[i].subrange(j + 2, lines[i].len() as int));
        assert(hlookup(stepped, key) is Some);
        lemma_collect_headers_keeps_names(lines, t + 1, stepped, key);
    } else {
        lemma_collect_headers_binds_line(lines, t + 1, stepped, i);
    }
}

/// Decoding collects every header: in a decoded request, every line between
/// the request line and the first blank line that carries a ": " separator
/// has its name bound in the request's header map.
pub proof fn lemma_parse_collects_headers(data: Seq<char>, i: int)
    requires
        spec_parse(data) is Some,
        1 <= i < split_on(strip_nul(data), crlf()).len(),
        forall|u: int|
            1 <= u <= i ==> #[trigger] split_on(strip_nul(data), crlf())[u].len() != 0,
        find_first(split_on(strip_nul(data), crlf())[i], colon_sp()) >= 0,
    ensures
        hlookup(
            spec_parse(data).unwrap().headers,
            split_on(strip_nul(data), crlf())[i].subrange(
                0,
                find_first(split_on(strip_nul(data), crlf())[i], colon_sp()),
            ),
        ) is Some,
{
    let lines = split_on(strip_nul(data), crlf());
    lemma_collect_headers_binds_line(lines, 1, Seq::empty(), i);
}

/// What one full exchange against the echo route yields from a raw buffer:
/// decode, strip the "/echo/" prefix into a 200 text reply, and encode. The
/// result is a function of the buffer alone.
pub open spec fn spec_echo_exchange(bytes: Seq<u8>) -> Option<Seq<u8>> {
    if !valid_utf8(bytes) {
        None
    } else {
        let parsed = spec_parse(decode_utf8(bytes));
        if parsed is None {
            None
        } else if !is_prefix_of("/echo/"@, parsed.unwrap().path) {
            None
        } else {
            Some(
                spec_encode(text_response(200, encode_utf8(parsed.unwrap().path.skip(6)))),
            )
        }
    }
}

/// Decoding then re-encoding an echo exchange is stable across repeated
/// calls: each stage's contract pins its result to a function of its input,
/// so two runs over the same buffer produce identical wire bytes.
pub proof fn lemma_echo_exchange_stable(bytes: Seq<u8>, b1: Seq<u8>, b2: Seq<u8>)
    requires
        spec_echo_exchange(bytes) == Some(b1),
        spec_echo_exchange(bytes) == Some(b2),
    ensures
        b1 == b2,
{
}

} // verus!
