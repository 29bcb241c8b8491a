//! Character-sequence utilities shared by the request decoder and the route
//! table: substring search, splitting on a separator, prefix tests, NUL
//! stripping, and decimal rendering of integers.

use vstd::prelude::*;

verus! {

/// `sep` occurs in `s` at position `i`.
pub open spec fn occurs_at(s: Seq<char>, sep: Seq<char>, i: int) -> bool {
    0 <= i && i + sep.len() <= s.len() && s.subrange(i, i + sep.len() as int) == sep
}

/// Index of the first occurrence of `sep` in `s`, or -1 when there is none
/// (an empty separator counts as never occurring).
pub open spec fn find_first(s: Seq<char>, sep: Seq<char>) -> int
    decreases s.len(),
{
    if sep.len() == 0 || s.len() < sep.len() {
        -1
    } else if s.subrange(0, sep.len() as int) == sep {
        0
    } else {
        let r = find_first(s.skip(1), sep);
        if r < 0 {
            -1
        } else {
            r + 1
        }
    }
}

/// `find_first` returns the least position at which `sep` occurs, or -1 when
/// `sep` occurs nowhere in `s`.
pub proof fn lemma_find_first(s: Seq<char>, sep: Seq<char>)
    requires
        1 <= sep.len(),
    ensures
        find_first(s, sep) >= 0 ==> occurs_at(s, sep, find_first(s, sep)),
        forall|i: int| 0 <= i < find_first(s, sep) ==> !occurs_at(s, sep, i),
        find_first(s, sep) == -1 ==> forall|i: int| !occurs_at(s, sep, i),
    decreases s.len(),
{
    if s.len() < sep.len() {
        assert(forall|i: int| !occurs_at(s, sep, i));
    } else if s.subrange(0, sep.len() as int) == sep {
    } else {
        lemma_find_first(s.skip(1), sep);
        assert forall|i: int| 1 <= i implies occurs_at(s, sep, i) == occurs_at(
            s.skip(1),
            sep,
            i - 1,
        ) by {
            if i + sep.len() <= s.len() {
                assert(s.skip(1).subrange(i - 1, i - 1 + sep.len()) =~= s.subrange(
                    i,
                    i + sep.len(),
                ));
            }
        }
        assert(!occurs_at(s, sep, 0));
    }
}

/// The segments of `s` between occurrences of `sep`, in order. A sequence
/// with no occurrence of the separator splits into itself alone, so the
/// result always has at least one segment.
pub open spec fn split_on(s: Seq<char>, sep: Seq<char>) -> Seq<Seq<char>>
    decreases s.len(),
{
    let i = find_first(s, sep);
    if 0 <= i && 1 <= sep.len() && i + sep.len() <= s.len() {
        seq![s.subrange(0, i)] + split_on(s.skip(i + sep.len()), sep)
    } else {
        seq![s]
    }
}

/// `p` is a literal prefix of `s`.
pub open spec fn is_prefix_of(p: Seq<char>, s: Seq<char>) -> bool {
    p.len() <= s.len() && s.subrange(0, p.len() as int) == p
}

/// `s` with every NUL character removed.
pub open spec fn strip_nul(s: Seq<char>) -> Seq<char>
    decreases s.len(),
{
    if s.len() == 0 {
        Seq::empty()
    } else if s.last() == '\0' {
        strip_nul(s.drop_last())
    } else {
        strip_nul(s.drop_last()).push(s.last())
    }
}

/// The decimal digits of `n`, most significant first (so `dec_chars(0)` is
/// the single character '0').
pub open spec fn dec_chars(n: int) -> Seq<char>
    decreases n,
{
    if n < 10 {
        seq![digit_char(n)]
    } else {
        dec_chars(n / 10).push(digit_char(n % 10))
    }
}

pub open spec fn digit_char(d: int) -> char {
    if d == 0 {
        '0'
    } else if d == 1 {
        '1'
    } else if d == 2 {
        '2'
    } else if d == 3 {
        '3'
    } else if d == 4 {
        '4'
    } else if d == 5 {
        '5'
    } else if d == 6 {
        '6'
    } else if d == 7 {
        '7'
    } else if d == 8 {
        '8'
    } else {
        '9'
    }
}

/// Whether `sep` occurs in `s` at position `i`, decided character by
/// character.
pub(crate) fn occurs_at_exec(s: &str, sep: &str, i: usize) -> (r: bool)
    requires
        i + sep@.len() <= s@.len(),
    ensures
        r == occurs_at(s@, sep@, i as int),
{
    let s_len = s.unicode_len();
    let sep_len = sep.unicode_len();
    let mut j: usize = 0;
    while j < sep_len
        invariant
            j <= sep_len,
            sep_len == sep@.len(),
            s_len == s@.len(),
            i + sep@.len() <= s@.len(),
            forall|k: int| 0 <= k < j ==> s@[i + k] == sep@[k],
        decreases sep_len - j,
    {
        if s.get_char(i + j) != sep.get_char(j) {
            proof {
                let sub = s@.subrange(i as int, i + sep@.len() as int);
                assert(sub[j as int] == s@[i + j]);
            }
            return false;
        }
        j += 1;
    }
    proof {
        assert(s@.subrange(i as int, i + sep@.len() as int) =~= sep@);
    }
    true
}

/// The position of the first occurrence of `sep` in `s`, if any.
pub(crate) fn find_in(s: &str, sep: &str) -> (r: Option<usize>)
    requires
        1 <= sep@.len(),
    ensures
        match r {
            Some(i) => find_first(s@, sep@) == i as int,
            None => find_first(s@, sep@) == -1,
        },
{
    proof {
        lemma_find_first(s@, sep@);
    }
    let s_len = s.unicode_len();
    let sep_len = sep.unicode_len();
    if sep_len > s_len {
        return None;
    }
    let mut i: usize = 0;
    while i <= s_len - sep_len
        invariant
            s_len == s@.len(),
            sep_len == sep@.len(),
            1 <= sep_len <= s_len,
            i <= s_len - sep_len + 1,
            forall|k: int| 0 <= k < i ==> !occurs_at(s@, sep@, k),
        decreases s_len - i,
    {
        if occurs_at_exec(s, sep, i) {
            proof {
                lemma_find_first(s@, sep@);
            }
            return Some(i);
        }
        i += 1;
    }
    proof {
        assert(forall|k: int| !occurs_at(s@, sep@, k));
        lemma_find_first(s@, sep@);
    }
    None
}

/// String equality on views.
pub(crate) fn str_eq(a: &str, b: &str) -> (r: bool)
    ensures
        r == (a@ == b@),
{
    let x = a.to_owned();
    let y = b.to_owned();
    x == y
}

/// Whether `p` is a literal prefix of `s`.
pub(crate) fn starts_with_str(s: &str, p: &str) -> (r: bool)
    ensures
        r == is_prefix_of(p@, s@),
{
    let p_len = p.unicode_len();
    let s_len = s.unicode_len();
    if p_len > s_len {
        false
    } else if p_len == 0 {
        proof {
            assert(s@.subrange(0, 0) =~= p@);
        }
        true
    } else {
        occurs_at_exec(s, p, 0)
    }
}

/// Splits `s` at every occurrence of `sep`.
pub(crate) fn split_str(s: &str, sep: &str) -> (r: Vec<String>)
    requires
        1 <= sep@.len(),
    ensures
        r.deep_view() == split_on(s@, sep@),
    decreases s@.len(),
{
    match find_in(s, sep) {
        None => {
            let mut v: Vec<String> = Vec::new();
            v.push(s.to_owned());
            proof {
                assert(v.deep_view() =~= split_on(s@, sep@));
            }
            v
        },
        Some(i) => {
            proof {
                lemma_find_first(s@, sep@);
            }
            let sep_len = sep.unicode_len();
            let s_len = s.unicode_len();
            let head = s.substring_char(0, i).to_owned();
            let rest = s.substring_char(i + sep_len, s_len);
            let mut v = split_str(rest, sep);
            let ghost tail = v@;
            let ghost tail_views = v.deep_view();
            v.insert(0, head);
            proof {
                let full = split_on(s@, sep@);
                assert(rest@ =~= s@.skip(i + sep@.len()));
                tail.insert_ensures(0, head);
                assert forall|k: int| 0 <= k < v.deep_view().len() implies v.deep_view()[k]
                    == full[k] by {
                    if k == 0 {
                        assert(v@[0] == head);
                    } else {
                        assert(v@[k] == tail[k - 1]);
                        assert(v.deep_view()[k] == tail_views[k - 1]);
                    }
                }
                assert(v.deep_view() =~= full);
            }
            v
        },
    }
}

/// `s` with every NUL character removed.
pub(crate) fn strip_nul_str(s: &str) -> (r: String)
    ensures
        r@ == strip_nul(s@),
{
    let len = s.unicode_len();
    let mut out = String::new();
    let mut i: usize = 0;
    while i < len
        invariant
            i <= len,
            len == s@.len(),
            out@ == strip_nul(s@.take(i as int)),
        decreases len - i,
    {
        let c = s.get_char(i);
        proof {
            assert(s@.take(i + 1).drop_last() =~= s@.take(i as int));
            assert(s@.take(i + 1).last() == s@[i as int]);
        }
        if c != '\0' {
            let piece = s.substring_char(i, i + 1);
            out.append(piece);
            proof {
                assert(piece@ =~= seq![s@[i as int]]);
                assert(out@ =~= strip_nul(s@.take(i as int)).push(s@[i as int]));
            }
        }
        i += 1;
    }
    proof {
        assert(s@.take(len as int) =~= s@);
    }
    out
}

/// The decimal rendering of `n`.
pub(crate) fn dec_string(n: u64) -> (r: String)
    ensures
        r@ == dec_chars(n as int),
    decreases n,
{
    let digits = "0123456789";
    proof {
        reveal_strlit("0123456789");
    }
    let d = (n % 10) as usize;
    let piece = digits.substring_char(d, d + 1);
    proof {
        assert(piece@ =~= seq![digit_char(n as int % 10)]);
    }
    if n < 10 {
        piece.to_owned()
    } else {
        let mut prefix = dec_string(n / 10);
        prefix.append(piece);
        proof {
            assert(prefix@ =~= dec_chars(n as int / 10).push(digit_char(n as int % 10)));
        }
        prefix
    }
}

} // verus!
