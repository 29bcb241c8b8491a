//! Ordered header maps. Headers keep their insertion order (the wire format
//! serializes them in order), writing to an existing name replaces its value
//! in place, and lookup finds the first entry with the given name.

use vstd::prelude::*;

use crate::strutil::str_eq;

verus! {

/// `hs` with `v` bound to `k`: the first entry named `k` is replaced in
/// place, or a new entry is appended when none exists.
pub open spec fn hinsert(
    hs: Seq<(Seq<char>, Seq<char>)>,
    k: Seq<char>,
    v: Seq<char>,
) -> Seq<(Seq<char>, Seq<char>)>
    decreases hs.len(),
{
    if hs.len() == 0 {
        seq![(k, v)]
    } else if hs[0].0 == k {
        seq![(k, v)] + hs.drop_first()
    } else {
        seq![hs[0]] + hinsert(hs.drop_first(), k, v)
    }
}

/// The value bound to `k` in `hs`, if any.
pub open spec fn hlookup(hs: Seq<(Seq<char>, Seq<char>)>, k: Seq<char>) -> Option<Seq<char>>
    decreases hs.len(),
{
    if hs.len() == 0 {
        None
    } else if hs[0].0 == k {
        Some(hs[0].1)
    } else {
        hlookup(hs.drop_first(), k)
    }
}

/// Looking a name up right after writing it yields the written value.
pub proof fn lemma_hlookup_hinsert_same(hs: Seq<(Seq<char>, Seq<char>)>, k: Seq<char>, v: Seq<char>)
    ensures
        hlookup(hinsert(hs, k, v), k) == Some(v),
    decreases hs.len(),
{
    if hs.len() == 0 {
    } else if hs[0].0 == k {
    } else {
        lemma_hlookup_hinsert_same(hs.drop_first(), k, v);
        assert(hinsert(hs, k, v).drop_first() =~= hinsert(hs.drop_first(), k, v));
    }
}

/// Writing one name leaves every other name's binding unchanged.
pub proof fn lemma_hlookup_hinsert_other(
    hs: Seq<(Seq<char>, Seq<char>)>,
    k: Seq<char>,
    v: Seq<char>,
    k2: Seq<char>,
)
    requires
        k2 != k,
    ensures
        hlookup(hinsert(hs, k, v), k2) == hlookup(hs, k2),
    decreases hs.len(),
{
    if hs.len() == 0 {
        let e = hinsert(hs, k, v);
        assert(e[0] == (k, v));
        assert(e.drop_first() =~= Seq::<(Seq<char>, Seq<char>)>::empty());
        assert(hlookup(e, k2) == hlookup(e.drop_first(), k2));
        assert(hlookup(e.drop_first(), k2) is None);
    } else if hs[0].0 == k {
        let e = hinsert(hs, k, v);
        assert(e[0] == (k, v));
        assert(e.drop_first() =~= hs.drop_first());
        assert(hlookup(e, k2) == hlookup(e.drop_first(), k2));
        assert(hlookup(hs, k2) == hlookup(hs.drop_first(), k2));
    } else {
        lemma_hlookup_hinsert_other(hs.drop_first(), k, v, k2);
        let e = hinsert(hs, k, v);
        assert(e[0] == hs[0]);
        assert(e.drop_first() =~= hinsert(hs.drop_first(), k, v));
        if hs[0].0 == k2 {
            assert(hlookup(e, k2) == Some(e[0].1));
            assert(hlookup(hs, k2) == Some(hs[0].1));
        } else {
            assert(hlookup(e, k2) == hlookup(e.drop_first(), k2));
            assert(hlookup(hs, k2) == hlookup(hs.drop_first(), k2));
        }
    }
}

/// When the first entry named `k` sits at `i`, writing `k` updates `hs` at
/// `i` and nothing else.
proof fn lemma_hinsert_is_update(
    hs: Seq<(Seq<char>, Seq<char>)>,
    k: Seq<char>,
    v: Seq<char>,
    i: int,
)
    requires
        0 <= i < hs.len(),
        hs[i].0 == k,
        forall|j: int| 0 <= j < i ==> hs[j].0 != k,
    ensures
        hinsert(hs, k, v) == hs.update(i, (k, v)),
    decreases hs.len(),
{
    if i == 0 {
        assert(hinsert(hs, k, v) =~= hs.update(0, (k, v)));
    } else {
        lemma_hinsert_is_update(hs.drop_first(), k, v, i - 1);
        assert(hinsert(hs, k, v) =~= hs.update(i, (k, v)));
    }
}

/// When no entry is named `k`, writing `k` appends an entry.
proof fn lemma_hinsert_is_push(hs: Seq<(Seq<char>, Seq<char>)>, k: Seq<char>, v: Seq<char>)
    requires
        forall|j: int| 0 <= j < hs.len() ==> hs[j].0 != k,
    ensures
        hinsert(hs, k, v) == hs.push((k, v)),
    decreases hs.len(),
{
    if hs.len() == 0 {
        assert(hinsert(hs, k, v) =~= hs.push((k, v)));
    } else {
        lemma_hinsert_is_push(hs.drop_first(), k, v);
        assert(hinsert(hs, k, v) =~= hs.push((k, v)));
    }
}

/// A mapping from header names to values that remembers insertion order.
#[derive(Debug)]
pub struct Headers {
    entries: Vec<(String, String)>,
}

impl View for Headers {
    type V = Seq<(Seq<char>, Seq<char>)>;

    closed spec fn view(&self) -> Seq<(Seq<char>, Seq<char>)> {
        self.entries.deep_view()
    }
}

impl Headers {
    pub fn new() -> (r: Headers)
        ensures
            r@ == Seq::<(Seq<char>, Seq<char>)>::empty(),
    {
        let h = Headers { entries: Vec::new() };
        proof {
            assert(h@ =~= Seq::<(Seq<char>, Seq<char>)>::empty());
        }
        h
    }

    pub fn len(&self) -> (r: usize)
        ensures
            r == self@.len(),
    {
        self.entries.len()
    }

    pub fn entry_at(&self, i: usize) -> (r: &(String, String))
        requires
            i < self@.len(),
        ensures
            (r.0@, r.1@) == self@[i as int],
    {
        &self.entries[i]
    }

    /// Binds `val` to `key`, replacing the value of an entry already named
    /// `key` in place, or appending a new entry.
    pub fn insert(&mut self, key: &str, val: &str)
        ensures
            final(self)@ == hinsert(old(self)@, key@, val@),
    {
        let n = self.entries.len();
        let mut i: usize = 0;
        while i < n
            invariant
                i <= n,
                n == self.entries.len(),
                self == old(self),
                forall|j: int| 0 <= j < i ==> self@[j].0 != key@,
            decreases n - i,
        {
            if str_eq(self.entries[i].0.as_str(), key) {
                let ghost pre = self@;
                self.entries.set(i, (key.to_owned(), val.to_owned()));
                proof {
                    assert(self@ =~= pre.update(i as int, (key@, val@)));
                    lemma_hinsert_is_update(pre, key@, val@, i as int);
                }
                return ;
            }
            i += 1;
        }
        let ghost pre = self@;
        self.entries.push((key.to_owned(), val.to_owned()));
        proof {
            assert(self@ =~= pre.push((key@, val@)));
            lemma_hinsert_is_push(pre, key@, val@);
        }
    }

    /// The value of the first entry named `key`, if any.
    pub fn get(&self, key: &str) -> (r: Option<&String>)
        ensures
            match r {
                Some(v) => hlookup(self@, key@) == Some(v@),
                None => hlookup(self@, key@) is None,
            },
    {
        let n = self.entries.len();
        let mut i: usize = 0;
        while i < n
            invariant
                i <= n,
                n == self.entries.len(),
                forall|j: int| 0 <= j < i ==> self@[j].0 != key@,
            decreases n - i,
        {
            if str_eq(self.entries[i].0.as_str(), key) {
                proof {
                    lemma_hlookup_first(self@, key@, i as int);
                }
                return Some(&self.entries[i].1);
            }
            i += 1;
        }
        proof {
            lemma_hlookup_absent(self@, key@);
        }
        None
    }
}

/// When the first entry named `k` sits at `i`, lookup returns its value.
proof fn lemma_hlookup_first(hs: Seq<(Seq<char>, Seq<char>)>, k: Seq<char>, i: int)
    requires
        0 <= i < hs.len(),
        hs[i].0 == k,
        forall|j: int| 0 <= j < i ==> hs[j].0 != k,
    ensures
        hlookup(hs, k) == Some(hs[i].1),
    decreases hs.len(),
{
    if i > 0 {
        lemma_hlookup_first(hs.drop_first(), k, i - 1);
    }
}

/// When no entry is named `k`, lookup fails.
proof fn lemma_hlookup_absent(hs: Seq<(Seq<char>, Seq<char>)>, k: Seq<char>)
    requires
        forall|j: int| 0 <= j < hs.len() ==> hs[j].0 != k,
    ensures
        hlookup(hs, k) is None,
    decreases hs.len(),
{
    if hs.len() > 0 {
        lemma_hlookup_absent(hs.drop_first(), k);
    }
}

} // verus!
