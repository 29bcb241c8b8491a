//! The route table and dispatcher. Routes are matched in registration order:
//! a pattern ending in the wildcard marker ":?" matches any path that starts
//! with the pattern's prefix (marker stripped), any other pattern matches its
//! path exactly, and the first match wins. A matched route's method set is
//! then checked; misses yield the 404 and 405 defaults unless custom
//! handlers were installed.

use vstd::prelude::*;

use crate::handlers::{default_method_not_allowed_handler, default_not_found_handler};
use crate::request::Request;
use crate::response::Response;
use crate::strutil::{is_prefix_of, starts_with_str, str_eq};

verus! {

/// A handler capability: the application's mapping from a request to a
/// response, invoked once the route table has matched path and method.
pub trait Handler {
    fn handle(&self, req: &Request) -> Response;
}

/// The wildcard marker ":?" stands at position `i` of `p`.
pub open spec fn marker_at(p: Seq<char>, i: int) -> bool {
    0 <= i && i + 2 <= p.len() && p[i] == ':' && p[i + 1] == '?'
}

/// The wildcard marker appears nowhere but as the pattern's suffix. A
/// mid-pattern marker is a configuration error, rejected at registration.
pub open spec fn wf_pattern(p: Seq<char>) -> bool {
    forall|i: int| marker_at(p, i) ==> i == p.len() - 2
}

/// The pattern ends in the wildcard marker.
pub open spec fn ends_with_marker(p: Seq<char>) -> bool {
    p.len() >= 2 && p[p.len() - 2] == ':' && p[p.len() - 1] == '?'
}

/// Whether the pattern `p` matches `path`: by prefix when `p` carries the
/// wildcard marker, exactly otherwise.
pub open spec fn pattern_matches(p: Seq<char>, path: Seq<char>) -> bool {
    if ends_with_marker(p) {
        is_prefix_of(p.subrange(0, p.len() - 2), path)
    } else {
        p == path
    }
}

/// Whether `p` is acceptable as a route pattern: the wildcard marker ":?"
/// appears nowhere but as its suffix. Callers registering patterns not known
/// statically can check them here before handing them to `handle_func`.
pub fn valid_pattern(p: &str) -> (r: bool)
    ensures
        r == wf_pattern(p@),
{
    let n = p.unicode_len();
    if n < 2 {
        return true;
    }
    let mut i: usize = 0;
    while i < n - 1
        invariant
            n == p@.len(),
            2 <= n,
            i <= n - 1,
            forall|j: int| 0 <= j < i ==> (marker_at(p@, j) ==> j == p@.len() - 2),
        decreases n - i,
    {
        if p.get_char(i) == ':' && p.get_char(i + 1) == '?' && i + 2 != n {
            proof {
                assert(marker_at(p@, i as int));
            }
            return false;
        }
        i += 1;
    }
    proof {
        assert forall|j: int| marker_at(p@, j) implies j == p@.len() - 2 by {
            assert(j < n - 1);
        }
    }
    true
}

/// The mathematical content of one route: its pattern and the methods it
/// allows.
pub struct RouteModel {
    pub pattern: Seq<char>,
    pub methods: Seq<Seq<char>>,
}

/// Index of the first route whose pattern matches `path`, or -1.
pub open spec fn first_match(rs: Seq<RouteModel>, path: Seq<char>) -> int
    decreases rs.len(),
{
    if rs.len() == 0 {
        -1
    } else if pattern_matches(rs[0].pattern, path) {
        0
    } else {
        let r = first_match(rs.drop_first(), path);
        if r < 0 {
            -1
        } else {
            r + 1
        }
    }
}

/// Route matching is deterministic and order-dependent: `first_match` yields
/// the earliest registered route whose pattern matches, even when a later
/// route also matches, and -1 exactly when no route matches.
pub proof fn lemma_first_match(rs: Seq<RouteModel>, path: Seq<char>)
    ensures
        first_match(rs, path) >= 0 ==> 0 <= first_match(rs, path) < rs.len() && pattern_matches(
            rs[first_match(rs, path)].pattern,
            path,
        ),
        forall|i: int| 0 <= i < first_match(rs, path) ==> !pattern_matches(rs[i].pattern, path),
        first_match(rs, path) == -1 ==> forall|i: int|
            0 <= i < rs.len() ==> !pattern_matches(rs[i].pattern, path),
    decreases rs.len(),
{
    if rs.len() == 0 {
    } else if pattern_matches(rs[0].pattern, path) {
    } else {
        lemma_first_match(rs.drop_first(), path);
        assert(forall|i: int| 1 <= i < rs.len() ==> rs[i] == rs.drop_first()[i - 1]);
    }
}

/// `m` is one of the methods in `ms`.
pub open spec fn contains_method(ms: Seq<Seq<char>>, m: Seq<char>) -> bool {
    exists|j: int| 0 <= j < ms.len() && ms[j] == m
}

/// One registered route: a pattern, the methods it allows, and its handler.
pub(crate) struct Route<H> {
    pub(crate) pattern: String,
    pub(crate) methods: Vec<String>,
    pub(crate) handler: H,
}

impl<H> Route<H> {
    pub(crate) closed spec fn model(&self) -> RouteModel {
        RouteModel { pattern: self.pattern@, methods: self.methods.deep_view() }
    }

    /// Whether this route allows `method`.
    pub(crate) fn has_method(&self, method: &str) -> (r: bool)
        ensures
            r == contains_method(self.model().methods, method@),
    {
        let n = self.methods.len();
        let mut i: usize = 0;
        while i < n
            invariant
                i <= n,
                n == self.methods.len(),
                forall|j: int| 0 <= j < i ==> self.model().methods[j] != method@,
            decreases n - i,
        {
            if str_eq(self.methods[i].as_str(), method) {
                proof {
                    assert(self.model().methods[i as int] == method@);
                }
                return true;
            }
            i += 1;
        }
        false
    }

    /// Whether this route's pattern matches `path`.
    pub(crate) fn matches_path(&self, path: &str) -> (r: bool)
        ensures
            r == pattern_matches(self.model().pattern, path@),
    {
        let p = self.pattern.as_str();
        let n = p.unicode_len();
        if n >= 2 && p.get_char(n - 2) == ':' && p.get_char(n - 1) == '?' {
            let prefix = p.substring_char(0, n - 2);
            starts_with_str(path, prefix)
        } else {
            str_eq(p, path)
        }
    }

    /// The first registered route whose pattern matches `path`, if any.
    pub(crate) fn match_route<'a>(routes: &'a Vec<Route<H>>, path: &str) -> (r: Option<
        &'a Route<H>,
    >)
        ensures
            match r {
                Some(rt) => {
                    let m = first_match(models(routes@), path@);
                    0 <= m < routes@.len() && *rt == routes@[m]
                },
                None => first_match(models(routes@), path@) == -1,
            },
    {
        proof {
            lemma_first_match(models(routes@), path@);
        }
        let n = routes.len();
        let mut i: usize = 0;
        while i < n
            invariant
                i <= n,
                n == routes@.len(),
                forall|j: int| 0 <= j < i ==> !pattern_matches(models(routes@)[j].pattern, path@),
            decreases n - i,
        {
            let rt = &routes[i];
            if rt.matches_path(path) {
                proof {
                    lemma_first_match(models(routes@), path@);
                    assert(pattern_matches(models(routes@)[i as int].pattern, path@));
                }
                return Some(rt);
            }
            i += 1;
        }
        proof {
            lemma_first_match(models(routes@), path@);
        }
        None
    }
}

/// The models of a route list, in order.
pub(crate) open spec fn models<H>(routes: Seq<Route<H>>) -> Seq<RouteModel> {
    Seq::new(routes.len(), |i: int| routes[i].model())
}

/// The route table: an ordered list of routes bound to handlers, plus the
/// listening address and optional overrides for the 404 and 405 defaults.
pub struct Router<H> {
    host: String,
    routes: Vec<Route<H>>,
    method_not_allowed_handler: Option<H>,
    not_found_handler: Option<H>,
}

impl<H> Router<H> {
    /// The listening address this router was built with.
    pub closed spec fn spec_host(&self) -> Seq<char> {
        self.host@
    }

    /// The registered routes, in registration order.
    pub closed spec fn spec_routes(&self) -> Seq<RouteModel> {
        models(self.routes@)
    }

    /// A custom handler replaces the 404 default.
    pub closed spec fn has_custom_not_found(&self) -> bool {
        self.not_found_handler is Some
    }

    /// A custom handler replaces the 405 default.
    pub closed spec fn has_custom_method_not_allowed(&self) -> bool {
        self.method_not_allowed_handler is Some
    }

    /// A router listening on `addr` with no routes and the default 404/405
    /// handlers.
    pub fn new(addr: &str) -> (r: Router<H>)
        ensures
            r.spec_host() == addr@,
            r.spec_routes() == Seq::<RouteModel>::empty(),
            !r.has_custom_not_found(),
            !r.has_custom_method_not_allowed(),
    {
        let r = Router {
            routes: Vec::new(),
            host: addr.to_owned(),
            method_not_allowed_handler: None,
            not_found_handler: None,
        };
        proof {
            assert(r.spec_routes() =~= Seq::<RouteModel>::empty());
        }
        r
    }

    /// Appends a route; registration order is the matching priority order. A
    /// pattern carrying the wildcard marker anywhere but as its suffix is a
    /// configuration error and is rejected here, never at request time.
    pub fn handle_func(&mut self, path: &str, handler: H, methods: Vec<&str>)
        requires
            wf_pattern(path@),
        ensures
            final(self).spec_routes() == old(self).spec_routes().push(
                RouteModel { pattern: path@, methods: methods.deep_view() },
            ),
            final(self).spec_host() == old(self).spec_host(),
            final(self).has_custom_not_found() == old(self).has_custom_not_found(),
            final(self).has_custom_method_not_allowed() == old(
                self,
            ).has_custom_method_not_allowed(),
    {
        let n = methods.len();
        let mut ms: Vec<String> = Vec::new();
        let mut i: usize = 0;
        while i < n
            invariant
                i <= n,
                n == methods@.len(),
                ms@.len() == i,
                forall|j: int| 0 <= j < i ==> (#[trigger] ms@[j])@ == methods@[j]@,
            decreases n - i,
        {
            ms.push(methods[i].to_owned());
            i += 1;
        }
        proof {
            assert forall|j: int| 0 <= j < n implies ms.deep_view()[j] == methods.deep_view()[j] by {
                assert(ms@[j]@ == methods@[j]@);
            }
            assert(ms.deep_view() =~= methods.deep_view());
        }
        let route = Route { pattern: path.to_owned(), methods: ms, handler };
        self.routes.push(route);
        proof {
            assert(self.spec_routes() =~= old(self).spec_routes().push(
                RouteModel { pattern: path@, methods: methods.deep_view() },
            ));
        }
    }

    /// Replaces the default 404 handler.
    pub fn not_found_handler(&mut self, f: H)
        ensures
            final(self).has_custom_not_found(),
            final(self).spec_routes() == old(self).spec_routes(),
            final(self).spec_host() == old(self).spec_host(),
            final(self).has_custom_method_not_allowed() == old(
                self,
            ).has_custom_method_not_allowed(),
    {
        self.not_found_handler = Some(f);
    }

    /// Replaces the default 405 handler.
    pub fn method_not_allowed_handler(&mut self, f: H)
        ensures
            final(self).has_custom_method_not_allowed(),
            final(self).spec_routes() == old(self).spec_routes(),
            final(self).spec_host() == old(self).spec_host(),
            final(self).has_custom_not_found() == old(self).has_custom_not_found(),
    {
        self.method_not_allowed_handler = Some(f);
    }

    /// The listening address this router was built with.
    pub fn host(&self) -> (r: &str)
        ensures
            r@ == self.spec_host(),
    {
        self.host.as_str()
    }
}

impl<H: Handler> Router<H> {
    /// Routes one request: the first route whose pattern matches the path is
    /// chosen; its handler runs when it allows the method. A request whose
    /// path no route matches yields the 404 response (no body, no headers),
    /// and one whose matched route disallows the method yields the 405
    /// response, unless custom handlers were installed.
    pub fn dispatch(&self, req: &Request) -> (r: Response)
        ensures
            ({
                let m = first_match(self.spec_routes(), req@.path);
                &&& (m == -1 && !self.has_custom_not_found()) ==> r@
                    == crate::response::empty_response(404)
                &&& (m >= 0 && !contains_method(self.spec_routes()[m].methods, req@.method)
                    && !self.has_custom_method_not_allowed()) ==> r@
                    == crate::response::empty_response(405)
            }),
    {
        match Route::match_route(&self.routes, req.path.as_str()) {
            Some(route) => {
                if route.has_method(req.method.as_str()) {
                    route.handler.handle(req)
                } else {
                    match &self.method_not_allowed_handler {
                        Some(h) => h.handle(req),
                        None => default_method_not_allowed_handler(req),
                    }
                }
            },
            None => {
                match &self.not_found_handler {
                    Some(h) => h.handle(req),
                    None => default_not_found_handler(req),
                }
            },
        }
    }
}

} // verus!
