//! The route table: registering routes and resolving requests.
//!
//! Resolution looks at the routes of the request's method whose pattern
//! accepts the path, and takes the most specific of them: at the first
//! segment where two patterns differ in kind, a literal beats a parameter
//! and a parameter beats a catch-all. Among patterns that are equally
//! specific the one registered first wins.

use crate::chain::{ChainView, MiddlewareChain};
use crate::fields::{lookup, Fields};
use crate::path::{split_path, split_segments};
use crate::pattern::{
    all_literal, law_literal_binds_nothing, law_literal_fits_itself_only, law_literal_outranks,
    law_param_binds, outranks, pattern_wf, seg_rank, segment_texts, spec_bind, spec_fits,
    PathPattern, SegmentView,
};
use vstd::prelude::*;
use vstd::string::*;

verus! {

/// A request method.
#[derive(Debug, Clone, Copy, PartialEq, Eq, Structural)]
pub enum Method {
    Get,
    Post,
    Put,
    Delete,
    Options,
    Head,
    Patch,
}

/// A route with this method and pattern is already in the table.
#[derive(Debug, Clone, Copy, PartialEq, Eq, Structural)]
pub struct DuplicateRouteError;

/// Why a request has no route.
#[derive(Debug, Clone, Copy, PartialEq, Eq, Structural)]
pub enum ResolveError {
    /// No pattern accepts the path, under any method.
    NotFound,
    /// Some pattern accepts the path, but none under the request's method.
    MethodNotAllowed,
}

/// A method and pattern bound to a chain of links.
#[derive(Debug)]
pub struct Route {
    pub method: Method,
    pub pattern: PathPattern,
    pub chain: MiddlewareChain,
    /// For a route that serves files: the file, or the directory that the
    /// pattern's catch-all is read under.
    pub asset: Option<String>,
}

/// A route as plain values.
pub struct RouteView {
    pub method: Method,
    pub pattern: Seq<SegmentView>,
    pub chain: ChainView,
    pub asset: Option<Seq<char>>,
}

impl View for Route {
    type V = RouteView;

    open spec fn view(&self) -> RouteView {
        RouteView {
            method: self.method,
            pattern: self.pattern@,
            chain: self.chain@,
            asset: match self.asset {
                Some(a) => Some(a@),
                None => None,
            },
        }
    }
}

/// What a request resolved to: the route's place in the table and the
/// values that its pattern bound.
#[derive(Debug)]
pub struct RouteMatch {
    pub index: usize,
    pub params: Fields,
}

/// Some route of the table has this method and this pattern.
pub open spec fn has_route(t: Seq<RouteView>, method: Method, pattern: Seq<SegmentView>) -> bool {
    exists|i: int| 0 <= i < t.len() && (#[trigger] t[i]).method == method && t[i].pattern == pattern
}

/// The invariant of a table: sound patterns, and no method and pattern
/// twice.
pub open spec fn table_wf(t: Seq<RouteView>) -> bool {
    &&& forall|i: int| 0 <= i < t.len() ==> pattern_wf((#[trigger] t[i]).pattern)
    &&& forall|i: int, j: int|
        0 <= i < j < t.len() ==> !((#[trigger] t[i]).method == (#[trigger] t[j]).method
            && t[i].pattern == t[j].pattern)
}

/// Route `i` has the request's method and its pattern accepts the path.
pub open spec fn candidate(t: Seq<RouteView>, method: Method, segs: Seq<Seq<char>>, i: int) -> bool {
    0 <= i < t.len() && t[i].method == method && spec_fits(t[i].pattern, segs)
}

/// Some route accepts the path, whatever its method.
pub open spec fn path_known(t: Seq<RouteView>, segs: Seq<Seq<char>>) -> bool {
    exists|i: int| 0 <= i < t.len() && spec_fits((#[trigger] t[i]).pattern, segs)
}

/// Some route has the request's method and accepts the path.
pub open spec fn has_candidate(t: Seq<RouteView>, method: Method, segs: Seq<Seq<char>>) -> bool {
    exists|i: int| #[trigger] candidate(t, method, segs, i)
}

/// Route `i` is the one to take: a candidate that no candidate outranks,
/// and that outranks every candidate registered before it.
pub open spec fn is_best(t: Seq<RouteView>, method: Method, segs: Seq<Seq<char>>, i: int) -> bool {
    &&& candidate(t, method, segs, i)
    &&& forall|j: int| #[trigger]
        candidate(t, method, segs, j) ==> !outranks(t[j].pattern, t[i].pattern) && (j < i
            ==> outranks(t[i].pattern, t[j].pattern))
}

/// What a request resolves to: the best candidate and its bindings, or why
/// there is none.
pub open spec fn spec_resolve(t: Seq<RouteView>, method: Method, segs: Seq<Seq<char>>) -> Result<
    (int, Seq<(Seq<char>, Seq<char>)>),
    ResolveError,
> {
    if has_candidate(t, method, segs) {
        let i = choose|i: int| is_best(t, method, segs, i);
        Ok((i, spec_bind(t[i].pattern, segs)))
    } else if path_known(t, segs) {
        Err(ResolveError::MethodNotAllowed)
    } else {
        Err(ResolveError::NotFound)
    }
}

/// No pattern outranks itself.
pub proof fn lemma_outranks_irreflexive(a: Seq<SegmentView>)
    ensures
        !outranks(a, a),
    decreases a.len(),
{
    if a.len() > 0 {
        lemma_outranks_irreflexive(a.skip(1));
    }
}

/// Outranking carries over: if `a` outranks `b` and `b` outranks `c`, then
/// `a` outranks `c`.
pub proof fn lemma_outranks_transitive(
    a: Seq<SegmentView>,
    b: Seq<SegmentView>,
    c: Seq<SegmentView>,
)
    requires
        outranks(a, b),
        outranks(b, c),
    ensures
        outranks(a, c),
    decreases a.len(),
{
    if a.len() > 0 && b.len() > 0 && c.len() > 0 {
        if seg_rank(a[0]) == seg_rank(b[0]) && seg_rank(b[0]) == seg_rank(c[0]) {
            lemma_outranks_transitive(a.skip(1), b.skip(1), c.skip(1));
        }
    }
}

/// Where `a` outranks `b`, any third pattern is outranked by `a` or
/// outranks `b`: patterns that do not outrank each other are equally
/// specific.
pub proof fn lemma_outranks_splits(a: Seq<SegmentView>, b: Seq<SegmentView>, c: Seq<SegmentView>)
    requires
        outranks(a, b),
    ensures
        outranks(a, c) || outranks(c, b),
    decreases a.len(),
{
    if a.len() > 0 && b.len() > 0 && c.len() > 0 {
        if seg_rank(a[0]) == seg_rank(b[0]) && seg_rank(b[0]) == seg_rank(c[0]) {
            lemma_outranks_splits(a.skip(1), b.skip(1), c.skip(1));
        }
    }
}

/// At most one route is the one to take.
pub proof fn lemma_best_unique(
    t: Seq<RouteView>,
    method: Method,
    segs: Seq<Seq<char>>,
    i: int,
    j: int,
)
    requires
        is_best(t, method, segs, i),
        is_best(t, method, segs, j),
    ensures
        i == j,
{
}

/// The best candidate is what resolution gives.
pub proof fn lemma_resolve_best(t: Seq<RouteView>, method: Method, segs: Seq<Seq<char>>, i: int)
    requires
        is_best(t, method, segs, i),
    ensures
        spec_resolve(t, method, segs) == Ok::<(int, Seq<(Seq<char>, Seq<char>)>), ResolveError>(
            (i, spec_bind(t[i].pattern, segs)),
        ),
{
    let c = choose|c: int| is_best(t, method, segs, c);
    lemma_best_unique(t, method, segs, i, c);
}

/// All registered routes, in the order of registration.
#[derive(Debug)]
pub struct RouteTable {
    routes: Vec<Route>,
}

impl View for RouteTable {
    type V = Seq<RouteView>;

    closed spec fn view(&self) -> Seq<RouteView> {
        Seq::new(self.routes@.len(), |i: int| self.routes@[i]@)
    }
}

impl RouteTable {
    /// The invariant of a table. Every table meets it.
    pub open spec fn wf(&self) -> bool {
        table_wf(self@)
    }

    #[verifier::type_invariant]
    spec fn inv(self) -> bool {
        table_wf(self@)
    }

    /// Recalls that the table meets its invariant. Does nothing when run.
    pub fn sound(&self)
        ensures
            self.wf(),
    {
        proof {
            use_type_invariant(self);
        }
    }

    /// An empty table.
    pub fn new() -> (out: RouteTable)
        ensures
            out@ == Seq::<RouteView>::empty(),
            out.wf(),
    {
        let routes: Vec<Route> = Vec::new();
        RouteTable { routes }
    }

    /// The number of routes.
    pub fn len(&self) -> (n: usize)
        ensures
            n == self@.len(),
    {
        self.routes.len()
    }

    /// The route registered `index`-th.
    pub fn route(&self, index: usize) -> (r: &Route)
        requires
            index < self@.len(),
        ensures
            r@ == self@[index as int],
    {
        &self.routes[index]
    }

    /// Whether a route with this method and pattern is registered.
    pub fn contains(&self, method: Method, pattern: &PathPattern) -> (b: bool)
        ensures
            b == has_route(self@, method, pattern@),
    {
        let mut i: usize = 0;
        while i < self.routes.len()
            invariant
                i <= self.routes.len(),
                forall|j: int|
                    0 <= j < i ==> !((#[trigger] self@[j]).method == method && self@[j].pattern
                        == pattern@),
            decreases self.routes.len() - i,
        {
            assert(self@[i as int] == self.routes@[i as int]@);
            if self.routes[i].method == method && self.routes[i].pattern.same(pattern) {
                return true;
            }
            i += 1;
        }
        false
    }

    /// Adds a route behind those already there, unless one with the same
    /// method and the same pattern is registered: then the table stays as
    /// it is and the call fails.
    pub fn register(&mut self, method: Method, pattern: PathPattern, chain: MiddlewareChain) -> (r:
        Result<(), DuplicateRouteError>)
        ensures
            final(self).wf(),
            match r {
                Ok(_) => !has_route(old(self)@, method, pattern@) && final(self)@ == old(self)@.push(
                    RouteView { method, pattern: pattern@, chain: chain@, asset: None },
                ),
                Err(_) => has_route(old(self)@, method, pattern@) && final(self)@ == old(self)@,
            },
    {
        self.register_route(Route { method, pattern, chain, asset: None })
    }

    /// Adds a route as `register` does, with whatever the route says of
    /// the files it serves.
    pub fn register_route(&mut self, route: Route) -> (r: Result<(), DuplicateRouteError>)
        ensures
            final(self).wf(),
            match r {
                Ok(_) => !has_route(old(self)@, route.method, route.pattern@) && final(self)@
                    == old(self)@.push(route@),
                Err(_) => has_route(old(self)@, route.method, route.pattern@) && final(self)@
                    == old(self)@,
            },
    {
        proof {
            use_type_invariant(&*self);
        }
        if self.contains(route.method, &route.pattern) {
            return Err(DuplicateRouteError);
        }
        let ghost before = self@;
        route.pattern.sound();
        let mut routes: Vec<Route> = Vec::new();
        std::mem::swap(&mut self.routes, &mut routes);
        routes.push(route);
        proof {
            let after = Seq::new(routes@.len(), |i: int| routes@[i]@);
            assert(after =~= before.push(route@));
        }
        std::mem::swap(&mut self.routes, &mut routes);
        Ok(())
    }

    /// Resolves a request: the most specific route of this method whose
    /// pattern accepts the path, with the values that the pattern binds.
    /// Fails with `MethodNotAllowed` where only routes of other methods
    /// accept the path, and with `NotFound` where none does.
    pub fn resolve(&self, method: Method, path: &str) -> (r: Result<RouteMatch, ResolveError>)
        ensures
            match r {
                Ok(m) => is_best(self@, method, split_path(path@), m.index as int) && m.params@
                    == spec_bind(self@[m.index as int].pattern, split_path(path@)),
                Err(ResolveError::MethodNotAllowed) => !has_candidate(
                    self@,
                    method,
                    split_path(path@),
                ) && path_known(self@, split_path(path@)),
                Err(ResolveError::NotFound) => !path_known(self@, split_path(path@)),
            },
            match r {
                Ok(m) => spec_resolve(self@, method, split_path(path@)) == Ok::<
                    (int, Seq<(Seq<char>, Seq<char>)>),
                    ResolveError,
                >((m.index as int, m.params@)),
                Err(e) => spec_resolve(self@, method, split_path(path@)) == Err::<
                    (int, Seq<(Seq<char>, Seq<char>)>),
                    ResolveError,
                >(e),
            },
    {
        let segs = split_segments(path);
        self.resolve_segments(method, &segs)
    }

    /// Resolves a request whose path is given as its segments.
    pub fn resolve_segments(&self, method: Method, segs: &Vec<String>) -> (r: Result<
        RouteMatch,
        ResolveError,
    >)
        ensures
            match r {
                Ok(m) => is_best(self@, method, segs.deep_view(), m.index as int) && m.params@
                    == spec_bind(self@[m.index as int].pattern, segs.deep_view()),
                Err(ResolveError::MethodNotAllowed) => !has_candidate(
                    self@,
                    method,
                    segs.deep_view(),
                ) && path_known(self@, segs.deep_view()),
                Err(ResolveError::NotFound) => !path_known(self@, segs.deep_view()),
            },
            match r {
                Ok(m) => spec_resolve(self@, method, segs.deep_view()) == Ok::<
                    (int, Seq<(Seq<char>, Seq<char>)>),
                    ResolveError,
                >((m.index as int, m.params@)),
                Err(e) => spec_resolve(self@, method, segs.deep_view()) == Err::<
                    (int, Seq<(Seq<char>, Seq<char>)>),
                    ResolveError,
                >(e),
            },
    {
        let ghost t = self@;
        let ghost s = segs.deep_view();
        let mut best: Option<usize> = None;
        let mut known = false;
        let mut i: usize = 0;
        while i < self.routes.len()
            invariant
                t == self@,
                s == segs.deep_view(),
                i <= self.routes.len(),
                known == exists|j: int| 0 <= j < i && spec_fits((#[trigger] t[j]).pattern, s),
                match best {
                    None => forall|j: int| 0 <= j < i ==> !#[trigger] candidate(t, method, s, j),
                    Some(b) => b < i && candidate(t, method, s, b as int) && forall|j: int|
                        0 <= j < i && #[trigger] candidate(t, method, s, j) ==> !outranks(
                            t[j].pattern,
                            t[b as int].pattern,
                        ) && (j < b ==> outranks(t[b as int].pattern, t[j].pattern)),
                },
            decreases self.routes.len() - i,
        {
            let route = &self.routes[i];
            if route.pattern.fits(segs) {
                known = true;
                if route.method == method {
                    match best {
                        None => {
                            proof {
                                lemma_outranks_irreflexive(t[i as int].pattern);
                            }
                            best = Some(i);
                        },
                        Some(b) => {
                            if route.pattern.more_specific_than(&self.routes[b].pattern) {
                                proof {
                                    let pi = t[i as int].pattern;
                                    let pb = t[b as int].pattern;
                                    lemma_outranks_irreflexive(pi);
                                    assert forall|j: int|
                                        0 <= j < i + 1 && #[trigger] candidate(
                                            t,
                                            method,
                                            s,
                                            j,
                                        ) implies !outranks(t[j].pattern, pi) && (j < i
                                        ==> outranks(pi, t[j].pattern)) by {
                                        if j < i {
                                            if outranks(t[j].pattern, pi) {
                                                lemma_outranks_transitive(t[j].pattern, pi, pb);
                                            }
                                            lemma_outranks_splits(pi, pb, t[j].pattern);
                                        }
                                    }
                                }
                                best = Some(i);
                            }
                        },
                    }
                }
            }
            i += 1;
        }
        match best {
            Some(b) => {
                let params = self.routes[b].pattern.bind(segs);
                proof {
                    lemma_resolve_best(t, method, s, b as int);
                }
                Ok(RouteMatch { index: b, params })
            },
            None => {
                if known {
                    Err(ResolveError::MethodNotAllowed)
                } else {
                    Err(ResolveError::NotFound)
                }
            },
        }
    }
}

/// Among the first `n` routes, where one is a candidate, one is the one to
/// take.
pub proof fn lemma_best_among(
    t: Seq<RouteView>,
    method: Method,
    segs: Seq<Seq<char>>,
    n: int,
) -> (b: int)
    requires
        0 <= n <= t.len(),
        exists|j: int| 0 <= j < n && candidate(t, method, segs, j),
    ensures
        0 <= b < n,
        candidate(t, method, segs, b),
        forall|j: int|
            0 <= j < n && #[trigger] candidate(t, method, segs, j) ==> !outranks(
                t[j].pattern,
                t[b].pattern,
            ) && (j < b ==> outranks(t[b].pattern, t[j].pattern)),
    decreases n,
{
    let last = n - 1;
    if exists|j: int| 0 <= j < last && candidate(t, method, segs, j) {
        let b0 = lemma_best_among(t, method, segs, last);
        if candidate(t, method, segs, last) && outranks(t[last].pattern, t[b0].pattern) {
            let pl = t[last].pattern;
            let pb = t[b0].pattern;
            lemma_outranks_irreflexive(pl);
            assert forall|j: int|
                0 <= j < n && #[trigger] candidate(t, method, segs, j) implies !outranks(
                t[j].pattern,
                pl,
            ) && (j < last ==> outranks(pl, t[j].pattern)) by {
                if j < last {
                    if outranks(t[j].pattern, pl) {
                        lemma_outranks_transitive(t[j].pattern, pl, pb);
                    }
                    lemma_outranks_splits(pl, pb, t[j].pattern);
                }
            }
            last
        } else {
            b0
        }
    } else {
        lemma_outranks_irreflexive(t[last].pattern);
        last
    }
}

/// Resolution is settled: where some route of the method accepts the
/// path, exactly one route is the one to take, and resolution gives it.
pub proof fn law_resolve_settled(t: Seq<RouteView>, method: Method, segs: Seq<Seq<char>>)
    requires
        has_candidate(t, method, segs),
    ensures
        spec_resolve(t, method, segs) matches Ok((i, params)) && is_best(t, method, segs, i)
            && params == spec_bind(t[i].pattern, segs),
{
    let b = lemma_best_among(t, method, segs, t.len() as int);
    lemma_resolve_best(t, method, segs, b);
}

/// A registered route whose pattern is all literals is what its own path
/// resolves to, under its method, and nothing is bound.
pub proof fn law_literal_route_resolves(t: Seq<RouteView>, i: int)
    requires
        table_wf(t),
        0 <= i < t.len(),
        all_literal(t[i].pattern),
    ensures
        spec_resolve(t, t[i].method, segment_texts(t[i].pattern)) == Ok::<
            (int, Seq<(Seq<char>, Seq<char>)>),
            ResolveError,
        >((i, Seq::empty())),
{
    let p = t[i].pattern;
    let method = t[i].method;
    let segs = segment_texts(p);
    law_literal_fits_itself_only(p, segs);
    law_literal_binds_nothing(p, segs);
    assert forall|j: int| #[trigger] candidate(t, method, segs, j) implies !outranks(
        t[j].pattern,
        p,
    ) && (j < i ==> outranks(p, t[j].pattern)) by {
        law_literal_outranks(p, t[j].pattern, segs);
    }
    lemma_resolve_best(t, method, segs, i);
}

/// A path resolves to a route of all literals only where it is spelled as
/// the route's pattern is.
pub proof fn law_literal_route_resolves_only_there(
    t: Seq<RouteView>,
    method: Method,
    segs: Seq<Seq<char>>,
    i: int,
)
    requires
        is_best(t, method, segs, i),
        all_literal(t[i].pattern),
    ensures
        segs == segment_texts(t[i].pattern),
{
    law_literal_fits_itself_only(t[i].pattern, segs);
}

/// What a request resolves to binds each parameter of the route's pattern
/// to the path segment in its place.
pub proof fn law_param_extracted(
    t: Seq<RouteView>,
    method: Method,
    segs: Seq<Seq<char>>,
    i: int,
    k: int,
    name: Seq<char>,
)
    requires
        table_wf(t),
        is_best(t, method, segs, i),
        0 <= k < t[i].pattern.len(),
        t[i].pattern[k] == SegmentView::Param(name),
    ensures
        k < segs.len(),
        spec_resolve(t, method, segs) matches Ok((j, params)) && j == i && lookup(params, name)
            == Some(segs[k]),
{
    lemma_resolve_best(t, method, segs, i);
    law_param_binds(t[i].pattern, segs, k, name);
}

/// Once a route is in the table, its method and pattern are taken.
pub proof fn law_registered_is_taken(t: Seq<RouteView>, route: RouteView)
    ensures
        has_route(t.push(route), route.method, route.pattern),
{
    assert(t.push(route)[t.len() as int] == route);
}

} // verus!
