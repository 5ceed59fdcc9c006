//! The router: links, groups and the registration of routes.
//!
//! A router owns every link that was handed to it, a tree of groups, and
//! the route table. A group stands for a path prefix and a list of
//! middleware of its own. Registering a route under a group settles the
//! route for good: its pattern is the group's prefix followed by the
//! route's path, and its chain is the middleware that the group's
//! ancestors and the group hold at that moment, outermost first, around
//! the handler. Middleware added later reaches later routes only.

use crate::chain::{ChainView, MiddlewareChain};
use crate::path::{
    join_path, join_segments, lemma_split_concat, lemma_split_gives_segments, lemma_split_join,
    split_path, split_segments,
};
use crate::pattern::{spec_parse, PathPattern, PatternError};
use crate::table::{
    has_route, law_registered_is_taken, table_wf, DuplicateRouteError, Method, Route, RouteTable,
    RouteView,
};
use vstd::prelude::*;
use vstd::string::*;

verus! {

/// Why a route was not registered.
#[derive(Debug, Clone, Copy, PartialEq, Eq, Structural)]
pub enum RouteError {
    /// The path is not a pattern.
    Pattern(PatternError),
    /// The method and pattern are registered already.
    Duplicate(DuplicateRouteError),
}

/// One group of a router.
#[derive(Debug)]
pub struct GroupNode {
    /// The group's whole prefix, in canonical spelling.
    pub prefix: String,
    /// The group's own middleware, in the order in which it was added.
    pub own: Vec<usize>,
    /// The enclosing group; the root has none.
    pub parent: Option<usize>,
}

/// A group as plain values.
pub struct GroupView {
    pub prefix: Seq<char>,
    pub own: Seq<usize>,
    pub parent: Option<usize>,
}

impl View for GroupNode {
    type V = GroupView;

    open spec fn view(&self) -> GroupView {
        GroupView { prefix: self.prefix@, own: self.own@, parent: self.parent }
    }
}

/// A handle on a group of a router.
#[derive(Debug, Clone, Copy, PartialEq, Eq)]
pub struct RouterGroup {
    id: usize,
}

impl View for RouterGroup {
    type V = int;

    closed spec fn view(&self) -> int {
        self.id as int
    }
}

/// A router as plain values.
pub struct RouterView<L> {
    pub table: Seq<RouteView>,
    pub links: Seq<L>,
    pub groups: Seq<GroupView>,
}

/// The text that a route under a group is parsed from: the group's prefix,
/// a slash, and the route's path.
pub open spec fn full_path(prefix: Seq<char>, path: Seq<char>) -> Seq<char> {
    prefix + seq!['/'] + path
}

/// The canonical spelling of a path.
pub open spec fn normalized(path: Seq<char>) -> Seq<char> {
    join_path(split_path(path))
}

/// The spec of the catch-all that a served directory's route ends with.
pub open spec fn dir_suffix() -> Seq<char> {
    seq!['/', '*', 'f', 'i', 'l', 'e', 'p', 'a', 't', 'h']
}

/// The middleware in force in group `g`: that of every ancestor, outermost
/// first, then the group's own.
pub open spec fn inherited(groups: Seq<GroupView>, g: int) -> Seq<usize>
    decreases g,
{
    if 0 <= g < groups.len() {
        match groups[g].parent {
            Some(p) => if p < g {
                inherited(groups, p as int) + groups[g].own
            } else {
                groups[g].own
            },
            None => groups[g].own,
        }
    } else {
        Seq::empty()
    }
}

/// Group `h` is group `g` or lies inside it.
pub open spec fn descends(groups: Seq<GroupView>, h: int, g: int) -> bool
    decreases h,
{
    if h == g {
        true
    } else if 0 <= h < groups.len() {
        match groups[h].parent {
            Some(p) => p < h && descends(groups, p as int, g),
            None => false,
        }
    } else {
        false
    }
}

/// The groups form a tree under group 0, whose prefix is empty.
pub open spec fn groups_wf(groups: Seq<GroupView>) -> bool {
    &&& groups.len() >= 1
    &&& groups[0].parent is None
    &&& groups[0].prefix.len() == 0
    &&& forall|g: int|
        0 < g < groups.len() ==> (#[trigger] groups[g]).parent is Some && groups[g].parent->0 < g
}

/// The invariant of a router: a sound table, a tree of groups, and no link
/// named that the router does not hold.
pub open spec fn router_wf<L>(r: RouterView<L>) -> bool {
    &&& table_wf(r.table)
    &&& groups_wf(r.groups)
    &&& forall|g: int, k: int|
        0 <= g < r.groups.len() && 0 <= k < r.groups[g].own.len() ==> #[trigger] r.groups[g].own[k]
            < r.links.len()
    &&& forall|i: int| 0 <= i < r.table.len() ==> (#[trigger] r.table[i]).chain.within(r.links.len())
}

/// The route that registering `path` under group `g` makes, where the
/// path is a pattern.
pub open spec fn route_for<L>(
    r: RouterView<L>,
    g: int,
    method: Method,
    spec: Seq<char>,
    asset: Option<Seq<char>>,
) -> RouteView {
    RouteView {
        method,
        pattern: spec_parse(full_path(r.groups[g].prefix, spec))->Ok_0,
        chain: ChainView { middleware: inherited(r.groups, g), handler: r.links.len() as usize },
        asset,
    }
}

/// What registering a route does to a router, and how it ends: the route
/// joins the table and the handler joins the links, unless the path is no
/// pattern or the method and pattern are taken; then nothing changes.
pub open spec fn spec_register<L>(
    r: RouterView<L>,
    g: int,
    method: Method,
    spec: Seq<char>,
    handler: L,
    asset: Option<Seq<char>>,
) -> (RouterView<L>, Result<(), RouteError>) {
    match spec_parse(full_path(r.groups[g].prefix, spec)) {
        Err(e) => (r, Err(RouteError::Pattern(e))),
        Ok(pattern) => if has_route(r.table, method, pattern) {
            (r, Err(RouteError::Duplicate(DuplicateRouteError)))
        } else {
            (
                RouterView {
                    table: r.table.push(route_for(r, g, method, spec, asset)),
                    links: r.links.push(handler),
                    groups: r.groups,
                },
                Ok(()),
            )
        },
    }
}

/// What adding a middleware to group `g` does to a router: the link joins
/// the links and its number joins the group's own middleware. The table
/// stays as it is.
pub open spec fn spec_add_middleware<L>(r: RouterView<L>, g: int, link: L) -> RouterView<L> {
    RouterView {
        table: r.table,
        links: r.links.push(link),
        groups: r.groups.update(
            g,
            GroupView { own: r.groups[g].own.push(r.links.len() as usize), ..r.groups[g] },
        ),
    }
}

/// What making a group inside group `g` does to a router: the new group
/// joins the groups, with no middleware of its own.
pub open spec fn spec_add_group<L>(r: RouterView<L>, g: int, prefix: Seq<char>) -> RouterView<L> {
    RouterView {
        table: r.table,
        links: r.links,
        groups: r.groups.push(
            GroupView {
                prefix: normalized(full_path(r.groups[g].prefix, prefix)),
                own: Seq::empty(),
                parent: Some(g as usize),
            },
        ),
    }
}

/// The middleware in force in a group is held by the router.
pub proof fn lemma_inherited_within<L>(r: RouterView<L>, g: int)
    requires
        router_wf(r),
        0 <= g < r.groups.len(),
    ensures
        forall|k: int|
            0 <= k < inherited(r.groups, g).len() ==> #[trigger] inherited(r.groups, g)[k]
                < r.links.len(),
    decreases g,
{
    if g > 0 {
        let p = r.groups[g].parent->0 as int;
        lemma_inherited_within(r, p);
        let outer = inherited(r.groups, p);
        let all = inherited(r.groups, g);
        assert forall|k: int| 0 <= k < all.len() implies #[trigger] all[k] < r.links.len() by {
            if k < outer.len() {
                assert(all[k] == outer[k]);
            } else {
                assert(all[k] == r.groups[g].own[k - outer.len()]);
            }
        }
    }
}

/// Making a group changes no chain: the middleware in force in the groups
/// that were there is what it was.
pub proof fn law_new_group_changes_nothing<L>(r: RouterView<L>, parent: int, prefix: Seq<char>, g: int)
    requires
        0 <= g < r.groups.len(),
    ensures
        spec_add_group(r, parent, prefix).table == r.table,
        inherited(spec_add_group(r, parent, prefix).groups, g) == inherited(r.groups, g),
    decreases g,
{
    match r.groups[g].parent {
        Some(p) => {
            if p < g {
                law_new_group_changes_nothing(r, parent, prefix, p as int);
            }
        },
        None => {},
    }
}

/// The router: links, groups and the route table.
#[derive(Debug)]
pub struct Router<L> {
    table: RouteTable,
    links: Vec<L>,
    groups: Vec<GroupNode>,
}

impl<L> View for Router<L> {
    type V = RouterView<L>;

    closed spec fn view(&self) -> RouterView<L> {
        RouterView {
            table: self.table@,
            links: self.links@,
            groups: Seq::new(self.groups@.len(), |g: int| self.groups@[g]@),
        }
    }
}

/// The middleware in force in group `g`, collected from the root down.
fn collect_inherited(groups: &Vec<GroupNode>, g: usize) -> (out: Vec<usize>)
    requires
        g < groups.len(),
    ensures
        out@ == inherited(Seq::new(groups@.len(), |i: int| groups@[i]@), g as int),
    decreases g,
{
    let mut out: Vec<usize> = match groups[g].parent {
        Some(p) => if p < g {
            collect_inherited(groups, p)
        } else {
            Vec::new()
        },
        None => Vec::new(),
    };
    let ghost base = out@;
    let own = &groups[g].own;
    let mut k: usize = 0;
    while k < own.len()
        invariant
            k <= own.len(),
            out@ == base + own@.take(k as int),
        decreases own.len() - k,
    {
        out.push(own[k]);
        k += 1;
    }
    out
}

impl<L> Router<L> {
    /// The invariant of a router. Every router meets it.
    pub open spec fn wf(&self) -> bool {
        router_wf(self@)
    }

    #[verifier::type_invariant]
    spec fn inv(self) -> bool {
        router_wf(self@)
    }

    /// Recalls that the router meets its invariant. Does nothing when run.
    pub fn sound(&self)
        ensures
            self.wf(),
    {
        proof {
            use_type_invariant(self);
        }
    }

    /// Whether `group` is a group of this router.
    pub open spec fn has_group(&self, group: RouterGroup) -> bool {
        0 <= group@ < self@.groups.len()
    }

    /// A router with no route, no link, and the root group alone.
    pub fn new() -> (out: Router<L>)
        ensures
            out.wf(),
            out@.table == Seq::<RouteView>::empty(),
            out@.links == Seq::<L>::empty(),
            out@.groups == seq![
                GroupView { prefix: Seq::empty(), own: Seq::empty(), parent: None },
            ],
    {
        let mut groups: Vec<GroupNode> = Vec::new();
        groups.push(GroupNode { prefix: String::new(), own: Vec::new(), parent: None });
        let table = RouteTable::new();
        let links: Vec<L> = Vec::new();
        Router { table, links, groups }
    }

    /// Takes the router apart, leaving an empty one in its place.
    fn take(&mut self) -> (parts: (RouteTable, Vec<L>, Vec<GroupNode>))
        ensures
            parts.0@ == old(self)@.table,
            parts.1@ == old(self)@.links,
            Seq::new(parts.2@.len(), |g: int| parts.2@[g]@) == old(self)@.groups,
            router_wf(old(self)@),
    {
        proof {
            use_type_invariant(&*self);
        }
        let mut held: Router<L> = Router::new();
        std::mem::swap(self, &mut held);
        let Router { table, links, groups } = held;
        (table, links, groups)
    }

    /// Puts a router together from its parts.
    fn put(&mut self, table: RouteTable, links: Vec<L>, groups: Vec<GroupNode>)
        requires
            router_wf(
                RouterView {
                    table: table@,
                    links: links@,
                    groups: Seq::new(groups@.len(), |g: int| groups@[g]@),
                },
            ),
        ensures
            final(self)@ == (RouterView {
                table: table@,
                links: links@,
                groups: Seq::new(groups@.len(), |g: int| groups@[g]@),
            }),
            final(self).wf(),
    {
        let mut built = Router { table, links, groups };
        std::mem::swap(self, &mut built);
    }

    /// The root group, whose prefix is empty and whose middleware is in
    /// force everywhere.
    pub fn root(&self) -> (group: RouterGroup)
        ensures
            group@ == 0,
            self.has_group(group),
    {
        proof {
            use_type_invariant(self);
        }
        RouterGroup { id: 0 }
    }

    /// Whether `group` is a group of this router.
    pub fn owns(&self, group: &RouterGroup) -> (b: bool)
        ensures
            b == self.has_group(*group),
    {
        group.id < self.groups.len()
    }

    /// The route table.
    pub fn table(&self) -> (t: &RouteTable)
        ensures
            t@ == self@.table,
    {
        &self.table
    }

    /// The links, in the order in which they were handed in.
    pub fn links(&self) -> (l: &Vec<L>)
        ensures
            l@ == self@.links,
    {
        &self.links
    }

    /// The prefix of a group.
    pub fn prefix(&self, group: &RouterGroup) -> (p: &str)
        requires
            self.has_group(*group),
        ensures
            p@ == self@.groups[group@].prefix,
    {
        self.groups[group.id].prefix.as_str()
    }

    /// The middleware in force in a group: that of every ancestor,
    /// outermost first, then the group's own.
    pub fn middleware_of(&self, group: &RouterGroup) -> (out: Vec<usize>)
        requires
            self.has_group(*group),
        ensures
            out@ == inherited(self@.groups, group@),
    {
        collect_inherited(&self.groups, group.id)
    }

    /// Makes a group inside the root group. Its prefix is `path` in
    /// canonical spelling: each segment behind one slash.
    pub fn group(&mut self, path: &str) -> (group: RouterGroup)
        ensures
            final(self).wf(),
            final(self)@ == spec_add_group(old(self)@, 0, path@),
            group@ == old(self)@.groups.len(),
            final(self).has_group(group),
    {
        proof {
            use_type_invariant(&*self);
        }
        self.add_group(0, path)
    }

    /// Makes a group inside group `parent`.
    fn add_group(&mut self, parent: usize, prefix: &str) -> (group: RouterGroup)
        requires
            parent < old(self)@.groups.len(),
        ensures
            final(self).wf(),
            final(self)@ == spec_add_group(old(self)@, parent as int, prefix@),
            group@ == old(self)@.groups.len(),
            final(self).has_group(group),
    {
        let ghost before = self@;
        let (table, links, mut groups) = self.take();
        let mut text = groups[parent].prefix.clone();
        proof {
            reveal_strlit("/");
            assert("/"@ =~= seq!['/']);
        }
        text.append("/");
        text.append(prefix);
        let segments = split_segments(text.as_str());
        let joined = join_segments(&segments);
        let id = groups.len();
        groups.push(GroupNode { prefix: joined, own: Vec::new(), parent: Some(parent) });
        proof {
            let want = spec_add_group(before, parent as int, prefix@);
            let now = Seq::new(groups@.len(), |g: int| groups@[g]@);
            assert(now =~= want.groups);
        }
        self.put(table, links, groups);
        RouterGroup { id }
    }

    /// Adds a middleware to the root group: it is in force for every route
    /// registered from now on. Routes registered before are as they were.
    pub fn middleware(&mut self, link: L)
        ensures
            final(self).wf(),
            final(self)@ == spec_add_middleware(old(self)@, 0, link),
    {
        proof {
            use_type_invariant(&*self);
        }
        self.add_middleware(0, link)
    }

    /// Adds a middleware to group `g`.
    fn add_middleware(&mut self, g: usize, link: L)
        requires
            g < old(self)@.groups.len(),
        ensures
            final(self).wf(),
            final(self)@ == spec_add_middleware(old(self)@, g as int, link),
    {
        let ghost before = self@;
        let (table, mut links, mut groups) = self.take();
        let id = links.len();
        links.push(link);
        let mut node = GroupNode { prefix: String::new(), own: Vec::new(), parent: None };
        std::mem::swap(&mut groups[g], &mut node);
        node.own.push(id);
        std::mem::swap(&mut groups[g], &mut node);
        proof {
            let want = spec_add_middleware(before, g as int, link);
            let now = Seq::new(groups@.len(), |h: int| groups@[h]@);
            assert(now =~= want.groups);
        }
        self.put(table, links, groups);
    }

    /// Registers a route under a group. The pattern is parsed from the
    /// group's prefix, a slash and `path`; the chain is the middleware in
    /// force in the group, around `handler`. Fails, and changes nothing,
    /// where the text is no pattern or the method and pattern are taken.
    pub fn register(
        &mut self,
        group: &RouterGroup,
        method: Method,
        path: &str,
        handler: L,
        asset: Option<String>,
    ) -> (r: Result<(), RouteError>)
        requires
            old(self).has_group(*group),
        ensures
            final(self).wf(),
            (final(self)@, r) == spec_register(
                old(self)@,
                group@,
                method,
                path@,
                handler,
                match asset {
                    Some(a) => Some(a@),
                    None => None,
                },
            ),
    {
        proof {
            use_type_invariant(&*self);
        }
        let ghost before = self@;
        let g = group.id;
        let mut text = self.groups[g].prefix.clone();
        proof {
            reveal_strlit("/");
            assert("/"@ =~= seq!['/']);
        }
        text.append("/");
        text.append(path);
        let pattern = match PathPattern::parse(text.as_str()) {
            Ok(p) => p,
            Err(e) => {
                return Err(RouteError::Pattern(e));
            },
        };
        let (mut table, mut links, groups) = self.take();
        let middleware = collect_inherited(&groups, g);
        let chain = MiddlewareChain::compose(middleware, links.len());
        proof {
            lemma_inherited_within(before, g as int);
        }
        let done = table.register_route(Route { method, pattern, chain, asset });
        if done.is_ok() {
            links.push(handler);
        }
        self.put(table, links, groups);
        match done {
            Ok(_) => Ok(()),
            Err(e) => Err(RouteError::Duplicate(e)),
        }
    }

    /// Serves the files of directory `dir` under `path`: registers a GET
    /// route that takes whatever follows `path` as the file's place in
    /// `dir`, with `server` as its handler.
    pub fn static_dir(&mut self, path: &str, dir: &str, server: L) -> (r: Result<(), RouteError>)
        ensures
            final(self).wf(),
            (final(self)@, r) == spec_register(
                old(self)@,
                0,
                Method::Get,
                path@ + dir_suffix(),
                server,
                Some(dir@),
            ),
    {
        let mut spec = path.to_owned();
        proof {
            reveal_strlit("/*filepath");
            assert("/*filepath"@ =~= dir_suffix());
        }
        spec.append("/*filepath");
        let root = self.root();
        self.register(&root, Method::Get, spec.as_str(), server, Some(dir.to_owned()))
    }

    /// Serves the file `filepath` at `uri`: registers a GET route for
    /// `uri`, with `server` as its handler.
    pub fn static_file(&mut self, uri: &str, filepath: &str, server: L) -> (r: Result<
        (),
        RouteError,
    >)
        ensures
            final(self).wf(),
            (final(self)@, r) == spec_register(
                old(self)@,
                0,
                Method::Get,
                uri@,
                server,
                Some(filepath@),
            ),
    {
        let root = self.root();
        self.register(&root, Method::Get, uri, server, Some(filepath.to_owned()))
    }
}

impl<L> Default for Router<L> {
    /// A router as `Router::new` makes it.
    fn default() -> (out: Router<L>)
        ensures
            out.wf(),
            out@.table == Seq::<RouteView>::empty(),
            out@.links == Seq::<L>::empty(),
            out@.groups == seq![
                GroupView { prefix: Seq::empty(), own: Seq::empty(), parent: None },
            ],
    {
        Router::new()
    }
}

impl RouterGroup {
    /// The group's number among the router's groups.
    pub fn id(&self) -> (id: usize)
        ensures
            id == self@,
    {
        self.id
    }

    /// Makes a group inside this one. Its prefix is this group's prefix, a
    /// slash and `prefix`, in canonical spelling.
    pub fn group<L>(&self, router: &mut Router<L>, prefix: &str) -> (group: RouterGroup)
        requires
            old(router).has_group(*self),
        ensures
            final(router).wf(),
            final(router)@ == spec_add_group(old(router)@, self@, prefix@),
            group@ == old(router)@.groups.len(),
            final(router).has_group(group),
    {
        router.add_group(self.id, prefix)
    }

    /// Adds a middleware to this group: it is in force for every route
    /// registered from now on under this group or a group inside it.
    /// Routes registered before are as they were.
    pub fn middleware<L>(&self, router: &mut Router<L>, link: L)
        requires
            old(router).has_group(*self),
        ensures
            final(router).wf(),
            final(router)@ == spec_add_middleware(old(router)@, self@, link),
    {
        router.add_middleware(self.id, link)
    }

    /// Registers a GET route under this group.
    pub fn get<L>(&self, router: &mut Router<L>, path: &str, handler: L) -> (r: Result<
        (),
        RouteError,
    >)
        requires
            old(router).has_group(*self),
        ensures
            final(router).wf(),
            (final(router)@, r) == spec_register(
                old(router)@,
                self@,
                Method::Get,
                path@,
                handler,
                None,
            ),
    {
        router.register(self, Method::Get, path, handler, None)
    }

    /// Registers a POST route under this group.
    pub fn post<L>(&self, router: &mut Router<L>, path: &str, handler: L) -> (r: Result<
        (),
        RouteError,
    >)
        requires
            old(router).has_group(*self),
        ensures
            final(router).wf(),
            (final(router)@, r) == spec_register(
                old(router)@,
                self@,
                Method::Post,
                path@,
                handler,
                None,
            ),
    {
        router.register(self, Method::Post, path, handler, None)
    }

    /// Registers a PUT route under this group.
    pub fn put<L>(&self, router: &mut Router<L>, path: &str, handler: L) -> (r: Result<
        (),
        RouteError,
    >)
        requires
            old(router).has_group(*self),
        ensures
            final(router).wf(),
            (final(router)@, r) == spec_register(
                old(router)@,
                self@,
                Method::Put,
                path@,
                handler,
                None,
            ),
    {
        router.register(self, Method::Put, path, handler, None)
    }

    /// Registers a DELETE route under this group.
    pub fn delete<L>(&self, router: &mut Router<L>, path: &str, handler: L) -> (r: Result<
        (),
        RouteError,
    >)
        requires
            old(router).has_group(*self),
        ensures
            final(router).wf(),
            (final(router)@, r) == spec_register(
                old(router)@,
                self@,
                Method::Delete,
                path@,
                handler,
                None,
            ),
    {
        router.register(self, Method::Delete, path, handler, None)
    }

    /// Registers an OPTIONS route under this group.
    pub fn options<L>(&self, router: &mut Router<L>, path: &str, handler: L) -> (r: Result<
        (),
        RouteError,
    >)
        requires
            old(router).has_group(*self),
        ensures
            final(router).wf(),
            (final(router)@, r) == spec_register(
                old(router)@,
                self@,
                Method::Options,
                path@,
                handler,
                None,
            ),
    {
        router.register(self, Method::Options, path, handler, None)
    }
}

/// Registering the same method and path under the same group a second
/// time fails as a duplicate and changes nothing, whatever the handler.
pub proof fn law_second_registration_fails<L>(
    r: RouterView<L>,
    g: int,
    method: Method,
    spec: Seq<char>,
    first: L,
    second: L,
    asset: Option<Seq<char>>,
    other_asset: Option<Seq<char>>,
)
    requires
        0 <= g < r.groups.len(),
        spec_register(r, g, method, spec, first, asset).1 is Ok,
    ensures
        spec_register(spec_register(r, g, method, spec, first, asset).0, g, method, spec, second, other_asset)
            == (
            spec_register(r, g, method, spec, first, asset).0,
            Err::<(), RouteError>(RouteError::Duplicate(DuplicateRouteError)),
        ),
{
    let route = route_for(r, g, method, spec, asset);
    law_registered_is_taken(r.table, route);
}

/// A route under a group is made of the group's segments followed by the
/// route's own: the text that it is parsed from splits into the segments
/// of the group's prefix, then those of the route's path.
pub proof fn law_route_segments(prefix: Seq<char>, path: Seq<char>)
    ensures
        split_path(full_path(prefix, path)) == split_path(prefix) + split_path(path),
{
    lemma_split_concat(prefix, path);
}

/// A group inside a group has the outer group's segments followed by its
/// own.
pub proof fn law_group_segments<L>(r: RouterView<L>, g: int, prefix: Seq<char>)
    requires
        0 <= g < r.groups.len(),
    ensures
        split_path(spec_add_group(r, g, prefix).groups.last().prefix) == split_path(
            r.groups[g].prefix,
        ) + split_path(prefix),
{
    let text = full_path(r.groups[g].prefix, prefix);
    lemma_split_gives_segments(text);
    lemma_split_join(split_path(text));
    lemma_split_concat(r.groups[g].prefix, prefix);
}

/// A middleware added to a group is in force in that group and in every
/// group inside it, behind what was in force there before; everywhere else
/// nothing changes. The table is not touched, so routes registered before
/// keep their chains.
pub proof fn law_middleware_reach<L>(r: RouterView<L>, g: int, link: L, h: int)
    requires
        groups_wf(r.groups),
        0 <= g < r.groups.len(),
        0 <= h < r.groups.len(),
    ensures
        spec_add_middleware(r, g, link).table == r.table,
        descends(r.groups, h, g) ==> inherited(spec_add_middleware(r, g, link).groups, h).contains(
            r.links.len() as usize,
        ),
        !descends(r.groups, h, g) ==> inherited(spec_add_middleware(r, g, link).groups, h)
            == inherited(r.groups, h),
    decreases h,
{
    let id = r.links.len() as usize;
    let after = spec_add_middleware(r, g, link).groups;
    let mine = inherited(after, h);
    if h == g {
        assert(mine[mine.len() - 1] == id);
    } else if h > 0 {
        let p = r.groups[h].parent->0 as int;
        law_middleware_reach(r, g, link, p);
        if descends(r.groups, h, g) {
            let outer = inherited(after, p);
            let k = choose|k: int| 0 <= k < outer.len() && outer[k] == id;
            assert(mine[k] == id);
        }
    }
}

} // verus!
