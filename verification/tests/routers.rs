use rin::{
    Context, DuplicateRouteError, Failure, Handled, Link, Method, PatternError, Request,
    ResolveError, RouteError, Router,
};

#[derive(Debug, Clone, PartialEq)]
struct Tag(&'static str);

impl Link for Tag {
    fn enter(&self, ctx: &mut Context) -> Result<(), Failure> {
        ctx.next();
        Ok(())
    }

    fn leave(&self, _ctx: &mut Context) -> Result<(), Failure> {
        Ok(())
    }
}

fn names(router: &Router<Tag>, index: usize) -> Vec<&'static str> {
    let route = router.table().route(index);
    let mut out: Vec<&'static str> =
        route.chain.middleware.iter().map(|id| router.links()[*id].0).collect();
    out.push(router.links()[route.chain.handler].0);
    out
}

fn asset_of(h: Handled) -> Option<String> {
    match h {
        Handled::Ran { context, .. } => context.asset().map(|a| a.to_string()),
        Handled::Refused { .. } => None,
    }
}

fn route_of(router: &Router<Tag>, method: Method, path: &str) -> Result<usize, ResolveError> {
    router.table().resolve(method, path).map(|m| m.index)
}

#[test]
fn default_router_is_a_new_router() {
    let router: Router<Tag> = Router::default();
    assert_eq!(router.table().len(), 0);
    assert_eq!(router.links().len(), 0);
    assert_eq!(router.prefix(&router.root()), "");
}

#[test]
fn new_router_has_the_root_group_only() {
    let router: Router<Tag> = Router::new();
    assert_eq!(router.table().len(), 0);
    assert_eq!(router.links().len(), 0);
    let root = router.root();
    assert_eq!(root.id(), 0);
    assert!(router.owns(&root));
    assert_eq!(router.prefix(&root), "");
}

#[test]
fn group_route_resolves_under_its_prefix_only() {
    let mut router: Router<Tag> = Router::new();
    let admin = router.group("/admin");
    assert_eq!(admin.get(&mut router, "index", Tag("h")), Ok(()));
    assert_eq!(route_of(&router, Method::Get, "/admin/index"), Ok(0));
    assert_eq!(route_of(&router, Method::Get, "/index"), Err(ResolveError::NotFound));
    assert_eq!(route_of(&router, Method::Get, "/admin"), Err(ResolveError::NotFound));
    assert_eq!(route_of(&router, Method::Post, "/admin/index"), Err(ResolveError::MethodNotAllowed));
}

#[test]
fn group_prefix_is_spelled_canonically() {
    let mut router: Router<Tag> = Router::new();
    let a = router.group("admin");
    let b = router.group("//admin//users/");
    let c = a.group(&mut router, "/users/");
    let d = c.group(&mut router, "");
    assert_eq!(router.prefix(&a), "/admin");
    assert_eq!(router.prefix(&b), "/admin/users");
    assert_eq!(router.prefix(&c), "/admin/users");
    assert_eq!(router.prefix(&d), "/admin/users");
    assert_eq!((a.id(), b.id(), c.id(), d.id()), (1, 2, 3, 4));
    assert!(router.owns(&d));
}

#[test]
fn every_method_registers_under_its_own_name() {
    let mut router: Router<Tag> = Router::new();
    let g = router.group("r");
    assert_eq!(g.get(&mut router, "x", Tag("get")), Ok(()));
    assert_eq!(g.post(&mut router, "x", Tag("post")), Ok(()));
    assert_eq!(g.put(&mut router, "x", Tag("put")), Ok(()));
    assert_eq!(g.delete(&mut router, "x", Tag("delete")), Ok(()));
    assert_eq!(g.options(&mut router, "x", Tag("options")), Ok(()));
    for (method, name) in [
        (Method::Get, "get"),
        (Method::Post, "post"),
        (Method::Put, "put"),
        (Method::Delete, "delete"),
        (Method::Options, "options"),
    ] {
        let index = route_of(&router, method, "/r/x").unwrap();
        assert_eq!(names(&router, index), vec![name]);
    }
    assert_eq!(route_of(&router, Method::Patch, "/r/x"), Err(ResolveError::MethodNotAllowed));
}

#[test]
fn duplicate_registration_fails_and_changes_nothing() {
    let mut router: Router<Tag> = Router::new();
    let g = router.group("a");
    assert_eq!(g.get(&mut router, ":id", Tag("first")), Ok(()));
    assert_eq!(
        g.get(&mut router, "/:id/", Tag("second")),
        Err(RouteError::Duplicate(DuplicateRouteError))
    );
    assert_eq!(router.table().len(), 1);
    assert_eq!(router.links().len(), 1);
    assert_eq!(names(&router, 0), vec!["first"]);
    // the same pattern reached through another group is a duplicate too
    let other = router.group("/a/:id");
    assert_eq!(
        other.get(&mut router, "", Tag("third")),
        Err(RouteError::Duplicate(DuplicateRouteError))
    );
}

#[test]
fn pattern_errors_are_passed_on() {
    let mut router: Router<Tag> = Router::new();
    let g = router.group("a/:id");
    assert_eq!(
        g.get(&mut router, "x/:id", Tag("h")),
        Err(RouteError::Pattern(PatternError::DuplicateName))
    );
    assert_eq!(g.get(&mut router, ":", Tag("h")), Err(RouteError::Pattern(PatternError::EmptyName)));
    assert_eq!(
        g.post(&mut router, "*rest/x", Tag("h")),
        Err(RouteError::Pattern(PatternError::CatchAllNotLast))
    );
    let all = router.group("files/*rest");
    assert_eq!(
        all.get(&mut router, "more", Tag("h")),
        Err(RouteError::Pattern(PatternError::CatchAllNotLast))
    );
    assert_eq!(router.table().len(), 0);
    assert_eq!(router.links().len(), 0);
}

#[test]
fn chain_is_ancestors_then_own_then_handler() {
    let mut router: Router<Tag> = Router::new();
    router.middleware(Tag("global"));
    let admin = router.group("admin");
    admin.middleware(&mut router, Tag("auth"));
    let users = admin.group(&mut router, "users");
    users.middleware(&mut router, Tag("audit"));
    users.middleware(&mut router, Tag("limit"));
    users.get(&mut router, ":id", Tag("show")).unwrap();
    assert_eq!(names(&router, 0), vec!["global", "auth", "audit", "limit", "show"]);
    assert_eq!(router.middleware_of(&users), vec![0, 1, 2, 3]);
    assert_eq!(router.middleware_of(&admin), vec![0, 1]);
    assert_eq!(router.middleware_of(&router.root()), vec![0]);
}

#[test]
fn middleware_reaches_later_routes_only() {
    let mut router: Router<Tag> = Router::new();
    let admin = router.group("admin");
    admin.get(&mut router, "early", Tag("early")).unwrap();
    admin.middleware(&mut router, Tag("auth"));
    admin.get(&mut router, "late", Tag("late")).unwrap();
    assert_eq!(names(&router, 0), vec!["early"]);
    assert_eq!(names(&router, 1), vec!["auth", "late"]);
}

#[test]
fn parent_middleware_added_later_reaches_later_child_routes() {
    let mut router: Router<Tag> = Router::new();
    let admin = router.group("admin");
    let users = admin.group(&mut router, "users");
    users.get(&mut router, "a", Tag("a")).unwrap();
    admin.middleware(&mut router, Tag("auth"));
    router.middleware(Tag("global"));
    users.get(&mut router, "b", Tag("b")).unwrap();
    assert_eq!(names(&router, 0), vec!["a"]);
    assert_eq!(names(&router, 1), vec!["global", "auth", "b"]);
}

#[test]
fn sibling_groups_do_not_share_middleware() {
    let mut router: Router<Tag> = Router::new();
    let a = router.group("a");
    let b = router.group("b");
    a.middleware(&mut router, Tag("only-a"));
    a.get(&mut router, "x", Tag("ha")).unwrap();
    b.get(&mut router, "x", Tag("hb")).unwrap();
    assert_eq!(names(&router, 0), vec!["only-a", "ha"]);
    assert_eq!(names(&router, 1), vec!["hb"]);
}

#[test]
fn static_dir_serves_what_follows_the_path() {
    let mut router: Router<Tag> = Router::new();
    assert_eq!(router.static_dir("/assets", "site/public", Tag("files")), Ok(()));
    let m = router.table().resolve(Method::Get, "/assets/css/site.css").unwrap();
    assert_eq!(m.params.get("filepath"), Some("css/site.css"));
    assert_eq!(router.table().route(m.index).asset.as_deref(), Some("site/public"));
    let h = router.handle(Request::new(Method::Get, "/assets/css/site.css"));
    assert_eq!(asset_of(h), Some("site/public/css/site.css".to_string()));
    let up = router.handle(Request::new(Method::Get, "/assets/../etc/passwd"));
    assert!(matches!(up, Handled::Ran { route: 0, .. }));
    assert_eq!(asset_of(up), None);
    assert_eq!(
        router.static_dir("assets/", "elsewhere", Tag("again")),
        Err(RouteError::Duplicate(DuplicateRouteError))
    );
    assert_eq!(route_of(&router, Method::Post, "/assets/a"), Err(ResolveError::MethodNotAllowed));
}

#[test]
fn static_file_serves_one_file() {
    let mut router: Router<Tag> = Router::new();
    assert_eq!(router.static_file("/favicon.ico", "site/favicon.ico", Tag("file")), Ok(()));
    let h = router.handle(Request::new(Method::Get, "/favicon.ico"));
    assert!(matches!(h, Handled::Ran { route: 0, .. }));
    assert_eq!(asset_of(h), Some("site/favicon.ico".to_string()));
    assert_eq!(route_of(&router, Method::Get, "/favicon.ico/x"), Err(ResolveError::NotFound));
    assert_eq!(
        router.static_file("/bad/:", "x", Tag("file")),
        Err(RouteError::Pattern(PatternError::EmptyName))
    );
}

#[test]
fn foreign_group_is_not_owned() {
    let mut one: Router<Tag> = Router::new();
    let two: Router<Tag> = Router::new();
    let g = one.group("a");
    assert!(one.owns(&g));
    assert!(!two.owns(&g));
}
