use rin::{
    DuplicateRouteError, Method, MiddlewareChain, PathPattern, ResolveError, Route, RouteTable,
};

fn parse(spec: &str) -> PathPattern {
    PathPattern::parse(spec).unwrap()
}

fn add(table: &mut RouteTable, method: Method, spec: &str, handler: usize) {
    table.register(method, parse(spec), MiddlewareChain::new(handler)).unwrap();
}

fn resolved(table: &RouteTable, method: Method, path: &str) -> (usize, Vec<(String, String)>) {
    let m = table.resolve(method, path).unwrap();
    let handler = table.route(m.index).chain.handler;
    (handler, m.params.entries.iter().map(|e| (e.name.clone(), e.value.clone())).collect())
}

fn pair(name: &str, value: &str) -> (String, String) {
    (name.to_string(), value.to_string())
}

#[test]
fn new_table_is_empty() {
    let table = RouteTable::new();
    assert_eq!(table.len(), 0);
    assert_eq!(table.resolve(Method::Get, "/").err(), Some(ResolveError::NotFound));
}

#[test]
fn literal_route_resolves_with_no_params() {
    let mut table = RouteTable::new();
    add(&mut table, Method::Get, "/admin/index", 7);
    add(&mut table, Method::Get, "/admin/:page", 8);
    add(&mut table, Method::Get, "/*all", 9);
    assert_eq!(resolved(&table, Method::Get, "/admin/index"), (7, vec![]));
}

#[test]
fn literal_route_resolves_whatever_the_order() {
    let mut table = RouteTable::new();
    add(&mut table, Method::Get, "/*all", 9);
    add(&mut table, Method::Get, "/admin/:page", 8);
    add(&mut table, Method::Get, "/admin/index", 7);
    assert_eq!(resolved(&table, Method::Get, "/admin/index"), (7, vec![]));
    assert_eq!(resolved(&table, Method::Get, "/admin/other"), (8, vec![pair("page", "other")]));
    assert_eq!(resolved(&table, Method::Get, "/else/where"), (9, vec![pair("all", "else/where")]));
}

#[test]
fn param_value_is_extracted() {
    let mut table = RouteTable::new();
    add(&mut table, Method::Get, "/users/:id", 1);
    for value in ["42", "abc", "a.b-c", "\u{e9}t\u{e9}", ":x", "*"] {
        let path = format!("/users/{}", value);
        assert_eq!(resolved(&table, Method::Get, &path), (1, vec![pair("id", value)]));
    }
}

#[test]
fn second_identical_registration_fails() {
    let mut table = RouteTable::new();
    assert_eq!(table.register(Method::Get, parse("/a/:id"), MiddlewareChain::new(0)), Ok(()));
    assert_eq!(
        table.register(Method::Get, parse("a//:id/"), MiddlewareChain::new(1)),
        Err(DuplicateRouteError)
    );
    assert_eq!(table.len(), 1);
    assert_eq!(table.route(0).chain.handler, 0);
}

#[test]
fn same_pattern_under_another_method_is_no_duplicate() {
    let mut table = RouteTable::new();
    assert_eq!(table.register(Method::Get, parse("/a"), MiddlewareChain::new(0)), Ok(()));
    assert_eq!(table.register(Method::Post, parse("/a"), MiddlewareChain::new(1)), Ok(()));
    assert_eq!(resolved(&table, Method::Get, "/a").0, 0);
    assert_eq!(resolved(&table, Method::Post, "/a").0, 1);
}

#[test]
fn other_param_name_is_no_duplicate_and_first_wins() {
    let mut table = RouteTable::new();
    assert_eq!(table.register(Method::Get, parse("/a/:id"), MiddlewareChain::new(0)), Ok(()));
    assert_eq!(table.register(Method::Get, parse("/a/:name"), MiddlewareChain::new(1)), Ok(()));
    assert_eq!(resolved(&table, Method::Get, "/a/5"), (0, vec![pair("id", "5")]));
}

#[test]
fn contains_knows_method_and_pattern() {
    let mut table = RouteTable::new();
    add(&mut table, Method::Get, "/a", 0);
    assert!(table.contains(Method::Get, &parse("/a")));
    assert!(!table.contains(Method::Post, &parse("/a")));
    assert!(!table.contains(Method::Get, &parse("/b")));
}

#[test]
fn unknown_path_is_not_found() {
    let mut table = RouteTable::new();
    add(&mut table, Method::Get, "/a", 0);
    add(&mut table, Method::Post, "/b/:x", 1);
    assert_eq!(table.resolve(Method::Get, "/nowhere").err(), Some(ResolveError::NotFound));
    assert_eq!(table.resolve(Method::Post, "/b").err(), Some(ResolveError::NotFound));
    assert_eq!(table.resolve(Method::Delete, "/a/b/c").err(), Some(ResolveError::NotFound));
}

#[test]
fn wrong_method_is_method_not_allowed() {
    let mut table = RouteTable::new();
    add(&mut table, Method::Get, "/a", 0);
    add(&mut table, Method::Post, "/b/:x", 1);
    assert_eq!(table.resolve(Method::Post, "/a").err(), Some(ResolveError::MethodNotAllowed));
    assert_eq!(table.resolve(Method::Get, "/b/1").err(), Some(ResolveError::MethodNotAllowed));
    assert_eq!(table.resolve(Method::Head, "/a").err(), Some(ResolveError::MethodNotAllowed));
    assert_ne!(ResolveError::MethodNotAllowed, ResolveError::NotFound);
}

#[test]
fn literal_beats_param_at_the_same_place() {
    let mut table = RouteTable::new();
    add(&mut table, Method::Get, "/files/:name", 0);
    add(&mut table, Method::Get, "/files/index", 1);
    assert_eq!(resolved(&table, Method::Get, "/files/index").0, 1);
    assert_eq!(resolved(&table, Method::Get, "/files/other").0, 0);
}

#[test]
fn longer_literal_prefix_is_preferred() {
    let mut table = RouteTable::new();
    add(&mut table, Method::Get, "/a/:x/c", 0);
    add(&mut table, Method::Get, "/a/b/:y", 1);
    assert_eq!(resolved(&table, Method::Get, "/a/b/c"), (1, vec![pair("y", "c")]));
    assert_eq!(resolved(&table, Method::Get, "/a/z/c"), (0, vec![pair("x", "z")]));
}

#[test]
fn param_beats_catch_all() {
    let mut table = RouteTable::new();
    add(&mut table, Method::Get, "/a/*rest", 0);
    add(&mut table, Method::Get, "/a/:x", 1);
    assert_eq!(resolved(&table, Method::Get, "/a/b").0, 1);
    assert_eq!(resolved(&table, Method::Get, "/a/b/c"), (0, vec![pair("rest", "b/c")]));
}

#[test]
fn exact_end_beats_empty_catch_all() {
    let mut table = RouteTable::new();
    add(&mut table, Method::Get, "/a/*rest", 0);
    add(&mut table, Method::Get, "/a", 1);
    assert_eq!(resolved(&table, Method::Get, "/a").0, 1);
}

#[test]
fn routes_of_other_methods_do_not_compete() {
    let mut table = RouteTable::new();
    add(&mut table, Method::Post, "/a/b", 0);
    add(&mut table, Method::Get, "/a/:x", 1);
    assert_eq!(resolved(&table, Method::Get, "/a/b"), (1, vec![pair("x", "b")]));
}

#[test]
fn resolve_segments_agrees_with_resolve() {
    let mut table = RouteTable::new();
    add(&mut table, Method::Get, "/a/:x", 3);
    let segs = vec!["a".to_string(), "q".to_string()];
    let m = table.resolve_segments(Method::Get, &segs).unwrap();
    assert_eq!(m.index, 0);
    assert_eq!(m.params.get("x"), Some("q"));
}

#[test]
fn register_route_keeps_the_asset() {
    let mut table = RouteTable::new();
    let route = Route {
        method: Method::Get,
        pattern: parse("/f"),
        chain: MiddlewareChain::new(0),
        asset: Some("site/f.txt".to_string()),
    };
    assert_eq!(table.register_route(route), Ok(()));
    assert_eq!(table.route(0).asset.as_deref(), Some("site/f.txt"));
}
