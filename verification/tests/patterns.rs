use rin::{PathPattern, PatternError, Segment};

fn parse(spec: &str) -> PathPattern {
    match PathPattern::parse(spec) {
        Ok(p) => p,
        Err(e) => panic!("{:?} for {}", e, spec),
    }
}

fn shape(p: &PathPattern) -> Vec<String> {
    p.segments()
        .iter()
        .map(|s| match s {
            Segment::Literal(t) => format!("L:{}", t),
            Segment::Param(n) => format!("P:{}", n),
            Segment::CatchAll(n) => format!("C:{}", n),
        })
        .collect()
}

fn bound(p: &PathPattern, path: &str) -> Option<Vec<(String, String)>> {
    p.matches(path)
        .map(|f| f.entries.iter().map(|e| (e.name.clone(), e.value.clone())).collect())
}

fn pair(name: &str, value: &str) -> (String, String) {
    (name.to_string(), value.to_string())
}

#[test]
fn parse_reads_literals_params_and_catch_all() {
    let p = parse("/users/:id/files/*rest");
    assert_eq!(shape(&p), vec!["L:users", "P:id", "L:files", "C:rest"]);
    assert_eq!(p.len(), 4);
}

#[test]
fn parse_drops_empty_pieces() {
    assert_eq!(shape(&parse("//a///b/")), vec!["L:a", "L:b"]);
    assert_eq!(shape(&parse("")), Vec::<String>::new());
    assert_eq!(shape(&parse("/")), Vec::<String>::new());
}

#[test]
fn parse_rejects_empty_names() {
    assert_eq!(PathPattern::parse("/a/:").err(), Some(PatternError::EmptyName));
    assert_eq!(PathPattern::parse("/a/*").err(), Some(PatternError::EmptyName));
    assert_eq!(PathPattern::parse("/:/b").err(), Some(PatternError::EmptyName));
}

#[test]
fn parse_rejects_duplicate_names() {
    assert_eq!(PathPattern::parse("/:id/x/:id").err(), Some(PatternError::DuplicateName));
    assert_eq!(PathPattern::parse("/:id/*id").err(), Some(PatternError::DuplicateName));
}

#[test]
fn parse_rejects_catch_all_before_the_end() {
    assert_eq!(PathPattern::parse("/*rest/more").err(), Some(PatternError::CatchAllNotLast));
    assert_eq!(PathPattern::parse("/a/*rest/:id").err(), Some(PatternError::CatchAllNotLast));
}

#[test]
fn parse_reports_the_first_fault() {
    // the misplaced catch-all comes before the empty name
    assert_eq!(PathPattern::parse("/*rest/:").err(), Some(PatternError::CatchAllNotLast));
    // the empty name comes before the duplicate
    assert_eq!(PathPattern::parse("/:a/:/:a").err(), Some(PatternError::EmptyName));
    // an empty catch-all that is also misplaced is reported as empty
    assert_eq!(PathPattern::parse("/*/x").err(), Some(PatternError::EmptyName));
    // a misplaced catch-all whose name is taken is reported as misplaced
    assert_eq!(PathPattern::parse("/:a/*a/x").err(), Some(PatternError::CatchAllNotLast));
}

#[test]
fn literal_pattern_matches_itself_only() {
    let p = parse("/admin/index");
    assert_eq!(bound(&p, "/admin/index"), Some(vec![]));
    assert_eq!(bound(&p, "admin//index/"), Some(vec![]));
    assert_eq!(bound(&p, "/index"), None);
    assert_eq!(bound(&p, "/admin"), None);
    assert_eq!(bound(&p, "/admin/index/more"), None);
    assert_eq!(bound(&p, "/admin/other"), None);
}

#[test]
fn literal_match_is_case_sensitive() {
    let p = parse("/Admin");
    assert_eq!(bound(&p, "/Admin"), Some(vec![]));
    assert_eq!(bound(&p, "/admin"), None);
}

#[test]
fn param_binds_one_segment() {
    let p = parse("/users/:id");
    assert_eq!(bound(&p, "/users/42"), Some(vec![pair("id", "42")]));
    assert_eq!(bound(&p, "/users/a b"), Some(vec![pair("id", "a b")]));
    assert_eq!(bound(&p, "/users"), None);
    assert_eq!(bound(&p, "/users/"), None);
    assert_eq!(bound(&p, "/users/42/x"), None);
}

#[test]
fn params_bind_in_pattern_order() {
    let p = parse("/:a/x/:b");
    assert_eq!(bound(&p, "/1/x/2"), Some(vec![pair("a", "1"), pair("b", "2")]));
    assert_eq!(bound(&p, "/1/y/2"), None);
}

#[test]
fn catch_all_binds_the_rest() {
    let p = parse("/static/*filepath");
    assert_eq!(bound(&p, "/static/css/site.css"), Some(vec![pair("filepath", "css/site.css")]));
    assert_eq!(bound(&p, "/static/a"), Some(vec![pair("filepath", "a")]));
    assert_eq!(bound(&p, "/static//a///b/"), Some(vec![pair("filepath", "a/b")]));
    assert_eq!(bound(&p, "/static"), Some(vec![pair("filepath", "")]));
    assert_eq!(bound(&p, "/other/a"), None);
}

#[test]
fn catch_all_alone_matches_everything() {
    let p = parse("/*all");
    assert_eq!(bound(&p, "/"), Some(vec![pair("all", "")]));
    assert_eq!(bound(&p, "/a/b/c"), Some(vec![pair("all", "a/b/c")]));
}

#[test]
fn empty_pattern_matches_the_root_only() {
    let p = parse("/");
    assert_eq!(bound(&p, "/"), Some(vec![]));
    assert_eq!(bound(&p, ""), Some(vec![]));
    assert_eq!(bound(&p, "/a"), None);
}

#[test]
fn match_segments_agrees_with_fits() {
    let p = parse("/a/:b");
    let yes = vec!["a".to_string(), "1".to_string()];
    let no = vec!["x".to_string(), "1".to_string()];
    assert!(p.fits(&yes));
    assert!(!p.fits(&no));
    assert!(p.match_segments(&no).is_none());
    let found = p.match_segments(&yes).unwrap();
    assert_eq!(found.len(), 1);
    assert_eq!(found.get("b"), Some("1"));
}

#[test]
fn same_compares_kind_and_text() {
    assert!(parse("/a/:id").same(&parse("a//:id/")));
    assert!(!parse("/a/:id").same(&parse("/a/:name")));
    assert!(!parse("/a/:id").same(&parse("/a/id")));
    assert!(!parse("/a/:id").same(&parse("/a/*id")));
    assert!(!parse("/a").same(&parse("/a/b")));
    assert!(parse("/a").duplicate().same(&parse("/a")));
}

#[test]
fn literal_outranks_param_outranks_catch_all() {
    let lit = parse("/a/b");
    let par = parse("/a/:x");
    let all = parse("/a/*x");
    assert!(lit.more_specific_than(&par));
    assert!(par.more_specific_than(&all));
    assert!(lit.more_specific_than(&all));
    assert!(!par.more_specific_than(&lit));
    assert!(!all.more_specific_than(&par));
    assert!(!lit.more_specific_than(&lit));
}

#[test]
fn first_difference_decides_rank() {
    // the longer literal prefix wins, whatever follows
    assert!(parse("/a/b/:x").more_specific_than(&parse("/a/:y/c")));
    assert!(!parse("/a/:y/c").more_specific_than(&parse("/a/b/:x")));
    // equal kinds throughout: neither outranks
    assert!(!parse("/a/:x").more_specific_than(&parse("/b/:y")));
    assert!(!parse("/b/:y").more_specific_than(&parse("/a/:x")));
    // a pattern that ends outranks one that goes on
    assert!(parse("/a").more_specific_than(&parse("/a/*rest")));
    assert!(!parse("/a/*rest").more_specific_than(&parse("/a")));
}

#[test]
fn segment_rank_values() {
    assert_eq!(Segment::Literal("a".to_string()).rank(), 0);
    assert_eq!(Segment::Param("a".to_string()).rank(), 1);
    assert_eq!(Segment::CatchAll("a".to_string()).rank(), 2);
}
