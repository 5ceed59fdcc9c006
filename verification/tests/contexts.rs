use rin::context::bound;
use rin::{AlreadyResponded, BindError, Context, Fields, Method, NextSignal, ReplyKind, Request};

fn context() -> Context {
    let mut request = Request::new(Method::Get, "/users/42");
    request.query.push("page", "3");
    request.query.push("page", "4");
    request.query.push("word", "abc");
    request.form.push("age", "31");
    request.cookies.push("sid", "xyz");
    request.body = "12345".to_string();
    let mut params = Fields::new();
    params.push("id", "42");
    params.push("name", "ann");
    Context::new(request, params)
}

#[test]
fn new_context_is_fresh() {
    let ctx = context();
    assert!(!ctx.responded());
    assert!(ctx.reply().is_none());
    assert!(!ctx.is_cancelled());
    assert!(!ctx.advanced());
    assert_eq!(ctx.cursor(), 0);
    assert!(ctx.cookies_out().is_empty());
    assert_eq!(ctx.asset(), None);
    assert_eq!(ctx.request().path, "/users/42");
    assert_eq!(ctx.params().len(), 2);
}

#[test]
fn param_reads_typed_values() {
    let ctx = context();
    assert_eq!(ctx.param::<u32>("id"), Some(42));
    assert_eq!(ctx.param::<String>("name"), Some("ann".to_string()));
    assert_eq!(ctx.param_text("id"), Some("42"));
}

#[test]
fn param_absent_or_unparsable_is_none() {
    let ctx = context();
    assert_eq!(ctx.param::<u32>("missing"), None);
    assert_eq!(ctx.param::<u32>("name"), None);
    assert_eq!(ctx.param_text("missing"), None);
}

#[test]
fn typed_reads_take_the_value_and_not_the_name() {
    let mut request = Request::new(Method::Get, "/");
    request.query.push("7", "seven");
    request.query.push("n", "8");
    request.form.push("9", "true");
    request.body = "10".to_string();
    let mut params = Fields::new();
    params.push("5", "five");
    params.push("id", "6");
    let ctx = Context::new(request, params);
    assert_eq!(ctx.param::<u32>("5"), None);
    assert_eq!(ctx.param::<String>("5"), Some("five".to_string()));
    assert_eq!(ctx.param::<u32>("id"), Some(6));
    assert_eq!(ctx.query::<u32>("7"), None);
    assert_eq!(ctx.query::<u32>("n"), Some(8));
    assert_eq!(ctx.form::<u32>("9"), None);
    assert_eq!(ctx.form::<bool>("9"), Some(true));
    assert_eq!(ctx.bind::<u32>(), Ok(10));
}

#[test]
fn query_reads_the_first_value() {
    let ctx = context();
    assert_eq!(ctx.query::<u8>("page"), Some(3));
    assert_eq!(ctx.query_text("word"), Some("abc"));
    assert_eq!(ctx.query::<i64>("word"), None);
    assert_eq!(ctx.query::<i64>("none"), None);
}

#[test]
fn form_reads_typed_values() {
    let ctx = context();
    assert_eq!(ctx.form::<u8>("age"), Some(31));
    assert_eq!(ctx.form_text("age"), Some("31"));
    assert_eq!(ctx.form::<u8>("none"), None);
}

#[test]
fn bind_decodes_the_body() {
    let ctx = context();
    assert_eq!(ctx.bind::<u32>(), Ok(12345));
    assert_eq!(ctx.bind::<String>(), Ok("12345".to_string()));
}

#[test]
fn bind_fails_as_malformed() {
    let ctx = context();
    assert_eq!(ctx.bind::<bool>(), Err(BindError::Malformed));
    assert_eq!(ctx.bind::<u8>(), Err(BindError::Malformed));
}

#[test]
fn bound_turns_no_decoding_into_malformed() {
    assert_eq!(bound(Some(5)), Ok(5));
    assert_eq!(bound::<u8>(None), Err(BindError::Malformed));
}

#[test]
fn cookies_are_read_and_set() {
    let mut ctx = context();
    assert_eq!(ctx.cookie("sid"), Some("xyz".to_string()));
    assert_eq!(ctx.cookie("none"), None);
    ctx.set_cookie("a", "1");
    ctx.set_cookie("b", "2");
    assert_eq!(ctx.cookies_out().len(), 2);
    assert_eq!(ctx.cookies_out().get("a"), Some("1"));
    assert_eq!(ctx.cookies_out().get("b"), Some("2"));
    // what is set is not what came in
    assert_eq!(ctx.cookie("a"), None);
}

#[test]
fn headers_are_read_and_set() {
    let mut request = Request::new(Method::Get, "/");
    request.headers.push("accept", "text/plain");
    let mut ctx = Context::new(request, Fields::new());
    assert_eq!(ctx.header("accept"), Some("text/plain"));
    assert_eq!(ctx.header("host"), None);
    assert!(ctx.headers_out().is_empty());
    ctx.set_header("x-trace", "1");
    ctx.set_header("cache-control", "no-store");
    assert_eq!(ctx.headers_out().len(), 2);
    assert_eq!(ctx.headers_out().entries[0].name, "x-trace");
    assert_eq!(ctx.headers_out().get("cache-control"), Some("no-store"));
}

#[test]
fn first_reply_stays() {
    let mut ctx = context();
    assert_eq!(ctx.string(200, "hello"), Ok(()));
    assert!(ctx.responded());
    assert_eq!(ctx.string(500, "again"), Err(AlreadyResponded));
    let reply = ctx.reply().unwrap();
    assert_eq!(reply.code, 200);
    assert_eq!(reply.kind, ReplyKind::Text);
    assert_eq!(reply.payload, "hello");
}

#[test]
fn every_writer_is_write_once() {
    let mut ctx = context();
    assert_eq!(ctx.json(201, "{}"), Ok(()));
    assert_eq!(ctx.string(200, "x"), Err(AlreadyResponded));
    assert_eq!(ctx.json(200, "x"), Err(AlreadyResponded));
    assert_eq!(ctx.jsonp(200, "x"), Err(AlreadyResponded));
    assert_eq!(ctx.redirect(302, "/x"), Err(AlreadyResponded));
    assert_eq!(ctx.respond(200, ReplyKind::File, "x"), Err(AlreadyResponded));
    let reply = ctx.reply().unwrap();
    assert_eq!((reply.code, reply.kind, reply.payload.as_str()), (201, ReplyKind::Json, "{}"));
}

#[test]
fn writers_set_their_kind() {
    let mut a = context();
    a.jsonp(200, "{\"a\":1}").unwrap();
    assert_eq!(a.reply().unwrap().kind, ReplyKind::Jsonp);
    let mut b = context();
    b.redirect(302, "/login").unwrap();
    let reply = b.reply().unwrap();
    assert_eq!((reply.code, reply.kind, reply.payload.as_str()), (302, ReplyKind::Redirect, "/login"));
    let mut c = context();
    c.respond(200, ReplyKind::File, "site/a.css").unwrap();
    assert_eq!(c.reply().unwrap().kind, ReplyKind::File);
}

#[test]
fn next_in_a_fresh_context_is_exhausted() {
    let mut ctx = context();
    assert_eq!(ctx.next(), NextSignal::Exhausted);
    assert!(!ctx.advanced());
    assert_eq!(ctx.next(), NextSignal::Exhausted);
}

#[test]
fn next_on_a_cancelled_request_signals_it() {
    let mut ctx = context();
    ctx.cancel();
    assert!(ctx.is_cancelled());
    assert_eq!(ctx.next(), NextSignal::Cancelled);
    assert!(!ctx.advanced());
}

#[test]
fn asset_can_be_set() {
    let mut ctx = context();
    ctx.set_asset(Some("site/a.css".to_string()));
    assert_eq!(ctx.asset(), Some("site/a.css"));
    ctx.set_asset(None);
    assert_eq!(ctx.asset(), None);
}

#[test]
fn fields_lookup_finds_the_first() {
    let mut f = Fields::new();
    assert!(f.is_empty());
    f.push("a", "1");
    f.push("b", "2");
    f.push("a", "3");
    f.push_owned("c".to_string(), "4".to_string());
    assert_eq!(f.len(), 4);
    assert_eq!(f.get("a"), Some("1"));
    assert_eq!(f.get("c"), Some("4"));
    assert_eq!(f.get("d"), None);
    assert!(f.contains("b"));
    assert!(!f.contains("z"));
    let copy = f.duplicate();
    assert_eq!(copy.len(), 4);
    assert_eq!(copy.entries[2].name, "a");
    assert_eq!(copy.entries[2].value, "3");
}
