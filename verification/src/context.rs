//! The per-request context.
//!
//! A context is made for one request and handed to every link of the
//! route's chain in turn. It holds what came in (the request and the values
//! bound by the route's pattern), what goes out (at most one reply, and
//! cookies to set), and where the chain stands.

use crate::fields::{lookup, Fields, Pairs};
use crate::table::Method;
use std::str::FromStr;
use vstd::prelude::*;
use vstd::string::*;

verus! {

/// What came in, already decoded.
#[derive(Debug)]
pub struct Request {
    pub method: Method,
    pub path: String,
    /// The peer's address, as the transport reports it.
    pub remote: String,
    pub headers: Fields,
    pub query: Fields,
    pub form: Fields,
    pub cookies: Fields,
    pub body: String,
}

/// A request as plain values.
pub struct RequestView {
    pub method: Method,
    pub path: Seq<char>,
    pub remote: Seq<char>,
    pub headers: Pairs,
    pub query: Pairs,
    pub form: Pairs,
    pub cookies: Pairs,
    pub body: Seq<char>,
}

impl View for Request {
    type V = RequestView;

    open spec fn view(&self) -> RequestView {
        RequestView {
            method: self.method,
            path: self.path@,
            remote: self.remote@,
            headers: self.headers@,
            query: self.query@,
            form: self.form@,
            cookies: self.cookies@,
            body: self.body@,
        }
    }
}

impl Request {
    /// A request for `path` with nothing else in it.
    pub fn new(method: Method, path: &str) -> (out: Request)
        ensures
            out@ == (RequestView {
                method,
                path: path@,
                remote: Seq::empty(),
                headers: Seq::empty(),
                query: Seq::empty(),
                form: Seq::empty(),
                cookies: Seq::empty(),
                body: Seq::empty(),
            }),
    {
        Request {
            method,
            path: path.to_owned(),
            remote: String::new(),
            headers: Fields::new(),
            query: Fields::new(),
            form: Fields::new(),
            cookies: Fields::new(),
            body: String::new(),
        }
    }
}

/// How a reply's payload is to be read.
#[derive(Debug, Clone, Copy, PartialEq, Eq, Structural)]
pub enum ReplyKind {
    /// Plain text.
    Text,
    /// A JSON document.
    Json,
    /// A JSON document to be wrapped in a callback.
    Jsonp,
    /// The payload is the address to go to.
    Redirect,
    /// The payload is the path of a file whose contents are the body.
    File,
}

/// The reply that a link committed.
#[derive(Debug)]
pub struct Reply {
    pub code: u32,
    pub kind: ReplyKind,
    pub payload: String,
}

/// A reply as plain values.
pub struct ReplyView {
    pub code: u32,
    pub kind: ReplyKind,
    pub payload: Seq<char>,
}

impl View for Reply {
    type V = ReplyView;

    open spec fn view(&self) -> ReplyView {
        ReplyView { code: self.code, kind: self.kind, payload: self.payload@ }
    }
}

/// A reply was committed on this context before.
#[derive(Debug, Clone, Copy, PartialEq, Eq, Structural)]
pub struct AlreadyResponded;

/// Why the request's body could not be read as the type asked for.
#[derive(Debug, Clone, Copy, PartialEq, Eq, Structural)]
pub enum BindError {
    /// The body does not decode.
    Malformed,
}

/// What `next` tells the link that called it.
#[derive(Debug, Clone, Copy, PartialEq, Eq, Structural)]
pub enum NextSignal {
    /// The next link runs once this one's entry phase returns.
    Continue,
    /// This link is the last of the chain: nothing follows.
    Exhausted,
    /// The request was cancelled: nothing follows, and the link should
    /// wind up.
    Cancelled,
}

/// A context as plain values.
pub struct ContextView {
    pub request: RequestView,
    /// The values bound by the route's pattern.
    pub params: Pairs,
    /// The file that a file-serving route points this request at.
    pub asset: Option<Seq<char>>,
    /// The committed reply, once there is one.
    pub reply: Option<ReplyView>,
    /// Headers to send with the reply, in the order in which they were set.
    pub headers_out: Pairs,
    /// Cookies to set with the reply, in the order in which they were set.
    pub cookies_out: Pairs,
    /// The place in the chain of the link that is running.
    pub cursor: nat,
    /// The place of the chain's last link, the handler.
    pub last: nat,
    /// Whether the running link asked for the next one.
    pub advanced: bool,
    /// Whether the request was cancelled.
    pub cancelled: bool,
}

impl ContextView {
    /// The context that a request starts with.
    pub open spec fn fresh(request: RequestView, params: Pairs) -> ContextView {
        ContextView {
            request,
            params,
            asset: None,
            reply: None,
            headers_out: Seq::empty(),
            cookies_out: Seq::empty(),
            cursor: 0,
            last: 0,
            advanced: false,
            cancelled: false,
        }
    }

    /// The context after an attempt to commit `reply`: the first reply
    /// stays.
    pub open spec fn commit(self, reply: ReplyView) -> ContextView {
        if self.reply is Some {
            self
        } else {
            ContextView { reply: Some(reply), ..self }
        }
    }

    /// What `next` signals in this state.
    pub open spec fn signal(self) -> NextSignal {
        if self.cancelled {
            NextSignal::Cancelled
        } else if self.cursor >= self.last {
            NextSignal::Exhausted
        } else {
            NextSignal::Continue
        }
    }

    /// The context after `next`: the wish to go on is noted where a link
    /// follows and the request is live.
    pub open spec fn advance(self) -> ContextView {
        if self.signal() == NextSignal::Continue {
            ContextView { advanced: true, ..self }
        } else {
            self
        }
    }

    /// The context as link `at` of a chain that ends at `last` is entered
    /// or left.
    pub open spec fn at_link(self, at: nat, last: nat) -> ContextView {
        ContextView { cursor: at, last, advanced: false, ..self }
    }
}

/// The per-request context.
#[derive(Debug)]
pub struct Context {
    request: Request,
    params: Fields,
    asset: Option<String>,
    reply: Option<Reply>,
    headers_out: Fields,
    cookies_out: Fields,
    cursor: usize,
    last: usize,
    advanced: bool,
    cancelled: bool,
}

impl View for Context {
    type V = ContextView;

    closed spec fn view(&self) -> ContextView {
        ContextView {
            request: self.request@,
            params: self.params@,
            asset: match self.asset {
                Some(a) => Some(a@),
                None => None,
            },
            reply: match self.reply {
                Some(r) => Some(r@),
                None => None,
            },
            headers_out: self.headers_out@,
            cookies_out: self.cookies_out@,
            cursor: self.cursor as nat,
            last: self.last as nat,
            advanced: self.advanced,
            cancelled: self.cancelled,
        }
    }
}

/// Reads `text` as a `T` with `str::parse`, which hands the text to `T`'s
/// own `FromStr`; an error becomes `None`. Nothing is claimed of the
/// outcome: it is `T`'s to decide.
#[verifier::external_body]
fn parse_text<T: FromStr>(text: &str) -> (out: Option<T>) {
    match text.parse::<T>() {
        Ok(value) => Some(value),
        Err(_) => None,
    }
}

/// `read` is what reading `text` as a `T` gave: the value that `T`'s
/// `FromStr` made of the text, or nothing where it made none. What that
/// is, is `T`'s to decide; this says only that it is this text that was
/// read, and that `read` is what came of it.
pub closed spec fn reads_as<T: FromStr>(text: Seq<char>, read: Option<T>) -> bool {
    exists|t: &str| t@ == text && #[trigger] call_ensures(parse_text::<T>, (t,), read)
}

/// What binding makes of a reading: the value read, or `Malformed` where
/// none was.
pub open spec fn spec_bound<T>(read: Option<T>) -> Result<T, BindError> {
    match read {
        Some(v) => Ok(v),
        None => Err(BindError::Malformed),
    }
}

/// What binding a body gives: the decoded value, or `Malformed` where
/// decoding gave none.
pub fn bound<T>(decoded: Option<T>) -> (out: Result<T, BindError>)
    ensures
        out == spec_bound(decoded),
{
    match decoded {
        Some(v) => Ok(v),
        None => Err(BindError::Malformed),
    }
}

impl Context {
    /// The context for a request that resolved with these bindings:
    /// nothing replied, nothing cancelled, the chain not yet begun. It
    /// holds nothing but what it is given.
    pub fn new(request: Request, params: Fields) -> (out: Context)
        ensures
            out@ == ContextView::fresh(request@, params@),
    {
        Context {
            request,
            params,
            asset: None,
            reply: None,
            headers_out: Fields::new(),
            cookies_out: Fields::new(),
            cursor: 0,
            last: 0,
            advanced: false,
            cancelled: false,
        }
    }

    /// The request.
    pub fn request(&self) -> (r: &Request)
        ensures
            r@ == self@.request,
    {
        &self.request
    }

    /// The values bound by the route's pattern.
    pub fn params(&self) -> (p: &Fields)
        ensures
            p@ == self@.params,
    {
        &self.params
    }

    /// The text of the path parameter `name`.
    pub fn param_text(&self, name: &str) -> (found: Option<&str>)
        ensures
            match found {
                Some(v) => lookup(self@.params, name@) == Some(v@),
                None => lookup(self@.params, name@) is None,
            },
    {
        self.params.get(name)
    }

    /// The text of the first query value named `name`.
    pub fn query_text(&self, name: &str) -> (found: Option<&str>)
        ensures
            match found {
                Some(v) => lookup(self@.request.query, name@) == Some(v@),
                None => lookup(self@.request.query, name@) is None,
            },
    {
        self.request.query.get(name)
    }

    /// The text of the first form value named `name`.
    pub fn form_text(&self, name: &str) -> (found: Option<&str>)
        ensures
            match found {
                Some(v) => lookup(self@.request.form, name@) == Some(v@),
                None => lookup(self@.request.form, name@) is None,
            },
    {
        self.request.form.get(name)
    }

    /// The path parameter `name` read as a `T`: nothing where the pattern
    /// bound no such name; else what reading the bound text as a `T` gives,
    /// which is nothing where the text does not read as one.
    pub fn param<T: FromStr>(&self, name: &str) -> (out: Option<T>)
        ensures
            match lookup(self@.params, name@) {
                Some(text) => reads_as::<T>(text, out),
                None => out is None,
            },
    {
        match self.param_text(name) {
            Some(text) => parse_text::<T>(text),
            None => None,
        }
    }

    /// The query value `name` read as a `T`: nothing where the query holds
    /// no such name; else what reading its first value as a `T` gives,
    /// which is nothing where the text does not read as one.
    pub fn query<T: FromStr>(&self, name: &str) -> (out: Option<T>)
        ensures
            match lookup(self@.request.query, name@) {
                Some(text) => reads_as::<T>(text, out),
                None => out is None,
            },
    {
        match self.query_text(name) {
            Some(text) => parse_text::<T>(text),
            None => None,
        }
    }

    /// The form value `name` read as a `T`: nothing where the form holds
    /// no such name; else what reading its first value as a `T` gives,
    /// which is nothing where the text does not read as one.
    pub fn form<T: FromStr>(&self, name: &str) -> (out: Option<T>)
        ensures
            match lookup(self@.request.form, name@) {
                Some(text) => reads_as::<T>(text, out),
                None => out is None,
            },
    {
        match self.form_text(name) {
            Some(text) => parse_text::<T>(text),
            None => None,
        }
    }

    /// The request's body read as a `T`: what reading the whole body as a
    /// `T` gives, and `Malformed` where it does not read as one.
    pub fn bind<T: FromStr>(&self) -> (out: Result<T, BindError>)
        ensures
            exists|read: Option<T>| #[trigger]
                reads_as::<T>(self@.request.body, read) && out == spec_bound(read),
    {
        let read = parse_text::<T>(self.request.body.as_str());
        assert(reads_as::<T>(self@.request.body, read));
        bound(read)
    }

    /// The value of the request's first header named `name`, spelled as
    /// the transport spelled it.
    pub fn header(&self, name: &str) -> (found: Option<&str>)
        ensures
            match found {
                Some(v) => lookup(self@.request.headers, name@) == Some(v@),
                None => lookup(self@.request.headers, name@) is None,
            },
    {
        self.request.headers.get(name)
    }

    /// Asks for a header to be sent with the reply.
    pub fn set_header(&mut self, name: &str, value: &str)
        ensures
            final(self)@ == (ContextView {
                headers_out: old(self)@.headers_out.push((name@, value@)),
                ..old(self)@
            }),
    {
        self.headers_out.push(name, value);
    }

    /// The headers asked to be sent so far.
    pub fn headers_out(&self) -> (h: &Fields)
        ensures
            h@ == self@.headers_out,
    {
        &self.headers_out
    }

    /// The value of the request's cookie `name`.
    pub fn cookie(&self, name: &str) -> (found: Option<String>)
        ensures
            match found {
                Some(v) => lookup(self@.request.cookies, name@) == Some(v@),
                None => lookup(self@.request.cookies, name@) is None,
            },
    {
        match self.request.cookies.get(name) {
            Some(v) => Some(v.to_owned()),
            None => None,
        }
    }

    /// Asks for the cookie `name` to be set with the reply.
    pub fn set_cookie(&mut self, name: &str, value: &str)
        ensures
            final(self)@ == (ContextView {
                cookies_out: old(self)@.cookies_out.push((name@, value@)),
                ..old(self)@
            }),
    {
        self.cookies_out.push(name, value);
    }

    /// The cookies asked to be set so far.
    pub fn cookies_out(&self) -> (c: &Fields)
        ensures
            c@ == self@.cookies_out,
    {
        &self.cookies_out
    }

    /// The file that a file-serving route points this request at.
    pub fn asset(&self) -> (a: Option<&str>)
        ensures
            match a {
                Some(t) => self@.asset == Some(t@),
                None => self@.asset is None,
            },
    {
        match &self.asset {
            Some(t) => Some(t.as_str()),
            None => None,
        }
    }

    /// Points the request at a file.
    pub fn set_asset(&mut self, asset: Option<String>)
        ensures
            final(self)@ == (ContextView {
                asset: match asset {
                    Some(a) => Some(a@),
                    None => None,
                },
                ..old(self)@
            }),
    {
        self.asset = asset;
    }

    /// Commits a reply unless one is committed already: the first reply
    /// stays, and every later attempt fails and changes nothing.
    pub fn respond(&mut self, code: u32, kind: ReplyKind, payload: &str) -> (r: Result<
        (),
        AlreadyResponded,
    >)
        ensures
            final(self)@ == old(self)@.commit(ReplyView { code, kind, payload: payload@ }),
            r is Err <==> old(self)@.reply is Some,
    {
        if self.reply.is_some() {
            return Err(AlreadyResponded);
        }
        self.reply = Some(Reply { code, kind, payload: payload.to_owned() });
        Ok(())
    }

    /// Replies with plain text.
    pub fn string(&mut self, code: u32, data: &str) -> (r: Result<(), AlreadyResponded>)
        ensures
            final(self)@ == old(self)@.commit(
                ReplyView { code, kind: ReplyKind::Text, payload: data@ },
            ),
            r is Err <==> old(self)@.reply is Some,
    {
        self.respond(code, ReplyKind::Text, data)
    }

    /// Replies with a JSON document, given as its text.
    pub fn json(&mut self, code: u32, data: &str) -> (r: Result<(), AlreadyResponded>)
        ensures
            final(self)@ == old(self)@.commit(
                ReplyView { code, kind: ReplyKind::Json, payload: data@ },
            ),
            r is Err <==> old(self)@.reply is Some,
    {
        self.respond(code, ReplyKind::Json, data)
    }

    /// Replies with a JSON document to be wrapped in a callback.
    pub fn jsonp(&mut self, code: u32, data: &str) -> (r: Result<(), AlreadyResponded>)
        ensures
            final(self)@ == old(self)@.commit(
                ReplyView { code, kind: ReplyKind::Jsonp, payload: data@ },
            ),
            r is Err <==> old(self)@.reply is Some,
    {
        self.respond(code, ReplyKind::Jsonp, data)
    }

    /// Replies by sending the client to `url`.
    pub fn redirect(&mut self, code: u32, url: &str) -> (r: Result<(), AlreadyResponded>)
        ensures
            final(self)@ == old(self)@.commit(
                ReplyView { code, kind: ReplyKind::Redirect, payload: url@ },
            ),
            r is Err <==> old(self)@.reply is Some,
    {
        self.respond(code, ReplyKind::Redirect, url)
    }

    /// The committed reply, if there is one.
    pub fn reply(&self) -> (r: Option<&Reply>)
        ensures
            match r {
                Some(reply) => self@.reply == Some(reply@),
                None => self@.reply is None,
            },
    {
        self.reply.as_ref()
    }

    /// Whether a reply is committed.
    pub fn responded(&self) -> (b: bool)
        ensures
            b == self@.reply is Some,
    {
        self.reply.is_some()
    }

    /// Asks for the next link of the chain. Where a link follows and the
    /// request is live, it runs once the calling link's entry phase has
    /// returned. In the chain's last link the call changes nothing and
    /// signals that the chain is exhausted; on a cancelled request it
    /// changes nothing and signals the cancellation. To call it again in
    /// the same phase changes nothing more.
    pub fn next(&mut self) -> (signal: NextSignal)
        ensures
            signal == old(self)@.signal(),
            final(self)@ == old(self)@.advance(),
    {
        if self.cancelled {
            NextSignal::Cancelled
        } else if self.cursor >= self.last {
            NextSignal::Exhausted
        } else {
            self.advanced = true;
            NextSignal::Continue
        }
    }

    /// Marks the request as cancelled: no further link is entered.
    pub fn cancel(&mut self)
        ensures
            final(self)@ == (ContextView { cancelled: true, ..old(self)@ }),
    {
        self.cancelled = true;
    }

    /// Whether the request was cancelled.
    pub fn is_cancelled(&self) -> (b: bool)
        ensures
            b == self@.cancelled,
    {
        self.cancelled
    }

    /// The place in the chain of the link that is running.
    pub fn cursor(&self) -> (at: usize)
        ensures
            at == self@.cursor,
    {
        self.cursor
    }

    /// Whether the running link asked for the next one.
    pub fn advanced(&self) -> (b: bool)
        ensures
            b == self@.advanced,
    {
        self.advanced
    }

    /// Moves the cursor to link `at` of a chain that ends at `last`, with
    /// no wish to go on noted.
    pub(crate) fn place(&mut self, at: usize, last: usize)
        ensures
            final(self)@ == old(self)@.at_link(at as nat, last as nat),
    {
        self.cursor = at;
        self.last = last;
        self.advanced = false;
    }
}

/// A reply is written once: after any attempt to commit a reply the
/// context holds one, so every later attempt fails, and it changes
/// nothing. The reply held is the first that was committed.
pub proof fn law_reply_written_once(c: ContextView, first: ReplyView, second: ReplyView)
    ensures
        c.commit(first).reply is Some,
        c.commit(first).commit(second) == c.commit(first),
        c.reply is None ==> c.commit(first).reply == Some(first),
{
}

/// To ask for the next link twice in one phase is to ask once: the second
/// call gives the same signal and leaves the context as the first left it.
pub proof fn law_next_idempotent(c: ContextView)
    ensures
        c.advance().signal() == c.signal(),
        c.advance().advance() == c.advance(),
{
}

/// In the chain's last link, and on a cancelled request, asking for the
/// next link changes nothing.
pub proof fn law_next_exhausted(c: ContextView)
    requires
        c.cancelled || c.cursor >= c.last,
    ensures
        c.advance() == c,
        c.signal() != NextSignal::Continue,
{
}

} // verus!
