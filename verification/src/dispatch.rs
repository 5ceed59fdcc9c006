//! Dispatch: from a request to a response.
//!
//! Handling a request resolves its route, makes a context for it, runs the
//! route's chain on the context, and turns what the context holds at the
//! end into the response. A request without a route is answered at once,
//! and no link runs. A failure of a link is answered with a server error.

use crate::chain::{run, ChainReport, Descent, Link};
use crate::context::{Context, ContextView, ReplyKind, Request, RequestView};
use crate::fields::{lookup, Fields, Pairs};
use crate::path::{split_path, split_segments};
use crate::router::Router;
use crate::table::{spec_resolve, ResolveError, RouteView};
use vstd::prelude::*;
use vstd::string::*;

verus! {

/// What goes back to the client.
#[derive(Debug)]
pub struct Response {
    pub status: u32,
    pub kind: ReplyKind,
    pub body: String,
    /// Headers to send.
    pub headers: Fields,
    /// Cookies to set.
    pub cookies: Fields,
}

/// A response as plain values.
pub struct ResponseView {
    pub status: u32,
    pub kind: ReplyKind,
    pub body: Seq<char>,
    pub headers: Pairs,
    pub cookies: Pairs,
}

impl View for Response {
    type V = ResponseView;

    open spec fn view(&self) -> ResponseView {
        ResponseView {
            status: self.status,
            kind: self.kind,
            body: self.body@,
            headers: self.headers@,
            cookies: self.cookies@,
        }
    }
}

/// Everything that handling one request produced.
#[derive(Debug)]
pub enum Handled {
    /// The request had no route. No link ran.
    Refused {
        /// Why there is no route.
        reason: ResolveError,
        /// The response to send.
        response: Response,
    },
    /// The request had a route, and the route's chain ran.
    Ran {
        /// The place of the route in the table.
        route: usize,
        /// What running the chain did.
        report: ChainReport,
        /// The context as the chain left it.
        context: Context,
        /// The response to send.
        response: Response,
    },
}

/// The name under which a served directory's route binds the file's place.
pub open spec fn asset_param() -> Seq<char> {
    seq!['f', 'i', 'l', 'e', 'p', 'a', 't', 'h']
}

/// Whether a place steps up out of the directory it is read under: one of
/// its segments is `..`.
pub open spec fn climbs(place: Seq<char>) -> bool {
    exists|k: int|
        0 <= k < split_path(place).len() && #[trigger] split_path(place)[k] == seq!['.', '.']
}

/// The file that a request to a file-serving route is pointed at: the
/// route's file, or, where the pattern bound a place, that place under the
/// route's directory. A place that steps up out of the directory points
/// at nothing.
pub open spec fn spec_asset(asset: Option<Seq<char>>, params: Pairs) -> Option<Seq<char>> {
    match asset {
        None => None,
        Some(base) => match lookup(params, asset_param()) {
            Some(place) => if climbs(place) {
                None
            } else {
                Some(base + seq!['/'] + place)
            },
            None => Some(base),
        },
    }
}

/// The answer to a request that has no route.
pub open spec fn spec_refusal(e: ResolveError) -> ResponseView {
    match e {
        ResolveError::NotFound => ResponseView {
            status: 404,
            kind: ReplyKind::Text,
            body: "Not Found"@,
            headers: Seq::empty(),
            cookies: Seq::empty(),
        },
        ResolveError::MethodNotAllowed => ResponseView {
            status: 405,
            kind: ReplyKind::Text,
            body: "Method Not Allowed"@,
            headers: Seq::empty(),
            cookies: Seq::empty(),
        },
    }
}

/// The answer that a run of a chain comes to: a server error where a link
/// failed; else the committed reply with the headers and cookies asked
/// for; and where no reply was committed, an empty 200.
pub open spec fn spec_response(c: ContextView, failed: bool) -> ResponseView {
    if failed {
        ResponseView {
            status: 500,
            kind: ReplyKind::Text,
            body: "Internal Server Error"@,
            headers: Seq::empty(),
            cookies: Seq::empty(),
        }
    } else {
        match c.reply {
            Some(r) => ResponseView {
                status: r.code,
                kind: r.kind,
                body: r.payload,
                headers: c.headers_out,
                cookies: c.cookies_out,
            },
            None => ResponseView {
                status: 200,
                kind: ReplyKind::Text,
                body: Seq::empty(),
                headers: c.headers_out,
                cookies: c.cookies_out,
            },
        }
    }
}

/// The context that a request starts with once its route is known.
pub open spec fn spec_prepare(route: RouteView, request: RequestView, params: Pairs)
    -> ContextView {
    ContextView { asset: spec_asset(route.asset, params), ..ContextView::fresh(request, params) }
}

/// A request's context is its own: it starts with the request, the values
/// bound in the request's path and the file that the route points at, and
/// with nothing else. No reply, header or cookie of any other request is
/// in it, and it is not cancelled.
pub proof fn law_context_starts_fresh(route: RouteView, request: RequestView, params: Pairs)
    ensures
        spec_prepare(route, request, params).request == request,
        spec_prepare(route, request, params).params == params,
        spec_prepare(route, request, params).asset == spec_asset(route.asset, params),
        spec_prepare(route, request, params).reply is None,
        spec_prepare(route, request, params).headers_out.len() == 0,
        spec_prepare(route, request, params).cookies_out.len() == 0,
        spec_prepare(route, request, params).cursor == 0,
        !spec_prepare(route, request, params).advanced,
        !spec_prepare(route, request, params).cancelled,
{
}

impl Response {
    /// The answer to a request that has no route: 404 where no route knows
    /// the path, 405 where routes of other methods do.
    pub fn refusal(e: ResolveError) -> (out: Response)
        ensures
            out@ == spec_refusal(e),
    {
        match e {
            ResolveError::NotFound => Response {
                status: 404,
                kind: ReplyKind::Text,
                body: "Not Found".to_owned(),
                headers: Fields::new(),
                cookies: Fields::new(),
            },
            ResolveError::MethodNotAllowed => Response {
                status: 405,
                kind: ReplyKind::Text,
                body: "Method Not Allowed".to_owned(),
                headers: Fields::new(),
                cookies: Fields::new(),
            },
        }
    }

    /// The answer that a context comes to at the end of its chain.
    pub fn finish(ctx: &Context, failed: bool) -> (out: Response)
        ensures
            out@ == spec_response(ctx@, failed),
    {
        if failed {
            return Response {
                status: 500,
                kind: ReplyKind::Text,
                body: "Internal Server Error".to_owned(),
                headers: Fields::new(),
                cookies: Fields::new(),
            };
        }
        let headers = ctx.headers_out().duplicate();
        let cookies = ctx.cookies_out().duplicate();
        match ctx.reply() {
            Some(reply) => Response {
                status: reply.code,
                kind: reply.kind,
                body: reply.payload.clone(),
                headers,
                cookies,
            },
            None => Response {
                status: 200,
                kind: ReplyKind::Text,
                body: String::new(),
                headers,
                cookies,
            },
        }
    }
}

/// Whether one of the segments of `place` is `..`.
pub fn steps_up(place: &str) -> (b: bool)
    ensures
        b == climbs(place@),
{
    proof {
        reveal_strlit("..");
        assert(".."@ =~= seq!['.', '.']);
    }
    let up = "..".to_owned();
    let segs = split_segments(place);
    let mut k: usize = 0;
    while k < segs.len()
        invariant
            k <= segs.len(),
            segs.deep_view() == split_path(place@),
            up@ == seq!['.', '.'],
            forall|j: int| 0 <= j < k ==> #[trigger] split_path(place@)[j] != seq!['.', '.'],
        decreases segs.len() - k,
    {
        assert(segs.deep_view()[k as int] == segs@[k as int]@);
        if segs[k] == up {
            return true;
        }
        k += 1;
    }
    false
}

/// The file that a request is pointed at, worked out from the route's
/// asset and the bound values.
pub fn asset_for(asset: &Option<String>, params: &Fields) -> (out: Option<String>)
    ensures
        match out {
            Some(t) => spec_asset(
                match *asset {
                    Some(a) => Some(a@),
                    None => None,
                },
                params@,
            ) == Some(t@),
            None => spec_asset(
                match *asset {
                    Some(a) => Some(a@),
                    None => None,
                },
                params@,
            ) is None,
        },
{
    match asset {
        None => None,
        Some(base) => {
            proof {
                reveal_strlit("filepath");
                reveal_strlit("/");
                assert("filepath"@ =~= asset_param());
            }
            match params.get("filepath") {
                Some(place) => {
                    if steps_up(place) {
                        return None;
                    }
                    let mut out = base.clone();
                    out.append("/");
                    out.append(place);
                    Some(out)
                },
                None => Some(base.clone()),
            }
        },
    }
}

impl<L: Link> Router<L> {
    /// Resolves a request and makes its context: the request, the values
    /// that the route's pattern bound, the file that the route points at,
    /// and nothing else. Every request gets a context of its own, which
    /// holds nothing of any other request.
    pub fn prepare(&self, request: Request) -> (r: Result<(usize, Context), ResolveError>)
        ensures
            match r {
                Ok((index, ctx)) => spec_resolve(
                    self@.table,
                    request@.method,
                    split_path(request@.path),
                ) matches Ok((i, params)) && index == i && index < self@.table.len() && ctx@
                    == spec_prepare(self@.table[i], request@, params),
                Err(e) => spec_resolve(self@.table, request@.method, split_path(request@.path))
                    == Err::<(int, Pairs), ResolveError>(e),
            },
    {
        match self.table().resolve(request.method, request.path.as_str()) {
            Err(e) => Err(e),
            Ok(found) => {
                let route = self.table().route(found.index);
                let asset = asset_for(&route.asset, &found.params);
                let mut ctx = Context::new(request, found.params);
                ctx.set_asset(asset);
                Ok((found.index, ctx))
            },
        }
    }

    /// Handles a request.
    ///
    /// Where the request has no route, the answer is the refusal for the
    /// reason, and no link runs. Where it has, the route's chain runs on a
    /// fresh context, and the answer is what the context holds at the end:
    /// its reply, headers and cookies, or a server error where a link
    /// failed.
    pub fn handle(&self, request: Request) -> (h: Handled)
        ensures
            match spec_resolve(self@.table, request@.method, split_path(request@.path)) {
                Err(e) => h matches Handled::Refused { reason, response } && reason == e
                    && response@ == spec_refusal(e),
                Ok((i, params)) => h matches Handled::Ran { route, report, context, response }
                    && route == i && report.consistent(self@.table[i].chain.middleware.len())
                    && report.descent != Descent::Cancelled(0) && response@ == spec_response(
                    context@,
                    report.failure is Some,
                ),
            },
    {
        self.sound();
        match self.prepare(request) {
            Err(reason) => Handled::Refused { reason, response: Response::refusal(reason) },
            Ok((route, ctx)) => {
                let mut context = ctx;
                let chain = &self.table().route(route).chain;
                let report = run(self.links(), chain, &mut context);
                let response = Response::finish(&context, report.failure.is_some());
                Handled::Ran { route, report, context, response }
            },
        }
    }
}

impl Handled {
    /// The response to send.
    pub fn response(&self) -> (r: &Response)
        ensures
            *r == match *self {
                Handled::Refused { response, .. } => response,
                Handled::Ran { response, .. } => response,
            },
    {
        match self {
            Handled::Refused { response, .. } => response,
            Handled::Ran { response, .. } => response,
        }
    }

    /// The response to send, handed over.
    pub fn into_response(self) -> (r: Response)
        ensures
            r == match self {
                Handled::Refused { response, .. } => response,
                Handled::Ran { response, .. } => response,
            },
    {
        match self {
            Handled::Refused { response, .. } => response,
            Handled::Ran { response, .. } => response,
        }
    }
}

} // verus!
