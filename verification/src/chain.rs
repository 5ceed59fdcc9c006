//! Middleware chains: the links that run for a route, in order.
//!
//! A chain names its links by their numbers in the router's list of links:
//! first the middleware, outermost first, then the handler, which is always
//! the last link.

use crate::context::Context;
use vstd::prelude::*;

verus! {

/// The links of one route: middleware, outermost first, and the handler.
#[derive(Debug)]
pub struct MiddlewareChain {
    pub middleware: Vec<usize>,
    pub handler: usize,
}

/// A chain as plain values.
pub struct ChainView {
    pub middleware: Seq<usize>,
    pub handler: usize,
}

impl ChainView {
    /// Every link of the chain in the order of entry: the middleware, then
    /// the handler.
    pub open spec fn links(self) -> Seq<usize> {
        self.middleware.push(self.handler)
    }

    /// Every link of the chain is below `bound`.
    pub open spec fn within(self, bound: nat) -> bool {
        &&& self.handler < bound
        &&& forall|k: int| 0 <= k < self.middleware.len() ==> #[trigger] self.middleware[k] < bound
    }
}

impl View for MiddlewareChain {
    type V = ChainView;

    open spec fn view(&self) -> ChainView {
        ChainView { middleware: self.middleware@, handler: self.handler }
    }
}

impl MiddlewareChain {
    /// A chain of the handler alone.
    pub fn new(handler: usize) -> (out: MiddlewareChain)
        ensures
            out@.middleware == Seq::<usize>::empty(),
            out@.handler == handler,
    {
        MiddlewareChain { middleware: Vec::new(), handler }
    }

    /// The chain that runs `middleware`, outermost first, around `handler`.
    pub fn compose(middleware: Vec<usize>, handler: usize) -> (out: MiddlewareChain)
        ensures
            out@.middleware == middleware@,
            out@.handler == handler,
    {
        MiddlewareChain { middleware, handler }
    }

    /// The number of middleware links, the handler not counted.
    pub fn depth(&self) -> (n: usize)
        ensures
            n == self@.middleware.len(),
    {
        self.middleware.len()
    }

    /// The link at place `at`: a middleware below `depth()`, the handler at
    /// `depth()`.
    pub fn link(&self, at: usize) -> (id: usize)
        requires
            at <= self@.middleware.len(),
        ensures
            id == self@.links()[at as int],
    {
        if at < self.middleware.len() {
            self.middleware[at]
        } else {
            self.handler
        }
    }

    /// A copy of the chain.
    pub fn duplicate(&self) -> (out: MiddlewareChain)
        ensures
            out@ == self@,
    {
        let mut middleware: Vec<usize> = Vec::new();
        let mut k: usize = 0;
        while k < self.middleware.len()
            invariant
                k <= self.middleware.len(),
                middleware@ == self.middleware@.take(k as int),
            decreases self.middleware.len() - k,
        {
            middleware.push(self.middleware[k]);
            k += 1;
        }
        assert(self.middleware@.take(k as int) =~= self.middleware@);
        MiddlewareChain { middleware, handler: self.handler }
    }
}

/// A failure that a link gives up with.
#[derive(Debug)]
pub struct Failure {
    pub message: String,
}

/// One link of a chain: a middleware or a handler.
///
/// A link runs in two phases. `enter` runs on the way in; a middleware
/// that wants the rest of the chain to run calls `Context::next` in it. A
/// middleware that does not is the last link to run on the way in. `leave`
/// runs on the way out, once everything inside the link has returned, and
/// only for a middleware that asked for the next link. A handler is the
/// last link of its chain and runs `enter` alone.
pub trait Link {
    /// The link's work on the way in.
    fn enter(&self, ctx: &mut Context) -> (r: Result<(), Failure>);

    /// The link's work on the way out.
    fn leave(&self, ctx: &mut Context) -> (r: Result<(), Failure>);
}

/// A phase of a link that was started.
#[derive(Debug, Clone, Copy, PartialEq, Eq, Structural)]
pub enum Event {
    /// The entry phase of the middleware at this place of the chain.
    Before(usize),
    /// The handler.
    Handler,
    /// The leave phase of the middleware at this place of the chain.
    After(usize),
}

/// How the way into a chain ended.
#[derive(Debug, Clone, Copy, PartialEq, Eq, Structural)]
pub enum Descent {
    /// Every middleware asked for the next link, and the handler ran.
    Handled,
    /// The middleware at this place returned without asking for the next
    /// link.
    ShortCircuited(usize),
    /// The request was found cancelled before the link at this place was
    /// entered.
    Cancelled(usize),
    /// The link at this place failed in its entry phase.
    Failed(usize),
}

/// What running a chain did.
#[derive(Debug)]
pub struct ChainReport {
    /// Every phase that was started, in order.
    pub trace: Vec<Event>,
    /// How the way in ended.
    pub descent: Descent,
    /// How many leave phases were started.
    pub unwound: usize,
    /// The failure that ended the run, if one did: that of the entry phase
    /// named by `descent`, or else that of the last leave phase started.
    pub failure: Option<Failure>,
}

/// The phase that is started `k`-th on the way into a chain of `depth`
/// middleware.
pub open spec fn entry_event(depth: nat, k: int) -> Event {
    if k == depth {
        Event::Handler
    } else {
        Event::Before(k as usize)
    }
}

/// The first `n` phases of the way in.
pub open spec fn entries(depth: nat, n: nat) -> Seq<Event> {
    Seq::new(n, |k: int| entry_event(depth, k))
}

/// The first `n` phases of the way out from inside the middleware at
/// place `from - 1`: innermost first.
pub open spec fn exits(from: nat, n: nat) -> Seq<Event> {
    Seq::new(n, |k: int| Event::After((from - 1 - k) as usize))
}

/// How many entry phases a way in started.
pub open spec fn entered(depth: nat, d: Descent) -> nat {
    match d {
        Descent::Handled => depth + 1,
        Descent::ShortCircuited(at) => (at + 1) as nat,
        Descent::Cancelled(before) => before as nat,
        Descent::Failed(at) => (at + 1) as nat,
    }
}

/// How many middleware are owed their leave phase: those that asked for
/// the next link, unless the way in failed.
pub open spec fn owed(depth: nat, d: Descent) -> nat {
    match d {
        Descent::Handled => depth,
        Descent::ShortCircuited(at) => at as nat,
        Descent::Cancelled(before) => before as nat,
        Descent::Failed(_) => 0,
    }
}

/// Whether a way in can end like this in a chain of `depth` middleware.
pub open spec fn descent_ok(depth: nat, d: Descent) -> bool {
    match d {
        Descent::Handled => true,
        Descent::ShortCircuited(at) => at < depth,
        Descent::Cancelled(before) => before <= depth,
        Descent::Failed(at) => at <= depth,
    }
}

/// The phases started by a run whose way in ended with `d` and which
/// started `unwound` leave phases.
pub open spec fn trace_of(depth: nat, d: Descent, unwound: nat) -> Seq<Event> {
    entries(depth, entered(depth, d)) + exits(owed(depth, d), unwound)
}

/// What follows the entry phase of the link at place `at`: the way in
/// goes on (nothing is returned), or it ends.
pub open spec fn spec_decide(
    depth: nat,
    at: nat,
    failed: bool,
    advanced: bool,
    cancelled: bool,
) -> Option<Descent> {
    if failed {
        Some(Descent::Failed(at as usize))
    } else if at >= depth {
        Some(Descent::Handled)
    } else if !advanced {
        Some(Descent::ShortCircuited(at as usize))
    } else if cancelled {
        Some(Descent::Cancelled((at + 1) as usize))
    } else {
        None
    }
}

impl ChainReport {
    /// Whether the report is one that a run of a chain of `depth`
    /// middleware can give: the way in ended as such a chain allows; the
    /// phases started are those of that way in, in order, followed by the
    /// leave phases of the middleware owed one, innermost first; a failure
    /// alone can cut the way out short; and a failure is reported where the
    /// way in failed.
    pub open spec fn consistent(&self, depth: nat) -> bool {
        &&& descent_ok(depth, self.descent)
        &&& self.unwound <= owed(depth, self.descent)
        &&& self.trace@ == trace_of(depth, self.descent, self.unwound as nat)
        &&& self.descent is Failed ==> self.failure is Some
        &&& self.failure is None ==> self.unwound == owed(depth, self.descent)
        &&& self.failure is Some && !(self.descent is Failed) ==> self.unwound >= 1
    }
}

/// Decides what follows the entry phase of the link at place `at` of a
/// chain of `depth` middleware, given whether the phase failed, whether the
/// link asked for the next one, and whether the request is cancelled. A
/// failure ends the way in; so does the handler; so does a middleware that
/// did not ask for the next link; and a cancelled request lets no further
/// link be entered.
pub fn decide(depth: usize, at: usize, failed: bool, advanced: bool, cancelled: bool) -> (next:
    Option<Descent>)
    requires
        at <= depth,
    ensures
        next == spec_decide(depth as nat, at as nat, failed, advanced, cancelled),
        next matches Some(d) ==> descent_ok(depth as nat, d) && d != Descent::Cancelled(0),
        next is None ==> at < depth,
{
    if failed {
        Some(Descent::Failed(at))
    } else if at >= depth {
        Some(Descent::Handled)
    } else if !advanced {
        Some(Descent::ShortCircuited(at))
    } else if cancelled {
        Some(Descent::Cancelled(at + 1))
    } else {
        None
    }
}

/// The number of leave phases owed after a way in.
pub fn owed_after(depth: usize, d: Descent) -> (n: usize)
    requires
        descent_ok(depth as nat, d),
    ensures
        n == owed(depth as nat, d),
        n <= depth,
{
    match d {
        Descent::Handled => depth,
        Descent::ShortCircuited(at) => at,
        Descent::Cancelled(before) => before,
        Descent::Failed(_) => 0,
    }
}

/// Runs a chain on a context.
///
/// On the way in the links are entered in order, each after the one
/// before it asked for the next link, until the handler has run, a
/// middleware does not ask, the request is found cancelled, or a link
/// fails. On the way out the middleware that asked for the next link are
/// left, innermost first; a failure ends the run at once. On a request
/// that is cancelled from the start no link runs and the context is not
/// touched; on any other the first link is entered.
pub fn run<L: Link>(links: &Vec<L>, chain: &MiddlewareChain, ctx: &mut Context) -> (report:
    ChainReport)
    requires
        chain@.within(links@.len()),
    ensures
        report.consistent(chain@.middleware.len()),
        old(ctx)@.cancelled <==> report.descent == Descent::Cancelled(0),
        old(ctx)@.cancelled ==> final(ctx)@ == old(ctx)@,
{
    let depth = chain.depth();
    let mut trace: Vec<Event> = Vec::new();
    if ctx.is_cancelled() {
        assert(trace@ =~= trace_of(depth as nat, Descent::Cancelled(0), 0));
        return ChainReport { trace, descent: Descent::Cancelled(0), unwound: 0, failure: None };
    }
    let mut failure: Option<Failure> = None;
    let mut ended: Option<Descent> = None;
    let mut at: usize = 0;
    while ended.is_none()
        invariant
            depth == chain@.middleware.len(),
            chain@.within(links@.len()),
            at <= depth,
            match ended {
                None => trace@ == entries(depth as nat, at as nat) && failure is None,
                Some(d) => descent_ok(depth as nat, d) && d != Descent::Cancelled(0) && trace@
                    == entries(depth as nat, entered(depth as nat, d)) && (d is Failed
                    <==> failure is Some),
            },
        decreases
                (if ended is None {
                    depth - at + 1
                } else {
                    0
                }),
    {
        ctx.place(at, depth);
        if at == depth {
            trace.push(Event::Handler);
        } else {
            trace.push(Event::Before(at));
        }
        let id = chain.link(at);
        let outcome = links[id].enter(ctx);
        let failed = outcome.is_err();
        let step = decide(depth, at, failed, ctx.advanced(), ctx.is_cancelled());
        match step {
            Some(d) => {
                if let Err(f) = outcome {
                    failure = Some(f);
                }
                ended = Some(d);
            },
            None => {
                at += 1;
            },
        }
    }
    let descent = ended.unwrap();
    let top = owed_after(depth, descent);
    let mut unwound: usize = 0;
    while unwound < top && failure.is_none()
        invariant
            depth == chain@.middleware.len(),
            chain@.within(links@.len()),
            descent_ok(depth as nat, descent),
            top == owed(depth as nat, descent),
            top <= depth,
            unwound <= top,
            trace@ == trace_of(depth as nat, descent, unwound as nat),
            descent is Failed ==> failure is Some,
            failure is None || descent is Failed || unwound >= 1,
        decreases top - unwound,
    {
        let at = top - 1 - unwound;
        ctx.place(at, depth);
        trace.push(Event::After(at));
        unwound += 1;
        assert(trace@ =~= trace_of(depth as nat, descent, unwound as nat));
        let id = chain.link(at);
        if let Err(f) = links[id].leave(ctx) {
            failure = Some(f);
        }
    }
    ChainReport { trace, descent, unwound, failure }
}

/// The onion: in a chain of `depth` middleware where every link asks for
/// the next one and none fails, the entry phases run in the order of the
/// chain, then the handler, then the leave phases in the opposite order.
pub proof fn law_onion_order(depth: nat)
    requires
        depth < usize::MAX,
    ensures
        trace_of(depth, Descent::Handled, depth).len() == 2 * depth + 1,
        forall|k: int|
            0 <= k < depth ==> #[trigger] trace_of(depth, Descent::Handled, depth)[k]
                == Event::Before(k as usize),
        trace_of(depth, Descent::Handled, depth)[depth as int] == Event::Handler,
        forall|k: int|
            0 <= k < depth ==> #[trigger] trace_of(depth, Descent::Handled, depth)[2 * depth - k]
                == Event::After(k as usize),
{
}

/// Two middleware around a handler run as: first in, second in, handler,
/// second out, first out.
pub proof fn law_onion_of_two()
    ensures
        trace_of(2, Descent::Handled, 2) == seq![
            Event::Before(0),
            Event::Before(1),
            Event::Handler,
            Event::After(1),
            Event::After(0),
        ],
{
}

/// A middleware that does not ask for the next link keeps the handler and
/// every later middleware from running at all: no phase of theirs is
/// started, and its own leave phase is not started either.
pub proof fn law_short_circuit(depth: nat, at: usize, unwound: nat)
    requires
        at < depth,
        depth < usize::MAX,
        unwound <= at,
    ensures
        !trace_of(depth, Descent::ShortCircuited(at), unwound).contains(Event::Handler),
        forall|j: usize|
            at < j ==> !#[trigger] trace_of(depth, Descent::ShortCircuited(at), unwound).contains(
                Event::Before(j),
            ),
        forall|j: usize|
            at <= j ==> !#[trigger] trace_of(depth, Descent::ShortCircuited(at), unwound).contains(
                Event::After(j),
            ),
{
    let t = trace_of(depth, Descent::ShortCircuited(at), unwound);
    assert forall|i: int| 0 <= i < t.len() implies match #[trigger] t[i] {
        Event::Handler => false,
        Event::Before(j) => j <= at,
        Event::After(j) => j < at,
    } by {}
}

/// The phases of a run that no failure ended are nested like a stack:
/// the `k`-th phase from the front is the entry of the middleware whose
/// leave is the `k`-th phase from the back.
pub proof fn law_nested(depth: nat, d: Descent, k: int)
    requires
        depth < usize::MAX,
        descent_ok(depth, d),
        0 <= k < owed(depth, d),
    ensures
        trace_of(depth, d, owed(depth, d))[k] == Event::Before(k as usize),
        trace_of(depth, d, owed(depth, d))[trace_of(depth, d, owed(depth, d)).len() - 1 - k]
            == Event::After(k as usize),
{
}

} // verus!
