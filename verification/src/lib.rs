//! An embeddable HTTP routing core: path patterns, a route table, grouped
//! registration, middleware chains and a per-request context.
//!
//! A [`Router`] is filled once, at startup: links (middleware and handlers)
//! are handed to it, and routes are registered under groups. After that it
//! is only read: [`Router::handle`] takes a request to its response and
//! changes nothing in the router, so any number of requests can be handled
//! side by side, each with a [`Context`] of its own.

pub mod chain;
pub mod context;
pub mod decode;
pub mod dispatch;
pub mod fields;
pub mod path;
pub mod pattern;
pub mod router;
pub mod table;
pub mod text;

pub use chain::{ChainReport, Descent, Event, Failure, Link, MiddlewareChain};
pub use context::{
    AlreadyResponded, BindError, Context, NextSignal, Reply, ReplyKind, Request,
};
pub use dispatch::{Handled, Response};
pub use fields::{Field, Fields};
pub use pattern::{PathPattern, PatternError, Segment};
pub use router::{RouteError, Router, RouterGroup};
pub use table::{DuplicateRouteError, Method, ResolveError, Route, RouteMatch, RouteTable};
