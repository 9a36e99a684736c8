//! A verified request-routing and dispatch core: a segment tree maps
//! paths and methods to handlers, wildcard and catch-all segments capture
//! parameters, and an ordered middleware chain wraps every dispatch.

use vstd::prelude::*;

pub mod context;
pub mod http;
pub mod method;
pub mod middleware;
pub mod paths;
pub mod router;
pub mod service;

pub use context::{ClientError, Context};
pub use http::{Request, Response};
pub use method::Method;
pub use middleware::{Endpoint, Middleware, Next, Step, Terminal};
pub use router::{RouteError, RouteMatch, Router, SegmentPattern};
pub use service::{Route, Server, Service};

