//! Building a server and serving requests through the frozen service.

use vstd::prelude::*;

use std::sync::Arc;

use crate::context::{Context, CxView};
use crate::http::{Request, ReqView, RespView, Response};
use crate::method::Method;
use crate::middleware::{spec_run, Endpoint, Middleware, Next, Terminal, TerminalView};
use crate::paths::spec_segments;
use crate::router::{
    pat_views, parse_pattern, spec_parse, view_insert, NodeView, RouteError, RouteMatch,
    RouteOutcome, Router, SegmentPattern, spec_route, empty_node_view,
};

verus! {

/// Relies on Arc::clone: the returned handle refers to the same value as the
/// one cloned.
#[verifier::external_body]
fn clone_arc<T>(a: &Arc<T>) -> (r: Arc<T>)
    ensures
        r == *a,
{
    Arc::clone(a)
}

/// A cursor over the routing tree during the registration phase: the path
/// prefix accumulated so far. Nesting means extending the prefix; the cursor
/// itself holds no handle on the server.
pub struct Route {
    pub pattern: Vec<SegmentPattern>,
}

/// A server under construction: routing tree, middleware list, and the
/// application state, all still growing; `into_service` freezes them.
pub struct Server<State, E, M> {
    pub router: Router<E>,
    pub middleware: Vec<M>,
    pub state: State,
}

impl<E, M> Server<(), E, M> {
    /// An empty server with no state, no routes and no middleware.
    pub fn new() -> (s: Server<(), E, M>)
        ensures
            s.router@ == empty_node_view::<E>(),
            s.middleware@ == Seq::<M>::empty(),
    {
        Self::with_state(())
    }
}

impl<E, M> Default for Server<(), E, M> {
    /// The same empty server that `new` builds.
    fn default() -> (s: Server<(), E, M>)
        ensures
            s.router@ == empty_node_view::<E>(),
            s.middleware@ == Seq::<M>::empty(),
    {
        Server::new()
    }
}

impl<State, E, M> Server<State, E, M> {
    /// An empty server around the given application state.
    pub fn with_state(state: State) -> (s: Server<State, E, M>)
        ensures
            s.router@ == empty_node_view::<E>(),
            s.middleware@ == Seq::<M>::empty(),
            s.state == state,
    {
        let s = Server { router: Router::new(), middleware: Vec::new(), state };
        proof {
            assert(s.middleware@ =~= Seq::<M>::empty());
        }
        s
    }

    /// A registration cursor at `path`, relative to the root.
    pub fn at(&self, path: &str) -> (r: Route)
        ensures
            pat_views(r.pattern@) == spec_parse(spec_segments(path@)),
    {
        Route { pattern: parse_pattern(path) }
    }

    /// Appends `m` to the middleware list; dispatch runs the list in this
    /// order on the way in and in the reverse order on the way out.
    pub fn middleware(&mut self, m: M)
        ensures
            final(self).middleware@ == old(self).middleware@.push(m),
            final(self).router == old(self).router,
            final(self).state == old(self).state,
    {
        self.middleware.push(m);
    }

    /// Freezes the server into the shareable dispatch handle.
    pub fn into_service(self) -> (s: Service<State, E, M>)
        ensures
            s.router@ == self.router@,
            s.middleware@ == self.middleware@,
            *s.state == self.state,
    {
        Service {
            router: Arc::new(self.router),
            state: Arc::new(self.state),
            middleware: Arc::new(self.middleware),
        }
    }
}

impl Route {
    /// The cursor for a sub-path: the prefix so far, extended by `path`.
    /// This is how sub-trees nest; what is registered through the result
    /// stands under the combined path.
    pub fn at(&self, path: &str) -> (r: Route)
        ensures
            pat_views(r.pattern@) == pat_views(self.pattern@) + spec_parse(spec_segments(path@)),
    {
        let mut pattern: Vec<SegmentPattern> = Vec::new();
        let n = self.pattern.len();
        let mut k: usize = 0;
        while k < n
            invariant
                k <= n,
                n == self.pattern@.len(),
                pattern@ == self.pattern@.take(k as int),
            decreases n - k,
        {
            pattern.push(self.pattern[k].clone());
            proof {
                assert(self.pattern@.take(k as int).push(self.pattern@[k as int])
                    =~= self.pattern@.take(k as int + 1));
            }
            k = k + 1;
        }
        proof {
            assert(self.pattern@.take(n as int) =~= self.pattern@);
        }
        let mut tail = parse_pattern(path);
        let ghost tailv = tail@;
        pattern.append(&mut tail);
        proof {
            assert(pat_views(self.pattern@ + tailv) =~= pat_views(self.pattern@) + pat_views(
                tailv,
            ));
        }
        Route { pattern }
    }

    /// Registers `ep` for `m` at this cursor's path, growing the server's
    /// routing tree as `view_insert` says; a refused registration leaves the
    /// server unchanged.
    pub fn method<State, E, M>(
        &self,
        server: &mut Server<State, E, M>,
        m: Method,
        ep: E,
    ) -> (r: Result<(), RouteError>)
        ensures
            ({
                let vi = view_insert(old(server).router@, pat_views(self.pattern@), 0, m, ep);
                match r {
                    Ok(_) => vi == Ok::<NodeView<E>, RouteError>(final(server).router@),
                    Err(er) => vi == Err::<NodeView<E>, RouteError>(er) && final(server).router@
                        == old(server).router@,
                }
            }),
            final(server).middleware == old(server).middleware,
            final(server).state == old(server).state,
    {
        server.router.register(&self.pattern, m, ep)
    }

    pub fn get<State, E, M>(&self, server: &mut Server<State, E, M>, ep: E) -> (r: Result<
        (),
        RouteError,
    >)
        ensures
            ({
                let vi = view_insert(
                    old(server).router@,
                    pat_views(self.pattern@),
                    0,
                    Method::Get,
                    ep,
                );
                match r {
                    Ok(_) => vi == Ok::<NodeView<E>, RouteError>(final(server).router@),
                    Err(er) => vi == Err::<NodeView<E>, RouteError>(er) && final(server).router@
                        == old(server).router@,
                }
            }),
            final(server).middleware == old(server).middleware,
            final(server).state == old(server).state,
    {
        self.method(server, Method::Get, ep)
    }

    pub fn post<State, E, M>(&self, server: &mut Server<State, E, M>, ep: E) -> (r: Result<
        (),
        RouteError,
    >)
        ensures
            ({
                let vi = view_insert(
                    old(server).router@,
                    pat_views(self.pattern@),
                    0,
                    Method::Post,
                    ep,
                );
                match r {
                    Ok(_) => vi == Ok::<NodeView<E>, RouteError>(final(server).router@),
                    Err(er) => vi == Err::<NodeView<E>, RouteError>(er) && final(server).router@
                        == old(server).router@,
                }
            }),
            final(server).middleware == old(server).middleware,
            final(server).state == old(server).state,
    {
        self.method(server, Method::Post, ep)
    }

    pub fn put<State, E, M>(&self, server: &mut Server<State, E, M>, ep: E) -> (r: Result<
        (),
        RouteError,
    >)
        ensures
            ({
                let vi = view_insert(
                    old(server).router@,
                    pat_views(self.pattern@),
                    0,
                    Method::Put,
                    ep,
                );
                match r {
                    Ok(_) => vi == Ok::<NodeView<E>, RouteError>(final(server).router@),
                    Err(er) => vi == Err::<NodeView<E>, RouteError>(er) && final(server).router@
                        == old(server).router@,
                }
            }),
            final(server).middleware == old(server).middleware,
            final(server).state == old(server).state,
    {
        self.method(server, Method::Put, ep)
    }

    pub fn delete<State, E, M>(&self, server: &mut Server<State, E, M>, ep: E) -> (r: Result<
        (),
        RouteError,
    >)
        ensures
            ({
                let vi = view_insert(
                    old(server).router@,
                    pat_views(self.pattern@),
                    0,
                    Method::Delete,
                    ep,
                );
                match r {
                    Ok(_) => vi == Ok::<NodeView<E>, RouteError>(final(server).router@),
                    Err(er) => vi == Err::<NodeView<E>, RouteError>(er) && final(server).router@
                        == old(server).router@,
                }
            }),
            final(server).middleware == old(server).middleware,
            final(server).state == old(server).state,
    {
        self.method(server, Method::Delete, ep)
    }
}

/// The frozen, shareable combination of routing tree, middleware list and
/// application state; all of it read-only, so any number of logical copies
/// can serve requests side by side.
pub struct Service<State, E, M> {
    pub router: Arc<Router<E>>,
    pub state: Arc<State>,
    pub middleware: Arc<Vec<M>>,
}

impl<State, E, M> Clone for Service<State, E, M> {
    /// Another handle on the same frozen router, middleware and state.
    fn clone(&self) -> (s: Self)
        ensures
            s.router@ == self.router@,
            s.middleware@ == self.middleware@,
            *s.state == *self.state,
    {
        Service {
            router: clone_arc(&self.router),
            state: clone_arc(&self.state),
            middleware: clone_arc(&self.middleware),
        }
    }
}

/// One whole dispatch: route the request's path and method through the tree,
/// build the per-request context, and drive the middleware chain with the
/// matched handler — or the synthesized routing failure — as terminal.
pub open spec fn spec_respond<State, E: Endpoint<State>, M: Middleware<State>>(
    router: NodeView<E>,
    mws: Seq<M>,
    state: State,
    req: ReqView,
) -> RespView {
    match spec_route(router, spec_segments(req.path), 0, req.method) {
        RouteOutcome::Found { endpoint, params } => spec_run(
            mws,
            0,
            TerminalView::Endpoint(endpoint),
            CxView { state, request: req, params },
        ),
        RouteOutcome::MethodNotAllowed => spec_run(
            mws,
            0,
            TerminalView::<E>::MethodNotAllowed,
            CxView { state, request: req, params: Seq::empty() },
        ),
        RouteOutcome::NotFound => spec_run(
            mws,
            0,
            TerminalView::<E>::NotFound,
            CxView { state, request: req, params: Seq::empty() },
        ),
    }
}

impl<State, E: Endpoint<State>, M: Middleware<State>> Service<State, E, M> {
    /// Serves one request, per `spec_respond`. Nothing in the service is
    /// written; concurrent calls on clones are independent.
    pub fn respond(&self, req: Request) -> (r: Response)
        ensures
            r@ == spec_respond(self.router@, self.middleware@, *self.state, req@),
    {
        let rm = self.router.route(req.path.as_str(), req.method);
        match rm {
            RouteMatch::Found { endpoint, params } => {
                let cx = Context::new(clone_arc(&self.state), req, params);
                let next = Next {
                    middleware: &*self.middleware,
                    index: 0,
                    terminal: Terminal::Endpoint(endpoint),
                };
                next.run(cx)
            },
            RouteMatch::MethodNotAllowed => {
                let cx = Context::new(clone_arc(&self.state), req, Vec::new());
                proof {
                    assert(cx@.params =~= Seq::<(Seq<char>, Seq<char>)>::empty());
                }
                let next = Next {
                    middleware: &*self.middleware,
                    index: 0,
                    terminal: Terminal::<E>::MethodNotAllowed,
                };
                next.run(cx)
            },
            RouteMatch::NotFound => {
                let cx = Context::new(clone_arc(&self.state), req, Vec::new());
                proof {
                    assert(cx@.params =~= Seq::<(Seq<char>, Seq<char>)>::empty());
                }
                let next = Next {
                    middleware: &*self.middleware,
                    index: 0,
                    terminal: Terminal::<E>::NotFound,
                };
                next.run(cx)
            },
        }
    }
}

/// The two routing failures stay apart all the way out: with no middleware
/// in the chain, a path no node matches answers 404, and a matched node
/// without a handler for the method answers 405.
pub proof fn lemma_failures_distinct<State, E: Endpoint<State>, M: Middleware<State>>(
    router: NodeView<E>,
    state: State,
    req: ReqView,
)
    ensures
        spec_route(router, spec_segments(req.path), 0, req.method) is NotFound ==> spec_respond(
            router,
            Seq::<M>::empty(),
            state,
            req,
        ).status == 404,
        spec_route(router, spec_segments(req.path), 0, req.method) is MethodNotAllowed
            ==> spec_respond(router, Seq::<M>::empty(), state, req).status == 405,
{
}


/// Nesting is associative: a cursor taken at `a` and then at `b` registers
/// under the very pattern that the single joined path `a/b` denotes, so a
/// nested registration and the direct one grow the same tree.
pub proof fn lemma_nest_associative(a: Seq<char>, b: Seq<char>)
    ensures
        spec_parse(spec_segments(a + seq!['/'] + b)) == spec_parse(spec_segments(a)) + spec_parse(
            spec_segments(b),
        ),
{
    crate::paths::lemma_split_concat(a, b, 0);
    assert(spec_parse(spec_segments(a) + spec_segments(b)) =~= spec_parse(spec_segments(a))
        + spec_parse(spec_segments(b)));
}

} // verus!
