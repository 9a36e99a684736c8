//! The per-request bundle handed to middleware and handlers.

use vstd::prelude::*;

use std::sync::Arc;

use crate::http::{spec_lookup, lookup_pair, Request, ReqView};
use crate::paths::pair_views;

verus! {

/// Why a handler's own request handling failed: here, a path parameter it
/// asked for was never captured.
#[derive(Clone, Copy, PartialEq, Eq, Structural, Debug)]
pub enum ClientError {
    MissingParam,
}

/// The per-request bundle a handler receives: shared read-only application
/// state, the raw request, and the parameters the routing walk captured.
pub struct Context<State> {
    pub state: Arc<State>,
    pub request: Request,
    pub params: Vec<(String, String)>,
}

/// The mathematical form of a context.
pub struct CxView<State> {
    pub state: State,
    pub request: ReqView,
    pub params: Seq<(Seq<char>, Seq<char>)>,
}

impl<State> View for Context<State> {
    type V = CxView<State>;

    open spec fn view(&self) -> CxView<State> {
        CxView { state: *self.state, request: self.request@, params: pair_views(self.params@) }
    }
}

impl<State> Context<State> {
    /// A fresh context over shared state, a request, and captured parameters.
    pub fn new(state: Arc<State>, request: Request, params: Vec<(String, String)>) -> (cx: Context<
        State,
    >)
        ensures
            cx@ == (CxView { state: *state, request: request@, params: pair_views(params@) }),
    {
        Context { state, request, params }
    }

    /// Read-only access to the shared application state.
    pub fn state(&self) -> (s: &State)
        ensures
            *s == self@.state,
    {
        &*self.state
    }

    /// The value captured for the parameter `name` during routing; a client
    /// error when no such parameter was captured.
    pub fn param(&self, name: &String) -> (r: Result<&String, ClientError>)
        ensures
            match r {
                Ok(v) => spec_lookup(self@.params, name@) == Some(v@),
                Err(e) => spec_lookup(self@.params, name@) is None && e
                    == ClientError::MissingParam,
            },
    {
        match lookup_pair(&self.params, name) {
            Some(v) => Ok(v),
            None => Err(ClientError::MissingParam),
        }
    }
}

} // verus!
