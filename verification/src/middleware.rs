//! The middleware chain and its continuation, with the handler at the end.

use vstd::prelude::*;

use crate::context::{Context, CxView};
use crate::http::{spec_lookup, spec_method_not_allowed, spec_not_found, RespView, Response};
use crate::paths::{join_from, join_tail, pair_views, seq_views};

verus! {

/// What a middleware's request step decides: go on with the (possibly
/// transformed) context, or answer at once, short-circuiting everything
/// downstream, the handler included.
pub enum Step<State> {
    Proceed(Context<State>),
    Halt(Response),
}

/// The mathematical form of a step.
pub enum StepView<State> {
    Proceed(CxView<State>),
    Halt(RespView),
}

impl<State> View for Step<State> {
    type V = StepView<State>;

    open spec fn view(&self) -> StepView<State> {
        match self {
            Step::Proceed(cx) => StepView::Proceed(cx@),
            Step::Halt(r) => StepView::Halt(r@),
        }
    }
}

/// A handler: consumes the context of one matched request and produces the
/// response. Implementations say what they return in `call_spec`.
pub trait Endpoint<State>: Sized {
    spec fn call_spec(&self, cx: CxView<State>) -> RespView;

    fn call(&self, cx: Context<State>) -> (r: Response)
        ensures
            r@ == self.call_spec(cx@),
    ;
}

/// A processing unit wrapped around every dispatch: its request step runs
/// before anything downstream, in registration order, and its response step
/// runs after everything downstream, in reverse registration order.
pub trait Middleware<State>: Sized {
    spec fn on_request_spec(&self, cx: CxView<State>) -> StepView<State>;

    spec fn on_response_spec(&self, res: RespView) -> RespView;

    fn on_request(&self, cx: Context<State>) -> (s: Step<State>)
        ensures
            s@ == self.on_request_spec(cx@),
    ;

    fn on_response(&self, res: Response) -> (r: Response)
        ensures
            r@ == self.on_response_spec(res@),
    ;
}

/// What stands at the end of the middleware chain: the matched handler, or
/// the synthesized report that routing failed.
pub enum Terminal<'a, E> {
    Endpoint(&'a E),
    NotFound,
    MethodNotAllowed,
}

/// The mathematical form of a terminal.
pub enum TerminalView<E> {
    Endpoint(E),
    NotFound,
    MethodNotAllowed,
}

impl<'a, E> View for Terminal<'a, E> {
    type V = TerminalView<E>;

    open spec fn view(&self) -> TerminalView<E> {
        match *self {
            Terminal::Endpoint(e) => TerminalView::Endpoint(*e),
            Terminal::NotFound => TerminalView::NotFound,
            Terminal::MethodNotAllowed => TerminalView::MethodNotAllowed,
        }
    }
}

/// What the terminal answers: the handler's response, or the synthesized
/// 404-class or 405-class response.
pub open spec fn terminal_spec<State, E: Endpoint<State>>(
    t: TerminalView<E>,
    cx: CxView<State>,
) -> RespView {
    match t {
        TerminalView::Endpoint(e) => e.call_spec(cx),
        TerminalView::NotFound => spec_not_found(),
        TerminalView::MethodNotAllowed => spec_method_not_allowed(),
    }
}

/// The whole chain from middleware `i` on: the head middleware's request
/// step first; around the rest of the chain, its response step last. A halt
/// at the head answers at once.
pub open spec fn spec_run<State, E: Endpoint<State>, M: Middleware<State>>(
    mws: Seq<M>,
    i: int,
    t: TerminalView<E>,
    cx: CxView<State>,
) -> RespView
    decreases mws.len() - i,
{
    if i < 0 || i >= mws.len() {
        terminal_spec(t, cx)
    } else {
        match mws[i].on_request_spec(cx) {
            StepView::Halt(r) => r,
            StepView::Proceed(cx2) => mws[i].on_response_spec(spec_run(mws, i + 1, t, cx2)),
        }
    }
}

/// The continuation each middleware hands its work on to: the remaining
/// middleware slice, as an index into the shared list, and the terminal.
pub struct Next<'a, E, M> {
    pub middleware: &'a Vec<M>,
    pub index: usize,
    pub terminal: Terminal<'a, E>,
}

impl<'a, E, M> Next<'a, E, M> {
    /// Drives the chain to completion: each unit's request step in order,
    /// the terminal, then each unit's response step in reverse order, with a
    /// halt cutting everything downstream off.
    pub fn run<State>(self, cx: Context<State>) -> (r: Response) where
        E: Endpoint<State>,
        M: Middleware<State>,

        requires
            self.index <= self.middleware@.len(),
        ensures
            r@ == spec_run(self.middleware@, self.index as int, self.terminal@, cx@),
        decreases self.middleware@.len() - self.index,
    {
        if self.index < self.middleware.len() {
            let m = &self.middleware[self.index];
            match m.on_request(cx) {
                Step::Halt(res) => res,
                Step::Proceed(cx2) => {
                    let rest = Next {
                        middleware: self.middleware,
                        index: self.index + 1,
                        terminal: self.terminal,
                    };
                    let res = rest.run(cx2);
                    m.on_response(res)
                },
            }
        } else {
            match self.terminal {
                Terminal::Endpoint(e) => e.call(cx),
                Terminal::NotFound => Response::not_found(),
                Terminal::MethodNotAllowed => Response::method_not_allowed(),
            }
        }
    }
}

/// A unit that lets the request pass wraps the rest of the chain: its
/// request step comes before anything downstream, and its response step is
/// the last word on the way out — registration order going in, reverse
/// order coming out.
pub proof fn lemma_chain_proceed<State, E: Endpoint<State>, M: Middleware<State>>(
    mws: Seq<M>,
    i: int,
    t: TerminalView<E>,
    cx: CxView<State>,
    cx2: CxView<State>,
)
    requires
        0 <= i < mws.len(),
        mws[i].on_request_spec(cx) == StepView::<State>::Proceed(cx2),
    ensures
        spec_run(mws, i, t, cx) == mws[i].on_response_spec(spec_run(mws, i + 1, t, cx2)),
{
}

/// A unit that answers at once is the whole chain's answer: nothing
/// downstream of it contributes.
pub proof fn lemma_chain_halt<State, E: Endpoint<State>, M: Middleware<State>>(
    mws: Seq<M>,
    i: int,
    t: TerminalView<E>,
    cx: CxView<State>,
    r0: RespView,
)
    requires
        0 <= i < mws.len(),
        mws[i].on_request_spec(cx) == StepView::<State>::Halt(r0),
    ensures
        spec_run(mws, i, t, cx) == r0,
{
}

/// A middleware that never lets a request pass keeps the handler from ever
/// running: the outcome does not depend on the terminal at all.
pub proof fn lemma_short_circuit<State, E: Endpoint<State>, M: Middleware<State>>(
    mws: Seq<M>,
    i: int,
    j: int,
    t1: TerminalView<E>,
    t2: TerminalView<E>,
    cx: CxView<State>,
)
    requires
        0 <= i <= j < mws.len(),
        forall|c: CxView<State>| mws[j].on_request_spec(c) is Halt,
    ensures
        spec_run(mws, i, t1, cx) == spec_run(mws, i, t2, cx),
    decreases j - i,
{
    if i == j {
    } else {
        match mws[i].on_request_spec(cx) {
            StepView::Halt(_) => {},
            StepView::Proceed(cx2) => {
                lemma_short_circuit(mws, i + 1, j, t1, t2, cx2);
            },
        }
    }
}

/// The context as it arrives at position `k` when every unit up to there
/// lets the request through: the request steps of `i, i+1, ...` applied in
/// that order.
pub open spec fn pre_cx<State, M: Middleware<State>>(
    mws: Seq<M>,
    i: int,
    k: int,
    cx: CxView<State>,
) -> CxView<State>
    decreases k - i,
{
    if k <= i {
        cx
    } else {
        mws[k - 1].on_request_spec(pre_cx(mws, i, k - 1, cx))->Proceed_0
    }
}

/// The response steps of positions `i` up to `k`, wound around `r` from the
/// inside out: the unit registered first speaks last.
pub open spec fn post_fold<State, M: Middleware<State>>(
    mws: Seq<M>,
    i: int,
    k: int,
    r: RespView,
) -> RespView
    decreases k - i,
{
    if k <= i {
        r
    } else {
        mws[i].on_response_spec(post_fold(mws, i + 1, k, r))
    }
}

proof fn lemma_pre_cx_shift<State, M: Middleware<State>>(
    mws: Seq<M>,
    i: int,
    k: int,
    cx: CxView<State>,
)
    requires
        0 <= i < k <= mws.len(),
    ensures
        pre_cx(mws, i, k, cx) == pre_cx(mws, i + 1, k, mws[i].on_request_spec(cx)->Proceed_0),
    decreases k - i,
{
    let cx2 = mws[i].on_request_spec(cx)->Proceed_0;
    if k == i + 1 {
        assert(pre_cx(mws, i, i, cx) == cx);
        assert(pre_cx(mws, i, k, cx) == cx2);
        assert(pre_cx(mws, i + 1, k, cx2) == cx2);
    } else {
        lemma_pre_cx_shift(mws, i, k - 1, cx);
        assert(pre_cx(mws, i, k, cx) == mws[k - 1].on_request_spec(
            pre_cx(mws, i, k - 1, cx),
        )->Proceed_0);
        assert(pre_cx(mws, i + 1, k, cx2) == mws[k - 1].on_request_spec(
            pre_cx(mws, i + 1, k - 1, cx2),
        )->Proceed_0);
    }
}

/// The whole chain, when every unit lets its request through: request steps
/// run in registration order, threading the context forward; the terminal
/// answers on the final context; and the response steps unwind in exactly
/// the reverse order.
pub proof fn lemma_chain_order<State, E: Endpoint<State>, M: Middleware<State>>(
    mws: Seq<M>,
    i: int,
    t: TerminalView<E>,
    cx: CxView<State>,
)
    requires
        0 <= i <= mws.len(),
        forall|k: int, c: CxView<State>|
            0 <= k < mws.len() ==> #[trigger] mws[k].on_request_spec(c) is Proceed,
    ensures
        spec_run(mws, i, t, cx) == post_fold(
            mws,
            i,
            mws.len() as int,
            terminal_spec(t, pre_cx(mws, i, mws.len() as int, cx)),
        ),
    decreases mws.len() - i,
{
    if i < mws.len() {
        let cx2 = mws[i].on_request_spec(cx)->Proceed_0;
        lemma_chain_order(mws, i + 1, t, cx2);
        lemma_pre_cx_shift(mws, i, mws.len() as int, cx);
    }
}

/// A handler that answers 200 with a fixed body.
pub struct TextEndpoint {
    pub body: String,
}

impl<State> Endpoint<State> for TextEndpoint {
    open spec fn call_spec(&self, cx: CxView<State>) -> RespView {
        RespView { status: 200, headers: Seq::empty(), body: self.body@ }
    }

    fn call(&self, cx: Context<State>) -> (r: Response) {
        Response::text(self.body.clone())
    }
}

/// A handler that answers 200 with the request's header names, joined with
/// `'/'` in their order: it makes the request side of the middleware chain
/// observable.
pub struct HeaderListEndpoint {}

impl<State> Endpoint<State> for HeaderListEndpoint {
    open spec fn call_spec(&self, cx: CxView<State>) -> RespView {
        RespView {
            status: 200,
            headers: Seq::empty(),
            body: join_from(cx.request.headers.map_values(|h: (Seq<char>, Seq<char>)| h.0), 0),
        }
    }

    fn call(&self, cx: Context<State>) -> (r: Response) {
        let ghost hnames = cx@.request.headers.map_values(|h: (Seq<char>, Seq<char>)| h.0);
        let mut names: Vec<String> = Vec::new();
        let n = cx.request.headers.len();
        proof {
            assert(seq_views(names@) =~= hnames.take(0));
        }
        let mut k: usize = 0;
        while k < n
            invariant
                k <= n,
                n == cx.request.headers@.len(),
                hnames == cx@.request.headers.map_values(|h: (Seq<char>, Seq<char>)| h.0),
                hnames.len() == n,
                forall|t: int| 0 <= t < n ==> hnames[t] == cx.request.headers@[t].0@,
                seq_views(names@) == hnames.take(k as int),
            decreases n - k,
        {
            let ghost before = seq_views(names@);
            names.push(cx.request.headers[k].0.clone());
            proof {
                assert(seq_views(names@) =~= before.push(cx.request.headers@[k as int].0@));
                assert(seq_views(names@) =~= hnames.take(k as int + 1));
            }
            k = k + 1;
        }
        proof {
            assert(hnames.take(n as int) =~= hnames);
        }
        let body = join_tail(&names, 0);
        Response::text(body)
    }
}

/// A handler that echoes the parameter captured under `name` during
/// routing, or answers 400 when none was captured.
pub struct EchoParamEndpoint {
    pub name: String,
}

impl<State> Endpoint<State> for EchoParamEndpoint {
    open spec fn call_spec(&self, cx: CxView<State>) -> RespView {
        match spec_lookup(cx.params, self.name@) {
            Some(v) => RespView { status: 200, headers: Seq::empty(), body: v },
            None => RespView { status: 400, headers: Seq::empty(), body: Seq::empty() },
        }
    }

    fn call(&self, cx: Context<State>) -> (r: Response) {
        match cx.param(&self.name) {
            Ok(v) => {
                let body = v.clone();
                Response::text(body)
            },
            Err(_) => {
                let r = Response { status: 400, headers: Vec::new(), body: String::new() };
                proof {
                    assert(r@.headers =~= Seq::<(Seq<char>, Seq<char>)>::empty());
                }
                r
            },
        }
    }
}

/// A middleware that tags both directions: on the way in it appends its
/// label to the request's headers, on the way out it appends `|label` to the
/// response body.
pub struct TagMiddleware {
    pub label: String,
}

impl<State> Middleware<State> for TagMiddleware {
    open spec fn on_request_spec(&self, cx: CxView<State>) -> StepView<State> {
        StepView::Proceed(
            CxView {
                request: crate::http::ReqView {
                    headers: cx.request.headers.push((self.label@, Seq::empty())),
                    ..cx.request
                },
                ..cx
            },
        )
    }

    open spec fn on_response_spec(&self, res: RespView) -> RespView {
        RespView { body: res.body + seq!['|'] + self.label@, ..res }
    }

    fn on_request(&self, cx: Context<State>) -> (s: Step<State>) {
        let mut cx = cx;
        let ghost before = cx@;
        cx.request.headers.push((self.label.clone(), String::new()));
        proof {
            assert(pair_views(cx.request.headers@) =~= before.request.headers.push(
                (self.label@, Seq::<char>::empty()),
            ));
        }
        Step::Proceed(cx)
    }

    fn on_response(&self, res: Response) -> (r: Response) {
        proof {
            reveal_strlit("|");
        }
        let mut body = res.body;
        body.append("|");
        body.append(self.label.as_str());
        proof {
            assert(("|")@ =~= seq!['|']);
        }
        Response { status: res.status, headers: res.headers, body }
    }
}

/// A middleware that answers every request itself with a 403 and a fixed
/// body: nothing downstream of it, the handler included, ever runs.
pub struct GateMiddleware {
    pub body: String,
}

impl<State> Middleware<State> for GateMiddleware {
    open spec fn on_request_spec(&self, cx: CxView<State>) -> StepView<State> {
        StepView::Halt(RespView { status: 403, headers: Seq::empty(), body: self.body@ })
    }

    open spec fn on_response_spec(&self, res: RespView) -> RespView {
        res
    }

    fn on_request(&self, cx: Context<State>) -> (s: Step<State>) {
        let r = Response { status: 403, headers: Vec::new(), body: self.body.clone() };
        proof {
            assert(r@.headers =~= Seq::<(Seq<char>, Seq<char>)>::empty());
        }
        Step::Halt(r)
    }

    fn on_response(&self, res: Response) -> (r: Response) {
        res
    }
}


/// One of two middleware kinds, behind one type: lets a single chain mix
/// units of different types, each keeping its own behaviour.
pub enum EitherMiddleware<A, B> {
    First(A),
    Second(B),
}

impl<State, A: Middleware<State>, B: Middleware<State>> Middleware<State> for EitherMiddleware<
    A,
    B,
> {
    open spec fn on_request_spec(&self, cx: CxView<State>) -> StepView<State> {
        match self {
            EitherMiddleware::First(a) => a.on_request_spec(cx),
            EitherMiddleware::Second(b) => b.on_request_spec(cx),
        }
    }

    open spec fn on_response_spec(&self, res: RespView) -> RespView {
        match self {
            EitherMiddleware::First(a) => a.on_response_spec(res),
            EitherMiddleware::Second(b) => b.on_response_spec(res),
        }
    }

    fn on_request(&self, cx: Context<State>) -> (s: Step<State>) {
        match self {
            EitherMiddleware::First(a) => a.on_request(cx),
            EitherMiddleware::Second(b) => b.on_request(cx),
        }
    }

    fn on_response(&self, res: Response) -> (r: Response) {
        match self {
            EitherMiddleware::First(a) => a.on_response(res),
            EitherMiddleware::Second(b) => b.on_response(res),
        }
    }
}


/// A handler that answers 200 with the shared application state itself:
/// the state here is the text to serve.
pub struct StateEndpoint {}

impl Endpoint<String> for StateEndpoint {
    open spec fn call_spec(&self, cx: CxView<String>) -> RespView {
        RespView { status: 200, headers: Seq::empty(), body: cx.state@ }
    }

    fn call(&self, cx: Context<String>) -> (r: Response) {
        Response::text(cx.state().clone())
    }
}

} // verus!
