use vstd::prelude::*;

use std::sync::Arc;

use crate::middleware::{Middleware, StepAction, TraceEvent};
use crate::procedure::{Layer, ProcedureKind, ProcedureTodo, Resolver};
use crate::router::BuiltRouter;
use crate::store::ProcedureStore;
use crate::value::{clone_values, Value};

verus! {

/// The fixed taxonomy of request-time error codes carried on the wire.
#[derive(Clone, Copy, Debug, PartialEq, Eq, Structural)]
pub enum ErrorCode {
    BadRequest,
    NotFound,
    InternalServerError,
}

/// What one run of a layer produced: an immediate value, a reported
/// failure, or the elements of a stream.
pub enum LayerOut {
    Single(Value),
    Failure(ErrorCode, String, Option<String>),
    Sequence(Vec<Value>),
}

/// The abstract form of a layer outcome.
pub ghost enum OutModel {
    Single(Value),
    Failure(ErrorCode, Seq<char>, Option<Seq<char>>),
    Sequence(Seq<Value>),
}

/// The characters of an optional diagnostic text.
pub open spec fn opt_view(o: Option<String>) -> Option<Seq<char>> {
    match o {
        Some(s) => Some(s@),
        None => None,
    }
}

/// The abstract form of one outcome.
pub open spec fn out_model(o: LayerOut) -> OutModel {
    match o {
        LayerOut::Single(v) => OutModel::Single(v),
        LayerOut::Failure(c, m, cause) => OutModel::Failure(c, m@, opt_view(cause)),
        LayerOut::Sequence(vs) => OutModel::Sequence(vs@),
    }
}

/// What the terminal resolver returns once the chain has delivered
/// the final context and input to it.
pub open spec fn spec_resolve(res: Resolver, ctx: Seq<Value>, input: Option<Value>) -> OutModel {
    match res {
        Resolver::Constant(v) => OutModel::Single(v),
        Resolver::EchoInput => match input {
            Some(v) => OutModel::Single(v),
            None => OutModel::Single(Value::Null),
        },
        Resolver::LastCtx => if ctx.len() > 0 {
            OutModel::Single(ctx.last())
        } else {
            OutModel::Single(Value::Null)
        },
        Resolver::Fail(c, m, cause) => OutModel::Failure(c, m@, opt_view(cause)),
        Resolver::Stream(vs) => OutModel::Sequence(vs@),
    }
}

/// The outcome and trace of one run of a chain.
pub ghost struct RunModel {
    pub out: OutModel,
    pub trace: Seq<TraceEvent>,
}

/// Brackets an inner run with the events of the enclosing step.
pub open spec fn wrap_run(id: u64, inner: RunModel) -> RunModel {
    RunModel {
        out: inner.out,
        trace: seq![TraceEvent::Enter(id)] + inner.trace + seq![TraceEvent::Exit(id)],
    }
}

/// Runs a middleware chain over a context bag and an input, ending in
/// the terminal resolver.
///
/// Each step records an entering event, hands a possibly extended
/// context down the remainder of the chain, and records a leaving
/// event on the way back out, so post-processing happens in the
/// reverse of registration order. A short-circuiting step returns
/// without running anything downstream.
pub open spec fn spec_run(
    steps: Seq<Middleware>,
    ctx: Seq<Value>,
    input: Option<Value>,
    res: Resolver,
) -> RunModel
    decreases steps.len(),
{
    if steps.len() == 0 {
        RunModel { out: spec_resolve(res, ctx, input), trace: seq![TraceEvent::Resolve] }
    } else {
        let id = steps[0].id;
        match steps[0].action {
            StepAction::PassThrough => wrap_run(id, spec_run(steps.skip(1), ctx, input, res)),
            StepAction::Attach(v) => wrap_run(id, spec_run(steps.skip(1), ctx.push(v), input, res)),
            StepAction::MapArg => match input {
                Some(Value::Pair(a, b)) => wrap_run(
                    id,
                    spec_run(steps.skip(1), ctx.push(*b), Some(*a), res),
                ),
                _ => RunModel {
                    out: OutModel::Failure(
                        ErrorCode::BadRequest,
                        ("middleware argument mapping expected a pair input")@,
                        None,
                    ),
                    trace: seq![TraceEvent::Enter(id), TraceEvent::Exit(id)],
                },
            },
            StepAction::ShortCircuit(v) => RunModel {
                out: OutModel::Single(v),
                trace: seq![TraceEvent::Enter(id), TraceEvent::Exit(id)],
            },
        }
    }
}

/// Copies an optional diagnostic text.
fn clone_opt_text(v: &Option<String>) -> (r: Option<String>)
    ensures
        opt_view(r) == opt_view(*v),
{
    match v {
        Some(x) => Some(x.clone()),
        None => None,
    }
}

/// Copies an optional payload.
fn clone_opt(v: &Option<Value>) -> (r: Option<Value>)
    ensures
        r == v,
{
    match v {
        Some(x) => Some(x.clone()),
        None => None,
    }
}

/// Runs the terminal resolver.
fn run_resolver(res: &Resolver, ctx: Vec<Value>, input: Option<Value>) -> (r: LayerOut)
    ensures
        out_model(r) == spec_resolve(*res, ctx@, input),
{
    match res {
        Resolver::Constant(v) => LayerOut::Single(v.clone()),
        Resolver::EchoInput => match input {
            Some(v) => LayerOut::Single(v),
            None => LayerOut::Single(Value::Null),
        },
        Resolver::LastCtx => if ctx.len() > 0 {
            LayerOut::Single(ctx[ctx.len() - 1].clone())
        } else {
            LayerOut::Single(Value::Null)
        },
        Resolver::Fail(c, m, cause) => LayerOut::Failure(*c, m.clone(), clone_opt_text(cause)),
        Resolver::Stream(vs) => LayerOut::Sequence(clone_values(vs)),
    }
}

/// Runs the suffix of the chain that starts at step `i`.
fn run_steps_from(
    steps: &Vec<Middleware>,
    i: usize,
    res: &Resolver,
    ctx: Vec<Value>,
    input: Option<Value>,
    trace: &mut Vec<TraceEvent>,
) -> (r: LayerOut)
    requires
        i <= steps@.len(),
    ensures
        ({
            let m = spec_run(steps@.skip(i as int), ctx@, input, *res);
            out_model(r) == m.out && final(trace)@ == old(trace)@ + m.trace
        }),
    decreases steps@.len() - i,
{
    if i == steps.len() {
        trace.push(TraceEvent::Resolve);
        proof {
            assert(steps@.skip(i as int) =~= Seq::<Middleware>::empty());
            assert(trace@ =~= old(trace)@ + seq![TraceEvent::Resolve]);
        }
        run_resolver(res, ctx, input)
    } else {
        let id = steps[i].id;
        proof {
            assert(steps@.skip(i as int)[0] == steps@[i as int]);
            assert(steps@.skip(i as int).skip(1) =~= steps@.skip(i + 1 as int));
        }
        match &steps[i].action {
            StepAction::PassThrough => {
                trace.push(TraceEvent::Enter(id));
                let r = run_steps_from(steps, i + 1, res, ctx, input, trace);
                trace.push(TraceEvent::Exit(id));
                proof {
                    let inner = spec_run(steps@.skip(i + 1 as int), ctx@, input, *res);
                    assert(trace@ =~= old(trace)@ + (seq![TraceEvent::Enter(id)] + inner.trace
                        + seq![TraceEvent::Exit(id)]));
                }
                r
            },
            StepAction::Attach(v) => {
                trace.push(TraceEvent::Enter(id));
                let mut ctx2 = ctx;
                ctx2.push(v.clone());
                let r = run_steps_from(steps, i + 1, res, ctx2, input, trace);
                trace.push(TraceEvent::Exit(id));
                proof {
                    let inner = spec_run(steps@.skip(i + 1 as int), ctx@.push(*v), input, *res);
                    assert(trace@ =~= old(trace)@ + (seq![TraceEvent::Enter(id)] + inner.trace
                        + seq![TraceEvent::Exit(id)]));
                }
                r
            },
            StepAction::MapArg => {
                trace.push(TraceEvent::Enter(id));
                match input {
                    Some(Value::Pair(a, b)) => {
                        let mut ctx2 = ctx;
                        ctx2.push(*b);
                        let r = run_steps_from(steps, i + 1, res, ctx2, Some(*a), trace);
                        trace.push(TraceEvent::Exit(id));
                        proof {
                            let m0 = spec_run(steps@.skip(i as int), ctx@, input, *res);
                            assert(trace@ =~= old(trace)@ + m0.trace);
                        }
                        r
                    },
                    _ => {
                        trace.push(TraceEvent::Exit(id));
                        proof {
                            assert(trace@ =~= old(trace)@ + seq![
                                TraceEvent::Enter(id),
                                TraceEvent::Exit(id),
                            ]);
                        }
                        LayerOut::Failure(
                            ErrorCode::BadRequest,
                            String::from_str("middleware argument mapping expected a pair input"),
                            None,
                        )
                    },
                }
            },
            StepAction::ShortCircuit(v) => {
                trace.push(TraceEvent::Enter(id));
                trace.push(TraceEvent::Exit(id));
                proof {
                    assert(trace@ =~= old(trace)@ + seq![
                        TraceEvent::Enter(id),
                        TraceEvent::Exit(id),
                    ]);
                }
                LayerOut::Single(v.clone())
            },
        }
    }
}

/// Runs a layer to completion: the middleware steps in registration
/// order, then the terminal resolver. Returns the outcome and the
/// recorded execution trace.
pub fn run_layer(layer: &Layer, ctx: Vec<Value>, input: Option<Value>) -> (r: (
    LayerOut,
    Vec<TraceEvent>,
))
    ensures
        ({
            let m = spec_run(layer.steps@, ctx@, input, layer.resolver);
            out_model(r.0) == m.out && r.1@ == m.trace
        }),
{
    let mut trace: Vec<TraceEvent> = Vec::new();
    let out = run_steps_from(&layer.steps, 0, &layer.resolver, ctx, input, &mut trace);
    proof {
        assert(layer.steps@.skip(0) =~= layer.steps@);
        assert(Seq::<TraceEvent>::empty() + spec_run(layer.steps@, ctx@, input, layer.resolver).trace
            =~= spec_run(layer.steps@, ctx@, input, layer.resolver).trace);
    }
    (out, trace)
}

/// An incoming request: its kind, an opaque request id, the dotted
/// path of the operation, and an optional raw input payload.
pub enum Request {
    Query { id: u32, path: String, input: Option<Value> },
    Mutation { id: u32, path: String, input: Option<Value> },
    Subscription { id: u32, path: String, input: Option<Value> },
}

impl Request {
    /// The request id.
    pub open spec fn spec_id(&self) -> u32 {
        match self {
            Request::Query { id, .. } => *id,
            Request::Mutation { id, .. } => *id,
            Request::Subscription { id, .. } => *id,
        }
    }

    /// The kind of store the request addresses.
    pub open spec fn spec_kind(&self) -> ProcedureKind {
        match self {
            Request::Query { .. } => ProcedureKind::Query,
            Request::Mutation { .. } => ProcedureKind::Mutation,
            Request::Subscription { .. } => ProcedureKind::Subscription,
        }
    }

    /// The dotted path of the addressed operation.
    pub open spec fn spec_path(&self) -> Seq<char> {
        match self {
            Request::Query { path, .. } => path@,
            Request::Mutation { path, .. } => path@,
            Request::Subscription { path, .. } => path@,
        }
    }

    /// The raw input payload.
    pub open spec fn spec_input(&self) -> Option<Value> {
        match self {
            Request::Query { input, .. } => *input,
            Request::Mutation { input, .. } => *input,
            Request::Subscription { input, .. } => *input,
        }
    }
}

/// The payload of a response: a value or an error of the wire shape,
/// a code and a message.
#[derive(Debug, PartialEq, Eq)]
pub enum ResponseInner {
    Value(Value),
    /// An error of the wire shape, a code and a message, together
    /// with the optional cause chain that stays in-process for
    /// diagnostics and is never serialized by default.
    Error(ErrorCode, String, Option<String>),
}

/// The abstract form of a response payload.
pub ghost enum InnerModel {
    Value(Value),
    Error(ErrorCode, Seq<char>, Option<Seq<char>>),
}

/// The abstract form of one response payload.
pub open spec fn inner_model(r: ResponseInner) -> InnerModel {
    match r {
        ResponseInner::Value(v) => InnerModel::Value(v),
        ResponseInner::Error(c, m, cause) => InnerModel::Error(c, m@, opt_view(cause)),
    }
}

/// A response envelope: the id of the request it answers and the
/// payload.
#[derive(Debug, PartialEq, Eq)]
pub struct Response {
    pub id: u32,
    pub inner: ResponseInner,
}

/// Resolves a value request against one store's contents: an unknown
/// path is a not-found error, a failure keeps the resolver's code and
/// message, and a stream outcome cannot answer a value request.
pub open spec fn spec_dispatch(
    m: Map<Seq<char>, ProcedureTodo>,
    ctx: Seq<Value>,
    path: Seq<char>,
    input: Option<Value>,
) -> InnerModel {
    if m.contains_key(path) {
        let todo = m[path];
        match spec_run(todo.layer.steps@, ctx, input, todo.layer.resolver).out {
            OutModel::Single(v) => InnerModel::Value(v),
            OutModel::Failure(c, msg, cause) => InnerModel::Error(c, msg, cause),
            OutModel::Sequence(_) => InnerModel::Error(
                ErrorCode::InternalServerError,
                ("a stream cannot answer a value request")@,
                None,
            ),
        }
    } else {
        InnerModel::Error(ErrorCode::NotFound, ("procedure not found")@, None)
    }
}

/// What executing a request against a built router returns.
pub open spec fn spec_execute(
    b: BuiltRouter,
    ctx: Seq<Value>,
    kind: ProcedureKind,
    path: Seq<char>,
    input: Option<Value>,
) -> InnerModel {
    match kind {
        ProcedureKind::Query => spec_dispatch(b.queries.as_map(), ctx, path, input),
        ProcedureKind::Mutation => spec_dispatch(b.mutations.as_map(), ctx, path, input),
        ProcedureKind::Subscription => InnerModel::Error(
            ErrorCode::BadRequest,
            ("subscriptions must be started through subscribe")@,
            None,
        ),
    }
}

/// What starting a subscription against a built router returns: the
/// elements the stream will lazily yield, or the error response.
pub open spec fn spec_subscribe(
    b: BuiltRouter,
    ctx: Seq<Value>,
    path: Seq<char>,
    input: Option<Value>,
) -> Result<Seq<Value>, InnerModel> {
    let m = b.subscriptions.as_map();
    if m.contains_key(path) {
        let todo = m[path];
        match spec_run(todo.layer.steps@, ctx, input, todo.layer.resolver).out {
            OutModel::Sequence(vs) => Result::Ok(vs),
            OutModel::Failure(c, msg, cause) => Result::Err(InnerModel::Error(c, msg, cause)),
            OutModel::Single(_) => Result::Err(
                InnerModel::Error(
                    ErrorCode::InternalServerError,
                    ("a value resolver cannot serve a subscription")@,
                    None,
                ),
            ),
        }
    } else {
        Result::Err(InnerModel::Error(ErrorCode::NotFound, ("procedure not found")@, None))
    }
}

/// A started subscription: a lazily pulled, cancellable stream of
/// values. The consumer determines the pull rate; after a
/// cancellation no further element is delivered.
pub struct Subscription {
    pub items: Vec<Value>,
    pub served: usize,
    pub cancelled: bool,
}

impl Subscription {
    /// The subscription after a cancellation.
    pub open spec fn spec_cancel(self) -> Subscription {
        Subscription { cancelled: true, ..self }
    }

    /// The subscription and the delivered element after one pull.
    pub open spec fn spec_pull(self) -> (Subscription, Option<Value>) {
        if self.cancelled || self.served >= self.items@.len() {
            (self, None)
        } else {
            (
                Subscription { served: (self.served + 1) as usize, ..self },
                Some(self.items@[self.served as int]),
            )
        }
    }

    /// Pulls the next element of the stream, or nothing once the
    /// stream is exhausted or cancelled.
    pub fn pull(&mut self) -> (r: Option<Value>)
        ensures
            *final(self) == old(self).spec_pull().0,
            r == old(self).spec_pull().1,
    {
        if self.cancelled || self.served >= self.items.len() {
            None
        } else {
            let v = self.items[self.served].clone();
            self.served = self.served + 1;
            Some(v)
        }
    }

    /// Stops the subscription: the producing sequence is not pulled
    /// again and no further element is delivered.
    pub fn cancel(&mut self)
        ensures
            *final(self) == old(self).spec_cancel(),
    {
        self.cancelled = true;
    }

    /// Whether the subscription has been cancelled.
    pub fn is_cancelled(&self) -> (r: bool)
        ensures
            r == self.cancelled,
    {
        self.cancelled
    }
}

/// Serves requests against a built router shared across concurrent
/// callers.
pub struct Executor {
    pub router: Arc<BuiltRouter>,
}

impl Executor {
    /// Wraps a built router for request dispatch.
    pub fn new(router: Arc<BuiltRouter>) -> (r: Executor)
        ensures
            r.router == router,
    {
        Executor { router }
    }

    /// Looks the operation up by kind and path and runs it with the
    /// given per-request context, normalizing the outcome into a
    /// response envelope. An unknown path answers with a not-found
    /// error; a subscription request is refused here and must go
    /// through `subscribe`.
    pub fn execute(&self, ctx: Vec<Value>, req: &Request) -> (r: Response)
        requires
            (*self.router).wf(),
        ensures
            r.id == req.spec_id(),
            inner_model(r.inner) == spec_execute(
                *self.router,
                ctx@,
                req.spec_kind(),
                req.spec_path(),
                req.spec_input(),
            ),
    {
        match req {
            Request::Query { id, path, input } => dispatch_value(
                &(*self.router).queries,
                *id,
                path,
                input,
                ctx,
            ),
            Request::Mutation { id, path, input } => dispatch_value(
                &(*self.router).mutations,
                *id,
                path,
                input,
                ctx,
            ),
            Request::Subscription { id, .. } => Response {
                id: *id,
                inner: ResponseInner::Error(
                    ErrorCode::BadRequest,
                    String::from_str("subscriptions must be started through subscribe"),
                    None,
                ),
            },
        }
    }

    /// Starts a subscription: looks the operation up in the
    /// subscription store, runs its chain, and hands back the lazily
    /// pulled stream, or the error response.
    pub fn subscribe(&self, ctx: Vec<Value>, path: &String, input: Option<Value>) -> (r: Result<
        Subscription,
        ResponseInner,
    >)
        requires
            (*self.router).wf(),
        ensures
            (match r {
                Result::Ok(sub) => {
                    &&& spec_subscribe(*self.router, ctx@, path@, input) matches Result::Ok(vs)
                        && sub.items@ == vs
                    &&& sub.served == 0
                    &&& !sub.cancelled
                },
                Result::Err(inner) => spec_subscribe(*self.router, ctx@, path@, input)
                    matches Result::Err(m) && inner_model(inner) == m,
            }),
    {
        match (*self.router).subscriptions.get(path.as_str()) {
            Some(todo) => {
                let (out, _trace) = run_layer(&todo.layer, ctx, input);
                match out {
                    LayerOut::Sequence(vs) => Result::Ok(
                        Subscription { items: vs, served: 0, cancelled: false },
                    ),
                    LayerOut::Failure(c, m, cause) => Result::Err(
                        ResponseInner::Error(c, m, cause),
                    ),
                    LayerOut::Single(_) => Result::Err(
                        ResponseInner::Error(
                            ErrorCode::InternalServerError,
                            String::from_str("a value resolver cannot serve a subscription"),
                            None,
                        ),
                    ),
                }
            },
            None => Result::Err(
                ResponseInner::Error(
                    ErrorCode::NotFound,
                    String::from_str("procedure not found"),
                    None,
                ),
            ),
        }
    }
}

/// Resolves one value request against a store.
fn dispatch_value(
    store: &ProcedureStore,
    id: u32,
    path: &String,
    input: &Option<Value>,
    ctx: Vec<Value>,
) -> (r: Response)
    requires
        store.wf(),
    ensures
        r.id == id,
        inner_model(r.inner) == spec_dispatch(store.as_map(), ctx@, path@, *input),
{
    match store.get(path.as_str()) {
        Some(todo) => {
            let (out, _trace) = run_layer(&todo.layer, ctx, clone_opt(input));
            match out {
                LayerOut::Single(v) => Response { id, inner: ResponseInner::Value(v) },
                LayerOut::Failure(c, m, cause) => Response {
                    id,
                    inner: ResponseInner::Error(c, m, cause),
                },
                LayerOut::Sequence(_) => Response {
                    id,
                    inner: ResponseInner::Error(
                        ErrorCode::InternalServerError,
                        String::from_str("a stream cannot answer a value request"),
                        None,
                    ),
                },
            }
        },
        None => Response {
            id,
            inner: ResponseInner::Error(
                ErrorCode::NotFound,
                String::from_str("procedure not found"),
                None,
            ),
        },
    }
}

/// Middleware chain order: for a chain of purely context-transforming
/// steps, the recorded trace enters the steps in registration order,
/// reaches the terminal resolver once, and leaves the steps in the
/// reverse order, onion-style.
pub proof fn lemma_onion_trace(
    steps: Seq<Middleware>,
    ctx: Seq<Value>,
    input: Option<Value>,
    res: Resolver,
)
    requires
        forall|i: int|
            0 <= i < steps.len() ==> ((#[trigger] steps[i].action) is PassThrough
                || steps[i].action is Attach),
    ensures
        spec_run(steps, ctx, input, res).trace == Seq::new(
            steps.len(),
            |i: int| TraceEvent::Enter(steps[i].id),
        ) + seq![TraceEvent::Resolve] + Seq::new(
            steps.len(),
            |i: int| TraceEvent::Exit(steps[steps.len() - 1 - i].id),
        ),
    decreases steps.len(),
{
    let n = steps.len() as int;
    let enters = Seq::new(steps.len(), |i: int| TraceEvent::Enter(steps[i].id));
    let exits = Seq::new(steps.len(), |i: int| TraceEvent::Exit(steps[n - 1 - i].id));
    if steps.len() == 0 {
        assert(spec_run(steps, ctx, input, res).trace =~= enters + seq![TraceEvent::Resolve]
            + exits);
    } else {
        let id = steps[0].id;
        let rest = steps.skip(1);
        let ctx2 = match steps[0].action {
            StepAction::Attach(v) => ctx.push(v),
            _ => ctx,
        };
        assert forall|i: int|
            0 <= i < rest.len() implies ((#[trigger] rest[i].action) is PassThrough
            || rest[i].action is Attach) by {
            assert(rest[i] == steps[i + 1]);
        }
        lemma_onion_trace(rest, ctx2, input, res);
        let inner = spec_run(rest, ctx2, input, res);
        let enters2 = Seq::new(rest.len(), |i: int| TraceEvent::Enter(rest[i].id));
        let exits2 = Seq::new(rest.len(), |i: int| TraceEvent::Exit(rest[rest.len() - 1 - i].id));
        assert(spec_run(steps, ctx, input, res).trace == seq![TraceEvent::Enter(id)] + inner.trace
            + seq![TraceEvent::Exit(id)]);
        assert((seq![TraceEvent::Enter(id)] + (enters2 + seq![TraceEvent::Resolve] + exits2)
            + seq![TraceEvent::Exit(id)]) =~= enters + seq![TraceEvent::Resolve] + exits) by {
            assert forall|k: int| 0 <= k < n implies enters[k] == (seq![TraceEvent::Enter(id)]
                + (enters2 + seq![TraceEvent::Resolve] + exits2) + seq![TraceEvent::Exit(id)])[k]
                by {
                if k > 0 {
                    assert(enters2[k - 1] == TraceEvent::Enter(rest[k - 1].id));
                    assert(rest[k - 1] == steps[k]);
                }
            }
            assert forall|k: int| 0 <= k < n implies exits[k] == (seq![TraceEvent::Enter(id)]
                + (enters2 + seq![TraceEvent::Resolve] + exits2) + seq![TraceEvent::Exit(id)])[n
                + 1 + k] by {
                if k < n - 1 {
                    assert(exits2[k] == TraceEvent::Exit(rest[rest.len() - 1 - k].id));
                    assert(rest[rest.len() - 1 - k] == steps[n - 1 - k]);
                }
            }
        }
    }
}

/// Subscription cancellation: once a subscription is cancelled, a
/// pull delivers nothing and leaves the stream untouched, so the
/// elements that were not yet pulled are never delivered.
pub proof fn lemma_cancel_stops_delivery(s: Subscription)
    ensures
        s.spec_cancel().spec_pull().0 == s.spec_cancel(),
        s.spec_cancel().spec_pull().1 is None,
{
}

} // verus!
