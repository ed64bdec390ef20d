use vstd::prelude::*;

use crate::executor::ErrorCode;
use crate::middleware::Middleware;
use crate::value::Value;

verus! {

/// The three kinds of operation a router can hold. Each kind has its
/// own independent namespace of keys.
#[derive(Clone, Copy, Debug, PartialEq, Eq, Structural)]
pub enum ProcedureKind {
    Query,
    Mutation,
    Subscription,
}

/// The terminal resolver of an operation: the closed set of call
/// shapes that the engine can hold once a procedure has been erased.
pub enum Resolver {
    /// Resolves immediately to the given value.
    Constant(Value),
    /// Resolves to the raw input payload, or `Value::Null` when the
    /// request carries none.
    EchoInput,
    /// Resolves to the most recently attached context-bag entry, or
    /// `Value::Null` when the bag is empty.
    LastCtx,
    /// Reports a failure with the given code and message, and an
    /// optional wrapped cause kept for in-process diagnostics only.
    Fail(ErrorCode, String, Option<String>),
    /// Yields the given elements one at a time, as a lazily pulled
    /// sequence; only subscriptions may hold this shape.
    Stream(Vec<Value>),
}

impl Resolver {
    /// Whether this resolver produces a stream of values rather than a
    /// single result.
    pub open spec fn is_stream(&self) -> bool {
        self is Stream
    }
}

/// The type-erased, uniformly callable form of a procedure: its
/// middleware chain followed by its terminal resolver.
pub struct Layer {
    pub steps: Vec<Middleware>,
    pub resolver: Resolver,
}

/// The declared shape of an operation's input or result, as handed
/// over by the type-description subsystem.
#[derive(Debug)]
pub enum FieldType {
    /// An empty tuple or empty enum; an input of this shape is
    /// rendered as an explicit never marker.
    Unit,
    /// A shape already rendered to text.
    Inline(String),
    /// A reference, by stable identity, to a named type definition
    /// registered alongside the router.
    Reference(u64),
    /// A numeric width that the export target cannot represent without
    /// losing precision; rendering it fails. Holds the width's name.
    BigInt(String),
}

/// The schema descriptor of one operation: its key and the declared
/// shapes of its input and result.
pub struct ProcedureDataType {
    pub key: String,
    pub input: FieldType,
    pub result: FieldType,
}

impl ProcedureDataType {
    /// Builds the descriptor of an operation from the declared shapes
    /// of its input and result.
    pub fn from_tys(key: String, input: FieldType, result: FieldType) -> (r: ProcedureDataType)
        ensures
            r == (ProcedureDataType { key, input, result }),
    {
        ProcedureDataType { key, input, result }
    }
}

/// A registered, type-erased operation together with its schema
/// descriptor. Immutable once inserted into a store.
pub struct ProcedureTodo {
    pub layer: Layer,
    pub ty: ProcedureDataType,
}

impl ProcedureTodo {
    /// The schema descriptor of this operation.
    pub fn ty(&self) -> (r: &ProcedureDataType)
        ensures
            r == self.ty,
    {
        &self.ty
    }
}

/// A staged operation, ready to be registered on a router under a key.
pub struct Procedure {
    pub kind: ProcedureKind,
    pub todo: ProcedureTodo,
}

impl Procedure {
    /// The kind of store this operation belongs to.
    pub open spec fn spec_kind(&self) -> ProcedureKind {
        self.kind
    }

    /// The middleware steps attached to this operation, in order.
    pub open spec fn spec_steps(&self) -> Seq<Middleware> {
        self.todo.layer.steps@
    }

    /// The terminal resolver of this operation.
    pub open spec fn spec_resolver(&self) -> Resolver {
        self.todo.layer.resolver
    }

    /// The schema descriptor of this operation.
    pub open spec fn spec_ty(&self) -> ProcedureDataType {
        self.todo.ty
    }
}

/// Anything that can finish a middleware chain into a staged
/// operation of one of the three kinds.
pub trait ProcedureLike: Sized {
    /// The middleware steps accumulated so far, in registration order.
    spec fn chain(&self) -> Seq<Middleware>;

    /// Attaches a value-producing resolver as a query.
    fn query(self, resolver: Resolver, ty: ProcedureDataType) -> (r: Procedure)
        requires
            !resolver.is_stream(),
        ensures
            r.kind == ProcedureKind::Query,
            r.spec_steps() == self.chain(),
            r.spec_resolver() == resolver,
            r.spec_ty() == ty,
    ;

    /// Attaches a value-producing resolver as a mutation.
    fn mutation(self, resolver: Resolver, ty: ProcedureDataType) -> (r: Procedure)
        requires
            !resolver.is_stream(),
        ensures
            r.kind == ProcedureKind::Mutation,
            r.spec_steps() == self.chain(),
            r.spec_resolver() == resolver,
            r.spec_ty() == ty,
    ;

    /// Attaches a stream-producing resolver as a subscription.
    fn subscription(self, resolver: Resolver, ty: ProcedureDataType) -> (r: Procedure)
        requires
            resolver.is_stream(),
        ensures
            r.kind == ProcedureKind::Subscription,
            r.spec_steps() == self.chain(),
            r.spec_resolver() == resolver,
            r.spec_ty() == ty,
    ;
}

/// Accumulates an ordered middleware chain ahead of a terminal
/// resolver.
pub struct ProcedureBuilder {
    pub steps: Vec<Middleware>,
}

impl ProcedureBuilder {
    /// Starts an empty chain.
    pub fn new() -> (r: ProcedureBuilder)
        ensures
            r.steps@ == Seq::<Middleware>::empty(),
    {
        ProcedureBuilder { steps: Vec::new() }
    }

    /// Appends one middleware step to the end of the chain.
    pub fn with(self, mw: Middleware) -> (r: ProcedureBuilder)
        ensures
            r.steps@ == self.steps@.push(mw),
    {
        let mut steps = self.steps;
        steps.push(mw);
        ProcedureBuilder { steps }
    }

    /// Composes this chain with another: the resulting chain runs this
    /// chain's steps first, then the other's, concatenating the two
    /// step sequences.
    pub fn compose(self, other: ProcedureBuilder) -> (r: ProcedureBuilder)
        ensures
            r.steps@ == self.steps@ + other.steps@,
    {
        let mut steps = self.steps;
        let mut tail = other.steps;
        steps.append(&mut tail);
        ProcedureBuilder { steps }
    }
}

impl ProcedureLike for ProcedureBuilder {
    open spec fn chain(&self) -> Seq<Middleware> {
        self.steps@
    }

    fn query(self, resolver: Resolver, ty: ProcedureDataType) -> (r: Procedure) {
        Procedure {
            kind: ProcedureKind::Query,
            todo: ProcedureTodo { layer: Layer { steps: self.steps, resolver }, ty },
        }
    }

    fn mutation(self, resolver: Resolver, ty: ProcedureDataType) -> (r: Procedure) {
        Procedure {
            kind: ProcedureKind::Mutation,
            todo: ProcedureTodo { layer: Layer { steps: self.steps, resolver }, ty },
        }
    }

    fn subscription(self, resolver: Resolver, ty: ProcedureDataType) -> (r: Procedure) {
        Procedure {
            kind: ProcedureKind::Subscription,
            todo: ProcedureTodo { layer: Layer { steps: self.steps, resolver }, ty },
        }
    }
}

} // verus!
