use vstd::prelude::*;

use crate::value::Value;

verus! {

/// What a middleware step does when a request passes through it.
///
/// Every step is a context-transforming unit; the context itself is an
/// extension bag of values that each step may extend before control
/// reaches the next link of the chain.
pub enum StepAction {
    /// Hand the unchanged context to the next link.
    PassThrough,
    /// Push the given value onto the context bag, then continue.
    Attach(Value),
    /// Split a `Value::Pair` input into a forwarded input (the first
    /// half) and an auxiliary state pushed onto the context bag (the
    /// second half). Any other input is rejected as a bad request.
    MapArg,
    /// Return the given value directly without invoking anything
    /// further down the chain.
    ShortCircuit(Value),
}

/// One step of a middleware chain, tagged with an identifier that the
/// execution trace records on the way in and on the way out.
pub struct Middleware {
    pub id: u64,
    pub action: StepAction,
}

/// One entry of an execution trace: entering a middleware step,
/// reaching the terminal resolver, or leaving a middleware step while
/// post-processing on the way out.
#[derive(Clone, Copy, Debug, PartialEq, Eq, Structural)]
pub enum TraceEvent {
    Enter(u64),
    Resolve,
    Exit(u64),
}

} // verus!
