//! An in-process RPC procedure engine.
//!
//! A host application registers named operations (queries, mutations and
//! subscriptions) on a [`Router`], optionally wrapping them in ordered
//! middleware chains, and then freezes the result into a [`BuiltRouter`].
//! An [`Executor`] dispatches incoming requests to the registered
//! operations by dotted path, and the export module renders a
//! deterministic textual description of every operation's input and
//! result shape.

mod executor;
mod export;
mod laws;
mod middleware;
mod name;
mod procedure;
mod router;
mod store;
mod strutil;
mod value;

pub use executor::{
    inner_model, lemma_cancel_stops_delivery, lemma_onion_trace, out_model, run_layer,
    spec_dispatch, spec_execute, spec_resolve, spec_run, spec_subscribe, ErrorCode, Executor,
    InnerModel, LayerOut, OutModel, Request, Response, ResponseInner, RunModel, Subscription,
};
pub use export::{
    lemma_export_deterministic, spec_export, ExportConfig, ExportErrModel, ExportError,
};
pub use laws::{
    join1, lemma_duplicate_key_reported, lemma_merge_execute, lemma_same_key_two_kinds,
    lemma_valid_key_reachable, lemma_valid_subscription_reachable, map_rel, proc_reg, state_rel,
};
pub use middleware::{Middleware, StepAction, TraceEvent};
pub use name::{is_valid_name, BuildErrorCause};
pub use procedure::{
    FieldType, Layer, Procedure, ProcedureBuilder, ProcedureDataType, ProcedureKind,
    ProcedureLike, ProcedureTodo, Resolver,
};
pub use router::{
    model_of, regs_model, BuildError, BuildModel, BuildResult, BuiltRouter, ErrModel, Reg,
    RegModel, Router, TypeEntry,
};
pub use store::{ProcedureStore, StoreEntry};
pub use value::Value;
