use rspc::{
    is_valid_name, run_layer, BuildErrorCause, BuildResult, ErrorCode, ExportConfig, ExportError,
    Executor, FieldType, Layer, LayerOut, Middleware, Procedure, ProcedureBuilder,
    ProcedureDataType, ProcedureLike, Request, Resolver, ResponseInner, Router, StepAction,
    TraceEvent, TypeEntry, Value,
};

fn unit_ty() -> ProcedureDataType {
    ProcedureDataType::from_tys(String::new(), FieldType::Unit, FieldType::Unit)
}

fn query_const(v: Value) -> Procedure {
    ProcedureBuilder::new().query(Resolver::Constant(v), unit_ty())
}

fn mutation_const(v: Value) -> Procedure {
    ProcedureBuilder::new().mutation(Resolver::Constant(v), unit_ty())
}

#[test]
fn valid_key_reaches_registered_operation() {
    let r = Router::new()
        .procedure("normal_key-1~x", query_const(Value::Int(5)))
        .build()
        .unwrap()
        .arced();
    let e = Executor::new(r);
    let resp = e.execute(
        vec![],
        &Request::Query { id: 3, path: "normal_key-1~x".into(), input: None },
    );
    assert_eq!(resp.id, 3);
    assert_eq!(resp.inner, ResponseInner::Value(Value::Int(5)));
}

#[test]
fn invalid_char_reported_at_first_occurrence() {
    match is_valid_name("ab@cd@ef") {
        Some(BuildErrorCause::InvalidCharInName(c)) => assert_eq!(c, '@'),
        other => panic!("unexpected validation result: {:?}", other),
    }
}

#[test]
fn empty_and_overlong_names_report_length_not_character() {
    assert!(matches!(is_valid_name(""), Some(BuildErrorCause::InvalidName)));
    let long: String = std::iter::repeat('x').take(256).collect();
    assert!(matches!(is_valid_name(&long), Some(BuildErrorCause::InvalidName)));
    let still_ok: String = std::iter::repeat('x').take(255).collect();
    assert!(is_valid_name(&still_ok).is_none());
}

#[test]
fn reserved_names_rejected() {
    assert!(matches!(is_valid_name("rspc"), Some(BuildErrorCause::ReservedName(_))));
    assert!(matches!(is_valid_name("_batch"), Some(BuildErrorCause::ReservedName(_))));
    assert!(is_valid_name("rspcx").is_none());
}

#[test]
fn duplicate_key_same_kind_reported() {
    let result = Router::new()
        .procedure("dup", query_const(Value::Null))
        .procedure("dup", query_const(Value::Null))
        .build();
    let errors = match result {
        BuildResult::Failed(e) => e,
        BuildResult::Built(_) => panic!("expected a duplicate error"),
    };
    assert_eq!(errors.len(), 1);
    let (key, message) = errors[0].expose();
    assert_eq!(key, "dup".to_string());
    assert_eq!(
        message,
        "a procedure or router with the name 'dup' has already been registered".to_string()
    );
}

#[test]
fn same_key_across_kinds_is_not_an_error() {
    let r = Router::new()
        .procedure("both", query_const(Value::Int(1)))
        .procedure("both", mutation_const(Value::Int(2)))
        .build()
        .unwrap()
        .arced();
    let e = Executor::new(r);
    let q = e.execute(vec![], &Request::Query { id: 0, path: "both".into(), input: None });
    let m = e.execute(vec![], &Request::Mutation { id: 0, path: "both".into(), input: None });
    assert_eq!(q.inner, ResponseInner::Value(Value::Int(1)));
    assert_eq!(m.inner, ResponseInner::Value(Value::Int(2)));
}

#[test]
fn reserved_socket_key_is_a_build_error() {
    let result = Router::new().procedure("ws", query_const(Value::Null)).build();
    let errors = match result {
        BuildResult::Failed(e) => e,
        BuildResult::Built(_) => panic!("expected a reserved-name error"),
    };
    assert_eq!(errors.len(), 1);
    let (key, _message) = errors[0].expose();
    assert_eq!(key, "ws".to_string());
}

#[test]
fn reserved_namespace_prefix_is_a_build_error() {
    let result = Router::new()
        .merge("rpc", Router::new().procedure("a", query_const(Value::Null)))
        .build();
    let errors = match result {
        BuildResult::Failed(e) => e,
        BuildResult::Built(_) => panic!("expected a reserved-name error"),
    };
    assert_eq!(errors.len(), 1);
    let (key, _message) = errors[0].expose();
    assert_eq!(key, "rpc.a".to_string());
}

#[test]
fn unknown_path_answers_not_found() {
    let r = Router::new()
        .procedure("known", query_const(Value::Null))
        .build()
        .unwrap()
        .arced();
    let e = Executor::new(r);
    let resp = e.execute(vec![], &Request::Query { id: 0, path: "missing".into(), input: None });
    match resp.inner {
        ResponseInner::Error(code, message, cause) => {
            assert_eq!(code, ErrorCode::NotFound);
            assert_eq!(message, "procedure not found".to_string());
            assert_eq!(cause, None);
        },
        other => panic!("unexpected response: {:?}", other),
    }
}

#[test]
fn resolver_failure_keeps_code_and_message() {
    let p = ProcedureBuilder::new().query(
        Resolver::Fail(ErrorCode::BadRequest, "blame the caller".into(), None),
        unit_ty(),
    );
    let r = Router::new().procedure("failing", p).build().unwrap().arced();
    let e = Executor::new(r);
    let resp = e.execute(vec![], &Request::Query { id: 0, path: "failing".into(), input: None });
    assert_eq!(
        resp.inner,
        ResponseInner::Error(ErrorCode::BadRequest, "blame the caller".into(), None)
    );
}

#[test]
fn failure_cause_stays_in_process() {
    let p = ProcedureBuilder::new().query(
        Resolver::Fail(
            ErrorCode::InternalServerError,
            "storage unavailable".into(),
            Some("connection refused by backend".into()),
        ),
        unit_ty(),
    );
    let r = Router::new().procedure("diag", p).build().unwrap().arced();
    let e = Executor::new(r);
    let resp = e.execute(vec![], &Request::Query { id: 0, path: "diag".into(), input: None });
    assert_eq!(
        resp.inner,
        ResponseInner::Error(
            ErrorCode::InternalServerError,
            "storage unavailable".into(),
            Some("connection refused by backend".into()),
        )
    );
}

#[test]
fn mismatched_map_arg_input_is_bad_request() {
    let p = ProcedureBuilder::new()
        .with(Middleware { id: 1, action: StepAction::MapArg })
        .query(Resolver::EchoInput, unit_ty());
    let r = Router::new().procedure("mapped", p).build().unwrap().arced();
    let e = Executor::new(r);
    let resp = e.execute(
        vec![],
        &Request::Query { id: 0, path: "mapped".into(), input: Some(Value::Int(1)) },
    );
    match resp.inner {
        ResponseInner::Error(code, _message, _cause) => assert_eq!(code, ErrorCode::BadRequest),
        other => panic!("unexpected response: {:?}", other),
    }
}

#[test]
fn middleware_onion_trace_order() {
    let layer = Layer {
        steps: vec![
            Middleware { id: 1, action: StepAction::PassThrough },
            Middleware { id: 2, action: StepAction::Attach(Value::Int(9)) },
        ],
        resolver: Resolver::Constant(Value::Null),
    };
    let (out, trace) = run_layer(&layer, vec![], None);
    assert!(matches!(out, LayerOut::Single(Value::Null)));
    assert_eq!(
        trace,
        vec![
            TraceEvent::Enter(1),
            TraceEvent::Enter(2),
            TraceEvent::Resolve,
            TraceEvent::Exit(2),
            TraceEvent::Exit(1),
        ]
    );
}

#[test]
fn short_circuit_skips_downstream() {
    let layer = Layer {
        steps: vec![
            Middleware { id: 1, action: StepAction::PassThrough },
            Middleware { id: 2, action: StepAction::ShortCircuit(Value::Int(8)) },
            Middleware { id: 3, action: StepAction::PassThrough },
        ],
        resolver: Resolver::Fail(ErrorCode::InternalServerError, "never reached".into(), None),
    };
    let (out, trace) = run_layer(&layer, vec![], None);
    assert!(matches!(out, LayerOut::Single(Value::Int(8))));
    assert_eq!(
        trace,
        vec![
            TraceEvent::Enter(1),
            TraceEvent::Enter(2),
            TraceEvent::Exit(2),
            TraceEvent::Exit(1),
        ]
    );
}

#[test]
fn chain_composition_concatenates_steps() {
    let first = ProcedureBuilder::new()
        .with(Middleware { id: 1, action: StepAction::PassThrough });
    let second = ProcedureBuilder::new()
        .with(Middleware { id: 2, action: StepAction::PassThrough });
    let p = first.compose(second).query(Resolver::Constant(Value::Null), unit_ty());
    let (_, trace) = run_layer(&p.todo.layer, vec![], None);
    assert_eq!(
        trace,
        vec![
            TraceEvent::Enter(1),
            TraceEvent::Enter(2),
            TraceEvent::Resolve,
            TraceEvent::Exit(2),
            TraceEvent::Exit(1),
        ]
    );
}

fn five_pings() -> Procedure {
    ProcedureBuilder::new().subscription(
        Resolver::Stream(vec![
            Value::Int(0),
            Value::Int(1),
            Value::Int(2),
            Value::Int(3),
            Value::Int(4),
        ]),
        unit_ty(),
    )
}

#[test]
fn subscription_cancellation_stops_delivery() {
    let r = Router::new().procedure("pings", five_pings()).build().unwrap().arced();
    let e = Executor::new(r);
    let mut sub = e.subscribe(vec![], &"pings".to_string(), None).unwrap();
    assert_eq!(sub.pull(), Some(Value::Int(0)));
    assert_eq!(sub.pull(), Some(Value::Int(1)));
    sub.cancel();
    assert!(sub.is_cancelled());
    assert_eq!(sub.pull(), None);
    assert_eq!(sub.pull(), None);
}

#[test]
fn subscription_completes_after_last_element() {
    let r = Router::new().procedure("pings", five_pings()).build().unwrap().arced();
    let e = Executor::new(r);
    let mut sub = e.subscribe(vec![], &"pings".to_string(), None).unwrap();
    let mut count = 0;
    while let Some(_) = sub.pull() {
        count += 1;
    }
    assert_eq!(count, 5);
    assert_eq!(sub.pull(), None);
}

#[test]
fn subscription_request_through_execute_is_refused() {
    let r = Router::new().procedure("pings", five_pings()).build().unwrap().arced();
    let e = Executor::new(r);
    let resp = e.execute(
        vec![],
        &Request::Subscription { id: 0, path: "pings".into(), input: None },
    );
    match resp.inner {
        ResponseInner::Error(code, _, _) => assert_eq!(code, ErrorCode::BadRequest),
        other => panic!("unexpected response: {:?}", other),
    }
}

fn ty_entry(sid: u64, name: &str, location: &str, body: &str) -> TypeEntry {
    TypeEntry {
        sid,
        name: name.to_string(),
        location: location.to_string(),
        body: body.to_string(),
    }
}

fn typed_router() -> Router {
    let p = ProcedureBuilder::new().query(
        Resolver::Constant(Value::Null),
        ProcedureDataType::from_tys(
            "version".into(),
            FieldType::Unit,
            FieldType::Reference(7),
        ),
    );
    Router::new()
        .procedure("version", p)
        .add_type(ty_entry(7, "VersionInfo", "src/info.rs:1", "export type VersionInfo = string"))
}

#[test]
fn export_is_byte_identical_across_runs() {
    let r = typed_router().build().unwrap();
    let cfg = ExportConfig::new("./bindings.ts".into()).set_header("// custom header".into());
    let once = r.export_string(&cfg).unwrap();
    let twice = r.export_string(&cfg).unwrap();
    assert_eq!(once, twice);
    assert!(once.starts_with("// custom header\n"));
    assert!(once.contains("{ key: \"version\", input: never, result: VersionInfo }"));
    assert!(once.contains("export type VersionInfo = string"));
}

#[test]
fn export_renders_empty_stores_as_never() {
    let r = Router::new().build().unwrap();
    let out = r.export_string(&ExportConfig::new("./bindings.ts".into())).unwrap();
    assert!(out.contains("queries: never"));
    assert!(out.contains("mutations: never"));
    assert!(out.contains("subscriptions: never"));
}

#[test]
fn export_duplicate_type_name_names_both_locations() {
    let r = typed_router()
        .add_type(ty_entry(9, "VersionInfo", "src/other.rs:5", "export type VersionInfo = number"))
        .build()
        .unwrap();
    match r.export_string(&ExportConfig::new("./bindings.ts".into())) {
        Err(ExportError::DuplicateTypeName(name, later, earlier)) => {
            assert_eq!(name, "VersionInfo".to_string());
            assert_eq!(later, "src/other.rs:5".to_string());
            assert_eq!(earlier, "src/info.rs:1".to_string());
        },
        other => panic!("unexpected export outcome: {:?}", other.map(|_| ())),
    }
}

#[test]
fn export_rejects_bigint_shapes() {
    let p = ProcedureBuilder::new().query(
        Resolver::Constant(Value::Null),
        ProcedureDataType::from_tys("wide".into(), FieldType::BigInt("u64".into()), FieldType::Unit),
    );
    let r = Router::new().procedure("wide", p).build().unwrap();
    match r.export_string(&ExportConfig::new("./bindings.ts".into())) {
        Err(ExportError::BigIntForbidden(w)) => assert_eq!(w, "u64".to_string()),
        other => panic!("unexpected export outcome: {:?}", other.map(|_| ())),
    }
}

#[test]
fn export_rejects_unresolved_references() {
    let p = ProcedureBuilder::new().query(
        Resolver::Constant(Value::Null),
        ProcedureDataType::from_tys("lost".into(), FieldType::Unit, FieldType::Reference(99)),
    );
    let r = Router::new().procedure("lost", p).build().unwrap();
    match r.export_string(&ExportConfig::new("./bindings.ts".into())) {
        Err(ExportError::UnknownTypeReference(sid)) => assert_eq!(sid, 99),
        other => panic!("unexpected export outcome: {:?}", other.map(|_| ())),
    }
}

#[test]
fn merged_execution_matches_direct_execution() {
    let sub = || Router::new().procedure("leaf", query_const(Value::Text("same".into())));
    let direct = Executor::new(sub().build().unwrap().arced());
    let merged = Executor::new(
        Router::new().merge("outer", sub()).build().unwrap().arced(),
    );
    let a = direct.execute(vec![], &Request::Query { id: 0, path: "leaf".into(), input: None });
    let b = merged.execute(
        vec![],
        &Request::Query { id: 0, path: "outer.leaf".into(), input: None },
    );
    assert_eq!(a.inner, b.inner);
}

#[test]
fn merged_types_prefer_the_outer_registry() {
    let outer = Router::new()
        .add_type(ty_entry(1, "Shared", "outer.rs:1", "export type Shared = string"));
    let inner = Router::new()
        .procedure("x", query_const(Value::Null))
        .add_type(ty_entry(1, "Shared", "inner.rs:1", "export type Shared = number"))
        .add_type(ty_entry(2, "Extra", "inner.rs:2", "export type Extra = null"));
    let r = outer.merge("m", inner).build().unwrap();
    let types = r.typ_store();
    assert_eq!(types.len(), 2);
    assert_eq!(types[0].location, "outer.rs:1".to_string());
    assert_eq!(types[1].name, "Extra".to_string());
}

#[test]
fn export_config_keeps_path_and_header() {
    let cfg = ExportConfig::new("./somewhere.ts".into());
    assert_eq!(cfg.header, String::new());
    let cfg = cfg.set_header("// hi".into());
    assert_eq!(cfg.export_path, "./somewhere.ts".to_string());
    assert_eq!(cfg.header, "// hi".to_string());
}

#[test]
fn procedure_descriptor_is_kept() {
    let ty = ProcedureDataType::from_tys(
        "named".into(),
        FieldType::Inline("string".into()),
        FieldType::Inline("number".into()),
    );
    let p = ProcedureBuilder::new().query(Resolver::Constant(Value::Null), ty);
    let r = Router::new().procedure("named", p).build().unwrap();
    let todo = r.queries().get("named").unwrap();
    match &todo.ty().input {
        FieldType::Inline(s) => assert_eq!(s, &"string".to_string()),
        other => panic!("unexpected input shape: {:?}", other),
    }
}
