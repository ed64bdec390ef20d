use rspc::{
    BuildResult, ExportConfig, Executor, Middleware, Procedure,
    ProcedureBuilder, ProcedureDataType, ProcedureLike, Request, Resolver, ResponseInner, Router,
    StepAction, Value, FieldType,
};

fn unit_ty() -> ProcedureDataType {
    ProcedureDataType::from_tys(String::new(), FieldType::Unit, FieldType::Unit)
}

fn query_null() -> Procedure {
    ProcedureBuilder::new().query(Resolver::Constant(Value::Null), unit_ty())
}

fn assert_resp(e: &Executor, req: Request, expected: ResponseInner) {
    let resp = e.execute(vec![], &req);
    assert_eq!(resp.inner, expected);
}

#[test]
fn test_router_merging() {
    let r = Router::new()
        .procedure("a", query_null())
        .merge("r1", Router::new().procedure("b", query_null()))
        .merge("r2", Router::new().procedure("c", query_null()))
        .build()
        .unwrap()
        .arced();

    let e = Executor::new(r);

    // Call procedure on primary router
    assert_resp(
        &e,
        Request::Query { id: 0, path: "a".into(), input: None },
        ResponseInner::Value(Value::Null),
    );

    // Call procedure on subrouter
    assert_resp(
        &e,
        Request::Query { id: 0, path: "r1.b".into(), input: None },
        ResponseInner::Value(Value::Null),
    );

    // Call procedure on another subrouter
    assert_resp(
        &e,
        Request::Query { id: 0, path: "r2.c".into(), input: None },
        ResponseInner::Value(Value::Null),
    );
}

#[test]
fn test_invalid_prefix() {
    const VERY_LONG_NAME: &str = "aaaaaaaaaaaaaaaaaaaaaaaaaaaaaaaaaaaaaaaaaaaaaaaaaaaaaaaaaaaaaaaaaaaaaaaaaaaaaaaaaaaaaaaaaaaaaaaaaaaaaaaaaaaaaaaaaaaaaaaaaaaaaaaaaaaaaaaaaaaaaaaaaaaaaaaaaaaaaaaaaaaaaaaaaaaaaaaaaaaaaaaaaaaaaaaaaaaaaaaaaaaaaaaaaaaaaaaaaaaaaaaaaaaaaaaaaaaaaaaaaaaaaaaaaaaaaaaa";

    let result = Router::new()
        .procedure("@@@", query_null())
        .procedure("demo.2", query_null())
        .procedure("", query_null())
        .procedure(VERY_LONG_NAME, query_null())
        .merge(
            "invalid.prefix",
            Router::new().procedure("a", query_null()),
        )
        .build();

    let errors = match result {
        BuildResult::Failed(e) => e,
        BuildResult::Built(_) => panic!("Expected error"),
    };
    assert_eq!(errors.len(), 5);

    assert_eq!(errors[0].expose(), ("@@@".into(), "a procedure or router name contains the character '@' which is not allowed. Names must be alphanumeric or have '_' or '-'".into()));
    assert_eq!(errors[1].expose(), ("demo.2".into(), "a procedure or router name contains the character '.' which is not allowed. Names must be alphanumeric or have '_' or '-'".into()));
    assert_eq!(
        errors[2].expose(),
        (
            "".into(),
            "a procedure or router name must be more than 1 character and less than 255 characters"
                .into()
        )
    );
    assert_eq!(
        errors[3].expose(),
        (
            VERY_LONG_NAME.into(),
            "a procedure or router name must be more than 1 character and less than 255 characters"
                .into()
        )
    );
    assert_eq!(errors[4].expose(), ("invalid.prefix".into(), "a procedure or router name contains the character '.' which is not allowed. Names must be alphanumeric or have '_' or '-'".into()));
}

#[test]
fn test_alpha_api() {
    let r = Router::new()
        .procedure(
            "todo",
            ProcedureBuilder::new()
                .with(Middleware { id: 1, action: StepAction::PassThrough })
                .query(Resolver::Constant(Value::Null), unit_ty()),
        )
        .procedure(
            "todo2",
            ProcedureBuilder::new()
                .with(Middleware { id: 1, action: StepAction::PassThrough })
                .with(Middleware { id: 2, action: StepAction::PassThrough })
                .query(Resolver::Constant(Value::Null), unit_ty()),
        )
        .procedure(
            "todo3",
            ProcedureBuilder::new().query(Resolver::Constant(Value::Null), unit_ty()),
        )
        .procedure(
            "demoSubscriptions",
            ProcedureBuilder::new().subscription(
                Resolver::Stream(vec![
                    Value::Text("ping".into()),
                    Value::Text("ping".into()),
                    Value::Text("ping".into()),
                    Value::Text("ping".into()),
                    Value::Text("ping".into()),
                ]),
                unit_ty(),
            ),
        )
        .build()
        .unwrap();

    let out = r
        .export_string(&ExportConfig::new("./demo.bindings.ts".into()))
        .unwrap();
    assert!(out.contains("demoSubscriptions"));
}

#[test]
fn test_context_switching() {
    let p = ProcedureBuilder::new()
        .with(Middleware { id: 1, action: StepAction::Attach(Value::Int(42)) })
        .with(Middleware { id: 2, action: StepAction::Attach(Value::Int(42)) })
        .with(Middleware { id: 3, action: StepAction::PassThrough })
        .query(Resolver::LastCtx, unit_ty());

    let r = Router::new().procedure("ctx_demo", p).build().unwrap().arced();
    let e = Executor::new(r);
    assert_resp(
        &e,
        Request::Query { id: 0, path: "ctx_demo".into(), input: None },
        ResponseInner::Value(Value::Int(42)),
    );
}

fn library(id: u64) -> Middleware {
    Middleware { id, action: StepAction::Attach(Value::Int(42)) }
}

#[test]
fn with_middleware_from_func() {
    let p = ProcedureBuilder::new()
        .with(library(1))
        .with(library(2))
        .query(Resolver::LastCtx, unit_ty());

    let r = Router::new().procedure("lib_demo", p).build().unwrap().arced();
    let e = Executor::new(r);
    assert_resp(
        &e,
        Request::Query { id: 0, path: "lib_demo".into(), input: None },
        ResponseInner::Value(Value::Int(42)),
    );
}

#[test]
fn middleware_args() {
    let p = ProcedureBuilder::new()
        .with(Middleware { id: 1, action: StepAction::MapArg })
        .query(Resolver::LastCtx, unit_ty());

    let r = Router::new().procedure("demo_args", p).build().unwrap().arced();
    let e = Executor::new(r);

    // The pair input is split: the first half is forwarded, the
    // second becomes middleware state on the context bag.
    let input = Value::Pair(Box::new(Value::Int(42)), Box::new(Value::Int(7)));
    assert_resp(
        &e,
        Request::Query { id: 0, path: "demo_args".into(), input: Some(input) },
        ResponseInner::Value(Value::Int(7)),
    );
}

fn mapped_middleware() -> Middleware {
    Middleware { id: 9, action: StepAction::MapArg }
}

#[test]
fn middleware_args_abstracted() {
    let p = ProcedureBuilder::new()
        .with(mapped_middleware())
        .query(Resolver::EchoInput, unit_ty());

    let r = Router::new().procedure("demo_args2", p).build().unwrap().arced();
    let e = Executor::new(r);

    let input = Value::Pair(Box::new(Value::Int(42)), Box::new(Value::Int(7)));
    assert_resp(
        &e,
        Request::Query { id: 0, path: "demo_args2".into(), input: Some(input) },
        ResponseInner::Value(Value::Int(42)),
    );
}

#[test]
fn multiple_middleware_args() {
    let p = ProcedureBuilder::new()
        .with(Middleware { id: 1, action: StepAction::MapArg })
        .with(Middleware { id: 2, action: StepAction::MapArg })
        .query(Resolver::EchoInput, unit_ty());

    // The outer pair feeds the first step, the forwarded half feeds
    // the second.
    let inner = Value::Pair(Box::new(Value::Int(42)), Box::new(Value::Int(2)));
    let input = Value::Pair(Box::new(inner), Box::new(Value::Int(1)));

    let r = Router::new().procedure("demo", p).build().unwrap();
    let out = r
        .export_string(&ExportConfig::new("./demo2.bindings.ts".into()))
        .unwrap();
    assert!(out.contains("demo"));

    let e = Executor::new(r.arced());
    assert_resp(
        &e,
        Request::Query { id: 0, path: "demo".into(), input: Some(input) },
        ResponseInner::Value(Value::Int(42)),
    );
}
