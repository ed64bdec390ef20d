use vstd::prelude::*;

use crate::executor::{spec_execute, spec_run, spec_subscribe, InnerModel, OutModel};
use crate::name::{spec_validate, CauseKind};
use crate::procedure::{ProcedureKind, ProcedureTodo};
use crate::router::{
    flat_prefixes, full_key, model_of, model_step, prefixed_model, prefixed_regs, prefixes_ok,
    BuildModel, BuiltRouter, ErrModel, RegModel,
};
use crate::store::key_reserved;
use crate::value::Value;

verus! {

/// The staged form of one direct registration: an operation under a
/// key, below no merge prefix.
pub open spec fn proc_reg(kind: ProcedureKind, key: Seq<char>, todo: ProcedureTodo) -> RegModel {
    RegModel::Proc { kind, prefixes: Seq::empty(), key, todo }
}

/// The key under which a merged operation is stored: the prefix, the
/// separator, and the original key.
pub open spec fn join1(p: Seq<char>, k: Seq<char>) -> Seq<char> {
    p + seq!['.'] + k
}

/// Joining under one prefix is injective in the original key.
proof fn lemma_join1_injective(p: Seq<char>, k1: Seq<char>, k2: Seq<char>)
    requires
        join1(p, k1) == join1(p, k2),
    ensures
        k1 == k2,
{
    assert(k1 =~= join1(p, k1).skip(p.len() as int + 1));
    assert(k2 =~= join1(p, k2).skip(p.len() as int + 1));
}

/// A prefix list headed by a valid prefix is valid exactly when its
/// tail is.
proof fn lemma_prefixes_ok_prepend(p: Seq<char>, ps: Seq<Seq<char>>)
    ensures
        prefixes_ok(seq![p] + ps) == (spec_validate(p) is None && prefixes_ok(ps)),
{
    let q = seq![p] + ps;
    assert(q[0] == p);
    assert forall|i: int| 0 <= i < ps.len() implies ps[i] == q[i + 1] by {}
    if spec_validate(p) is None && prefixes_ok(ps) {
        assert forall|i: int| 0 <= i < q.len() implies spec_validate(#[trigger] q[i]) is None by {
            if i > 0 {
                assert(q[i] == ps[i - 1]);
            }
        }
    }
    if prefixes_ok(q) {
        assert forall|i: int| 0 <= i < ps.len() implies spec_validate(#[trigger] ps[i]) is None
            by {
            assert(ps[i] == q[i + 1]);
        }
    }
}

/// The full key below one more, outermost prefix is the joined form
/// of the full key below the remaining prefixes.
proof fn lemma_full_key_prepend(p: Seq<char>, ps: Seq<Seq<char>>, key: Seq<char>)
    ensures
        full_key(seq![p] + ps, key) == join1(p, full_key(ps, key)),
{
    let q = seq![p] + ps;
    assert(q[0] == p);
    assert(q.skip(1) =~= ps);
    assert(flat_prefixes(q) == p + seq!['.'] + flat_prefixes(ps));
    assert(full_key(q, key) =~= join1(p, full_key(ps, key)));
}

/// One build step never drops a stored operation or an error.
proof fn lemma_step_monotone(st: BuildModel, r: RegModel)
    ensures
        forall|kind: ProcedureKind, k: Seq<char>|
            #[trigger] st.kind_map(kind).contains_key(k) ==> model_step(st, r).kind_map(
                kind,
            ).contains_key(k) && model_step(st, r).kind_map(kind)[k] == st.kind_map(kind)[k],
        st.errors.len() <= model_step(st, r).errors.len(),
        model_step(st, r).errors.take(st.errors.len() as int) == st.errors,
{
    assert(model_step(st, r).errors.take(st.errors.len() as int) =~= st.errors);
}

/// A merge point whose prefixes all pass validation changes nothing
/// when prepended to a registration list.
proof fn lemma_model_prepend_mp(x: RegModel, regs: Seq<RegModel>)
    requires
        x matches RegModel::MergePoint { outer, prefix } && prefixes_ok(outer) && spec_validate(
            prefix,
        ) is None,
    ensures
        model_of(seq![x] + regs) == model_of(regs),
    decreases regs.len(),
{
    if regs.len() == 0 {
        assert(seq![x] + regs =~= seq![x]);
        lemma_model_of_one(x);
        lemma_model_of_empty();
    } else {
        assert((seq![x] + regs).drop_last() =~= seq![x] + regs.drop_last());
        assert((seq![x] + regs).last() == regs.last());
        lemma_model_prepend_mp(x, regs.drop_last());
    }
}

/// The empty registration list builds the initial state.
proof fn lemma_model_of_empty()
    ensures
        model_of(Seq::<RegModel>::empty()) == BuildModel::init(),
{
}

/// A single registration applies one step to the initial state.
proof fn lemma_model_of_one(a: RegModel)
    ensures
        model_of(seq![a]) == model_step(BuildModel::init(), a),
{
    lemma_model_of_empty();
    assert(seq![a].drop_last() =~= Seq::<RegModel>::empty());
    assert(seq![a].last() == a);
}

/// Two registrations apply two steps to the initial state.
proof fn lemma_model_of_two(a: RegModel, b: RegModel)
    ensures
        model_of(seq![a, b]) == model_step(model_step(BuildModel::init(), a), b),
{
    lemma_model_of_one(a);
    assert(seq![a, b].drop_last() =~= seq![a]);
    assert(seq![a, b].last() == b);
}

/// The store maps of two build states correspond under joining with
/// a prefix.
pub open spec fn map_rel(
    m0: Map<Seq<char>, ProcedureTodo>,
    m1: Map<Seq<char>, ProcedureTodo>,
    p: Seq<char>,
) -> bool {
    &&& forall|k: Seq<char>|
        #[trigger] m0.contains_key(k) ==> m1.contains_key(join1(p, k)) && m1[join1(p, k)]
            == m0[k]
    &&& forall|k2: Seq<char>|
        #[trigger] m1.contains_key(k2) ==> exists|k: Seq<char>|
            k2 == join1(p, k) && m0.contains_key(k)
}

/// The whole build states correspond: same (absent) errors and
/// corresponding store maps for each kind.
pub open spec fn state_rel(m0: BuildModel, m1: BuildModel, p: Seq<char>) -> bool {
    &&& m1.errors.len() == 0
    &&& map_rel(m0.queries, m1.queries, p)
    &&& map_rel(m0.mutations, m1.mutations, p)
    &&& map_rel(m0.subscriptions, m1.subscriptions, p)
}

/// Re-staging an error-free registration list below a valid prefix
/// builds without errors, and stores exactly the same operations
/// under the joined keys — provided no joined key falls into the
/// reserved set.
proof fn lemma_prefixed_model_rel(regs: Seq<RegModel>, p: Seq<char>)
    requires
        spec_validate(p) is None,
        model_of(regs).errors.len() == 0,
        forall|kind: ProcedureKind, k: Seq<char>|
            #[trigger] model_of(regs).kind_map(kind).contains_key(k) ==> !key_reserved(
                join1(p, k),
            ),
    ensures
        state_rel(model_of(regs), model_of(prefixed_regs(regs, p)), p),
    decreases regs.len(),
{
    if regs.len() == 0 {
        assert(prefixed_regs(regs, p) =~= Seq::<RegModel>::empty());
        assert(model_of(regs) == BuildModel::init());
    } else {
        let regs0 = regs.drop_last();
        let r = regs.last();
        let st0 = model_of(regs0);
        let m0 = model_of(regs);
        assert(m0 == model_step(st0, r));
        lemma_step_monotone(st0, r);
        assert(st0.errors.len() == 0) by {
            assert(m0.errors.take(st0.errors.len() as int) == st0.errors);
        }
        assert forall|kind: ProcedureKind, k: Seq<char>|
            #[trigger] st0.kind_map(kind).contains_key(k) implies !key_reserved(join1(p, k)) by {
            assert(m0.kind_map(kind).contains_key(k));
        }
        lemma_prefixed_model_rel(regs0, p);
        let st1 = model_of(prefixed_regs(regs0, p));
        assert(prefixed_regs(regs, p).drop_last() =~= prefixed_regs(regs0, p));
        assert(prefixed_regs(regs, p).last() == prefixed_model(r, p));
        let m1 = model_of(prefixed_regs(regs, p));
        assert(m1 == model_step(st1, prefixed_model(r, p)));
        match r {
            RegModel::MergePoint { outer, prefix } => {
                lemma_prefixes_ok_prepend(p, outer);
                if prefixes_ok(outer) {
                    if spec_validate(prefix) is Some {
                        assert(m0.errors.len() > 0);
                        assert(false);
                    }
                }
                assert(m1 == st1);
                assert(m0 == st0);
            },
            RegModel::Proc { kind, prefixes, key, todo } => {
                lemma_prefixes_ok_prepend(p, prefixes);
                if !prefixes_ok(prefixes) {
                    assert(m0 == st0);
                    assert(m1 == st1);
                } else {
                    if spec_validate(key) is Some {
                        assert(m0.errors.len() > 0);
                        assert(false);
                    }
                    let full0 = full_key(prefixes, key);
                    lemma_full_key_prepend(p, prefixes, key);
                    let full1 = join1(p, full0);
                    if key_reserved(full0) {
                        assert(m0.errors.len() > 0);
                        assert(false);
                    }
                    if st0.kind_map(kind).contains_key(full0) {
                        assert(m0.errors.len() > 0);
                        assert(false);
                    }
                    // The step inserts on both sides.
                    assert(m0.kind_map(kind) == st0.kind_map(kind).insert(full0, todo));
                    assert(m0.kind_map(kind).contains_key(full0));
                    assert(!key_reserved(full1));
                    assert(!st1.kind_map(kind).contains_key(full1)) by {
                        if st1.kind_map(kind).contains_key(full1) {
                            let k0 = choose|k0: Seq<char>|
                                full1 == join1(p, k0) && st0.kind_map(kind).contains_key(k0);
                            lemma_join1_injective(p, k0, full0);
                        }
                    }
                    assert(m1.kind_map(kind) == st1.kind_map(kind).insert(full1, todo));
                    // The three maps stay in correspondence.
                    assert forall|kd: ProcedureKind, k: Seq<char>|
                        #[trigger] m0.kind_map(kd).contains_key(k) implies m1.kind_map(
                        kd,
                    ).contains_key(join1(p, k)) && m1.kind_map(kd)[join1(p, k)] == m0.kind_map(
                        kd,
                    )[k] by {
                        if kd == kind && k == full0 {
                        } else if kd == kind {
                            assert(st0.kind_map(kd).contains_key(k));
                            if join1(p, k) == full1 {
                                lemma_join1_injective(p, k, full0);
                            }
                        } else {
                            assert(st0.kind_map(kd).contains_key(k));
                        }
                    }
                    assert forall|kd: ProcedureKind, k2: Seq<char>|
                        #[trigger] m1.kind_map(kd).contains_key(k2) implies exists|k: Seq<char>|
                        k2 == join1(p, k) && m0.kind_map(kd).contains_key(k) by {
                        if kd == kind && k2 == full1 {
                            assert(full1 == join1(p, full0) && m0.kind_map(kd).contains_key(
                                full0,
                            ));
                        } else {
                            assert(st1.kind_map(kd).contains_key(k2));
                            let k = choose|k: Seq<char>|
                                k2 == join1(p, k) && st0.kind_map(kd).contains_key(k);
                            assert(k2 == join1(p, k) && m0.kind_map(kd).contains_key(k));
                        }
                    }
                }
            },
        }
        assert(map_rel(m0.queries, m1.queries, p)) by {
            assert(m0.kind_map(ProcedureKind::Query) == m0.queries);
            assert(m1.kind_map(ProcedureKind::Query) == m1.queries);
        }
        assert(map_rel(m0.mutations, m1.mutations, p)) by {
            assert(m0.kind_map(ProcedureKind::Mutation) == m0.mutations);
            assert(m1.kind_map(ProcedureKind::Mutation) == m1.mutations);
        }
        assert(map_rel(m0.subscriptions, m1.subscriptions, p)) by {
            assert(m0.kind_map(ProcedureKind::Subscription) == m0.subscriptions);
            assert(m1.kind_map(ProcedureKind::Subscription) == m1.subscriptions);
        }
    }
}

/// Merging keeps behaviour: a sub-router whose registrations build
/// without errors, merged under a valid prefix, builds without errors
/// again, and executing the joined path on the merged router answers
/// exactly as executing the original key on the sub-router with the
/// same context and input — provided no joined key falls into the
/// reserved set.
pub proof fn lemma_merge_execute(
    bsub: BuiltRouter,
    bmerged: BuiltRouter,
    regs: Seq<RegModel>,
    p: Seq<char>,
    kind: ProcedureKind,
    k: Seq<char>,
    ctx: Seq<Value>,
    input: Option<Value>,
)
    requires
        spec_validate(p) is None,
        model_of(regs).errors.len() == 0,
        forall|kd: ProcedureKind, k2: Seq<char>|
            #[trigger] model_of(regs).kind_map(kd).contains_key(k2) ==> !key_reserved(
                join1(p, k2),
            ),
        bsub.queries.as_map() == model_of(regs).queries,
        bsub.mutations.as_map() == model_of(regs).mutations,
        bsub.subscriptions.as_map() == model_of(regs).subscriptions,
        ({
            let merged = model_of(
                seq![RegModel::MergePoint { outer: Seq::empty(), prefix: p }] + prefixed_regs(
                    regs,
                    p,
                ),
            );
            &&& bmerged.queries.as_map() == merged.queries
            &&& bmerged.mutations.as_map() == merged.mutations
            &&& bmerged.subscriptions.as_map() == merged.subscriptions
        }),
    ensures
        model_of(
            seq![RegModel::MergePoint { outer: Seq::empty(), prefix: p }] + prefixed_regs(
                regs,
                p,
            ),
        ).errors.len() == 0,
        spec_execute(bmerged, ctx, kind, join1(p, k), input) == spec_execute(
            bsub,
            ctx,
            kind,
            k,
            input,
        ),
        spec_subscribe(bmerged, ctx, join1(p, k), input) == spec_subscribe(bsub, ctx, k, input),
{
    let mp = RegModel::MergePoint { outer: Seq::empty(), prefix: p };
    assert(prefixes_ok(Seq::<Seq<char>>::empty()));
    lemma_model_prepend_mp(mp, prefixed_regs(regs, p));
    lemma_prefixed_model_rel(regs, p);
    let m0 = model_of(regs);
    let m1 = model_of(prefixed_regs(regs, p));
    assert(state_rel(m0, m1, p));
    let sub_map = match kind {
        ProcedureKind::Query => m0.queries,
        ProcedureKind::Mutation => m0.mutations,
        ProcedureKind::Subscription => m0.subscriptions,
    };
    let merged_map = match kind {
        ProcedureKind::Query => m1.queries,
        ProcedureKind::Mutation => m1.mutations,
        ProcedureKind::Subscription => m1.subscriptions,
    };
    assert(map_rel(sub_map, merged_map, p));
    if sub_map.contains_key(k) {
        assert(merged_map.contains_key(join1(p, k)));
        assert(merged_map[join1(p, k)] == sub_map[k]);
    } else {
        assert(!merged_map.contains_key(join1(p, k))) by {
            if merged_map.contains_key(join1(p, k)) {
                let k0 = choose|k0: Seq<char>|
                    join1(p, k) == join1(p, k0) && sub_map.contains_key(k0);
                lemma_join1_injective(p, k0, k);
            }
        }
    }
    let sm0 = m0.subscriptions;
    let sm1 = m1.subscriptions;
    if sm0.contains_key(k) {
        assert(sm1.contains_key(join1(p, k)));
        assert(sm1[join1(p, k)] == sm0[k]);
    } else {
        assert(!sm1.contains_key(join1(p, k))) by {
            if sm1.contains_key(join1(p, k)) {
                let k0 = choose|k0: Seq<char>|
                    join1(p, k) == join1(p, k0) && sm0.contains_key(k0);
                lemma_join1_injective(p, k0, k);
            }
        }
    }
}

/// A valid, unreserved key registered once reaches its operation: the
/// one-procedure router builds without errors, its store holds the
/// key, and executing the key runs that operation's layer.
pub proof fn lemma_valid_key_reachable(
    b: BuiltRouter,
    kind: ProcedureKind,
    key: Seq<char>,
    todo: ProcedureTodo,
    ctx: Seq<Value>,
    input: Option<Value>,
)
    requires
        spec_validate(key) is None,
        !key_reserved(key),
        kind != ProcedureKind::Subscription,
        b.queries.as_map() == model_of(seq![proc_reg(kind, key, todo)]).queries,
        b.mutations.as_map() == model_of(seq![proc_reg(kind, key, todo)]).mutations,
        b.subscriptions.as_map() == model_of(seq![proc_reg(kind, key, todo)]).subscriptions,
    ensures
        model_of(seq![proc_reg(kind, key, todo)]).errors.len() == 0,
        b.kind_map(kind).contains_key(key),
        spec_execute(b, ctx, kind, key, input) == (match spec_run(
            todo.layer.steps@,
            ctx,
            input,
            todo.layer.resolver,
        ).out {
            OutModel::Single(v) => InnerModel::Value(v),
            OutModel::Failure(c, msg, cause) => InnerModel::Error(c, msg, cause),
            OutModel::Sequence(_) => InnerModel::Error(
                crate::executor::ErrorCode::InternalServerError,
                ("a stream cannot answer a value request")@,
                None,
            ),
        }),
{
    let rs = seq![proc_reg(kind, key, todo)];
    lemma_model_of_one(proc_reg(kind, key, todo));
    assert(prefixes_ok(Seq::<Seq<char>>::empty()));
    assert(flat_prefixes(Seq::<Seq<char>>::empty()) == Seq::<char>::empty());
    assert(full_key(Seq::<Seq<char>>::empty(), key) =~= key);
    let m = model_of(rs);
    assert(m.kind_map(kind) == BuildModel::init().kind_map(kind).insert(key, todo));
    assert(m.kind_map(kind).contains_key(key));
    assert(m.kind_map(kind)[key] == todo);
}

/// A valid, unreserved key registered once as a subscription reaches
/// its operation through the subscribing entry point: the
/// one-procedure router builds without errors, the subscription store
/// holds the key, and subscribing to the key runs that operation's
/// layer.
pub proof fn lemma_valid_subscription_reachable(
    b: BuiltRouter,
    key: Seq<char>,
    todo: ProcedureTodo,
    ctx: Seq<Value>,
    input: Option<Value>,
)
    requires
        spec_validate(key) is None,
        !key_reserved(key),
        b.queries.as_map() == model_of(
            seq![proc_reg(ProcedureKind::Subscription, key, todo)],
        ).queries,
        b.mutations.as_map() == model_of(
            seq![proc_reg(ProcedureKind::Subscription, key, todo)],
        ).mutations,
        b.subscriptions.as_map() == model_of(
            seq![proc_reg(ProcedureKind::Subscription, key, todo)],
        ).subscriptions,
    ensures
        model_of(seq![proc_reg(ProcedureKind::Subscription, key, todo)]).errors.len() == 0,
        b.subscriptions.as_map().contains_key(key),
        spec_subscribe(b, ctx, key, input) == (match spec_run(
            todo.layer.steps@,
            ctx,
            input,
            todo.layer.resolver,
        ).out {
            OutModel::Sequence(vs) => Result::<Seq<Value>, InnerModel>::Ok(vs),
            OutModel::Failure(c, msg, cause) => Result::<Seq<Value>, InnerModel>::Err(
                InnerModel::Error(c, msg, cause),
            ),
            OutModel::Single(_) => Result::<Seq<Value>, InnerModel>::Err(
                InnerModel::Error(
                    crate::executor::ErrorCode::InternalServerError,
                    ("a value resolver cannot serve a subscription")@,
                    None,
                ),
            ),
        }),
{
    let reg = proc_reg(ProcedureKind::Subscription, key, todo);
    lemma_model_of_one(reg);
    assert(prefixes_ok(Seq::<Seq<char>>::empty()));
    assert(flat_prefixes(Seq::<Seq<char>>::empty()) == Seq::<char>::empty());
    assert(full_key(Seq::<Seq<char>>::empty(), key) =~= key);
    let m = model_of(seq![reg]);
    assert(m.subscriptions == BuildModel::init().subscriptions.insert(key, todo));
    assert(m.subscriptions.contains_key(key));
    assert(m.subscriptions[key] == todo);
}

/// The same key in the same kind of store twice is a reported
/// duplicate, charged to that key.
pub proof fn lemma_duplicate_key_reported(
    kind: ProcedureKind,
    key: Seq<char>,
    t1: ProcedureTodo,
    t2: ProcedureTodo,
)
    requires
        spec_validate(key) is None,
        !key_reserved(key),
    ensures
        model_of(seq![proc_reg(kind, key, t1), proc_reg(kind, key, t2)]).errors == seq![
            ErrModel { key, kind: CauseKind::Duplicate },
        ],
{
    lemma_model_of_two(proc_reg(kind, key, t1), proc_reg(kind, key, t2));
    assert(prefixes_ok(Seq::<Seq<char>>::empty()));
    assert(full_key(Seq::<Seq<char>>::empty(), key) =~= key);
    let st1 = model_step(BuildModel::init(), proc_reg(kind, key, t1));
    assert(st1.kind_map(kind) == BuildModel::init().kind_map(kind).insert(key, t1));
    assert(st1.kind_map(kind).contains_key(key));
    assert(st1.errors == Seq::<ErrModel>::empty());
    let m = model_of(seq![proc_reg(kind, key, t1), proc_reg(kind, key, t2)]);
    assert(m == st1.push_err(key, CauseKind::Duplicate));
    assert(m.errors =~= seq![ErrModel { key, kind: CauseKind::Duplicate }]);
}

/// The same key once as a query and once as a mutation is not an
/// error: the two stores are independent namespaces and both hold the
/// key afterwards.
pub proof fn lemma_same_key_two_kinds(key: Seq<char>, t1: ProcedureTodo, t2: ProcedureTodo)
    requires
        spec_validate(key) is None,
        !key_reserved(key),
    ensures
        ({
            let m = model_of(
                seq![
                    proc_reg(ProcedureKind::Query, key, t1),
                    proc_reg(ProcedureKind::Mutation, key, t2),
                ],
            );
            &&& m.errors.len() == 0
            &&& m.queries.contains_key(key) && m.queries[key] == t1
            &&& m.mutations.contains_key(key) && m.mutations[key] == t2
        }),
{
    let a = proc_reg(ProcedureKind::Query, key, t1);
    let b = proc_reg(ProcedureKind::Mutation, key, t2);
    lemma_model_of_two(a, b);
    assert(prefixes_ok(Seq::<Seq<char>>::empty()));
    assert(full_key(Seq::<Seq<char>>::empty(), key) =~= key);
    let st1 = model_step(BuildModel::init(), a);
    assert(st1.queries == BuildModel::init().queries.insert(key, t1));
    assert(st1.mutations == BuildModel::init().mutations);
    assert(!st1.mutations.contains_key(key));
    let m = model_of(seq![a, b]);
    assert(m.mutations == st1.mutations.insert(key, t2));
    assert(m.queries == st1.queries);
}

} // verus!
