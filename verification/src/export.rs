use vstd::prelude::*;

use crate::procedure::FieldType;
use crate::router::{type_index_of, types_contain, BuiltRouter, TypeEntry};
use crate::store::StoreEntry;
use crate::strutil::str_eq;

verus! {

/// Configures how the schema of a built router is exported.
pub struct ExportConfig {
    pub export_path: String,
    pub header: String,
}

impl ExportConfig {
    /// Starts a configuration that writes to the given path, with no
    /// extra header.
    pub fn new(export_path: String) -> (r: ExportConfig)
        ensures
            r.export_path@ == export_path@,
            r.header@ == Seq::<char>::empty(),
    {
        ExportConfig { export_path, header: String::new() }
    }

    /// Replaces the header emitted at the top of the export.
    pub fn set_header(self, header: String) -> (r: ExportConfig)
        ensures
            r.export_path@ == self.export_path@,
            r.header@ == header@,
    {
        ExportConfig { export_path: self.export_path, header }
    }
}

/// Why an export failed. Every case is terminal for the one export
/// call alone.
#[derive(Debug)]
pub enum ExportError {
    /// Two distinct type identities render to the same external name:
    /// the name, the location of the later definition and the
    /// location of the earlier one.
    DuplicateTypeName(String, String, String),
    /// An operation references a type identity that the registry does
    /// not hold.
    UnknownTypeReference(u64),
    /// A numeric width that the target representation would decode
    /// lossily; holds the width's name.
    BigIntForbidden(String),
}

/// The abstract form of an export failure.
pub ghost enum ExportErrModel {
    DuplicateTypeName(Seq<char>, Seq<char>, Seq<char>),
    UnknownTypeReference(u64),
    BigIntForbidden(Seq<char>),
}

/// The abstract form of one export failure.
pub open spec fn export_err_model(e: ExportError) -> ExportErrModel {
    match e {
        ExportError::DuplicateTypeName(n, l1, l2) => ExportErrModel::DuplicateTypeName(
            n@,
            l1@,
            l2@,
        ),
        ExportError::UnknownTypeReference(sid) => ExportErrModel::UnknownTypeReference(sid),
        ExportError::BigIntForbidden(w) => ExportErrModel::BigIntForbidden(w@),
    }
}

/// Renders one declared shape. An empty shape is the never marker in
/// input position and the null text in result position; a reference
/// renders as the referenced definition's name.
pub open spec fn spec_render_field(
    ft: FieldType,
    ts: Seq<TypeEntry>,
    input_position: bool,
) -> Result<Seq<char>, ExportErrModel> {
    match ft {
        FieldType::Unit => if input_position {
            Result::Ok(("never")@)
        } else {
            Result::Ok(("null")@)
        },
        FieldType::Inline(s) => Result::Ok(s@),
        FieldType::Reference(sid) => if types_contain(ts, sid) {
            Result::Ok(ts[type_index_of(ts, sid)].name@)
        } else {
            Result::Err(ExportErrModel::UnknownTypeReference(sid))
        },
        FieldType::BigInt(w) => Result::Err(ExportErrModel::BigIntForbidden(w@)),
    }
}

/// Renders one store entry as a discriminated-union member.
pub open spec fn spec_render_entry(e: StoreEntry, ts: Seq<TypeEntry>) -> Result<
    Seq<char>,
    ExportErrModel,
> {
    match spec_render_field(e.todo.ty.input, ts, true) {
        Result::Err(err) => Result::Err(err),
        Result::Ok(ins) => match spec_render_field(e.todo.ty.result, ts, false) {
            Result::Err(err) => Result::Err(err),
            Result::Ok(rs) => Result::Ok(
                ("\n        { key: \"")@ + e.key@ + ("\", input: ")@ + ins + (", result: ")@ + rs
                    + (" }")@,
            ),
        },
    }
}

/// Renders the entries of a store, separated by the union separator.
pub open spec fn spec_render_entries(es: Seq<StoreEntry>, ts: Seq<TypeEntry>) -> Result<
    Seq<char>,
    ExportErrModel,
>
    decreases es.len(),
{
    if es.len() == 0 {
        Result::Ok(Seq::empty())
    } else if es.len() == 1 {
        spec_render_entry(es[0], ts)
    } else {
        match spec_render_entries(es.drop_last(), ts) {
            Result::Err(err) => Result::Err(err),
            Result::Ok(pre) => match spec_render_entry(es.last(), ts) {
                Result::Err(err) => Result::Err(err),
                Result::Ok(t) => Result::Ok(pre + (" | ")@ + t),
            },
        }
    }
}

/// Renders one whole store: an empty store is the explicit never
/// marker.
pub open spec fn spec_render_store(es: Seq<StoreEntry>, ts: Seq<TypeEntry>) -> Result<
    Seq<char>,
    ExportErrModel,
> {
    if es.len() == 0 {
        Result::Ok(("never")@)
    } else {
        spec_render_entries(es, ts)
    }
}

/// Renders every type definition exactly once, in stable-identity
/// order.
pub open spec fn spec_render_types(ts: Seq<TypeEntry>) -> Seq<char>
    decreases ts.len(),
{
    if ts.len() == 0 {
        Seq::empty()
    } else {
        spec_render_types(ts.drop_last()) + ("\n")@ + ts.last().body@ + ("\n")@
    }
}

/// Whether an earlier registry entry renders to the same name as the
/// one at `q`.
pub open spec fn has_dup_before(ts: Seq<TypeEntry>, q: int) -> bool {
    exists|p: int| 0 <= p < q && ts[p].name@ == ts[q].name@
}

/// Whether two distinct registry entries render to the same name.
pub open spec fn dup_exists(ts: Seq<TypeEntry>) -> bool {
    exists|q: int| 0 <= q < ts.len() && has_dup_before(ts, q)
}

/// The first registry position whose name was already taken.
pub open spec fn dup_q(ts: Seq<TypeEntry>) -> int {
    choose|q: int|
        0 <= q < ts.len() && has_dup_before(ts, q) && (forall|q2: int|
            0 <= q2 < q ==> !has_dup_before(ts, q2))
}

/// The earlier position holding the same name.
pub open spec fn dup_p(ts: Seq<TypeEntry>) -> int {
    choose|p: int| 0 <= p < dup_q(ts) && (#[trigger] ts[p].name@) == ts[dup_q(ts)].name@
}

/// A witness pair pins down the duplicate positions: the first
/// position with a taken name is unique, and so is its earlier
/// holder.
proof fn lemma_dup_witness(ts: Seq<TypeEntry>, q: int, p: int)
    requires
        0 <= p < q < ts.len(),
        ts[p].name@ == ts[q].name@,
        forall|q2: int| 0 <= q2 < q ==> !has_dup_before(ts, q2),
    ensures
        dup_exists(ts),
        dup_q(ts) == q,
        dup_p(ts) == p,
{
    assert(has_dup_before(ts, q));
    assert(dup_exists(ts));
    let qc = dup_q(ts);
    assert(0 <= qc < ts.len() && has_dup_before(ts, qc) && (forall|q2: int|
        0 <= q2 < qc ==> !has_dup_before(ts, q2)));
    if qc < q {
        assert(!has_dup_before(ts, qc));
    } else if q < qc {
        assert(!has_dup_before(ts, q));
    }
    let pc = dup_p(ts);
    assert(0 <= pc < q && ts[pc].name@ == ts[q].name@);
    if pc != p {
        // Two distinct earlier holders of the same name would make an
        // earlier position already duplicated.
        let lo = if pc < p {
            pc
        } else {
            p
        };
        let hi = if pc < p {
            p
        } else {
            pc
        };
        assert(ts[lo].name@ == ts[hi].name@);
        assert(has_dup_before(ts, hi));
        assert(!has_dup_before(ts, hi));
    }
}

/// The fixed banner under the optional header.
pub open spec fn spec_banner() -> Seq<char> {
    ("// Do not edit this file manually.\n")@
}

/// The rendered document of a built router: the optional header, the
/// banner, the three procedure listings, and every type definition
/// exactly once, in stable-identity order — or the first failure.
pub open spec fn spec_export(b: BuiltRouter, header: Seq<char>) -> Result<
    Seq<char>,
    ExportErrModel,
> {
    let ts = b.typ_store@;
    match spec_render_store(b.queries.entries@, ts) {
        Result::Err(err) => Result::Err(err),
        Result::Ok(q) => match spec_render_store(b.mutations.entries@, ts) {
            Result::Err(err) => Result::Err(err),
            Result::Ok(m) => match spec_render_store(b.subscriptions.entries@, ts) {
                Result::Err(err) => Result::Err(err),
                Result::Ok(s) => if dup_exists(ts) {
                    Result::Err(
                        ExportErrModel::DuplicateTypeName(
                            ts[dup_q(ts)].name@,
                            ts[dup_q(ts)].location@,
                            ts[dup_p(ts)].location@,
                        ),
                    )
                } else {
                    Result::Ok(
                        (if header.len() > 0 {
                            header + ("\n")@
                        } else {
                            Seq::empty()
                        }) + spec_banner() + ("\nexport type Procedures = {\n    queries: ")@ + q
                            + (",\n    mutations: ")@ + m + (",\n    subscriptions: ")@ + s + (
                        "\n};\n")@ + spec_render_types(ts),
                    )
                },
            },
        },
    }
}

/// Renders one declared shape.
fn render_field(ft: &FieldType, ts: &Vec<TypeEntry>, input_position: bool) -> (r: Result<
    String,
    ExportError,
>)
    requires
        crate::router::types_wf(ts@),
    ensures
        (match r {
            Result::Ok(s) => spec_render_field(*ft, ts@, input_position) == Result::<
                Seq<char>,
                ExportErrModel,
            >::Ok(s@),
            Result::Err(e) => spec_render_field(*ft, ts@, input_position) == Result::<
                Seq<char>,
                ExportErrModel,
            >::Err(export_err_model(e)),
        }),
{
    match ft {
        FieldType::Unit => if input_position {
            Result::Ok(String::from_str("never"))
        } else {
            Result::Ok(String::from_str("null"))
        },
        FieldType::Inline(s) => Result::Ok(s.clone()),
        FieldType::Reference(sid) => {
            let mut i: usize = 0;
            while i < ts.len()
                invariant
                    crate::router::types_wf(ts@),
                    *ft == (FieldType::Reference(*sid)),
                    i <= ts@.len(),
                    forall|j: int| 0 <= j < i ==> (#[trigger] ts@[j].sid) != sid,
                decreases ts@.len() - i,
            {
                if ts[i].sid == *sid {
                    proof {
                        assert(ts@[i as int].sid == sid);
                        assert(types_contain(ts@, *sid));
                        let ix = type_index_of(ts@, *sid);
                        assert(0 <= ix < ts@.len() && ts@[ix].sid == sid);
                        if ix < i {
                            assert(ts@[ix].sid < ts@[i as int].sid);
                        } else if ix > i {
                            assert(ts@[i as int].sid < ts@[ix].sid);
                        }
                        assert(ix == i as int);
                    }
                    return Result::Ok(ts[i].name.clone());
                }
                i += 1;
            }
            Result::Err(ExportError::UnknownTypeReference(*sid))
        },
        FieldType::BigInt(w) => Result::Err(ExportError::BigIntForbidden(w.clone())),
    }
}

/// Renders one store entry.
fn render_entry(e: &StoreEntry, ts: &Vec<TypeEntry>) -> (r: Result<String, ExportError>)
    requires
        crate::router::types_wf(ts@),
    ensures
        (match r {
            Result::Ok(s) => spec_render_entry(*e, ts@) == Result::<
                Seq<char>,
                ExportErrModel,
            >::Ok(s@),
            Result::Err(err) => spec_render_entry(*e, ts@) == Result::<
                Seq<char>,
                ExportErrModel,
            >::Err(export_err_model(err)),
        }),
{
    let ins = match render_field(&e.todo.ty.input, ts, true) {
        Result::Ok(s) => s,
        Result::Err(err) => {
            return Result::Err(err);
        },
    };
    let rs = match render_field(&e.todo.ty.result, ts, false) {
        Result::Ok(s) => s,
        Result::Err(err) => {
            return Result::Err(err);
        },
    };
    let mut out = String::from_str("\n        { key: \"");
    out.append(e.key.as_str());
    out.append("\", input: ");
    out.append(ins.as_str());
    out.append(", result: ");
    out.append(rs.as_str());
    out.append(" }");
    Result::Ok(out)
}

/// Renders one whole store.
fn render_store(es: &Vec<StoreEntry>, ts: &Vec<TypeEntry>) -> (r: Result<String, ExportError>)
    requires
        crate::router::types_wf(ts@),
    ensures
        (match r {
            Result::Ok(s) => spec_render_store(es@, ts@) == Result::<
                Seq<char>,
                ExportErrModel,
            >::Ok(s@),
            Result::Err(err) => spec_render_store(es@, ts@) == Result::<
                Seq<char>,
                ExportErrModel,
            >::Err(export_err_model(err)),
        }),
{
    if es.len() == 0 {
        return Result::Ok(String::from_str("never"));
    }
    let mut out: String;
    match render_entry(&es[0], ts) {
        Result::Ok(s) => {
            out = s;
        },
        Result::Err(err) => {
            proof {
                assert(es@.take(1).len() == 1);
                assert(es@.take(1)[0] == es@[0]);
                assert(spec_render_entries(es@.take(1), ts@) == Result::<
                    Seq<char>,
                    ExportErrModel,
                >::Err(export_err_model(err)));
                lemma_render_entries_later_error(es@, ts@, 1, export_err_model(err));
            }
            return Result::Err(err);
        },
    }
    proof {
        assert(es@.take(1).len() == 1);
        assert(es@.take(1)[0] == es@[0]);
        assert(spec_render_entries(es@.take(1), ts@) == spec_render_entry(es@[0], ts@));
    }
    let mut i: usize = 1;
    while i < es.len()
        invariant
            crate::router::types_wf(ts@),
            1 <= i <= es@.len(),
            spec_render_entries(es@.take(i as int), ts@) == Result::<
                Seq<char>,
                ExportErrModel,
            >::Ok(out@),
        decreases es@.len() - i,
    {
        proof {
            assert(es@.take(i + 1 as int).drop_last() =~= es@.take(i as int));
            assert(es@.take(i + 1 as int).last() == es@[i as int]);
            assert(es@.take(i + 1 as int).len() == i + 1);
        }
        match render_entry(&es[i], ts) {
            Result::Ok(t) => {
                out.append(" | ");
                out.append(t.as_str());
            },
            Result::Err(err) => {
                proof {
                    lemma_render_entries_error(es@, ts@, i as int, export_err_model(err));
                }
                return Result::Err(err);
            },
        }
        i += 1;
    }
    proof {
        assert(es@.take(es@.len() as int) =~= es@);
    }
    Result::Ok(out)
}

/// Once one entry fails to render, the whole listing fails with that
/// first failure.
proof fn lemma_render_entries_error(
    es: Seq<StoreEntry>,
    ts: Seq<TypeEntry>,
    i: int,
    err: ExportErrModel,
)
    requires
        0 < i < es.len(),
        spec_render_entries(es.take(i), ts) is Ok,
        spec_render_entry(es[i], ts) == Result::<Seq<char>, ExportErrModel>::Err(err),
    ensures
        spec_render_entries(es, ts) == Result::<Seq<char>, ExportErrModel>::Err(err),
    decreases es.len() - i,
{
    if i + 1 == es.len() {
        assert(es.take(i) =~= es.drop_last());
        assert(es.last() == es[i]);
    } else {
        assert(es.take(i + 1).drop_last() =~= es.take(i));
        assert(es.take(i + 1).last() == es[i]);
        assert(es.take(i + 1).len() == i + 1);
        assert(spec_render_entries(es.take(i + 1), ts) == Result::<
            Seq<char>,
            ExportErrModel,
        >::Err(err));
        lemma_render_entries_later_error(es, ts, i + 1, err);
    }
}

/// A failed prefix keeps the whole listing failed.
proof fn lemma_render_entries_later_error(
    es: Seq<StoreEntry>,
    ts: Seq<TypeEntry>,
    i: int,
    err: ExportErrModel,
)
    requires
        0 < i <= es.len(),
        spec_render_entries(es.take(i), ts) == Result::<Seq<char>, ExportErrModel>::Err(err),
    ensures
        spec_render_entries(es, ts) == Result::<Seq<char>, ExportErrModel>::Err(err),
    decreases es.len() - i,
{
    if i == es.len() {
        assert(es.take(i) =~= es);
    } else {
        assert(es.take(i + 1).drop_last() =~= es.take(i));
        assert(es.take(i + 1).len() == i + 1);
        lemma_render_entries_later_error(es, ts, i + 1, err);
    }
}

/// Scans the registry for two distinct identities sharing an
/// external name, reporting the first such clash.
fn find_duplicate_name(ts: &Vec<TypeEntry>) -> (r: Option<ExportError>)
    ensures
        (match r {
            Some(e) => dup_exists(ts@) && export_err_model(e)
                == ExportErrModel::DuplicateTypeName(
                ts@[dup_q(ts@)].name@,
                ts@[dup_q(ts@)].location@,
                ts@[dup_p(ts@)].location@,
            ),
            None => !dup_exists(ts@),
        }),
{
    let mut qi: usize = 0;
    while qi < ts.len()
        invariant
            qi <= ts@.len(),
            forall|q2: int| 0 <= q2 < qi ==> !has_dup_before(ts@, q2),
        decreases ts@.len() - qi,
    {
        let mut pi: usize = 0;
        while pi < qi
            invariant
                pi <= qi < ts@.len(),
                forall|q2: int| 0 <= q2 < qi ==> !has_dup_before(ts@, q2),
                forall|p2: int| 0 <= p2 < pi ==> ts@[p2].name@ != ts@[qi as int].name@,
            decreases qi - pi,
        {
            if str_eq(ts[pi].name.as_str(), ts[qi].name.as_str()) {
                proof {
                    lemma_dup_witness(ts@, qi as int, pi as int);
                }
                return Some(
                    ExportError::DuplicateTypeName(
                        ts[qi].name.clone(),
                        ts[qi].location.clone(),
                        ts[pi].location.clone(),
                    ),
                );
            }
            pi += 1;
        }
        proof {
            assert(!has_dup_before(ts@, qi as int));
        }
        qi += 1;
    }
    proof {
        assert(!dup_exists(ts@));
    }
    None
}

impl BuiltRouter {
    /// Renders the deterministic textual description of this router:
    /// a header, the three procedure listings as discriminated
    /// unions, and every referenced type definition exactly once, in
    /// stable-identity order. Fails when two distinct type identities
    /// share an external name, when a reference cannot be resolved,
    /// or when a shape cannot be represented losslessly.
    pub fn export_string(&self, cfg: &ExportConfig) -> (r: Result<String, ExportError>)
        requires
            self.wf(),
        ensures
            (match r {
                Result::Ok(s) => spec_export(*self, cfg.header@) == Result::<
                    Seq<char>,
                    ExportErrModel,
                >::Ok(s@),
                Result::Err(e) => spec_export(*self, cfg.header@) == Result::<
                    Seq<char>,
                    ExportErrModel,
                >::Err(export_err_model(e)),
            }),
    {
        let ts = &self.typ_store;
        let q = match render_store(&self.queries.entries, ts) {
            Result::Ok(s) => s,
            Result::Err(e) => {
                return Result::Err(e);
            },
        };
        let m = match render_store(&self.mutations.entries, ts) {
            Result::Ok(s) => s,
            Result::Err(e) => {
                return Result::Err(e);
            },
        };
        let s = match render_store(&self.subscriptions.entries, ts) {
            Result::Ok(s) => s,
            Result::Err(e) => {
                return Result::Err(e);
            },
        };
        // Distinct identities must not share an external name.
        match find_duplicate_name(ts) {
            Some(e) => {
                return Result::Err(e);
            },
            None => {},
        }
        let mut out = String::new();
        if cfg.header.as_str().unicode_len() > 0 {
            out.append(cfg.header.as_str());
            out.append("\n");
        } else {
            proof {
                assert(cfg.header@.len() == 0);
                assert(out@ =~= Seq::<char>::empty());
            }
        }
        out.append("// Do not edit this file manually.\n");
        out.append("\nexport type Procedures = {\n    queries: ");
        out.append(q.as_str());
        out.append(",\n    mutations: ");
        out.append(m.as_str());
        out.append(",\n    subscriptions: ");
        out.append(s.as_str());
        out.append("\n};\n");
        let mut i: usize = 0;
        while i < ts.len()
            invariant
                i <= ts@.len(),
                ts@ == self.typ_store@,
                spec_render_store(self.queries.entries@, ts@) == Result::<
                    Seq<char>,
                    ExportErrModel,
                >::Ok(q@),
                spec_render_store(self.mutations.entries@, ts@) == Result::<
                    Seq<char>,
                    ExportErrModel,
                >::Ok(m@),
                spec_render_store(self.subscriptions.entries@, ts@) == Result::<
                    Seq<char>,
                    ExportErrModel,
                >::Ok(s@),
                !dup_exists(ts@),
                out@ == spec_export_head(*self, cfg.header@) + spec_render_types(ts@.take(i as int)),
            decreases ts@.len() - i,
        {
            proof {
                assert(ts@.take(i + 1 as int).drop_last() =~= ts@.take(i as int));
                assert(ts@.take(i + 1 as int).last() == ts@[i as int]);
            }
            out.append("\n");
            out.append(ts[i].body.as_str());
            out.append("\n");
            i += 1;
        }
        proof {
            assert(ts@.take(ts@.len() as int) =~= ts@);
        }
        Result::Ok(out)
    }
}

/// Everything of the rendered document that stands before the type
/// definitions.
pub open spec fn spec_export_head(b: BuiltRouter, header: Seq<char>) -> Seq<char>
    recommends
        spec_render_store(b.queries.entries@, b.typ_store@) is Ok,
{
    (if header.len() > 0 {
        header + ("\n")@
    } else {
        Seq::empty()
    }) + spec_banner() + ("\nexport type Procedures = {\n    queries: ")@ + spec_render_store(
        b.queries.entries@,
        b.typ_store@,
    )->Ok_0 + (",\n    mutations: ")@ + spec_render_store(b.mutations.entries@, b.typ_store@)->Ok_0
        + (",\n    subscriptions: ")@ + spec_render_store(
        b.subscriptions.entries@,
        b.typ_store@,
    )->Ok_0 + ("\n};\n")@
}

/// Export determinism: the rendered document is a function of the
/// built router and the header alone, so exporting the same router
/// with the same configuration twice yields byte-identical output.
pub proof fn lemma_export_deterministic(
    a: BuiltRouter,
    b: BuiltRouter,
    h1: Seq<char>,
    h2: Seq<char>,
)
    requires
        a == b,
        h1 == h2,
    ensures
        spec_export(a, h1) == spec_export(b, h2),
{
}

} // verus!
