use vstd::prelude::*;

use vstd::pervasive::unreached;

use crate::name::{is_valid_name, spec_validate, BuildErrorCause, CauseKind};
use crate::procedure::{Procedure, ProcedureKind, ProcedureTodo};
use crate::store::{key_reserved, ProcedureStore};
use crate::strutil::push_char;

verus! {

/// One named type definition of the schema registry, identified by a
/// stable identity and carrying its rendered definition text.
pub struct TypeEntry {
    pub sid: u64,
    pub name: String,
    pub location: String,
    pub body: String,
}

impl TypeEntry {
    /// Copies the entry.
    pub fn duplicate(&self) -> (r: TypeEntry)
        ensures
            r == self,
    {
        TypeEntry {
            sid: self.sid,
            name: self.name.clone(),
            location: self.location.clone(),
            body: self.body.clone(),
        }
    }
}

/// The registry entries are strictly sorted by stable identity, so
/// identities are unique.
pub open spec fn types_wf(ts: Seq<TypeEntry>) -> bool {
    forall|i: int, j: int| 0 <= i < j < ts.len() ==> (#[trigger] ts[i].sid) < (#[trigger] ts[j].sid)
}

/// Whether the registry holds a definition under the given identity.
pub open spec fn types_contain(ts: Seq<TypeEntry>, sid: u64) -> bool {
    exists|i: int| 0 <= i < ts.len() && ts[i].sid == sid
}

/// The index of the definition with the given identity.
pub open spec fn type_index_of(ts: Seq<TypeEntry>, sid: u64) -> int {
    choose|i: int| 0 <= i < ts.len() && ts[i].sid == sid
}

/// The registry as a mapping from stable identity to definition.
pub open spec fn types_map(ts: Seq<TypeEntry>) -> Map<u64, TypeEntry> {
    Map::new(|sid: u64| types_contain(ts, sid), |sid: u64| ts[type_index_of(ts, sid)])
}

/// In a sorted registry the entry at `i` is the only one with its
/// identity.
pub proof fn lemma_type_at(ts: Seq<TypeEntry>, i: int)
    requires
        types_wf(ts),
        0 <= i < ts.len(),
    ensures
        types_contain(ts, ts[i].sid),
        type_index_of(ts, ts[i].sid) == i,
        types_map(ts)[ts[i].sid] == ts[i],
{
    let sid = ts[i].sid;
    assert(types_contain(ts, sid));
    let j = type_index_of(ts, sid);
    if j < i {
        assert(ts[j].sid < ts[i].sid);
    } else if j > i {
        assert(ts[i].sid < ts[j].sid);
    }
}

/// Inserts a definition into a sorted registry, keeping the first
/// definition seen for an identity.
fn types_insert(ts: &mut Vec<TypeEntry>, entry: TypeEntry)
    requires
        types_wf(old(ts)@),
    ensures
        types_wf(final(ts)@),
        types_contain(old(ts)@, entry.sid) ==> final(ts)@ == old(ts)@,
        !types_contain(old(ts)@, entry.sid) ==> types_map(final(ts)@) == types_map(old(ts)@).insert(
            entry.sid,
            entry,
        ),
{
    let ghost prev = ts@;
    let mut i: usize = 0;
    while i < ts.len()
        invariant
            ts@ == prev,
            prev == old(ts)@,
            types_wf(prev),
            i <= ts@.len(),
            forall|j: int| 0 <= j < i ==> (#[trigger] ts@[j].sid) < entry.sid,
        decreases ts@.len() - i,
    {
        if ts[i].sid == entry.sid {
            proof {
                assert(ts@[i as int].sid == entry.sid);
                assert(types_contain(prev, entry.sid));
            }
            return ;
        }
        if entry.sid < ts[i].sid {
            ts.insert(i, entry);
            proof {
                lemma_types_insert_at(prev, ts@, i as int);
            }
            return ;
        }
        i += 1;
    }
    ts.insert(i, entry);
    proof {
        lemma_types_insert_at(prev, ts@, i as int);
    }
}

/// Inserting an entry at its sorted position keeps the registry
/// sorted and extends its contents by exactly that identity.
proof fn lemma_types_insert_at(prev: Seq<TypeEntry>, cur: Seq<TypeEntry>, i: int)
    requires
        types_wf(prev),
        0 <= i <= prev.len(),
        cur.len() == prev.len() + 1,
        cur == prev.insert(i, cur[i]),
        forall|j: int| 0 <= j < i ==> (#[trigger] prev[j].sid) < cur[i].sid,
        i < prev.len() ==> cur[i].sid < prev[i].sid,
    ensures
        types_wf(cur),
        !types_contain(prev, cur[i].sid),
        types_map(cur) == types_map(prev).insert(cur[i].sid, cur[i]),
{
    let sid = cur[i].sid;
    assert forall|p: int, q: int| 0 <= p < q < cur.len() implies cur[p].sid < cur[q].sid by {
        if q < i {
            assert(cur[p] == prev[p]);
            assert(cur[q] == prev[q]);
        } else if q == i {
            assert(cur[p] == prev[p]);
        } else {
            assert(cur[q] == prev[q - 1]);
            if p < i {
                assert(cur[p] == prev[p]);
            } else if p > i {
                assert(cur[p] == prev[p - 1]);
            }
        }
    }
    assert forall|x: u64| true implies #[trigger] types_map(cur).contains_key(x) == types_map(
        prev,
    ).insert(sid, cur[i]).contains_key(x) by {
        if x != sid {
            if types_contain(cur, x) {
                let ix = type_index_of(cur, x);
                if ix < i {
                    assert(cur[ix] == prev[ix]);
                    assert(types_contain(prev, x));
                } else {
                    assert(cur[ix] == prev[ix - 1]);
                    assert(types_contain(prev, x));
                }
            }
            if types_contain(prev, x) {
                let ix = type_index_of(prev, x);
                if ix < i {
                    assert(cur[ix] == prev[ix]);
                    assert(types_contain(cur, x));
                } else {
                    assert(cur[ix + 1] == prev[ix]);
                    assert(types_contain(cur, x));
                }
            }
        }
    }
    assert forall|x: u64| #[trigger] types_map(cur).contains_key(x) implies types_map(cur)[x]
        == types_map(prev).insert(sid, cur[i])[x] by {
        let ix = type_index_of(cur, x);
        lemma_type_at(cur, ix);
        if x == sid {
            lemma_type_at(cur, i);
        } else {
            if ix < i {
                assert(cur[ix] == prev[ix]);
                lemma_type_at(prev, ix);
            } else {
                assert(cur[ix] == prev[ix - 1]);
                lemma_type_at(prev, ix - 1);
            }
        }
    }
    assert(types_map(cur) =~= types_map(prev).insert(sid, cur[i]));
}

/// Extending a sorted registry by its next entry extends its contents
/// by exactly that entry.
proof fn lemma_types_map_take_step(ts: Seq<TypeEntry>, j: int)
    requires
        types_wf(ts),
        0 <= j < ts.len(),
    ensures
        !types_contain(ts.take(j), ts[j].sid),
        types_map(ts.take(j + 1)) == types_map(ts.take(j)).insert(ts[j].sid, ts[j]),
{
    assert(ts.take(j + 1) == ts.take(j).insert(j, ts.take(j + 1)[j]));
    assert forall|p: int, q: int|
        0 <= p < q < ts.take(j + 1).len() implies (#[trigger] ts.take(j + 1)[p].sid) < (
    #[trigger] ts.take(j + 1)[q].sid) by {
        assert(ts.take(j + 1)[p] == ts[p]);
        assert(ts.take(j + 1)[q] == ts[q]);
    }
    assert forall|p: int| 0 <= p < j implies (#[trigger] ts.take(j)[p].sid) < ts[j].sid by {
        assert(ts.take(j)[p] == ts[p]);
    }
    lemma_types_insert_at(ts.take(j), ts.take(j + 1), j);
}

/// One staged registration of a router builder: either an operation
/// (recorded with the merge prefixes that apply to it, outermost
/// first) or the point at which a sub-router was merged under a
/// prefix.
pub enum Reg {
    Proc { kind: ProcedureKind, prefixes: Vec<String>, key: String, todo: ProcedureTodo },
    MergePoint { outer: Vec<String>, prefix: String },
}

/// The abstract form of a staged registration, with every string
/// replaced by its character sequence.
pub ghost enum RegModel {
    Proc { kind: ProcedureKind, prefixes: Seq<Seq<char>>, key: Seq<char>, todo: ProcedureTodo },
    MergePoint { outer: Seq<Seq<char>>, prefix: Seq<char> },
}

/// The character sequences of a sequence of strings.
pub open spec fn seq_views(ss: Seq<String>) -> Seq<Seq<char>> {
    ss.map(|i: int, s: String| s@)
}

/// The abstract form of one registration.
pub open spec fn reg_model(r: Reg) -> RegModel {
    match r {
        Reg::Proc { kind, prefixes, key, todo } => RegModel::Proc {
            kind,
            prefixes: seq_views(prefixes@),
            key: key@,
            todo,
        },
        Reg::MergePoint { outer, prefix } => RegModel::MergePoint {
            outer: seq_views(outer@),
            prefix: prefix@,
        },
    }
}

/// The abstract form of a registration list.
pub open spec fn regs_model(rs: Seq<Reg>) -> Seq<RegModel> {
    rs.map(|i: int, r: Reg| reg_model(r))
}

/// The abstract form of a registration once it is merged under one
/// more, outermost prefix.
pub open spec fn prefixed_model(m: RegModel, p: Seq<char>) -> RegModel {
    match m {
        RegModel::Proc { kind, prefixes, key, todo } => RegModel::Proc {
            kind,
            prefixes: seq![p] + prefixes,
            key,
            todo,
        },
        RegModel::MergePoint { outer, prefix } => RegModel::MergePoint {
            outer: seq![p] + outer,
            prefix,
        },
    }
}

/// A registration list merged under one more, outermost prefix.
pub open spec fn prefixed_regs(rs: Seq<RegModel>, p: Seq<char>) -> Seq<RegModel> {
    rs.map(|i: int, m: RegModel| prefixed_model(m, p))
}

/// The text that a list of merge prefixes contributes to a key:
/// every prefix followed by the separator.
pub open spec fn flat_prefixes(ps: Seq<Seq<char>>) -> Seq<char>
    decreases ps.len(),
{
    if ps.len() == 0 {
        Seq::empty()
    } else {
        ps[0] + seq!['.'] + flat_prefixes(ps.skip(1))
    }
}

/// The dotted key under which an operation staged below the given
/// prefixes is finally stored.
pub open spec fn full_key(prefixes: Seq<Seq<char>>, key: Seq<char>) -> Seq<char> {
    flat_prefixes(prefixes) + key
}

/// Every prefix of the list passes the name validator.
pub open spec fn prefixes_ok(ps: Seq<Seq<char>>) -> bool {
    forall|i: int| 0 <= i < ps.len() ==> spec_validate(#[trigger] ps[i]) is None
}

/// Appending one prefix appends its text and a separator to the flat
/// form.
proof fn lemma_flat_snoc(ps: Seq<Seq<char>>, x: Seq<char>)
    ensures
        flat_prefixes(ps.push(x)) == flat_prefixes(ps) + x + seq!['.'],
    decreases ps.len(),
{
    let q = ps.push(x);
    assert(q[0 as int] == if ps.len() == 0 { x } else { ps[0] });
    if ps.len() == 0 {
        assert(q.skip(1) =~= Seq::<Seq<char>>::empty());
        assert(flat_prefixes(q.skip(1)) == Seq::<char>::empty());
        assert(flat_prefixes(q) == x + seq!['.'] + flat_prefixes(q.skip(1)));
        assert(flat_prefixes(ps) == Seq::<char>::empty());
        assert(flat_prefixes(q) =~= flat_prefixes(ps) + x + seq!['.']);
    } else {
        assert(q.skip(1) =~= ps.skip(1).push(x));
        lemma_flat_snoc(ps.skip(1), x);
        assert(flat_prefixes(q) == ps[0] + seq!['.'] + flat_prefixes(q.skip(1)));
        assert(flat_prefixes(q.skip(1)) == flat_prefixes(ps.skip(1)) + x + seq!['.']);
        assert(flat_prefixes(ps) == ps[0] + seq!['.'] + flat_prefixes(ps.skip(1)));
        assert(flat_prefixes(q) =~= flat_prefixes(ps) + x + seq!['.']);
    }
}

/// Taking the first registration off a list advances its abstract
/// form by one position.
proof fn lemma_regs_model_skip(before: Seq<Reg>, after: Seq<Reg>, full: Seq<RegModel>, c: int)
    requires
        0 <= c,
        c + before.len() == full.len(),
        regs_model(before) == full.skip(c),
        before.len() > 0,
        after == before.remove(0),
    ensures
        reg_model(before[0]) == full[c],
        regs_model(after) == full.skip(c + 1),
{
    assert(regs_model(before)[0] == reg_model(before[0]));
    assert(full.skip(c)[0] == full[c]);
    assert(after =~= before.skip(1));
    assert forall|k: int| 0 <= k < after.len() implies regs_model(after)[k] == full.skip(c + 1)[k]
        by {
        assert(after[k] == before[k + 1]);
        assert(regs_model(after)[k] == reg_model(after[k]));
        assert(regs_model(before)[k + 1] == reg_model(before[k + 1]));
        assert(full.skip(c)[k + 1] == full[c + 1 + k]);
        assert(full.skip(c + 1)[k] == full[c + 1 + k]);
    }
    assert(regs_model(after) =~= full.skip(c + 1));
}

/// Inserting a string at the front of a list puts its characters at
/// the front of the list's views.
proof fn lemma_seq_views_front(before: Seq<String>, after: Seq<String>, x: String, p: Seq<char>)
    requires
        after == before.insert(0, x),
        x@ == p,
    ensures
        seq_views(after) == seq![p] + seq_views(before),
{
    assert(after.len() == before.len() + 1);
    assert forall|k: int| 0 <= k < after.len() implies seq_views(after)[k] == (seq![p]
        + seq_views(before))[k] by {
        assert(seq_views(after)[k] == after[k]@);
        if k == 0 {
            assert(after[0] == x);
        } else {
            assert(after[k] == before[k - 1]);
            assert(seq_views(before)[k - 1] == before[k - 1]@);
        }
    }
    assert(seq_views(after) =~= seq![p] + seq_views(before));
}

/// Staging one more registration appends its abstract form.
proof fn lemma_regs_model_push(before: Seq<Reg>, after: Seq<Reg>, x: Reg)
    requires
        after == before.push(x),
    ensures
        regs_model(after) == regs_model(before).push(reg_model(x)),
{
    assert forall|k: int| 0 <= k < after.len() implies regs_model(after)[k] == regs_model(
        before,
    ).push(reg_model(x))[k] by {
        assert(regs_model(after)[k] == reg_model(after[k]));
        if k < before.len() {
            assert(after[k] == before[k]);
            assert(regs_model(before)[k] == reg_model(before[k]));
        } else {
            assert(after[k] == x);
        }
    }
    assert(regs_model(after) =~= regs_model(before).push(reg_model(x)));
}

/// The abstract shape of one build-time violation: the key it is
/// attributed to and the kind of the cause.
pub ghost struct ErrModel {
    pub key: Seq<char>,
    pub kind: CauseKind,
}

/// The state that assembling a router folds over its registrations:
/// the contents of the three stores and the violations found so far,
/// in discovery order.
pub ghost struct BuildModel {
    pub queries: Map<Seq<char>, ProcedureTodo>,
    pub mutations: Map<Seq<char>, ProcedureTodo>,
    pub subscriptions: Map<Seq<char>, ProcedureTodo>,
    pub errors: Seq<ErrModel>,
}

impl BuildModel {
    /// The state before any registration.
    pub open spec fn init() -> BuildModel {
        BuildModel {
            queries: Map::empty(),
            mutations: Map::empty(),
            subscriptions: Map::empty(),
            errors: Seq::empty(),
        }
    }

    /// The store contents of the given kind.
    pub open spec fn kind_map(self, kind: ProcedureKind) -> Map<Seq<char>, ProcedureTodo> {
        match kind {
            ProcedureKind::Query => self.queries,
            ProcedureKind::Mutation => self.mutations,
            ProcedureKind::Subscription => self.subscriptions,
        }
    }

    /// Replaces the store contents of the given kind.
    pub open spec fn set_kind_map(
        self,
        kind: ProcedureKind,
        m: Map<Seq<char>, ProcedureTodo>,
    ) -> BuildModel {
        match kind {
            ProcedureKind::Query => BuildModel { queries: m, ..self },
            ProcedureKind::Mutation => BuildModel { mutations: m, ..self },
            ProcedureKind::Subscription => BuildModel { subscriptions: m, ..self },
        }
    }

    /// Records one violation.
    pub open spec fn push_err(self, key: Seq<char>, kind: CauseKind) -> BuildModel {
        BuildModel { errors: self.errors.push(ErrModel { key, kind }), ..self }
    }
}

/// How one registration advances the build state.
///
/// A registration is skipped entirely while one of its merge prefixes
/// is invalid: the violation is charged to the merge point alone. An
/// active operation is validated under its original key, then stored
/// under its full dotted key; a duplicate is charged to the original
/// key, a reserved full key to that full key.
pub open spec fn model_step(st: BuildModel, reg: RegModel) -> BuildModel {
    match reg {
        RegModel::MergePoint { outer, prefix } => {
            if prefixes_ok(outer) {
                match spec_validate(prefix) {
                    Some(ck) => st.push_err(prefix, ck),
                    None => st,
                }
            } else {
                st
            }
        },
        RegModel::Proc { kind, prefixes, key, todo } => {
            if prefixes_ok(prefixes) {
                match spec_validate(key) {
                    Some(ck) => st.push_err(key, ck),
                    None => {
                        let full = full_key(prefixes, key);
                        if key_reserved(full) {
                            st.push_err(full, CauseKind::Reserved)
                        } else if st.kind_map(kind).contains_key(full) {
                            st.push_err(key, CauseKind::Duplicate)
                        } else {
                            st.set_kind_map(kind, st.kind_map(kind).insert(full, todo))
                        }
                    },
                }
            } else {
                st
            }
        },
    }
}

/// The build state after processing a registration list in order.
pub open spec fn model_of(regs: Seq<RegModel>) -> BuildModel
    decreases regs.len(),
{
    if regs.len() == 0 {
        BuildModel::init()
    } else {
        model_step(model_of(regs.drop_last()), regs.last())
    }
}

/// Processing one more registration applies one step to the state.
pub proof fn lemma_model_of_step(rm: Seq<RegModel>, c: int)
    requires
        0 <= c < rm.len(),
    ensures
        model_of(rm.take(c + 1)) == model_step(model_of(rm.take(c)), rm[c]),
{
    assert(rm.take(c + 1).drop_last() =~= rm.take(c));
    assert(rm.take(c + 1).last() == rm[c]);
}

/// A recoverable violation discovered while assembling a router: the
/// key it is attributed to and the cause.
pub struct BuildError {
    pub key: String,
    pub cause: BuildErrorCause,
}

impl BuildError {
    /// The abstract shape of this violation.
    pub open spec fn model(&self) -> ErrModel {
        ErrModel { key: self.key@, kind: self.cause.kind() }
    }

    /// The name embedded in the cause agrees with the attributed key.
    pub open spec fn wf(&self) -> bool {
        match self.cause {
            BuildErrorCause::ReservedName(n) => n@ == self.key@,
            BuildErrorCause::DuplicateName(n) => n@ == self.key@,
            _ => true,
        }
    }

    /// The offending key and the human-readable reason.
    pub fn expose(&self) -> (r: (String, String))
        ensures
            r.0@ == self.key@,
            r.1@ == self.cause.spec_message(),
    {
        (self.key.clone(), self.cause.message())
    }
}

/// A router that has been assembled and validated, ready to serve
/// lookups and schema export. Immutable once built.
pub struct BuiltRouter {
    pub queries: ProcedureStore,
    pub mutations: ProcedureStore,
    pub subscriptions: ProcedureStore,
    pub typ_store: Vec<TypeEntry>,
}

impl BuiltRouter {
    /// The three stores are sorted and the registry identities are
    /// unique.
    pub open spec fn wf(&self) -> bool {
        &&& self.queries.wf()
        &&& self.mutations.wf()
        &&& self.subscriptions.wf()
        &&& types_wf(self.typ_store@)
    }

    /// The contents of the store of the given kind.
    pub open spec fn kind_map(&self, kind: ProcedureKind) -> Map<Seq<char>, ProcedureTodo> {
        match kind {
            ProcedureKind::Query => self.queries.as_map(),
            ProcedureKind::Mutation => self.mutations.as_map(),
            ProcedureKind::Subscription => self.subscriptions.as_map(),
        }
    }

    /// Wraps the router for shared, immutable use across concurrent
    /// requests.
    pub fn arced(self) -> (r: std::sync::Arc<Self>)
        ensures
            *r == self,
    {
        std::sync::Arc::new(self)
    }

    /// A copy of the type registry.
    pub fn typ_store(&self) -> (r: Vec<TypeEntry>)
        ensures
            r@ == self.typ_store@,
    {
        let mut r: Vec<TypeEntry> = Vec::new();
        let mut i: usize = 0;
        while i < self.typ_store.len()
            invariant
                i <= self.typ_store@.len(),
                r@ =~= self.typ_store@.take(i as int),
            decreases self.typ_store@.len() - i,
        {
            r.push(self.typ_store[i].duplicate());
            i += 1;
        }
        proof {
            assert(self.typ_store@.take(self.typ_store@.len() as int) =~= self.typ_store@);
        }
        r
    }

    /// Decides well-formedness, so that an unverified caller can
    /// establish it before calling into the contract-bearing
    /// functions. Routers coming out of `build` are always well
    /// formed.
    pub fn check_wf(&self) -> (r: bool)
        ensures
            r == self.wf(),
    {
        store_sorted(&self.queries) && store_sorted(&self.mutations) && store_sorted(
            &self.subscriptions,
        ) && registry_sorted(&self.typ_store)
    }

    /// The store of registered queries.
    pub fn queries(&self) -> (r: &ProcedureStore)
        ensures
            r == self.queries,
    {
        &self.queries
    }

    /// The store of registered mutations.
    pub fn mutations(&self) -> (r: &ProcedureStore)
        ensures
            r == self.mutations,
    {
        &self.mutations
    }

    /// The store of registered subscriptions.
    pub fn subscriptions(&self) -> (r: &ProcedureStore)
        ensures
            r == self.subscriptions,
    {
        &self.subscriptions
    }
}

/// The violation list matches its abstract form entry by entry.
pub open spec fn errs_match(es: Seq<BuildError>, ms: Seq<ErrModel>) -> bool {
    &&& es.len() == ms.len()
    &&& forall|i: int| 0 <= i < es.len() ==> (#[trigger] es[i]).model() == ms[i] && es[i].wf()
}

/// Checks every merge prefix that applies to a registration.
fn prefixes_all_valid(ps: &Vec<String>) -> (r: bool)
    ensures
        r == prefixes_ok(seq_views(ps@)),
{
    let mut i: usize = 0;
    while i < ps.len()
        invariant
            i <= ps@.len(),
            forall|j: int| 0 <= j < i ==> spec_validate(#[trigger] seq_views(ps@)[j]) is None,
        decreases ps@.len() - i,
    {
        if is_valid_name(ps[i].as_str()).is_some() {
            proof {
                assert(seq_views(ps@)[i as int] == ps@[i as int]@);
            }
            return false;
        }
        proof {
            assert(seq_views(ps@)[i as int] == ps@[i as int]@);
        }
        i += 1;
    }
    true
}

/// Renders the full dotted key of an operation under its prefixes.
fn join_full_key(ps: &Vec<String>, key: &str) -> (r: String)
    ensures
        r@ == full_key(seq_views(ps@), key@),
{
    let mut s = String::new();
    let mut i: usize = 0;
    while i < ps.len()
        invariant
            i <= ps@.len(),
            s@ == flat_prefixes(seq_views(ps@).take(i as int)),
        decreases ps@.len() - i,
    {
        s.append(ps[i].as_str());
        push_char(&mut s, '.');
        proof {
            assert(seq_views(ps@).take(i as int).push(ps@[i as int]@) =~= seq_views(ps@).take(
                i + 1 as int,
            ));
            lemma_flat_snoc(seq_views(ps@).take(i as int), ps@[i as int]@);
        }
        i += 1;
    }
    proof {
        assert(seq_views(ps@).take(ps@.len() as int) =~= seq_views(ps@));
    }
    s.append(key);
    s
}

/// Accumulates procedures and sub-router merges into staged
/// registrations; nothing is validated before `build`.
pub struct Router {
    pub regs: Vec<Reg>,
    pub types: Vec<TypeEntry>,
}

impl Router {
    /// Starts an empty router builder.
    pub fn new() -> (r: Router)
        ensures
            regs_model(r.regs@) == Seq::<RegModel>::empty(),
            r.types@ == Seq::<TypeEntry>::empty(),
            types_wf(r.types@),
    {
        let r = Router { regs: Vec::new(), types: Vec::new() };
        proof {
            assert(regs_model(r.regs@) =~= Seq::<RegModel>::empty());
        }
        r
    }

    /// Stages one operation under the given key.
    pub fn procedure(self, key: &str, procedure: Procedure) -> (r: Router)
        ensures
            r.types@ == self.types@,
            regs_model(r.regs@) == regs_model(self.regs@).push(
                RegModel::Proc {
                    kind: procedure.kind,
                    prefixes: Seq::empty(),
                    key: key@,
                    todo: procedure.todo,
                },
            ),
    {
        let Procedure { kind, todo } = procedure;
        let mut regs = self.regs;
        let ghost rg_before = regs@;
        let fresh = Reg::Proc { kind, prefixes: Vec::new(), key: String::from_str(key), todo };
        let ghost fg = fresh;
        regs.push(fresh);
        proof {
            lemma_regs_model_push(rg_before, regs@, fg);
            let m = RegModel::Proc {
                kind: procedure.kind,
                prefixes: Seq::empty(),
                key: key@,
                todo: procedure.todo,
            };
            assert(seq_views(Seq::<String>::empty()) =~= Seq::<Seq<char>>::empty());
            assert(reg_model(fg) == m);
        }
        Router { regs, types: self.types }
    }

    /// Registers a named type definition under its stable identity;
    /// the first definition registered for an identity is kept.
    pub fn add_type(self, entry: TypeEntry) -> (r: Router)
        requires
            types_wf(self.types@),
        ensures
            r.regs@ == self.regs@,
            types_wf(r.types@),
            types_contain(self.types@, entry.sid) ==> r.types@ == self.types@,
            !types_contain(self.types@, entry.sid) ==> types_map(r.types@) == types_map(
                self.types@,
            ).insert(entry.sid, entry),
    {
        let mut types = self.types;
        types_insert(&mut types, entry);
        Router { regs: self.regs, types }
    }

    /// Merges a sub-router under a prefix: every registration of the
    /// sub-router is staged again below that prefix, and the two type
    /// registries are combined, this router's definitions winning.
    pub fn merge(self, prefix: &str, sub: Router) -> (r: Router)
        requires
            types_wf(self.types@),
            types_wf(sub.types@),
        ensures
            types_wf(r.types@),
            types_map(r.types@) == types_map(sub.types@).union_prefer_right(
                types_map(self.types@),
            ),
            regs_model(r.regs@) == regs_model(self.regs@) + seq![
                RegModel::MergePoint { outer: Seq::empty(), prefix: prefix@ },
            ] + prefixed_regs(regs_model(sub.regs@), prefix@),
    {
        let Router { regs: sub_regs_vec, types: sub_types } = sub;
        let mut regs = self.regs;
        let ghost base = regs_model(regs@);
        let ghost subm = regs_model(sub_regs_vec@);
        let ghost p = prefix@;
        let ghost rg0 = regs@;
        let fresh_mp = Reg::MergePoint { outer: Vec::new(), prefix: String::from_str(prefix) };
        let ghost mp = fresh_mp;
        regs.push(fresh_mp);
        proof {
            lemma_regs_model_push(rg0, regs@, mp);
            assert(seq_views(Seq::<String>::empty()) =~= Seq::<Seq<char>>::empty());
            assert(reg_model(mp) == RegModel::MergePoint { outer: Seq::empty(), prefix: p });
            assert(regs_model(regs@) =~= base + seq![
                RegModel::MergePoint { outer: Seq::empty(), prefix: p },
            ]);
        }
        let ghost mid = regs_model(regs@);
        let mut sub_regs = sub_regs_vec;
        let ghost total = subm.len();
        while sub_regs.len() > 0
            invariant
                p == prefix@,
                total == subm.len(),
                sub_regs@.len() <= total,
                regs_model(sub_regs@) == subm.skip(total - sub_regs@.len()),
                regs_model(regs@) == mid + prefixed_regs(
                    subm.take(total - sub_regs@.len()),
                    p,
                ),
            decreases sub_regs@.len(),
        {
            let ghost c = total - sub_regs@.len();
            let ghost sr_before = sub_regs@;
            let reg0 = sub_regs.remove(0);
            proof {
                lemma_regs_model_skip(sr_before, sub_regs@, subm, c);
                assert(reg_model(reg0) == subm[c]);
            }
            let reg1 = match reg0 {
                Reg::Proc { kind, prefixes, key, todo } => {
                    let mut prefixes = prefixes;
                    let ghost before = prefixes@;
                    let fresh = String::from_str(prefix);
                    let ghost fg = fresh;
                    prefixes.insert(0, fresh);
                    proof {
                        lemma_seq_views_front(before, prefixes@, fg, p);
                    }
                    Reg::Proc { kind, prefixes, key, todo }
                },
                Reg::MergePoint { outer, prefix: inner } => {
                    let mut outer = outer;
                    let ghost before = outer@;
                    let fresh = String::from_str(prefix);
                    let ghost fg = fresh;
                    outer.insert(0, fresh);
                    proof {
                        lemma_seq_views_front(before, outer@, fg, p);
                    }
                    Reg::MergePoint { outer, prefix: inner }
                },
            };
            proof {
                assert(reg_model(reg1) == prefixed_model(subm[c], p));
            }
            let ghost rg_before = regs@;
            regs.push(reg1);
            proof {
                lemma_regs_model_push(rg_before, regs@, reg1);
                assert(prefixed_regs(subm.take(c + 1), p) =~= prefixed_regs(
                    subm.take(c),
                    p,
                ).push(prefixed_model(subm[c], p)));
                assert(regs_model(regs@) =~= mid + prefixed_regs(subm.take(c + 1), p));
            }
        }
        proof {
            assert(subm.take(total as int) =~= subm);
        }
        let mut types = self.types;
        let ghost self_types = self.types@;
        let mut j: usize = 0;
        proof {
            assert(sub_types@.take(0) =~= Seq::<TypeEntry>::empty());
            assert(types_map(types@) =~= types_map(sub_types@.take(0)).union_prefer_right(
                types_map(self_types),
            ));
        }
        while j < sub_types.len()
            invariant
                j <= sub_types@.len(),
                types_wf(types@),
                types_wf(sub_types@),
                types_map(types@) == types_map(sub_types@.take(j as int)).union_prefer_right(
                    types_map(self_types),
                ),
            decreases sub_types@.len() - j,
        {
            let ghost before = types@;
            let entry = sub_types[j].duplicate();
            let ghost e = sub_types@[j as int];
            types_insert(&mut types, entry);
            proof {
                lemma_types_map_take_step(sub_types@, j as int);
                let mj = types_map(sub_types@.take(j as int));
                let mj1 = types_map(sub_types@.take(j + 1 as int));
                let selfm = types_map(self_types);
                let tgt = mj1.union_prefer_right(selfm);
                assert(!types_contain(sub_types@.take(j as int), e.sid));
                assert(!mj.contains_key(e.sid));
                if types_contain(before, e.sid) {
                    // The identity was already present, so it came from
                    // this router's own registry, whose definition wins
                    // on both sides.
                    assert(types_map(before).contains_key(e.sid));
                    assert(selfm.contains_key(e.sid));
                    assert forall|x: u64| true implies #[trigger] types_map(types@).contains_key(x)
                        == tgt.contains_key(x) && (tgt.contains_key(x) ==> types_map(types@)[x]
                        == tgt[x]) by {
                        if x == e.sid {
                            assert(tgt[x] == selfm[x]);
                            assert(types_map(before)[x] == selfm[x]);
                        } else {
                            assert(mj1.contains_key(x) == mj.contains_key(x));
                            if mj1.contains_key(x) {
                                assert(mj1[x] == mj[x]);
                            }
                        }
                    }
                    assert(types_map(types@) =~= tgt);
                } else {
                    // A fresh identity: the sub-router's definition is
                    // adopted.
                    assert(!types_map(before).contains_key(e.sid));
                    assert(!selfm.contains_key(e.sid));
                    assert(types_map(types@) == types_map(before).insert(e.sid, e));
                    assert forall|x: u64| true implies #[trigger] types_map(types@).contains_key(x)
                        == tgt.contains_key(x) && (tgt.contains_key(x) ==> types_map(types@)[x]
                        == tgt[x]) by {
                        if x == e.sid {
                            assert(tgt[x] == e);
                        } else {
                            assert(mj1.contains_key(x) == mj.contains_key(x));
                            if mj1.contains_key(x) {
                                assert(mj1[x] == mj[x]);
                            }
                        }
                    }
                    assert(types_map(types@) =~= tgt);
                }
            }
            j += 1;
        }
        proof {
            assert(sub_types@.take(sub_types@.len() as int) =~= sub_types@);
        }
        Router { regs, types }
    }

    /// Runs validation over the full accumulated set of registrations
    /// and freezes the router, or returns the complete list of
    /// violations, one entry per violation, in discovery order.
    pub fn build(self) -> (r: BuildResult)
        requires
            types_wf(self.types@),
        ensures
            ({
                let m = model_of(regs_model(self.regs@));
                match r {
                    BuildResult::Built(b) => {
                        &&& m.errors.len() == 0
                        &&& b.wf()
                        &&& b.queries.as_map() == m.queries
                        &&& b.mutations.as_map() == m.mutations
                        &&& b.subscriptions.as_map() == m.subscriptions
                        &&& b.typ_store@ == self.types@
                    },
                    BuildResult::Failed(es) => {
                        &&& m.errors.len() > 0
                        &&& errs_match(es@, m.errors)
                    },
                }
            }),
    {
        let mut queries = ProcedureStore::new("query");
        let mut mutations = ProcedureStore::new("mutation");
        let mut subscriptions = ProcedureStore::new("subscription");
        let mut errors: Vec<BuildError> = Vec::new();
        let mut regs = self.regs;
        let ghost rm = regs_model(regs@);
        let ghost total = rm.len();
        proof {
            assert(rm.take(0) =~= Seq::<RegModel>::empty());
            assert(queries.as_map() =~= BuildModel::init().queries);
            assert(mutations.as_map() =~= BuildModel::init().mutations);
            assert(subscriptions.as_map() =~= BuildModel::init().subscriptions);
        }
        while regs.len() > 0
            invariant
                total == rm.len(),
                regs@.len() <= total,
                regs_model(regs@) == rm.skip(total - regs@.len()),
                queries.wf(),
                mutations.wf(),
                subscriptions.wf(),
                ({
                    let st = model_of(rm.take(total - regs@.len()));
                    &&& queries.as_map() == st.queries
                    &&& mutations.as_map() == st.mutations
                    &&& subscriptions.as_map() == st.subscriptions
                    &&& errs_match(errors@, st.errors)
                }),
            decreases regs@.len(),
        {
            let ghost c = total - regs@.len();
            let ghost st = model_of(rm.take(c));
            let ghost r_before = regs@;
            let reg = regs.remove(0);
            proof {
                lemma_regs_model_skip(r_before, regs@, rm, c);
                assert(reg_model(reg) == rm[c]);
                lemma_model_of_step(rm, c);
            }
            match reg {
                Reg::MergePoint { outer, prefix } => {
                    if prefixes_all_valid(&outer) {
                        match is_valid_name(prefix.as_str()) {
                            Some(cause) => {
                                errors.push(BuildError { key: prefix, cause });
                            },
                            None => {},
                        }
                    }
                },
                Reg::Proc { kind, prefixes, key, todo } => {
                    if prefixes_all_valid(&prefixes) {
                        match is_valid_name(key.as_str()) {
                            Some(cause) => {
                                errors.push(BuildError { key, cause });
                            },
                            None => {
                                let full = join_full_key(&prefixes, key.as_str());
                                let res = match kind {
                                    ProcedureKind::Query => queries.append(full, todo),
                                    ProcedureKind::Mutation => mutations.append(full, todo),
                                    ProcedureKind::Subscription => subscriptions.append(
                                        full,
                                        todo,
                                    ),
                                };
                                match res {
                                    None => {},
                                    Some(BuildErrorCause::ReservedName(n)) => {
                                        let nc = n.clone();
                                        errors.push(
                                            BuildError {
                                                key: n,
                                                cause: BuildErrorCause::ReservedName(nc),
                                            },
                                        );
                                    },
                                    Some(BuildErrorCause::DuplicateName(_)) => {
                                        let kc = key.clone();
                                        errors.push(
                                            BuildError {
                                                key,
                                                cause: BuildErrorCause::DuplicateName(kc),
                                            },
                                        );
                                    },
                                    Some(_) => unreached(),
                                }
                            },
                        }
                    }
                },
            }
        }
        proof {
            assert(rm.take(total as int) =~= rm);
        }
        if errors.len() == 0 {
            BuildResult::Built(
                BuiltRouter { queries, mutations, subscriptions, typ_store: self.types },
            )
        } else {
            BuildResult::Failed(errors)
        }
    }
}

/// Strictly ascending adjacent keys make the whole sequence strictly
/// sorted.
proof fn lemma_adjacent_keys_sorted(es: Seq<crate::store::StoreEntry>, i: int, j: int)
    requires
        forall|k: int|
            0 <= k < es.len() - 1 ==> crate::strutil::str_lt(
                #[trigger] es[k].key@,
                es[k + 1].key@,
            ),
        0 <= i < j < es.len(),
    ensures
        crate::strutil::str_lt(es[i].key@, es[j].key@),
    decreases j - i,
{
    if j > i + 1 {
        lemma_adjacent_keys_sorted(es, i, j - 1);
        crate::strutil::lemma_str_lt_trans(es[i].key@, es[j - 1].key@, es[j].key@);
    }
}

/// Decides whether a store's entries are strictly sorted by key.
fn store_sorted(s: &ProcedureStore) -> (r: bool)
    ensures
        r == s.wf(),
{
    let n = s.entries.len();
    if n == 0 {
        return true;
    }
    let mut i: usize = 0;
    while i < n - 1
        invariant
            n == s.entries@.len(),
            n >= 1,
            i <= n - 1,
            forall|k: int|
                0 <= k < i ==> crate::strutil::str_lt(
                    #[trigger] s.entries@[k].key@,
                    s.entries@[k + 1].key@,
                ),
        decreases s.entries@.len() - i,
    {
        match crate::strutil::cmp_str(s.entries[i].key.as_str(), s.entries[i + 1].key.as_str()) {
            crate::strutil::StrOrd::Less => {},
            _ => {
                return false;
            },
        }
        i += 1;
    }
    proof {
        assert forall|p: int, q: int|
            0 <= p < q < s.entries@.len() implies crate::strutil::str_lt(
            #[trigger] s.entries@[p].key@,
            #[trigger] s.entries@[q].key@,
        ) by {
            lemma_adjacent_keys_sorted(s.entries@, p, q);
        }
    }
    true
}

/// Strictly ascending adjacent identities make the whole registry
/// strictly sorted.
proof fn lemma_adjacent_sids_sorted(ts: Seq<TypeEntry>, i: int, j: int)
    requires
        forall|k: int| 0 <= k < ts.len() - 1 ==> (#[trigger] ts[k].sid) < ts[k + 1].sid,
        0 <= i < j < ts.len(),
    ensures
        ts[i].sid < ts[j].sid,
    decreases j - i,
{
    if j > i + 1 {
        lemma_adjacent_sids_sorted(ts, i, j - 1);
    }
}

/// Decides whether a registry is strictly sorted by identity.
fn registry_sorted(ts: &Vec<TypeEntry>) -> (r: bool)
    ensures
        r == types_wf(ts@),
{
    let n = ts.len();
    if n == 0 {
        return true;
    }
    let mut i: usize = 0;
    while i < n - 1
        invariant
            n == ts@.len(),
            n >= 1,
            i <= n - 1,
            forall|k: int| 0 <= k < i ==> (#[trigger] ts@[k].sid) < ts@[k + 1].sid,
        decreases ts@.len() - i,
    {
        if ts[i].sid >= ts[i + 1].sid {
            return false;
        }
        i += 1;
    }
    proof {
        assert forall|p: int, q: int|
            0 <= p < q < ts@.len() implies (#[trigger] ts@[p].sid) < (#[trigger] ts@[q].sid) by {
            lemma_adjacent_sids_sorted(ts@, p, q);
        }
    }
    true
}

/// What assembling a router produced: the frozen router, or the
/// complete list of violations in discovery order.
pub enum BuildResult {
    Built(BuiltRouter),
    Failed(Vec<BuildError>),
}

impl BuildResult {
    /// Takes the built router out of a successful result.
    pub fn unwrap(self) -> (r: BuiltRouter)
        requires
            self is Built,
        ensures
            self matches BuildResult::Built(b) && r == b,
    {
        match self {
            BuildResult::Built(b) => b,
            BuildResult::Failed(_) => unreached(),
        }
    }
}

} // verus!

