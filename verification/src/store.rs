use vstd::prelude::*;

use crate::name::BuildErrorCause;
use crate::procedure::ProcedureTodo;
use crate::strutil::{cmp_str, lemma_str_lt_asym, lemma_str_lt_trans, str_eq, str_lt, StrOrd};

verus! {

/// One key together with the operation registered under it.
pub struct StoreEntry {
    pub key: String,
    pub todo: ProcedureTodo,
}

/// A key that no store accepts, whatever the validator said about its
/// segments: the empty key, the reserved socket key, and everything
/// under the reserved RPC namespaces.
pub open spec fn key_reserved(s: Seq<char>) -> bool {
    ||| s.len() == 0
    ||| s == "ws"@
    ||| (s.len() >= 4 && s.take(4) == "rpc."@)
    ||| (s.len() >= 5 && s.take(5) == "rspc."@)
}

/// An ordered mapping from procedure key to registered operation.
///
/// Entries are kept sorted by key, so iteration order is deterministic
/// and feeds byte-stable schema export. The store kind in `name` is
/// used for error messages and lookup partitioning only.
pub struct ProcedureStore {
    pub name: &'static str,
    pub entries: Vec<StoreEntry>,
}

impl ProcedureStore {
    /// The entries are strictly sorted by key, so keys are unique.
    pub open spec fn wf(&self) -> bool {
        forall|i: int, j: int|
            0 <= i < j < self.entries@.len() ==> str_lt(
                #[trigger] self.entries@[i].key@,
                #[trigger] self.entries@[j].key@,
            )
    }

    /// Whether some entry holds the given key.
    pub open spec fn spec_contains(&self, k: Seq<char>) -> bool {
        exists|i: int| 0 <= i < self.entries@.len() && self.entries@[i].key@ == k
    }

    /// The index of the entry holding the given key.
    pub open spec fn index_of(&self, k: Seq<char>) -> int {
        choose|i: int| 0 <= i < self.entries@.len() && self.entries@[i].key@ == k
    }

    /// The contents of the store, as a mapping from key to operation.
    pub open spec fn as_map(&self) -> Map<Seq<char>, ProcedureTodo> {
        Map::new(|k: Seq<char>| self.spec_contains(k), |k: Seq<char>| self.entries@[self.index_of(k)].todo)
    }

    /// In a well-formed store the entry at `i` is the only one with
    /// its key.
    pub proof fn lemma_key_at(&self, i: int)
        requires
            self.wf(),
            0 <= i < self.entries@.len(),
        ensures
            self.spec_contains(self.entries@[i].key@),
            self.index_of(self.entries@[i].key@) == i,
            self.as_map()[self.entries@[i].key@] == self.entries@[i].todo,
    {
        let k = self.entries@[i].key@;
        assert(self.spec_contains(k));
        let j = self.index_of(k);
        if j != i {
            if j < i {
                assert(str_lt(self.entries@[j].key@, self.entries@[i].key@));
            } else {
                assert(str_lt(self.entries@[i].key@, self.entries@[j].key@));
            }
            lemma_str_lt_asym(k, k);
        }
    }

    /// Creates an empty store for the given kind.
    pub fn new(name: &'static str) -> (r: Self)
        ensures
            r.name == name,
            r.entries@ == Seq::<StoreEntry>::empty(),
            r.wf(),
    {
        ProcedureStore { name, entries: Vec::new() }
    }

    /// Registers an operation under a key, keeping the entries sorted.
    ///
    /// Fails with a recoverable cause, leaving the store unchanged,
    /// when the key is reserved or already present.
    pub fn append(&mut self, key: String, todo: ProcedureTodo) -> (r: Option<BuildErrorCause>)
        requires
            old(self).wf(),
        ensures
            final(self).wf(),
            final(self).name == old(self).name,
            (match r {
                None => {
                    &&& !key_reserved(key@)
                    &&& !old(self).spec_contains(key@)
                    &&& final(self).as_map() == old(self).as_map().insert(key@, todo)
                    &&& final(self).spec_contains(key@)
                    &&& final(self).entries@.len() == old(self).entries@.len() + 1
                },
                Some(BuildErrorCause::ReservedName(n)) => {
                    &&& n@ == key@
                    &&& key_reserved(key@)
                    &&& *final(self) == *old(self)
                },
                Some(BuildErrorCause::DuplicateName(n)) => {
                    &&& n@ == key@
                    &&& !key_reserved(key@)
                    &&& old(self).spec_contains(key@)
                    &&& *final(self) == *old(self)
                },
                _ => false,
            }),
    {
        if key_is_reserved(key.as_str()) {
            return Some(BuildErrorCause::ReservedName(key));
        }
        let ghost prev = *self;
        let ghost k = key@;
        let mut i: usize = 0;
        while i < self.entries.len()
            invariant
                *self == prev,
                prev == *old(self),
                old(self).wf(),
                !key_reserved(key@),
                k == key@,
                i <= self.entries@.len(),
                forall|j: int| 0 <= j < i ==> str_lt(#[trigger] self.entries@[j].key@, key@),
            decreases self.entries@.len() - i,
        {
            match cmp_str(key.as_str(), self.entries[i].key.as_str()) {
                StrOrd::Equal => {
                    proof {
                        assert(self.entries@[i as int].key@ == key@);
                    }
                    return Some(BuildErrorCause::DuplicateName(key));
                },
                StrOrd::Less => {
                    self.entries.insert(i, StoreEntry { key, todo });
                    proof {
                        lemma_store_insert(prev, *self, i as int, k, todo);
                    }
                    return None;
                },
                StrOrd::Greater => {
                    i += 1;
                },
            }
        }
        self.entries.insert(i, StoreEntry { key, todo });
        proof {
            lemma_store_insert(prev, *self, i as int, k, todo);
        }
        None
    }

    /// Looks an operation up by exact key.
    pub fn get(&self, key: &str) -> (r: Option<&ProcedureTodo>)
        requires
            self.wf(),
        ensures
            (match r {
                Some(t) => self.spec_contains(key@) && *t == self.as_map()[key@],
                None => !self.spec_contains(key@),
            }),
    {
        let mut i: usize = 0;
        while i < self.entries.len()
            invariant
                self.wf(),
                i <= self.entries@.len(),
                forall|j: int| 0 <= j < i ==> (#[trigger] self.entries@[j].key@) != key@,
            decreases self.entries@.len() - i,
        {
            if str_eq(self.entries[i].key.as_str(), key) {
                proof {
                    self.lemma_key_at(i as int);
                }
                return Some(&self.entries[i].todo);
            }
            i += 1;
        }
        None
    }

    /// The number of registered operations.
    pub fn len(&self) -> (r: usize)
        ensures
            r == self.entries@.len(),
    {
        self.entries.len()
    }

    /// The entry at the given position of the key-sorted order; a
    /// restartable walk over positions enumerates the whole store
    /// deterministically.
    pub fn entry_at(&self, i: usize) -> (r: &StoreEntry)
        requires
            i < self.entries@.len(),
        ensures
            *r == self.entries@[i as int],
    {
        &self.entries[i]
    }
}

/// Inserting an entry at its sorted position keeps the store well
/// formed and extends its contents by exactly that key.
proof fn lemma_store_insert(
    prev: ProcedureStore,
    cur: ProcedureStore,
    i: int,
    k: Seq<char>,
    todo: ProcedureTodo,
)
    requires
        prev.wf(),
        0 <= i <= prev.entries@.len(),
        cur.entries@.len() == prev.entries@.len() + 1,
        cur.entries@ == prev.entries@.insert(i, cur.entries@[i]),
        cur.entries@[i].key@ == k,
        cur.entries@[i].todo == todo,
        forall|j: int| 0 <= j < i ==> str_lt(#[trigger] prev.entries@[j].key@, k),
        i < prev.entries@.len() ==> str_lt(k, prev.entries@[i].key@),
    ensures
        cur.wf(),
        !prev.spec_contains(k),
        cur.spec_contains(k),
        cur.as_map() == prev.as_map().insert(k, todo),
{
    let es = cur.entries@;
    let old_es = prev.entries@;
    assert forall|j: int| 0 <= j < old_es.len() implies old_es[j].key@ != k by {
        if j < i {
            lemma_str_lt_asym(old_es[j].key@, k);
        } else {
            if j > i {
                lemma_str_lt_trans(k, old_es[i].key@, old_es[j].key@);
            }
            lemma_str_lt_asym(k, old_es[j].key@);
        }
    }
    assert(!prev.spec_contains(k));
    assert forall|p: int, q: int|
        0 <= p < q < es.len() implies str_lt(es[p].key@, es[q].key@) by {
        if q < i {
            assert(es[p] == old_es[p]);
            assert(es[q] == old_es[q]);
        } else if q == i {
            assert(es[p] == old_es[p]);
        } else {
            assert(es[q] == old_es[q - 1]);
            if p < i {
                assert(es[p] == old_es[p]);
            } else if p == i {
                assert(str_lt(k, old_es[i].key@));
                if q - 1 > i {
                    lemma_str_lt_trans(k, old_es[i].key@, old_es[q - 1].key@);
                }
            } else {
                assert(es[p] == old_es[p - 1]);
            }
        }
    }
    assert(cur.wf());
    assert(cur.spec_contains(k));
    assert forall|x: Seq<char>| true implies #[trigger] cur.as_map().contains_key(x)
        == prev.as_map().insert(k, todo).contains_key(x) by {
        if x != k {
            if cur.spec_contains(x) {
                let ix = cur.index_of(x);
                if ix < i {
                    assert(old_es[ix] == es[ix]);
                    assert(prev.spec_contains(x));
                } else {
                    assert(es[ix] == old_es[ix - 1]);
                    assert(prev.spec_contains(x));
                }
            }
            if prev.spec_contains(x) {
                let ix = prev.index_of(x);
                if ix < i {
                    assert(es[ix] == old_es[ix]);
                    assert(cur.spec_contains(x));
                } else {
                    assert(es[ix + 1] == old_es[ix]);
                    assert(cur.spec_contains(x));
                }
            }
        }
    }
    assert forall|x: Seq<char>| #[trigger] cur.as_map().contains_key(x) implies cur.as_map()[x]
        == prev.as_map().insert(k, todo)[x] by {
        let ix = cur.index_of(x);
        cur.lemma_key_at(ix);
        if x == k {
            cur.lemma_key_at(i);
        } else {
            if ix < i {
                assert(es[ix] == old_es[ix]);
                prev.lemma_key_at(ix);
            } else {
                assert(es[ix] == old_es[ix - 1]);
                prev.lemma_key_at(ix - 1);
            }
        }
    }
    assert(cur.as_map() =~= prev.as_map().insert(k, todo));
}

/// Decides `key_reserved` for a concrete key.
fn key_is_reserved(s: &str) -> (r: bool)
    ensures
        r == key_reserved(s@),
{
    proof {
        reveal_strlit("rpc.");
        reveal_strlit("rspc.");
    }
    if s.unicode_len() == 0 {
        return true;
    }
    if str_eq(s, "ws") {
        return true;
    }
    if has_prefix(s, "rpc.") || has_prefix(s, "rspc.") {
        return true;
    }
    false
}

/// Reports whether `s` starts with the characters of `p`.
fn has_prefix(s: &str, p: &str) -> (r: bool)
    ensures
        r == (s@.len() >= p@.len() && s@.take(p@.len() as int) == p@),
{
    let lp = p.unicode_len();
    let ls = s.unicode_len();
    if ls < lp {
        return false;
    }
    let mut i: usize = 0;
    while i < lp
        invariant
            i <= lp,
            lp == p@.len(),
            ls == s@.len(),
            lp <= ls,
            forall|j: int| 0 <= j < i ==> s@[j] == p@[j],
        decreases lp - i,
    {
        if s.get_char(i) != p.get_char(i) {
            proof {
                assert(s@.take(lp as int)[i as int] != p@[i as int]);
            }
            return false;
        }
        i += 1;
    }
    proof {
        assert(s@.take(lp as int) =~= p@);
    }
    true
}

} // verus!
