use vstd::prelude::*;

verus! {

/// Strict lexicographic order on character sequences, comparing code
/// points position by position.
pub open spec fn str_lt(a: Seq<char>, b: Seq<char>) -> bool
    decreases a.len(),
{
    if b.len() == 0 {
        false
    } else if a.len() == 0 {
        true
    } else if a[0] != b[0] {
        (a[0] as u32) < (b[0] as u32)
    } else {
        str_lt(a.skip(1), b.skip(1))
    }
}

/// Outcome of comparing two strings lexicographically.
pub enum StrOrd {
    Less,
    Equal,
    Greater,
}

/// Compares the suffixes of `a` and `b` that start at character `i`.
fn cmp_str_from(a: &str, b: &str, i: usize) -> (o: StrOrd)
    requires
        i <= a@.len(),
        i <= b@.len(),
    ensures
        (o is Less) == str_lt(a@.skip(i as int), b@.skip(i as int)),
        (o is Equal) == (a@.skip(i as int) == b@.skip(i as int)),
        (o is Greater) == str_lt(b@.skip(i as int), a@.skip(i as int)),
    decreases a@.len() - i,
{
    let la = a.unicode_len();
    let lb = b.unicode_len();
    if i == lb {
        if i == la {
            proof {
                assert(a@.skip(i as int) =~= b@.skip(i as int));
            }
            StrOrd::Equal
        } else {
            proof {
                assert(a@.skip(i as int).len() > 0);
                assert(b@.skip(i as int).len() == 0);
                assert(a@.skip(i as int) != b@.skip(i as int));
            }
            StrOrd::Greater
        }
    } else if i == la {
        proof {
            assert(b@.skip(i as int).len() > 0);
            assert(a@.skip(i as int).len() == 0);
            assert(a@.skip(i as int) != b@.skip(i as int));
        }
        StrOrd::Less
    } else {
        let ca = a.get_char(i);
        let cb = b.get_char(i);
        proof {
            assert(a@.skip(i as int)[0] == ca);
            assert(b@.skip(i as int)[0] == cb);
        }
        if ca == cb {
            let o = cmp_str_from(a, b, i + 1);
            proof {
                assert(a@.skip(i as int).skip(1) =~= a@.skip(i + 1 as int));
                assert(b@.skip(i as int).skip(1) =~= b@.skip(i + 1 as int));
                let sa = a@.skip(i as int);
                let sb = b@.skip(i as int);
                if a@.skip(i + 1 as int) == b@.skip(i + 1 as int) {
                    assert(a@.skip(i + 1 as int).len() == b@.skip(i + 1 as int).len());
                    assert(sa.len() == sb.len());
                    assert forall|k: int| 0 <= k < sa.len() implies sa[k] == sb[k] by {
                        if k > 0 {
                            assert(sa[k] == a@.skip(i + 1 as int)[k - 1]);
                            assert(sb[k] == b@.skip(i + 1 as int)[k - 1]);
                        }
                    }
                    assert(sa =~= sb);
                }
                if sa == sb {
                    assert(sa.skip(1) =~= sb.skip(1));
                }
            }
            o
        } else if (ca as u32) < (cb as u32) {
            StrOrd::Less
        } else {
            proof {
                assert((cb as u32) < (ca as u32)) by {
                    assert(ca as u32 != cb as u32) by {
                        if ca as u32 == cb as u32 {
                            assert(ca == cb);
                        }
                    }
                }
            }
            StrOrd::Greater
        }
    }
}

/// Compares two strings lexicographically by code point.
pub fn cmp_str(a: &str, b: &str) -> (o: StrOrd)
    ensures
        (o is Less) == str_lt(a@, b@),
        (o is Equal) == (a@ == b@),
        (o is Greater) == str_lt(b@, a@),
{
    let o = cmp_str_from(a, b, 0);
    proof {
        assert(a@.skip(0) =~= a@);
        assert(b@.skip(0) =~= b@);
    }
    o
}

/// Reports whether two strings hold the same characters.
pub fn str_eq(a: &str, b: &str) -> (r: bool)
    ensures
        r == (a@ == b@),
{
    matches!(cmp_str(a, b), StrOrd::Equal)
}

/// The order `str_lt` is transitive.
pub proof fn lemma_str_lt_trans(a: Seq<char>, b: Seq<char>, c: Seq<char>)
    requires
        str_lt(a, b),
        str_lt(b, c),
    ensures
        str_lt(a, c),
    decreases a.len() + b.len() + c.len(),
{
    if a.len() > 0 && b.len() > 0 && c.len() > 0 {
        if a[0] == b[0] && b[0] == c[0] {
            lemma_str_lt_trans(a.skip(1), b.skip(1), c.skip(1));
        }
    }
}

/// The order `str_lt` is asymmetric and irreflexive.
pub proof fn lemma_str_lt_asym(a: Seq<char>, b: Seq<char>)
    requires
        str_lt(a, b),
    ensures
        !str_lt(b, a),
        a != b,
    decreases a.len(),
{
    if a.len() > 0 && b.len() > 0 && a[0] == b[0] {
        lemma_str_lt_asym(a.skip(1), b.skip(1));
        assert(a != b) by {
            if a == b {
                assert(a.skip(1) =~= b.skip(1));
            }
        }
    }
}

/// Relies on `String::push` of std: it appends exactly the given
/// character to the end of the string.
#[verifier::external_body]
pub(crate) fn push_char(s: &mut String, c: char)
    ensures
        final(s)@ == old(s)@ + seq![c],
{
    s.push(c);
}

} // verus!
