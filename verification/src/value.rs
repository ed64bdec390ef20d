use vstd::prelude::*;

verus! {

/// A raw payload carried into and out of procedures.
///
/// Requests, responses and middleware state all move values of this
/// shape; the host converts its own wire representation into it at the
/// boundary.
#[derive(Debug, PartialEq, Eq)]
pub enum Value {
    Null,
    Bool(bool),
    Int(i64),
    Text(String),
    /// Two payloads travelling together, used by argument-mapping
    /// middleware to carry a forwarded input beside an auxiliary state.
    Pair(Box<Value>, Box<Value>),
}

impl Clone for Value {
    fn clone(&self) -> (res: Self)
        ensures
            res == self,
        decreases self,
    {
        match self {
            Value::Null => Value::Null,
            Value::Bool(b) => Value::Bool(*b),
            Value::Int(i) => Value::Int(*i),
            Value::Text(s) => Value::Text(s.clone()),
            Value::Pair(a, b) => Value::Pair(Box::new((**a).clone()), Box::new((**b).clone())),
        }
    }
}

/// Copies a vector of values element by element.
pub(crate) fn clone_values(v: &Vec<Value>) -> (r: Vec<Value>)
    ensures
        r@ == v@,
{
    let mut r: Vec<Value> = Vec::new();
    let mut i: usize = 0;
    while i < v.len()
        invariant
            i <= v.len(),
            r@ =~= v@.take(i as int),
        decreases v.len() - i,
    {
        r.push(v[i].clone());
        i += 1;
    }
    proof {
        assert(v@.take(v@.len() as int) =~= v@);
    }
    r
}

} // verus!
