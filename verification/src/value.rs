//! The tree of values that the library formats.

use vstd::prelude::*;
use crate::model::{val_model, vals_model, entries_model, node_height, lemma_vals_model,
    lemma_entries_model, lemma_elems_height_elem, lemma_fields_height_elem};

verus! {

/// An ordered tree of configuration values. Object fields keep the order in
/// which they were inserted; a later binding of a key already present
/// overwrites the earlier value in place.
///
/// A number is carried as its canonical decimal text, produced by whatever
/// projected the caller's data into this tree; the formatter splices that
/// text into the output unchanged.
pub enum Value {
    Null,
    Bool(bool),
    Number(String),
    Text(String),
    Array(Vec<Value>),
    Object(Vec<(String, Value)>),
}

impl Value {
    /// A deep copy: the copy has the same model as the value it was made from.
    pub fn duplicate(&self) -> (r: Value)
        ensures
            val_model(r) == val_model(*self),
        decreases node_height(val_model(*self)),
    {
        match self {
            Value::Null => Value::Null,
            Value::Bool(b) => Value::Bool(*b),
            Value::Number(n) => Value::Number(n.clone()),
            Value::Text(s) => Value::Text(s.clone()),
            Value::Array(vs) => {
                let mut out: Vec<Value> = Vec::new();
                let n = vs.len();
                for i in 0..n
                    invariant
                        *self == Value::Array(*vs),
                        n == vs.len(),
                        vals_model(out@) =~= vals_model(vs@).subrange(0, i as int),
                    decreases n - i,
                {
                    proof {
                        lemma_vals_model(vs@);
                        lemma_elems_height_elem(vals_model(vs@), i as int);
                        assert(node_height(val_model(vs@[i as int])) < node_height(
                            val_model(*self),
                        ));
                    }
                    let d = vs[i].duplicate();
                    proof {
                        lemma_vals_model(out@);
                    }
                    out.push(d);
                    proof {
                        lemma_vals_model(out@);
                        lemma_vals_model(vs@);
                        assert(vals_model(out@) =~= vals_model(vs@).subrange(0, i as int + 1));
                    }
                }
                proof {
                    lemma_vals_model(vs@);
                    assert(vals_model(out@) =~= vals_model(vs@));
                }
                Value::Array(out)
            },
            Value::Object(m) => {
                let mut out: Vec<(String, Value)> = Vec::new();
                let n = m.len();
                for i in 0..n
                    invariant
                        *self == Value::Object(*m),
                        n == m.len(),
                        entries_model(out@) =~= entries_model(m@).subrange(0, i as int),
                    decreases n - i,
                {
                    proof {
                        lemma_entries_model(m@);
                        lemma_fields_height_elem(entries_model(m@), i as int);
                        assert(node_height(val_model(m@[i as int].1)) < node_height(
                            val_model(*self),
                        ));
                    }
                    let d = (m[i].0.clone(), m[i].1.duplicate());
                    proof {
                        lemma_entries_model(out@);
                    }
                    out.push(d);
                    proof {
                        lemma_entries_model(out@);
                        lemma_entries_model(m@);
                        assert(entries_model(out@) =~= entries_model(m@).subrange(
                            0,
                            i as int + 1,
                        ));
                    }
                }
                proof {
                    lemma_entries_model(m@);
                    assert(entries_model(out@) =~= entries_model(m@));
                }
                Value::Object(out)
            },
        }
    }
}

} // verus!
