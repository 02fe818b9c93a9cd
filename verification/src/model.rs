//! The mathematical model of a value tree: what the contracts speak about.

use vstd::prelude::*;
use crate::value::Value;

verus! {

/// The model of a [`Value`]: the same tree with every string replaced by its
/// sequence of characters. All contracts of this crate are stated over it.
pub enum Node {
    Null,
    Bool(bool),
    Num(Seq<char>),
    Text(Seq<char>),
    Arr(Seq<Node>),
    Obj(Seq<(Seq<char>, Node)>),
}

/// A flat or nested object in model form: ordered key/node pairs.
pub type Fields = Seq<(Seq<char>, Node)>;

/// The larger of two naturals.
pub open spec fn max2(a: nat, b: nat) -> nat {
    if a >= b {
        a
    } else {
        b
    }
}

/// The model of one value.
pub open spec fn val_model(v: Value) -> Node
    decreases v,
{
    match v {
        Value::Null => Node::Null,
        Value::Bool(b) => Node::Bool(b),
        Value::Number(n) => Node::Num(n@),
        Value::Text(s) => Node::Text(s@),
        Value::Array(vs) => Node::Arr(vals_model(vs@)),
        Value::Object(m) => Node::Obj(entries_model(m@)),
    }
}

/// The models of a sequence of values, in order.
pub open spec fn vals_model(s: Seq<Value>) -> Seq<Node>
    decreases s,
{
    if s.len() == 0 {
        Seq::empty()
    } else {
        seq![val_model(s[0])] + vals_model(s.subrange(1, s.len() as int))
    }
}

/// The models of a sequence of key/value pairs, in order.
pub open spec fn entries_model(s: Seq<(String, Value)>) -> Seq<(Seq<char>, Node)>
    decreases s,
{
    if s.len() == 0 {
        Seq::empty()
    } else {
        seq![(s[0].0@, val_model(s[0].1))] + entries_model(s.subrange(1, s.len() as int))
    }
}

/// The model of a sequence of values is elementwise.
pub proof fn lemma_vals_model(s: Seq<Value>)
    ensures
        vals_model(s).len() == s.len(),
        forall|i: int| 0 <= i < s.len() ==> vals_model(s)[i] == val_model(s[i]),
    decreases s.len(),
{
    if s.len() > 0 {
        lemma_vals_model(s.subrange(1, s.len() as int));
    }
}

/// The model of a sequence of key/value pairs is elementwise.
pub proof fn lemma_entries_model(s: Seq<(String, Value)>)
    ensures
        entries_model(s).len() == s.len(),
        forall|i: int| 0 <= i < s.len() ==> entries_model(s)[i] == (s[i].0@, val_model(
            s[i].1,
        )),
    decreases s.len(),
{
    if s.len() > 0 {
        lemma_entries_model(s.subrange(1, s.len() as int));
    }
}

/// Height of a model node: how deeply arrays and objects are nested below it.
pub open spec fn node_height(n: Node) -> nat
    decreases n,
{
    match n {
        Node::Arr(elems) => 1 + elems_height(elems),
        Node::Obj(fields) => 1 + fields_height(fields),
        _ => 0,
    }
}

/// Greatest height among a sequence of nodes.
pub open spec fn elems_height(s: Seq<Node>) -> nat
    decreases s,
{
    if s.len() == 0 {
        0
    } else {
        let h0 = node_height(s[0]);
        let hr = elems_height(s.subrange(1, s.len() as int));
        if h0 >= hr {
            h0
        } else {
            hr
        }
    }
}

/// Greatest height among the values of a key/node sequence.
pub open spec fn fields_height(s: Seq<(Seq<char>, Node)>) -> nat
    decreases s,
{
    if s.len() == 0 {
        0
    } else {
        let h0 = node_height(s[0].1);
        let hr = fields_height(s.subrange(1, s.len() as int));
        if h0 >= hr {
            h0
        } else {
            hr
        }
    }
}

/// Every node of a sequence stays within the sequence's height.
pub proof fn lemma_elems_height_elem(s: Seq<Node>, i: int)
    requires
        0 <= i < s.len(),
    ensures
        node_height(s[i]) <= elems_height(s),
    decreases s.len(),
{
    if i > 0 {
        lemma_elems_height_elem(s.subrange(1, s.len() as int), i - 1);
        assert(s.subrange(1, s.len() as int)[i - 1] == s[i]);
    }
}

/// A bound on every value of a key/node sequence bounds the sequence's height.
pub proof fn lemma_fields_height_bound(s: Seq<(Seq<char>, Node)>, h: nat)
    requires
        forall|i: int| 0 <= i < s.len() ==> node_height(#[trigger] s[i].1) <= h,
    ensures
        fields_height(s) <= h,
    decreases s.len(),
{
    if s.len() > 0 {
        let rest = s.subrange(1, s.len() as int);
        assert forall|i: int| 0 <= i < rest.len() implies node_height(#[trigger] rest[i].1)
            <= h by {
            assert(rest[i] == s[i + 1]);
        }
        lemma_fields_height_bound(rest, h);
    }
}

/// Every value of a key/node sequence stays within the sequence's height.
pub proof fn lemma_fields_height_elem(s: Seq<(Seq<char>, Node)>, i: int)
    requires
        0 <= i < s.len(),
    ensures
        node_height(s[i].1) <= fields_height(s),
    decreases s.len(),
{
    if i > 0 {
        lemma_fields_height_elem(s.subrange(1, s.len() as int), i - 1);
        assert(s.subrange(1, s.len() as int)[i - 1] == s[i]);
    }
}

} // verus!
