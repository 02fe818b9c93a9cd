//! Flattening: a depth-first pre-order walk that collapses nested objects
//! into single-level entries under dotted-path keys.

use vstd::prelude::*;
use crate::model::{Node, Fields, fields_height, node_height, max2, lemma_fields_height_elem,
    lemma_fields_height_bound, entries_model, val_model, lemma_entries_model};
use crate::value::Value;

verus! {

/// Index of the first entry bound to `key`, or -1 if the key is absent.
pub open spec fn key_index(entries: Fields, key: Seq<char>) -> int
    decreases entries,
{
    if entries.len() == 0 {
        -1
    } else if entries[0].0 == key {
        0
    } else {
        let r = key_index(entries.subrange(1, entries.len() as int), key);
        if r < 0 {
            -1
        } else {
            1 + r
        }
    }
}

/// The ordered-map update rule: a key already present keeps its position and
/// has its value replaced; a new key goes to the end.
pub open spec fn flat_insert(entries: Fields, key: Seq<char>, n: Node) -> Fields {
    let i = key_index(entries, key);
    if i >= 0 {
        entries.update(i, (key, n))
    } else {
        entries.push((key, n))
    }
}

/// The dotted path of a field under an optional prefix.
pub open spec fn joined_key(prefix: Option<Seq<char>>, field: Seq<char>) -> Seq<char> {
    match prefix {
        Option::None => field,
        Option::Some(p) => p + seq!['.'] + field,
    }
}

/// Flattening of one object under an optional prefix, into an accumulator.
/// A nested empty object that is to be kept leaves a single empty-object
/// marker under its own path.
pub open spec fn flatten_at(
    acc: Fields,
    prefix: Option<Seq<char>>,
    src: Fields,
    skip_empty_object: bool,
) -> Fields
    decreases fields_height(src), src.len(), 1int,
{
    if prefix is Some && !skip_empty_object && src.len() == 0 {
        flat_insert(acc, prefix->0, Node::Obj(Seq::empty()))
    } else {
        flatten_fields(acc, prefix, src, skip_empty_object)
    }
}

/// The field-by-field walk behind [`flatten_at`]: objects recurse under an
/// extended prefix, every other value is inserted under its dotted path.
pub open spec fn flatten_fields(
    acc: Fields,
    prefix: Option<Seq<char>>,
    src: Fields,
    skip_empty_object: bool,
) -> Fields
    decreases fields_height(src), src.len(), 0int,
    via flatten_fields_dec
{
    if src.len() == 0 {
        acc
    } else {
        let key = joined_key(prefix, src[0].0);
        let acc2 = match src[0].1 {
            Node::Obj(inner) => flatten_at(acc, Option::Some(key), inner, skip_empty_object),
            _ => flat_insert(acc, key, src[0].1),
        };
        flatten_fields(acc2, prefix, src.subrange(1, src.len() as int), skip_empty_object)
    }
}

#[via_fn]
proof fn flatten_fields_dec(
    acc: Fields,
    prefix: Option<Seq<char>>,
    src: Fields,
    skip_empty_object: bool,
) {
    if src.len() > 0 {
        assert(fields_height(src) >= node_height(src[0].1));
        assert(fields_height(src) >= fields_height(src.subrange(1, src.len() as int)));
        if let Node::Obj(inner) = src[0].1 {
            assert(node_height(src[0].1) == 1 + fields_height(inner));
        }
    }
}

/// What [`key_index`] finds: the first position bound to the key, if any.
pub proof fn lemma_key_index(entries: Fields, key: Seq<char>)
    ensures
        -1 <= key_index(entries, key) < entries.len(),
        key_index(entries, key) == -1 ==> forall|j: int|
            0 <= j < entries.len() ==> (#[trigger] entries[j]).0 != key,
        key_index(entries, key) >= 0 ==> entries[key_index(entries, key)].0 == key
            && forall|j: int| 0 <= j < key_index(entries, key) ==> (#[trigger] entries[j]).0
            != key,
    decreases entries.len(),
{
    if entries.len() > 0 && entries[0].0 != key {
        let rest = entries.subrange(1, entries.len() as int);
        lemma_key_index(rest, key);
        let r = key_index(rest, key);
        if r == -1 {
            assert forall|j: int| 0 <= j < entries.len() implies (#[trigger] entries[j]).0
                != key by {
                if j > 0 {
                    assert(entries[j] == rest[j - 1]);
                }
            }
        } else {
            assert(entries[1 + r] == rest[r]);
            assert forall|j: int| 0 <= j < 1 + r implies (#[trigger] entries[j]).0 != key by {
                if j > 0 {
                    assert(entries[j] == rest[j - 1]);
                }
            }
        }
    }
}

/// Inserting keeps the height within the old height and the new node's.
pub proof fn lemma_flat_insert_height(entries: Fields, key: Seq<char>, n: Node)
    ensures
        fields_height(flat_insert(entries, key, n)) <= max2(fields_height(entries), node_height(n)),
{
    let out = flat_insert(entries, key, n);
    let h = max2(fields_height(entries), node_height(n));
    lemma_key_index(entries, key);
    assert forall|i: int| 0 <= i < out.len() implies node_height(#[trigger] out[i].1) <= h by {
        if out[i].1 != n {
            lemma_fields_height_elem(entries, i);
        }
    }
    lemma_fields_height_bound(out, h);
}

/// Flattening never grows the height past the source (and its markers).
pub proof fn lemma_flatten_at_height(
    acc: Fields,
    prefix: Option<Seq<char>>,
    src: Fields,
    skip_empty_object: bool,
)
    ensures
        fields_height(flatten_at(acc, prefix, src, skip_empty_object)) <= max2(
            fields_height(acc),
            if prefix is Some {
                max2(1, fields_height(src))
            } else {
                fields_height(src)
            },
        ),
    decreases fields_height(src), src.len(), 1int,
{
    if prefix is Some && !skip_empty_object && src.len() == 0 {
        lemma_flat_insert_height(acc, prefix->0, Node::Obj(Seq::empty()));
    } else {
        lemma_flatten_fields_height(acc, prefix, src, skip_empty_object);
    }
}

/// The walk behind the height bound: field by field.
pub proof fn lemma_flatten_fields_height(
    acc: Fields,
    prefix: Option<Seq<char>>,
    src: Fields,
    skip_empty_object: bool,
)
    ensures
        fields_height(flatten_fields(acc, prefix, src, skip_empty_object)) <= max2(
            fields_height(acc),
            fields_height(src),
        ),
    decreases fields_height(src), src.len(), 0int,
{
    if src.len() > 0 {
        let key = joined_key(prefix, src[0].0);
        let acc2 = match src[0].1 {
            Node::Obj(inner) => flatten_at(acc, Option::Some(key), inner, skip_empty_object),
            _ => flat_insert(acc, key, src[0].1),
        };
        assert(fields_height(src) >= node_height(src[0].1));
        match src[0].1 {
            Node::Obj(inner) => {
                assert(node_height(src[0].1) == 1 + fields_height(inner));
                lemma_flatten_at_height(acc, Option::Some(key), inner, skip_empty_object);
            },
            _ => {
                lemma_flat_insert_height(acc, key, src[0].1);
            },
        }
        assert(fields_height(acc2) <= max2(fields_height(acc), fields_height(src)));
        assert(fields_height(src) >= fields_height(src.subrange(1, src.len() as int)));
        lemma_flatten_fields_height(
            acc2,
            prefix,
            src.subrange(1, src.len() as int),
            skip_empty_object,
        );
    }
}

/// In a flattened mapping, objects occur only as empty markers, and only when
/// empty objects are kept.
pub open spec fn markers_only(entries: Fields, skip_empty_object: bool) -> bool {
    forall|i: int|
        0 <= i < entries.len() ==> ((#[trigger] entries[i]).1 matches Node::Obj(inner)
            ==> !skip_empty_object && inner.len() == 0)
}

/// Inserting a marker or a non-object value preserves [`markers_only`].
pub proof fn lemma_flat_insert_markers(
    entries: Fields,
    key: Seq<char>,
    n: Node,
    skip_empty_object: bool,
)
    requires
        markers_only(entries, skip_empty_object),
        n matches Node::Obj(inner) ==> !skip_empty_object && inner.len() == 0,
    ensures
        markers_only(flat_insert(entries, key, n), skip_empty_object),
{
    lemma_key_index(entries, key);
}

/// Flattening leaves nothing but scalars, arrays, and empty-object markers.
pub proof fn lemma_flatten_at_markers(
    acc: Fields,
    prefix: Option<Seq<char>>,
    src: Fields,
    skip_empty_object: bool,
)
    requires
        markers_only(acc, skip_empty_object),
    ensures
        markers_only(flatten_at(acc, prefix, src, skip_empty_object), skip_empty_object),
    decreases fields_height(src), src.len(), 1int,
{
    if prefix is Some && !skip_empty_object && src.len() == 0 {
        lemma_flat_insert_markers(acc, prefix->0, Node::Obj(Seq::empty()), skip_empty_object);
    } else {
        lemma_flatten_fields_markers(acc, prefix, src, skip_empty_object);
    }
}

/// The walk behind the marker invariant: field by field.
pub proof fn lemma_flatten_fields_markers(
    acc: Fields,
    prefix: Option<Seq<char>>,
    src: Fields,
    skip_empty_object: bool,
)
    requires
        markers_only(acc, skip_empty_object),
    ensures
        markers_only(flatten_fields(acc, prefix, src, skip_empty_object), skip_empty_object),
    decreases fields_height(src), src.len(), 0int,
{
    if src.len() > 0 {
        let key = joined_key(prefix, src[0].0);
        assert(fields_height(src) >= node_height(src[0].1));
        assert(fields_height(src) >= fields_height(src.subrange(1, src.len() as int)));
        match src[0].1 {
            Node::Obj(inner) => {
                assert(node_height(src[0].1) == 1 + fields_height(inner));
                lemma_flatten_at_markers(acc, Option::Some(key), inner, skip_empty_object);
            },
            _ => {
                lemma_flat_insert_markers(acc, key, src[0].1, skip_empty_object);
            },
        }
        lemma_flatten_fields_markers(
            match src[0].1 {
                Node::Obj(inner) => flatten_at(acc, Option::Some(key), inner, skip_empty_object),
                _ => flat_insert(acc, key, src[0].1),
            },
            prefix,
            src.subrange(1, src.len() as int),
            skip_empty_object,
        );
    }
}

/// The model of an optional prefix string.
pub open spec fn prefix_model(p: Option<String>) -> Option<Seq<char>> {
    match p {
        Option::None => Option::None,
        Option::Some(s) => Option::Some(s@),
    }
}

/// Builds the dotted path of `field` under `prefix`.
fn joined_key_exec(prefix: &Option<String>, field: &String) -> (k: String)
    ensures
        k@ == joined_key(prefix_model(*prefix), field@),
{
    match prefix {
        Option::None => field.clone(),
        Option::Some(p) => {
            let mut k = p.clone();
            k.append(".");
            k.append(field.as_str());
            proof {
                reveal_strlit(".");
                assert(k@ =~= p@ + seq!['.'] + field@);
            }
            k
        },
    }
}

/// Inserts under the ordered-map update rule: an existing key keeps its
/// position and has its value replaced, a new key goes to the end.
fn map_insert(target: &mut Vec<(String, Value)>, key: String, val: Value)
    ensures
        entries_model(final(target)@) == flat_insert(
            entries_model(old(target)@),
            key@,
            val_model(val),
        ),
{
    let n = target.len();
    let mut j: usize = 0;
    while j < n && target[j].0 != key
        invariant
            n == target@.len(),
            target@ == old(target)@,
            0 <= j <= n,
            forall|jj: int| 0 <= jj < j ==> (#[trigger] target@[jj]).0@ != key@,
        decreases n - j,
    {
        j += 1;
    }
    proof {
        lemma_entries_model(target@);
        lemma_key_index(entries_model(target@), key@);
    }
    let ghost pre = entries_model(target@);
    let ghost ki = key_index(pre, key@);
    if j < n {
        proof {
            assert(pre[j as int].0 == key@);
            assert(ki == j) by {
                if ki < j as int {
                    assert(pre[ki].0 == key@);
                }
                if ki > j as int {
                    assert(pre[j as int].0 != key@);
                }
            }
        }
        let _ = target.remove(j);
        target.insert(j, (key, val));
        proof {
            lemma_entries_model(target@);
            assert(entries_model(target@) =~= pre.update(j as int, (key@, val_model(val))))
                by {
                assert forall|t: int| 0 <= t < target@.len() implies entries_model(target@)[t]
                    == pre.update(j as int, (key@, val_model(val)))[t] by {
                    lemma_entries_model(old(target)@);
                    if t != j as int {
                        assert(target@[t] == old(target)@[t]);
                    }
                }
            }
        }
    } else {
        target.push((key, val));
        proof {
            lemma_entries_model(target@);
            lemma_entries_model(old(target)@);
            assert(entries_model(target@) =~= pre.push((key@, val_model(val))));
        }
    }
}

/// The depth-first walk: adds the flattening of `source` under `parent_field`
/// to `target`.
fn flatten_map_rec(
    target: &mut Vec<(String, Value)>,
    parent_field: Option<String>,
    source: &Vec<(String, Value)>,
    skip_empty_object: bool,
)
    ensures
        entries_model(final(target)@) == flatten_at(
            entries_model(old(target)@),
            prefix_model(parent_field),
            entries_model(source@),
            skip_empty_object,
        ),
    decreases fields_height(entries_model(source@)),
{
    proof {
        lemma_entries_model(source@);
    }
    if !skip_empty_object && source.len() == 0 {
        if let Option::Some(pf) = parent_field {
            proof {
                assert(entries_model(Seq::<(String, Value)>::empty()) =~= Seq::empty());
            }
            map_insert(target, pf, Value::Object(Vec::new()));
            return ;
        }
    }
    let ghost src = entries_model(source@);
    let ghost pm = prefix_model(parent_field);
    let ghost total = flatten_at(entries_model(old(target)@), pm, src, skip_empty_object);
    proof {
        assert(total == flatten_fields(entries_model(old(target)@), pm, src, skip_empty_object));
        assert(src.subrange(0, src.len() as int) =~= src);
    }
    let n = source.len();
    let mut i: usize = 0;
    while i < n
        invariant
            n == source@.len(),
            src == entries_model(source@),
            pm == prefix_model(parent_field),
            0 <= i <= n,
            flatten_fields(
                entries_model(target@),
                pm,
                src.subrange(i as int, n as int),
                skip_empty_object,
            ) == total,
        decreases n - i,
    {
        proof {
            lemma_entries_model(source@);
        }
        let ghost rem = src.subrange(i as int, n as int);
        let ghost acc0 = entries_model(target@);
        let key = joined_key_exec(&parent_field, &source[i].0);
        proof {
            assert(rem[0] == src[i as int]);
            assert(key@ == joined_key(pm, rem[0].0));
        }
        match &source[i].1 {
            Value::Object(inner) => {
                proof {
                    lemma_fields_height_elem(src, i as int);
                    assert(src[i as int].1 == Node::Obj(entries_model(inner@)));
                    assert(node_height(src[i as int].1) == 1 + fields_height(
                        entries_model(inner@),
                    ));
                }
                flatten_map_rec(target, Option::Some(key), inner, skip_empty_object);
            },
            other => {
                let dup = other.duplicate();
                map_insert(target, key, dup);
            },
        }
        proof {
            assert(rem.subrange(1, rem.len() as int) =~= src.subrange(i as int + 1, n as int));
        }
        i += 1;
    }
    proof {
        assert(src.subrange(n as int, n as int) =~= Seq::empty());
    }
}

/// Flattens a whole object into its dotted-key mapping.
pub(crate) fn flatten_map(source: &Vec<(String, Value)>, skip_empty_object: bool) -> (r: Vec<
    (String, Value),
>)
    ensures
        entries_model(r@) == flatten_at(
            Seq::empty(),
            Option::None,
            entries_model(source@),
            skip_empty_object,
        ),
{
    let mut target: Vec<(String, Value)> = Vec::new();
    proof {
        assert(entries_model(target@) =~= Seq::empty());
    }
    flatten_map_rec(&mut target, Option::None, source, skip_empty_object);
    target
}

} // verus!
