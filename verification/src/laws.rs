//! The guarantees this library states about itself, each proved against the
//! model-level definitions in [`crate::flatten`] and [`crate::format`].

use vstd::prelude::*;
use crate::error::Error;
use crate::model::{Node, Fields, fields_height, node_height, elems_height};
use crate::flatten::{flatten_at, flatten_fields, flat_insert, key_index, joined_key,
    lemma_key_index, markers_only, lemma_flatten_at_markers, lemma_flatten_at_height};
use crate::format::{fmt_entry, fmt_elem, fmt_elems, fmt_entries, fmt_obj_inline, arr_text,
    spec_to_string};
use crate::options::{Cfg, inline_cfg};
use crate::text::{eq_text, comma_sep, line_sep, text_value, escaped, has_newline, join_texts,
    sum_lens};

verus! {

/// With `skip_empty_string` on, an empty string contributes nothing: its
/// entry is dropped at the top level, and its element is dropped inside an
/// array at either nesting depth.
pub proof fn lemma_skip_empty_string(key: Seq<char>, nested: bool, c: Cfg)
    requires
        c.skip_empty_string,
    ensures
        fmt_entry(key, Node::Text(Seq::empty()), c) == Result::<
            Option<Seq<char>>,
            Error,
        >::Ok(Option::None),
        fmt_elem(Node::Text(Seq::empty()), nested, c) == Result::<
            Option<Seq<char>>,
            Error,
        >::Ok(Option::None),
{
}

/// A string holding a newline renders as a triple-quoted block around the raw
/// text; any other string renders quoted, with its double quotes escaped.
pub proof fn lemma_string_rendering(key: Seq<char>, s: Seq<char>, c: Cfg)
    requires
        !(c.skip_empty_string && s.len() == 0),
    ensures
        has_newline(s) ==> fmt_entry(key, Node::Text(s), c) == Result::<
            Option<Seq<char>>,
            Error,
        >::Ok(Option::Some(key + eq_text() + "\"\"\"\n"@ + s + "\"\"\""@)),
        !has_newline(s) ==> fmt_entry(key, Node::Text(s), c) == Result::<
            Option<Seq<char>>,
            Error,
        >::Ok(Option::Some(key + eq_text() + "\""@ + escaped(s) + "\""@)),
{
    if has_newline(s) {
        assert(key + eq_text() + text_value(s) =~= key + eq_text() + "\"\"\"\n"@ + s
            + "\"\"\""@);
    } else {
        assert(key + eq_text() + text_value(s) =~= key + eq_text() + "\""@ + escaped(s)
            + "\""@);
    }
}

/// An array within the character budget (or forced inline) renders on one
/// line; one over the budget renders one element per line behind the tab
/// token, with the closing bracket on its own line.
pub proof fn lemma_array_layout(parts: Seq<Seq<char>>, c: Cfg)
    ensures
        c.inline_array || sum_lens(parts) <= c.max_inline_array_length ==> arr_text(parts, c)
            == "["@ + join_texts(parts, comma_sep()) + "]"@,
        !c.inline_array && sum_lens(parts) > c.max_inline_array_length ==> arr_text(parts, c)
            == "[\n"@ + c.tab + join_texts(parts, ",\n"@ + c.tab) + "\n]"@,
{
}

/// With `skip_empty_object` off, a nested empty object leaves one marker
/// under its own dotted path, and that marker renders as `key = {}`.
pub proof fn lemma_empty_object_kept(acc: Fields, path: Seq<char>, c: Cfg)
    requires
        !c.skip_empty_object,
    ensures
        flatten_at(acc, Option::Some(path), Seq::empty(), false) == flat_insert(
            acc,
            path,
            Node::Obj(Seq::empty()),
        ),
        fmt_entry(path, Node::Obj(Seq::empty()), c) == Result::<
            Option<Seq<char>>,
            Error,
        >::Ok(Option::Some(path + eq_text() + "{}"@)),
{
}

/// With `skip_empty_object` on, no object of any kind survives flattening:
/// no `key = {}` line can appear.
pub proof fn lemma_empty_object_skipped(fields: Fields)
    ensures
        forall|i: int|
            0 <= i < flatten_at(Seq::empty(), Option::None, fields, true).len() ==> !((
            #[trigger] flatten_at(Seq::empty(), Option::None, fields, true)[i]).1 is Obj),
{
    let flat = flatten_at(Seq::empty(), Option::None, fields, true);
    assert(markers_only(Seq::empty(), true));
    lemma_flatten_at_markers(Seq::empty(), Option::None, fields, true);
    assert forall|i: int| 0 <= i < flat.len() implies !((#[trigger] flat[i]).1 is Obj) by {
        if flat[i].1 is Obj {
            assert(flat[i].1 matches Node::Obj(inner) ==> !true && inner.len() == 0);
        }
    }
}

/// Entries of a flattened run render without the internal object defect.
proof fn lemma_entries_err(entries: Fields, c: Cfg, sep: Seq<char>, out: Seq<char>, first: bool)
    requires
        markers_only(entries, c.skip_empty_object),
    ensures
        fmt_entries(entries, c, sep, out, first) matches Result::Err(e) ==> e
            == Error::TripleNestedArray,
    decreases fields_height(entries), 3int, entries.len(),
{
    if entries.len() > 0 {
        let rest = entries.subrange(1, entries.len() as int);
        assert(fields_height(entries) >= node_height(entries[0].1));
        assert(fields_height(entries) >= fields_height(rest));
        assert(entries[0].1 matches Node::Obj(inner) ==> !c.skip_empty_object && inner.len()
            == 0);
        lemma_entry_err(entries[0].0, entries[0].1, c);
        assert(markers_only(rest, c.skip_empty_object)) by {
            assert forall|i: int|
                0 <= i < rest.len() implies ((#[trigger] rest[i]).1 matches Node::Obj(inner)
                ==> !c.skip_empty_object && inner.len() == 0) by {
                assert(rest[i] == entries[i + 1]);
            }
        }
        match fmt_entry(entries[0].0, entries[0].1, c) {
            Result::Err(e) => {},
            Result::Ok(Option::None) => {
                lemma_entries_err(rest, c, sep, out, first);
            },
            Result::Ok(Option::Some(line)) => {
                lemma_entries_err(
                    rest,
                    c,
                    sep,
                    if first {
                        line
                    } else {
                        out + sep + line
                    },
                    false,
                );
            },
        }
    }
}

/// One flattened entry renders without the internal object defect.
proof fn lemma_entry_err(key: Seq<char>, n: Node, c: Cfg)
    requires
        n matches Node::Obj(inner) ==> !c.skip_empty_object && inner.len() == 0,
    ensures
        fmt_entry(key, n, c) matches Result::Err(e) ==> e == Error::TripleNestedArray,
    decreases node_height(n), 2int, 0int,
{
    if let Node::Arr(elems) = n {
        assert(node_height(n) == 1 + elems_height(elems));
        lemma_elems_err(elems, false, c, Seq::empty());
    }
}

/// Array elements render without the internal object defect.
proof fn lemma_elems_err(elems: Seq<Node>, nested: bool, c: Cfg, acc: Seq<Seq<char>>)
    ensures
        fmt_elems(elems, nested, c, acc) matches Result::Err(e) ==> e
            == Error::TripleNestedArray,
    decreases elems_height(elems), 1int, elems.len(),
{
    if elems.len() > 0 {
        assert(elems_height(elems) >= node_height(elems[0]));
        assert(elems_height(elems) >= elems_height(elems.subrange(1, elems.len() as int)));
        lemma_elem_err(elems[0], nested, c);
        match fmt_elem(elems[0], nested, c) {
            Result::Err(e) => {},
            Result::Ok(Option::None) => {
                lemma_elems_err(elems.subrange(1, elems.len() as int), nested, c, acc);
            },
            Result::Ok(Option::Some(t)) => {
                lemma_elems_err(elems.subrange(1, elems.len() as int), nested, c, acc.push(t));
            },
        }
    }
}

/// One array element renders without the internal object defect.
proof fn lemma_elem_err(n: Node, nested: bool, c: Cfg)
    ensures
        fmt_elem(n, nested, c) matches Result::Err(e) ==> e == Error::TripleNestedArray,
    decreases node_height(n), 0int, 0int,
{
    match n {
        Node::Obj(fields) => {
            assert(node_height(n) == 1 + fields_height(fields));
            lemma_obj_inline_err(fields, c);
        },
        Node::Arr(inner) => {
            if !nested {
                assert(node_height(n) == 1 + elems_height(inner));
                lemma_elems_err(inner, true, c, Seq::empty());
            }
        },
        _ => {},
    }
}

/// An object rendered inline inside an array flattens afresh, so it renders
/// without the internal object defect whatever it holds.
proof fn lemma_obj_inline_err(fields: Fields, c: Cfg)
    ensures
        fmt_obj_inline(fields, c) matches Result::Err(e) ==> e == Error::TripleNestedArray,
    decreases fields_height(fields), 4int, 0int,
{
    let flat = flatten_at(Seq::empty(), Option::None, fields, c.skip_empty_object);
    assert(markers_only(Seq::empty(), c.skip_empty_object));
    lemma_flatten_at_markers(Seq::empty(), Option::None, fields, c.skip_empty_object);
    lemma_flatten_at_height(Seq::empty(), Option::None, fields, c.skip_empty_object);
    assert(fields_height(Seq::<(Seq<char>, Node)>::empty()) == 0);
    assert(fields_height(flat) <= fields_height(fields));
    lemma_entries_err(flat, inline_cfg(c), comma_sep(), Seq::empty(), true);
}

/// A formatting call fails only on over-nested arrays: the internal
/// defect-class error can never surface through [`crate::to_string`],
/// whatever the input tree and options.
pub proof fn lemma_error_only_nesting(fields: Fields, c: Cfg)
    ensures
        spec_to_string(fields, c) matches Result::Err(e) ==> e == Error::TripleNestedArray,
{
    let flat = flatten_at(Seq::empty(), Option::None, fields, c.skip_empty_object);
    assert(markers_only(Seq::empty(), c.skip_empty_object));
    lemma_flatten_at_markers(Seq::empty(), Option::None, fields, c.skip_empty_object);
    lemma_entries_err(flat, c, line_sep(), Seq::empty(), true);
}

/// Whether a sequence of nodes holds an array among its elements.
pub open spec fn holds_array(elems: Seq<Node>) -> bool {
    exists|i: int| 0 <= i < elems.len() && elems[i] is Arr
}

/// Whether some element of an array is itself an array with an array inside:
/// three levels of nesting.
pub open spec fn holds_deep_array(elems: Seq<Node>) -> bool {
    exists|i: int|
        0 <= i < elems.len() && ((#[trigger] elems[i]) matches Node::Arr(inner)
            && holds_array(inner))
}

/// Rendering the elements of an already-nested array fails as soon as one of
/// them is an array again.
proof fn lemma_nested_elems_err(elems: Seq<Node>, c: Cfg, acc: Seq<Seq<char>>)
    requires
        holds_array(elems),
    ensures
        fmt_elems(elems, true, c, acc) is Err,
    decreases elems.len(),
{
    let w = choose|i: int| 0 <= i < elems.len() && elems[i] is Arr;
    if !(elems[0] is Arr) {
        let rest = elems.subrange(1, elems.len() as int);
        assert(rest[w - 1] == elems[w]);
        match fmt_elem(elems[0], true, c) {
            Result::Err(e) => {},
            Result::Ok(Option::None) => {
                lemma_nested_elems_err(rest, c, acc);
            },
            Result::Ok(Option::Some(t)) => {
                lemma_nested_elems_err(rest, c, acc.push(t));
            },
        }
    }
}

/// Rendering top-level array elements fails as soon as one of them is a
/// doubly-nested array.
proof fn lemma_deep_elems_err(elems: Seq<Node>, c: Cfg, acc: Seq<Seq<char>>)
    requires
        holds_deep_array(elems),
    ensures
        fmt_elems(elems, false, c, acc) is Err,
    decreases elems.len(),
{
    let w = choose|i: int|
        0 <= i < elems.len() && ((#[trigger] elems[i]) matches Node::Arr(inner)
            && holds_array(inner));
    let deep0 = elems[0] matches Node::Arr(inner) && holds_array(inner);
    if deep0 {
        if let Node::Arr(inner) = elems[0] {
            lemma_nested_elems_err(inner, c, Seq::empty());
        }
    } else {
        let rest = elems.subrange(1, elems.len() as int);
        assert(rest[w - 1] == elems[w]);
        match fmt_elem(elems[0], false, c) {
            Result::Err(e) => {},
            Result::Ok(Option::None) => {
                lemma_deep_elems_err(rest, c, acc);
            },
            Result::Ok(Option::Some(t)) => {
                lemma_deep_elems_err(rest, c, acc.push(t));
            },
        }
    }
}

/// Three levels of array nesting are over the supported ceiling: an entry
/// carrying such an array always reports exactly `TripleNestedArray` —
/// never a silent drop of the data.
pub proof fn lemma_triple_nested_entry(key: Seq<char>, elems: Seq<Node>, c: Cfg)
    requires
        holds_deep_array(elems),
    ensures
        fmt_entry(key, Node::Arr(elems), c) == Result::<Option<Seq<char>>, Error>::Err(
            Error::TripleNestedArray,
        ),
{
    let w = choose|i: int|
        0 <= i < elems.len() && ((#[trigger] elems[i]) matches Node::Arr(inner)
            && holds_array(inner));
    assert(elems.len() > 0);
    lemma_deep_elems_err(elems, c, Seq::empty());
    lemma_elems_err(elems, false, c, Seq::empty());
}

/// The nesting error surfaces through the whole document: a flattened
/// mapping holding a triply-nested array makes the run fail.
proof fn lemma_entries_deep_err(
    entries: Fields,
    c: Cfg,
    sep: Seq<char>,
    out: Seq<char>,
    first: bool,
    i: int,
)
    requires
        0 <= i < entries.len(),
        entries[i].1 matches Node::Arr(elems) && holds_deep_array(elems),
    ensures
        fmt_entries(entries, c, sep, out, first) is Err,
    decreases entries.len(),
{
    let rest = entries.subrange(1, entries.len() as int);
    if i == 0 {
        if let Node::Arr(elems) = entries[0].1 {
            lemma_triple_nested_entry(entries[0].0, elems, c);
        }
    } else {
        assert(rest[i - 1] == entries[i]);
        match fmt_entry(entries[0].0, entries[0].1, c) {
            Result::Err(e) => {},
            Result::Ok(Option::None) => {
                lemma_entries_deep_err(rest, c, sep, out, first, i - 1);
            },
            Result::Ok(Option::Some(line)) => {
                lemma_entries_deep_err(
                    rest,
                    c,
                    sep,
                    if first {
                        line
                    } else {
                        out + sep + line
                    },
                    false,
                    i - 1,
                );
            },
        }
    }
}

/// A document whose flattened mapping holds a triply-nested array fails, and
/// fails with exactly `TripleNestedArray`.
pub proof fn lemma_triple_nested_document(fields: Fields, c: Cfg, i: int)
    requires
        0 <= i < flatten_at(Seq::empty(), Option::None, fields, c.skip_empty_object).len(),
        flatten_at(Seq::empty(), Option::None, fields, c.skip_empty_object)[i].1 matches
            Node::Arr(elems) && holds_deep_array(elems),
    ensures
        spec_to_string(fields, c) == Result::<Seq<char>, Error>::Err(Error::TripleNestedArray),
{
    let flat = flatten_at(Seq::empty(), Option::None, fields, c.skip_empty_object);
    lemma_entries_deep_err(flat, c, line_sep(), Seq::empty(), true, i);
    lemma_error_only_nesting(fields, c);
}

/// The depth-first pre-order entries of an object tree: every leaf under its
/// dotted path, in walk order, with no de-duplication.
pub open spec fn preorder_entries(prefix: Option<Seq<char>>, src: Fields) -> Fields
    decreases fields_height(src), src.len(),
    via preorder_entries_dec
{
    if src.len() == 0 {
        Seq::empty()
    } else {
        let key = joined_key(prefix, src[0].0);
        let head = match src[0].1 {
            Node::Obj(inner) => preorder_entries(Option::Some(key), inner),
            _ => seq![(key, src[0].1)],
        };
        head + preorder_entries(prefix, src.subrange(1, src.len() as int))
    }
}

#[via_fn]
proof fn preorder_entries_dec(prefix: Option<Seq<char>>, src: Fields) {
    if src.len() > 0 {
        assert(fields_height(src) >= node_height(src[0].1));
        assert(fields_height(src) >= fields_height(src.subrange(1, src.len() as int)));
        if let Node::Obj(inner) = src[0].1 {
            assert(node_height(src[0].1) == 1 + fields_height(inner));
        }
    }
}

/// No two entries share a key.
pub open spec fn keys_unique(entries: Fields) -> bool {
    forall|i: int, j: int|
        0 <= i < j < entries.len() ==> (#[trigger] entries[i]).0 != (#[trigger] entries[j]).0
}

/// No key of `more` occurs in `acc`.
pub open spec fn keys_fresh(acc: Fields, more: Fields) -> bool {
    forall|i: int, j: int|
        0 <= i < acc.len() && 0 <= j < more.len() ==> (#[trigger] acc[i]).0 != (
        #[trigger] more[j]).0
}

/// Whether every object below the node is non-empty, so that nothing
/// vanishes or leaves a marker during flattening.
pub open spec fn node_solid(n: Node) -> bool
    decreases n,
{
    match n {
        Node::Obj(fields) => fields.len() > 0 && fields_solid(fields),
        _ => true,
    }
}

/// [`node_solid`], over every value of an object.
pub open spec fn fields_solid(src: Fields) -> bool
    decreases src,
{
    if src.len() == 0 {
        true
    } else {
        node_solid(src[0].1) && fields_solid(src.subrange(1, src.len() as int))
    }
}

/// Under distinct dotted paths and no empty objects, flattening appends
/// exactly the pre-order entries.
proof fn lemma_flatten_is_preorder(
    acc: Fields,
    prefix: Option<Seq<char>>,
    src: Fields,
    skip_empty_object: bool,
)
    requires
        fields_solid(src),
        keys_unique(preorder_entries(prefix, src)),
        keys_fresh(acc, preorder_entries(prefix, src)),
    ensures
        flatten_fields(acc, prefix, src, skip_empty_object) == acc + preorder_entries(
            prefix,
            src,
        ),
    decreases fields_height(src), src.len(),
{
    let pre = preorder_entries(prefix, src);
    if src.len() == 0 {
        assert(acc + pre =~= acc);
    } else {
        let key = joined_key(prefix, src[0].0);
        let rest = src.subrange(1, src.len() as int);
        let head = match src[0].1 {
            Node::Obj(inner) => preorder_entries(Option::Some(key), inner),
            _ => seq![(key, src[0].1)],
        };
        let tail = preorder_entries(prefix, rest);
        assert(pre == head + tail);
        assert(fields_height(src) >= node_height(src[0].1));
        assert(fields_height(src) >= fields_height(rest));
        assert forall|i: int| 0 <= i < head.len() implies #[trigger] head[i] == pre[i] by {}
        assert forall|j: int|
            0 <= j < tail.len() implies #[trigger] tail[j] == pre[head.len() + j] by {}
        assert(keys_unique(head));
        assert(keys_unique(tail));
        assert(keys_fresh(acc, head));
        assert(keys_fresh(acc, tail));
        assert(keys_fresh(head, tail)) by {
            assert forall|i: int, j: int|
                0 <= i < head.len() && 0 <= j < tail.len() implies (#[trigger] head[i]).0 != (
                #[trigger] tail[j]).0 by {
                assert(head[i] == pre[i]);
                assert(tail[j] == pre[head.len() + j]);
            }
        }
        let acc2 = match src[0].1 {
            Node::Obj(inner) => flatten_at(acc, Option::Some(key), inner, skip_empty_object),
            _ => flat_insert(acc, key, src[0].1),
        };
        match src[0].1 {
            Node::Obj(inner) => {
                assert(node_solid(src[0].1));
                assert(inner.len() > 0 && fields_solid(inner));
                assert(node_height(src[0].1) == 1 + fields_height(inner));
                lemma_flatten_is_preorder(acc, Option::Some(key), inner, skip_empty_object);
                assert(acc2 == acc + head);
            },
            _ => {
                lemma_key_index(acc, key);
                assert(head[0] == (key, src[0].1));
                if key_index(acc, key) >= 0 {
                    assert(acc[key_index(acc, key)].0 == head[0].0);
                    assert(false);
                }
                assert(acc2 =~= acc + head);
            },
        }
        assert(keys_fresh(acc2, tail)) by {
            assert forall|i: int, j: int|
                0 <= i < acc2.len() && 0 <= j < tail.len() implies (#[trigger] acc2[i]).0 != (
                #[trigger] tail[j]).0 by {
                if i < acc.len() {
                    assert(acc2[i] == acc[i]);
                } else {
                    assert(acc2[i] == head[i - acc.len()]);
                }
            }
        }
        lemma_flatten_is_preorder(acc2, prefix, rest, skip_empty_object);
        assert((acc + head) + tail =~= acc + (head + tail));
    }
}

/// With no empty objects below and all dotted paths distinct, flattening an
/// object yields exactly its depth-first pre-order walk: one entry per leaf,
/// in walk order, under the joined ancestor field names.
pub proof fn lemma_flatten_preorder(fields: Fields, skip_empty_object: bool)
    requires
        fields_solid(fields),
        keys_unique(preorder_entries(Option::None, fields)),
    ensures
        flatten_at(Seq::empty(), Option::None, fields, skip_empty_object) == preorder_entries(
            Option::None,
            fields,
        ),
{
    lemma_flatten_is_preorder(Seq::empty(), Option::None, fields, skip_empty_object);
    assert(Seq::empty() + preorder_entries(Option::None, fields) =~= preorder_entries(
        Option::None,
        fields,
    ));
}

/// The pre-order walk of an already-flat object is the object itself.
proof fn lemma_preorder_flat(fields: Fields)
    requires
        forall|i: int| 0 <= i < fields.len() ==> !((#[trigger] fields[i]).1 is Obj),
    ensures
        preorder_entries(Option::None, fields) == fields,
    decreases fields.len(),
{
    if fields.len() > 0 {
        let rest = fields.subrange(1, fields.len() as int);
        assert forall|i: int| 0 <= i < rest.len() implies !((#[trigger] rest[i]).1 is Obj) by {
            assert(rest[i] == fields[i + 1]);
        }
        lemma_preorder_flat(rest);
        assert((fields[0].0, fields[0].1) == fields[0]);
        assert(seq![(fields[0].0, fields[0].1)] + rest =~= fields);
    }
}

/// Flattening is the identity on an already-flat object: one with no object
/// values flattens to itself, key for key and in order.
pub proof fn lemma_flatten_flat_identity(fields: Fields, skip_empty_object: bool)
    requires
        forall|i: int| 0 <= i < fields.len() ==> !((#[trigger] fields[i]).1 is Obj),
        keys_unique(fields),
    ensures
        flatten_at(Seq::empty(), Option::None, fields, skip_empty_object) == fields,
{
    lemma_preorder_flat(fields);
    assert(fields_solid(fields)) by {
        lemma_no_obj_solid(fields);
    }
    lemma_flatten_preorder(fields, skip_empty_object);
}

/// The rendered line of each entry of a flattened run, in order; an entry
/// that renders to nothing contributes no line.
pub open spec fn entry_lines(entries: Fields, c: Cfg) -> Seq<Seq<char>>
    decreases entries.len(),
{
    if entries.len() == 0 {
        Seq::empty()
    } else {
        let head = match fmt_entry(entries[0].0, entries[0].1, c) {
            Result::Ok(Option::Some(line)) => seq![line],
            _ => Seq::empty(),
        };
        head + entry_lines(entries.subrange(1, entries.len() as int), c)
    }
}

/// Joining from a first text onward: the separator stands between texts only.
proof fn lemma_join_cons(x: Seq<char>, ls: Seq<Seq<char>>, sep: Seq<char>)
    ensures
        join_texts(seq![x] + ls, sep) == if ls.len() == 0 {
            x
        } else {
            x + sep + join_texts(ls, sep)
        },
    decreases ls.len(),
{
    let u = seq![x] + ls;
    if ls.len() == 0 {
        assert(u =~= seq![x]);
    } else {
        assert(u.drop_last() =~= seq![x] + ls.drop_last());
        assert(u.last() == ls.last());
        lemma_join_cons(x, ls.drop_last(), sep);
        if ls.len() == 1 {
            assert(join_texts(ls, sep) == ls[0]);
            assert(join_texts(u, sep) =~= x + sep + join_texts(ls, sep));
        } else {
            assert(join_texts(u, sep) =~= x + sep + join_texts(ls, sep));
        }
    }
}

/// A successful run renders exactly its lines, joined by the separator.
proof fn lemma_entries_joined(entries: Fields, c: Cfg, sep: Seq<char>, out: Seq<char>, first: bool)
    requires
        first ==> out == Seq::<char>::empty(),
    ensures
        fmt_entries(entries, c, sep, out, first) matches Result::Ok(doc) ==> doc == (if first {
            join_texts(entry_lines(entries, c), sep)
        } else if entry_lines(entries, c).len() == 0 {
            out
        } else {
            out + sep + join_texts(entry_lines(entries, c), sep)
        }),
    decreases entries.len(),
{
    if entries.len() > 0 {
        let rest = entries.subrange(1, entries.len() as int);
        match fmt_entry(entries[0].0, entries[0].1, c) {
            Result::Err(e) => {},
            Result::Ok(Option::None) => {
                lemma_entries_joined(rest, c, sep, out, first);
                assert(entry_lines(entries, c) =~= entry_lines(rest, c));
            },
            Result::Ok(Option::Some(line)) => {
                assert(entry_lines(entries, c) == seq![line] + entry_lines(rest, c));
                lemma_join_cons(line, entry_lines(rest, c), sep);
                if first {
                    lemma_entries_joined(rest, c, sep, line, false);
                } else {
                    lemma_entries_joined(rest, c, sep, out + sep + line, false);
                    if entry_lines(rest, c).len() > 0 {
                        assert((out + sep + line) + sep + join_texts(entry_lines(rest, c), sep)
                            =~= out + sep + (line + sep + join_texts(entry_lines(rest, c), sep)));
                    }
                }
            },
        }
    }
}

/// A document that succeeds is exactly the lines of its flattened entries,
/// in their order, joined by single newlines: a skipped entry leaves neither
/// a line nor a stray separator behind.
pub proof fn lemma_document_lines(fields: Fields, c: Cfg)
    ensures
        spec_to_string(fields, c) matches Result::Ok(doc) ==> doc == join_texts(
            entry_lines(flatten_at(Seq::empty(), Option::None, fields, c.skip_empty_object), c),
            line_sep(),
        ),
{
    let flat = flatten_at(Seq::empty(), Option::None, fields, c.skip_empty_object);
    lemma_entries_joined(flat, c, line_sep(), Seq::empty(), true);
}

/// With no empty objects below and all dotted paths distinct, a successful
/// document is the depth-first pre-order walk itself: one line per walked
/// leaf, under its joined ancestor path, in walk order.
pub proof fn lemma_preorder_document(fields: Fields, c: Cfg)
    requires
        fields_solid(fields),
        keys_unique(preorder_entries(Option::None, fields)),
    ensures
        spec_to_string(fields, c) matches Result::Ok(doc) ==> doc == join_texts(
            entry_lines(preorder_entries(Option::None, fields), c),
            line_sep(),
        ),
{
    lemma_flatten_preorder(fields, c.skip_empty_object);
    lemma_document_lines(fields, c);
}

/// An object with no object values is trivially solid.
proof fn lemma_no_obj_solid(fields: Fields)
    requires
        forall|i: int| 0 <= i < fields.len() ==> !((#[trigger] fields[i]).1 is Obj),
    ensures
        fields_solid(fields),
    decreases fields.len(),
{
    if fields.len() > 0 {
        let rest = fields.subrange(1, fields.len() as int);
        assert forall|i: int| 0 <= i < rest.len() implies !((#[trigger] rest[i]).1 is Obj) by {
            assert(rest[i] == fields[i + 1]);
        }
        lemma_no_obj_solid(rest);
        assert(!(fields[0].1 is Obj));
        assert(node_solid(fields[0].1));
    }
}

} // verus!
