//! The formatter: one `key = value` line (or multi-line block) per flattened
//! entry, and the full pipeline behind [`to_string`].

use vstd::prelude::*;
use vstd::string::StringExecFns;
use crate::error::Error;
use crate::model::{Node, Fields, node_height, elems_height, fields_height, val_model,
    vals_model, entries_model, lemma_vals_model, lemma_entries_model, lemma_elems_height_elem,
    lemma_fields_height_elem};
use crate::flatten::{flatten_at, flatten_map, lemma_flatten_at_height};
use crate::options::{Options, Cfg, inline_cfg};
use crate::text::{eq_text, comma_sep, line_sep, bool_text, escaped, text_value, join_texts,
    sum_lens, texts_model, append_text_value, append_escaped, append_join, fits_inline};
use crate::value::Value;

verus! {

/// The rendering of one already-flattened entry: nothing when the entry is
/// skipped, the full `key = value` text otherwise, an error for a non-empty
/// object or an over-nested array.
pub open spec fn fmt_entry(key: Seq<char>, n: Node, c: Cfg) -> Result<
    Option<Seq<char>>,
    Error,
>
    decreases node_height(n), 2int, 0int,
    via fmt_entry_dec
{
    match n {
        Node::Null => Result::Ok(Option::None),
        Node::Bool(b) => Result::Ok(Option::Some(key + eq_text() + bool_text(b))),
        Node::Num(t) => Result::Ok(Option::Some(key + eq_text() + t)),
        Node::Text(s) => if c.skip_empty_string && s.len() == 0 {
            Result::Ok(Option::None)
        } else {
            Result::Ok(Option::Some(key + eq_text() + text_value(s)))
        },
        Node::Arr(elems) => if elems.len() == 0 {
            Result::Ok(Option::Some(key + eq_text() + "[]"@))
        } else {
            match fmt_elems(elems, false, c, Seq::empty()) {
                Result::Err(e) => Result::Err(e),
                Result::Ok(parts) => Result::Ok(
                    Option::Some(key + eq_text() + arr_text(parts, c)),
                ),
            }
        },
        Node::Obj(fields) => if fields.len() == 0 && !c.skip_empty_object {
            Result::Ok(Option::Some(key + eq_text() + "{}"@))
        } else {
            Result::Err(Error::ObjectReached)
        },
    }
}

#[via_fn]
proof fn fmt_entry_dec(key: Seq<char>, n: Node, c: Cfg) {
    if let Node::Arr(elems) = n {
        assert(node_height(n) == 1 + elems_height(elems));
    }
}

/// An array body: inline when forced or within the character budget,
/// otherwise one element per line behind the tab token.
pub open spec fn arr_text(parts: Seq<Seq<char>>, c: Cfg) -> Seq<char> {
    if c.inline_array || sum_lens(parts) <= c.max_inline_array_length {
        "["@ + join_texts(parts, comma_sep()) + "]"@
    } else {
        "[\n"@ + c.tab + join_texts(parts, ",\n"@ + c.tab) + "\n]"@
    }
}

/// The rendered texts of an array's elements, in order; skipped elements
/// contribute nothing.
pub open spec fn fmt_elems(elems: Seq<Node>, nested: bool, c: Cfg, acc: Seq<Seq<char>>) -> Result<
    Seq<Seq<char>>,
    Error,
>
    decreases elems_height(elems), 1int, elems.len(),
    via fmt_elems_dec
{
    if elems.len() == 0 {
        Result::Ok(acc)
    } else {
        match fmt_elem(elems[0], nested, c) {
            Result::Err(e) => Result::Err(e),
            Result::Ok(Option::None) => fmt_elems(
                elems.subrange(1, elems.len() as int),
                nested,
                c,
                acc,
            ),
            Result::Ok(Option::Some(t)) => fmt_elems(
                elems.subrange(1, elems.len() as int),
                nested,
                c,
                acc.push(t),
            ),
        }
    }
}

#[via_fn]
proof fn fmt_elems_dec(elems: Seq<Node>, nested: bool, c: Cfg, acc: Seq<Seq<char>>) {
    if elems.len() > 0 {
        assert(elems_height(elems) >= node_height(elems[0]));
        assert(elems_height(elems) >= elems_height(elems.subrange(1, elems.len() as int)));
    }
}

/// One array element's text. A nested array may hold one more level of
/// elements; a third level is the hard nesting error.
pub open spec fn fmt_elem(n: Node, nested: bool, c: Cfg) -> Result<Option<Seq<char>>, Error>
    decreases node_height(n), 0int, 0int,
    via fmt_elem_dec
{
    match n {
        Node::Null => Result::Ok(Option::None),
        Node::Bool(b) => Result::Ok(Option::Some(bool_text(b))),
        Node::Num(t) => Result::Ok(Option::Some(t)),
        Node::Text(s) => if c.skip_empty_string && s.len() == 0 {
            Result::Ok(Option::None)
        } else {
            Result::Ok(Option::Some("\""@ + escaped(s) + "\""@))
        },
        Node::Obj(fields) => match fmt_obj_inline(fields, c) {
            Result::Err(e) => Result::Err(e),
            Result::Ok(t) => Result::Ok(Option::Some(t)),
        },
        Node::Arr(inner) => if nested {
            Result::Err(Error::TripleNestedArray)
        } else {
            match fmt_elems(inner, true, c, Seq::empty()) {
                Result::Err(e) => Result::Err(e),
                Result::Ok(parts) => Result::Ok(
                    Option::Some("["@ + join_texts(parts, comma_sep()) + "]"@),
                ),
            }
        },
    }
}

#[via_fn]
proof fn fmt_elem_dec(n: Node, nested: bool, c: Cfg) {
    match n {
        Node::Obj(fields) => {
            assert(node_height(n) == 1 + fields_height(fields));
        },
        Node::Arr(inner) => {
            assert(node_height(n) == 1 + elems_height(inner));
        },
        _ => {},
    }
}

/// An object inside an array: its own flattening, rendered inline between
/// braces with arrays forced inline.
pub open spec fn fmt_obj_inline(fields: Fields, c: Cfg) -> Result<Seq<char>, Error>
    decreases fields_height(fields), 4int, 0int,
    via fmt_obj_inline_dec
{
    match fmt_entries(
        flatten_at(Seq::empty(), Option::None, fields, c.skip_empty_object),
        inline_cfg(c),
        comma_sep(),
        Seq::empty(),
        true,
    ) {
        Result::Err(e) => Result::Err(e),
        Result::Ok(body) => Result::Ok("{ "@ + body + " }"@),
    }
}

#[via_fn]
proof fn fmt_obj_inline_dec(fields: Fields, c: Cfg) {
    lemma_flatten_at_height(Seq::empty(), Option::None, fields, c.skip_empty_object);
    assert(fields_height(Seq::empty()) == 0);
    assert(fields_height(flatten_at(Seq::empty(), Option::None, fields, c.skip_empty_object))
        <= fields_height(fields));
}

/// The document text of a run of flattened entries: rendered entries joined
/// by the separator, skipped entries leaving neither line nor separator.
pub open spec fn fmt_entries(
    entries: Fields,
    c: Cfg,
    sep: Seq<char>,
    out: Seq<char>,
    first: bool,
) -> Result<Seq<char>, Error>
    decreases fields_height(entries), 3int, entries.len(),
    via fmt_entries_dec
{
    if entries.len() == 0 {
        Result::Ok(out)
    } else {
        match fmt_entry(entries[0].0, entries[0].1, c) {
            Result::Err(e) => Result::Err(e),
            Result::Ok(Option::None) => fmt_entries(
                entries.subrange(1, entries.len() as int),
                c,
                sep,
                out,
                first,
            ),
            Result::Ok(Option::Some(line)) => fmt_entries(
                entries.subrange(1, entries.len() as int),
                c,
                sep,
                if first {
                    line
                } else {
                    out + sep + line
                },
                false,
            ),
        }
    }
}

#[via_fn]
proof fn fmt_entries_dec(entries: Fields, c: Cfg, sep: Seq<char>, out: Seq<char>, first: bool) {
    if entries.len() > 0 {
        assert(fields_height(entries) >= node_height(entries[0].1));
        assert(fields_height(entries) >= fields_height(
            entries.subrange(1, entries.len() as int),
        ));
    }
}

/// The whole pipeline on a model object: flatten, then format line by line.
pub open spec fn spec_to_string(fields: Fields, c: Cfg) -> Result<Seq<char>, Error> {
    fmt_entries(
        flatten_at(Seq::empty(), Option::None, fields, c.skip_empty_object),
        c,
        line_sep(),
        Seq::empty(),
        true,
    )
}

/// Whether an executable line rendering matches its model rendering.
pub open spec fn line_matches(
    r: Result<Option<String>, Error>,
    s: Result<Option<Seq<char>>, Error>,
) -> bool {
    match (r, s) {
        (Result::Ok(Option::None), Result::Ok(Option::None)) => true,
        (Result::Ok(Option::Some(t)), Result::Ok(Option::Some(u))) => t@ == u,
        (Result::Err(e1), Result::Err(e2)) => e1 == e2,
        _ => false,
    }
}

/// Whether an executable text rendering matches its model rendering.
pub open spec fn text_matches(r: Result<String, Error>, s: Result<Seq<char>, Error>) -> bool {
    match (r, s) {
        (Result::Ok(t), Result::Ok(u)) => t@ == u,
        (Result::Err(e1), Result::Err(e2)) => e1 == e2,
        _ => false,
    }
}

/// Whether rendered element texts match their model renderings.
pub open spec fn parts_match(
    r: Result<Vec<String>, Error>,
    s: Result<Seq<Seq<char>>, Error>,
) -> bool {
    match (r, s) {
        (Result::Ok(ps), Result::Ok(ts)) => texts_model(ps@) == ts,
        (Result::Err(e1), Result::Err(e2)) => e1 == e2,
        _ => false,
    }
}

/// Appends an array body: inline when forced or within the budget.
fn append_arr(out: &mut String, parts: &Vec<String>, options: Options<'_>)
    ensures
        final(out)@ == old(out)@ + arr_text(texts_model(parts@), options@),
{
    let inline = options.inline_array || fits_inline(parts, options.max_inline_array_length);
    if inline {
        out.append("[");
        append_join(out, parts, ", ");
        out.append("]");
        proof {
            assert(out@ =~= old(out)@ + arr_text(texts_model(parts@), options@));
        }
    } else {
        out.append("[\n");
        out.append(options.tab);
        let mut sep = String::from_str(",\n");
        sep.append(options.tab);
        append_join(out, parts, sep.as_str());
        out.append("\n]");
        proof {
            assert(sep@ == ",\n"@ + options@.tab);
            assert(out@ =~= old(out)@ + arr_text(texts_model(parts@), options@));
        }
    }
}

/// Renders one flattened entry into a full line, into nothing, or into the
/// error its value forces.
fn render_entry(key: &String, val: &Value, options: Options<'_>) -> (r: Result<
    Option<String>,
    Error,
>)
    ensures
        line_matches(r, fmt_entry(key@, val_model(*val), options@)),
    decreases node_height(val_model(*val)), 2int, 0int,
{
    match val {
        Value::Null => Result::Ok(Option::None),
        Value::Bool(b) => {
            let mut line = key.clone();
            line.append(" = ");
            if *b {
                line.append("true");
            } else {
                line.append("false");
            }
            proof {
                assert(line@ =~= key@ + eq_text() + bool_text(*b));
            }
            Result::Ok(Option::Some(line))
        },
        Value::Number(n) => {
            let mut line = key.clone();
            line.append(" = ");
            line.append(n.as_str());
            proof {
                assert(line@ =~= key@ + eq_text() + n@);
            }
            Result::Ok(Option::Some(line))
        },
        Value::Text(s) => {
            if options.skip_empty_string && s.as_str().is_empty() {
                Result::Ok(Option::None)
            } else {
                let mut line = key.clone();
                line.append(" = ");
                append_text_value(&mut line, s.as_str());
                proof {
                    assert(line@ =~= key@ + eq_text() + text_value(s@));
                }
                Result::Ok(Option::Some(line))
            }
        },
        Value::Array(vs) => {
            proof {
                assert(val_model(*val) == Node::Arr(vals_model(vs@)));
                lemma_vals_model(vs@);
            }
            if vs.len() == 0 {
                let mut line = key.clone();
                line.append(" = ");
                line.append("[]");
                proof {
                    assert(line@ =~= key@ + eq_text() + "[]"@);
                }
                Result::Ok(Option::Some(line))
            } else {
                proof {
                    assert(node_height(val_model(*val)) == 1 + elems_height(vals_model(vs@)));
                }
                match render_elems(vs, false, options) {
                    Result::Err(e) => Result::Err(e),
                    Result::Ok(parts) => {
                        let mut line = key.clone();
                        line.append(" = ");
                        append_arr(&mut line, &parts, options);
                        proof {
                            assert(line@ =~= key@ + eq_text() + arr_text(
                                texts_model(parts@),
                                options@,
                            ));
                        }
                        Result::Ok(Option::Some(line))
                    },
                }
            }
        },
        Value::Object(m) => {
            proof {
                assert(val_model(*val) == Node::Obj(entries_model(m@)));
                lemma_entries_model(m@);
            }
            if m.len() == 0 && !options.skip_empty_object {
                let mut line = key.clone();
                line.append(" = ");
                line.append("{}");
                proof {
                    assert(line@ =~= key@ + eq_text() + "{}"@);
                }
                Result::Ok(Option::Some(line))
            } else {
                Result::Err(Error::ObjectReached)
            }
        },
    }
}

/// Renders the elements of an array, in order; skipped elements leave no
/// text behind.
fn render_elems(elems: &Vec<Value>, nested: bool, options: Options<'_>) -> (r: Result<
    Vec<String>,
    Error,
>)
    ensures
        parts_match(r, fmt_elems(vals_model(elems@), nested, options@, Seq::empty())),
    decreases elems_height(vals_model(elems@)), 1int, 0int,
{
    let ghost vm = vals_model(elems@);
    let ghost c = options@;
    let ghost total = fmt_elems(vm, nested, c, Seq::empty());
    let mut parts: Vec<String> = Vec::new();
    let n = elems.len();
    let mut i: usize = 0;
    proof {
        lemma_vals_model(elems@);
        assert(vm.subrange(0, vm.len() as int) =~= vm);
        assert(texts_model(parts@) =~= Seq::<Seq<char>>::empty());
    }
    while i < n
        invariant
            n == elems@.len(),
            vm == vals_model(elems@),
            c == options@,
            0 <= i <= n,
            total == fmt_elems(vm, nested, c, Seq::empty()),
            fmt_elems(vm.subrange(i as int, n as int), nested, c, texts_model(parts@)) == total,
        decreases n - i,
    {
        proof {
            lemma_vals_model(elems@);
            lemma_elems_height_elem(vm, i as int);
            assert(vm.subrange(i as int, n as int)[0] == vm[i as int]);
        }
        let ghost old_parts = texts_model(parts@);
        match render_elem(&elems[i], nested, options) {
            Result::Err(e) => {
                return Result::Err(e);
            },
            Result::Ok(Option::None) => {},
            Result::Ok(Option::Some(t)) => {
                parts.push(t);
                proof {
                    assert(texts_model(parts@) =~= old_parts.push(t@));
                }
            },
        }
        proof {
            assert(vm.subrange(i as int, n as int).subrange(
                1,
                vm.subrange(i as int, n as int).len() as int,
            ) =~= vm.subrange(i as int + 1, n as int));
        }
        i += 1;
    }
    proof {
        assert(vm.subrange(n as int, n as int) =~= Seq::<Node>::empty());
    }
    Result::Ok(parts)
}

/// Renders one array element, which may itself hold one more level of array
/// nesting or a whole object rendered inline.
fn render_elem(val: &Value, nested: bool, options: Options<'_>) -> (r: Result<
    Option<String>,
    Error,
>)
    ensures
        line_matches(r, fmt_elem(val_model(*val), nested, options@)),
    decreases node_height(val_model(*val)), 0int, 0int,
{
    match val {
        Value::Null => Result::Ok(Option::None),
        Value::Bool(b) => {
            if *b {
                Result::Ok(Option::Some(String::from_str("true")))
            } else {
                Result::Ok(Option::Some(String::from_str("false")))
            }
        },
        Value::Number(n) => Result::Ok(Option::Some(n.clone())),
        Value::Text(s) => {
            if options.skip_empty_string && s.as_str().is_empty() {
                Result::Ok(Option::None)
            } else {
                let mut t = String::from_str("\"");
                append_escaped(&mut t, s.as_str());
                t.append("\"");
                proof {
                    assert(t@ =~= "\""@ + escaped(s@) + "\""@);
                }
                Result::Ok(Option::Some(t))
            }
        },
        Value::Object(m) => {
            proof {
                assert(val_model(*val) == Node::Obj(entries_model(m@)));
                assert(node_height(val_model(*val)) == 1 + fields_height(entries_model(m@)));
            }
            match render_obj_inline(m, options) {
                Result::Err(e) => Result::Err(e),
                Result::Ok(t) => Result::Ok(Option::Some(t)),
            }
        },
        Value::Array(inner) => {
            if nested {
                Result::Err(Error::TripleNestedArray)
            } else {
                proof {
                    assert(val_model(*val) == Node::Arr(vals_model(inner@)));
                    assert(node_height(val_model(*val)) == 1 + elems_height(vals_model(inner@)));
                }
                match render_elems(inner, true, options) {
                    Result::Err(e) => Result::Err(e),
                    Result::Ok(parts) => {
                        let mut t = String::from_str("[");
                        append_join(&mut t, &parts, ", ");
                        t.append("]");
                        proof {
                            assert(t@ =~= "["@ + join_texts(texts_model(parts@), comma_sep())
                                + "]"@);
                        }
                        Result::Ok(Option::Some(t))
                    },
                }
            }
        },
    }
}

/// Renders an object found inside an array: flattened on its own, then laid
/// out inline between braces.
fn render_obj_inline(fields: &Vec<(String, Value)>, options: Options<'_>) -> (r: Result<
    String,
    Error,
>)
    ensures
        text_matches(r, fmt_obj_inline(entries_model(fields@), options@)),
    decreases fields_height(entries_model(fields@)), 4int, 0int,
{
    let flat = flatten_map(fields, options.skip_empty_object);
    proof {
        lemma_flatten_at_height(
            Seq::empty(),
            Option::None,
            entries_model(fields@),
            options.skip_empty_object,
        );
        assert(fields_height(Seq::<(Seq<char>, Node)>::empty()) == 0);
        assert(fields_height(entries_model(flat@)) <= fields_height(entries_model(fields@)));
    }
    let inline_options = options.inline_array(true);
    proof {
        assert(inline_options@ == inline_cfg(options@));
    }
    match format_entries(&flat, inline_options, true) {
        Result::Err(e) => Result::Err(e),
        Result::Ok(body) => {
            let mut t = String::from_str("{ ");
            t.append(body.as_str());
            t.append(" }");
            proof {
                assert(t@ =~= "{ "@ + body@ + " }"@);
            }
            Result::Ok(t)
        },
    }
}

/// Renders a run of flattened entries, joined by newlines at the top level
/// and by commas inside braces; skipped entries leave neither line nor
/// separator.
fn format_entries(entries: &Vec<(String, Value)>, options: Options<'_>, inline_entries: bool) -> (r:
    Result<String, Error>)
    ensures
        text_matches(
            r,
            fmt_entries(
                entries_model(entries@),
                options@,
                if inline_entries {
                    comma_sep()
                } else {
                    line_sep()
                },
                Seq::empty(),
                true,
            ),
        ),
    decreases fields_height(entries_model(entries@)), 3int, 0int,
{
    let ghost em = entries_model(entries@);
    let ghost c = options@;
    let ghost sep = if inline_entries {
        comma_sep()
    } else {
        line_sep()
    };
    let ghost total = fmt_entries(em, c, sep, Seq::empty(), true);
    let mut out = String::new();
    let mut first: bool = true;
    let n = entries.len();
    let mut i: usize = 0;
    proof {
        lemma_entries_model(entries@);
        assert(em.subrange(0, em.len() as int) =~= em);
    }
    while i < n
        invariant
            n == entries@.len(),
            em == entries_model(entries@),
            c == options@,
            sep == if inline_entries {
                comma_sep()
            } else {
                line_sep()
            },
            0 <= i <= n,
            total == fmt_entries(em, c, sep, Seq::empty(), true),
            fmt_entries(em.subrange(i as int, n as int), c, sep, out@, first) == total,
            first ==> out@ == Seq::<char>::empty(),
        decreases n - i,
    {
        proof {
            lemma_entries_model(entries@);
            lemma_fields_height_elem(em, i as int);
            assert(em.subrange(i as int, n as int)[0] == em[i as int]);
        }
        let ghost old_out = out@;
        match render_entry(&entries[i].0, &entries[i].1, options) {
            Result::Err(e) => {
                return Result::Err(e);
            },
            Result::Ok(Option::None) => {},
            Result::Ok(Option::Some(line)) => {
                if first {
                    out.append(line.as_str());
                    first = false;
                    proof {
                        assert(out@ =~= line@);
                    }
                } else {
                    if inline_entries {
                        out.append(", ");
                    } else {
                        out.append("\n");
                    }
                    out.append(line.as_str());
                    proof {
                        assert(out@ =~= old_out + sep + line@);
                    }
                }
            },
        }
        proof {
            assert(em.subrange(i as int, n as int).subrange(
                1,
                em.subrange(i as int, n as int).len() as int,
            ) =~= em.subrange(i as int + 1, n as int));
        }
        i += 1;
    }
    proof {
        assert(em.subrange(n as int, n as int) =~= Seq::<(Seq<char>, Node)>::empty());
    }
    Result::Ok(out)
}

/// Formats an ordered object tree into its TOML-like document: one
/// `key = value` line per kept entry, joined by newlines, no trailing
/// newline. Fails only as [`spec_to_string`] says it must.
pub fn to_string(map: &Vec<(String, Value)>, options: Options<'_>) -> (r: Result<String, Error>)
    ensures
        text_matches(r, spec_to_string(entries_model(map@), options@)),
{
    let flat = flatten_map(map, options.skip_empty_object);
    format_entries(&flat, options, false)
}

} // verus!
