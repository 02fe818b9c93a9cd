use toml_pretty::{to_string, Error, Options, Value};

fn s(x: &str) -> String {
    x.to_string()
}

fn text(x: &str) -> Value {
    Value::Text(s(x))
}

fn num(x: &str) -> Value {
    Value::Number(s(x))
}

fn fields(pairs: Vec<(&str, Value)>) -> Vec<(String, Value)> {
    pairs.into_iter().map(|(k, v)| (s(k), v)).collect()
}

fn obj(pairs: Vec<(&str, Value)>) -> Value {
    Value::Object(fields(pairs))
}

#[test]
fn example_user_document() {
    let map = fields(vec![
        ("name", text("Jonathan")),
        ("nicknames", Value::Array(vec![text("Jack"), text("Jon")])),
        (
            "birthday",
            obj(vec![("day", num("0")), ("month", num("0")), ("year", num("1980"))]),
        ),
    ]);
    let out = to_string(&map, Options::default()).unwrap();
    assert_eq!(
        out,
        "name = \"Jonathan\"\nnicknames = [\"Jack\", \"Jon\"]\nbirthday.day = 0\nbirthday.month = 0\nbirthday.year = 1980"
    );
}

#[test]
fn empty_object_kept_as_braces() {
    let map = fields(vec![("empty", obj(vec![]))]);
    let out = to_string(&map, Options::default().skip_empty_object(false)).unwrap();
    assert_eq!(out, "empty = {}");
}

#[test]
fn empty_object_skipped_entirely() {
    let map = fields(vec![("empty", obj(vec![]))]);
    let out = to_string(&map, Options::default().skip_empty_object(true)).unwrap();
    assert_eq!(out, "");
}

#[test]
fn skip_empty_string_drops_entries_and_elements() {
    let map = fields(vec![
        ("a", text("")),
        ("b", Value::Array(vec![text("x"), text(""), text("y")])),
        ("c", text("v")),
    ]);
    let out = to_string(&map, Options::default().skip_empty_string(true)).unwrap();
    assert_eq!(out, "b = [\"x\", \"y\"]\nc = \"v\"");
    assert!(!out.contains("= \"\""));
}

#[test]
fn empty_strings_kept_by_default() {
    let map = fields(vec![
        ("a", text("")),
        ("b", Value::Array(vec![text("x"), text(""), text("y")])),
        ("c", text("v")),
    ]);
    let out = to_string(&map, Options::default()).unwrap();
    assert_eq!(out, "a = \"\"\nb = [\"x\", \"\", \"y\"]\nc = \"v\"");
}

#[test]
fn multiline_string_uses_triple_quotes() {
    let map = fields(vec![("t", text("a\nb"))]);
    let out = to_string(&map, Options::default()).unwrap();
    assert_eq!(out, "t = \"\"\"\na\nb\"\"\"");
}

#[test]
fn quotes_are_escaped_in_single_line_strings() {
    let map = fields(vec![("q", text("say \"hi\""))]);
    let out = to_string(&map, Options::default()).unwrap();
    assert_eq!(out, "q = \"say \\\"hi\\\"\"");
}

#[test]
fn array_over_budget_goes_multi_line() {
    let map = fields(vec![("xs", Value::Array(vec![num("100"), num("200")]))]);
    let out = to_string(
        &map,
        Options::default().tab("  ").max_inline_array_length(3),
    )
    .unwrap();
    assert_eq!(out, "xs = [\n  100,\n  200\n]");
}

#[test]
fn array_within_budget_stays_inline() {
    let map = fields(vec![("xs", Value::Array(vec![num("100"), num("200")]))]);
    let out = to_string(&map, Options::default().max_inline_array_length(6)).unwrap();
    assert_eq!(out, "xs = [100, 200]");
}

#[test]
fn inline_array_overrides_budget() {
    let map = fields(vec![("xs", Value::Array(vec![num("100"), num("200")]))]);
    let out = to_string(
        &map,
        Options::default().max_inline_array_length(3).inline_array(true),
    )
    .unwrap();
    assert_eq!(out, "xs = [100, 200]");
}

#[test]
fn triple_nested_array_is_an_error() {
    let deep = Value::Array(vec![Value::Array(vec![Value::Array(vec![num("1")])])]);
    let map = fields(vec![("a", deep)]);
    let r = to_string(&map, Options::default());
    assert!(matches!(r, Err(Error::TripleNestedArray)));
}

#[test]
fn two_levels_of_arrays_are_fine() {
    let map = fields(vec![(
        "xs",
        Value::Array(vec![Value::Array(vec![num("1"), num("2")]), num("3")]),
    )]);
    let out = to_string(&map, Options::default()).unwrap();
    assert_eq!(out, "xs = [[1, 2], 3]");
}

#[test]
fn nulls_leave_no_line_and_no_separator() {
    let map = fields(vec![("a", Value::Null), ("b", num("1"))]);
    let out = to_string(&map, Options::default()).unwrap();
    assert_eq!(out, "b = 1");
}

#[test]
fn null_elements_vanish_from_arrays() {
    let map = fields(vec![("xs", Value::Array(vec![Value::Null, Value::Null]))]);
    let out = to_string(&map, Options::default()).unwrap();
    assert_eq!(out, "xs = []");
}

#[test]
fn empty_array_renders_as_brackets() {
    let map = fields(vec![("xs", Value::Array(vec![]))]);
    let out = to_string(&map, Options::default()).unwrap();
    assert_eq!(out, "xs = []");
}

#[test]
fn empty_input_renders_as_empty_document() {
    let map = fields(vec![]);
    let out = to_string(&map, Options::default()).unwrap();
    assert_eq!(out, "");
}

#[test]
fn nested_objects_flatten_in_preorder() {
    let map = fields(vec![
        ("b", obj(vec![("y", num("1")), ("x", num("2"))])),
        ("a", num("3")),
    ]);
    let out = to_string(&map, Options::default()).unwrap();
    assert_eq!(out, "b.y = 1\nb.x = 2\na = 3");
}

#[test]
fn flat_input_formats_key_for_key() {
    let map = fields(vec![("a", num("1")), ("b", text("x"))]);
    let out = to_string(&map, Options::default()).unwrap();
    assert_eq!(out, "a = 1\nb = \"x\"");
}

#[test]
fn later_binding_overwrites_in_place() {
    let map = fields(vec![
        ("a", obj(vec![("b", num("1"))])),
        ("a.b", num("2")),
    ]);
    let out = to_string(&map, Options::default()).unwrap();
    assert_eq!(out, "a.b = 2");
}

#[test]
fn object_in_array_renders_inline_in_braces() {
    let map = fields(vec![(
        "arr",
        Value::Array(vec![obj(vec![("x", num("1")), ("y", obj(vec![("z", num("2"))]))])]),
    )]);
    let out = to_string(&map, Options::default()).unwrap();
    assert_eq!(out, "arr = [{ x = 1, y.z = 2 }]");
}

#[test]
fn empty_object_marker_inside_braces() {
    let map = fields(vec![("arr", Value::Array(vec![obj(vec![("e", obj(vec![]))])]))]);
    let out = to_string(&map, Options::default()).unwrap();
    assert_eq!(out, "arr = [{ e = {} }]");
}

#[test]
fn multiline_string_inside_braces() {
    let map = fields(vec![(
        "list",
        Value::Array(vec![obj(vec![
            ("name", text("asdf")),
            ("pattern", text("asdf\nbbbb")),
            ("last", Value::Bool(true)),
        ])]),
    )]);
    let out = to_string(&map, Options::default().max_inline_array_length(100)).unwrap();
    assert_eq!(
        out,
        "list = [{ name = \"asdf\", pattern = \"\"\"\nasdf\nbbbb\"\"\", last = true }]"
    );
}

#[test]
fn booleans_render_canonically() {
    let map = fields(vec![("t", Value::Bool(true)), ("f", Value::Bool(false))]);
    let out = to_string(&map, Options::default()).unwrap();
    assert_eq!(out, "t = true\nf = false");
}

#[test]
fn mixed_scalars_in_inline_array() {
    let map = fields(vec![(
        "xs",
        Value::Array(vec![Value::Bool(true), num("1"), text("a")]),
    )]);
    let out = to_string(&map, Options::default()).unwrap();
    assert_eq!(out, "xs = [true, 1, \"a\"]");
}

#[test]
fn default_options_values() {
    let o = Options::default();
    assert_eq!(o.tab, "\t");
    assert!(!o.skip_empty_string);
    assert!(!o.skip_empty_object);
    assert!(!o.inline_array);
    assert_eq!(o.max_inline_array_length, 50);
}

#[test]
fn builders_set_their_fields() {
    let o = Options::default()
        .tab("    ")
        .skip_empty_string(true)
        .skip_empty_object(true)
        .inline_array(true)
        .max_inline_array_length(7);
    assert_eq!(o.tab, "    ");
    assert!(o.skip_empty_string);
    assert!(o.skip_empty_object);
    assert!(o.inline_array);
    assert_eq!(o.max_inline_array_length, 7);
}

#[test]
fn skipped_elements_at_second_depth() {
    let map = fields(vec![(
        "xs",
        Value::Array(vec![Value::Array(vec![text("a"), text("")])]),
    )]);
    let out = to_string(&map, Options::default().skip_empty_string(true)).unwrap();
    assert_eq!(out, "xs = [[\"a\"]]");
}
