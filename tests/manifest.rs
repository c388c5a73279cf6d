use jrsonnet_manifest::escape::escape_string_json;
use jrsonnet_manifest::formats::{ManifestFormat, StringFormat, ToStringFormat, YamlStreamFormat};
use jrsonnet_manifest::manifest::{manifest_json_ex, ErrorKind, Frame, JsonFormat};
use jrsonnet_manifest::value::{FuncVal, ObjField, ObjValue, Thunk, Val, ValType};

fn s(t: &str) -> Val {
    Val::Str(t.to_string())
}

fn num(t: &str) -> Val {
    Val::Num(t.to_string())
}

fn arr(items: Vec<Val>) -> Val {
    Val::Arr(items.into_iter().map(Thunk::Ready).collect())
}

fn field(key: &str, value: Val) -> ObjField {
    ObjField { key: key.to_string(), visible: true, value: Thunk::Ready(value) }
}

fn obj(fields: Vec<ObjField>) -> Val {
    Val::Obj(ObjValue { fields, failed_assertion: None })
}

fn func() -> Val {
    Val::Func(FuncVal { name: "f".to_string() })
}

fn scenario_value() -> Val {
    obj(vec![field("a", num("1")), field("b", arr(vec![Val::Bool(true), Val::Null]))])
}

#[test]
fn scenario_manifest_four_spaces() {
    let out = JsonFormat::cli(4, false).manifest(&scenario_value()).unwrap();
    assert_eq!(out, "{\n    \"a\": 1,\n    \"b\": [\n        true,\n        null\n    ]\n}");
}

#[test]
fn scenario_minify() {
    let out = JsonFormat::minify(false).manifest(&scenario_value()).unwrap();
    assert_eq!(out, "{\"a\":1,\"b\":[true,null]}");
}

#[test]
fn scenario_std_empty_array() {
    let f = JsonFormat::std_to_json("   ".to_string(), "\n", ": ", false);
    assert_eq!(f.manifest(&arr(vec![])).unwrap(), "[\n\n]");
}

#[test]
fn scenario_raw_string() {
    assert_eq!(ToStringFormat.manifest(&s("hi")).unwrap(), "hi");
    assert!(!ToStringFormat.file_trailing_newline());
}

#[test]
fn scenario_document_stream() {
    let f = YamlStreamFormat::cli(JsonFormat::minify(false));
    assert_eq!(f.manifest(&arr(vec![s("x"), s("y")])).unwrap(), "---\n\"x\"\n---\n\"y\"\n...");
}

#[test]
fn empty_containers_per_dialect() {
    let empty_obj = || obj(vec![]);
    assert_eq!(JsonFormat::minify(false).manifest(&arr(vec![])).unwrap(), "[]");
    assert_eq!(JsonFormat::minify(false).manifest(&empty_obj()).unwrap(), "{}");
    assert_eq!(JsonFormat::cli(2, false).manifest(&arr(vec![])).unwrap(), "[ ]");
    assert_eq!(JsonFormat::cli(2, false).manifest(&empty_obj()).unwrap(), "{ }");
    assert_eq!(ToStringFormat.manifest(&arr(vec![])).unwrap(), "[ ]");
    assert_eq!(ToStringFormat.manifest(&empty_obj()).unwrap(), "{ }");
    let std = JsonFormat::std_to_json("  ".to_string(), "\n", ": ", false);
    assert_eq!(std.manifest(&empty_obj()).unwrap(), "{\n\n}");
    assert_eq!(std.manifest(&arr(vec![arr(vec![])])).unwrap(), "[\n  [\n\n  ]\n]");
}

#[test]
fn std_dialect_nested() {
    let std = JsonFormat::std_to_json("  ".to_string(), "\n", ": ", false);
    let v = obj(vec![field("k", arr(vec![num("1"), num("2")]))]);
    assert_eq!(std.manifest(&v).unwrap(), "{\n  \"k\": [\n    1,\n    2\n  ]\n}");
}

#[test]
fn escaping_control_and_special_chars() {
    assert_eq!(escape_string_json("\0"), "\"\\u0000\"");
    assert_eq!(escape_string_json("a\nb"), "\"a\\nb\"");
    assert_eq!(escape_string_json("\""), "\"\\\"\"");
    assert_eq!(escape_string_json("\\"), "\"\\\\\"");
    assert_eq!(escape_string_json("\u{8}\t\u{c}\r"), "\"\\b\\t\\f\\r\"");
    assert_eq!(escape_string_json("\u{1f}"), "\"\\u001f\"");
    assert_eq!(escape_string_json("\u{1}"), "\"\\u0001\"");
    assert_eq!(escape_string_json(""), "\"\"");
}

#[test]
fn escaping_passes_printable_text() {
    assert_eq!(escape_string_json("h\u{e9}llo \u{2028} ~/"), "\"h\u{e9}llo \u{2028} ~/\"");
    assert_eq!(JsonFormat::minify(false).manifest(&s("\u{7f}\u{e9}")).unwrap(), "\"\u{7f}\u{e9}\"");
}

#[test]
fn debug_truncates_long_strings() {
    let long = format!("{}{}{}", "a".repeat(128), "b".repeat(44), "c".repeat(128));
    let out = JsonFormat::debug().manifest(&s(&long)).unwrap();
    assert_eq!(out, format!("\"{}..{}\"", "a".repeat(128), "c".repeat(128)));
    let exact = "x".repeat(256);
    assert_eq!(JsonFormat::debug().manifest(&s(&exact)).unwrap(), format!("\"{}\"", exact));
}

#[test]
fn debug_truncation_escapes_each_half() {
    let long = format!("\n{}{}\"", "q".repeat(300), "z".repeat(126));
    let out = JsonFormat::debug().manifest(&s(&long)).unwrap();
    assert_eq!(out, format!("\"\\n{}..q{}\\\"\"", "q".repeat(127), "z".repeat(126)));
}

#[test]
fn function_fails_everywhere() {
    let formats = vec![
        JsonFormat::minify(false),
        JsonFormat::cli(3, false),
        JsonFormat::debug(),
        JsonFormat::std_to_json(" ".to_string(), "\n", ": ", false),
    ];
    for f in &formats {
        for v in [func(), arr(vec![num("1"), func()]), obj(vec![field("x", arr(vec![func()]))])] {
            assert_eq!(f.manifest(&v).unwrap_err().kind, ErrorKind::FunctionNotManifestable);
        }
    }
    assert_eq!(ToStringFormat.manifest(&func()).unwrap_err().kind, ErrorKind::FunctionNotManifestable);
}

#[test]
fn error_trail_lists_innermost_first() {
    let v = arr(vec![num("0"), obj(vec![field("x", arr(vec![func()]))])]);
    let e = JsonFormat::minify(false).manifest(&v).unwrap_err();
    assert_eq!(
        e.trail,
        vec![
            Frame::ElemManifestification(0),
            Frame::FieldManifestification("x".to_string()),
            Frame::ElemManifestification(1),
        ]
    );
}

#[test]
fn failed_element_is_upstream_failure() {
    let v = Val::Arr(vec![Thunk::Ready(num("1")), Thunk::Failed("boom".to_string()), Thunk::Ready(func())]);
    let e = JsonFormat::minify(false).manifest(&v).unwrap_err();
    assert_eq!(e.kind, ErrorKind::UpstreamEvaluationFailure("boom".to_string()));
    assert_eq!(e.trail, vec![Frame::ElemEvaluation(1)]);
}

#[test]
fn failed_field_is_upstream_failure() {
    let o = Val::Obj(ObjValue {
        fields: vec![ObjField { key: "k".to_string(), visible: true, value: Thunk::Failed("bad".to_string()) }],
        failed_assertion: None,
    });
    let e = JsonFormat::cli(2, false).manifest(&arr(vec![o])).unwrap_err();
    assert_eq!(e.kind, ErrorKind::UpstreamEvaluationFailure("bad".to_string()));
    assert_eq!(e.trail, vec![Frame::FieldEvaluation("k".to_string()), Frame::ElemManifestification(0)]);
}

#[test]
fn failed_validation_stops_the_object() {
    let o = Val::Obj(ObjValue { fields: vec![field("a", func())], failed_assertion: Some("assert".to_string()) });
    let e = JsonFormat::minify(false).manifest(&obj(vec![field("in", o)])).unwrap_err();
    assert_eq!(e.kind, ErrorKind::ValidationFailed("assert".to_string()));
    assert_eq!(e.trail, vec![Frame::FieldManifestification("in".to_string())]);
}

#[test]
fn hidden_fields_are_left_out() {
    let v = Val::Obj(ObjValue {
        fields: vec![
            ObjField { key: "h".to_string(), visible: false, value: Thunk::Ready(func()) },
            field("v", num("2")),
        ],
        failed_assertion: None,
    });
    assert_eq!(JsonFormat::minify(false).manifest(&v).unwrap(), "{\"v\":2}");
}

#[test]
fn field_order_by_key_or_insertion() {
    let v = || obj(vec![field("b", num("1")), field("a", num("2")), field("c", num("3"))]);
    assert_eq!(JsonFormat::minify(false).manifest(&v()).unwrap(), "{\"a\":2,\"b\":1,\"c\":3}");
    assert_eq!(JsonFormat::minify(true).manifest(&v()).unwrap(), "{\"b\":1,\"a\":2,\"c\":3}");
    assert_eq!(JsonFormat::debug().manifest(&v()).unwrap(), "{\n   \"b\": 1,\n   \"a\": 2,\n   \"c\": 3\n}");
}

#[test]
fn to_string_format_one_line() {
    let v = obj(vec![field("a", arr(vec![num("1"), num("2")])), field("b", s("x"))]);
    assert_eq!(ToStringFormat.manifest(&v).unwrap(), "{\"a\": [1, 2], \"b\": \"x\"}");
    assert_eq!(ToStringFormat.manifest(&arr(vec![s("hi")])).unwrap(), "[\"hi\"]");
}

#[test]
fn big_integers_digits_or_quoted() {
    let v = || Val::BigInt("12345678901234567890".to_string());
    assert_eq!(JsonFormat::debug().manifest(&v()).unwrap(), "12345678901234567890");
    assert_eq!(JsonFormat::cli(4, false).manifest(&v()).unwrap(), "\"12345678901234567890\"");
}

#[test]
fn string_format_takes_strings_only() {
    assert_eq!(StringFormat.manifest(&s("a\"b")).unwrap(), "a\"b");
    let e = StringFormat.manifest(&num("1")).unwrap_err();
    assert_eq!(e.kind, ErrorKind::TypeMismatch { expected: ValType::Str, actual: ValType::Num });
    assert!(!StringFormat.file_trailing_newline());
}

#[test]
fn stream_takes_arrays_only() {
    let f = YamlStreamFormat::cli(JsonFormat::minify(false));
    let e = f.manifest(&obj(vec![])).unwrap_err();
    assert_eq!(e.kind, ErrorKind::TypeMismatch { expected: ValType::Arr, actual: ValType::Obj });
    assert!(f.file_trailing_newline());
}

#[test]
fn std_stream_ends_with_newline() {
    let f = YamlStreamFormat::std_yaml_stream(JsonFormat::minify(false), true);
    assert_eq!(f.manifest(&arr(vec![num("1")])).unwrap(), "---\n1\n...\n");
    let g = YamlStreamFormat::std_yaml_stream(JsonFormat::minify(false), false);
    assert_eq!(g.manifest(&arr(vec![])).unwrap(), "\n");
    let h = YamlStreamFormat::cli(ToStringFormat);
    assert_eq!(h.manifest(&arr(vec![s("raw"), arr(vec![])])).unwrap(), "---\nraw\n---\n[ ]\n...");
}

#[test]
fn stream_element_errors_carry_frames() {
    let f = YamlStreamFormat::cli(StringFormat);
    let e = f.manifest(&arr(vec![s("ok"), num("2")])).unwrap_err();
    assert_eq!(e.kind, ErrorKind::TypeMismatch { expected: ValType::Str, actual: ValType::Num });
    assert_eq!(e.trail, vec![Frame::ElemManifestification(1)]);
    let v = Val::Arr(vec![Thunk::Failed("late".to_string())]);
    assert_eq!(f.manifest(&v).unwrap_err().trail, vec![Frame::ElemEvaluation(0)]);
}

#[test]
fn cli_zero_padding_minifies() {
    assert_eq!(JsonFormat::cli(0, false).manifest(&scenario_value()).unwrap(), "{\"a\":1,\"b\":[true,null]}");
}

#[test]
fn default_format_and_free_function() {
    let d = JsonFormat::default();
    assert_eq!(manifest_json_ex(&arr(vec![Val::Bool(false)]), &d).unwrap(), "[\n    false\n]");
    assert!(d.file_trailing_newline());
    let mut buf = "x".to_string();
    JsonFormat::minify(false).manifest_buf(&num("-1.5"), &mut buf).unwrap();
    assert_eq!(buf, "x-1.5");
}

#[test]
fn boxed_and_borrowed_formats_forward() {
    let boxed: Box<StringFormat> = Box::new(StringFormat);
    assert_eq!(boxed.manifest(&s("b")).unwrap(), "b");
    assert!(!boxed.file_trailing_newline());
    let json = JsonFormat::minify(false);
    let borrowed = &json;
    assert_eq!(borrowed.manifest(&arr(vec![Val::Null])).unwrap(), "[null]");
    let stream = YamlStreamFormat::cli(Box::new(ToStringFormat));
    assert_eq!(stream.manifest(&arr(vec![s("a")])).unwrap(), "---\na\n...");
}
