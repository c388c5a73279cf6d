use jrsonnet_manifest::manifest::ErrorKind;
use jrsonnet_manifest::stdlib::{builtin_ends_with, builtin_get, builtin_starts_with, equals};
use jrsonnet_manifest::value::{FuncVal, ObjField, ObjValue, Thunk, Val, ValType};

fn object() -> ObjValue {
    ObjValue {
        fields: vec![
            ObjField { key: "a".to_string(), visible: true, value: Thunk::Ready(Val::Num("1".to_string())) },
            ObjField { key: "h".to_string(), visible: false, value: Thunk::Ready(Val::Bool(true)) },
            ObjField { key: "bad".to_string(), visible: true, value: Thunk::Failed("oops".to_string()) },
        ],
        failed_assertion: None,
    }
}

fn num_text(v: Val) -> String {
    match v {
        Val::Num(t) => t,
        _ => panic!("not a number"),
    }
}

#[test]
fn get_present_field() {
    let v = builtin_get(object(), "a".to_string(), None, true).unwrap();
    assert_eq!(num_text(v), "1");
}

#[test]
fn get_missing_field_defaults() {
    assert!(matches!(builtin_get(object(), "z".to_string(), None, true).unwrap(), Val::Null));
    let d = Some(Thunk::Ready(Val::Num("7".to_string())));
    assert_eq!(num_text(builtin_get(object(), "z".to_string(), d, true).unwrap()), "7");
    let failing = Some(Thunk::Failed("no default".to_string()));
    let e = builtin_get(object(), "z".to_string(), failing, true).unwrap_err();
    assert_eq!(e.kind, ErrorKind::UpstreamEvaluationFailure("no default".to_string()));
}

#[test]
fn get_hidden_field_only_when_asked() {
    assert!(matches!(builtin_get(object(), "h".to_string(), None, true).unwrap(), Val::Bool(true)));
    let d = Some(Thunk::Ready(Val::Bool(false)));
    assert!(matches!(builtin_get(object(), "h".to_string(), d, false).unwrap(), Val::Bool(false)));
}

#[test]
fn get_failing_field_errors() {
    let e = builtin_get(object(), "bad".to_string(), None, true).unwrap_err();
    assert_eq!(e.kind, ErrorKind::UpstreamEvaluationFailure("oops".to_string()));
    assert!(e.trail.is_empty());
}

fn st(t: &str) -> Val {
    Val::Str(t.to_string())
}

fn n(t: &str) -> Val {
    Val::Num(t.to_string())
}

fn arr(items: Vec<Val>) -> Val {
    Val::Arr(items.into_iter().map(Thunk::Ready).collect())
}

fn obj(pairs: Vec<(&str, Val)>) -> Val {
    Val::Obj(ObjValue {
        fields: pairs
            .into_iter()
            .map(|(k, v)| ObjField { key: k.to_string(), visible: true, value: Thunk::Ready(v) })
            .collect(),
        failed_assertion: None,
    })
}

fn func() -> Val {
    Val::Func(FuncVal { name: "f".to_string() })
}

#[test]
fn equality_of_values() {
    assert!(equals(&n("1"), &n("1")).unwrap());
    assert!(!equals(&n("1"), &st("1")).unwrap());
    assert!(equals(&arr(vec![st("a"), Val::Null]), &arr(vec![st("a"), Val::Null])).unwrap());
    assert!(!equals(&arr(vec![st("a")]), &arr(vec![st("a"), Val::Null])).unwrap());
    assert!(equals(&obj(vec![("a", n("1")), ("b", n("2"))]), &obj(vec![("b", n("2")), ("a", n("1"))])).unwrap());
    assert!(!equals(&obj(vec![("a", n("1"))]), &obj(vec![("a", n("2"))])).unwrap());
    assert!(!equals(&obj(vec![("a", n("1"))]), &obj(vec![("b", n("1"))])).unwrap());
    assert_eq!(equals(&func(), &func()).unwrap_err().kind, ErrorKind::FunctionsNotComparable);
    assert!(!equals(&func(), &n("1")).unwrap());
}

#[test]
fn starts_with_strings_and_arrays() {
    assert!(builtin_starts_with(&st("hello"), &st("he")).unwrap());
    assert!(builtin_starts_with(&st("hello"), &st("")).unwrap());
    assert!(!builtin_starts_with(&st("hello"), &st("lo")).unwrap());
    assert!(!builtin_starts_with(&st("he"), &st("hello")).unwrap());
    assert!(builtin_starts_with(&arr(vec![n("1"), n("2"), n("3")]), &arr(vec![n("1"), n("2")])).unwrap());
    assert!(!builtin_starts_with(&arr(vec![n("1"), n("2")]), &arr(vec![n("2")])).unwrap());
    assert!(builtin_starts_with(&arr(vec![n("1")]), &arr(vec![n("1")])).unwrap());
    assert!(!builtin_starts_with(&arr(vec![]), &arr(vec![n("1")])).unwrap());
}

#[test]
fn ends_with_strings_and_arrays() {
    assert!(builtin_ends_with(&st("hello"), &st("llo")).unwrap());
    assert!(!builtin_ends_with(&st("hello"), &st("he")).unwrap());
    assert!(builtin_ends_with(&st("h\u{e9}"), &st("\u{e9}")).unwrap());
    assert!(builtin_ends_with(&arr(vec![n("1"), n("2"), n("3")]), &arr(vec![n("2"), n("3")])).unwrap());
    assert!(!builtin_ends_with(&arr(vec![n("1"), n("2"), n("3")]), &arr(vec![n("1")])).unwrap());
}

#[test]
fn starts_with_needs_matching_kinds() {
    let e = builtin_starts_with(&st("a"), &arr(vec![])).unwrap_err();
    assert_eq!(e.kind, ErrorKind::ArgumentKinds { first: ValType::Str, second: ValType::Arr });
    let e = builtin_ends_with(&n("1"), &n("1")).unwrap_err();
    assert_eq!(e.kind, ErrorKind::ArgumentKinds { first: ValType::Num, second: ValType::Num });
}

#[test]
fn array_prefix_forcing_errors() {
    let a = Val::Arr(vec![Thunk::Ready(n("1")), Thunk::Failed("lazy".to_string())]);
    let e = builtin_starts_with(&a, &arr(vec![n("1"), n("2")])).unwrap_err();
    assert_eq!(e.kind, ErrorKind::UpstreamEvaluationFailure("lazy".to_string()));
    assert!(!builtin_starts_with(&a, &arr(vec![n("0"), n("2")])).unwrap());
    let f = builtin_ends_with(&arr(vec![func()]), &arr(vec![func()])).unwrap_err();
    assert_eq!(f.kind, ErrorKind::FunctionsNotComparable);
}
