use antigravity_tools::payload::{
    apply_android_stealth_fixes, apply_android_stealth_fixes_with_version,
    is_google_search_tool, member_position, member_value, set_member, stamp_metadata,
    without_google_search, JsonValue,
};

fn s(x: &str) -> JsonValue {
    JsonValue::Str(x.to_string())
}

fn members(fields: Vec<(&str, JsonValue)>) -> Vec<(String, JsonValue)> {
    fields.into_iter().map(|(k, v)| (k.to_string(), v)).collect()
}

fn obj(fields: Vec<(&str, JsonValue)>) -> JsonValue {
    JsonValue::Object(members(fields))
}

fn fields_of(v: &JsonValue) -> &Vec<(String, JsonValue)> {
    match v {
        JsonValue::Object(f) => f,
        _ => panic!("not an object"),
    }
}

fn str_of(v: Option<&JsonValue>) -> String {
    match v {
        Some(JsonValue::Str(x)) => x.clone(),
        Some(JsonValue::Number(x)) => x.clone(),
        _ => panic!("not a string or number"),
    }
}

fn tool(name: &str) -> JsonValue {
    obj(vec![("name", s(name))])
}

fn tool_names(v: &JsonValue) -> Vec<String> {
    match member_value(fields_of(v), "tools") {
        Some(JsonValue::Array(items)) => items
            .iter()
            .map(|t| str_of(member_value(fields_of(t), "name")))
            .collect(),
        _ => panic!("no tools array"),
    }
}

#[test]
fn member_lookup_finds_first_match() {
    let f = members(vec![("a", s("1")), ("b", s("2"))]);
    assert_eq!(member_position(&f, "b"), Some(1));
    assert_eq!(member_position(&f, "c"), None);
    assert_eq!(str_of(member_value(&f, "a")), "1");
    assert!(member_value(&f, "zz").is_none());
}

#[test]
fn set_member_replaces_in_place_or_appends() {
    let mut f = members(vec![("a", s("1")), ("b", s("2"))]);
    set_member(&mut f, "a", s("x"));
    assert_eq!(f.len(), 2);
    assert_eq!(f[0].0, "a");
    assert_eq!(str_of(Some(&f[0].1)), "x");
    set_member(&mut f, "c", s("3"));
    assert_eq!(f.len(), 3);
    assert_eq!(f[2].0, "c");
}

#[test]
fn google_search_tool_detection() {
    assert!(is_google_search_tool(&tool("googleSearch")));
    assert!(!is_google_search_tool(&tool("codeExecution")));
    assert!(!is_google_search_tool(&s("googleSearch")));
    assert!(!is_google_search_tool(&obj(vec![("name", JsonValue::Null)])));
}

#[test]
fn search_tools_are_removed_in_order() {
    let kept = without_google_search(vec![
        tool("a"),
        tool("googleSearch"),
        tool("b"),
        tool("googleSearch"),
    ]);
    let names: Vec<String> = kept
        .iter()
        .map(|t| str_of(member_value(fields_of(t), "name")))
        .collect();
    assert_eq!(names, vec!["a".to_string(), "b".to_string()]);
}

#[test]
fn stamp_metadata_sets_identity() {
    let mut f = members(vec![("ide_type", s("old")), ("other", s("keep"))]);
    stamp_metadata(&mut f, "1.2.3");
    assert_eq!(str_of(member_value(&f, "ide_type")), "9");
    assert!(matches!(member_value(&f, "ide_type"), Some(JsonValue::Number(_))));
    assert_eq!(str_of(member_value(&f, "ide_version")), "1.2.3");
    assert_eq!(str_of(member_value(&f, "ide_name")), "antigravity");
    assert_eq!(str_of(member_value(&f, "platform")), "linux/aarch64");
    assert_eq!(str_of(member_value(&f, "other")), "keep");
    assert_eq!(f[0].0, "ide_type");
    assert_eq!(f.len(), 5);
}

#[test]
fn fixes_on_v1internal_request() {
    let mut p = obj(vec![
        ("protocol_version", s("v1internal")),
        ("tools", JsonValue::Array(vec![tool("googleSearch"), tool("fn")])),
    ]);
    apply_android_stealth_fixes_with_version(&mut p, "1.15.8");
    assert_eq!(tool_names(&p), vec!["fn".to_string()]);
    let md = member_value(fields_of(&p), "metadata").expect("metadata");
    assert_eq!(str_of(member_value(fields_of(md), "ide_version")), "1.15.8");
    assert_eq!(str_of(member_value(fields_of(md), "ide_name")), "antigravity");
}

#[test]
fn fixes_keep_tools_of_other_protocols() {
    let mut p = obj(vec![
        ("protocol_version", s("v1")),
        ("tools", JsonValue::Array(vec![tool("googleSearch")])),
        ("metadata", obj(vec![("x", s("y"))])),
    ]);
    apply_android_stealth_fixes_with_version(&mut p, "2.0.0");
    assert_eq!(tool_names(&p), vec!["googleSearch".to_string()]);
    let md = member_value(fields_of(&p), "metadata").expect("metadata");
    assert_eq!(str_of(member_value(fields_of(md), "x")), "y");
    assert_eq!(str_of(member_value(fields_of(md), "platform")), "linux/aarch64");
}

#[test]
fn fixes_leave_non_objects_and_odd_metadata() {
    let mut p = JsonValue::Array(vec![s("a")]);
    apply_android_stealth_fixes_with_version(&mut p, "1.0.0");
    assert!(matches!(p, JsonValue::Array(ref v) if v.len() == 1));
    let mut q = obj(vec![("metadata", s("text"))]);
    apply_android_stealth_fixes_with_version(&mut q, "1.0.0");
    assert_eq!(str_of(member_value(fields_of(&q), "metadata")), "text");
}

#[test]
fn fixes_with_current_fingerprint_stamp_a_version() {
    let mut p = obj(vec![]);
    apply_android_stealth_fixes(&mut p);
    let md = member_value(fields_of(&p), "metadata").expect("metadata");
    let v = str_of(member_value(fields_of(md), "ide_version"));
    assert!(v.starts_with("1.21."));
}
