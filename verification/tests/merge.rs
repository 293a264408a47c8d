use tessera_bridge::merge::{apply_settings_patch, copy_json, merge_patch, Json};

fn num(text: &str) -> Json {
    Json::Number(text.to_string())
}

fn obj(members: Vec<(&str, Json)>) -> Json {
    Json::Object(members.into_iter().map(|(k, v)| (k.to_string(), v)).collect())
}

#[test]
fn merge_patch_follows_rfc7386() {
    let mut v = obj(vec![("a", obj(vec![("b", num("1")), ("c", num("2"))])), ("d", num("3"))]);
    merge_patch(
        &mut v,
        &obj(vec![("a", obj(vec![("b", num("5")), ("c", Json::Null)])), ("e", Json::Array(vec![num("1")]))]),
    );
    assert_eq!(
        v,
        obj(vec![("a", obj(vec![("b", num("5"))])), ("d", num("3")), ("e", Json::Array(vec![num("1")]))])
    );
}

#[test]
fn a_patch_that_is_not_an_object_replaces_the_target() {
    let mut v = obj(vec![("a", num("1"))]);
    merge_patch(&mut v, &Json::Text("x".to_string()));
    assert_eq!(v, Json::Text("x".to_string()));
    let mut v = Json::Bool(true);
    merge_patch(&mut v, &Json::Array(vec![Json::Null]));
    assert_eq!(v, Json::Array(vec![Json::Null]));
}

#[test]
fn an_object_patch_turns_any_target_into_an_object() {
    let mut v = num("7");
    merge_patch(&mut v, &obj(vec![("a", Json::Null), ("b", obj(vec![("c", Json::Null), ("d", Json::Bool(false))]))]));
    assert_eq!(v, obj(vec![("b", obj(vec![("d", Json::Bool(false))]))]));
}

#[test]
fn unnamed_members_stay_in_place() {
    let mut v = obj(vec![("x", num("1")), ("y", num("2")), ("z", num("3"))]);
    merge_patch(&mut v, &obj(vec![("y", Json::Text("two".to_string()))]));
    assert_eq!(v, obj(vec![("x", num("1")), ("y", Json::Text("two".to_string())), ("z", num("3"))]));
    let mut w = obj(vec![]);
    merge_patch(&mut w, &obj(vec![]));
    assert_eq!(w, obj(vec![]));
}

#[test]
fn a_copy_is_equal() {
    let v = obj(vec![("a", Json::Array(vec![num("1"), Json::Null, obj(vec![("b", Json::Bool(true))])]))]);
    assert_eq!(copy_json(&v), v);
}

#[test]
fn a_patch_applied_twice_changes_nothing_more() {
    let patch = obj(vec![("a", obj(vec![("b", num("5")), ("c", Json::Null)])), ("e", Json::Null), ("f", num("1"))]);
    let mut once = obj(vec![("a", obj(vec![("c", num("2"))])), ("e", num("3"))]);
    merge_patch(&mut once, &patch);
    let mut twice = copy_json(&once);
    merge_patch(&mut twice, &patch);
    assert_eq!(once, obj(vec![("a", obj(vec![("b", num("5"))])), ("f", num("1"))]));
    assert_eq!(twice, once);
}

fn text(t: &str) -> Json {
    Json::Text(t.to_string())
}

fn settings() -> Json {
    obj(vec![
        ("white_balance", obj(vec![("mode", text("as_shot")), ("temperature", num("5000")), ("tint", num("3"))])),
        ("tone", obj(vec![("exposure", num("0"))])),
    ])
}

#[test]
fn a_temperature_without_a_mode_makes_white_balance_custom() {
    let mut s = settings();
    let p = apply_settings_patch(&mut s, r#"{"white_balance":{"temperature":6000}}"#, Some((num("5200"), num("7")))).unwrap();
    assert_eq!(p, obj(vec![("white_balance", obj(vec![("temperature", num("6000"))]))]));
    assert_eq!(
        s,
        obj(vec![
            ("white_balance", obj(vec![("mode", text("custom")), ("temperature", num("6000")), ("tint", num("7"))])),
            ("tone", obj(vec![("exposure", num("0"))])),
        ])
    );
}

#[test]
fn away_from_as_shot_only_the_mode_changes() {
    let mut s = settings();
    apply_settings_patch(&mut s, r#"{"white_balance":{"tint":-4}}"#, None).unwrap();
    assert_eq!(
        s,
        obj(vec![
            ("white_balance", obj(vec![("mode", text("custom")), ("temperature", num("5000")), ("tint", num("-4"))])),
            ("tone", obj(vec![("exposure", num("0"))])),
        ])
    );
}

#[test]
fn a_patch_with_a_mode_or_without_white_balance_is_only_merged() {
    let mut s = settings();
    apply_settings_patch(&mut s, r#"{"white_balance":{"mode":"auto","tint":1}}"#, Some((num("5200"), num("7")))).unwrap();
    assert_eq!(
        s,
        obj(vec![
            ("white_balance", obj(vec![("mode", text("auto")), ("temperature", num("5000")), ("tint", num("1"))])),
            ("tone", obj(vec![("exposure", num("0"))])),
        ])
    );
    let mut s = settings();
    apply_settings_patch(&mut s, r#"{"tone":{"exposure":1.5}}"#, Some((num("5200"), num("7")))).unwrap();
    assert_eq!(
        s,
        obj(vec![
            ("white_balance", obj(vec![("mode", text("as_shot")), ("temperature", num("5000")), ("tint", num("3"))])),
            ("tone", obj(vec![("exposure", num("1.5"))])),
        ])
    );
}

#[test]
fn a_patch_that_does_not_parse_changes_nothing() {
    let mut s = settings();
    assert!(apply_settings_patch(&mut s, "{not json", None).is_err());
    assert_eq!(s, settings());
}
