use pop_launcher_toggl::ipc::{append, clear, close, context, fill, finished, parse_request, Request};
use pop_launcher_toggl::json::Json;

fn s(x: &str) -> String {
    x.to_string()
}

fn obj(fields: Vec<(&str, Json)>) -> Json {
    Json::Object(fields.into_iter().map(|(k, v)| (k.to_string(), v)).collect())
}

#[test]
fn lines_match_the_wire_format() {
    assert_eq!(clear(), "{\"Clear\":null}");
    assert_eq!(finished(), "{\"Finished\":null}");
    assert_eq!(close(), "{\"Close\":null}");
    assert_eq!(fill("toggl "), "{\"Fill\":\"toggl \"}");
    assert_eq!(
        append(3, "Run \"x\"", "a\\b\n\u{1}", "/i/p.svg"),
        "{\"Append\":{\"description\":\"a\\\\b\\n\\u0001\",\"exec\":null,\"icon\":{\"Name\":\"/i/p.svg\"},\"id\":3,\"keywords\":null,\"name\":\"Run \\\"x\\\"\",\"window\":null}}"
    );
    assert_eq!(
        context(2, &vec![s("Open"), s("Stop")]),
        "{\"Context\":{\"id\":2,\"options\":[{\"id\":0,\"name\":\"Open\"},{\"id\":1,\"name\":\"Stop\"}]}}"
    );
    assert_eq!(context(0, &vec![]), "{\"Context\":{\"id\":0,\"options\":[]}}");
}

#[test]
fn lines_agree_with_serde_json() {
    let mut inner = serde_json::Map::new();
    inner.insert("id".into(), 7.into());
    inner.insert("name".into(), "ž\t\u{7f}".into());
    inner.insert("description".into(), "d".into());
    inner.insert("keywords".into(), serde_json::Value::Null);
    let mut icon = serde_json::Map::new();
    icon.insert("Name".into(), "i".into());
    inner.insert("icon".into(), serde_json::Value::Object(icon));
    inner.insert("exec".into(), serde_json::Value::Null);
    inner.insert("window".into(), serde_json::Value::Null);
    let mut outer = serde_json::Map::new();
    outer.insert("Append".into(), serde_json::Value::Object(inner));
    assert_eq!(append(7, "ž\t\u{7f}", "d", "i"), serde_json::Value::Object(outer).to_string());
}

#[test]
fn requests_are_recognized() {
    assert!(matches!(parse_request(&Json::Str(s("Exit"))), Request::Exit));
    assert!(matches!(parse_request(&Json::Str(s("Interrupt"))), Request::Ignore));
    match parse_request(&obj(vec![("Search", Json::Str(s("toggl x")))])) {
        Request::Search(q) => assert_eq!(q, "toggl x"),
        _ => panic!("not a search"),
    }
    assert!(matches!(parse_request(&obj(vec![("Activate", Json::Int(3))])), Request::Activate(3)));
    assert!(matches!(parse_request(&obj(vec![("Context", Json::Int(1))])), Request::Context(1)));
    let ac = obj(vec![("id", Json::Int(4)), ("context", Json::Int(1))]);
    assert!(matches!(
        parse_request(&obj(vec![("ActivateContext", ac)])),
        Request::ActivateContext(4, 1)
    ));
    let partial = obj(vec![("id", Json::Int(4))]);
    assert!(matches!(parse_request(&obj(vec![("ActivateContext", partial)])), Request::Ignore));
    assert!(matches!(parse_request(&obj(vec![("Exit", Json::Null)])), Request::Exit));
    assert!(matches!(parse_request(&obj(vec![("Activate", Json::Int(-1))])), Request::Ignore));
    assert!(matches!(parse_request(&Json::Int(1)), Request::Ignore));
}
