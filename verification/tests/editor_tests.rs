use bench::editor::{asset_reply, prepare_scenario_put, scenario_get_reply, write_failure_reply, FileRead, WriteStep};

#[test]
fn get_existing_file() {
    let r = scenario_get_reply(FileRead::Found("{\"x\":1}".to_string()));
    assert_eq!(r.status, 200);
    assert_eq!(r.content_type, "application/json");
    assert_eq!(r.body, "{\"x\":1}");
}

#[test]
fn get_missing_file_gives_template() {
    let r = scenario_get_reply(FileRead::NotFound);
    assert_eq!(r.status, 200);
    let v: serde_json::Value = serde_json::from_str(&r.body).unwrap();
    assert_eq!(v["run"]["concurrency"], 10);
    assert_eq!(v["run"]["requests"], 100);
    assert_eq!(v["run"]["output"], "report.html");
    assert!(v["scenarios"].as_array().unwrap().is_empty());
}

#[test]
fn get_failure() {
    let r = scenario_get_reply(FileRead::Failed("permission denied".to_string()));
    assert_eq!(r.status, 500);
    assert_eq!(r.body, "Cannot read file: permission denied");
}

#[test]
fn put_reformats_json() {
    let pretty = prepare_scenario_put(b"{\"a\":[1,2]}").unwrap();
    assert_eq!(pretty, "{\n  \"a\": [\n    1,\n    2\n  ]\n}");
}

#[test]
fn put_rejects_invalid_json() {
    let r = prepare_scenario_put(b"{oops").unwrap_err();
    assert_eq!(r.status, 400);
    assert!(r.body.starts_with("Invalid JSON: "));
}

#[test]
fn write_failures() {
    assert_eq!(write_failure_reply(WriteStep::WriteFile, "disk full").body, "Cannot write file: disk full");
    assert_eq!(write_failure_reply(WriteStep::CreateDirectory, "denied").status, 500);
}

#[test]
fn assets_are_typed_by_extension() {
    let r = asset_reply("index.html", Some(b"<html></html>".to_vec()));
    assert_eq!(r.status, 200);
    assert_eq!(r.content_type.as_deref(), Some("text/html"));
    assert_eq!(r.body, b"<html></html>".to_vec());
    let r = asset_reply("assets/app.css", Some(vec![]));
    assert_eq!(r.content_type.as_deref(), Some("text/css"));
    let r = asset_reply("LICENSE", Some(vec![1, 2]));
    assert_eq!(r.content_type.as_deref(), Some("application/octet-stream"));
}

#[test]
fn missing_asset_is_not_found() {
    let r = asset_reply("assets/missing.js", None);
    assert_eq!(r.status, 404);
    assert!(r.content_type.is_none());
    assert!(r.body.is_empty());
}
