use pop_launcher_toggl::config::{config_path, icon, load, save_text, DEFAULT_KEYWORD};

#[test]
fn missing_file_gives_defaults() {
    let c = load(None);
    assert_eq!(c.token, None);
    assert_eq!(c.wid, None);
    assert_eq!(c.keyword, DEFAULT_KEYWORD);
}

#[test]
fn lenient_parsing() {
    let text = "# comment\n  api_token = 'abc' # trailing\nworkspace_id=\"42\"\r\nkeyword =\n unknown = 1\nnot a setting\n";
    let c = load(Some(text));
    assert_eq!(c.token.as_deref(), Some("abc"));
    assert_eq!(c.wid, Some(42));
    assert_eq!(c.keyword, "toggl");
}

#[test]
fn workspace_zero_or_garbage_clears_it() {
    assert_eq!(load(Some("workspace_id = 5\nworkspace_id = 0")).wid, None);
    assert_eq!(load(Some("workspace_id = 5\nworkspace_id = x")).wid, None);
    assert_eq!(load(Some("workspace_id = -12")).wid, Some(-12));
    assert_eq!(load(Some("workspace_id = 99999999999999999999")).wid, None);
}

#[test]
fn empty_values_are_ignored() {
    let c = load(Some("api_token = \"t\"\napi_token = \"\"\nkeyword = \"k\"\nkeyword = ''"));
    assert_eq!(c.token.as_deref(), Some("t"));
    assert_eq!(c.keyword, "k");
}

#[test]
fn saved_text_reads_back() {
    let text = save_text("my token", 1234567, "tg");
    assert_eq!(
        text,
        "# Toggl Track API configuration\n# Get your API token from: https://track.toggl.com/profile\n\napi_token = \"my token\"\nworkspace_id = 1234567\nkeyword = \"tg\"\n"
    );
    let c = load(Some(&text));
    assert_eq!(c.token.as_deref(), Some("my token"));
    assert_eq!(c.wid, Some(1234567));
    assert_eq!(c.keyword, "tg");
}

#[test]
fn paths_join_like_pathbuf() {
    assert_eq!(config_path("/opt/plugin"), "/opt/plugin/config.toml");
    assert_eq!(config_path("/opt/plugin/"), "/opt/plugin/config.toml");
    assert_eq!(icon("/opt/plugin", "play"), "/opt/plugin/icons/play.svg");
    assert_eq!(icon(".", "stop"), "./icons/stop.svg");
    let joined = std::path::PathBuf::from("/x/y").join("icons").join("plus.svg");
    assert_eq!(icon("/x/y", "plus"), joined.to_string_lossy());
}
