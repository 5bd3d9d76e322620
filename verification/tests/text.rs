use pop_launcher_toggl::text::preview;

#[test]
fn preview_keeps_short_text() {
    assert_eq!(preview("{\"Search\":\"toggl\"}", 160), "{\"Search\":\"toggl\"}");
    assert_eq!(preview("abc", 3), "abc");
    assert_eq!(preview("", 0), "");
}

#[test]
fn preview_cuts_long_text_by_characters() {
    assert_eq!(preview("abcdef", 3), "abc…");
    assert_eq!(preview("žluťoučký", 4), "žluť…");
    assert_eq!(preview("x", 0), "…");
}
