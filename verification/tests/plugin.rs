use std::collections::HashMap;

use pop_launcher_toggl::api::TimeEntry;
use pop_launcher_toggl::cache::{apply_refresh, new_cache, Cache};
use pop_launcher_toggl::config::Config;
use pop_launcher_toggl::ipc::{append, clear, close, context, fill, finished};
use pop_launcher_toggl::plugin::{Effect, Plugin};

const NS: i128 = 1_000_000_000;
// 2020-01-01T00:00:00Z
const T0: i128 = 1_577_836_800 * NS;

fn s(x: &str) -> String {
    x.to_string()
}

fn entry(id: i64, desc: &str, project: Option<i64>) -> TimeEntry {
    TimeEntry {
        id,
        description: Some(s(desc)),
        project_id: project,
        workspace_id: None,
        start: Some(s("2020-01-01T00:00:00Z")),
        tags: Some(vec![s("t")]),
        billable: true,
    }
}

fn configured() -> Plugin {
    Plugin::new(Config { token: Some(s("tok")), wid: Some(10), keyword: s("toggl") }, s("/p"))
}

fn cache_with(current: Option<TimeEntry>, recent: Vec<TimeEntry>, projects: &[(i64, &str)]) -> Cache {
    let mut c = new_cache();
    let mut m = HashMap::new();
    for (id, n) in projects {
        m.insert(*id, s(n));
    }
    apply_refresh(&mut c, Ok(current), recent, Ok(m), 0);
    c
}

fn sent(effects: &[Effect]) -> Vec<String> {
    effects
        .iter()
        .filter_map(|e| match e {
            Effect::Send(line) => Some(line.clone()),
            _ => None,
        })
        .collect()
}

#[test]
fn unconfigured_search_asks_for_setup() {
    let mut p = Plugin::new(Config { token: None, wid: Some(1), keyword: s("toggl") }, s("/p"));
    let out = p.handle_search("toggl", &new_cache(), T0);
    assert_eq!(
        sent(&out),
        vec![
            clear(),
            append(0, "Toggl Track: Setup required", "Click to enter your API token & workspace ID", "/p/icons/settings.svg"),
            finished(),
        ]
    );
    let out = p.handle_activate(0);
    assert!(matches!(out.as_slice(), [Effect::RunSetup]));
    let out = p.setup_finished(Some((s("new"), 5)));
    assert_eq!(sent(&out), vec![fill("toggl ")]);
    assert!(p.configured());
}

#[test]
fn rate_limited_search_warns() {
    let mut p = configured();
    let mut c = new_cache();
    apply_refresh(&mut c, Err(pop_launcher_toggl::api::ApiError::RateLimit), vec![], Ok(HashMap::new()), 0);
    let out = p.handle_search("toggl", &c, T0);
    assert_eq!(
        sent(&out),
        vec![clear(), append(0, "API rate limit reached", "Try again in a few minutes", "/p/icons/warning.svg"), finished()]
    );
}

#[test]
fn search_lists_running_new_and_recent() {
    let mut p = configured();
    let recent: Vec<TimeEntry> = (1..8).map(|i| entry(i, &format!("task {i}"), if i == 1 { Some(5) } else { None })).collect();
    let c = cache_with(Some(entry(100, "Running thing", Some(5))), recent, &[(5, "Proj")]);
    let out = p.handle_search("toggl", &c, T0 + (3600 + 5 * 60) * NS);
    assert_eq!(
        sent(&out),
        vec![
            clear(),
            append(0, "Running: Running thing", "Proj \u{2022} Elapsed: 1h 05m \u{2022} Click to stop", "/p/icons/stop.svg"),
            append(1, "New timer", "Start a new timer with project selection", "/p/icons/plus.svg"),
            append(2, "task 1", "Proj", "/p/icons/play.svg"),
            append(3, "task 2", "No project", "/p/icons/play.svg"),
            append(4, "task 3", "No project", "/p/icons/play.svg"),
            append(5, "task 4", "No project", "/p/icons/play.svg"),
            append(6, "task 5", "No project", "/p/icons/play.svg"),
            finished(),
        ]
    );
}

#[test]
fn filtered_search_ranks_matches() {
    let mut p = configured();
    let recent = vec![entry(1, "write report", None), entry(2, "meeting", None), entry(3, "rep", None)];
    let c = cache_with(Some(entry(100, "zzz", None)), recent, &[]);
    let out = p.handle_search("toggl rep", &c, T0);
    assert_eq!(
        sent(&out),
        vec![
            clear(),
            append(0, "New timer: rep", "Start timer with project selection", "/p/icons/plus.svg"),
            append(1, "rep", "No project", "/p/icons/play.svg"),
            append(2, "write report", "No project", "/p/icons/play.svg"),
            finished(),
        ]
    );
    assert_eq!(p.filter_text_value, "rep");
}

#[test]
fn filter_text_strips_the_keyword_case_insensitively() {
    let p = configured();
    assert_eq!(p.filter_text("TOGGL  hello "), "hello");
    assert_eq!(p.filter_text("hello"), "hello");
    assert_eq!(p.filter_text("togg"), "togg");
}

#[test]
fn starting_a_recent_entry_stops_the_running_one() {
    let mut p = configured();
    let c = cache_with(Some(entry(100, "now", None)), vec![entry(1, "old", Some(5))], &[]);
    p.handle_search("toggl", &c, T0);
    // Row 0 is the running timer, row 1 "New timer", row 2 the entry.
    let out = p.handle_activate(2);
    assert_eq!(sent(&out), vec![fill("Started: old"), close()]);
    assert!(matches!(out[2], Effect::InvalidateCache));
    match &out[3] {
        Effect::Spawn(job) => {
            assert_eq!(job.token, "tok");
            assert_eq!(job.wid, 10);
            assert_eq!(job.stop.as_ref().map(|e| e.id), Some(100));
            let start = job.start.as_ref().unwrap();
            assert_eq!(start.description, "old");
            assert_eq!(start.project_id, Some(5));
            assert_eq!(start.tags, Some(vec![s("t")]));
            assert!(start.billable);
        }
        _ => panic!("expected a job"),
    }
    assert_eq!(out.len(), 4);
}

#[test]
fn new_timer_goes_through_project_selection() {
    let mut p = configured();
    let c = cache_with(None, vec![], &[(1, "beta"), (2, "Alpha"), (3, "gamma")]);
    p.handle_search("toggl Fix bug", &c, T0);
    let out = p.handle_activate(0);
    assert_eq!(sent(&out), vec![fill("toggl ")]);
    assert_eq!(p.pending_new_desc.as_deref(), Some("Fix bug"));
    let out = p.handle_search("toggl", &c, T0);
    assert_eq!(
        sent(&out),
        vec![
            clear(),
            clear(),
            append(0, "Creating: Fix bug", "Select a project below (click here to cancel)", "/p/icons/plus.svg"),
            append(1, "No project", "Start timer without a project", "/p/icons/play.svg"),
            append(2, "Alpha", "Select project", "/p/icons/play.svg"),
            append(3, "beta", "Select project", "/p/icons/play.svg"),
            append(4, "gamma", "Select project", "/p/icons/play.svg"),
            finished(),
        ]
    );
    let out = p.handle_activate(3);
    assert_eq!(sent(&out), vec![fill("Started: Fix bug"), close()]);
    match &out[3] {
        Effect::Spawn(job) => {
            assert!(job.stop.is_none());
            let start = job.start.as_ref().unwrap();
            assert_eq!(start.description, "Fix bug");
            assert_eq!(start.project_id, Some(1));
            assert_eq!(start.tags, None);
            assert!(!start.billable);
        }
        _ => panic!("expected a job"),
    }
    assert!(p.pending_new_desc.is_none());
}

#[test]
fn cancelling_project_selection_clears_the_pending_timer() {
    let mut p = configured();
    let c = cache_with(None, vec![], &[(1, "beta")]);
    p.handle_search("toggl", &c, T0);
    p.handle_activate(0);
    p.handle_search("toggl be", &c, T0);
    let out = p.handle_activate(0);
    assert_eq!(sent(&out), vec![fill("toggl ")]);
    assert!(p.pending_new_desc.is_none());
}

#[test]
fn context_menu_offers_stop_only_while_running() {
    let mut p = configured();
    assert_eq!(sent(&p.handle_context(4)), vec![context(4, &vec![s("Open Toggl in browser")])]);
    let c = cache_with(Some(entry(100, "now", None)), vec![], &[]);
    p.handle_search("toggl", &c, T0);
    assert_eq!(
        sent(&p.handle_context(0)),
        vec![context(0, &vec![s("Open Toggl in browser"), s("Stop timer")])]
    );
    let out = p.handle_activate_context(0, 1);
    assert_eq!(sent(&out), vec![fill("Stopped: now"), close()]);
    assert!(matches!(&out[3], Effect::Spawn(job) if job.stop.as_ref().map(|e| e.id) == Some(100)));
    let out = p.handle_activate_context(0, 0);
    assert!(matches!(out[0], Effect::OpenBrowser));
    assert_eq!(sent(&out), vec![close()]);
    assert!(p.handle_activate_context(0, 7).is_empty());
}

#[test]
fn activating_past_the_rows_does_nothing() {
    let mut p = configured();
    assert!(p.handle_activate(9).is_empty());
}

#[test]
fn stop_entry_prefers_the_entry_workspace() {
    let mut e = entry(5, "x", None);
    assert_eq!(
        pop_launcher_toggl::plugin::stop_entry("tok", 10, &e).url,
        "https://api.track.toggl.com/api/v9/workspaces/10/time_entries/5/stop"
    );
    e.workspace_id = Some(3);
    assert_eq!(
        pop_launcher_toggl::plugin::stop_entry("tok", 10, &e).url,
        "https://api.track.toggl.com/api/v9/workspaces/3/time_entries/5/stop"
    );
}

#[test]
fn filter_text_cuts_the_query_by_the_lowercased_keyword_bytes() {
    // "İ" lowercases to "i̇", three bytes: the query loses "İa", three bytes too.
    let p = Plugin::new(Config { token: None, wid: None, keyword: s("İ") }, s("/p"));
    assert_eq!(p.filter_text("İab"), "b");
    // The Kelvin sign lowercases to "k", but one byte falls inside it: the
    // whole query is kept.
    let p = Plugin::new(Config { token: None, wid: None, keyword: s("k") }, s("/p"));
    assert_eq!(p.filter_text("\u{212A}x "), "\u{212A}x");
}
