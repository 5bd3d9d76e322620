use std::collections::HashMap;

use pop_launcher_toggl::api::{ApiError, TimeEntry};
use pop_launcher_toggl::cache::{
    age, apply_refresh, dedup_recent, invalidate, is_rate_limited, new_cache, refresh, snapshot,
    RefreshPlan, CACHE_TTL_MS,
};

fn entry(id: i64, desc: Option<&str>, project: Option<i64>) -> TimeEntry {
    TimeEntry {
        id,
        description: desc.map(|s| s.to_string()),
        project_id: project,
        workspace_id: None,
        start: None,
        tags: None,
        billable: false,
    }
}

fn ids(v: &[TimeEntry]) -> Vec<i64> {
    v.iter().map(|e| e.id).collect()
}

#[test]
fn dedup_keeps_most_recent_per_key_and_skips_current() {
    let recent = vec![
        entry(1, Some("a"), None),
        entry(2, Some("a"), None),
        entry(3, Some("a"), Some(5)),
        entry(4, None, None),
        entry(5, Some(""), None),
        entry(6, Some("b"), None),
    ];
    assert_eq!(ids(&dedup_recent(recent.clone(), None)), vec![1, 3, 4, 6]);
    assert_eq!(ids(&dedup_recent(recent, Some(1))), vec![2, 3, 4, 6]);
}

#[test]
fn dedup_caps_at_twenty() {
    let recent: Vec<TimeEntry> = (0..30).map(|i| entry(i, Some(&format!("e{i}")), None)).collect();
    let kept = dedup_recent(recent, Some(0));
    assert_eq!(ids(&kept), (1..21).collect::<Vec<_>>());
}

#[test]
fn refresh_plan_follows_age() {
    let mut c = new_cache();
    assert!(matches!(refresh(&c, 5, false), RefreshPlan::StartAndWait));
    apply_refresh(&mut c, Ok(None), vec![], Ok(HashMap::new()), 1000);
    assert_eq!(age(&c, 1500), Some(500));
    assert_eq!(age(&c, 900), Some(0));
    assert!(matches!(refresh(&c, 1000 + CACHE_TTL_MS - 1, false), RefreshPlan::Fresh));
    assert!(matches!(refresh(&c, 1000 + CACHE_TTL_MS, false), RefreshPlan::StartInBackground));
    assert!(matches!(refresh(&c, 1001, true), RefreshPlan::StartInBackground));
    invalidate(&mut c);
    assert_eq!(age(&c, 1500), None);
    assert!(matches!(refresh(&c, 1500, false), RefreshPlan::StartAndWait));
}

#[test]
fn rate_limit_keeps_old_data() {
    let mut c = new_cache();
    let mut p = HashMap::new();
    p.insert(5, "Proj".to_string());
    apply_refresh(&mut c, Ok(Some(entry(9, Some("run"), None))), vec![entry(1, Some("x"), None)], Ok(p), 10);
    assert!(!is_rate_limited(&c));
    apply_refresh(&mut c, Err(ApiError::RateLimit), vec![], Ok(HashMap::new()), 20);
    assert!(is_rate_limited(&c));
    assert_eq!(c.ts, Some(20));
    let (cur, entries, projects) = snapshot(&c);
    assert_eq!(cur.map(|e| e.id), Some(9));
    assert_eq!(ids(&entries), vec![1]);
    assert_eq!(projects.get(&5).map(String::as_str), Some("Proj"));
    apply_refresh(&mut c, Ok(None), vec![], Err(ApiError::RateLimit), 30);
    assert!(is_rate_limited(&c));
    apply_refresh(&mut c, Err(ApiError::Other), vec![entry(2, None, None)], Err(ApiError::Other), 40);
    assert!(!is_rate_limited(&c));
    let (cur, entries, projects) = snapshot(&c);
    assert!(cur.is_none());
    assert_eq!(ids(&entries), vec![2]);
    assert!(projects.is_empty());
}
