use pop_launcher_toggl::setup::{dialog_answer, parse_workspace_id, plan_workspace, WorkspacePlan};

#[test]
fn one_workspace_is_used() {
    assert!(matches!(plan_workspace(&Some(vec![(7, "W".to_string())])), WorkspacePlan::Use(7)));
}

#[test]
fn several_workspaces_are_listed() {
    match plan_workspace(&Some(vec![(1, "A".to_string()), (22, "B".to_string())])) {
        WorkspacePlan::Pick(args) => assert_eq!(
            args,
            vec![
                "--list", "--title=Select Workspace", "--text=Choose your workspace:", "--column=ID",
                "--column=Workspace", "--hide-column=1", "--width=400", "--height=300", "1", "A",
                "22", "B",
            ]
        ),
        _ => panic!("expected a list"),
    }
}

#[test]
fn no_workspaces_means_manual_entry() {
    assert!(matches!(plan_workspace(&None), WorkspacePlan::Manual));
    assert!(matches!(plan_workspace(&Some(vec![])), WorkspacePlan::Manual));
}

#[test]
fn answers_are_trimmed_and_parsed() {
    assert_eq!(dialog_answer("  tok \n").as_deref(), Some("tok"));
    assert_eq!(dialog_answer(" \n"), None);
    assert_eq!(parse_workspace_id("123"), Some(123));
    assert_eq!(parse_workspace_id("+5"), Some(5));
    assert_eq!(parse_workspace_id("12a"), None);
    assert_eq!(parse_workspace_id(""), None);
    assert_eq!(parse_workspace_id("-"), None);
}

#[test]
fn workspace_ids_parse_across_the_whole_i64_range() {
    assert_eq!(parse_workspace_id("9223372036854775807"), Some(i64::MAX));
    assert_eq!(parse_workspace_id("-9223372036854775808"), Some(i64::MIN));
    assert_eq!(parse_workspace_id("9223372036854775808"), None);
    assert_eq!(parse_workspace_id("-9223372036854775809"), None);
    assert_eq!(parse_workspace_id("00042"), Some(42));
    assert_eq!(parse_workspace_id(" 42"), None);
}

use pop_launcher_toggl::setup::{setup_step, SetupAction, SetupEvent, SetupState};

fn finish(a: &SetupAction) -> Option<Option<(String, i64)>> {
    match a {
        SetupAction::Finish(r) => Some(r.clone()),
        _ => None,
    }
}

#[test]
fn setup_with_one_workspace_saves_it() {
    let (s, a) = setup_step(SetupState::Start, SetupEvent::Begin);
    assert!(matches!(&a, SetupAction::ShowDialog(args) if args[0] == "--entry" && args.len() == 4));
    let (s, a) = setup_step(s, SetupEvent::Answered(Some("  tok\n".to_string())));
    assert!(matches!(&a, SetupAction::FetchWorkspaces(t) if t == "tok"));
    let (s, a) = setup_step(s, SetupEvent::Fetched(Some(vec![(7, "Home".to_string())])));
    assert!(matches!(&a, SetupAction::Save(t, 7) if t == "tok"));
    let (_, a) = setup_step(s, SetupEvent::Saved);
    assert_eq!(finish(&a), Some(Some(("tok".to_string(), 7))));
}

#[test]
fn setup_with_several_workspaces_offers_a_list() {
    let s = SetupState::AwaitWorkspaces("tok".to_string());
    let (s, a) = setup_step(s, SetupEvent::Fetched(Some(vec![(1, "A".to_string()), (2, "B".to_string())])));
    match &a {
        SetupAction::ShowDialog(args) => {
            assert_eq!(args[0], "--list");
            assert_eq!(&args[8..], &["1", "A", "2", "B"]);
        }
        _ => panic!("expected a list dialog"),
    }
    let (s, a) = setup_step(s, SetupEvent::Answered(Some("2\n".to_string())));
    assert!(matches!(&a, SetupAction::Save(t, 2) if t == "tok"));
    let (_, a) = setup_step(s, SetupEvent::Saved);
    assert_eq!(finish(&a), Some(Some(("tok".to_string(), 2))));
    // A list answer that is not a number gives up without an error dialog.
    let (_, a) = setup_step(SetupState::AwaitPick("tok".to_string()), SetupEvent::Answered(Some("x".to_string())));
    assert_eq!(finish(&a), Some(None));
}

#[test]
fn setup_without_workspaces_asks_and_reports_bad_ids() {
    let (s, a) = setup_step(SetupState::AwaitWorkspaces("tok".to_string()), SetupEvent::Fetched(None));
    assert!(matches!(&a, SetupAction::ShowDialog(args) if args[0] == "--entry" && args[2].starts_with("--text=Could not fetch")));
    let (s2, a) = setup_step(s, SetupEvent::Answered(Some("12x".to_string())));
    assert!(matches!(&a, SetupAction::ShowDialog(args) if args == &["--error", "--text=Workspace ID must be a number.", "--width=300"]));
    let (_, a) = setup_step(s2, SetupEvent::Answered(None));
    assert_eq!(finish(&a), Some(None));
    let (s, _) = setup_step(SetupState::AwaitWorkspaces("tok".to_string()), SetupEvent::Fetched(Some(vec![])));
    let (_, a) = setup_step(s, SetupEvent::Answered(Some(" 42 ".to_string())));
    assert!(matches!(&a, SetupAction::Save(t, 42) if t == "tok"));
}

#[test]
fn cancelled_dialogs_give_up() {
    let (s, _) = setup_step(SetupState::Start, SetupEvent::Begin);
    let (_, a) = setup_step(s, SetupEvent::Answered(None));
    assert_eq!(finish(&a), Some(None));
    let (_, a) = setup_step(SetupState::AwaitToken, SetupEvent::Answered(Some(" \n".to_string())));
    assert_eq!(finish(&a), Some(None));
    let (_, a) = setup_step(SetupState::AwaitManual("t".to_string()), SetupEvent::Answered(None));
    assert_eq!(finish(&a), Some(None));
}
