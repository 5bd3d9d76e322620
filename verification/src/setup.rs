//! First-run setup: what the dialogs ask once the API token is known.
//!
//! The dialogs themselves are run by the program; these functions decide
//! which one to show and read the answers.

use vstd::prelude::*;
use crate::api::pairs_view;
use crate::text::{chars_of, string_of, trim, spec_trim, spec_parse_i64, parse_i64, dec_int, fmt_i64};

verus! {

/// How the workspace is chosen.
pub enum WorkspacePlan {
    /// Exactly one workspace: use it.
    Use(i64),
    /// Several: let the user pick from a list dialog with these arguments.
    Pick(Vec<String>),
    /// None could be fetched: ask for the id.
    Manual,
}

/// The arguments of the list dialog that picks one of the workspaces.
pub open spec fn pick_args(list: Seq<(i64, Seq<char>)>) -> Seq<Seq<char>>
    decreases list.len(),
{
    if list.len() == 0 {
        seq![
            "--list"@,
            "--title=Select Workspace"@,
            "--text=Choose your workspace:"@,
            "--column=ID"@,
            "--column=Workspace"@,
            "--hide-column=1"@,
            "--width=400"@,
            "--height=300"@,
        ]
    } else {
        pick_args(list.drop_last()).push(dec_int(list.last().0 as int)).push(list.last().1)
    }
}

/// Strings by their characters.
pub open spec fn strs(v: Seq<String>) -> Seq<Seq<char>> {
    v.map_values(|s: String| s@)
}

/// How the workspace is chosen, given the fetched workspaces.
pub fn plan_workspace(workspaces: &Option<Vec<(i64, String)>>) -> (r: WorkspacePlan)
    ensures
        match workspaces {
            Some(list) => if list@.len() == 1 {
                r == WorkspacePlan::Use(list@[0].0)
            } else if list@.len() > 1 {
                r matches WorkspacePlan::Pick(args) && strs(args@) == pick_args(pairs_view(list@))
            } else {
                r is Manual
            },
            None => r is Manual,
        },
{
    match workspaces {
        Some(list) => {
            if list.len() == 1 {
                WorkspacePlan::Use(list[0].0)
            } else if list.len() > 1 {
                let ghost pv = pairs_view(list@);
                let mut args: Vec<String> = Vec::new();
                args.push(string_of(&chars_of("--list")));
                args.push(string_of(&chars_of("--title=Select Workspace")));
                args.push(string_of(&chars_of("--text=Choose your workspace:")));
                args.push(string_of(&chars_of("--column=ID")));
                args.push(string_of(&chars_of("--column=Workspace")));
                args.push(string_of(&chars_of("--hide-column=1")));
                args.push(string_of(&chars_of("--width=400")));
                args.push(string_of(&chars_of("--height=300")));
                assert(strs(args@) == pick_args(pv.take(0)));
                let mut i: usize = 0;
                while i < list.len()
                    invariant
                        i <= list.len(),
                        pv == pairs_view(list@),
                        strs(args@) == pick_args(pv.take(i as int)),
                    decreases list.len() - i,
                {
                    assert(pv.take(i + 1).drop_last() == pv.take(i as int));
                    assert(pv.take(i + 1).last() == pv[i as int]);
                    let ghost before = strs(args@);
                    args.push(string_of(&fmt_i64(list[i].0)));
                    args.push(list[i].1.clone());
                    assert(strs(args@) == before.push(dec_int(list@[i as int].0 as int)).push(
                        list@[i as int].1@,
                    ));
                    i = i + 1;
                }
                assert(pv.take(list.len() as int) == pv);
                WorkspacePlan::Pick(args)
            } else {
                WorkspacePlan::Manual
            }
        },
        None => WorkspacePlan::Manual,
    }
}

/// A dialog's answer: its output trimmed, `None` when that is empty.
pub fn dialog_answer(output: &str) -> (r: Option<String>)
    ensures
        match r {
            Some(s) => s@ == spec_trim(output@) && s@.len() > 0,
            None => spec_trim(output@).len() == 0,
        },
{
    let t = trim(&chars_of(output));
    if t.len() == 0 {
        None
    } else {
        Some(string_of(&t))
    }
}

/// The workspace id typed or picked, if it is an integer.
pub fn parse_workspace_id(answer: &str) -> (r: Option<i64>)
    ensures
        match r {
            Some(n) => spec_parse_i64(answer@) == Some(n as int),
            None => spec_parse_i64(answer@) is None,
        },
{
    parse_i64(&chars_of(answer))
}


// --- The dialog sequence ------------------------------------------------------------

/// Where the setup dialogs stand.
pub enum SetupState {
    /// Nothing asked yet.
    Start,
    /// The token dialog is open.
    AwaitToken,
    /// The workspaces of this token are being fetched.
    AwaitWorkspaces(String),
    /// The workspace list dialog is open, for this token.
    AwaitPick(String),
    /// The manual workspace dialog is open, for this token.
    AwaitManual(String),
    /// The error dialog about a bad workspace id is open.
    AwaitError,
    /// The configuration with this token and workspace is being saved.
    AwaitSave(String, i64),
    /// Setup is over.
    Done,
}

/// What happened since the last step.
pub enum SetupEvent {
    /// Setup was requested.
    Begin,
    /// The open dialog closed: its output on success, `None` when it was
    /// cancelled or could not be run.
    Answered(Option<String>),
    /// The workspaces fetched for the token, `None` when that failed.
    Fetched(Option<Vec<(i64, String)>>),
    /// The configuration was written.
    Saved,
}

/// What the program does next.
pub enum SetupAction {
    /// Show a `zenity` dialog with these arguments and report its answer.
    ShowDialog(Vec<String>),
    /// Fetch the workspaces of this token and report them.
    FetchWorkspaces(String),
    /// Write the configuration with this token and workspace and report it.
    Save(String, i64),
    /// Setup is over: the token and workspace chosen, or `None`.
    Finish(Option<(String, i64)>),
}

pub enum SetupStateView {
    Start,
    AwaitToken,
    AwaitWorkspaces(Seq<char>),
    AwaitPick(Seq<char>),
    AwaitManual(Seq<char>),
    AwaitError,
    AwaitSave(Seq<char>, i64),
    Done,
}

pub enum SetupEventView {
    Begin,
    Answered(Option<Seq<char>>),
    Fetched(Option<Seq<(i64, Seq<char>)>>),
    Saved,
}

pub enum SetupActionView {
    ShowDialog(Seq<Seq<char>>),
    FetchWorkspaces(Seq<char>),
    Save(Seq<char>, i64),
    Finish(Option<(Seq<char>, i64)>),
}

impl View for SetupState {
    type V = SetupStateView;

    open spec fn view(&self) -> SetupStateView {
        match self {
            SetupState::Start => SetupStateView::Start,
            SetupState::AwaitToken => SetupStateView::AwaitToken,
            SetupState::AwaitWorkspaces(t) => SetupStateView::AwaitWorkspaces(t@),
            SetupState::AwaitPick(t) => SetupStateView::AwaitPick(t@),
            SetupState::AwaitManual(t) => SetupStateView::AwaitManual(t@),
            SetupState::AwaitError => SetupStateView::AwaitError,
            SetupState::AwaitSave(t, w) => SetupStateView::AwaitSave(t@, *w),
            SetupState::Done => SetupStateView::Done,
        }
    }
}

impl View for SetupEvent {
    type V = SetupEventView;

    open spec fn view(&self) -> SetupEventView {
        match self {
            SetupEvent::Begin => SetupEventView::Begin,
            SetupEvent::Answered(o) => SetupEventView::Answered(
                match o {
                    Some(s) => Some(s@),
                    None => None,
                },
            ),
            SetupEvent::Fetched(o) => SetupEventView::Fetched(
                match o {
                    Some(v) => Some(pairs_view(v@)),
                    None => None,
                },
            ),
            SetupEvent::Saved => SetupEventView::Saved,
        }
    }
}

impl View for SetupAction {
    type V = SetupActionView;

    open spec fn view(&self) -> SetupActionView {
        match self {
            SetupAction::ShowDialog(args) => SetupActionView::ShowDialog(strs(args@)),
            SetupAction::FetchWorkspaces(t) => SetupActionView::FetchWorkspaces(t@),
            SetupAction::Save(t, w) => SetupActionView::Save(t@, *w),
            SetupAction::Finish(r) => SetupActionView::Finish(
                match r {
                    Some((t, w)) => Some((t@, *w)),
                    None => None,
                },
            ),
        }
    }
}

/// The dialog that asks for the API token.
pub open spec fn token_dialog() -> Seq<Seq<char>> {
    seq![
        "--entry"@,
        "--title=Toggl Track Setup"@,
        "--text=Enter your Toggl API token\n(find it at track.toggl.com/profile):"@,
        "--width=400"@,
    ]
}

/// The dialog that asks for the workspace id when none could be fetched.
pub open spec fn manual_dialog() -> Seq<Seq<char>> {
    seq![
        "--entry"@,
        "--title=Toggl Track Setup"@,
        "--text=Could not fetch workspaces automatically.\nEnter your Workspace ID manually\n(go to track.toggl.com, look for ?wid= or &wid= in the URL):"@,
        "--width=400"@,
    ]
}

/// The dialog that reports a workspace id that is not a number.
pub open spec fn error_dialog() -> Seq<Seq<char>> {
    seq!["--error"@, "--text=Workspace ID must be a number."@, "--width=300"@]
}

/// A dialog's output read as an answer: trimmed, and none when empty.
pub open spec fn spec_answer(o: Option<Seq<char>>) -> Option<Seq<char>> {
    match o {
        Some(s) => if spec_trim(s).len() > 0 {
            Some(spec_trim(s))
        } else {
            None
        },
        None => None,
    }
}

/// Giving up.
pub open spec fn give_up() -> (SetupStateView, SetupActionView) {
    (SetupStateView::Done, SetupActionView::Finish(None))
}

/// Saving the configuration with token `t` and workspace `w`.
pub open spec fn save(t: Seq<char>, w: i64) -> (SetupStateView, SetupActionView) {
    (SetupStateView::AwaitSave(t, w), SetupActionView::Save(t, w))
}

/// One step of setup: ask for the token; with it, fetch the workspaces and
/// use the only one, offer a list of several, or ask for the id when none
/// came; a bad typed id shows an error and gives up; a cancelled dialog
/// gives up; a saved configuration ends setup with its token and workspace.
/// Any other event gives up.
pub open spec fn spec_setup_step(s: SetupStateView, e: SetupEventView) -> (SetupStateView, SetupActionView) {
    match (s, e) {
        (SetupStateView::Start, SetupEventView::Begin) => (
            SetupStateView::AwaitToken,
            SetupActionView::ShowDialog(token_dialog()),
        ),
        (SetupStateView::AwaitToken, SetupEventView::Answered(o)) => match spec_answer(o) {
            Some(t) => (SetupStateView::AwaitWorkspaces(t), SetupActionView::FetchWorkspaces(t)),
            None => give_up(),
        },
        (SetupStateView::AwaitWorkspaces(t), SetupEventView::Fetched(ws)) => match ws {
            Some(l) => if l.len() == 1 {
                save(t, l[0].0)
            } else if l.len() > 1 {
                (SetupStateView::AwaitPick(t), SetupActionView::ShowDialog(pick_args(l)))
            } else {
                (SetupStateView::AwaitManual(t), SetupActionView::ShowDialog(manual_dialog()))
            },
            None => (SetupStateView::AwaitManual(t), SetupActionView::ShowDialog(manual_dialog())),
        },
        (SetupStateView::AwaitPick(t), SetupEventView::Answered(o)) => match spec_answer(o) {
            Some(a) => match spec_parse_i64(a) {
                Some(w) => save(t, w as i64),
                None => give_up(),
            },
            None => give_up(),
        },
        (SetupStateView::AwaitManual(t), SetupEventView::Answered(o)) => match spec_answer(o) {
            Some(a) => match spec_parse_i64(a) {
                Some(w) => save(t, w as i64),
                None => (SetupStateView::AwaitError, SetupActionView::ShowDialog(error_dialog())),
            },
            None => give_up(),
        },
        (SetupStateView::AwaitSave(t, w), SetupEventView::Saved) => (
            SetupStateView::Done,
            SetupActionView::Finish(Some((t, w))),
        ),
        _ => give_up(),
    }
}

fn token_dialog_args() -> (r: Vec<String>)
    ensures
        strs(r@) == token_dialog(),
{
    let mut r: Vec<String> = Vec::new();
    r.push(string_of(&chars_of("--entry")));
    r.push(string_of(&chars_of("--title=Toggl Track Setup")));
    r.push(string_of(&chars_of("--text=Enter your Toggl API token\n(find it at track.toggl.com/profile):")));
    r.push(string_of(&chars_of("--width=400")));
    assert(strs(r@) =~= token_dialog());
    r
}

fn manual_dialog_args() -> (r: Vec<String>)
    ensures
        strs(r@) == manual_dialog(),
{
    let mut r: Vec<String> = Vec::new();
    r.push(string_of(&chars_of("--entry")));
    r.push(string_of(&chars_of("--title=Toggl Track Setup")));
    r.push(
        string_of(
            &chars_of(
                "--text=Could not fetch workspaces automatically.\nEnter your Workspace ID manually\n(go to track.toggl.com, look for ?wid= or &wid= in the URL):",
            ),
        ),
    );
    r.push(string_of(&chars_of("--width=400")));
    assert(strs(r@) =~= manual_dialog());
    r
}

fn error_dialog_args() -> (r: Vec<String>)
    ensures
        strs(r@) == error_dialog(),
{
    let mut r: Vec<String> = Vec::new();
    r.push(string_of(&chars_of("--error")));
    r.push(string_of(&chars_of("--text=Workspace ID must be a number.")));
    r.push(string_of(&chars_of("--width=300")));
    assert(strs(r@) =~= error_dialog());
    r
}

/// The answer in a dialog's output.
fn answer(o: Option<String>) -> (r: Option<String>)
    ensures
        match r {
            Some(s) => spec_answer(match o {
                Some(x) => Some(x@),
                None => None,
            }) == Some(s@),
            None => spec_answer(match o {
                Some(x) => Some(x@),
                None => None,
            }) is None,
        },
{
    match o {
        Some(s) => dialog_answer(s.as_str()),
        None => None,
    }
}

/// Saving the configuration with token `t` and workspace `w`.
fn save_step(t: String, w: i64) -> (r: (SetupState, SetupAction))
    ensures
        (r.0@, r.1@) == save(t@, w),
{
    (SetupState::AwaitSave(t.clone(), w), SetupAction::Save(t, w))
}

/// Giving up.
fn give_up_step() -> (r: (SetupState, SetupAction))
    ensures
        (r.0@, r.1@) == give_up(),
{
    (SetupState::Done, SetupAction::Finish(None))
}

/// One step of the setup dialogs: from where they stand and what happened,
/// where they stand next and what the program does.
pub fn setup_step(state: SetupState, event: SetupEvent) -> (r: (SetupState, SetupAction))
    ensures
        (r.0@, r.1@) == spec_setup_step(state@, event@),
{
    match state {
        SetupState::Start => match event {
            SetupEvent::Begin => (SetupState::AwaitToken, SetupAction::ShowDialog(token_dialog_args())),
            _ => give_up_step(),
        },
        SetupState::AwaitToken => match event {
            SetupEvent::Answered(o) => match answer(o) {
                Some(t) => (SetupState::AwaitWorkspaces(t.clone()), SetupAction::FetchWorkspaces(t)),
                None => give_up_step(),
            },
            _ => give_up_step(),
        },
        SetupState::AwaitWorkspaces(t) => match event {
            SetupEvent::Fetched(ws) => match plan_workspace(&ws) {
                WorkspacePlan::Use(id) => save_step(t, id),
                WorkspacePlan::Pick(args) => (SetupState::AwaitPick(t), SetupAction::ShowDialog(args)),
                WorkspacePlan::Manual => (SetupState::AwaitManual(t), SetupAction::ShowDialog(manual_dialog_args())),
            },
            _ => give_up_step(),
        },
        SetupState::AwaitPick(t) => match event {
            SetupEvent::Answered(o) => match answer(o) {
                Some(a) => match parse_workspace_id(a.as_str()) {
                    Some(w) => save_step(t, w),
                    None => give_up_step(),
                },
                None => give_up_step(),
            },
            _ => give_up_step(),
        },
        SetupState::AwaitManual(t) => match event {
            SetupEvent::Answered(o) => match answer(o) {
                Some(a) => match parse_workspace_id(a.as_str()) {
                    Some(w) => save_step(t, w),
                    None => (SetupState::AwaitError, SetupAction::ShowDialog(error_dialog_args())),
                },
                None => give_up_step(),
            },
            _ => give_up_step(),
        },
        SetupState::AwaitError => give_up_step(),
        SetupState::AwaitSave(t, w) => match event {
            SetupEvent::Saved => (SetupState::Done, SetupAction::Finish(Some((t, w)))),
            _ => give_up_step(),
        },
        SetupState::Done => give_up_step(),
    }
}
/// Setup gives up whenever an open dialog is cancelled; a fetched list of
/// one workspace is saved with the token at once; a typed or picked answer
/// that reads as an integer (after trimming) is saved; a typed one that
/// does not shows the error dialog; and setup ends with what was saved.
pub proof fn law_setup_outcomes(t: Seq<char>, w: i64, l: Seq<(i64, Seq<char>)>, answer: Seq<char>)
    ensures
        spec_setup_step(SetupStateView::AwaitToken, SetupEventView::Answered(None)) == (
            SetupStateView::Done,
            SetupActionView::Finish(None),
        ),
        spec_setup_step(SetupStateView::AwaitPick(t), SetupEventView::Answered(None)) == (
            SetupStateView::Done,
            SetupActionView::Finish(None),
        ),
        spec_setup_step(SetupStateView::AwaitManual(t), SetupEventView::Answered(None)) == (
            SetupStateView::Done,
            SetupActionView::Finish(None),
        ),
        spec_setup_step(SetupStateView::AwaitSave(t, w), SetupEventView::Saved) == (
            SetupStateView::Done,
            SetupActionView::Finish(Some((t, w))),
        ),
        l.len() == 1 ==> spec_setup_step(SetupStateView::AwaitWorkspaces(t), SetupEventView::Fetched(Some(l)))
            == (SetupStateView::AwaitSave(t, l[0].0), SetupActionView::Save(t, l[0].0)),
        spec_parse_i64(spec_trim(answer)) matches Some(n) ==> {
            &&& spec_setup_step(SetupStateView::AwaitManual(t), SetupEventView::Answered(Some(answer))) == (
                SetupStateView::AwaitSave(t, n as i64),
                SetupActionView::Save(t, n as i64),
            )
            &&& spec_setup_step(SetupStateView::AwaitPick(t), SetupEventView::Answered(Some(answer))) == (
                SetupStateView::AwaitSave(t, n as i64),
                SetupActionView::Save(t, n as i64),
            )
        },
        (spec_trim(answer).len() > 0 && spec_parse_i64(spec_trim(answer)) is None) ==> spec_setup_step(
            SetupStateView::AwaitManual(t),
            SetupEventView::Answered(Some(answer)),
        ) == (
            SetupStateView::AwaitError,
            SetupActionView::ShowDialog(
                seq!["--error"@, "--text=Workspace ID must be a number."@, "--width=300"@],
            ),
        ),
{
    if spec_parse_i64(spec_trim(answer)) is Some {
        assert(spec_trim(answer).len() > 0);
    }
}

} // verus!
