//! Plugin state and request handlers.
//!
//! Each handler takes the request and what the program read for it, updates
//! the plugin state and returns the effects to carry out, in order: lines to
//! send to the launcher, cache invalidation, background API jobs, the setup
//! dialogs and opening the browser.

use vstd::prelude::*;
use std::collections::HashMap;
use crate::api::{TimeEntry, EntryView, entry_label, entries_view, opt_entry_view, names_view,
    strings_view, copy_strings, ApiRequest, stop_timer, api_url, stop_path, spec_auth, token_limit};
use crate::cache::Cache;
use crate::config::{Config, icon, path_join};
use crate::dateutil::{spec_elapsed, spec_rfc3339_nanos, instant_bound, parse_rfc3339_nanos, elapsed_text};
use crate::fuzzy::{fuzzy_score, spec_fuzzy_score, opt_int, to_lowercase, spec_lowercase};
use crate::ipc::{append, append_line, clear, finished, fill, fill_line, close, context, context_line};
use crate::sort::{sort_scored, sort_by_score, sort_named, sort_by_name};
use crate::text::{chars_of, string_of, push_str, spec_trim, trim, sub_chars};
use vstd::utf8::encode_utf8;
use vstd::std_specs::iter::IteratorSpec;

verus! {

broadcast use vstd::std_specs::hash::group_hash_axioms;

/// What activating a result row does.
pub enum Action {
    Setup,
    Noop,
    Stop(TimeEntry),
    New,
    SelectProject(Option<i64>),
    CancelNew,
    Start(TimeEntry),
}

pub enum ActionView {
    Setup,
    Noop,
    Stop(EntryView),
    New,
    SelectProject(Option<i64>),
    CancelNew,
    Start(EntryView),
}

impl View for Action {
    type V = ActionView;

    open spec fn view(&self) -> ActionView {
        match self {
            Action::Setup => ActionView::Setup,
            Action::Noop => ActionView::Noop,
            Action::Stop(e) => ActionView::Stop(e@),
            Action::New => ActionView::New,
            Action::SelectProject(p) => ActionView::SelectProject(*p),
            Action::CancelNew => ActionView::CancelNew,
            Action::Start(e) => ActionView::Start(e@),
        }
    }
}

/// Actions by their views.
pub open spec fn actions_view(v: Seq<Action>) -> Seq<ActionView> {
    v.map_values(|a: Action| a@)
}

/// A timer to start: description, project, tags and billability.
pub struct StartCall {
    pub description: String,
    pub project_id: Option<i64>,
    pub tags: Option<Vec<String>>,
    pub billable: bool,
}

pub struct StartView {
    pub description: Seq<char>,
    pub project_id: Option<i64>,
    pub tags: Option<Seq<Seq<char>>>,
    pub billable: bool,
}

impl View for StartCall {
    type V = StartView;

    open spec fn view(&self) -> StartView {
        StartView {
            description: self.description@,
            project_id: self.project_id,
            tags: match self.tags {
                Some(v) => Some(strings_view(v@)),
                None => None,
            },
            billable: self.billable,
        }
    }
}

/// Background API work: first stop `stop` (in its own workspace, else
/// `wid`), then start `start` in workspace `wid`.
pub struct Job {
    pub token: String,
    pub wid: i64,
    pub stop: Option<TimeEntry>,
    pub start: Option<StartCall>,
}

pub struct JobView {
    pub token: Seq<char>,
    pub wid: i64,
    pub stop: Option<EntryView>,
    pub start: Option<StartView>,
}

impl View for Job {
    type V = JobView;

    open spec fn view(&self) -> JobView {
        JobView {
            token: self.token@,
            wid: self.wid,
            stop: opt_entry_view(self.stop),
            start: match self.start {
                Some(s) => Some(s@),
                None => None,
            },
        }
    }
}

/// Something for the program to do, in order.
pub enum Effect {
    /// Send a line to the launcher.
    Send(String),
    /// Invalidate the shared cache.
    InvalidateCache,
    /// Run a job on a background thread.
    Spawn(Job),
    /// Run the setup dialogs and report their result to `setup_finished`.
    RunSetup,
    /// Open the Toggl web interface in the browser.
    OpenBrowser,
}

pub enum EffectView {
    Send(Seq<char>),
    InvalidateCache,
    Spawn(JobView),
    RunSetup,
    OpenBrowser,
}

impl View for Effect {
    type V = EffectView;

    open spec fn view(&self) -> EffectView {
        match self {
            Effect::Send(s) => EffectView::Send(s@),
            Effect::InvalidateCache => EffectView::InvalidateCache,
            Effect::Spawn(j) => EffectView::Spawn(j@),
            Effect::RunSetup => EffectView::RunSetup,
            Effect::OpenBrowser => EffectView::OpenBrowser,
        }
    }
}

/// Effects by their views.
pub open spec fn effects_view(v: Seq<Effect>) -> Seq<EffectView> {
    v.map_values(|e: Effect| e@)
}

/// The request that stops `entry`: in the entry's own workspace if it has
/// one, else in `default_wid`.
pub fn stop_entry(token: &str, default_wid: i64, entry: &TimeEntry) -> (r: ApiRequest)
    requires
        encode_utf8(token@).len() <= token_limit(),
    ensures
        r.method@ == "PATCH"@,
        r.url@ == api_url(
            stop_path(
                match entry.workspace_id {
                    Some(w) => w,
                    None => default_wid,
                },
                entry.id,
            ),
        ),
        r.authorization@ == spec_auth(token@),
        r.body is None,
{
    let wid = match entry.workspace_id {
        Some(w) => w,
        None => default_wid,
    };
    stop_timer(token, wid, entry.id)
}

// --- Rows -------------------------------------------------------------------------

/// A result row: name, description and icon path.
pub struct Row {
    pub name: Seq<char>,
    pub description: Seq<char>,
    pub icon: Seq<char>,
}

/// A result row, built for sending.
pub struct RowData {
    pub name: String,
    pub description: String,
    pub icon: String,
}

impl View for RowData {
    type V = Row;

    open spec fn view(&self) -> Row {
        Row { name: self.name@, description: self.description@, icon: self.icon@ }
    }
}

/// The lines listing `rows`, numbered from zero, between a `Clear` and a
/// `Finished`.
pub open spec fn listing(rows: Seq<Row>) -> Seq<EffectView> {
    seq![EffectView::Send("{\"Clear\":null}"@)] + Seq::new(
        rows.len(),
        |i: int| EffectView::Send(append_line(i as nat, rows[i].name, rows[i].description, rows[i].icon)),
    ) + seq![EffectView::Send("{\"Finished\":null}"@)]
}

/// The rows of row/action pairs.
pub open spec fn rows_of(p: Seq<(Row, ActionView)>) -> Seq<Row> {
    p.map_values(|x: (Row, ActionView)| x.0)
}

/// The actions of row/action pairs.
pub open spec fn actions_of(p: Seq<(Row, ActionView)>) -> Seq<ActionView> {
    p.map_values(|x: (Row, ActionView)| x.1)
}

/// Row/action pairs by their views.
pub open spec fn pairs_view(v: Seq<(RowData, Action)>) -> Seq<(Row, ActionView)> {
    v.map_values(|x: (RowData, Action)| (x.0@, x.1@))
}

/// The effects that list `rows`.
pub fn emit_listing(rows: &Vec<(RowData, Action)>) -> (r: Vec<Effect>)
    ensures
        effects_view(r@) == listing(rows_of(pairs_view(rows@))),
{
    let ghost rs = rows_of(pairs_view(rows@));
    let mut out: Vec<Effect> = Vec::new();
    out.push(Effect::Send(clear()));
    let mut i: usize = 0;
    while i < rows.len()
        invariant
            i <= rows.len(),
            rs == rows_of(pairs_view(rows@)),
            effects_view(out@) == seq![EffectView::Send("{\"Clear\":null}"@)] + Seq::new(
                i as nat,
                |k: int| EffectView::Send(append_line(k as nat, rs[k].name, rs[k].description, rs[k].icon)),
            ),
        decreases rows.len() - i,
    {
        let row = &rows[i].0;
        let line = append(i, row.name.as_str(), row.description.as_str(), row.icon.as_str());
        let ghost before = effects_view(out@);
        out.push(Effect::Send(line));
        assert(effects_view(out@) == before.push(EffectView::Send(line@)));
        i = i + 1;
    }
    out.push(Effect::Send(finished()));
    out
}

/// The path of bundled icon `name` in `dir`.
pub open spec fn icon_of(dir: Seq<char>, name: Seq<char>) -> Seq<char> {
    path_join(path_join(dir, "icons"@), name + ".svg"@)
}

/// Makes a row.
fn row(name: String, description: String, icon: String) -> (r: RowData)
    ensures
        r@ == (Row { name: name@, description: description@, icon: icon@ }),
{
    RowData { name, description, icon }
}

/// A string holding `s`.
fn owned(s: &str) -> (r: String)
    ensures
        r@ == s@,
{
    string_of(&chars_of(s))
}

/// `a` followed by `b`.
fn cat(a: &str, b: &str) -> (r: String)
    ensures
        r@ == a@ + b@,
{
    let mut v = chars_of(a);
    push_str(&mut v, b);
    string_of(&v)
}

// --- Matching -----------------------------------------------------------------------

/// The name of the project of `e`, if it has one that is known.
pub open spec fn project_name(projects: Map<i64, Seq<char>>, e: EntryView) -> Option<Seq<char>> {
    match e.project_id {
        Some(pid) => if projects.contains_key(pid) {
            Some(projects[pid])
        } else {
            None
        },
        None => None,
    }
}

/// The larger of two optional scores.
pub open spec fn opt_max(a: Option<int>, b: Option<int>) -> Option<int> {
    match (a, b) {
        (Some(x), Some(y)) => Some(if x >= y {
            x
        } else {
            y
        }),
        (Some(x), None) => Some(x),
        (None, y) => y,
    }
}

/// How well `filter` matches an entry: the better of its label and its
/// project name (empty without one).
pub open spec fn spec_score_entry(projects: Map<i64, Seq<char>>, e: EntryView, filter: Seq<char>) -> Option<
    int,
> {
    opt_max(
        spec_fuzzy_score(filter, entry_label(e)),
        spec_fuzzy_score(
            filter,
            match project_name(projects, e) {
                Some(p) => p,
                None => Seq::empty(),
            },
        ),
    )
}

/// The UTF-8 length of `c`.
pub open spec fn utf8_width(c: char) -> nat {
    let u = c as u32;
    if u < 0x80 {
        1
    } else if u < 0x800 {
        2
    } else if u < 0x10000 {
        3
    } else {
        4
    }
}

/// The UTF-8 length of `s`.
pub open spec fn utf8_len(s: Seq<char>) -> nat
    decreases s.len(),
{
    if s.len() == 0 {
        0
    } else {
        utf8_width(s[0]) + utf8_len(s.drop_first())
    }
}

/// The number of leading characters of `s` that take exactly `n` bytes, if
/// `n` falls between characters.
pub open spec fn char_boundary(s: Seq<char>, n: nat) -> Option<nat>
    decreases s.len(),
{
    if n == 0 {
        Some(0)
    } else if s.len() == 0 {
        None
    } else if utf8_width(s[0]) > n {
        None
    } else {
        match char_boundary(s.drop_first(), (n - utf8_width(s[0])) as nat) {
            Some(i) => Some(i + 1),
            None => None,
        }
    }
}

/// Whether `s` starts with `p`.
pub open spec fn starts_with(s: Seq<char>, p: Seq<char>) -> bool {
    p.len() <= s.len() && s.take(p.len() as int) == p
}

/// The filter typed after the keyword: when the lowercased query starts
/// with the lowercased keyword, the query without as many bytes as that
/// keyword has, then trimmed. (If that byte count falls inside a character
/// of the query, the whole query is kept.)
pub open spec fn spec_filter_text(query: Seq<char>, keyword: Seq<char>) -> Seq<char> {
    let q = spec_lowercase(query);
    let kw = spec_lowercase(keyword);
    let rest = if starts_with(q, kw) {
        match char_boundary(query, utf8_len(kw)) {
            Some(i) => query.skip(i as int),
            None => query,
        }
    } else {
        query
    };
    spec_trim(rest)
}

fn width_of(c: char) -> (r: usize)
    ensures
        r == utf8_width(c),
{
    let u = c as u32;
    if u < 0x80 {
        1
    } else if u < 0x800 {
        2
    } else if u < 0x10000 {
        3
    } else {
        4
    }
}

proof fn lemma_utf8_len_take(s: Seq<char>, i: int)
    requires
        0 <= i < s.len(),
    ensures
        utf8_len(s.take(i + 1)) == utf8_len(s.take(i)) + utf8_width(s[i]),
    decreases i,
{
    if i > 0 {
        lemma_utf8_len_take(s.drop_first(), i - 1);
        assert(s.take(i + 1).drop_first() == s.drop_first().take(i));
        assert(s.take(i).drop_first() == s.drop_first().take(i - 1));
        assert(s.take(i + 1)[0] == s[0] && s.take(i)[0] == s[0]);
        assert(s.drop_first()[i - 1] == s[i]);
    } else {
        assert(s.take(1).drop_first() == Seq::<char>::empty());
        assert(utf8_len(Seq::<char>::empty()) == 0);
        assert(s.take(0).len() == 0);
        assert(s.take(1)[0] == s[0]);
    }
}

proof fn lemma_utf8_len_bound(s: Seq<char>)
    ensures
        utf8_len(s) <= 4 * s.len(),
    decreases s.len(),
{
    if s.len() > 0 {
        lemma_utf8_len_bound(s.drop_first());
    }
}

/// `char_boundary` found by counting bytes: it is the first prefix whose
/// byte length reaches `n`, when that length is exactly `n`.
proof fn lemma_char_boundary(s: Seq<char>, n: nat, i: int)
    requires
        0 <= i <= s.len(),
        forall|j: int| 0 <= j < i ==> utf8_len(#[trigger] s.take(j)) < n,
        i == s.len() || utf8_len(s.take(i)) >= n,
    ensures
        char_boundary(s, n) == (if i <= s.len() && utf8_len(s.take(i)) == n {
            Some(i as nat)
        } else {
            None::<nat>
        }),
    decreases s.len(),
{
    assert(s.take(0) == Seq::<char>::empty());
    if n == 0 {
        if i > 0 {
            assert(utf8_len(s.take(0)) < 0);
        }
    } else if s.len() == 0 {
        assert(s.take(0) == s);
    } else {
        let w = utf8_width(s[0]);
        assert(i >= 1) by {
            if i == 0 {
                assert(utf8_len(s.take(0)) == 0);
            }
        }
        lemma_utf8_len_take(s, 0);
        assert(s.take(0) == Seq::<char>::empty());
        if w > n {
            assert(utf8_len(s.take(1)) == w);
            assert(i == 1);
        } else {
            let t = s.drop_first();
            assert forall|j: int| 0 <= j < i - 1 implies utf8_len(#[trigger] t.take(j)) < (n - w) by {
                assert(s.take(j + 1).drop_first() == t.take(j));
                assert(utf8_len(s.take(j + 1)) < n);
            }
            assert(s.take(i).drop_first() == t.take(i - 1));
            assert(utf8_len(s.take(i)) == w + utf8_len(t.take(i - 1)));
            lemma_char_boundary(t, (n - w) as nat, i - 1);
        }
    }
}


// --- Plugin state -----------------------------------------------------------------

pub struct Plugin {
    pub token: Option<String>,
    pub wid: Option<i64>,
    pub keyword: String,
    pub current: Option<TimeEntry>,
    pub entries: Vec<TimeEntry>,
    pub projects: HashMap<i64, String>,
    /// What each listed row does, by position.
    pub results: Vec<Action>,
    pub filter_text_value: String,
    /// The description of a timer being created, while a project is chosen.
    pub pending_new_desc: Option<String>,
    /// The directory of the plugin binary, which holds the icons.
    pub dir: String,
}

/// The characters of an optional string.
pub open spec fn opt_str(o: Option<String>) -> Option<Seq<char>> {
    match o {
        Some(s) => Some(s@),
        None => None,
    }
}

impl Plugin {
    /// A plugin with configuration `cfg`, its binary in directory `dir`.
    pub fn new(cfg: Config, dir: String) -> (r: Plugin)
        ensures
            opt_str(r.token) == opt_str(cfg.token),
            r.wid == cfg.wid,
            r.keyword@ == cfg.keyword@,
            r.current is None,
            r.entries@.len() == 0,
            r.projects@ == Map::<i64, String>::empty(),
            r.results@.len() == 0,
            r.filter_text_value@.len() == 0,
            r.pending_new_desc is None,
            r.dir@ == dir@,
    {
        Plugin {
            token: cfg.token,
            wid: cfg.wid,
            keyword: cfg.keyword,
            current: None,
            entries: Vec::new(),
            projects: HashMap::new(),
            results: Vec::new(),
            filter_text_value: String::new(),
            pending_new_desc: None,
            dir,
        }
    }

    /// Whether both an API token and a workspace are set.
    pub fn configured(&self) -> (r: bool)
        ensures
            r == (self.token is Some && self.wid is Some),
    {
        self.token.is_some() && self.wid.is_some()
    }

    fn icon(&self, name: &str) -> (r: String)
        ensures
            r@ == icon_of(self.dir@, name@),
    {
        icon(self.dir.as_str(), name)
    }

    /// The name of the project of `entry`, if known.
    pub fn project_name(&self, entry: &TimeEntry) -> (r: Option<String>)
        ensures
            opt_str(r) == project_name(names_view(self.projects@), entry@),
    {
        match entry.project_id {
            Some(pid) => match self.projects.get(&pid) {
                Some(n) => Some(n.clone()),
                None => None,
            },
            None => None,
        }
    }

    /// The filter typed after the keyword.
    pub fn filter_text(&self, query: &str) -> (r: String)
        ensures
            r@ == spec_filter_text(query@, self.keyword@),
    {
        let q = chars_of(to_lowercase(query).as_str());
        let kw = chars_of(to_lowercase(self.keyword.as_str()).as_str());
        let qv = chars_of(query);
        let mut rest = sub_chars(&qv, 0, qv.len());
        assert(qv@.subrange(0, qv@.len() as int) == qv@);
        if kw.len() <= q.len() && crate::text::chars_eq(&sub_chars(&q, 0, kw.len()), &kw) {
            let mut kb: u128 = 0;
            let mut j: usize = 0;
            while j < kw.len()
                invariant
                    j <= kw.len(),
                    kb == utf8_len(kw@.take(j as int)),
                    kb <= 4 * j,
                decreases kw.len() - j,
            {
                proof {
                    lemma_utf8_len_take(kw@, j as int);
                }
                kb = kb + width_of(kw[j]) as u128;
                j = j + 1;
            }
            assert(kw@.take(kw.len() as int) == kw@);
            let mut acc: u128 = 0;
            let mut i: usize = 0;
            assert(qv@.take(0) == Seq::<char>::empty());
            while i < qv.len() && acc < kb
                invariant
                    i <= qv.len(),
                    acc == utf8_len(qv@.take(i as int)),
                    acc <= 4 * i,
                    forall|k: int| 0 <= k < i ==> utf8_len(#[trigger] qv@.take(k)) < kb,
                decreases qv.len() - i,
            {
                proof {
                    lemma_utf8_len_take(qv@, i as int);
                }
                acc = acc + width_of(qv[i]) as u128;
                i = i + 1;
            }
            proof {
                lemma_char_boundary(qv@, kb as nat, i as int);
            }
            if acc == kb {
                rest = sub_chars(&qv, i, qv.len());
            }
        }
        string_of(&trim(&rest))
    }

    /// How well `filter` matches `entry`'s label or project name.
    pub fn score_entry(&self, entry: &TimeEntry, filter: &str) -> (r: Option<i32>)
        ensures
            opt_int(r) == spec_score_entry(names_view(self.projects@), entry@, filter@),
    {
        let a = fuzzy_score(filter, entry.description_or_default());
        let proj = match self.project_name(entry) {
            Some(p) => p,
            None => String::new(),
        };
        let b = fuzzy_score(filter, proj.as_str());
        match (a, b) {
            (Some(x), Some(y)) => Some(if x >= y {
                x
            } else {
                y
            }),
            (Some(x), None) => Some(x),
            (None, y) => y,
        }
    }
}


// --- Search ------------------------------------------------------------------------

/// The detail of the running timer: its project, if known, and the time
/// elapsed since its start at `now`.
pub open spec fn running_detail(projects: Map<i64, Seq<char>>, c: EntryView, now: int) -> Seq<char> {
    let elapsed = spec_elapsed(
        spec_rfc3339_nanos(
            match c.start {
                Some(s) => s,
                None => Seq::empty(),
            },
        ),
        now,
    );
    match project_name(projects, c) {
        Some(p) => p + " \u{2022} "@ + "Elapsed: "@ + elapsed,
        None => "Elapsed: "@ + elapsed,
    }
}

/// The row of the running timer, shown when there is no filter or the
/// filter matches it; clicking it stops the timer.
pub open spec fn running_rows(
    projects: Map<i64, Seq<char>>,
    current: Option<EntryView>,
    filter: Seq<char>,
    now: int,
    dir: Seq<char>,
) -> Seq<(Row, ActionView)> {
    match current {
        Some(c) => if filter.len() == 0 || spec_score_entry(projects, c, filter) is Some {
            seq![
                (
                    Row {
                        name: "Running: "@ + entry_label(c),
                        description: running_detail(projects, c, now) + " \u{2022} Click to stop"@,
                        icon: icon_of(dir, "stop"@),
                    },
                    ActionView::Stop(c),
                ),
            ]
        } else {
            Seq::empty()
        },
        None => Seq::empty(),
    }
}

/// The row that starts a new timer; with a filter, the filter is its
/// description.
pub open spec fn new_row(filter: Seq<char>, dir: Seq<char>) -> (Row, ActionView) {
    if filter.len() == 0 {
        (
            Row {
                name: "New timer"@,
                description: "Start a new timer with project selection"@,
                icon: icon_of(dir, "plus"@),
            },
            ActionView::New,
        )
    } else {
        (
            Row {
                name: "New timer: "@ + filter,
                description: "Start timer with project selection"@,
                icon: icon_of(dir, "plus"@),
            },
            ActionView::New,
        )
    }
}

/// The scores of the first `n` entries that the filter matches, with their
/// positions.
pub open spec fn scored_upto(
    projects: Map<i64, Seq<char>>,
    entries: Seq<EntryView>,
    filter: Seq<char>,
    n: nat,
) -> Seq<(i32, usize)>
    decreases n,
{
    if n == 0 {
        Seq::empty()
    } else {
        let r = scored_upto(projects, entries, filter, (n - 1) as nat);
        match spec_score_entry(projects, entries[n - 1], filter) {
            Some(sc) => r.push((sc as i32, (n - 1) as usize)),
            None => r,
        }
    }
}

/// The recent entries in the order shown: as they are without a filter,
/// else those the filter matches, best score first (ties in recency order).
pub open spec fn ranked(projects: Map<i64, Seq<char>>, entries: Seq<EntryView>, filter: Seq<char>) -> Seq<
    EntryView,
> {
    if filter.len() == 0 {
        entries
    } else {
        let s = sort_by_score(scored_upto(projects, entries, filter, entries.len()));
        Seq::new(s.len(), |k: int| entries[s[k].1 as int])
    }
}

/// How many recent entries are shown: 5 without a filter, 8 with one.
pub open spec fn max_shown(filter: Seq<char>) -> nat {
    if filter.len() == 0 {
        5
    } else {
        8
    }
}

/// The rows of the recent entries shown; clicking one restarts it.
pub open spec fn recent_rows(
    projects: Map<i64, Seq<char>>,
    entries: Seq<EntryView>,
    filter: Seq<char>,
    dir: Seq<char>,
) -> Seq<(Row, ActionView)> {
    let r = ranked(projects, entries, filter);
    let shown = if r.len() <= max_shown(filter) {
        r
    } else {
        r.take(max_shown(filter) as int)
    };
    Seq::new(
        shown.len(),
        |k: int|
            (
                Row {
                    name: entry_label(shown[k]),
                    description: match project_name(projects, shown[k]) {
                        Some(p) => p,
                        None => "No project"@,
                    },
                    icon: icon_of(dir, "play"@),
                },
                ActionView::Start(shown[k]),
            ),
    )
}

/// The rows of a search with filter `filter`: the running timer, the new
/// timer row and the recent entries.
pub open spec fn search_rows(
    projects: Map<i64, Seq<char>>,
    current: Option<EntryView>,
    entries: Seq<EntryView>,
    filter: Seq<char>,
    now: int,
    dir: Seq<char>,
) -> Seq<(Row, ActionView)> {
    running_rows(projects, current, filter, now, dir) + seq![new_row(filter, dir)] + recent_rows(
        projects,
        entries,
        filter,
        dir,
    )
}

proof fn lemma_scored_upto(projects: Map<i64, Seq<char>>, entries: Seq<EntryView>, filter: Seq<char>, n: nat)
    requires
        n <= usize::MAX,
    ensures
        forall|k: int|
            0 <= k < scored_upto(projects, entries, filter, n).len() ==> (#[trigger] scored_upto(
                projects,
                entries,
                filter,
                n,
            )[k]).1 < n,
    decreases n,
{
    if n > 0 {
        lemma_scored_upto(projects, entries, filter, (n - 1) as nat);
        let r = scored_upto(projects, entries, filter, (n - 1) as nat);
        let t = scored_upto(projects, entries, filter, n);
        assert forall|k: int| 0 <= k < t.len() implies (#[trigger] t[k]).1 < n by {
            if k < r.len() {
                assert(t[k] == r[k]);
            }
        }
    }
}

impl Plugin {
    /// The row of the running timer, if shown.
    fn running_part(&self, filter: &str, now: i128) -> (r: Vec<(RowData, Action)>)
        requires
            -instant_bound() < now < instant_bound(),
        ensures
            pairs_view(r@) == running_rows(
                names_view(self.projects@),
                opt_entry_view(self.current),
                filter@,
                now as int,
                self.dir@,
            ),
    {
        let mut out: Vec<(RowData, Action)> = Vec::new();
        match &self.current {
            Some(c) => {
                let show = filter.is_empty() || self.score_entry(c, filter).is_some();
                if show {
                    let start = match &c.start {
                        Some(s) => s.as_str(),
                        None => "",
                    };
                    proof {
                        reveal_strlit("");
                    }
                    let ghost sv = match c@.start {
                        Some(s) => s,
                        None => Seq::<char>::empty(),
                    };
                    assert(start@ == sv);
                    let parsed = parse_rfc3339_nanos(start);
                    let elapsed = elapsed_text(parsed, now);
                    assert(elapsed@ == spec_elapsed(spec_rfc3339_nanos(sv), now as int));
                    let detail = cat("Elapsed: ", elapsed.as_str());
                    let detail = match self.project_name(c) {
                        Some(p) => cat(cat(p.as_str(), " \u{2022} ").as_str(), detail.as_str()),
                        None => detail,
                    };
                    let name = cat("Running: ", c.description_or_default());
                    let description = cat(detail.as_str(), " \u{2022} Click to stop");
                    let ghost projects = names_view(self.projects@);
                    assert(description@ =~= running_detail(projects, c@, now as int) + " \u{2022} Click to stop"@);
                    let r = row(name, description, self.icon("stop"));
                    out.push((r, Action::Stop(c.copy())));
                    assert(pairs_view(out@) == running_rows(
                        names_view(self.projects@),
                        opt_entry_view(self.current),
                        filter@,
                        now as int,
                        self.dir@,
                    ));
                }
            },
            None => {},
        }
        out
    }

    /// The new timer row.
    fn new_part(&self, filter: &str) -> (r: (RowData, Action))
        ensures
            (r.0@, r.1@) == new_row(filter@, self.dir@),
    {
        if filter.is_empty() {
            (
                row(owned("New timer"), owned("Start a new timer with project selection"), self.icon("plus")),
                Action::New,
            )
        } else {
            (
                row(cat("New timer: ", filter), owned("Start timer with project selection"), self.icon("plus")),
                Action::New,
            )
        }
    }

    /// The rows of the recent entries shown.
    fn recent_part(&self, filter: &str) -> (r: Vec<(RowData, Action)>)
        ensures
            pairs_view(r@) == recent_rows(
                names_view(self.projects@),
                entries_view(self.entries@),
                filter@,
                self.dir@,
            ),
    {
        let ghost projects = names_view(self.projects@);
        let ghost entries = entries_view(self.entries@);
        // The positions of the entries to show, in order.
        let mut order: Vec<usize> = Vec::new();
        if filter.is_empty() {
            let mut i: usize = 0;
            while i < self.entries.len()
                invariant
                    i <= self.entries.len(),
                    order@ == Seq::new(i as nat, |k: int| k as usize),
                decreases self.entries.len() - i,
            {
                order.push(i);
                i = i + 1;
            }
        } else {
            let mut scored: Vec<(i32, usize)> = Vec::new();
            let mut i: usize = 0;
            while i < self.entries.len()
                invariant
                    i <= self.entries.len(),
                    projects == names_view(self.projects@),
                    entries == entries_view(self.entries@),
                    scored@ == scored_upto(projects, entries, filter@, i as nat),
                decreases self.entries.len() - i,
            {
                match self.score_entry(&self.entries[i], filter) {
                    Some(sc) => {
                        scored.push((sc, i));
                    },
                    None => {},
                }
                i = i + 1;
            }
            let sorted = sort_scored(&scored);
            proof {
                crate::sort::lemma_sort_by_score_items(scored@);
                lemma_scored_upto(projects, entries, filter@, self.entries@.len());
            }
            let mut k: usize = 0;
            while k < sorted.len()
                invariant
                    k <= sorted.len(),
                    sorted@.len() == scored@.len(),
                    scored@ == scored_upto(projects, entries, filter@, self.entries@.len()),
                    forall|j: int| 0 <= j < scored@.len() ==> scored@.contains(#[trigger] sorted@[j]),
                    forall|j: int| 0 <= j < scored@.len() ==> (#[trigger] scored@[j]).1 < self.entries@.len(),
                    order@ == Seq::new(k as nat, |j: int| sorted@[j].1),
                    forall|j: int| 0 <= j < k ==> #[trigger] order@[j] < self.entries@.len(),
                decreases sorted.len() - k,
            {
                let ghost jj = choose|j: int| 0 <= j < scored@.len() && scored@[j] == sorted@[k as int];
                assert(scored@[jj].1 < self.entries@.len());
                order.push(sorted[k].1);
                k = k + 1;
            }
        }
        let ghost r = ranked(projects, entries, filter@);
        assert(order@.len() == r.len());
        assert(forall|j: int| 0 <= j < order@.len() ==> r[j] == entries[#[trigger] order@[j] as int]);
        let max: usize = if filter.is_empty() {
            5
        } else {
            8
        };
        let ghost shown = if r.len() <= max_shown(filter@) {
            r
        } else {
            r.take(max_shown(filter@) as int)
        };
        let mut out: Vec<(RowData, Action)> = Vec::new();
        let mut k: usize = 0;
        while k < order.len() && k < max
            invariant
                k <= order@.len(),
                k <= max,
                order@.len() == r.len(),
                r == ranked(projects, entries, filter@),
                max == max_shown(filter@),
                projects == names_view(self.projects@),
                entries == entries_view(self.entries@),
                shown == (if r.len() <= max_shown(filter@) {
                    r
                } else {
                    r.take(max_shown(filter@) as int)
                }),
                forall|j: int| 0 <= j < order@.len() ==> #[trigger] order@[j] < self.entries@.len(),
                forall|j: int| 0 <= j < order@.len() ==> r[j] == entries[#[trigger] order@[j] as int],
                pairs_view(out@) == recent_rows(projects, entries, filter@, self.dir@).take(k as int),
            decreases order.len() - k,
        {
            let e = &self.entries[order[k]];
            assert(entries[order@[k as int] as int] == e@);
            let detail = match self.project_name(e) {
                Some(p) => p,
                None => owned("No project"),
            };
            let rd = row(owned(e.description_or_default()), detail, self.icon("play"));
            let ghost before = pairs_view(out@);
            let ghost rr = recent_rows(projects, entries, filter@, self.dir@);
            assert(shown[k as int] == e@);
            assert(rr[k as int] == (rd@, ActionView::Start(e@)));
            out.push((rd, Action::Start(e.copy())));
            assert(pairs_view(out@) == before.push((rd@, ActionView::Start(e@))));
            assert(rr.take(k + 1) == rr.take(k as int).push(rr[k as int]));
            k = k + 1;
        }
        proof {
            if r.len() <= max_shown(filter@) {
                assert(shown.len() == r.len());
            } else {
                assert(shown.len() == max_shown(filter@));
            }
            assert(shown.len() == k);
        }
        assert(recent_rows(projects, entries, filter@, self.dir@).len() == k);
        assert(recent_rows(projects, entries, filter@, self.dir@).take(k as int) == recent_rows(
            projects,
            entries,
            filter@,
            self.dir@,
        ));
        out
    }
}


// --- Project selection -----------------------------------------------------------

/// The next item of an iterator: the first of the items it will return.
fn iter_next<I: Iterator>(it: &mut I) -> (r: Option<I::Item>)
    ensures
        <I as IteratorSpec>::obeys_prophetic_iter_laws(&*final(it))
            == <I as IteratorSpec>::obeys_prophetic_iter_laws(&*old(it)),
        <I as IteratorSpec>::obeys_prophetic_iter_laws(&*final(it)) ==> (if <I as IteratorSpec>::remaining(
            &*old(it),
        ).len() > 0 {
            <I as IteratorSpec>::remaining(&*final(it)) == <I as IteratorSpec>::remaining(
                &*old(it),
            ).drop_first() && r == Some(<I as IteratorSpec>::remaining(&*old(it))[0])
        } else {
            r is None
        }),
{
    it.next()
}

/// `pairs` lists map `m`: each id once, with its name.
pub open spec fn lists_map(pairs: Seq<(i64, Seq<char>)>, m: Map<i64, Seq<char>>) -> bool {
    &&& forall|i: int| 0 <= i < pairs.len() ==> m.contains_key(#[trigger] pairs[i].0) && m[pairs[i].0] == pairs[i].1
    &&& forall|k: i64| m.contains_key(k) ==> exists|i: int| 0 <= i < pairs.len() && #[trigger] pairs[i].0 == k
    &&& forall|i: int, j: int| 0 <= i < j < pairs.len() ==> #[trigger] pairs[i].0 != #[trigger] pairs[j].0
}

/// The scores of the first `n` projects that the filter matches, with their
/// positions.
pub open spec fn scored_pairs(pairs: Seq<(i64, Seq<char>)>, filter: Seq<char>, n: nat) -> Seq<(i32, usize)>
    decreases n,
{
    if n == 0 {
        Seq::empty()
    } else {
        let r = scored_pairs(pairs, filter, (n - 1) as nat);
        match spec_fuzzy_score(filter, pairs[n - 1].1) {
            Some(sc) => r.push((sc as i32, (n - 1) as usize)),
            None => r,
        }
    }
}

/// The projects in the order offered: without a filter all of them by
/// lowercased name; with one, those whose name the filter matches, best
/// score first (ties in the order of `pairs`).
pub open spec fn project_list(pairs: Seq<(i64, Seq<char>)>, filter: Seq<char>) -> Seq<(i64, Seq<char>)> {
    if filter.len() == 0 {
        let keys = pairs.map_values(|p: (i64, Seq<char>)| spec_lowercase(p.1));
        let idx = sort_by_name(keys, Seq::new(pairs.len(), |i: int| i as usize));
        Seq::new(idx.len(), |k: int| pairs[idx[k] as int])
    } else {
        let s = sort_by_score(scored_pairs(pairs, filter, pairs.len()));
        Seq::new(s.len(), |k: int| pairs[s[k].1 as int])
    }
}

/// The rows offered while a new timer waits for its project: a header that
/// cancels, "No project", then the projects.
pub open spec fn project_rows(
    pending: Option<Seq<char>>,
    pairs: Seq<(i64, Seq<char>)>,
    filter: Seq<char>,
    dir: Seq<char>,
) -> Seq<(Row, ActionView)> {
    let title = match pending {
        Some(d) => if d.len() > 0 {
            "Creating: "@ + d
        } else {
            "New timer (no description)"@
        },
        None => "New timer (no description)"@,
    };
    let list = project_list(pairs, filter);
    seq![
        (
            Row {
                name: title,
                description: "Select a project below (click here to cancel)"@,
                icon: icon_of(dir, "plus"@),
            },
            ActionView::CancelNew,
        ),
        (
            Row {
                name: "No project"@,
                description: "Start timer without a project"@,
                icon: icon_of(dir, "play"@),
            },
            ActionView::SelectProject(None),
        ),
    ] + Seq::new(
        list.len(),
        |k: int|
            (
                Row { name: list[k].1, description: "Select project"@, icon: icon_of(dir, "play"@) },
                ActionView::SelectProject(Some(list[k].0)),
            ),
    )
}

proof fn lemma_scored_pairs(pairs: Seq<(i64, Seq<char>)>, filter: Seq<char>, n: nat)
    requires
        n <= usize::MAX,
    ensures
        forall|k: int|
            0 <= k < scored_pairs(pairs, filter, n).len() ==> (#[trigger] scored_pairs(
                pairs,
                filter,
                n,
            )[k]).1 < n,
    decreases n,
{
    if n > 0 {
        lemma_scored_pairs(pairs, filter, (n - 1) as nat);
        let r = scored_pairs(pairs, filter, (n - 1) as nat);
        let t = scored_pairs(pairs, filter, n);
        assert forall|k: int| 0 <= k < t.len() implies (#[trigger] t[k]).1 < n by {
            if k < r.len() {
                assert(t[k] == r[k]);
            }
        }
    }
}

impl Plugin {
    /// The projects as `(id, name)` pairs, in the map's order.
    fn project_pairs(&self) -> (r: Vec<(i64, String)>)
        ensures
            lists_map(crate::api::pairs_view(r@), names_view(self.projects@)),
    {
        let ghost m = self.projects@;
        let mut iter = self.projects.iter();
        let ghost rem = vstd::std_specs::hash::spec_hash_map_iter(&self.projects).remaining();
        assert(iter.remaining() == rem);
        assert(rem.no_duplicates());
        let mut out: Vec<(i64, String)> = Vec::new();
        assert(rem.skip(0) == rem);
        loop
            invariant_except_break
                iter.remaining() == rem.skip(out@.len() as int),
            invariant
                m == self.projects@,
                rem.len() == m.dom().len(),
                out@.len() <= rem.len(),
                forall|j: int|
                    0 <= j < out@.len() ==> (#[trigger] out@[j]).0 == *rem[j].0 && out@[j].1@
                        == (*rem[j].1)@,
            ensures
                out@.len() == rem.len(),
                forall|j: int|
                    0 <= j < out@.len() ==> (#[trigger] out@[j]).0 == *rem[j].0 && out@[j].1@
                        == (*rem[j].1)@,
            decreases m.dom().len() - out@.len(),
        {
            match iter_next(&mut iter) {
                Some(x) => {
                    let (k, v) = x;
                    assert(x == rem[out@.len() as int]);
                    out.push((*k, v.clone()));
                    assert(rem.skip(out@.len() - 1).drop_first() == rem.skip(out@.len() as int));
                },
                None => {
                    break;
                },
            }
        }
        let ghost pv = crate::api::pairs_view(out@);
        let ghost mv = names_view(m);
        assert forall|i: int| 0 <= i < pv.len() implies mv.contains_key(#[trigger] pv[i].0) && mv[pv[i].0]
            == pv[i].1 by {
            assert(m.contains_key(*rem[i].0) && m[*rem[i].0] == *rem[i].1);
        }
        assert forall|k: i64| mv.contains_key(k) implies exists|i: int| 0 <= i < pv.len() && #[trigger] pv[i].0 == k by {
            assert(rem.contains((&k, &m[k])));
            let i = choose|i: int| 0 <= i < rem.len() && rem[i] == (&k, &m[k]);
            assert(pv[i].0 == k);
        }
        assert forall|i: int, j: int| 0 <= i < j < pv.len() implies #[trigger] pv[i].0 != #[trigger] pv[j].0 by {
            if pv[i].0 == pv[j].0 {
                assert(m.contains_key(*rem[i].0) && m[*rem[i].0] == *rem[i].1);
                assert(m.contains_key(*rem[j].0) && m[*rem[j].0] == *rem[j].1);
                assert(rem[i] == rem[j]);
            }
        }
        out
    }
}


impl Plugin {
    /// The positions of the projects in the order offered.
    fn project_order(pairs: &Vec<(i64, String)>, filter: &str) -> (r: Vec<usize>)
        ensures
            ({
                let pv = crate::api::pairs_view(pairs@);
                let list = project_list(pv, filter@);
                &&& r@.len() == list.len()
                &&& forall|k: int| 0 <= k < r@.len() ==> #[trigger] r@[k] < pairs@.len()
                &&& forall|k: int| 0 <= k < r@.len() ==> list[k] == pv[#[trigger] r@[k] as int]
            }),
    {
        let ghost pv = crate::api::pairs_view(pairs@);
        let mut order: Vec<usize> = Vec::new();
        if filter.is_empty() {
            let ghost lower = pv.map_values(|p: (i64, Seq<char>)| spec_lowercase(p.1));
            let mut keys: Vec<Vec<char>> = Vec::new();
            let mut i: usize = 0;
            while i < pairs.len()
                invariant
                    i <= pairs.len(),
                    pv == crate::api::pairs_view(pairs@),
                    lower == pv.map_values(|p: (i64, Seq<char>)| spec_lowercase(p.1)),
                    keys@.map_values(|k: Vec<char>| k@) == lower.take(i as int),
                decreases pairs.len() - i,
            {
                let k = chars_of(to_lowercase(pairs[i].1.as_str()).as_str());
                let ghost before = keys@;
                keys.push(k);
                assert(keys@.map_values(|k: Vec<char>| k@) == before.map_values(|k: Vec<char>| k@).push(
                    lower[i as int],
                ));
                assert(lower.take(i + 1) == lower.take(i as int).push(lower[i as int]));
                i = i + 1;
            }
            assert(lower.take(pairs.len() as int) == lower);
            order = sort_named(&keys);
            proof {
                crate::sort::lemma_sort_by_name_items(lower, Seq::new(keys@.len(), |i: int| i as usize));
                let all = Seq::new(keys@.len(), |i: int| i as usize);
                assert forall|k: int| 0 <= k < order@.len() implies #[trigger] order@[k] < pairs@.len() by {
                    let j = choose|j: int| 0 <= j < all.len() && all[j] == order@[k];
                }
            }
        } else {
            let mut scored: Vec<(i32, usize)> = Vec::new();
            let mut i: usize = 0;
            while i < pairs.len()
                invariant
                    i <= pairs.len(),
                    pv == crate::api::pairs_view(pairs@),
                    scored@ == scored_pairs(pv, filter@, i as nat),
                decreases pairs.len() - i,
            {
                match fuzzy_score(filter, pairs[i].1.as_str()) {
                    Some(sc) => {
                        scored.push((sc, i));
                    },
                    None => {},
                }
                i = i + 1;
            }
            let sorted = sort_scored(&scored);
            proof {
                crate::sort::lemma_sort_by_score_items(scored@);
                lemma_scored_pairs(pv, filter@, pairs@.len());
            }
            let mut k: usize = 0;
            while k < sorted.len()
                invariant
                    k <= sorted.len(),
                    sorted@.len() == scored@.len(),
                    sorted@ == sort_by_score(scored@),
                    scored@ == scored_pairs(pv, filter@, pairs@.len()),
                    forall|j: int| 0 <= j < scored@.len() ==> scored@.contains(#[trigger] sorted@[j]),
                    forall|j: int| 0 <= j < scored@.len() ==> (#[trigger] scored@[j]).1 < pairs@.len(),
                    order@ == Seq::new(k as nat, |j: int| sorted@[j].1),
                    forall|j: int| 0 <= j < k ==> #[trigger] order@[j] < pairs@.len(),
                decreases sorted.len() - k,
            {
                let ghost jj = choose|j: int| 0 <= j < scored@.len() && scored@[j] == sorted@[k as int];
                assert(scored@[jj].1 < pairs@.len());
                order.push(sorted[k].1);
                k = k + 1;
            }
        }
        order
    }

    /// The rows offered while a new timer waits for its project.
    fn project_part(&self, filter: &str) -> (r: Vec<(RowData, Action)>)
        ensures
            exists|pairs: Seq<(i64, Seq<char>)>|
                lists_map(pairs, names_view(self.projects@)) && pairs_view(r@) == project_rows(
                    opt_str(self.pending_new_desc),
                    pairs,
                    filter@,
                    self.dir@,
                ),
    {
        let pairs = self.project_pairs();
        let ghost pv = crate::api::pairs_view(pairs@);
        let order = Self::project_order(&pairs, filter);
        let title = match &self.pending_new_desc {
            Some(d) => if d.as_str().is_empty() {
                owned("New timer (no description)")
            } else {
                cat("Creating: ", d.as_str())
            },
            None => owned("New timer (no description)"),
        };
        let mut out: Vec<(RowData, Action)> = Vec::new();
        out.push(
            (
                row(title, owned("Select a project below (click here to cancel)"), self.icon("plus")),
                Action::CancelNew,
            ),
        );
        out.push(
            (
                row(owned("No project"), owned("Start timer without a project"), self.icon("play")),
                Action::SelectProject(None),
            ),
        );
        let ghost rows = project_rows(opt_str(self.pending_new_desc), pv, filter@, self.dir@);
        let ghost list = project_list(pv, filter@);
        assert(pairs_view(out@) == rows.take(2));
        let mut k: usize = 0;
        while k < order.len()
            invariant
                k <= order@.len(),
                order@.len() == list.len(),
                pv == crate::api::pairs_view(pairs@),
                list == project_list(pv, filter@),
                rows == project_rows(opt_str(self.pending_new_desc), pv, filter@, self.dir@),
                forall|j: int| 0 <= j < order@.len() ==> #[trigger] order@[j] < pairs@.len(),
                forall|j: int| 0 <= j < order@.len() ==> list[j] == pv[#[trigger] order@[j] as int],
                pairs_view(out@) == rows.take(k + 2),
            decreases order.len() - k,
        {
            let p = &pairs[order[k]];
            assert(list[k as int] == pv[order@[k as int] as int]);
            let rd = row(p.1.clone(), owned("Select project"), self.icon("play"));
            let ghost before = pairs_view(out@);
            assert(rows[k + 2] == (rd@, ActionView::SelectProject(Some(p.0))));
            out.push((rd, Action::SelectProject(Some(p.0))));
            assert(pairs_view(out@) == before.push(rows[k + 2]));
            assert(rows.take(k + 3) == rows.take(k + 2).push(rows[k + 2]));
            k = k + 1;
        }
        assert(rows.take(k + 2) == rows);
        out
    }
}


/// The actions of rows, in order.
fn take_actions(rows: Vec<(RowData, Action)>) -> (r: Vec<Action>)
    ensures
        actions_view(r@) == actions_of(pairs_view(rows@)),
{
    let ghost all = pairs_view(rows@);
    let mut rest = rows;
    let mut out: Vec<Action> = Vec::new();
    let n = rest.len();
    let mut i: usize = 0;
    assert(rest@ == rows@.skip(0));
    while i < n
        invariant
            i <= n == rows@.len(),
            all == pairs_view(rows@),
            rest@ == rows@.skip(i as int),
            actions_view(out@) == actions_of(all).take(i as int),
        decreases n - i,
    {
        let (_row, action) = rest.remove(0);
        assert(action@ == actions_of(all)[i as int]);
        let ghost before = actions_view(out@);
        out.push(action);
        assert(actions_view(out@) == before.push(actions_of(all)[i as int]));
        assert(actions_of(all).take(i + 1) == actions_of(all).take(i as int).push(actions_of(all)[i as int]));
        assert(rows@.skip(i as int).remove(0) == rows@.skip(i + 1));
        i = i + 1;
    }
    assert(actions_of(all).take(n as int) == actions_of(all));
    out
}

/// The row shown until the plugin is configured.
pub open spec fn setup_row(dir: Seq<char>) -> Row {
    Row {
        name: "Toggl Track: Setup required"@,
        description: "Click to enter your API token & workspace ID"@,
        icon: icon_of(dir, "settings"@),
    }
}

/// The row shown while the API rate limit holds.
pub open spec fn rate_limit_row(dir: Seq<char>) -> Row {
    Row {
        name: "API rate limit reached"@,
        description: "Try again in a few minutes"@,
        icon: icon_of(dir, "warning"@),
    }
}

impl Plugin {
    /// Answers a search for `query`. Once configured, the plugin first takes
    /// the cached data from `cache` (refreshed by the program just before);
    /// `now` is the current time in nanoseconds since the Unix epoch.
    pub fn handle_search(&mut self, query: &str, cache: &Cache, now: i128) -> (r: Vec<Effect>)
        requires
            -instant_bound() < now < instant_bound(),
        ensures
            opt_str(final(self).token) == opt_str(old(self).token),
            final(self).wid == old(self).wid,
            final(self).keyword@ == old(self).keyword@,
            opt_str(final(self).pending_new_desc) == opt_str(old(self).pending_new_desc),
            final(self).dir@ == old(self).dir@,
            !(old(self).token is Some && old(self).wid is Some) ==> {
                &&& actions_view(final(self).results@) == seq![ActionView::Setup]
                &&& effects_view(r@) == listing(seq![setup_row(old(self).dir@)])
                &&& opt_entry_view(final(self).current) == opt_entry_view(old(self).current)
                &&& entries_view(final(self).entries@) == entries_view(old(self).entries@)
                &&& final(self).projects@ == old(self).projects@
                &&& final(self).filter_text_value@ == old(self).filter_text_value@
            },
            (old(self).token is Some && old(self).wid is Some) ==> {
                &&& opt_entry_view(final(self).current) == opt_entry_view(cache.current)
                &&& entries_view(final(self).entries@) == entries_view(cache.entries@)
                &&& final(self).projects@ == cache.projects@
                &&& if cache.rate_limited {
                    &&& actions_view(final(self).results@) == seq![ActionView::Noop]
                    &&& effects_view(r@) == listing(seq![rate_limit_row(old(self).dir@)])
                    &&& final(self).filter_text_value@ == old(self).filter_text_value@
                } else {
                    let f = spec_filter_text(query@, old(self).keyword@);
                    &&& final(self).filter_text_value@ == f
                    &&& if old(self).pending_new_desc is Some {
                        exists|pairs: Seq<(i64, Seq<char>)>|
                            #[trigger] lists_map(pairs, names_view(cache.projects@)) && effects_view(r@)
                                == seq![EffectView::Send("{\"Clear\":null}"@)] + listing(
                                rows_of(
                                    project_rows(
                                        opt_str(old(self).pending_new_desc),
                                        pairs,
                                        f,
                                        old(self).dir@,
                                    ),
                                ),
                            ) && actions_view(final(self).results@) == actions_of(
                                project_rows(
                                    opt_str(old(self).pending_new_desc),
                                    pairs,
                                    f,
                                    old(self).dir@,
                                ),
                            )
                    } else {
                        let rows = search_rows(
                            names_view(cache.projects@),
                            opt_entry_view(cache.current),
                            entries_view(cache.entries@),
                            f,
                            now as int,
                            old(self).dir@,
                        );
                        &&& effects_view(r@) == listing(rows_of(rows))
                        &&& actions_view(final(self).results@) == actions_of(rows)
                    }
                }
            },
    {
        if !self.configured() {
            let mut rows: Vec<(RowData, Action)> = Vec::new();
            rows.push(
                (
                    row(
                        owned("Toggl Track: Setup required"),
                        owned("Click to enter your API token & workspace ID"),
                        self.icon("settings"),
                    ),
                    Action::Setup,
                ),
            );
            let effects = emit_listing(&rows);
            assert(rows_of(pairs_view(rows@)) == seq![setup_row(self.dir@)]);
            self.results = take_actions(rows);
            assert(actions_view(self.results@) == seq![ActionView::Setup]);
            return effects;
        }
        let (current, entries, projects) = crate::cache::snapshot(cache);
        self.current = current;
        self.entries = entries;
        self.projects = projects;
        if crate::cache::is_rate_limited(cache) {
            let mut rows: Vec<(RowData, Action)> = Vec::new();
            rows.push(
                (
                    row(owned("API rate limit reached"), owned("Try again in a few minutes"), self.icon("warning")),
                    Action::Noop,
                ),
            );
            let effects = emit_listing(&rows);
            assert(rows_of(pairs_view(rows@)) == seq![rate_limit_row(self.dir@)]);
            self.results = take_actions(rows);
            assert(actions_view(self.results@) == seq![ActionView::Noop]);
            return effects;
        }
        let filter = self.filter_text(query);
        self.filter_text_value = filter.clone();
        if self.pending_new_desc.is_some() {
            let rows = self.project_part(filter.as_str());
            let listed = emit_listing(&rows);
            let mut effects: Vec<Effect> = Vec::new();
            effects.push(Effect::Send(clear()));
            let mut listed = listed;
            effects.append(&mut listed);
            self.results = take_actions(rows);
            return effects;
        }
        let mut rows = self.running_part(filter.as_str(), now);
        rows.push(self.new_part(filter.as_str()));
        let mut recent = self.recent_part(filter.as_str());
        rows.append(&mut recent);
        let effects = emit_listing(&rows);
        self.results = take_actions(rows);
        effects
    }
}


// --- Activation ----------------------------------------------------------------

/// The `Fill` that puts the keyword and a space back in the query.
pub open spec fn keyword_fill(keyword: Seq<char>) -> EffectView {
    EffectView::Send(fill_line(keyword + " "@))
}

/// The job that stops `stop` and then starts `start`, when the plugin is
/// configured with `token` and `wid`; nothing otherwise.
pub open spec fn job_if_configured(
    token: Option<Seq<char>>,
    wid: Option<i64>,
    stop: Option<EntryView>,
    start: Option<StartView>,
) -> Seq<EffectView> {
    match (token, wid) {
        (Some(t), Some(w)) => seq![EffectView::Spawn(JobView { token: t, wid: w, stop, start })],
        _ => Seq::empty(),
    }
}

/// What stopping entry `e` does: say so, close the launcher, invalidate the
/// cache and stop it in the background.
pub open spec fn stop_effects(token: Option<Seq<char>>, wid: Option<i64>, e: EntryView) -> Seq<EffectView> {
    seq![
        EffectView::Send(fill_line("Stopped: "@ + entry_label(e))),
        EffectView::Send("{\"Close\":null}"@),
        EffectView::InvalidateCache,
    ] + job_if_configured(token, wid, Some(e), None)
}

/// What starting a timer does: say so, close the launcher, invalidate the
/// cache, and in the background stop the running timer and start the new one.
pub open spec fn start_effects(
    token: Option<Seq<char>>,
    wid: Option<i64>,
    current: Option<EntryView>,
    start: StartView,
) -> Seq<EffectView> {
    seq![
        EffectView::Send(fill_line("Started: "@ + start.description)),
        EffectView::Send("{\"Close\":null}"@),
        EffectView::InvalidateCache,
    ] + job_if_configured(token, wid, current, Some(start))
}

/// The effects of activating a row whose action is `a`, and the pending
/// description afterwards.
pub open spec fn activation(
    token: Option<Seq<char>>,
    wid: Option<i64>,
    keyword: Seq<char>,
    current: Option<EntryView>,
    filter_text_value: Seq<char>,
    pending: Option<Seq<char>>,
    a: ActionView,
) -> (Seq<EffectView>, Option<Seq<char>>) {
    match a {
        ActionView::Stop(e) => (stop_effects(token, wid, e), pending),
        ActionView::New => (seq![keyword_fill(keyword)], Some(filter_text_value)),
        ActionView::SelectProject(pid) => {
            let desc = match pending {
                Some(d) => d,
                None => Seq::empty(),
            };
            (
                start_effects(
                    token,
                    wid,
                    current,
                    StartView { description: desc, project_id: pid, tags: None, billable: false },
                ),
                None,
            )
        },
        ActionView::CancelNew => (seq![keyword_fill(keyword)], None),
        ActionView::Start(e) => (
            start_effects(
                token,
                wid,
                current,
                StartView {
                    description: entry_label(e),
                    project_id: e.project_id,
                    tags: e.tags,
                    billable: e.billable,
                },
            ),
            pending,
        ),
        ActionView::Setup => (seq![EffectView::RunSetup], pending),
        ActionView::Noop => (Seq::empty(), pending),
    }
}

impl Plugin {
    /// The spawn effect of a job, when configured.
    fn job(&self, stop: Option<TimeEntry>, start: Option<StartCall>) -> (r: Vec<Effect>)
        ensures
            effects_view(r@) == job_if_configured(
                opt_str(self.token),
                self.wid,
                opt_entry_view(stop),
                match start {
                    Some(s) => Some(s@),
                    None => None,
                },
            ),
    {
        let mut out: Vec<Effect> = Vec::new();
        match (&self.token, self.wid) {
            (Some(t), Some(w)) => {
                out.push(Effect::Spawn(Job { token: t.clone(), wid: w, stop, start }));
            },
            _ => {},
        }
        out
    }

    fn copy_current(&self) -> (r: Option<TimeEntry>)
        ensures
            opt_entry_view(r) == opt_entry_view(self.current),
    {
        match &self.current {
            Some(c) => Some(c.copy()),
            None => None,
        }
    }

    fn keyword_fill(&self) -> (r: Effect)
        ensures
            r@ == keyword_fill(self.keyword@),
    {
        Effect::Send(fill(cat(self.keyword.as_str(), " ").as_str()))
    }

    fn started(&self, start: StartCall) -> (r: Vec<Effect>)
        ensures
            effects_view(r@) == start_effects(opt_str(self.token), self.wid, opt_entry_view(self.current), start@),
    {
        let mut out: Vec<Effect> = Vec::new();
        out.push(Effect::Send(fill(cat("Started: ", start.description.as_str()).as_str())));
        out.push(Effect::Send(close()));
        out.push(Effect::InvalidateCache);
        let mut j = self.job(self.copy_current(), Some(start));
        out.append(&mut j);
        out
    }

    fn stopped(&self, e: &TimeEntry) -> (r: Vec<Effect>)
        ensures
            effects_view(r@) == stop_effects(opt_str(self.token), self.wid, e@),
    {
        let mut out: Vec<Effect> = Vec::new();
        out.push(Effect::Send(fill(cat("Stopped: ", e.description_or_default()).as_str())));
        out.push(Effect::Send(close()));
        out.push(Effect::InvalidateCache);
        let mut j = self.job(Some(e.copy()), None);
        out.append(&mut j);
        out
    }

    /// Activates result row `id`.
    pub fn handle_activate(&mut self, id: usize) -> (r: Vec<Effect>)
        ensures
            opt_str(final(self).token) == opt_str(old(self).token),
            final(self).wid == old(self).wid,
            final(self).keyword@ == old(self).keyword@,
            opt_entry_view(final(self).current) == opt_entry_view(old(self).current),
            entries_view(final(self).entries@) == entries_view(old(self).entries@),
            final(self).projects@ == old(self).projects@,
            actions_view(final(self).results@) == actions_view(old(self).results@),
            final(self).filter_text_value@ == old(self).filter_text_value@,
            final(self).dir@ == old(self).dir@,
            id >= old(self).results@.len() ==> r@.len() == 0 && opt_str(final(self).pending_new_desc)
                == opt_str(old(self).pending_new_desc),
            id < old(self).results@.len() ==> (effects_view(r@), opt_str(final(self).pending_new_desc))
                == activation(
                opt_str(old(self).token),
                old(self).wid,
                old(self).keyword@,
                opt_entry_view(old(self).current),
                old(self).filter_text_value@,
                opt_str(old(self).pending_new_desc),
                old(self).results@[id as int]@,
            ),
    {
        if id >= self.results.len() {
            return Vec::new();
        }
        let mut out: Vec<Effect> = Vec::new();
        match &self.results[id] {
            Action::Stop(e) => {
                out = self.stopped(e);
            },
            Action::New => {
                self.pending_new_desc = Some(self.filter_text_value.clone());
                out.push(self.keyword_fill());
            },
            Action::SelectProject(pid) => {
                let pid = *pid;
                let desc = match self.pending_new_desc.take() {
                    Some(d) => d,
                    None => String::new(),
                };
                out = self.started(StartCall { description: desc, project_id: pid, tags: None, billable: false });
            },
            Action::CancelNew => {
                self.pending_new_desc = None;
                out.push(self.keyword_fill());
            },
            Action::Start(e) => {
                let tags = match &e.tags {
                    Some(v) => Some(copy_strings(v)),
                    None => None,
                };
                let call = StartCall {
                    description: owned(e.description_or_default()),
                    project_id: e.project_id,
                    tags,
                    billable: e.billable,
                };
                out = self.started(call);
            },
            Action::Setup => {
                out.push(Effect::RunSetup);
            },
            Action::Noop => {},
        }
        out
    }

    /// Takes the result of the setup dialogs: the token and workspace chosen,
    /// or `None` when the user gave up.
    pub fn setup_finished(&mut self, result: Option<(String, i64)>) -> (r: Vec<Effect>)
        ensures
            final(self).keyword@ == old(self).keyword@,
            opt_entry_view(final(self).current) == opt_entry_view(old(self).current),
            entries_view(final(self).entries@) == entries_view(old(self).entries@),
            final(self).projects@ == old(self).projects@,
            actions_view(final(self).results@) == actions_view(old(self).results@),
            final(self).filter_text_value@ == old(self).filter_text_value@,
            opt_str(final(self).pending_new_desc) == opt_str(old(self).pending_new_desc),
            final(self).dir@ == old(self).dir@,
            match result {
                Some((t, w)) => {
                    &&& opt_str(final(self).token) == Some(t@)
                    &&& final(self).wid == Some(w)
                    &&& effects_view(r@) == seq![keyword_fill(old(self).keyword@)]
                },
                None => {
                    &&& opt_str(final(self).token) == opt_str(old(self).token)
                    &&& final(self).wid == old(self).wid
                    &&& effects_view(r@) == seq![EffectView::Send("{\"Close\":null}"@)]
                },
            },
    {
        let mut out: Vec<Effect> = Vec::new();
        match result {
            Some((t, w)) => {
                self.token = Some(t);
                self.wid = Some(w);
                out.push(self.keyword_fill());
            },
            None => {
                out.push(Effect::Send(close()));
            },
        }
        out
    }

    /// Opens the context menu of result `id`: the browser, and stopping the
    /// running timer when there is one.
    pub fn handle_context(&self, id: usize) -> (r: Vec<Effect>)
        ensures
            effects_view(r@) == seq![
                EffectView::Send(
                    context_line(
                        id as nat,
                        if self.current is Some {
                            seq!["Open Toggl in browser"@, "Stop timer"@]
                        } else {
                            seq!["Open Toggl in browser"@]
                        },
                    ),
                ),
            ],
    {
        let mut options: Vec<String> = Vec::new();
        options.push(owned("Open Toggl in browser"));
        if self.current.is_some() {
            options.push(owned("Stop timer"));
        }
        let ghost names = options@.map_values(|s: String| s@);
        assert(names == if self.current is Some {
            seq!["Open Toggl in browser"@, "Stop timer"@]
        } else {
            seq!["Open Toggl in browser"@]
        });
        let mut out: Vec<Effect> = Vec::new();
        out.push(Effect::Send(context(id, &options)));
        out
    }

    /// Activates option `context` of a context menu: 0 opens Toggl in the
    /// browser, 1 stops the running timer.
    pub fn handle_activate_context(&mut self, id: usize, context: usize) -> (r: Vec<Effect>)
        ensures
            opt_str(final(self).token) == opt_str(old(self).token),
            final(self).wid == old(self).wid,
            final(self).keyword@ == old(self).keyword@,
            opt_entry_view(final(self).current) == opt_entry_view(old(self).current),
            entries_view(final(self).entries@) == entries_view(old(self).entries@),
            final(self).projects@ == old(self).projects@,
            actions_view(final(self).results@) == actions_view(old(self).results@),
            final(self).filter_text_value@ == old(self).filter_text_value@,
            opt_str(final(self).pending_new_desc) == opt_str(old(self).pending_new_desc),
            final(self).dir@ == old(self).dir@,
            effects_view(r@) == if context == 0 {
                seq![EffectView::OpenBrowser, EffectView::Send("{\"Close\":null}"@)]
            } else if context == 1 {
                match opt_entry_view(old(self).current) {
                    Some(c) => stop_effects(opt_str(old(self).token), old(self).wid, c),
                    None => Seq::empty(),
                }
            } else {
                Seq::empty()
            },
    {
        let mut out: Vec<Effect> = Vec::new();
        if context == 0 {
            out.push(Effect::OpenBrowser);
            out.push(Effect::Send(close()));
        } else if context == 1 {
            match &self.current {
                Some(c) => {
                    out = self.stopped(c);
                },
                None => {},
            }
        }
        out
    }
}


// --- Laws -------------------------------------------------------------------------

proof fn lemma_scored_upto_increasing(
    projects: Map<i64, Seq<char>>,
    entries: Seq<EntryView>,
    filter: Seq<char>,
    n: nat,
)
    requires
        n <= usize::MAX,
    ensures
        crate::sort::positions_increase(scored_upto(projects, entries, filter, n)),
    decreases n,
{
    if n > 0 {
        lemma_scored_upto_increasing(projects, entries, filter, (n - 1) as nat);
        lemma_scored_upto(projects, entries, filter, (n - 1) as nat);
        let r = scored_upto(projects, entries, filter, (n - 1) as nat);
        let t = scored_upto(projects, entries, filter, n);
        assert forall|i: int, j: int| 0 <= i < j < t.len() implies #[trigger] t[i].1 < #[trigger] t[j].1 by {
            if j < r.len() {
                assert(t[i] == r[i] && t[j] == r[j]);
            } else {
                assert(t[i] == r[i]);
            }
        }
    }
}

proof fn lemma_scored_pairs_increasing(pairs: Seq<(i64, Seq<char>)>, filter: Seq<char>, n: nat)
    requires
        n <= usize::MAX,
    ensures
        crate::sort::positions_increase(scored_pairs(pairs, filter, n)),
    decreases n,
{
    if n > 0 {
        lemma_scored_pairs_increasing(pairs, filter, (n - 1) as nat);
        lemma_scored_pairs(pairs, filter, (n - 1) as nat);
        let r = scored_pairs(pairs, filter, (n - 1) as nat);
        let t = scored_pairs(pairs, filter, n);
        assert forall|i: int, j: int| 0 <= i < j < t.len() implies #[trigger] t[i].1 < #[trigger] t[j].1 by {
            if j < r.len() {
                assert(t[i] == r[i] && t[j] == r[j]);
            } else {
                assert(t[i] == r[i]);
            }
        }
    }
}

/// With a filter, the recent entries are ranked best score first, and
/// entries with equal scores keep their recency order.
pub proof fn law_recent_ranking(projects: Map<i64, Seq<char>>, entries: Seq<EntryView>, filter: Seq<char>)
    requires
        entries.len() <= usize::MAX,
    ensures
        ({
            let s = sort_by_score(scored_upto(projects, entries, filter, entries.len()));
            forall|i: int, j: int|
                0 <= i < j < s.len() ==> crate::sort::ranks_before(#[trigger] s[i], #[trigger] s[j])
        }),
{
    lemma_scored_upto_increasing(projects, entries, filter, entries.len());
    crate::sort::law_sort_by_score_ranks(scored_upto(projects, entries, filter, entries.len()));
}

/// While choosing a project, the projects are offered by lowercased name
/// without a filter (equal names in the map's order), and best score first
/// with one (equal scores in the map's order).
pub proof fn law_project_ordering(pairs: Seq<(i64, Seq<char>)>, filter: Seq<char>)
    requires
        pairs.len() <= usize::MAX,
    ensures
        ({
            let keys = pairs.map_values(|p: (i64, Seq<char>)| spec_lowercase(p.1));
            let idx = sort_by_name(keys, Seq::new(pairs.len(), |i: int| i as usize));
            forall|i: int, j: int|
                0 <= i < j < idx.len() ==> crate::sort::names_before(keys, #[trigger] idx[i], #[trigger] idx[j])
        }),
        ({
            let s = sort_by_score(scored_pairs(pairs, filter, pairs.len()));
            forall|i: int, j: int|
                0 <= i < j < s.len() ==> crate::sort::ranks_before(#[trigger] s[i], #[trigger] s[j])
        }),
{
    let keys = pairs.map_values(|p: (i64, Seq<char>)| spec_lowercase(p.1));
    let all = Seq::new(pairs.len(), |i: int| i as usize);
    assert forall|i: int, j: int| 0 <= i < j < all.len() implies #[trigger] all[i] < #[trigger] all[j] by {}
    crate::sort::law_sort_by_name_orders(keys, all);
    lemma_scored_pairs_increasing(pairs, filter, pairs.len());
    crate::sort::law_sort_by_score_ranks(scored_pairs(pairs, filter, pairs.len()));
}

/// A search lists at most one running timer row, then always the new timer
/// row, then at most five recent entries without a filter and eight with one.
pub proof fn law_search_layout(
    projects: Map<i64, Seq<char>>,
    current: Option<EntryView>,
    entries: Seq<EntryView>,
    filter: Seq<char>,
    now: int,
    dir: Seq<char>,
)
    ensures
        ({
            let run = running_rows(projects, current, filter, now, dir);
            let recent = recent_rows(projects, entries, filter, dir);
            let rows = search_rows(projects, current, entries, filter, now, dir);
            &&& run.len() <= 1
            &&& recent.len() <= max_shown(filter)
            &&& rows.len() == run.len() + 1 + recent.len()
            &&& rows[run.len() as int] == new_row(filter, dir)
            &&& forall|k: int| 0 <= k < recent.len() ==> #[trigger] rows[run.len() + 1 + k] == recent[k]
        }),
{
}

/// A listing sends row `i` as the result with id `i`, and the action kept
/// for id `i` is that row's action: activating the id the launcher reports
/// does what the row offered.
pub proof fn law_listing_ids(rows: Seq<(Row, ActionView)>)
    ensures
        listing(rows_of(rows)).len() == rows.len() + 2,
        actions_of(rows).len() == rows.len(),
        forall|i: int|
            0 <= i < rows.len() ==> #[trigger] listing(rows_of(rows))[i + 1] == EffectView::Send(
                append_line(i as nat, rows[i].0.name, rows[i].0.description, rows[i].0.icon),
            ) && actions_of(rows)[i] == rows[i].1,
{
}


/// Choosing "New timer" keeps the typed filter as the pending description;
/// cancelling drops it again, and picking a project starts the timer with
/// that description and ends the wait.
pub proof fn law_new_timer_flow(
    token: Option<Seq<char>>,
    wid: Option<i64>,
    keyword: Seq<char>,
    current: Option<EntryView>,
    filter: Seq<char>,
    pending: Option<Seq<char>>,
    pid: Option<i64>,
)
    ensures
        activation(token, wid, keyword, current, filter, pending, ActionView::New).1 == Some(filter),
        activation(token, wid, keyword, current, filter, Some(filter), ActionView::CancelNew).1 is None,
        activation(token, wid, keyword, current, filter, Some(filter), ActionView::SelectProject(pid)).1 is None,
        activation(token, wid, keyword, current, filter, Some(filter), ActionView::SelectProject(pid)).0[0]
            == EffectView::Send(fill_line("Started: "@ + filter)),
{
}

/// Starting a timer, from a chosen project or a recent entry, while the
/// configured plugin has a running timer `c`: the launcher reports the
/// start, closes, the cache is invalidated, and one background job stops
/// `c` and then starts the new timer in the configured workspace. Stopping
/// an entry runs a job that only stops it.
pub proof fn law_starting_stops_the_running_timer(
    t: Seq<char>,
    w: i64,
    keyword: Seq<char>,
    c: EntryView,
    filter: Seq<char>,
    pending: Option<Seq<char>>,
    pid: Option<i64>,
    e: EntryView,
)
    ensures
        ({
            let desc = match pending {
                Some(d) => d,
                None => Seq::<char>::empty(),
            };
            activation(Some(t), Some(w), keyword, Some(c), filter, pending, ActionView::SelectProject(pid))
                == (
                seq![
                    EffectView::Send(fill_line("Started: "@ + desc)),
                    EffectView::Send("{\"Close\":null}"@),
                    EffectView::InvalidateCache,
                    EffectView::Spawn(
                        JobView {
                            token: t,
                            wid: w,
                            stop: Some(c),
                            start: Some(
                                StartView { description: desc, project_id: pid, tags: None, billable: false },
                            ),
                        },
                    ),
                ],
                None::<Seq<char>>,
            )
        }),
        activation(Some(t), Some(w), keyword, Some(c), filter, pending, ActionView::Start(e)) == (
            seq![
                EffectView::Send(fill_line("Started: "@ + entry_label(e))),
                EffectView::Send("{\"Close\":null}"@),
                EffectView::InvalidateCache,
                EffectView::Spawn(
                    JobView {
                        token: t,
                        wid: w,
                        stop: Some(c),
                        start: Some(
                            StartView {
                                description: entry_label(e),
                                project_id: e.project_id,
                                tags: e.tags,
                                billable: e.billable,
                            },
                        ),
                    },
                ),
            ],
            pending,
        ),
        activation(Some(t), Some(w), keyword, Some(c), filter, pending, ActionView::Stop(e)) == (
            seq![
                EffectView::Send(fill_line("Stopped: "@ + entry_label(e))),
                EffectView::Send("{\"Close\":null}"@),
                EffectView::InvalidateCache,
                EffectView::Spawn(JobView { token: t, wid: w, stop: Some(e), start: None }),
            ],
            pending,
        ),
{
    let desc = match pending {
        Some(d) => d,
        None => Seq::<char>::empty(),
    };
    assert(activation(Some(t), Some(w), keyword, Some(c), filter, pending, ActionView::SelectProject(pid)).0
        =~= seq![
        EffectView::Send(fill_line("Started: "@ + desc)),
        EffectView::Send("{\"Close\":null}"@),
        EffectView::InvalidateCache,
        EffectView::Spawn(
            JobView {
                token: t,
                wid: w,
                stop: Some(c),
                start: Some(StartView { description: desc, project_id: pid, tags: None, billable: false }),
            },
        ),
    ]);
    assert(activation(Some(t), Some(w), keyword, Some(c), filter, pending, ActionView::Start(e)).0 =~= seq![
        EffectView::Send(fill_line("Started: "@ + entry_label(e))),
        EffectView::Send("{\"Close\":null}"@),
        EffectView::InvalidateCache,
        EffectView::Spawn(
            JobView {
                token: t,
                wid: w,
                stop: Some(c),
                start: Some(
                    StartView {
                        description: entry_label(e),
                        project_id: e.project_id,
                        tags: e.tags,
                        billable: e.billable,
                    },
                ),
            },
        ),
    ]);
    assert(activation(Some(t), Some(w), keyword, Some(c), filter, pending, ActionView::Stop(e)).0 =~= seq![
        EffectView::Send(fill_line("Stopped: "@ + entry_label(e))),
        EffectView::Send("{\"Close\":null}"@),
        EffectView::InvalidateCache,
        EffectView::Spawn(JobView { token: t, wid: w, stop: Some(e), start: None }),
    ]);
}

/// Activating a row never spawns a job before the plugin is configured.
pub proof fn law_no_job_unconfigured(
    token: Option<Seq<char>>,
    wid: Option<i64>,
    keyword: Seq<char>,
    current: Option<EntryView>,
    filter: Seq<char>,
    pending: Option<Seq<char>>,
    a: ActionView,
)
    requires
        token is None || wid is None,
    ensures
        forall|k: int|
            0 <= k < activation(token, wid, keyword, current, filter, pending, a).0.len() ==> !(
            #[trigger] activation(token, wid, keyword, current, filter, pending, a).0[k] is Spawn),
{
}

/// An entry's score is the better of how the filter scores its label and
/// how it scores its project's name (empty without a known project): it is
/// given whenever either is, is at least each of them, and is one of them.
pub proof fn law_score_entry_is_best(projects: Map<i64, Seq<char>>, e: EntryView, filter: Seq<char>)
    ensures
        ({
            let by_label = spec_fuzzy_score(filter, entry_label(e));
            let by_project = spec_fuzzy_score(
                filter,
                match project_name(projects, e) {
                    Some(p) => p,
                    None => Seq::empty(),
                },
            );
            let s = spec_score_entry(projects, e, filter);
            &&& (s is Some <==> (by_label is Some || by_project is Some))
            &&& (by_label matches Some(a) ==> (s matches Some(x) && x >= a))
            &&& (by_project matches Some(b) ==> (s matches Some(x) && x >= b))
            &&& (s matches Some(x) ==> (by_label == Some(x) || by_project == Some(x)))
        }),
        project_name(projects, e) matches Some(p) ==> (spec_fuzzy_score(filter, p) matches Some(b) ==> (
        spec_score_entry(projects, e, filter) matches Some(x) && x >= b)),
{
}

/// A fuzzy score, when given, is a non-negative `i32`.
proof fn lemma_fuzzy_score_fits(filter: Seq<char>, text: Seq<char>)
    ensures
        spec_fuzzy_score(filter, text) matches Some(x) ==> 0 <= x <= i32::MAX,
{
    crate::fuzzy::law_score_range(crate::fuzzy::spec_strip(filter), crate::fuzzy::spec_strip(text));
}

/// The scored projects are exactly the projects the filter matches, each
/// with its score.
proof fn lemma_scored_pairs_exact(pairs: Seq<(i64, Seq<char>)>, filter: Seq<char>, n: nat)
    requires
        n <= pairs.len(),
        n <= usize::MAX,
    ensures
        forall|k: int|
            0 <= k < scored_pairs(pairs, filter, n).len() ==> (#[trigger] scored_pairs(pairs, filter, n)[k]).1
                < n && spec_fuzzy_score(filter, pairs[scored_pairs(pairs, filter, n)[k].1 as int].1) == Some(
                scored_pairs(pairs, filter, n)[k].0 as int,
            ),
        forall|i: int|
            0 <= i < n && (#[trigger] spec_fuzzy_score(filter, pairs[i].1)) is Some ==> exists|k: int|
                0 <= k < scored_pairs(pairs, filter, n).len() && #[trigger] scored_pairs(pairs, filter, n)[k].1
                    == i,
    decreases n,
{
    if n > 0 {
        lemma_scored_pairs_exact(pairs, filter, (n - 1) as nat);
        let r = scored_pairs(pairs, filter, (n - 1) as nat);
        let t = scored_pairs(pairs, filter, n);
        lemma_fuzzy_score_fits(filter, pairs[n - 1].1);
        assert forall|k: int| 0 <= k < t.len() implies (#[trigger] t[k]).1 < n && spec_fuzzy_score(
            filter,
            pairs[t[k].1 as int].1,
        ) == Some(t[k].0 as int) by {
            if k < r.len() {
                assert(t[k] == r[k]);
            }
        }
        assert forall|i: int| 0 <= i < n && (#[trigger] spec_fuzzy_score(filter, pairs[i].1)) is Some implies exists|k: int|
            0 <= k < t.len() && #[trigger] t[k].1 == i by {
            if i < n - 1 {
                let k = choose|k: int| 0 <= k < r.len() && #[trigger] r[k].1 == i;
                assert(t[k] == r[k]);
            } else {
                assert(t[t.len() - 1].1 == i);
            }
        }
    }
}

/// The projects offered while a new timer waits: only projects of the
/// listing. Without a filter, every project once, in order of lowercased
/// name; with one, exactly the projects whose name the filter matches, best
/// score first.
pub proof fn law_project_list(pairs: Seq<(i64, Seq<char>)>, filter: Seq<char>)
    requires
        pairs.len() <= usize::MAX,
    ensures
        forall|k: int|
            0 <= k < project_list(pairs, filter).len() ==> pairs.contains(
                #[trigger] project_list(pairs, filter)[k],
            ),
        filter.len() == 0 ==> {
            let l = project_list(pairs, filter);
            &&& l.len() == pairs.len()
            &&& forall|i: int| 0 <= i < pairs.len() ==> l.contains(#[trigger] pairs[i])
            &&& forall|i: int, j: int|
                0 <= i < j < l.len() ==> !crate::sort::lex_lt(
                    spec_lowercase((#[trigger] l[j]).1),
                    spec_lowercase((#[trigger] l[i]).1),
                )
        },
        filter.len() > 0 ==> {
            let l = project_list(pairs, filter);
            &&& forall|k: int| 0 <= k < l.len() ==> (#[trigger] spec_fuzzy_score(filter, l[k].1)) is Some
            &&& forall|i: int|
                0 <= i < pairs.len() && spec_fuzzy_score(filter, (#[trigger] pairs[i]).1) is Some ==> l.contains(
                    pairs[i],
                )
            &&& forall|i: int, j: int|
                0 <= i < j < l.len() ==> spec_fuzzy_score(filter, (#[trigger] l[i]).1)->0 >= spec_fuzzy_score(
                    filter,
                    (#[trigger] l[j]).1,
                )->0
        },
{
    let n = pairs.len();
    let l = project_list(pairs, filter);
    if filter.len() == 0 {
        let keys = pairs.map_values(|p: (i64, Seq<char>)| spec_lowercase(p.1));
        let all = Seq::new(n, |i: int| i as usize);
        let idx = sort_by_name(keys, all);
        crate::sort::lemma_sort_by_name_items(keys, all);
        crate::sort::lemma_sort_by_name_keeps(keys, all);
        assert forall|i: int, j: int| 0 <= i < j < all.len() implies #[trigger] all[i] < #[trigger] all[j] by {}
        crate::sort::law_sort_by_name_orders(keys, all);
        assert forall|k: int| 0 <= k < idx.len() implies #[trigger] idx[k] < n by {
            let j = choose|j: int| 0 <= j < all.len() && all[j] == idx[k];
        }
        assert forall|k: int| 0 <= k < l.len() implies pairs.contains(#[trigger] l[k]) by {
            assert(l[k] == pairs[idx[k] as int]);
        }
        assert forall|i: int| 0 <= i < pairs.len() implies l.contains(#[trigger] pairs[i]) by {
            assert(all[i] == i as usize);
            let k = choose|k: int| 0 <= k < idx.len() && idx[k] == all[i];
            assert(l[k] == pairs[i]);
        }
        assert forall|i: int, j: int| 0 <= i < j < l.len() implies !crate::sort::lex_lt(
            spec_lowercase((#[trigger] l[j]).1),
            spec_lowercase((#[trigger] l[i]).1),
        ) by {
            assert(crate::sort::names_before(keys, idx[i], idx[j]));
            assert(keys[idx[i] as int] == spec_lowercase(l[i].1));
            assert(keys[idx[j] as int] == spec_lowercase(l[j].1));
            crate::sort::lemma_lex_asymmetric(spec_lowercase(l[i].1), spec_lowercase(l[j].1));
            crate::sort::lemma_lex_irreflexive(spec_lowercase(l[i].1));
        }
    } else {
        let sc = scored_pairs(pairs, filter, n);
        let srt = sort_by_score(sc);
        lemma_scored_pairs_exact(pairs, filter, n);
        lemma_scored_pairs_increasing(pairs, filter, n);
        crate::sort::lemma_sort_by_score_items(sc);
        crate::sort::lemma_sort_by_score_keeps(sc);
        crate::sort::law_sort_by_score_ranks(sc);
        assert forall|k: int| 0 <= k < srt.len() implies (#[trigger] srt[k]).1 < n && spec_fuzzy_score(
            filter,
            pairs[srt[k].1 as int].1,
        ) == Some(srt[k].0 as int) by {
            assert(sc.contains(srt[k]));
            let j = choose|j: int| 0 <= j < sc.len() && sc[j] == srt[k];
        }
        assert forall|k: int| 0 <= k < l.len() implies pairs.contains(#[trigger] l[k]) && (spec_fuzzy_score(
            filter,
            l[k].1,
        )) is Some by {
            assert(l[k] == pairs[srt[k].1 as int]);
        }
        assert forall|i: int|
            0 <= i < pairs.len() && spec_fuzzy_score(filter, (#[trigger] pairs[i]).1) is Some implies l.contains(
            pairs[i],
        ) by {
            let k = choose|k: int| 0 <= k < sc.len() && #[trigger] sc[k].1 == i;
            assert(srt.contains(sc[k]));
            let m = choose|m: int| 0 <= m < srt.len() && srt[m] == sc[k];
            assert(l[m] == pairs[i]);
        }
        assert forall|i: int, j: int| 0 <= i < j < l.len() implies spec_fuzzy_score(filter, (#[trigger] l[i]).1)->0
            >= spec_fuzzy_score(filter, (#[trigger] l[j]).1)->0 by {
            assert(l[i] == pairs[srt[i].1 as int]);
            assert(l[j] == pairs[srt[j].1 as int]);
            assert(crate::sort::ranks_before(srt[i], srt[j]));
        }
    }
}

/// An entry score, when given, is a non-negative `i32`.
proof fn lemma_score_entry_fits(projects: Map<i64, Seq<char>>, e: EntryView, filter: Seq<char>)
    ensures
        spec_score_entry(projects, e, filter) matches Some(x) ==> 0 <= x <= i32::MAX,
{
    lemma_fuzzy_score_fits(filter, entry_label(e));
    lemma_fuzzy_score_fits(
        filter,
        match project_name(projects, e) {
            Some(p) => p,
            None => Seq::empty(),
        },
    );
}

/// The scored entries are exactly the entries the filter matches, each with
/// its score.
proof fn lemma_scored_upto_exact(
    projects: Map<i64, Seq<char>>,
    entries: Seq<EntryView>,
    filter: Seq<char>,
    n: nat,
)
    requires
        n <= entries.len(),
        n <= usize::MAX,
    ensures
        forall|k: int|
            0 <= k < scored_upto(projects, entries, filter, n).len() ==> (#[trigger] scored_upto(
                projects,
                entries,
                filter,
                n,
            )[k]).1 < n && spec_score_entry(
                projects,
                entries[scored_upto(projects, entries, filter, n)[k].1 as int],
                filter,
            ) == Some(scored_upto(projects, entries, filter, n)[k].0 as int),
        forall|i: int|
            0 <= i < n && (#[trigger] spec_score_entry(projects, entries[i], filter)) is Some ==> exists|k: int|
                0 <= k < scored_upto(projects, entries, filter, n).len() && #[trigger] scored_upto(
                    projects,
                    entries,
                    filter,
                    n,
                )[k].1 == i,
    decreases n,
{
    if n > 0 {
        lemma_scored_upto_exact(projects, entries, filter, (n - 1) as nat);
        let r = scored_upto(projects, entries, filter, (n - 1) as nat);
        let t = scored_upto(projects, entries, filter, n);
        lemma_score_entry_fits(projects, entries[n - 1], filter);
        assert forall|k: int| 0 <= k < t.len() implies (#[trigger] t[k]).1 < n && spec_score_entry(
            projects,
            entries[t[k].1 as int],
            filter,
        ) == Some(t[k].0 as int) by {
            if k < r.len() {
                assert(t[k] == r[k]);
            }
        }
        assert forall|i: int|
            0 <= i < n && (#[trigger] spec_score_entry(projects, entries[i], filter)) is Some implies exists|k: int|
            0 <= k < t.len() && #[trigger] t[k].1 == i by {
            if i < n - 1 {
                let k = choose|k: int| 0 <= k < r.len() && #[trigger] r[k].1 == i;
                assert(t[k] == r[k]);
            } else {
                assert(t[t.len() - 1].1 == i);
            }
        }
    }
}

/// The recent entries of a search: without a filter, all of them in order;
/// with one, exactly the entries that the filter matches (by label or by
/// project name), best score first.
pub proof fn law_ranked_entries(projects: Map<i64, Seq<char>>, entries: Seq<EntryView>, filter: Seq<char>)
    requires
        entries.len() <= usize::MAX,
    ensures
        filter.len() == 0 ==> ranked(projects, entries, filter) == entries,
        filter.len() > 0 ==> {
            let l = ranked(projects, entries, filter);
            &&& forall|k: int|
                0 <= k < l.len() ==> entries.contains(#[trigger] l[k]) && spec_score_entry(projects, l[k], filter) is Some
            &&& forall|i: int|
                0 <= i < entries.len() && (#[trigger] spec_score_entry(projects, entries[i], filter)) is Some
                    ==> l.contains(entries[i])
            &&& forall|i: int, j: int|
                0 <= i < j < l.len() ==> spec_score_entry(projects, #[trigger] l[i], filter)->0 >= spec_score_entry(
                    projects,
                    #[trigger] l[j],
                    filter,
                )->0
        },
{
    if filter.len() > 0 {
        let n = entries.len();
        let l = ranked(projects, entries, filter);
        let sc = scored_upto(projects, entries, filter, n);
        let srt = sort_by_score(sc);
        lemma_scored_upto_exact(projects, entries, filter, n);
        lemma_scored_upto_increasing(projects, entries, filter, n);
        crate::sort::lemma_sort_by_score_items(sc);
        crate::sort::lemma_sort_by_score_keeps(sc);
        crate::sort::law_sort_by_score_ranks(sc);
        assert forall|k: int| 0 <= k < srt.len() implies (#[trigger] srt[k]).1 < n && spec_score_entry(
            projects,
            entries[srt[k].1 as int],
            filter,
        ) == Some(srt[k].0 as int) by {
            assert(sc.contains(srt[k]));
            let j = choose|j: int| 0 <= j < sc.len() && sc[j] == srt[k];
        }
        assert forall|k: int| 0 <= k < l.len() implies entries.contains(#[trigger] l[k]) && spec_score_entry(
            projects,
            l[k],
            filter,
        ) is Some by {
            assert(l[k] == entries[srt[k].1 as int]);
        }
        assert forall|i: int|
            0 <= i < entries.len() && (#[trigger] spec_score_entry(projects, entries[i], filter)) is Some implies l.contains(
            entries[i],
        ) by {
            let k = choose|k: int| 0 <= k < sc.len() && #[trigger] sc[k].1 == i;
            assert(srt.contains(sc[k]));
            let m = choose|m: int| 0 <= m < srt.len() && srt[m] == sc[k];
            assert(l[m] == entries[i]);
        }
        assert forall|i: int, j: int| 0 <= i < j < l.len() implies spec_score_entry(projects, #[trigger] l[i], filter)->0
            >= spec_score_entry(projects, #[trigger] l[j], filter)->0 by {
            assert(l[i] == entries[srt[i].1 as int]);
            assert(l[j] == entries[srt[j].1 as int]);
            assert(crate::sort::ranks_before(srt[i], srt[j]));
        }
    }
}

/// The running timer is listed exactly when there is one and the filter is
/// empty or matches it; its row is named after it and stops it. The recent
/// rows are the first five (no filter) or eight ranked entries, each named
/// by its label, described by its project name or `No project`, and
/// restarting that entry.
pub proof fn law_search_rows(
    projects: Map<i64, Seq<char>>,
    current: Option<EntryView>,
    entries: Seq<EntryView>,
    filter: Seq<char>,
    now: int,
    dir: Seq<char>,
)
    ensures
        ({
            let run = running_rows(projects, current, filter, now, dir);
            &&& (run.len() == 1) == (current is Some && (filter.len() == 0 || spec_score_entry(
                projects,
                current->0,
                filter,
            ) is Some))
            &&& run.len() == 1 ==> run[0].1 == ActionView::Stop(current->0) && run[0].0.name == "Running: "@
                + entry_label(current->0)
        }),
        ({
            let r = ranked(projects, entries, filter);
            let recent = recent_rows(projects, entries, filter, dir);
            let cap: int = if filter.len() == 0 {
                5
            } else {
                8
            };
            &&& recent.len() == if r.len() < cap {
                r.len() as int
            } else {
                cap
            }
            &&& forall|k: int|
                0 <= k < recent.len() ==> (#[trigger] recent[k]).1 == ActionView::Start(r[k])
                    && recent[k].0.name == entry_label(r[k]) && recent[k].0.description == (match project_name(
                    projects,
                    r[k],
                ) {
                    Some(p) => p,
                    None => "No project"@,
                })
        }),
{
}

proof fn lemma_boundary_after_prefix(kw: Seq<char>, rest: Seq<char>)
    ensures
        char_boundary(kw + rest, utf8_len(kw)) == Some(kw.len()),
    decreases kw.len(),
{
    if kw.len() > 0 {
        let s = kw + rest;
        assert(s[0] == kw[0]);
        assert(s.drop_first() == kw.drop_first() + rest);
        lemma_boundary_after_prefix(kw.drop_first(), rest);
        assert(utf8_width(kw[0]) >= 1);
    } else {
        assert(utf8_len(kw) == 0);
    }
}

/// The filter typed after the keyword: a query that does not start with
/// the keyword (ignoring case) is the filter itself, trimmed; and a query
/// made of the keyword and more text, when lowercasing changes neither,
/// gives that text, trimmed.
pub proof fn law_filter_text(query: Seq<char>, keyword: Seq<char>, rest: Seq<char>)
    ensures
        !starts_with(spec_lowercase(query), spec_lowercase(keyword)) ==> spec_filter_text(query, keyword)
            == spec_trim(query),
        (spec_lowercase(keyword) == keyword && spec_lowercase(keyword + rest) == keyword + rest)
            ==> spec_filter_text(keyword + rest, keyword) == spec_trim(rest),
{
    if spec_lowercase(keyword) == keyword && spec_lowercase(keyword + rest) == keyword + rest {
        let q = keyword + rest;
        assert(q.take(keyword.len() as int) =~= keyword);
        lemma_boundary_after_prefix(keyword, rest);
        assert(q.skip(keyword.len() as int) =~= rest);
    }
}

/// Choosing "New timer" or cancelling the project choice puts the keyword
/// and a space back in the query and does nothing else; "New timer" keeps
/// the typed filter as the pending description, cancelling drops it.
pub proof fn law_new_and_cancel_refill(
    token: Option<Seq<char>>,
    wid: Option<i64>,
    keyword: Seq<char>,
    current: Option<EntryView>,
    filter: Seq<char>,
    pending: Option<Seq<char>>,
)
    ensures
        activation(token, wid, keyword, current, filter, pending, ActionView::New) == (
            seq![EffectView::Send(fill_line(keyword + " "@))],
            Some(filter),
        ),
        activation(token, wid, keyword, current, filter, pending, ActionView::CancelNew) == (
            seq![EffectView::Send(fill_line(keyword + " "@))],
            None::<Seq<char>>,
        ),
        activation(token, wid, keyword, current, filter, pending, ActionView::Setup) == (
            seq![EffectView::RunSetup],
            pending,
        ),
        activation(token, wid, keyword, current, filter, pending, ActionView::Noop).0.len() == 0,
{
}

} // verus!
