//! Toggl Track API v9: time entries, request building and reply handling.
//!
//! The HTTP exchange itself happens outside the library: it hands out
//! [`ApiRequest`]s and takes back each reply as an [`HttpOutcome`].

use vstd::prelude::*;
use crate::json::{Json, spec_get, spec_as_i64, spec_as_str, get, get_i64};
use crate::text::{chars_of, string_of, dec_int, fmt_i64, push_all, push_str};
use crate::json::{json_str, push_json_str};
use crate::dateutil::{now_rfc3339, UtcFields, fields_in_range, spec_timestamp};
use vstd::utf8::encode_utf8;
use vstd::slice::slice_to_vec;
use std::collections::HashMap;

verus! {

/// A time entry as the API reports it.
#[derive(Clone, Debug)]
pub struct TimeEntry {
    pub id: i64,
    pub description: Option<String>,
    pub project_id: Option<i64>,
    pub workspace_id: Option<i64>,
    pub start: Option<String>,
    pub tags: Option<Vec<String>>,
    pub billable: bool,
}

/// A time entry with its strings taken by their characters.
pub struct EntryView {
    pub id: i64,
    pub description: Option<Seq<char>>,
    pub project_id: Option<i64>,
    pub workspace_id: Option<i64>,
    pub start: Option<Seq<char>>,
    pub tags: Option<Seq<Seq<char>>>,
    pub billable: bool,
}

/// The characters of an optional string.
pub open spec fn opt_chars(o: Option<String>) -> Option<Seq<char>> {
    match o {
        Some(s) => Some(s@),
        None => None,
    }
}

/// The characters of each string.
pub open spec fn strings_view(v: Seq<String>) -> Seq<Seq<char>> {
    v.map_values(|s: String| s@)
}

impl View for TimeEntry {
    type V = EntryView;

    open spec fn view(&self) -> EntryView {
        EntryView {
            id: self.id,
            description: opt_chars(self.description),
            project_id: self.project_id,
            workspace_id: self.workspace_id,
            start: opt_chars(self.start),
            tags: match self.tags {
                Some(v) => Some(strings_view(v@)),
                None => None,
            },
            billable: self.billable,
        }
    }
}

/// A copy of an optional string.
pub fn copy_opt_string(o: &Option<String>) -> (r: Option<String>)
    ensures
        opt_chars(r) == opt_chars(*o),
{
    match o {
        Some(s) => Some(s.clone()),
        None => None,
    }
}

/// A copy of a list of strings.
pub fn copy_strings(v: &Vec<String>) -> (r: Vec<String>)
    ensures
        strings_view(r@) == strings_view(v@),
{
    let mut r: Vec<String> = Vec::new();
    let mut i: usize = 0;
    while i < v.len()
        invariant
            i <= v.len(),
            strings_view(r@) == strings_view(v@.take(i as int)),
        decreases v.len() - i,
    {
        r.push(v[i].clone());
        assert(strings_view(v@.take(i + 1)) == strings_view(v@.take(i as int)).push(v@[i as int]@));
        i = i + 1;
    }
    assert(v@.take(v.len() as int) == v@);
    r
}

impl TimeEntry {
    /// A copy of this entry.
    pub fn copy(&self) -> (r: TimeEntry)
        ensures
            r@ == self@,
    {
        let tags = match &self.tags {
            Some(v) => Some(copy_strings(v)),
            None => None,
        };
        TimeEntry {
            id: self.id,
            description: copy_opt_string(&self.description),
            project_id: self.project_id,
            workspace_id: self.workspace_id,
            start: copy_opt_string(&self.start),
            tags,
            billable: self.billable,
        }
    }

    /// The description, or `(no description)` when it is missing or empty.
    pub fn description_or_default(&self) -> (r: &str)
        ensures
            r@ == entry_label(self@),
    {
        match &self.description {
            Some(d) => {
                if d.as_str().is_empty() {
                    "(no description)"
                } else {
                    d.as_str()
                }
            },
            None => "(no description)",
        }
    }
}

/// What an entry is called: its description, or `(no description)` when it
/// is missing or empty.
pub open spec fn entry_label(e: EntryView) -> Seq<char> {
    match e.description {
        Some(d) => if d.len() > 0 {
            d
        } else {
            "(no description)"@
        },
        None => "(no description)"@,
    }
}

/// How an API call failed.
#[derive(Clone, Copy, Debug, PartialEq, Eq, Structural)]
pub enum ApiError {
    RateLimit,
    Other,
}

// --- Decoding a time entry --------------------------------------------------

/// A present field read as an `i64`: only an integer in range.
pub open spec fn dec_i64(j: Json) -> Option<i64> {
    spec_as_i64(Some(j))
}

/// An optional string field: absent or `null` gives `None`, a string gives
/// it, anything else is an error (outer `None`).
pub open spec fn dec_opt_str(j: Option<Json>) -> Option<Option<Seq<char>>> {
    match j {
        None => Some(None),
        Some(Json::Null) => Some(None),
        Some(Json::Str(s)) => Some(Some(s@)),
        _ => None,
    }
}

/// An optional integer field: absent or `null` gives `None`, an integer in
/// `i64` gives it, anything else is an error (outer `None`).
pub open spec fn dec_opt_i64(j: Option<Json>) -> Option<Option<i64>> {
    match j {
        None => Some(None),
        Some(Json::Null) => Some(None),
        Some(v) => match dec_i64(v) {
            Some(n) => Some(Some(n)),
            None => None,
        },
    }
}

/// Whether every item is a string.
pub open spec fn all_str(items: Seq<Json>) -> bool {
    forall|i: int| 0 <= i < items.len() ==> (#[trigger] items[i]) is Str
}

/// The characters of each item, all of which are strings.
pub open spec fn str_items(items: Seq<Json>) -> Seq<Seq<char>> {
    items.map_values(|j: Json| spec_as_str(Some(j)).unwrap())
}

/// An optional list of strings: absent or `null` gives `None`, an array of
/// strings gives them, anything else is an error (outer `None`).
pub open spec fn dec_opt_tags(j: Option<Json>) -> Option<Option<Seq<Seq<char>>>> {
    match j {
        None => Some(None),
        Some(Json::Null) => Some(None),
        Some(Json::Array(items)) => if all_str(items@) {
            Some(Some(str_items(items@)))
        } else {
            None
        },
        _ => None,
    }
}

/// A boolean field with a default: absent gives `false`, a boolean gives
/// it, anything else (`null` too) is an error.
pub open spec fn dec_bool(j: Option<Json>) -> Option<bool> {
    match j {
        None => Some(false),
        Some(Json::Bool(b)) => Some(b),
        _ => None,
    }
}

/// An entry from its seven fields, each absent or present; `id` is required.
pub open spec fn entry_from_fields(
    id: Option<Json>,
    description: Option<Json>,
    project_id: Option<Json>,
    workspace_id: Option<Json>,
    start: Option<Json>,
    tags: Option<Json>,
    billable: Option<Json>,
) -> Option<EntryView> {
    match (
        id,
        dec_opt_str(description),
        dec_opt_i64(project_id),
        dec_opt_i64(workspace_id),
        dec_opt_str(start),
        dec_opt_tags(tags),
        dec_bool(billable),
    ) {
        (Some(idj), Some(d), Some(p), Some(w), Some(s), Some(t), Some(b)) => match dec_i64(idj) {
            Some(id) => Some(
                EntryView {
                    id,
                    description: d,
                    project_id: p,
                    workspace_id: w,
                    start: s,
                    tags: t,
                    billable: b,
                },
            ),
            None => None,
        },
        _ => None,
    }
}

/// Item `k` of an array, or `None` past its end.
pub open spec fn item(items: Seq<Json>, k: int) -> Option<Json> {
    if k < items.len() {
        Some(items[k])
    } else {
        None
    }
}

/// The entry that a JSON value decodes to, as serde decodes a struct: from
/// an object by field name (other members ignored), or from an array of at
/// most seven items by field order (missing trailing items take their
/// defaults); `None` for anything else or any field of the wrong kind.
pub open spec fn spec_entry(j: Json) -> Option<EntryView> {
    match j {
        Json::Object(_) => entry_from_fields(
            spec_get(j, "id"@),
            spec_get(j, "description"@),
            spec_get(j, "project_id"@),
            spec_get(j, "workspace_id"@),
            spec_get(j, "start"@),
            spec_get(j, "tags"@),
            spec_get(j, "billable"@),
        ),
        Json::Array(items) => if items.len() <= 7 {
            entry_from_fields(
                item(items@, 0),
                item(items@, 1),
                item(items@, 2),
                item(items@, 3),
                item(items@, 4),
                item(items@, 5),
                item(items@, 6),
            )
        } else {
            None
        },
        _ => None,
    }
}

fn decode_i64(j: &Json) -> (r: Option<i64>)
    ensures
        r == dec_i64(*j),
{
    match j {
        Json::Int(n) => {
            if -9223372036854775808i128 <= *n && *n <= 9223372036854775807i128 {
                Some(*n as i64)
            } else {
                None
            }
        },
        _ => None,
    }
}

fn decode_opt_str(j: Option<&Json>) -> (r: Option<Option<String>>)
    ensures
        match r {
            Some(o) => dec_opt_str(opt_json(j)) == Some(opt_chars(o)),
            None => dec_opt_str(opt_json(j)) is None,
        },
{
    match j {
        None => Some(None),
        Some(Json::Null) => Some(None),
        Some(Json::Str(s)) => Some(Some(s.clone())),
        _ => None,
    }
}

fn decode_opt_i64(j: Option<&Json>) -> (r: Option<Option<i64>>)
    ensures
        r == dec_opt_i64(opt_json(j)),
{
    match j {
        None => Some(None),
        Some(Json::Null) => Some(None),
        Some(v) => match decode_i64(v) {
            Some(n) => Some(Some(n)),
            None => None,
        },
    }
}

fn decode_opt_tags(j: Option<&Json>) -> (r: Option<Option<Vec<String>>>)
    ensures
        match r {
            Some(Some(v)) => dec_opt_tags(opt_json(j)) == Some(Some(strings_view(v@))),
            Some(None) => dec_opt_tags(opt_json(j)) == Some(None::<Seq<Seq<char>>>),
            None => dec_opt_tags(opt_json(j)) is None,
        },
{
    match j {
        None => Some(None),
        Some(Json::Null) => Some(None),
        Some(Json::Array(items)) => {
            let mut out: Vec<String> = Vec::new();
            let mut i: usize = 0;
            while i < items.len()
                invariant
                    i <= items.len(),
                    all_str(items@.take(i as int)),
                    strings_view(out@) == str_items(items@.take(i as int)),
                    opt_json(j) == Some(Json::Array(*items)),
                decreases items.len() - i,
            {
                assert(items@.take(i + 1) == items@.take(i as int).push(items@[i as int]));
                match &items[i] {
                    Json::Str(s) => {
                        let ghost before = out@;
                        out.push(s.clone());
                        assert(strings_view(out@) == strings_view(before).push(s@));
                        assert(str_items(items@.take(i + 1)) == str_items(items@.take(i as int)).push(s@));
                    },
                    _ => {
                        assert(!all_str(items@));
                        return None;
                    },
                }
                i = i + 1;
            }
            assert(items@.take(items.len() as int) == items@);
            Some(Some(out))
        },
        _ => None,
    }
}

fn decode_bool(j: Option<&Json>) -> (r: Option<bool>)
    ensures
        r == dec_bool(opt_json(j)),
{
    match j {
        None => Some(false),
        Some(Json::Bool(b)) => Some(*b),
        _ => None,
    }
}

/// An optional reference taken as an optional value.
pub open spec fn opt_json(j: Option<&Json>) -> Option<Json> {
    match j {
        Some(v) => Some(*v),
        None => None,
    }
}

fn entry_from(
    id: Option<&Json>,
    description: Option<&Json>,
    project_id: Option<&Json>,
    workspace_id: Option<&Json>,
    start: Option<&Json>,
    tags: Option<&Json>,
    billable: Option<&Json>,
) -> (r: Option<TimeEntry>)
    ensures
        match r {
            Some(e) => entry_from_fields(
                opt_json(id),
                opt_json(description),
                opt_json(project_id),
                opt_json(workspace_id),
                opt_json(start),
                opt_json(tags),
                opt_json(billable),
            ) == Some(e@),
            None => entry_from_fields(
                opt_json(id),
                opt_json(description),
                opt_json(project_id),
                opt_json(workspace_id),
                opt_json(start),
                opt_json(tags),
                opt_json(billable),
            ) is None,
        },
{
    let idj = match id {
        Some(v) => v,
        None => {
            return None;
        },
    };
    let d = match decode_opt_str(description) {
        Some(d) => d,
        None => {
            return None;
        },
    };
    let p = match decode_opt_i64(project_id) {
        Some(p) => p,
        None => {
            return None;
        },
    };
    let w = match decode_opt_i64(workspace_id) {
        Some(w) => w,
        None => {
            return None;
        },
    };
    let s = match decode_opt_str(start) {
        Some(s) => s,
        None => {
            return None;
        },
    };
    let t = match decode_opt_tags(tags) {
        Some(t) => t,
        None => {
            return None;
        },
    };
    let b = match decode_bool(billable) {
        Some(b) => b,
        None => {
            return None;
        },
    };
    let n = match decode_i64(idj) {
        Some(n) => n,
        None => {
            return None;
        },
    };
    let e = TimeEntry {
        id: n,
        description: d,
        project_id: p,
        workspace_id: w,
        start: s,
        tags: t,
        billable: b,
    };
    Some(e)
}

fn item_ref(items: &Vec<Json>, k: usize) -> (r: Option<&Json>)
    ensures
        opt_json(r) == item(items@, k as int),
{
    if k < items.len() {
        Some(&items[k])
    } else {
        None
    }
}

/// Decodes a time entry from a JSON value, as serde does for the struct.
pub fn decode_entry(j: &Json) -> (r: Option<TimeEntry>)
    ensures
        match r {
            Some(e) => spec_entry(*j) == Some(e@),
            None => spec_entry(*j) is None,
        },
{
    match j {
        Json::Object(_) => entry_from(
            get(j, "id"),
            get(j, "description"),
            get(j, "project_id"),
            get(j, "workspace_id"),
            get(j, "start"),
            get(j, "tags"),
            get(j, "billable"),
        ),
        Json::Array(items) => {
            if items.len() > 7 {
                None
            } else {
                entry_from(
                    item_ref(items, 0),
                    item_ref(items, 1),
                    item_ref(items, 2),
                    item_ref(items, 3),
                    item_ref(items, 4),
                    item_ref(items, 5),
                    item_ref(items, 6),
                )
            }
        },
        _ => None,
    }
}


// --- Replies -------------------------------------------------------------------

/// How an HTTP exchange ended: a success reply with its body parsed as JSON
/// (`None` when the body was empty or not JSON), an error status, or no
/// reply at all.
pub enum HttpOutcome {
    Success(Option<Json>),
    Status(u16),
    Transport,
}

/// The error that an HTTP status stands for: 402 and 429 are rate limits.
pub open spec fn status_error(code: u16) -> ApiError {
    if code == 402 || code == 429 {
        ApiError::RateLimit
    } else {
        ApiError::Other
    }
}

/// What an exchange gives: the parsed body of a success, or the error.
pub fn response(outcome: HttpOutcome) -> (r: Result<Option<Json>, ApiError>)
    ensures
        match outcome {
            HttpOutcome::Success(body) => r == Ok::<Option<Json>, ApiError>(body),
            HttpOutcome::Status(code) => r == Err::<Option<Json>, ApiError>(status_error(code)),
            HttpOutcome::Transport => r == Err::<Option<Json>, ApiError>(ApiError::Other),
        },
{
    match outcome {
        HttpOutcome::Success(body) => Ok(body),
        HttpOutcome::Status(code) => {
            if code == 402 || code == 429 {
                Err(ApiError::RateLimit)
            } else {
                Err(ApiError::Other)
            }
        },
        HttpOutcome::Transport => Err(ApiError::Other),
    }
}

/// The running entry a reply to `GET /me/time_entries/current` reports: none
/// for an empty or `null` body or an error other than a rate limit, and none
/// either when the body does not decode as an entry.
pub open spec fn spec_current(reply: Result<Option<Json>, ApiError>) -> Result<
    Option<EntryView>,
    ApiError,
> {
    match reply {
        Ok(None) => Ok(None),
        Ok(Some(Json::Null)) => Ok(None),
        Ok(Some(v)) => Ok(spec_entry(v)),
        Err(ApiError::RateLimit) => Err(ApiError::RateLimit),
        Err(ApiError::Other) => Ok(None),
    }
}

/// An optional entry by its view.
pub open spec fn opt_entry_view(o: Option<TimeEntry>) -> Option<EntryView> {
    match o {
        Some(e) => Some(e@),
        None => None,
    }
}

/// The running entry, from the reply to its request.
pub fn get_current(reply: &Result<Option<Json>, ApiError>) -> (r: Result<Option<TimeEntry>, ApiError>)
    ensures
        match r {
            Ok(o) => spec_current(*reply) == Ok::<Option<EntryView>, ApiError>(opt_entry_view(o)),
            Err(e) => spec_current(*reply) == Err::<Option<EntryView>, ApiError>(e),
        },
{
    match reply {
        Ok(None) => Ok(None),
        Ok(Some(Json::Null)) => Ok(None),
        Ok(Some(v)) => Ok(decode_entry(v)),
        Err(ApiError::RateLimit) => Err(ApiError::RateLimit),
        Err(ApiError::Other) => Ok(None),
    }
}

/// The items that decode as entries, in order.
pub open spec fn decoded_entries(items: Seq<Json>) -> Seq<EntryView>
    decreases items.len(),
{
    if items.len() == 0 {
        Seq::empty()
    } else {
        let r = decoded_entries(items.drop_last());
        match spec_entry(items.last()) {
            Some(e) => r.push(e),
            None => r,
        }
    }
}

/// Entries by their views.
pub open spec fn entries_view(v: Seq<TimeEntry>) -> Seq<EntryView> {
    v.map_values(|e: TimeEntry| e@)
}

/// The recent entries a reply to `GET /me/time_entries` reports: the items
/// of an array body that decode as entries; nothing for any other reply.
pub open spec fn spec_recent(reply: Result<Option<Json>, ApiError>) -> Seq<EntryView> {
    match reply {
        Ok(Some(Json::Array(items))) => decoded_entries(items@),
        _ => Seq::empty(),
    }
}

/// The recent entries, from the reply to their request.
pub fn get_recent(reply: &Result<Option<Json>, ApiError>) -> (r: Vec<TimeEntry>)
    ensures
        entries_view(r@) == spec_recent(*reply),
{
    let mut out: Vec<TimeEntry> = Vec::new();
    match reply {
        Ok(Some(Json::Array(items))) => {
            let mut i: usize = 0;
            while i < items.len()
                invariant
                    i <= items.len(),
                    entries_view(out@) == decoded_entries(items@.take(i as int)),
                decreases items.len() - i,
            {
                assert(items@.take(i + 1).drop_last() == items@.take(i as int));
                let ghost before = out@;
                match decode_entry(&items[i]) {
                    Some(e) => {
                        out.push(e);
                        assert(entries_view(out@) == entries_view(before).push(out@.last()@));
                    },
                    None => {},
                }
                i = i + 1;
            }
            assert(items@.take(items.len() as int) == items@);
        },
        _ => {},
    }
    out
}

/// Project names by their characters.
pub open spec fn names_view(m: Map<i64, String>) -> Map<i64, Seq<char>> {
    m.map_values(|s: String| s@)
}

/// The id and name a project item contributes when it belongs to workspace
/// `wid`: both `id` and `workspace_id` must be integers, and a name that is
/// not a string counts as empty.
pub open spec fn project_item(p: Json, wid: i64) -> Option<(i64, Seq<char>)> {
    match (spec_as_i64(spec_get(p, "id"@)), spec_as_i64(spec_get(p, "workspace_id"@))) {
        (Some(pid), Some(pwid)) => if pwid == wid {
            Some(
                (
                    pid,
                    match spec_as_str(spec_get(p, "name"@)) {
                        Some(n) => n,
                        None => Seq::empty(),
                    },
                ),
            )
        } else {
            None
        },
        _ => None,
    }
}

/// The project names of workspace `wid` among the items, a later item with
/// the same id replacing an earlier one.
pub open spec fn projects_of(items: Seq<Json>, wid: i64) -> Map<i64, Seq<char>>
    decreases items.len(),
{
    if items.len() == 0 {
        Map::empty()
    } else {
        let m = projects_of(items.drop_last(), wid);
        match project_item(items.last(), wid) {
            Some((pid, name)) => m.insert(pid, name),
            None => m,
        }
    }
}

/// The projects a reply to `GET /me/projects` reports for workspace `wid`:
/// none for a non-array body or an error other than a rate limit.
pub open spec fn spec_projects(reply: Result<Option<Json>, ApiError>, wid: i64) -> Result<
    Map<i64, Seq<char>>,
    ApiError,
> {
    match reply {
        Ok(Some(Json::Array(items))) => Ok(projects_of(items@, wid)),
        Ok(_) => Ok(Map::empty()),
        Err(ApiError::RateLimit) => Err(ApiError::RateLimit),
        Err(ApiError::Other) => Ok(Map::empty()),
    }
}

/// The names of the projects in workspace `wid`, from the reply to their request.
pub fn get_projects(reply: &Result<Option<Json>, ApiError>, wid: i64) -> (r: Result<
    HashMap<i64, String>,
    ApiError,
>)
    ensures
        match r {
            Ok(m) => spec_projects(*reply, wid) == Ok::<Map<i64, Seq<char>>, ApiError>(names_view(m@)),
            Err(e) => spec_projects(*reply, wid) == Err::<Map<i64, Seq<char>>, ApiError>(e),
        },
{
    broadcast use vstd::std_specs::hash::group_hash_axioms;

    match reply {
        Ok(Some(Json::Array(items))) => {
            let mut map: HashMap<i64, String> = HashMap::new();
            assert(names_view(map@) == Map::<i64, Seq<char>>::empty());
            let mut i: usize = 0;
            while i < items.len()
                invariant
                    i <= items.len(),
                    names_view(map@) == projects_of(items@.take(i as int), wid),
                decreases items.len() - i,
            {
                assert(items@.take(i + 1).drop_last() == items@.take(i as int));
                assert(items@.take(i + 1).last() == items@[i as int]);
                let it = &items[i];
                let pid = get_i64(it, "id");
                let pwid = get_i64(it, "workspace_id");
                match (pid, pwid) {
                    (Some(pid), Some(pwid)) => {
                        if pwid == wid {
                            let name = match get(it, "name") {
                                Some(Json::Str(n)) => n.clone(),
                                _ => String::new(),
                            };
                            let ghost before = map@;
                            let ghost nv = name@;
                            map.insert(pid, name);
                            assert(names_view(map@) == names_view(before).insert(pid, nv));
                        }
                    },
                    _ => {},
                }
                i = i + 1;
            }
            assert(items@.take(items.len() as int) == items@);
            Ok(map)
        },
        Ok(_) => {
            let map: HashMap<i64, String> = HashMap::new();
            assert(names_view(map@) == Map::<i64, Seq<char>>::empty());
            Ok(map)
        },
        Err(ApiError::RateLimit) => Err(ApiError::RateLimit),
        Err(ApiError::Other) => {
            let map: HashMap<i64, String> = HashMap::new();
            assert(names_view(map@) == Map::<i64, Seq<char>>::empty());
            Ok(map)
        },
    }
}

/// The id and name a workspace item contributes: it needs an integer `id`;
/// without a string name it is called `Workspace <id>`.
pub open spec fn workspace_item(w: Json) -> Option<(i64, Seq<char>)> {
    match spec_as_i64(spec_get(w, "id"@)) {
        Some(id) => Some(
            (
                id,
                match spec_as_str(spec_get(w, "name"@)) {
                    Some(n) => n,
                    None => "Workspace "@ + dec_int(id as int),
                },
            ),
        ),
        None => None,
    }
}

/// The workspaces among the items, in order.
pub open spec fn workspaces_of(items: Seq<Json>) -> Seq<(i64, Seq<char>)>
    decreases items.len(),
{
    if items.len() == 0 {
        Seq::empty()
    } else {
        let r = workspaces_of(items.drop_last());
        match workspace_item(items.last()) {
            Some(w) => r.push(w),
            None => r,
        }
    }
}

/// Workspaces by their views.
pub open spec fn pairs_view(v: Seq<(i64, String)>) -> Seq<(i64, Seq<char>)> {
    v.map_values(|p: (i64, String)| (p.0, p.1@))
}

/// The workspaces a reply to `GET /workspaces` reports: `None` unless the
/// body is an array.
pub open spec fn spec_workspaces(reply: Result<Option<Json>, ApiError>) -> Option<
    Seq<(i64, Seq<char>)>,
> {
    match reply {
        Ok(Some(Json::Array(items))) => Some(workspaces_of(items@)),
        _ => None,
    }
}

/// The user's workspaces as `(id, name)` pairs, from the reply to their request.
pub fn fetch_workspaces(reply: &Result<Option<Json>, ApiError>) -> (r: Option<Vec<(i64, String)>>)
    ensures
        match r {
            Some(v) => spec_workspaces(*reply) == Some(pairs_view(v@)),
            None => spec_workspaces(*reply) is None,
        },
{
    match reply {
        Ok(Some(Json::Array(items))) => {
            let mut out: Vec<(i64, String)> = Vec::new();
            let mut i: usize = 0;
            while i < items.len()
                invariant
                    i <= items.len(),
                    pairs_view(out@) == workspaces_of(items@.take(i as int)),
                decreases items.len() - i,
            {
                assert(items@.take(i + 1).drop_last() == items@.take(i as int));
                assert(items@.take(i + 1).last() == items@[i as int]);
                let w = &items[i];
                match get_i64(w, "id") {
                    Some(id) => {
                        let name = match get(w, "name") {
                            Some(Json::Str(n)) => n.clone(),
                            _ => {
                                let mut v = chars_of("Workspace ");
                                let d = fmt_i64(id);
                                crate::text::push_all(&mut v, &d);
                                string_of(&v)
                            },
                        };
                        let ghost before = out@;
                        let ghost nv = name@;
                        out.push((id, name));
                        assert(pairs_view(out@) == pairs_view(before).push((id, nv)));
                    },
                    None => {},
                }
                i = i + 1;
            }
            assert(items@.take(items.len() as int) == items@);
            Some(out)
        },
        _ => None,
    }
}


// --- Requests ------------------------------------------------------------------

/// Where the web interface of Toggl Track is.
pub const TOGGL_URL: &'static str = "https://track.toggl.com";

/// An API request for the HTTP client to send.
pub struct ApiRequest {
    pub method: String,
    pub url: String,
    /// The value of the `Authorization` header.
    pub authorization: String,
    /// A JSON body, sent with `Content-Type: application/json`.
    pub body: Option<String>,
}

/// The character of the standard Base64 alphabet for `v` (below 64).
pub open spec fn b64_char(v: int) -> char {
    if v < 26 {
        (v + 65) as char
    } else if v < 52 {
        (v - 26 + 97) as char
    } else if v < 62 {
        (v - 52 + 48) as char
    } else if v == 62 {
        '+'
    } else {
        '/'
    }
}

/// The standard Base64 encoding of `data` (RFC 4648, section 4): each group
/// of three bytes as four characters of six bits each, a last group of one
/// or two bytes padded with `=`.
pub open spec fn spec_base64(data: Seq<u8>) -> Seq<char>
    decreases data.len(),
{
    if data.len() == 0 {
        Seq::empty()
    } else if data.len() == 1 {
        let a = data[0] as int;
        seq![b64_char(a / 4), b64_char(a % 4 * 16), '=', '=']
    } else if data.len() == 2 {
        let a = data[0] as int;
        let b = data[1] as int;
        seq![b64_char(a / 4), b64_char(a % 4 * 16 + b / 16), b64_char(b % 16 * 4), '=']
    } else {
        let a = data[0] as int;
        let b = data[1] as int;
        let c = data[2] as int;
        seq![b64_char(a / 4), b64_char(a % 4 * 16 + b / 16), b64_char(b % 16 * 4 + c / 64), b64_char(c % 64)]
            + spec_base64(data.skip(3))
    }
}

/// Calls `Engine::encode` of `base64`'s `STANDARD` engine, which writes the
/// standard alphabet with `=` padding. The length bound keeps the encoder's
/// size computation from overflowing, where it panics.
#[verifier::external_body]
fn base64_encode(data: &[u8]) -> (r: String)
    requires
        data@.len() / 3 * 4 + 4 <= usize::MAX,
    ensures
        r@ == spec_base64(data@),
{
    base64::Engine::encode(&base64::engine::general_purpose::STANDARD, data)
}

/// Tokens at most this many bytes long can be sent.
pub open spec fn token_limit() -> int {
    0x3fff_ffff
}

/// The `Authorization` value for API token `token`: HTTP basic credentials
/// `<token>:api_token`.
pub open spec fn spec_auth(token: Seq<char>) -> Seq<char> {
    "Basic "@ + spec_base64(encode_utf8(token) + encode_utf8(":api_token"@))
}

/// The `Authorization` header value for API token `token`.
pub fn auth_header(token: &str) -> (r: String)
    requires
        encode_utf8(token@).len() <= token_limit(),
    ensures
        r@ == spec_auth(token@),
{
    let mut cred = slice_to_vec(token.as_bytes());
    let mut suffix = slice_to_vec(":api_token".as_bytes());
    assert(suffix@.len() == encode_utf8(":api_token"@).len());
    proof {
        reveal_strlit(":api_token");
        assert(":api_token"@.len() == 10);
        assert(encode_utf8(":api_token"@).len() == 10) by {
            reveal_with_fuel(encode_utf8, 11);
        }
    }
    cred.append(&mut suffix);
    let encoded = base64_encode(cred.as_slice());
    let mut out = chars_of("Basic ");
    let e = chars_of(encoded.as_str());
    push_all(&mut out, &e);
    string_of(&out)
}

/// The full URL of API path `path`.
pub open spec fn api_url(path: Seq<char>) -> Seq<char> {
    "https://api.track.toggl.com/api/v9"@ + path
}

fn request(method: &str, path: &Vec<char>, token: &str, body: Option<String>) -> (r: ApiRequest)
    requires
        encode_utf8(token@).len() <= token_limit(),
    ensures
        r.method@ == method@,
        r.url@ == api_url(path@),
        r.authorization@ == spec_auth(token@),
        opt_chars(r.body) == opt_chars(body),
{
    let mut url = chars_of("https://api.track.toggl.com/api/v9");
    push_all(&mut url, path);
    let m = chars_of(method);
    ApiRequest {
        method: string_of(&m),
        url: string_of(&url),
        authorization: auth_header(token),
        body,
    }
}

/// `GET /me/time_entries/current`: the running entry.
pub fn current_request(token: &str) -> (r: ApiRequest)
    requires
        encode_utf8(token@).len() <= token_limit(),
    ensures
        r.method@ == "GET"@,
        r.url@ == api_url("/me/time_entries/current"@),
        r.authorization@ == spec_auth(token@),
        r.body is None,
{
    request("GET", &chars_of("/me/time_entries/current"), token, None)
}

/// `GET /me/time_entries`: the recent entries.
pub fn recent_request(token: &str) -> (r: ApiRequest)
    requires
        encode_utf8(token@).len() <= token_limit(),
    ensures
        r.method@ == "GET"@,
        r.url@ == api_url("/me/time_entries"@),
        r.authorization@ == spec_auth(token@),
        r.body is None,
{
    request("GET", &chars_of("/me/time_entries"), token, None)
}

/// `GET /me/projects`: the user's projects.
pub fn projects_request(token: &str) -> (r: ApiRequest)
    requires
        encode_utf8(token@).len() <= token_limit(),
    ensures
        r.method@ == "GET"@,
        r.url@ == api_url("/me/projects"@),
        r.authorization@ == spec_auth(token@),
        r.body is None,
{
    request("GET", &chars_of("/me/projects"), token, None)
}

/// `GET /workspaces`: the user's workspaces.
pub fn workspaces_request(token: &str) -> (r: ApiRequest)
    requires
        encode_utf8(token@).len() <= token_limit(),
    ensures
        r.method@ == "GET"@,
        r.url@ == api_url("/workspaces"@),
        r.authorization@ == spec_auth(token@),
        r.body is None,
{
    request("GET", &chars_of("/workspaces"), token, None)
}

/// The path that stops entry `entry_id` of workspace `wid`.
pub open spec fn stop_path(wid: i64, entry_id: i64) -> Seq<char> {
    "/workspaces/"@ + dec_int(wid as int) + "/time_entries/"@ + dec_int(entry_id as int) + "/stop"@
}

/// The request that stops entry `entry_id` of workspace `wid`.
pub fn stop_timer(token: &str, wid: i64, entry_id: i64) -> (r: ApiRequest)
    requires
        encode_utf8(token@).len() <= token_limit(),
    ensures
        r.method@ == "PATCH"@,
        r.url@ == api_url(stop_path(wid, entry_id)),
        r.authorization@ == spec_auth(token@),
        r.body is None,
{
    let mut path = chars_of("/workspaces/");
    push_all(&mut path, &fmt_i64(wid));
    push_str(&mut path, "/time_entries/");
    push_all(&mut path, &fmt_i64(entry_id));
    push_str(&mut path, "/stop");
    request("PATCH", &path, token, None)
}

/// The path that creates an entry in workspace `wid`.
pub open spec fn start_path(wid: i64) -> Seq<char> {
    "/workspaces/"@ + dec_int(wid as int) + "/time_entries"@
}

/// JSON strings, comma-separated.
pub open spec fn json_str_items(items: Seq<Seq<char>>) -> Seq<char>
    decreases items.len(),
{
    if items.len() == 0 {
        Seq::empty()
    } else if items.len() == 1 {
        json_str(items[0])
    } else {
        json_str_items(items.drop_last()) + ","@ + json_str(items.last())
    }
}

/// The JSON body that creates a running entry (duration -1) starting at
/// `start`, members in key order.
pub open spec fn start_body(
    wid: i64,
    description: Seq<char>,
    project_id: Option<i64>,
    tags: Option<Seq<Seq<char>>>,
    billable: bool,
    start: Seq<char>,
) -> Seq<char> {
    "{\"billable\":"@ + (if billable {
        "true"@
    } else {
        "false"@
    }) + ",\"created_with\":\"pop-launcher-toggl\",\"description\":"@ + json_str(description)
        + ",\"duration\":-1"@ + match project_id {
        Some(p) => ",\"project_id\":"@ + dec_int(p as int),
        None => Seq::empty(),
    } + ",\"start\":"@ + json_str(start) + match tags {
        Some(ts) => ",\"tags\":["@ + json_str_items(ts) + "]"@,
        None => Seq::empty(),
    } + ",\"workspace_id\":"@ + dec_int(wid as int) + "}"@
}

/// The request that starts a timer in workspace `wid` at `start`.
pub fn start_timer_at(
    token: &str,
    wid: i64,
    description: &str,
    project_id: Option<i64>,
    tags: Option<&Vec<String>>,
    billable: bool,
    start: &str,
) -> (r: ApiRequest)
    requires
        encode_utf8(token@).len() <= token_limit(),
    ensures
        r.method@ == "POST"@,
        r.url@ == api_url(start_path(wid)),
        r.authorization@ == spec_auth(token@),
        r.body matches Some(b) && b@ == start_body(
            wid,
            description@,
            project_id,
            match tags {
                Some(v) => Some(strings_view(v@)),
                None => None,
            },
            billable,
            start@,
        ),
{
    let mut body: Vec<char> = Vec::new();
    push_str(&mut body, "{\"billable\":");
    if billable {
        push_str(&mut body, "true");
    } else {
        push_str(&mut body, "false");
    }
    push_str(&mut body, ",\"created_with\":\"pop-launcher-toggl\",\"description\":");
    push_json_str(&mut body, description);
    push_str(&mut body, ",\"duration\":-1");
    match project_id {
        Some(p) => {
            push_str(&mut body, ",\"project_id\":");
            push_all(&mut body, &fmt_i64(p));
        },
        None => {},
    }
    push_str(&mut body, ",\"start\":");
    push_json_str(&mut body, start);
    match tags {
        Some(v) => {
            push_str(&mut body, ",\"tags\":[");
            let ghost head = body@;
            let ghost names = strings_view(v@);
            let mut i: usize = 0;
            while i < v.len()
                invariant
                    i <= v.len(),
                    names == strings_view(v@),
                    body@ == head + json_str_items(names.take(i as int)),
                decreases v.len() - i,
            {
                assert(names.take(i + 1).drop_last() == names.take(i as int));
                assert(names.take(i + 1).last() == v@[i as int]@);
                if i > 0 {
                    push_str(&mut body, ",");
                }
                push_json_str(&mut body, v[i].as_str());
                i = i + 1;
            }
            assert(names.take(v.len() as int) == names);
            push_str(&mut body, "]");
        },
        None => {},
    }
    push_str(&mut body, ",\"workspace_id\":");
    push_all(&mut body, &fmt_i64(wid));
    push_str(&mut body, "}");
    let mut path = chars_of("/workspaces/");
    push_all(&mut path, &fmt_i64(wid));
    push_str(&mut path, "/time_entries");
    request("POST", &path, token, Some(string_of(&body)))
}

/// The request that starts a timer in workspace `wid` now.
pub fn start_timer(
    token: &str,
    wid: i64,
    description: &str,
    project_id: Option<i64>,
    tags: Option<&Vec<String>>,
    billable: bool,
) -> (r: ApiRequest)
    requires
        encode_utf8(token@).len() <= token_limit(),
    ensures
        r.method@ == "POST"@,
        r.url@ == api_url(start_path(wid)),
        r.authorization@ == spec_auth(token@),
        exists|f: UtcFields|
            fields_in_range(f) && (r.body matches Some(b) && b@ == start_body(
                wid,
                description@,
                project_id,
                match tags {
                    Some(v) => Some(strings_view(v@)),
                    None => None,
                },
                billable,
                spec_timestamp(f),
            )),
{
    let now = now_rfc3339();
    start_timer_at(token, wid, description, project_id, tags, billable, now.as_str())
}

} // verus!
