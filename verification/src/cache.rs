//! The shared cache of timer data, with stale-while-revalidate semantics.
//!
//! The cache value lives behind a lock in the program; these functions are
//! what is done with it: reading its age, invalidating it, taking a snapshot,
//! choosing a refresh strategy and folding the results of a refresh into it.
//! Times are milliseconds on a monotonic clock.

use vstd::prelude::*;
use std::collections::HashMap;
use crate::api::{TimeEntry, EntryView, ApiError, entries_view, opt_entry_view, names_view};

verus! {

/// How long cached data counts as fresh, in milliseconds.
pub const CACHE_TTL_MS: u64 = 120_000;

/// Most recent entries kept after deduplication.
pub const MAX_RECENT: usize = 20;

pub struct Cache {
    pub current: Option<TimeEntry>,
    pub entries: Vec<TimeEntry>,
    pub projects: HashMap<i64, String>,
    /// Time of the last write; `None` means cold or invalidated.
    pub ts: Option<u64>,
    /// Whether the last refresh hit the API's rate limit.
    pub rate_limited: bool,
}

/// What a cache holds, by its views.
pub struct CacheModel {
    pub current: Option<EntryView>,
    pub entries: Seq<EntryView>,
    pub projects: Map<i64, Seq<char>>,
    pub ts: Option<u64>,
    pub rate_limited: bool,
}

/// The cache by its views.
pub open spec fn cache_model(c: Cache) -> CacheModel {
    CacheModel {
        current: opt_entry_view(c.current),
        entries: entries_view(c.entries@),
        projects: names_view(c.projects@),
        ts: c.ts,
        rate_limited: c.rate_limited,
    }
}

/// The cold cache that the program starts with.
pub open spec fn empty_model() -> CacheModel {
    CacheModel {
        current: None,
        entries: Seq::empty(),
        projects: Map::empty(),
        ts: None,
        rate_limited: false,
    }
}

/// Something done to the cache: a refresh that stored at `now` what the
/// API gave (the running entry, the recent entries, the projects), or an
/// invalidation.
pub enum CacheEvent {
    Refresh(Result<Option<EntryView>, ApiError>, Seq<EntryView>, Result<Map<i64, Seq<char>>, ApiError>, u64),
    Invalidate,
}

/// The cache after event `e`.
pub open spec fn after_event(m: CacheModel, e: CacheEvent) -> CacheModel {
    match e {
        CacheEvent::Invalidate => CacheModel { ts: None, ..m },
        CacheEvent::Refresh(current, recent, projects, now) => {
            let (rl, d) = refreshed((m.current, m.entries, m.projects), current, recent, projects);
            CacheModel { current: d.0, entries: d.1, projects: d.2, ts: Some(now), rate_limited: rl }
        },
    }
}

/// The cache after the events, in order, from a cold start.
pub open spec fn after_events(events: Seq<CacheEvent>) -> CacheModel
    decreases events.len(),
{
    if events.len() == 0 {
        empty_model()
    } else {
        after_event(after_events(events.drop_last()), events.last())
    }
}

/// An empty, cold cache.
pub fn new_cache() -> (c: Cache)
    ensures
        c.current is None,
        c.entries@.len() == 0,
        c.projects@ == Map::<i64, String>::empty(),
        c.ts is None,
        !c.rate_limited,
        cache_model(c) == empty_model(),
{
    broadcast use vstd::std_specs::hash::group_hash_axioms;

    let c = Cache {
        current: None,
        entries: Vec::new(),
        projects: HashMap::new(),
        ts: None,
        rate_limited: false,
    };
    assert(names_view(c.projects@) == Map::<i64, Seq<char>>::empty());
    assert(entries_view(c.entries@) == Seq::<EntryView>::empty());
    c
}

/// Whether the last refresh was rate limited.
pub fn is_rate_limited(c: &Cache) -> (r: bool)
    ensures
        r == c.rate_limited,
{
    c.rate_limited
}

/// The age of the cached data at time `now`: `None` when cold or
/// invalidated, and zero when `now` is before the write.
pub open spec fn spec_age(ts: Option<u64>, now: u64) -> Option<u64> {
    match ts {
        Some(t) => Some(if now >= t {
            (now - t) as u64
        } else {
            0
        }),
        None => None,
    }
}

/// Age of the cached data, or `None` if the cache is cold/invalidated.
pub fn age(c: &Cache, now: u64) -> (r: Option<u64>)
    ensures
        r == spec_age(c.ts, now),
{
    match c.ts {
        Some(t) => Some(if now >= t {
            now - t
        } else {
            0
        }),
        None => None,
    }
}

/// Force the next refresh to hit the API.
pub fn invalidate(c: &mut Cache)
    ensures
        final(c).ts is None,
        final(c).current == old(c).current,
        final(c).entries == old(c).entries,
        final(c).projects == old(c).projects,
        final(c).rate_limited == old(c).rate_limited,
        cache_model(*final(c)) == after_event(cache_model(*old(c)), CacheEvent::Invalidate),
{
    c.ts = None;
}

/// A copy of the cached data as `(current, entries, projects)`.
pub fn snapshot(c: &Cache) -> (r: (Option<TimeEntry>, Vec<TimeEntry>, HashMap<i64, String>))
    ensures
        opt_entry_view(r.0) == opt_entry_view(c.current),
        entries_view(r.1@) == entries_view(c.entries@),
        r.2@ == c.projects@,
{
    let current = match &c.current {
        Some(e) => Some(e.copy()),
        None => None,
    };
    (current, copy_entries(&c.entries), c.projects.clone())
}

/// A copy of a list of entries.
pub fn copy_entries(v: &Vec<TimeEntry>) -> (r: Vec<TimeEntry>)
    ensures
        entries_view(r@) == entries_view(v@),
{
    let mut r: Vec<TimeEntry> = Vec::new();
    let mut i: usize = 0;
    while i < v.len()
        invariant
            i <= v.len(),
            entries_view(r@) == entries_view(v@.take(i as int)),
        decreases v.len() - i,
    {
        let e = v[i].copy();
        let ghost before = r@;
        r.push(e);
        assert(entries_view(r@) == entries_view(before).push(v@[i as int]@));
        assert(entries_view(v@.take(i + 1)) == entries_view(v@.take(i as int)).push(v@[i as int]@));
        i = i + 1;
    }
    assert(v@.take(v.len() as int) == v@);
    r
}

/// What a search should do about the cache before rendering.
#[derive(PartialEq, Eq, Structural)]
pub enum RefreshPlan {
    /// The data is fresh: use it.
    Fresh,
    /// Cold start: start a background refresh and wait briefly for it.
    StartAndWait,
    /// Stale or forced: serve what is there and refresh in the background.
    StartInBackground,
}

/// Fresh→use the cache, cold→wait briefly, stale or forced→serve and refresh.
pub open spec fn spec_plan(age: Option<u64>, force: bool) -> RefreshPlan {
    match age {
        Some(a) => if !force && a < CACHE_TTL_MS {
            RefreshPlan::Fresh
        } else {
            RefreshPlan::StartInBackground
        },
        None => RefreshPlan::StartAndWait,
    }
}

/// The refresh strategy at time `now`.
pub fn refresh(c: &Cache, now: u64, force: bool) -> (r: RefreshPlan)
    ensures
        r == spec_plan(spec_age(c.ts, now), force),
{
    match age(c, now) {
        Some(a) => {
            if !force && a < CACHE_TTL_MS {
                RefreshPlan::Fresh
            } else {
                RefreshPlan::StartInBackground
            }
        },
        None => RefreshPlan::StartAndWait,
    }
}

// --- Folding a refresh into the cache -------------------------------------------

/// What two entries are deduplicated by: description (missing counts as
/// empty) and project.
pub open spec fn dedup_key(e: EntryView) -> (Seq<char>, Option<i64>) {
    (
        match e.description {
            Some(d) => d,
            None => Seq::empty(),
        },
        e.project_id,
    )
}

/// Whether some entry of `d` has key `k`.
pub open spec fn has_key(d: Seq<EntryView>, k: (Seq<char>, Option<i64>)) -> bool {
    exists|i: int| 0 <= i < d.len() && dedup_key(#[trigger] d[i]) == k
}

/// The entries other than the running one (`current_id`), each key kept at
/// its first, most recent, occurrence.
pub open spec fn dedup(recent: Seq<EntryView>, current_id: Option<i64>) -> Seq<EntryView>
    decreases recent.len(),
{
    if recent.len() == 0 {
        Seq::empty()
    } else {
        let d = dedup(recent.drop_last(), current_id);
        let e = recent.last();
        if current_id == Some(e.id) || has_key(d, dedup_key(e)) {
            d
        } else {
            d.push(e)
        }
    }
}

/// The first `MAX_RECENT` entries of the deduplicated list.
pub open spec fn recent_list(recent: Seq<EntryView>, current_id: Option<i64>) -> Seq<EntryView> {
    let d = dedup(recent, current_id);
    if d.len() <= MAX_RECENT {
        d
    } else {
        d.take(MAX_RECENT as int)
    }
}

/// The id of an optional entry.
pub open spec fn opt_id(e: Option<EntryView>) -> Option<i64> {
    match e {
        Some(e) => Some(e.id),
        None => None,
    }
}

/// A shorter prefix of the recent list deduplicates to a prefix of the
/// longer one's list.
proof fn lemma_dedup_prefix(s: Seq<EntryView>, cur: Option<i64>, j: int, k: int)
    requires
        0 <= j <= k <= s.len(),
    ensures
        dedup(s.take(j), cur).len() <= dedup(s.take(k), cur).len(),
        dedup(s.take(k), cur).take(dedup(s.take(j), cur).len() as int) == dedup(s.take(j), cur),
    decreases k - j,
{
    if j < k {
        lemma_dedup_prefix(s, cur, j, k - 1);
        assert(s.take(k).drop_last() == s.take(k - 1));
        let a = dedup(s.take(j), cur);
        let b = dedup(s.take(k - 1), cur);
        let c = dedup(s.take(k), cur);
        assert(c.take(a.len() as int) == b.take(a.len() as int));
    } else {
        assert(dedup(s.take(k), cur).take(dedup(s.take(j), cur).len() as int) == dedup(s.take(j), cur));
    }
}

fn same_key(a: &TimeEntry, b: &TimeEntry) -> (r: bool)
    ensures
        r == (dedup_key(a@) == dedup_key(b@)),
{
    if a.project_id != b.project_id {
        return false;
    }
    let x = match &a.description {
        Some(d) => crate::text::chars_of(d.as_str()),
        None => Vec::new(),
    };
    let y = match &b.description {
        Some(d) => crate::text::chars_of(d.as_str()),
        None => Vec::new(),
    };
    crate::text::chars_eq(&x, &y)
}

/// The recent entries to keep: deduplicated by description and project,
/// without the running entry, most recent first, at most `MAX_RECENT`.
pub fn dedup_recent(recent: Vec<TimeEntry>, current_id: Option<i64>) -> (r: Vec<TimeEntry>)
    ensures
        entries_view(r@) == recent_list(entries_view(recent@), current_id),
{
    let ghost s = entries_view(recent@);
    let mut out: Vec<TimeEntry> = Vec::new();
    let mut i: usize = 0;
    while i < recent.len()
        invariant
            i <= recent.len(),
            s == entries_view(recent@),
            entries_view(out@) == dedup(s.take(i as int), current_id),
            out@.len() < MAX_RECENT,
        decreases recent.len() - i,
    {
        assert(s.take(i + 1).drop_last() == s.take(i as int));
        assert(s.take(i + 1).last() == recent@[i as int]@);
        let e = &recent[i];
        let skip = match current_id {
            Some(c) => e.id == c,
            None => false,
        };
        if skip {
            i = i + 1;
            continue;
        }
        let ghost d = entries_view(out@);
        let mut seen = false;
        let mut j: usize = 0;
        assert(!has_key(d.take(0), dedup_key(e@)));
        while j < out.len()
            invariant
                j <= out.len(),
                d == entries_view(out@),
                seen == has_key(d.take(j as int), dedup_key(e@)),
            decreases out.len() - j,
        {
            assert(d[j as int] == out@[j as int]@);
            let ghost dj = d.take(j as int);
            let ghost dj1 = d.take(j + 1);
            if same_key(&out[j], e) {
                seen = true;
                assert(dj1[j as int] == d[j as int]);
                assert(has_key(dj1, dedup_key(e@)));
            } else {
                proof {
                    if has_key(dj1, dedup_key(e@)) {
                        let k = choose|k: int| 0 <= k < dj1.len() && dedup_key(#[trigger] dj1[k]) == dedup_key(e@);
                        if k < j {
                            assert(dj[k] == dj1[k]);
                        }
                    }
                    if has_key(dj, dedup_key(e@)) {
                        let k = choose|k: int| 0 <= k < dj.len() && dedup_key(#[trigger] dj[k]) == dedup_key(e@);
                        assert(dj[k] == dj1[k]);
                    }
                }
            }
            j = j + 1;
        }
        assert(d.take(out.len() as int) == d);
        assert(seen == has_key(d, dedup_key(e@)));
        if !seen {
            let c = e.copy();
            out.push(c);
            assert(entries_view(out@) == d.push(e@));
        }
        i = i + 1;
        if out.len() >= MAX_RECENT {
            proof {
                lemma_dedup_prefix(s, current_id, i as int, s.len() as int);
                assert(s.take(s.len() as int) == s);
            }
            return out;
        }
    }
    assert(s.take(s.len() as int) == s);
    out
}

/// What a refresh's results make of the cache at time `now`. A rate limit on
/// the running entry or the projects marks the cache rate limited and stamps
/// it, keeping the old data; otherwise the data is replaced.
pub open spec fn refreshed(
    old: (Option<EntryView>, Seq<EntryView>, Map<i64, Seq<char>>),
    current: Result<Option<EntryView>, ApiError>,
    recent: Seq<EntryView>,
    projects: Result<Map<i64, Seq<char>>, ApiError>,
) -> (bool, (Option<EntryView>, Seq<EntryView>, Map<i64, Seq<char>>)) {
    if current == Err::<Option<EntryView>, ApiError>(ApiError::RateLimit) || projects == Err::<
        Map<i64, Seq<char>>,
        ApiError,
    >(ApiError::RateLimit) {
        (true, old)
    } else {
        let cur = match current {
            Ok(c) => c,
            Err(_) => None,
        };
        let prj = match projects {
            Ok(p) => p,
            Err(_) => Map::empty(),
        };
        (false, (cur, recent_list(recent, opt_id(cur)), prj))
    }
}

/// The cached data by its views.
pub open spec fn cache_data(c: Cache) -> (Option<EntryView>, Seq<EntryView>, Map<i64, Seq<char>>) {
    (opt_entry_view(c.current), entries_view(c.entries@), names_view(c.projects@))
}

/// A result with its entry taken by its view.
pub open spec fn current_result_view(r: Result<Option<TimeEntry>, ApiError>) -> Result<
    Option<EntryView>,
    ApiError,
> {
    match r {
        Ok(o) => Ok(opt_entry_view(o)),
        Err(e) => Err(e),
    }
}

/// A result with its project names taken by their characters.
pub open spec fn projects_result_view(r: Result<HashMap<i64, String>, ApiError>) -> Result<
    Map<i64, Seq<char>>,
    ApiError,
> {
    match r {
        Ok(m) => Ok(names_view(m@)),
        Err(e) => Err(e),
    }
}

/// Folds the results of fetching the running entry, the recent entries and
/// the projects into the cache at time `now`.
pub fn apply_refresh(
    c: &mut Cache,
    current: Result<Option<TimeEntry>, ApiError>,
    recent: Vec<TimeEntry>,
    projects: Result<HashMap<i64, String>, ApiError>,
    now: u64,
)
    ensures
        final(c).ts == Some(now),
        (final(c).rate_limited, cache_data(*final(c))) == refreshed(
            cache_data(*old(c)),
            current_result_view(current),
            entries_view(recent@),
            projects_result_view(projects),
        ),
        cache_model(*final(c)) == after_event(
            cache_model(*old(c)),
            CacheEvent::Refresh(
                current_result_view(current),
                entries_view(recent@),
                projects_result_view(projects),
                now,
            ),
        ),
{
    broadcast use vstd::std_specs::hash::group_hash_axioms;

    let cur = match current {
        Err(ApiError::RateLimit) => {
            c.rate_limited = true;
            c.ts = Some(now);
            return;
        },
        Err(ApiError::Other) => None,
        Ok(x) => x,
    };
    let prj = match projects {
        Err(ApiError::RateLimit) => {
            c.rate_limited = true;
            c.ts = Some(now);
            return;
        },
        Err(ApiError::Other) => {
            let m: HashMap<i64, String> = HashMap::new();
            assert(names_view(m@) == Map::<i64, Seq<char>>::empty());
            m
        },
        Ok(p) => p,
    };
    c.rate_limited = false;
    let current_id = match &cur {
        Some(e) => Some(e.id),
        None => None,
    };
    let entries = dedup_recent(recent, current_id);
    c.current = cur;
    c.entries = entries;
    c.projects = prj;
    c.ts = Some(now);
}


// --- Laws -------------------------------------------------------------------------

proof fn lemma_dedup_props(recent: Seq<EntryView>, cur: Option<i64>)
    ensures
        forall|i: int, j: int|
            0 <= i < j < dedup(recent, cur).len() ==> dedup_key(#[trigger] dedup(recent, cur)[i])
                != dedup_key(#[trigger] dedup(recent, cur)[j]),
        forall|i: int| 0 <= i < dedup(recent, cur).len() ==> cur != Some(#[trigger] dedup(recent, cur)[i].id),
        forall|i: int| 0 <= i < dedup(recent, cur).len() ==> recent.contains(#[trigger] dedup(recent, cur)[i]),
    decreases recent.len(),
{
    if recent.len() > 0 {
        let r0 = recent.drop_last();
        lemma_dedup_props(r0, cur);
        let d = dedup(r0, cur);
        let e = recent.last();
        assert forall|i: int| 0 <= i < dedup(recent, cur).len() implies recent.contains(
            #[trigger] dedup(recent, cur)[i],
        ) by {
            if i < d.len() {
                assert(dedup(recent, cur)[i] == d[i]);
                let k = choose|k: int| 0 <= k < r0.len() && r0[k] == d[i];
                assert(recent[k] == r0[k]);
            } else {
                assert(recent[recent.len() - 1] == e);
            }
        }
        if !(cur == Some(e.id) || has_key(d, dedup_key(e))) {
            assert forall|i: int, j: int| 0 <= i < j < dedup(recent, cur).len() implies dedup_key(
                #[trigger] dedup(recent, cur)[i],
            ) != dedup_key(#[trigger] dedup(recent, cur)[j]) by {
                if j < d.len() {
                    assert(dedup(recent, cur)[i] == d[i] && dedup(recent, cur)[j] == d[j]);
                } else {
                    assert(dedup(recent, cur)[i] == d[i]);
                    assert(dedup(recent, cur)[j] == e);
                }
            }
        }
    }
}

/// The recent list kept by a refresh never holds two entries with the same
/// description and project, never holds the running entry, holds at most
/// `MAX_RECENT` entries, and holds only entries that the API reported.
pub proof fn law_recent_list(recent: Seq<EntryView>, current_id: Option<i64>)
    ensures
        recent_list(recent, current_id).len() <= MAX_RECENT,
        forall|i: int, j: int|
            0 <= i < j < recent_list(recent, current_id).len() ==> dedup_key(
                #[trigger] recent_list(recent, current_id)[i],
            ) != dedup_key(#[trigger] recent_list(recent, current_id)[j]),
        forall|i: int|
            0 <= i < recent_list(recent, current_id).len() ==> current_id != Some(
                #[trigger] recent_list(recent, current_id)[i].id,
            ),
        forall|i: int|
            0 <= i < recent_list(recent, current_id).len() ==> recent.contains(
                #[trigger] recent_list(recent, current_id)[i],
            ),
{
    lemma_dedup_props(recent, current_id);
    let d = dedup(recent, current_id);
    let l = recent_list(recent, current_id);
    assert forall|i: int| 0 <= i < l.len() implies l[i] == d[i] by {}
}

/// Whether entry `j` of `recent` is the first (most recent) one with its key
/// among the entries other than the running one.
pub open spec fn first_of_key(recent: Seq<EntryView>, current_id: Option<i64>, j: int) -> bool {
    &&& current_id != Some(recent[j].id)
    &&& forall|k: int|
        0 <= k < j ==> current_id == Some(#[trigger] recent[k].id) || dedup_key(recent[k])
            != dedup_key(recent[j])
}

/// Every entry other than the running one has its key in the deduplicated
/// list, and the list holds the first entry of each key, in order.
proof fn lemma_dedup_first(recent: Seq<EntryView>, cur: Option<i64>)
    ensures
        forall|k: int|
            0 <= k < recent.len() && cur != Some(recent[k].id) ==> #[trigger] has_key(
                dedup(recent, cur),
                dedup_key(recent[k]),
            ),
        exists|idx: Seq<int>|
            {
                &&& #[trigger] idx.len() == dedup(recent, cur).len()
                &&& forall|i: int|
                    0 <= i < idx.len() ==> 0 <= #[trigger] idx[i] < recent.len() && recent[idx[i]]
                        == dedup(recent, cur)[i] && first_of_key(recent, cur, idx[i])
                &&& forall|i: int, j: int| 0 <= i < j < idx.len() ==> #[trigger] idx[i] < #[trigger] idx[j]
            },
    decreases recent.len(),
{
    if recent.len() == 0 {
        let idx = Seq::<int>::empty();
        assert(idx.len() == dedup(recent, cur).len());
    } else {
        let r0 = recent.drop_last();
        let n = r0.len() as int;
        lemma_dedup_first(r0, cur);
        let d = dedup(r0, cur);
        let e = recent.last();
        let idx0 = choose|idx: Seq<int>|
            {
                &&& #[trigger] idx.len() == d.len()
                &&& forall|i: int|
                    0 <= i < idx.len() ==> 0 <= #[trigger] idx[i] < r0.len() && r0[idx[i]] == d[i]
                        && first_of_key(r0, cur, idx[i])
                &&& forall|i: int, j: int| 0 <= i < j < idx.len() ==> #[trigger] idx[i] < #[trigger] idx[j]
            };
        assert forall|j: int| 0 <= j < n && first_of_key(r0, cur, j) implies first_of_key(recent, cur, j) by {
            assert(recent[j] == r0[j]);
            assert forall|k: int| 0 <= k < j implies cur == Some(#[trigger] recent[k].id) || dedup_key(
                recent[k],
            ) != dedup_key(recent[j]) by {
                assert(recent[k] == r0[k]);
                assert(cur == Some(r0[k].id) || dedup_key(r0[k]) != dedup_key(r0[j]));
            }
        }
        let added = !(cur == Some(e.id) || has_key(d, dedup_key(e)));
        if added {
            let idx = idx0.push(n);
            let dd = dedup(recent, cur);
            assert(dd == d.push(e));
            assert(first_of_key(recent, cur, n)) by {
                assert(recent[n] == e);
                assert forall|k: int| 0 <= k < n implies cur == Some(#[trigger] recent[k].id) || dedup_key(
                    recent[k],
                ) != dedup_key(recent[n]) by {
                    assert(recent[k] == r0[k]);
                    if cur != Some(r0[k].id) {
                        assert(has_key(d, dedup_key(r0[k])));
                    }
                }
            }
            assert forall|i: int| 0 <= i < idx.len() implies 0 <= #[trigger] idx[i] < recent.len()
                && recent[idx[i]] == dd[i] && first_of_key(recent, cur, idx[i]) by {
                if i < idx0.len() {
                    assert(idx[i] == idx0[i]);
                    assert(recent[idx0[i]] == r0[idx0[i]]);
                    assert(first_of_key(r0, cur, idx0[i]));
                }
            }
            assert forall|i: int, j: int| 0 <= i < j < idx.len() implies #[trigger] idx[i] < #[trigger] idx[j] by {
                if j < idx0.len() {
                    assert(idx[i] == idx0[i] && idx[j] == idx0[j]);
                } else {
                    assert(idx[i] == idx0[i]);
                }
            }
            assert(idx.len() == dd.len());
            assert forall|k: int| 0 <= k < recent.len() && cur != Some(recent[k].id) implies #[trigger] has_key(
                dd,
                dedup_key(recent[k]),
            ) by {
                if k < n {
                    assert(recent[k] == r0[k]);
                    assert(has_key(d, dedup_key(r0[k])));
                    let w = choose|w: int| 0 <= w < d.len() && dedup_key(#[trigger] d[w]) == dedup_key(r0[k]);
                    assert(dd[w] == d[w]);
                } else {
                    assert(dd[d.len() as int] == e);
                }
            }
        } else {
            let dd = dedup(recent, cur);
            assert(dd == d);
            assert forall|i: int| 0 <= i < idx0.len() implies 0 <= #[trigger] idx0[i] < recent.len()
                && recent[idx0[i]] == dd[i] && first_of_key(recent, cur, idx0[i]) by {
                assert(recent[idx0[i]] == r0[idx0[i]]);
                assert(first_of_key(r0, cur, idx0[i]));
            }
            assert forall|k: int| 0 <= k < recent.len() && cur != Some(recent[k].id) implies #[trigger] has_key(
                dd,
                dedup_key(recent[k]),
            ) by {
                if k < n {
                    assert(recent[k] == r0[k]);
                    assert(has_key(d, dedup_key(r0[k])));
                } else {
                    assert(recent[k] == e);
                }
            }
        }
    }
}

/// The recent list keeps the most recent entry of each description and
/// project, in the order the API reported them; below the cap it drops no
/// key but the running entry's.
pub proof fn law_recent_keeps_most_recent(recent: Seq<EntryView>, current_id: Option<i64>)
    ensures
        exists|idx: Seq<int>|
            {
                &&& #[trigger] idx.len() == recent_list(recent, current_id).len()
                &&& forall|i: int|
                    0 <= i < idx.len() ==> 0 <= #[trigger] idx[i] < recent.len() && recent[idx[i]]
                        == recent_list(recent, current_id)[i] && first_of_key(recent, current_id, idx[i])
                &&& forall|i: int, j: int| 0 <= i < j < idx.len() ==> #[trigger] idx[i] < #[trigger] idx[j]
            },
        recent_list(recent, current_id).len() < MAX_RECENT ==> forall|k: int|
            0 <= k < recent.len() && current_id != Some(recent[k].id) ==> #[trigger] has_key(
                recent_list(recent, current_id),
                dedup_key(recent[k]),
            ),
{
    lemma_dedup_first(recent, current_id);
    let d = dedup(recent, current_id);
    let l = recent_list(recent, current_id);
    let idx0 = choose|idx: Seq<int>|
        {
            &&& #[trigger] idx.len() == d.len()
            &&& forall|i: int|
                0 <= i < idx.len() ==> 0 <= #[trigger] idx[i] < recent.len() && recent[idx[i]] == d[i]
                    && first_of_key(recent, current_id, idx[i])
            &&& forall|i: int, j: int| 0 <= i < j < idx.len() ==> #[trigger] idx[i] < #[trigger] idx[j]
        };
    let idx = idx0.take(l.len() as int);
    assert forall|i: int| 0 <= i < idx.len() implies 0 <= #[trigger] idx[i] < recent.len() && recent[idx[i]]
        == l[i] && first_of_key(recent, current_id, idx[i]) by {
        assert(idx[i] == idx0[i]);
        assert(l[i] == d[i]);
    }
    assert forall|i: int, j: int| 0 <= i < j < idx.len() implies #[trigger] idx[i] < #[trigger] idx[j] by {
        assert(idx[i] == idx0[i] && idx[j] == idx0[j]);
    }
    assert(idx.len() == l.len());
    if l.len() < MAX_RECENT {
        assert(l == d);
    }
}

/// An invalidated cache is cold: the next search waits for a refresh.
pub proof fn law_invalidate_then_refresh(c: Cache, now: u64, force: bool)
    requires
        c.ts is None,
    ensures
        spec_plan(spec_age(c.ts, now), force) == RefreshPlan::StartAndWait,
{
}

/// Data written at `t` is fresh until `CACHE_TTL_MS` later, unless the
/// refresh is forced; after that it is served while a refresh runs.
pub proof fn law_fresh_until_ttl(t: u64, now: u64, force: bool)
    requires
        t <= now,
    ensures
        spec_plan(spec_age(Some(t), now), force) == (if !force && now - t < CACHE_TTL_MS {
            RefreshPlan::Fresh
        } else {
            RefreshPlan::StartInBackground
        }),
{
}

/// Whether a refresh hit the API's rate limit (for the running entry or
/// the projects).
pub open spec fn hits_rate_limit(e: CacheEvent) -> bool {
    match e {
        CacheEvent::Refresh(current, _recent, projects, _now) => current == Err::<
            Option<EntryView>,
            ApiError,
        >(ApiError::RateLimit) || projects == Err::<Map<i64, Seq<char>>, ApiError>(ApiError::RateLimit),
        CacheEvent::Invalidate => false,
    }
}

/// Whether the recent list of `m` is well formed: at most `MAX_RECENT`
/// entries, no two with the same description and project, and none of them
/// the running entry.
pub open spec fn entries_ok(m: CacheModel) -> bool {
    &&& m.entries.len() <= MAX_RECENT
    &&& forall|i: int, j: int|
        0 <= i < j < m.entries.len() ==> dedup_key(#[trigger] m.entries[i]) != dedup_key(
            #[trigger] m.entries[j],
        )
    &&& forall|i: int| 0 <= i < m.entries.len() ==> opt_id(m.current) != Some(#[trigger] m.entries[i].id)
}

/// The age of the cache, after any refreshes and invalidations, is `None`
/// when nothing was stored yet or the last event invalidated it; otherwise
/// it is the time since the last refresh stored (rate-limited ones too).
pub proof fn law_age_after_events(events: Seq<CacheEvent>, now: u64)
    ensures
        spec_age(after_events(events).ts, now) == if events.len() == 0 {
            None
        } else {
            match events.last() {
                CacheEvent::Invalidate => None,
                CacheEvent::Refresh(_c, _r, _p, t) => Some(
                    if now >= t {
                        (now - t) as u64
                    } else {
                        0
                    },
                ),
            }
        },
{
}

/// After any refreshes and invalidations, the cache reports a rate limit
/// exactly when the last refresh hit one; before any refresh it reports none.
pub proof fn law_rate_flag_after_events(events: Seq<CacheEvent>)
    ensures
        after_events(events).rate_limited <==> exists|i: int|
            0 <= i < events.len() && (#[trigger] events[i]) is Refresh && hits_rate_limit(events[i])
                && forall|j: int| i < j < events.len() ==> (#[trigger] events[j]) is Invalidate,
    decreases events.len(),
{
    if events.len() > 0 {
        let e0 = events.drop_last();
        law_rate_flag_after_events(e0);
        let n = events.len() - 1;
        let last = events.last();
        if last is Invalidate {
            if after_events(events).rate_limited {
                let i = choose|i: int|
                    0 <= i < e0.len() && (#[trigger] e0[i]) is Refresh && hits_rate_limit(e0[i])
                        && forall|j: int| i < j < e0.len() ==> (#[trigger] e0[j]) is Invalidate;
                assert(events[i] == e0[i]);
                assert forall|j: int| i < j < events.len() implies (#[trigger] events[j]) is Invalidate by {
                    if j < n {
                        assert(events[j] == e0[j]);
                    }
                }
            } else {
                if exists|i: int|
                    0 <= i < events.len() && (#[trigger] events[i]) is Refresh && hits_rate_limit(events[i])
                        && forall|j: int| i < j < events.len() ==> (#[trigger] events[j]) is Invalidate {
                    let i = choose|i: int|
                        0 <= i < events.len() && (#[trigger] events[i]) is Refresh && hits_rate_limit(
                            events[i],
                        ) && forall|j: int| i < j < events.len() ==> (#[trigger] events[j]) is Invalidate;
                    assert(i < n);
                    assert(events[i] == e0[i]);
                    assert forall|j: int| i < j < e0.len() implies (#[trigger] e0[j]) is Invalidate by {
                        assert(events[j] == e0[j]);
                    }
                    assert(false);
                }
            }
        } else {
            assert(events[n] == last);
            if after_events(events).rate_limited {
                assert(hits_rate_limit(last));
            } else {
                if exists|i: int|
                    0 <= i < events.len() && (#[trigger] events[i]) is Refresh && hits_rate_limit(events[i])
                        && forall|j: int| i < j < events.len() ==> (#[trigger] events[j]) is Invalidate {
                    let i = choose|i: int|
                        0 <= i < events.len() && (#[trigger] events[i]) is Refresh && hits_rate_limit(
                            events[i],
                        ) && forall|j: int| i < j < events.len() ==> (#[trigger] events[j]) is Invalidate;
                    if i < n {
                        assert(events[n] is Invalidate);
                    }
                    assert(false);
                }
            }
        }
    }
}

/// After any refreshes and invalidations, the recent list holds at most
/// `MAX_RECENT` entries, no two with the same description and project, and
/// never the running entry: what a snapshot hands out.
pub proof fn law_entries_after_events(events: Seq<CacheEvent>)
    ensures
        entries_ok(after_events(events)),
    decreases events.len(),
{
    if events.len() > 0 {
        law_entries_after_events(events.drop_last());
        let m = after_events(events.drop_last());
        match events.last() {
            CacheEvent::Invalidate => {},
            CacheEvent::Refresh(current, recent, projects, now) => {
                if !hits_rate_limit(events.last()) {
                    let cur = match current {
                        Ok(c) => c,
                        Err(_) => None,
                    };
                    law_recent_list(recent, opt_id(cur));
                }
            },
        }
    }
}

} // verus!
