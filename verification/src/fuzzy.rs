//! Diacritic-insensitive fuzzy matching of a query against a text.

use vstd::prelude::*;
use crate::text::{chars_of, push_char};

verus! {

/// What Unicode compatibility decomposition (NFKD) makes of `s`.
pub uninterp spec fn spec_nfkd(s: Seq<char>) -> Seq<char>;

/// Whether the general category of `c` is `Mn` (nonspacing mark).
pub uninterp spec fn spec_is_nonspacing_mark(c: char) -> bool;

/// What `str::to_lowercase` makes of `s`.
pub uninterp spec fn spec_lowercase(s: Seq<char>) -> Seq<char>;

/// Calls `UnicodeNormalization::nfkd` of `unicode-normalization` and collects
/// the characters. The contract claims only that the result is a function of
/// `s` alone, named `spec_nfkd`.
#[verifier::external_body]
pub fn nfkd(s: &str) -> (r: String)
    ensures
        r@ == spec_nfkd(s@),
{
    unicode_normalization::UnicodeNormalization::nfkd(s).collect::<String>()
}

/// Calls `get_general_category` of `unicode-general-category` and tells
/// whether the category is `NonspacingMark`. The contract claims only that the
/// answer is a function of `c` alone, named `spec_is_nonspacing_mark`.
#[verifier::external_body]
pub fn is_nonspacing_mark(c: char) -> (r: bool)
    ensures
        r == spec_is_nonspacing_mark(c),
{
    unicode_general_category::get_general_category(c)
        == unicode_general_category::GeneralCategory::NonspacingMark
}

/// Calls `str::to_lowercase`. The contract claims only that the result is a
/// function of `s` alone, named `spec_lowercase`.
#[verifier::external_body]
pub fn to_lowercase(s: &str) -> (r: String)
    ensures
        r@ == spec_lowercase(s@),
{
    s.to_lowercase()
}

/// Whether `c` is kept when diacritics are stripped.
pub open spec fn kept(c: char) -> bool {
    !spec_is_nonspacing_mark(c)
}

/// `text` decomposed (NFKD), without nonspacing marks, lowercased.
pub open spec fn spec_strip(text: Seq<char>) -> Seq<char> {
    spec_lowercase(spec_nfkd(text).filter(|c: char| kept(c)))
}

/// Remove diacritics (e.g. á→a, ž→z) and lowercase.
pub fn strip_diacritics(text: &str) -> (r: Vec<char>)
    ensures
        r@ == spec_strip(text@),
{
    let decomposed = nfkd(text);
    let d = chars_of(decomposed.as_str());
    let mut kept_chars = String::new();
    let mut i: usize = 0;
    while i < d.len()
        invariant
            i <= d.len(),
            d@ == spec_nfkd(text@),
            kept_chars@ == d@.take(i as int).filter(|c: char| kept(c)),
        decreases d.len() - i,
    {
        proof {
            reveal_with_fuel(Seq::<_>::filter, 1);
            assert(d@.take(i + 1).drop_last() == d@.take(i as int));
        }
        if !is_nonspacing_mark(d[i]) {
            push_char(&mut kept_chars, d[i]);
        }
        i = i + 1;
    }
    assert(d@.take(d.len() as int) == d@);
    let lowered = to_lowercase(kept_chars.as_str());
    chars_of(lowered.as_str())
}

/// Characters after which a match counts as the start of a word.
pub open spec fn is_separator(c: char) -> bool {
    c == ' ' || c == '_' || c == '-' || c == '.' || c == '/'
}

/// What a match of the text character at `ti` adds to the score, given the
/// position `prev` of the previous match: 3 right after it, 2 at a word start,
/// 1 elsewhere.
pub open spec fn bonus(t: Seq<char>, ti: int, prev: int) -> int {
    if ti == prev + 1 {
        3
    } else if ti == 0 || is_separator(t[ti - 1]) {
        2
    } else {
        1
    }
}

/// The state after scanning the first `n` characters of `t` for `q` in order:
/// (query characters matched, score so far, position of the last match, or
/// -2 before any). Each text character that equals the next unmatched query
/// character is matched.
pub open spec fn scan(q: Seq<char>, t: Seq<char>, n: nat) -> (nat, int, int)
    decreases n,
{
    if n == 0 {
        (0, 0, -2)
    } else {
        let (qi, sc, prev) = scan(q, t, (n - 1) as nat);
        let ti = n - 1;
        if qi < q.len() && t[ti] == q[qi as int] {
            ((qi + 1) as nat, sc + bonus(t, ti, prev), ti)
        } else {
            (qi, sc, prev)
        }
    }
}

/// The score of already normalized `q` against normalized `t`: `None` when not
/// every query character is found in order, else the matched score plus a
/// bonus of up to 10 for a short text.
pub open spec fn spec_match_score(q: Seq<char>, t: Seq<char>) -> Option<int> {
    if q.len() == 0 {
        Some(0)
    } else {
        let (qi, sc, _prev) = scan(q, t, t.len());
        if qi < q.len() {
            None
        } else {
            let slack = 10 - (t.len() - q.len());
            Some(sc + if slack > 0 { slack } else { 0 })
        }
    }
}

/// The value of an optional score, as an integer.
pub open spec fn opt_int(o: Option<i32>) -> Option<int> {
    match o {
        Some(v) => Some(v as int),
        None => None,
    }
}

/// The value of an optional wide score, as an integer.
pub open spec fn opt_wide(o: Option<i128>) -> Option<int> {
    match o {
        Some(v) => Some(v as int),
        None => None,
    }
}

pub proof fn lemma_scan_bounds(q: Seq<char>, t: Seq<char>, n: nat)
    requires
        n <= t.len(),
    ensures
        ({
            let (qi, sc, prev) = scan(q, t, n);
            &&& qi <= n
            &&& qi <= q.len()
            &&& qi <= sc <= 3 * qi
            &&& -2 <= prev < n
            &&& (qi == 0 <==> prev == -2)
        }),
    decreases n,
{
    if n > 0 {
        lemma_scan_bounds(q, t, (n - 1) as nat);
    }
}

/// Scores normalized `q` against normalized `t`, in wide arithmetic.
pub fn match_score_wide(q: &Vec<char>, t: &Vec<char>) -> (r: Option<i128>)
    ensures
        opt_wide(r) == spec_match_score(q@, t@),
{
    if q.len() == 0 {
        return Some(0);
    }
    let mut qi: usize = 0;
    let mut score: i128 = 0;
    let mut prev: i128 = -2;
    let mut ti: usize = 0;
    while ti < t.len()
        invariant
            ti <= t.len(),
            scan(q@, t@, ti as nat) == (qi as nat, score as int, prev as int),
        decreases t.len() - ti,
    {
        proof {
            lemma_scan_bounds(q@, t@, ti as nat);
        }
        if qi < q.len() && t[ti] == q[qi] {
            if ti as i128 == prev + 1 {
                score = score + 3;
            } else if ti == 0 || (t[ti - 1] == ' ' || t[ti - 1] == '_' || t[ti - 1] == '-'
                || t[ti - 1] == '.' || t[ti - 1] == '/') {
                score = score + 2;
            } else {
                score = score + 1;
            }
            prev = ti as i128;
            qi = qi + 1;
        }
        ti = ti + 1;
    }
    proof {
        lemma_scan_bounds(q@, t@, t.len() as nat);
    }
    if qi < q.len() {
        return None;
    }
    let slack: i128 = 10 - (t.len() as i128 - q.len() as i128);
    if slack > 0 {
        Some(score + slack)
    } else {
        Some(score)
    }
}

/// Whether an optional score fits an `i32` (no score does too).
pub open spec fn fits_i32(o: Option<int>) -> bool {
    o matches Some(s) ==> s <= i32::MAX
}

/// Scores normalized `q` against normalized `t`, where the score fits an
/// `i32` (a score above `i32::MAX` overflows the `i32` arithmetic).
pub fn match_score(q: &Vec<char>, t: &Vec<char>) -> (r: Option<i32>)
    requires
        fits_i32(spec_match_score(q@, t@)),
    ensures
        opt_int(r) == spec_match_score(q@, t@),
{
    proof {
        law_score_range(q@, t@);
    }
    match match_score_wide(q, t) {
        Some(s) => Some(s as i32),
        None => None,
    }
}

/// An optional score, `None` when it does not fit an `i32`.
pub open spec fn keep_i32(o: Option<int>) -> Option<int> {
    match o {
        Some(s) => if s <= i32::MAX {
            Some(s)
        } else {
            None
        },
        None => None,
    }
}

/// The score of `query` against `text`: both are stripped of diacritics and
/// lowercased and [`spec_match_score`] decides; a score too large for an
/// `i32`, where the `i32` arithmetic would overflow, is not given.
pub open spec fn spec_fuzzy_score(query: Seq<char>, text: Seq<char>) -> Option<int> {
    keep_i32(spec_match_score(spec_strip(query), spec_strip(text)))
}

/// Score how well `query` fuzzy-matches `text`, ignoring diacritics and case.
/// `None` if not all query characters are found in order (or if the score
/// would not fit an `i32`).
pub fn fuzzy_score(query: &str, text: &str) -> (r: Option<i32>)
    ensures
        opt_int(r) == spec_fuzzy_score(query@, text@),
{
    let q = strip_diacritics(query);
    let t = strip_diacritics(text);
    proof {
        law_score_range(q@, t@);
    }
    match match_score_wide(&q, &t) {
        Some(s) => if s <= 2147483647i128 {
            Some(s as i32)
        } else {
            None
        },
        None => None,
    }
}


/// `f` lists, for each character of `q`, a position of `t` holding it, the
/// positions strictly increasing: `q` occurs in `t` in order.
pub open spec fn embeds(q: Seq<char>, t: Seq<char>, f: Seq<int>) -> bool {
    &&& f.len() == q.len()
    &&& forall|k: int| 0 <= k < f.len() ==> 0 <= #[trigger] f[k] < t.len() && t[f[k]] == q[k]
    &&& forall|i: int, j: int| 0 <= i < j < f.len() ==> #[trigger] f[i] < #[trigger] f[j]
}

/// Whether the characters of `q` occur in `t` in order.
pub open spec fn is_subsequence(q: Seq<char>, t: Seq<char>) -> bool {
    exists|f: Seq<int>| #[trigger] embeds(q, t, f)
}

proof fn lemma_embeds_prefix(q: Seq<char>, t: Seq<char>, f: Seq<int>, k: int, m: int)
    requires
        embeds(q, t, f),
        0 <= k <= q.len(),
        0 <= m <= t.len(),
        forall|i: int| 0 <= i < k ==> #[trigger] f[i] < m,
    ensures
        embeds(q.take(k), t.take(m), f.take(k)),
{
    let g = f.take(k);
    assert forall|i: int| 0 <= i < g.len() implies 0 <= #[trigger] g[i] < t.take(m).len()
        && t.take(m)[g[i]] == q.take(k)[i] by {
        assert(g[i] == f[i]);
    }
    assert forall|i: int, j: int| 0 <= i < j < g.len() implies #[trigger] g[i] < #[trigger] g[j] by {
        assert(g[i] == f[i] && g[j] == f[j]);
    }
}

/// Scanning keeps the greedy invariant: the matched prefix of `q` occurs in
/// the scanned prefix of `t`, and one more query character does not.
proof fn lemma_scan_greedy(q: Seq<char>, t: Seq<char>, n: nat)
    requires
        n <= t.len(),
    ensures
        ({
            let (qi, _sc, prev) = scan(q, t, n);
            &&& exists|f: Seq<int>| #[trigger] embeds(q.take(qi as int), t.take(n as int), f)
            &&& qi < q.len() ==> !is_subsequence(q.take(qi as int + 1), t.take(n as int))
        }),
    decreases n,
{
    lemma_scan_bounds(q, t, n);
    let (qi, sc, prev) = scan(q, t, n);
    if n == 0 {
        let f = Seq::<int>::empty();
        assert(embeds(q.take(0), t.take(0), f));
        if qi < q.len() {
            assert forall|g: Seq<int>| !#[trigger] embeds(q.take(1), t.take(0), g) by {
                if embeds(q.take(1), t.take(0), g) {
                    assert(q.take(1).len() == 1);
                    assert(t.take(0).len() == 0);
                    assert(0 <= g[0] < t.take(0).len());
                }
            }
        }
    } else {
        lemma_scan_greedy(q, t, (n - 1) as nat);
        lemma_scan_bounds(q, t, (n - 1) as nat);
        let (qi0, sc0, prev0) = scan(q, t, (n - 1) as nat);
        let f0 = choose|f: Seq<int>| #[trigger] embeds(q.take(qi0 as int), t.take(n - 1), f);
        let matched = qi0 < q.len() && t[n - 1] == q[qi0 as int];
        if matched {
            let f = f0.push(n - 1);
            assert(embeds(q.take(qi as int), t.take(n as int), f)) by {
                assert forall|k: int| 0 <= k < f.len() implies 0 <= #[trigger] f[k] < t.take(
                    n as int,
                ).len() && t.take(n as int)[f[k]] == q.take(qi as int)[k] by {
                    if k < f0.len() {
                        assert(f[k] == f0[k]);
                    }
                }
                assert forall|i: int, j: int| 0 <= i < j < f.len() implies #[trigger] f[i]
                    < #[trigger] f[j] by {
                    if j < f0.len() {
                        assert(f[i] == f0[i] && f[j] == f0[j]);
                    } else {
                        assert(f[i] == f0[i]);
                    }
                }
            }
            if qi < q.len() {
                assert forall|g: Seq<int>| !#[trigger] embeds(q.take(qi as int + 1), t.take(n as int), g) by {
                    if embeds(q.take(qi as int + 1), t.take(n as int), g) {
                        assert(g[qi0 as int] < g[qi as int]);
                        assert forall|i: int| 0 <= i < qi0 as int + 1 implies #[trigger] g[i] < n - 1 by {
                            if i < qi0 {
                                assert(g[i] < g[qi0 as int]);
                            }
                        }
                        lemma_embeds_prefix(q.take(qi as int + 1), t.take(n as int), g, qi0 as int + 1, n - 1);
                        assert(q.take(qi as int + 1).take(qi0 as int + 1) == q.take(qi0 as int + 1));
                        assert(t.take(n as int).take(n - 1) == t.take(n - 1));
                    }
                }
            }
        } else {
            assert(embeds(q.take(qi as int), t.take(n as int), f0)) by {
                assert forall|k: int| 0 <= k < f0.len() implies 0 <= #[trigger] f0[k] < t.take(
                    n as int,
                ).len() && t.take(n as int)[f0[k]] == q.take(qi as int)[k] by {}
            }
            if qi < q.len() {
                assert forall|g: Seq<int>| !#[trigger] embeds(q.take(qi as int + 1), t.take(n as int), g) by {
                    if embeds(q.take(qi as int + 1), t.take(n as int), g) {
                        if g[qi as int] == n - 1 {
                            assert(t.take(n as int)[n - 1] == q.take(qi as int + 1)[qi as int]);
                        } else {
                            assert forall|i: int| 0 <= i < qi as int + 1 implies #[trigger] g[i] < n - 1 by {
                                if i < qi {
                                    assert(g[i] < g[qi as int]);
                                }
                            }
                            lemma_embeds_prefix(q.take(qi as int + 1), t.take(n as int), g, qi as int + 1, n - 1);
                            assert(q.take(qi as int + 1).take(qi as int + 1) == q.take(qi as int + 1));
                            assert(t.take(n as int).take(n - 1) == t.take(n - 1));
                        }
                    }
                }
            }
        }
    }
}

/// A non-empty normalized query gets a score exactly when its characters
/// occur in the normalized text in order.
pub proof fn lemma_score_iff_subsequence(q: Seq<char>, t: Seq<char>)
    ensures
        spec_match_score(q, t) is Some <==> is_subsequence(q, t),
{
    if q.len() == 0 {
        assert(embeds(q, t, Seq::<int>::empty()));
    } else {
        lemma_scan_greedy(q, t, t.len());
        lemma_scan_bounds(q, t, t.len());
        let (qi, sc, prev) = scan(q, t, t.len());
        assert(t.take(t.len() as int) == t);
        if qi == q.len() {
            assert(q.take(qi as int) == q);
        } else {
            if is_subsequence(q, t) {
                let f = choose|f: Seq<int>| #[trigger] embeds(q, t, f);
                lemma_embeds_prefix(q, t, f, qi as int + 1, t.len() as int);
            }
        }
    }
}

/// Every normalized text matches itself.
pub proof fn law_text_matches_itself(t: Seq<char>)
    ensures
        spec_match_score(t, t) is Some,
{
    let f = Seq::new(t.len(), |i: int| i);
    assert(embeds(t, t, f));
    lemma_score_iff_subsequence(t, t);
}

/// A score counts at least one point and at most three per query character,
/// plus at most ten for a short text.
pub proof fn law_score_range(q: Seq<char>, t: Seq<char>)
    ensures
        spec_match_score(q, t) matches Some(s) ==> q.len() <= s <= 3 * q.len() + 10,
{
    lemma_scan_bounds(q, t, t.len());
}

/// Scanning a text with more characters after it goes as scanning the text.
proof fn lemma_scan_prefix(q: Seq<char>, t: Seq<char>, u: Seq<char>, n: nat)
    requires
        n <= t.len(),
    ensures
        scan(q, t + u, n) == scan(q, t, n),
    decreases n,
{
    if n > 0 {
        lemma_scan_prefix(q, t, u, (n - 1) as nat);
        let ti = n - 1;
        assert((t + u)[ti] == t[ti]);
        if ti > 0 {
            assert((t + u)[ti - 1] == t[ti - 1]);
        }
    }
}

/// Once every query character is matched, further text changes nothing.
proof fn lemma_scan_done(q: Seq<char>, t: Seq<char>, m: nat, n: nat)
    requires
        m <= n <= t.len(),
        scan(q, t, m).0 == q.len(),
    ensures
        scan(q, t, n) == scan(q, t, m),
    decreases n - m,
{
    if n > m {
        lemma_scan_done(q, t, m, (n - 1) as nat);
    }
}

/// A longer text never scores higher: if `t` scores `a` for `q`, then `t`
/// followed by `u` scores some `b <= a` (tighter matches are preferred).
pub proof fn law_longer_text_scores_no_higher(q: Seq<char>, t: Seq<char>, u: Seq<char>)
    ensures
        spec_match_score(q, t) matches Some(a) ==> (spec_match_score(q, t + u) matches Some(b) && b <= a),
{
    if q.len() > 0 && spec_match_score(q, t) is Some {
        lemma_scan_prefix(q, t, u, t.len());
        lemma_scan_bounds(q, t, t.len());
        lemma_scan_done(q, t + u, t.len(), (t + u).len());
    }
}

/// A query gets a score exactly when, stripped of diacritics and
/// lowercased, it is empty or its characters occur in order in the
/// normalized text; that holds whenever the largest score the query can
/// reach fits an `i32`.
pub proof fn law_fuzzy_subsequence(query: Seq<char>, text: Seq<char>)
    requires
        3 * spec_strip(query).len() + 10 <= i32::MAX,
    ensures
        spec_fuzzy_score(query, text) is Some <==> (spec_strip(query).len() == 0 || is_subsequence(
            spec_strip(query),
            spec_strip(text),
        )),
{
    let q = spec_strip(query);
    let t = spec_strip(text);
    law_score_range(q, t);
    lemma_score_iff_subsequence(q, t);
}

/// The same for texts stripped piecewise: when the normalized text followed
/// by the normalized suffix is the normalization of the two together (as for
/// ASCII), adding the suffix never raises the score.
pub proof fn law_fuzzy_longer_text(query: Seq<char>, text: Seq<char>, suffix: Seq<char>)
    requires
        spec_strip(text + suffix) == spec_strip(text) + spec_strip(suffix),
    ensures
        spec_fuzzy_score(query, text) matches Some(a) ==> (spec_fuzzy_score(query, text + suffix) matches Some(
            b,
        ) && b <= a),
{
    law_longer_text_scores_no_higher(spec_strip(query), spec_strip(text), spec_strip(suffix));
}

proof fn lemma_scan_self(t: Seq<char>, k: nat)
    requires
        1 <= k <= t.len(),
    ensures
        scan(t, t, k) == (k, 3 * k as int - 1, k as int - 1),
    decreases k,
{
    if k > 1 {
        lemma_scan_self(t, (k - 1) as nat);
        assert(bonus(t, k - 1, k - 2) == 3);
    } else {
        assert(scan(t, t, 0) == (0nat, 0int, -2int));
        assert(bonus(t, 0, -2) == 2);
    }
}

/// A non-empty normalized text scored against itself: the first character
/// counts two (start of the text), every further one three (right after the
/// previous match), and the full short-text bonus of ten is added.
pub proof fn law_self_score(t: Seq<char>)
    requires
        t.len() > 0,
    ensures
        spec_match_score(t, t) == Some(3 * t.len() as int + 9),
{
    lemma_scan_self(t, t.len());
}

proof fn lemma_scan_before_first(c: char, t: Seq<char>, i: nat, k: nat)
    requires
        k <= i <= t.len(),
        forall|j: int| 0 <= j < i ==> t[j] != c,
    ensures
        scan(seq![c], t, k) == (0nat, 0int, -2int),
    decreases k,
{
    if k > 0 {
        lemma_scan_before_first(c, t, i, (k - 1) as nat);
        assert(t[k - 1] != c);
    }
}

/// A one-character query found first at position `i` of the normalized
/// text scores 2 when `i` starts the text or follows a space, `_`, `-`, `.`
/// or `/`, and 1 otherwise, plus the short-text bonus `10 - (len - 1)` when
/// that is positive.
pub proof fn law_single_char_score(c: char, t: Seq<char>, i: int)
    requires
        0 <= i < t.len(),
        t[i] == c,
        forall|j: int| 0 <= j < i ==> t[j] != c,
    ensures
        ({
            let base: int = if i == 0 || t[i - 1] == ' ' || t[i - 1] == '_' || t[i - 1] == '-' || t[i - 1]
                == '.' || t[i - 1] == '/' {
                2
            } else {
                1
            };
            let slack: int = 10 - (t.len() - 1);
            spec_match_score(seq![c], t) == Some(base + if slack > 0 {
                slack
            } else {
                0
            })
        }),
{
    let q = seq![c];
    lemma_scan_before_first(c, t, i as nat, i as nat);
    assert(q[0] == c);
    assert(scan(q, t, (i + 1) as nat).0 == 1);
    lemma_scan_done(q, t, (i + 1) as nat, t.len());
}

} // verus!
