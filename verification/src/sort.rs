//! Stable insertion sorts: by score, highest first, and by name, in
//! lexicographic order.

use vstd::prelude::*;

verus! {

/// Where `x` goes in `r`: before the first item with a lower score.
pub open spec fn score_pos(r: Seq<(i32, usize)>, x: (i32, usize)) -> nat
    decreases r.len(),
{
    if r.len() == 0 {
        0
    } else if x.0 > r[0].0 {
        0
    } else {
        1 + score_pos(r.drop_first(), x)
    }
}

/// `s` sorted by score, highest first; items with equal scores keep their order.
pub open spec fn sort_by_score(s: Seq<(i32, usize)>) -> Seq<(i32, usize)>
    decreases s.len(),
{
    if s.len() == 0 {
        s
    } else {
        let r = sort_by_score(s.drop_last());
        r.insert(score_pos(r, s.last()) as int, s.last())
    }
}

proof fn lemma_score_pos_bound(r: Seq<(i32, usize)>, x: (i32, usize))
    ensures
        score_pos(r, x) <= r.len(),
    decreases r.len(),
{
    if r.len() > 0 {
        lemma_score_pos_bound(r.drop_first(), x);
    }
}

/// Sorting by score keeps the items: the result is as long as the input
/// and every item of it is an item of the input.
pub proof fn lemma_sort_by_score_items(s: Seq<(i32, usize)>)
    ensures
        sort_by_score(s).len() == s.len(),
        forall|k: int| 0 <= k < s.len() ==> s.contains(#[trigger] sort_by_score(s)[k]),
    decreases s.len(),
{
    if s.len() > 0 {
        let t = s.drop_last();
        lemma_sort_by_score_items(t);
        let r = sort_by_score(t);
        lemma_score_pos_bound(r, s.last());
        let p = score_pos(r, s.last()) as int;
        assert forall|k: int| 0 <= k < s.len() implies s.contains(#[trigger] sort_by_score(s)[k]) by {
            let x = sort_by_score(s)[k];
            if k < p {
                assert(x == r[k]);
            } else if k > p {
                assert(x == r[k - 1]);
            } else {
                assert(x == s[s.len() - 1]);
            }
            if k != p {
                let j = choose|j: int| 0 <= j < t.len() && t[j] == x;
                assert(s[j] == x);
            }
        }
    }
}

/// Sorting by name keeps the indices: the result is as long as the input
/// and every index of it is an index of the input.
pub proof fn lemma_sort_by_name_items(keys: Seq<Seq<char>>, s: Seq<usize>)
    ensures
        sort_by_name(keys, s).len() == s.len(),
        forall|k: int| 0 <= k < s.len() ==> s.contains(#[trigger] sort_by_name(keys, s)[k]),
    decreases s.len(),
{
    if s.len() > 0 {
        let t = s.drop_last();
        lemma_sort_by_name_items(keys, t);
        let r = sort_by_name(keys, t);
        lemma_name_pos_bound(keys, r, s.last());
        let p = name_pos(keys, r, s.last()) as int;
        assert forall|k: int| 0 <= k < s.len() implies s.contains(#[trigger] sort_by_name(keys, s)[k]) by {
            let x = sort_by_name(keys, s)[k];
            if k < p {
                assert(x == r[k]);
            } else if k > p {
                assert(x == r[k - 1]);
            } else {
                assert(x == s[s.len() - 1]);
            }
            if k != p {
                let j = choose|j: int| 0 <= j < t.len() && t[j] == x;
                assert(s[j] == x);
            }
        }
    }
}

/// Sorts scored items by score, highest first, keeping the order of equal scores.
pub fn sort_scored(v: &Vec<(i32, usize)>) -> (r: Vec<(i32, usize)>)
    ensures
        r@ == sort_by_score(v@),
{
    let mut out: Vec<(i32, usize)> = Vec::new();
    let mut i: usize = 0;
    while i < v.len()
        invariant
            i <= v.len(),
            out@ == sort_by_score(v@.take(i as int)),
        decreases v.len() - i,
    {
        let x = v[i];
        let mut p: usize = 0;
        proof {
            lemma_score_pos_bound(out@, x);
            assert(out@.skip(0) == out@);
        }
        while p < out.len() && !(x.0 > out[p].0)
            invariant
                p <= out.len(),
                score_pos(out@, x) == p + score_pos(out@.skip(p as int), x),
            decreases out.len() - p,
        {
            assert(out@.skip(p as int)[0] == out@[p as int]);
            assert(out@.skip(p as int).drop_first() == out@.skip(p + 1));
            p = p + 1;
        }
        proof {
            if p < out.len() {
                assert(out@.skip(p as int)[0] == out@[p as int]);
            }
        }
        assert(v@.take(i + 1).drop_last() == v@.take(i as int));
        assert(v@.take(i + 1).last() == x);
        out.insert(p, x);
        i = i + 1;
    }
    assert(v@.take(v.len() as int) == v@);
    out
}

/// Whether `a` comes before `b` in lexicographic order of code points (the
/// order of `String`'s comparison).
pub open spec fn lex_lt(a: Seq<char>, b: Seq<char>) -> bool
    decreases a.len(),
{
    if b.len() == 0 {
        false
    } else if a.len() == 0 {
        true
    } else if a[0] != b[0] {
        (a[0] as u32) < (b[0] as u32)
    } else {
        lex_lt(a.drop_first(), b.drop_first())
    }
}

/// Whether `a` comes before `b` in lexicographic order.
pub fn lex_less(a: &Vec<char>, b: &Vec<char>) -> (r: bool)
    ensures
        r == lex_lt(a@, b@),
{
    let mut i: usize = 0;
    assert(a@.skip(0) == a@ && b@.skip(0) == b@);
    while i < a.len() && i < b.len()
        invariant
            i <= a.len(),
            i <= b.len(),
            lex_lt(a@, b@) == lex_lt(a@.skip(i as int), b@.skip(i as int)),
        decreases a.len() - i,
    {
        assert(a@.skip(i as int)[0] == a@[i as int]);
        assert(b@.skip(i as int)[0] == b@[i as int]);
        if a[i] != b[i] {
            return (a[i] as u32) < (b[i] as u32);
        }
        assert(a@.skip(i as int).drop_first() == a@.skip(i + 1));
        assert(b@.skip(i as int).drop_first() == b@.skip(i + 1));
        i = i + 1;
    }
    i == a.len() && i < b.len()
}

/// Where index `x` goes in `r`: before the first index whose key comes after
/// its key.
pub open spec fn name_pos(keys: Seq<Seq<char>>, r: Seq<usize>, x: usize) -> nat
    decreases r.len(),
{
    if r.len() == 0 {
        0
    } else if lex_lt(keys[x as int], keys[r[0] as int]) {
        0
    } else {
        1 + name_pos(keys, r.drop_first(), x)
    }
}

/// Indices `s` sorted by their keys; equal keys keep their order.
pub open spec fn sort_by_name(keys: Seq<Seq<char>>, s: Seq<usize>) -> Seq<usize>
    decreases s.len(),
{
    if s.len() == 0 {
        s
    } else {
        let r = sort_by_name(keys, s.drop_last());
        r.insert(name_pos(keys, r, s.last()) as int, s.last())
    }
}

proof fn lemma_name_pos_bound(keys: Seq<Seq<char>>, r: Seq<usize>, x: usize)
    ensures
        name_pos(keys, r, x) <= r.len(),
    decreases r.len(),
{
    if r.len() > 0 {
        lemma_name_pos_bound(keys, r.drop_first(), x);
    }
}

/// The indices `0..keys.len()` sorted by their keys, keeping the order of equal keys.
pub fn sort_named(keys: &Vec<Vec<char>>) -> (r: Vec<usize>)
    ensures
        r@ == sort_by_name(
            keys@.map_values(|k: Vec<char>| k@),
            Seq::new(keys@.len(), |i: int| i as usize),
        ),
{
    let ghost ks = keys@.map_values(|k: Vec<char>| k@);
    let ghost all = Seq::new(keys@.len(), |i: int| i as usize);
    let mut out: Vec<usize> = Vec::new();
    let mut i: usize = 0;
    while i < keys.len()
        invariant
            i <= keys.len(),
            ks == keys@.map_values(|k: Vec<char>| k@),
            all == Seq::new(keys@.len(), |i: int| i as usize),
            out@ == sort_by_name(ks, all.take(i as int)),
            forall|k: int| 0 <= k < out@.len() ==> #[trigger] out@[k] < keys.len(),
        decreases keys.len() - i,
    {
        let mut p: usize = 0;
        proof {
            lemma_name_pos_bound(ks, out@, i);
            assert(out@.skip(0) == out@);
        }
        while p < out.len() && !lex_less(&keys[i], &keys[out[p]])
            invariant
                p <= out.len(),
                i < keys.len(),
                ks == keys@.map_values(|k: Vec<char>| k@),
                forall|k: int| 0 <= k < out@.len() ==> #[trigger] out@[k] < keys.len(),
                name_pos(ks, out@, i) == p + name_pos(ks, out@.skip(p as int), i),
            decreases out.len() - p,
        {
            assert(out@.skip(p as int)[0] == out@[p as int]);
            assert(out@.skip(p as int).drop_first() == out@.skip(p + 1));
            p = p + 1;
        }
        proof {
            if p < out.len() {
                assert(out@.skip(p as int)[0] == out@[p as int]);
            }
        }
        assert(all.take(i + 1).drop_last() == all.take(i as int));
        assert(all.take(i + 1).last() == i);
        out.insert(p, i);
        i = i + 1;
    }
    assert(all.take(keys.len() as int) == all);
    out
}


// --- Laws -------------------------------------------------------------------------

/// Whether `a` goes before `b` in a ranking by score: a higher score first,
/// and among equal scores the earlier position first.
pub open spec fn ranks_before(a: (i32, usize), b: (i32, usize)) -> bool {
    a.0 > b.0 || (a.0 == b.0 && a.1 < b.1)
}

/// Whether the positions in `s` strictly increase.
pub open spec fn positions_increase(s: Seq<(i32, usize)>) -> bool {
    forall|i: int, j: int| 0 <= i < j < s.len() ==> #[trigger] s[i].1 < #[trigger] s[j].1
}

proof fn lemma_score_pos_props(r: Seq<(i32, usize)>, x: (i32, usize))
    ensures
        forall|k: int| 0 <= k < score_pos(r, x) ==> !(x.0 > #[trigger] r[k].0),
        score_pos(r, x) < r.len() ==> x.0 > r[score_pos(r, x) as int].0,
    decreases r.len(),
{
    lemma_score_pos_bound(r, x);
    if r.len() > 0 && !(x.0 > r[0].0) {
        lemma_score_pos_props(r.drop_first(), x);
        assert forall|k: int| 0 <= k < score_pos(r, x) implies !(x.0 > #[trigger] r[k].0) by {
            if k > 0 {
                assert(r[k] == r.drop_first()[k - 1]);
            }
        }
    }
}

/// Sorting by score ranks every item before the ones after it: a higher
/// score first, and equal scores in their input order (here, positions
/// that increase along the input).
pub proof fn law_sort_by_score_ranks(s: Seq<(i32, usize)>)
    requires
        positions_increase(s),
    ensures
        forall|i: int, j: int|
            0 <= i < j < sort_by_score(s).len() ==> ranks_before(
                #[trigger] sort_by_score(s)[i],
                #[trigger] sort_by_score(s)[j],
            ),
    decreases s.len(),
{
    if s.len() > 0 {
        let t = s.drop_last();
        assert(positions_increase(t)) by {
            assert forall|i: int, j: int| 0 <= i < j < t.len() implies #[trigger] t[i].1 < #[trigger] t[j].1 by {
                assert(t[i] == s[i] && t[j] == s[j]);
            }
        }
        law_sort_by_score_ranks(t);
        lemma_sort_by_score_items(t);
        let r = sort_by_score(t);
        let x = s.last();
        lemma_score_pos_bound(r, x);
        lemma_score_pos_props(r, x);
        let p = score_pos(r, x) as int;
        let out = sort_by_score(s);
        assert(out == r.insert(p, x));
        // Every earlier item has a smaller position than the last one.
        assert forall|k: int| 0 <= k < r.len() implies #[trigger] r[k].1 < x.1 by {
            assert(t.contains(r[k]));
            let j = choose|j: int| 0 <= j < t.len() && t[j] == r[k];
            assert(s[j] == t[j]);
        }
        assert forall|i: int, j: int| 0 <= i < j < out.len() implies ranks_before(
            #[trigger] out[i],
            #[trigger] out[j],
        ) by {
            if j < p {
                assert(out[i] == r[i] && out[j] == r[j]);
            } else if j == p {
                assert(out[i] == r[i] && out[j] == x);
            } else if i < p {
                assert(out[i] == r[i] && out[j] == r[j - 1]);
            } else if i == p {
                assert(out[i] == x && out[j] == r[j - 1]);
                if p < r.len() {
                    if j - 1 > p {
                        assert(ranks_before(r[p], r[j - 1]));
                    }
                }
            } else {
                assert(out[i] == r[i - 1] && out[j] == r[j - 1]);
            }
        }
    }
}


pub proof fn lemma_lex_irreflexive(a: Seq<char>)
    ensures
        !lex_lt(a, a),
    decreases a.len(),
{
    if a.len() > 0 {
        lemma_lex_irreflexive(a.drop_first());
    }
}

pub proof fn lemma_lex_asymmetric(a: Seq<char>, b: Seq<char>)
    ensures
        lex_lt(a, b) ==> !lex_lt(b, a),
    decreases a.len(),
{
    if a.len() > 0 && b.len() > 0 && a[0] == b[0] {
        lemma_lex_asymmetric(a.drop_first(), b.drop_first());
    }
}

pub proof fn lemma_lex_transitive(a: Seq<char>, b: Seq<char>, c: Seq<char>)
    ensures
        lex_lt(a, b) && lex_lt(b, c) ==> lex_lt(a, c),
    decreases a.len(),
{
    if a.len() > 0 && b.len() > 0 && c.len() > 0 {
        lemma_lex_transitive(a.drop_first(), b.drop_first(), c.drop_first());
    }
}

pub proof fn lemma_lex_total(a: Seq<char>, b: Seq<char>)
    ensures
        lex_lt(a, b) || lex_lt(b, a) || a == b,
    decreases a.len(),
{
    if a.len() > 0 && b.len() > 0 {
        lemma_lex_total(a.drop_first(), b.drop_first());
        if a[0] != b[0] {
            vstd::utf8::char_u32_cast(a[0], a[0] as u32);
            vstd::utf8::char_u32_cast(b[0], b[0] as u32);
            assert((a[0] as u32) != (b[0] as u32));
        }
        if a[0] == b[0] && a.drop_first() == b.drop_first() {
            assert(a == seq![a[0]] + a.drop_first());
            assert(b == seq![b[0]] + b.drop_first());
        }
    } else if a.len() == 0 && b.len() == 0 {
        assert(a == b);
    }
}

/// Whether index `a` goes before index `b` when sorting by `keys`: a smaller
/// key first, and among equal keys the smaller index first.
pub open spec fn names_before(keys: Seq<Seq<char>>, a: usize, b: usize) -> bool {
    lex_lt(keys[a as int], keys[b as int]) || (keys[a as int] == keys[b as int] && a < b)
}

proof fn lemma_name_pos_props(keys: Seq<Seq<char>>, r: Seq<usize>, x: usize)
    ensures
        forall|k: int| 0 <= k < name_pos(keys, r, x) ==> !lex_lt(keys[x as int], keys[#[trigger] r[k] as int]),
        name_pos(keys, r, x) < r.len() ==> lex_lt(keys[x as int], keys[r[name_pos(keys, r, x) as int] as int]),
    decreases r.len(),
{
    lemma_name_pos_bound(keys, r, x);
    if r.len() > 0 && !lex_lt(keys[x as int], keys[r[0] as int]) {
        lemma_name_pos_props(keys, r.drop_first(), x);
        assert forall|k: int| 0 <= k < name_pos(keys, r, x) implies !lex_lt(
            keys[x as int],
            keys[#[trigger] r[k] as int],
        ) by {
            if k > 0 {
                assert(r[k] == r.drop_first()[k - 1]);
            }
        }
    }
}

/// Sorting indices by name puts every index before the ones after it: a
/// smaller key first, and equal keys in their input order (here,
/// indices that increase along the input).
pub proof fn law_sort_by_name_orders(keys: Seq<Seq<char>>, s: Seq<usize>)
    requires
        forall|i: int, j: int| 0 <= i < j < s.len() ==> #[trigger] s[i] < #[trigger] s[j],
    ensures
        forall|i: int, j: int|
            0 <= i < j < sort_by_name(keys, s).len() ==> names_before(
                keys,
                #[trigger] sort_by_name(keys, s)[i],
                #[trigger] sort_by_name(keys, s)[j],
            ),
    decreases s.len(),
{
    if s.len() > 0 {
        let t = s.drop_last();
        assert forall|i: int, j: int| 0 <= i < j < t.len() implies #[trigger] t[i] < #[trigger] t[j] by {
            assert(t[i] == s[i] && t[j] == s[j]);
        }
        law_sort_by_name_orders(keys, t);
        lemma_sort_by_name_items(keys, t);
        let r = sort_by_name(keys, t);
        let x = s.last();
        lemma_name_pos_bound(keys, r, x);
        lemma_name_pos_props(keys, r, x);
        let p = name_pos(keys, r, x) as int;
        let out = sort_by_name(keys, s);
        assert(out == r.insert(p, x));
        assert forall|k: int| 0 <= k < r.len() implies #[trigger] r[k] < x by {
            assert(t.contains(r[k]));
            let j = choose|j: int| 0 <= j < t.len() && t[j] == r[k];
            assert(s[j] == t[j]);
        }
        assert forall|k: int| 0 <= k < p implies names_before(keys, #[trigger] r[k], x) by {
            lemma_lex_total(keys[r[k] as int], keys[x as int]);
        }
        assert forall|k: int| p <= k < r.len() implies names_before(keys, x, #[trigger] r[k]) by {
            if k > p {
                assert(names_before(keys, r[p], r[k]));
                lemma_lex_transitive(keys[x as int], keys[r[p] as int], keys[r[k] as int]);
            }
        }
        assert forall|i: int, j: int| 0 <= i < j < out.len() implies names_before(
            keys,
            #[trigger] out[i],
            #[trigger] out[j],
        ) by {
            if j < p {
                assert(out[i] == r[i] && out[j] == r[j]);
            } else if j == p {
                assert(out[i] == r[i] && out[j] == x);
            } else if i < p {
                assert(out[i] == r[i] && out[j] == r[j - 1]);
            } else if i == p {
                assert(out[i] == x && out[j] == r[j - 1]);
            } else {
                assert(out[i] == r[i - 1] && out[j] == r[j - 1]);
            }
        }
    }
}

/// Sorting by score loses no item: every item of the input is in the result.
pub proof fn lemma_sort_by_score_keeps(s: Seq<(i32, usize)>)
    ensures
        forall|i: int| 0 <= i < s.len() ==> sort_by_score(s).contains(#[trigger] s[i]),
    decreases s.len(),
{
    if s.len() > 0 {
        let t = s.drop_last();
        lemma_sort_by_score_keeps(t);
        lemma_sort_by_score_items(t);
        let r = sort_by_score(t);
        lemma_score_pos_bound(r, s.last());
        let p = score_pos(r, s.last()) as int;
        let out = sort_by_score(s);
        assert(out == r.insert(p, s.last()));
        assert forall|i: int| 0 <= i < s.len() implies out.contains(#[trigger] s[i]) by {
            if i == s.len() - 1 {
                assert(out[p] == s[i]);
            } else {
                assert(s[i] == t[i]);
                assert(r.contains(t[i]));
                let k = choose|k: int| 0 <= k < r.len() && r[k] == t[i];
                if k < p {
                    assert(out[k] == r[k]);
                } else {
                    assert(out[k + 1] == r[k]);
                }
            }
        }
    }
}

/// Sorting by name loses no index: every index of the input is in the result.
pub proof fn lemma_sort_by_name_keeps(keys: Seq<Seq<char>>, s: Seq<usize>)
    ensures
        forall|i: int| 0 <= i < s.len() ==> sort_by_name(keys, s).contains(#[trigger] s[i]),
    decreases s.len(),
{
    if s.len() > 0 {
        let t = s.drop_last();
        lemma_sort_by_name_keeps(keys, t);
        lemma_sort_by_name_items(keys, t);
        let r = sort_by_name(keys, t);
        lemma_name_pos_bound(keys, r, s.last());
        let p = name_pos(keys, r, s.last()) as int;
        let out = sort_by_name(keys, s);
        assert(out == r.insert(p, s.last()));
        assert forall|i: int| 0 <= i < s.len() implies out.contains(#[trigger] s[i]) by {
            if i == s.len() - 1 {
                assert(out[p] == s[i]);
            } else {
                assert(s[i] == t[i]);
                assert(r.contains(t[i]));
                let k = choose|k: int| 0 <= k < r.len() && r[k] == t[i];
                if k < p {
                    assert(out[k] == r[k]);
                } else {
                    assert(out[k + 1] == r[k]);
                }
            }
        }
    }
}

} // verus!
