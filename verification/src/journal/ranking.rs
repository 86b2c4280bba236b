//! The order in which search results are shown: higher score first, then
//! later date, then later start line; results that tie keep their order.

use vstd::prelude::*;
use crate::text::to_chars;
use crate::updates::{lemma_text_order_flip, lemma_text_order_transitive, text_order, text_order_of};

verus! {

/// What a search result is ranked by: its score, its date and its first line.
pub open spec fn search_keys(scores: Seq<i32>, dates: Seq<String>, lines: Seq<usize>) -> Seq<(int, Seq<char>, int)> {
    Seq::new(scores.len(), |i: int| (scores[i] as int, dates[i]@, lines[i] as int))
}

/// `a` is shown before `b`: a higher score, or the same score and a later
/// date, or the same score and date and a later start line.
pub open spec fn ranks_before(a: (int, Seq<char>, int), b: (int, Seq<char>, int)) -> bool {
    a.0 > b.0 || (a.0 == b.0 && (text_order(a.1, b.1, 0) > 0 || (text_order(a.1, b.1, 0) == 0 && a.2 > b.2)))
}

/// The first place in `order` whose result `key` ranks before, or the end.
pub open spec fn first_ranked_after(order: Seq<int>, keys: Seq<(int, Seq<char>, int)>, key: (int, Seq<char>, int)) -> int
    decreases order.len(),
{
    if order.len() == 0 {
        0
    } else if first_ranked_after(order.drop_last(), keys, key) < order.len() - 1 {
        first_ranked_after(order.drop_last(), keys, key)
    } else if ranks_before(key, keys[order.last()]) {
        order.len() - 1
    } else {
        order.len() as int
    }
}

/// The positions of the results in the order they are shown.
pub open spec fn rank_order(keys: Seq<(int, Seq<char>, int)>) -> Seq<int>
    decreases keys.len(),
{
    if keys.len() == 0 {
        seq![]
    } else {
        let o = rank_order(keys.drop_last());
        o.insert(first_ranked_after(o, keys, keys.last()), keys.len() - 1)
    }
}

proof fn lemma_first_ranked_after(order: Seq<int>, keys: Seq<(int, Seq<char>, int)>, key: (int, Seq<char>, int))
    ensures
        0 <= first_ranked_after(order, keys, key) <= order.len(),
        forall|k: int| 0 <= k < first_ranked_after(order, keys, key) ==> !ranks_before(key, #[trigger] keys[order[k]]),
        first_ranked_after(order, keys, key) < order.len() ==> ranks_before(key, keys[order[first_ranked_after(order, keys, key)]]),
    decreases order.len(),
{
    if order.len() > 0 {
        lemma_first_ranked_after(order.drop_last(), keys, key);
        let p = first_ranked_after(order.drop_last(), keys, key);
        assert forall|k: int| 0 <= k < first_ranked_after(order, keys, key) implies !ranks_before(key, #[trigger] keys[order[k]]) by {
            if k < p {
                assert(order[k] == order.drop_last()[k]);
            }
        }
        if p < order.len() - 1 {
            assert(order[p] == order.drop_last()[p]);
        }
    }
}

proof fn lemma_rank_order_stays(order: Seq<int>, keys: Seq<(int, Seq<char>, int)>, key: (int, Seq<char>, int), n: int, p: int)
    requires
        0 <= p < n <= order.len(),
        first_ranked_after(order.take(n), keys, key) == p,
    ensures
        first_ranked_after(order, keys, key) == p,
    decreases order.len() - n,
{
    if n == order.len() {
        assert(order.take(n) =~= order);
    } else {
        assert(order.take(n + 1).drop_last() =~= order.take(n));
        assert(first_ranked_after(order.take(n + 1), keys, key) == p);
        lemma_rank_order_stays(order, keys, key, n + 1, p);
    }
}

proof fn lemma_rank_order_indexes(keys: Seq<(int, Seq<char>, int)>)
    ensures
        rank_order(keys).len() == keys.len(),
        forall|i: int| 0 <= i < keys.len() ==> 0 <= #[trigger] rank_order(keys)[i] < keys.len(),
    decreases keys.len(),
{
    if keys.len() > 0 {
        let o = rank_order(keys.drop_last());
        lemma_rank_order_indexes(keys.drop_last());
        lemma_first_ranked_after(o, keys, keys.last());
        let p = first_ranked_after(o, keys, keys.last());
        assert forall|i: int| 0 <= i < keys.len() implies 0 <= #[trigger] rank_order(keys)[i] < keys.len() by {
            if i < p {
                assert(rank_order(keys)[i] == o[i]);
            } else if i > p {
                assert(rank_order(keys)[i] == o[i - 1]);
            }
        }
    }
}

/// The positions of the first `limit` results in the order they are shown.
pub fn rank_search_results(scores: &Vec<i32>, dates: &Vec<String>, lines: &Vec<usize>, limit: usize) -> (r: Vec<usize>)
    requires
        scores.len() == dates.len(),
        scores.len() == lines.len(),
    ensures
        r@.map_values(|i: usize| i as int) == rank_order(search_keys(scores@, dates@, lines@)).take(
            if limit < scores.len() { limit as int } else { scores.len() as int },
        ),
{
    let ghost keys = search_keys(scores@, dates@, lines@);
    let mut order: Vec<usize> = Vec::new();
    let mut i: usize = 0;
    while i < scores.len()
        invariant
            0 <= i <= scores.len(),
            scores.len() == dates.len(),
            scores.len() == lines.len(),
            keys == search_keys(scores@, dates@, lines@),
            order@.map_values(|k: usize| k as int) == rank_order(keys.take(i as int)),
            forall|k: int| 0 <= k < order.len() ==> #[trigger] order[k] < i,
        decreases scores.len() - i,
    {
        let ghost prefix = keys.take(i as int + 1);
        let ghost ov = order@.map_values(|k: usize| k as int);
        assert(prefix.drop_last() =~= keys.take(i as int));
        assert(prefix.last() == keys[i as int]);
        let date = to_chars(dates[i].as_str());
        let mut p: usize = 0;
        while p < order.len()
            invariant
                0 <= p <= order.len(),
                ov == order@.map_values(|k: usize| k as int),
                forall|k: int| 0 <= k < order.len() ==> #[trigger] order[k] < i,
                i < scores.len(),
                scores.len() == dates.len(),
                scores.len() == lines.len(),
                keys == search_keys(scores@, dates@, lines@),
                date@ == dates@[i as int]@,
                prefix == keys.take(i as int + 1),
                first_ranked_after(ov.take(p as int), prefix, keys[i as int]) == p,
            ensures
                0 <= p <= order.len(),
                first_ranked_after(ov.take(p as int), prefix, keys[i as int]) == p,
                p < order.len() ==> ranks_before(keys[i as int], prefix[ov[p as int]]),
            decreases order.len() - p,
        {
            let j = order[p];
            let other = to_chars(dates[j].as_str());
            let o = text_order_of(&date, &other);
            assert(ov[p as int] == j as int);
            assert(j < i);
            assert(prefix[j as int] == keys[j as int]);
            assert(prefix[ov[p as int]] == keys[j as int]);
            let before = scores[i] > scores[j] || (scores[i] == scores[j] && (o > 0 || (o == 0 && lines[i] > lines[j])));
            if before {
                break;
            }
            assert(ov.take(p as int + 1).drop_last() =~= ov.take(p as int));
            assert(ov.take(p as int + 1).last() == ov[p as int]);
            p += 1;
        }
        proof {
            if p < order.len() {
                assert(ov.take(p as int + 1).drop_last() =~= ov.take(p as int));
                assert(ov.take(p as int + 1).last() == ov[p as int]);
                assert(first_ranked_after(ov.take(p as int + 1), prefix, keys[i as int]) == p);
                lemma_rank_order_stays(ov, prefix, keys[i as int], p as int + 1, p as int);
            } else {
                assert(ov.take(p as int) =~= ov);
            }
            assert(rank_order(keys.take(i as int)) == rank_order(prefix.drop_last()));
        }
        order.insert(p, i);
        assert(order@.map_values(|k: usize| k as int) =~= ov.insert(p as int, i as int));
        i += 1;
    }
    assert(keys.take(scores.len() as int) =~= keys);
    proof {
        lemma_rank_order_indexes(keys);
        assert(order.len() == order@.map_values(|x: usize| x as int).len());
    }
    let n = if limit < order.len() { limit } else { order.len() };
    let mut out: Vec<usize> = Vec::new();
    let mut k: usize = 0;
    while k < n
        invariant
            0 <= k <= n <= order.len(),
            out@.map_values(|x: usize| x as int) == order@.map_values(|x: usize| x as int).take(k as int),
        decreases n - k,
    {
        let ghost before = out@;
        out.push(order[k]);
        assert(out@ =~= before.push(order@[k as int]));
        assert(out@.map_values(|x: usize| x as int) =~= before.map_values(|x: usize| x as int).push(order@[k as int] as int));
        assert(out@.map_values(|x: usize| x as int) =~= order@.map_values(|x: usize| x as int).take(k as int + 1));
        k += 1;
    }
    out
}

proof fn lemma_ranks_before_order(a: (int, Seq<char>, int), b: (int, Seq<char>, int), c: (int, Seq<char>, int))
    ensures
        ranks_before(a, b) ==> !ranks_before(b, a),
        ranks_before(a, b) && ranks_before(b, c) ==> ranks_before(a, c),
{
    lemma_text_order_flip(a.1, b.1);
    lemma_text_order_flip(b.1, c.1);
    lemma_text_order_flip(a.1, c.1);
    if text_order(a.1, b.1, 0) >= 0 && text_order(b.1, c.1, 0) >= 0 {
        lemma_text_order_transitive(c.1, b.1, a.1, 0);
    }
}

/// Shown results never rank after a result shown later: the order goes by
/// score, then date, then start line, all descending.
pub proof fn law_rank_order_sorted(keys: Seq<(int, Seq<char>, int)>)
    ensures
        forall|i: int, j: int|
            0 <= i < j < rank_order(keys).len() ==> !ranks_before(
                keys[#[trigger] rank_order(keys)[j]],
                keys[#[trigger] rank_order(keys)[i]],
            ),
    decreases keys.len(),
{
    if keys.len() > 0 {
        let o = rank_order(keys.drop_last());
        law_rank_order_sorted(keys.drop_last());
        lemma_rank_order_indexes(keys.drop_last());
        lemma_first_ranked_after(o, keys, keys.last());
        let p = first_ranked_after(o, keys, keys.last());
        let x = keys.last();
        let r = rank_order(keys);
        assert forall|k: int| 0 <= k < o.len() implies keys[o[k]] == keys.drop_last()[o[k]] by {}
        assert forall|i: int, j: int| 0 <= i < j < r.len() implies !ranks_before(keys[#[trigger] r[j]], keys[#[trigger] r[i]]) by {
            if j < p {
                assert(r[i] == o[i] && r[j] == o[j]);
                assert(keys.drop_last()[o[i]] == keys[o[i]]);
            } else if j == p {
                assert(r[i] == o[i] && r[j] == keys.len() - 1);
            } else if i < p {
                assert(r[i] == o[i] && r[j] == o[j - 1]);
            } else if i == p {
                assert(r[i] == keys.len() - 1 && r[j] == o[j - 1]);
                lemma_ranks_before_order(x, keys[o[p]], keys[o[p]]);
                if j - 1 > p {
                    lemma_ranks_before_order(keys[o[j - 1]], x, keys[o[p]]);
                }
            } else {
                assert(r[i] == o[i - 1] && r[j] == o[j - 1]);
            }
        }
    }
}

} // verus!
