//! Ranking by score.
//!
//! Scores are carried by the bit pattern of their IEEE 754 single. Items are ranked by descending
//! score in the total order of floating-point numbers, and by ascending id among equal scores.

use vstd::prelude::*;
use vstd::relations::{sorted_by, total_ordering};

use crate::text::{lemma_text_less_total, lemma_text_less_trans, less, text_less};

verus! {

/// The position of a bit pattern in the total order of single-precision numbers.
pub open spec fn order_key(bits: u32) -> int {
    if bits < 0x8000_0000 {
        bits as int
    } else {
        0x7fff_ffff - bits as int
    }
}

fn key_of(bits: u32) -> (res: i64)
    ensures
        res == order_key(bits),
{
    if bits < 0x8000_0000 {
        bits as i64
    } else {
        0x7fff_ffff - bits as i64
    }
}

/// An item with its score.
#[derive(Debug)]
pub struct Scored {
    /// The id of the item.
    pub id: String,
    /// The bits of the score.
    pub bits: u32,
}

impl View for Scored {
    type V = (u32, Seq<char>);

    open spec fn view(&self) -> (u32, Seq<char>) {
        (self.bits, self.id@)
    }
}

/// The models of a list of scored items.
pub open spec fn scored_views(v: Seq<Scored>) -> Seq<(u32, Seq<char>)> {
    v.map_values(|s: Scored| s@)
}

/// Whether `a` ranks before `b`.
pub open spec fn ranks_before(a: (u32, Seq<char>), b: (u32, Seq<char>)) -> bool {
    order_key(a.0) > order_key(b.0) || (a.0 == b.0 && text_less(a.1, b.1))
}

/// The order of ranks: `a` does not rank after `b`.
pub open spec fn rank_order() -> spec_fn((u32, Seq<char>), (u32, Seq<char>)) -> bool {
    |a: (u32, Seq<char>), b: (u32, Seq<char>)| !ranks_before(b, a)
}

/// The items in the order of their ranks.
pub open spec fn ranked(items: Seq<(u32, Seq<char>)>) -> Seq<(u32, Seq<char>)> {
    items.sort_by(rank_order())
}

/// The first `limit` items in the order of their ranks.
pub open spec fn top_ranked(items: Seq<(u32, Seq<char>)>, limit: nat) -> Seq<(u32, Seq<char>)> {
    if limit < items.len() {
        ranked(items).take(limit as int)
    } else {
        ranked(items)
    }
}

proof fn lemma_ranks_before(a: (u32, Seq<char>), b: (u32, Seq<char>), c: (u32, Seq<char>))
    ensures
        ranks_before(a, b) || ranks_before(b, a) || a == b,
        !(ranks_before(a, b) && ranks_before(b, a)),
        ranks_before(a, b) && ranks_before(b, c) ==> ranks_before(a, c),
{
    lemma_text_less_total(a.1, b.1);
    if text_less(a.1, b.1) && text_less(b.1, c.1) {
        lemma_text_less_trans(a.1, b.1, c.1);
    }
}

/// Ranks are a total order.
pub proof fn lemma_rank_order()
    ensures
        total_ordering(rank_order()),
{
    let leq = rank_order();
    assert forall|a: (u32, Seq<char>), b: (u32, Seq<char>), c: (u32, Seq<char>)| #[trigger]
        leq(a, b) && #[trigger] leq(b, c) implies leq(a, c) by {
        lemma_ranks_before(a, b, c);
        lemma_ranks_before(c, b, a);
        lemma_ranks_before(b, c, a);
        lemma_ranks_before(c, a, b);
        lemma_ranks_before(b, a, c);
        lemma_ranks_before(a, c, b);
    }
    assert forall|a: (u32, Seq<char>), b: (u32, Seq<char>)| #[trigger]
        leq(a, b) && #[trigger] leq(b, a) implies a == b by {
        lemma_ranks_before(a, b, a);
    }
    assert forall|a: (u32, Seq<char>), b: (u32, Seq<char>)| #[trigger] leq(a, b) || #[trigger] leq(
        b,
        a,
    ) by {
        lemma_ranks_before(a, b, a);
    }
    assert forall|a: (u32, Seq<char>)| #[trigger] leq(a, a) by {
        lemma_ranks_before(a, a, a);
    }
}

fn before(a: &Scored, b: &Scored) -> (res: bool)
    ensures
        res == ranks_before(a@, b@),
{
    key_of(a.bits) > key_of(b.bits) || (a.bits == b.bits && less(a.id.as_str(), b.id.as_str()))
}

/// Sorts items into the order of their ranks and keeps the first `limit`.
pub fn rank(items: Vec<Scored>, limit: usize) -> (res: Vec<Scored>)
    ensures
        scored_views(res@) == top_ranked(scored_views(items@), limit as nat),
{
    let ghost all = scored_views(items@);
    let mut rest = items;
    let mut sorted: Vec<Scored> = Vec::new();
    proof {
        lemma_rank_order();
        broadcast use vstd::seq_lib::group_to_multiset_ensures;
        assert(scored_views(sorted@) =~= Seq::empty());
        assert(scored_views(rest@).to_multiset().add(scored_views(sorted@).to_multiset())
            =~= all.to_multiset());
    }
    while rest.len() > 0
        invariant
            total_ordering(rank_order()),
            scored_views(rest@).to_multiset().add(scored_views(sorted@).to_multiset())
                == all.to_multiset(),
            sorted_by(scored_views(sorted@), rank_order()),
        decreases rest@.len(),
    {
        let ghost rest_before = scored_views(rest@);
        let ghost sorted_before = scored_views(sorted@);
        let n: usize = rest.len();
        let item = rest.remove(n - 1);
        let ghost x = item@;
        let mut pos: usize = 0;
        while pos < sorted.len() && before(&sorted[pos], &item)
            invariant
                pos <= sorted@.len(),
                sorted_before == scored_views(sorted@),
                x == item@,
                forall|j: int| 0 <= j < pos ==> ranks_before(#[trigger] sorted_before[j], x),
            ensures
                pos <= sorted@.len(),
                forall|j: int| 0 <= j < pos ==> ranks_before(#[trigger] sorted_before[j], x),
                pos < sorted@.len() ==> !ranks_before(sorted_before[pos as int], x),
            decreases sorted@.len() - pos,
        {
            assert(sorted_before[pos as int] == sorted@[pos as int]@);
            pos = pos + 1;
        }
        sorted.insert(pos, item);
        proof {
            broadcast use vstd::seq_lib::group_to_multiset_ensures;

            let rest_after = scored_views(rest@);
            let sorted_after = scored_views(sorted@);
            assert(rest_after =~= rest_before.remove(n - 1));
            assert(sorted_after =~= sorted_before.insert(pos as int, x));
            vstd::seq_lib::to_multiset_insert(sorted_before, pos as int, x);
            vstd::seq_lib::to_multiset_remove(rest_before, n - 1);
            assert(rest_before[n - 1] == x);
            assert(rest_before.to_multiset().count(x) > 0);
            assert(rest_after.to_multiset().add(sorted_after.to_multiset())
                =~= rest_before.to_multiset().add(sorted_before.to_multiset()));
            let leq = rank_order();
            assert forall|i: int, j: int| 0 <= i < j < sorted_after.len() implies leq(
                #[trigger] sorted_after[i],
                #[trigger] sorted_after[j],
            ) by {
                let a = if i < pos { i } else { i - 1 };
                let b = if j < pos { j } else { j - 1 };
                if i == pos {
                    assert(leq(x, sorted_before[pos as int]));
                    if b > pos {
                        assert(leq(sorted_before[pos as int], sorted_before[b]));
                    }
                } else if j == pos {
                    lemma_ranks_before(sorted_before[a], x, x);
                } else {
                    assert(leq(sorted_before[a], sorted_before[b]));
                }
            }
        }
    }
    proof {
        broadcast use vstd::seq_lib::group_to_multiset_ensures;

        let out = scored_views(sorted@);
        assert(scored_views(rest@) =~= Seq::empty());
        assert(out.to_multiset() =~= all.to_multiset());
        all.lemma_sort_by_ensures(rank_order());
        vstd::seq_lib::lemma_sorted_unique(out, ranked(all), rank_order());
        assert(out == ranked(all));
        assert(out.len() == all.len()) by {
            assert(out.len() == out.to_multiset().len());
            assert(all.len() == all.to_multiset().len());
        }
    }
    let ghost full = scored_views(sorted@);
    if limit < sorted.len() {
        sorted.truncate(limit);
        assert(scored_views(sorted@) =~= full.take(limit as int));
    }
    sorted
}

/// A ranking holds no more than its limit, and its scores never rise.
pub proof fn law_ranking_is_bounded_and_descending(items: Seq<(u32, Seq<char>)>, limit: nat, i: int, j: int)
    requires
        0 <= i <= j < top_ranked(items, limit).len(),
    ensures
        top_ranked(items, limit).len() <= limit,
        order_key(top_ranked(items, limit)[i].0) >= order_key(top_ranked(items, limit)[j].0),
{
    broadcast use vstd::seq_lib::group_to_multiset_ensures;

    lemma_rank_order();
    items.lemma_sort_by_ensures(rank_order());
    let out = ranked(items);
    assert(out.len() == out.to_multiset().len() == items.len());
    let leq = rank_order();
    if i < j {
        assert(leq(out[i], out[j]));
    }
}

/// Among scores that are not negative the greater one, by its bits, ranks first, and of equal scores the
/// lesser id; negative scores rank below all of them.
pub proof fn law_higher_scores_rank_first(a: (u32, Seq<char>), b: (u32, Seq<char>))
    requires
        a.0 < 0x8000_0000,
    ensures
        b.0 < 0x8000_0000 ==> (ranks_before(a, b) <==> a.0 > b.0 || (a.0 == b.0 && text_less(
            a.1,
            b.1,
        ))),
        b.0 >= 0x8000_0000 ==> ranks_before(a, b) && !ranks_before(b, a),
{
}

/// A ranking keeps the best: it has as many items as the limit lets it, all of them given; every given
/// item that it leaves out scores no more than each that it keeps, and where the scores are equal its
/// id is not the lesser one. Kept items of one score are in the order of their ids.
pub proof fn law_ranking_keeps_the_best(items: Seq<(u32, Seq<char>)>, limit: nat, x: (u32, Seq<char>))
    ensures
        top_ranked(items, limit).len() == if limit < items.len() {
            limit
        } else {
            items.len()
        },
        top_ranked(items, limit).contains(x) ==> items.contains(x),
        items.contains(x) && !top_ranked(items, limit).contains(x) ==> forall|i: int|
            0 <= i < top_ranked(items, limit).len() ==> {
                let kept = #[trigger] top_ranked(items, limit)[i];
                &&& order_key(x.0) <= order_key(kept.0)
                &&& x.0 == kept.0 ==> !text_less(x.1, kept.1)
            },
        forall|i: int, j: int|
            0 <= i < j < top_ranked(items, limit).len() && top_ranked(items, limit)[i].0
                == top_ranked(items, limit)[j].0 ==> !text_less(
                (#[trigger] top_ranked(items, limit)[j]).1,
                (#[trigger] top_ranked(items, limit)[i]).1,
            ),
{
    broadcast use vstd::seq_lib::group_to_multiset_ensures;

    lemma_rank_order();
    items.lemma_sort_by_ensures(rank_order());
    let out = ranked(items);
    let top = top_ranked(items, limit);
    assert(out.len() == out.to_multiset().len() == items.len());
    if top.contains(x) {
        let i = choose|i: int| 0 <= i < top.len() && top[i] == x;
        assert(out[i] == x);
        assert(out.to_multiset().count(x) > 0);
        assert(items.contains(x));
    }
    if items.contains(x) && !top.contains(x) {
        assert(items.to_multiset().count(x) > 0);
        assert(out.contains(x));
        let k = choose|k: int| 0 <= k < out.len() && out[k] == x;
        assert forall|i: int| 0 <= i < top.len() implies {
            let kept = #[trigger] top[i];
            &&& order_key(x.0) <= order_key(kept.0)
            &&& x.0 == kept.0 ==> !text_less(x.1, kept.1)
        } by {
            assert(out[i] == top[i]);
            if k < top.len() {
                assert(top[k] == x);
            }
            assert(rank_order()(out[i], out[k]));
        }
    }
    assert forall|i: int, j: int| 0 <= i < j < top.len() && top[i].0 == top[j].0 implies !text_less(
        (#[trigger] top[j]).1,
        (#[trigger] top[i]).1,
    ) by {
        assert(out[i] == top[i] && out[j] == top[j]);
        assert(rank_order()(out[i], out[j]));
    }
}

/// Ranking answers with the best: as many as were asked for where there are as many, all found among the items,
/// none before a better one, and none that is left out is better than one that is kept.
pub proof fn law_rankings_answer_with_the_best(
    items: Vec<Scored>,
    limit: usize,
    res: Vec<Scored>,
    i: int,
    j: int,
    x: (u32, Seq<char>),
)
    requires
        call_ensures(rank, (items, limit), res),
    ensures
        limit < items@.len() ==> res@.len() == limit,
        limit >= items@.len() ==> res@.len() == items@.len(),
        scored_views(res@).contains(x) ==> scored_views(items@).contains(x),
        0 <= i < j < res@.len() ==> order_key(scored_views(res@)[j].0) <= order_key(
            scored_views(res@)[i].0,
        ),
        0 <= i < res@.len() && scored_views(items@).contains(x) && !scored_views(res@).contains(x)
            ==> order_key(x.0) <= order_key(scored_views(res@)[i].0),
{
    let all = scored_views(items@);
    let top = scored_views(res@);
    law_ranking_keeps_the_best(all, limit as nat, x);
    assert(top.len() == res@.len() && all.len() == items@.len());
    if 0 <= i < j < res@.len() {
        law_ranking_is_bounded_and_descending(all, limit as nat, i, j);
    }
    if 0 <= i < res@.len() && all.contains(x) && !top.contains(x) {
        assert(top[i] == top_ranked(all, limit as nat)[i]);
    }
}

} // verus!
