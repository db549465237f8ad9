//! Counting by label.

use vstd::prelude::*;

use crate::text::{ascending, insert_ascending, same, texts};

verus! {

/// How often a label occurs.
pub open spec fn occurrences(labels: Seq<Seq<char>>, label: Seq<char>) -> nat
    decreases labels.len(),
{
    if labels.len() == 0 {
        0
    } else {
        occurrences(labels.drop_last(), label) + if labels.last() == label {
            1nat
        } else {
            0nat
        }
    }
}

/// The labels of a list of counts.
pub open spec fn labels_of(counts: Seq<(String, u64)>) -> Seq<Seq<char>> {
    counts.map_values(|c: (String, u64)| c.0@)
}

/// Whether `counts` tells how often each label occurs, by ascending label.
pub open spec fn counted(labels: Seq<Seq<char>>, counts: Seq<(String, u64)>) -> bool {
    &&& ascending(labels_of(counts))
    &&& forall|l: Seq<char>| #[trigger] labels_of(counts).contains(l) <==> labels.contains(l)
    &&& forall|i: int|
        0 <= i < counts.len() ==> (#[trigger] counts[i]).1 == occurrences(labels, counts[i].0@)
}

proof fn lemma_occurrences_bound(labels: Seq<Seq<char>>, label: Seq<char>)
    ensures
        occurrences(labels, label) <= labels.len(),
        occurrences(labels, label) > 0 <==> labels.contains(label),
    decreases labels.len(),
{
    if labels.len() > 0 {
        let rest = labels.drop_last();
        lemma_occurrences_bound(rest, label);
        if rest.contains(label) {
            let i = choose|i: int| 0 <= i < rest.len() && rest[i] == label;
            assert(labels[i] == label);
        }
        if labels.last() == label {
            assert(labels[labels.len() - 1] == label);
        }
        if labels.contains(label) && labels.last() != label {
            let i = choose|i: int| 0 <= i < labels.len() && labels[i] == label;
            assert(rest[i] == label);
        }
    }
}

/// How often a label occurs.
pub fn count(labels: &Vec<String>, label: &str) -> (res: u64)
    ensures
        res == occurrences(texts(labels@), label@),
{
    let ghost all = texts(labels@);
    let mut res: u64 = 0;
    let mut i: usize = 0;
    assert(all.take(0) =~= seq![]);
    while i < labels.len()
        invariant
            i <= labels@.len(),
            all == texts(labels@),
            res <= i,
            res == occurrences(all.take(i as int), label@),
        decreases labels@.len() - i,
    {
        proof {
            assert(all.take(i + 1).drop_last() =~= all.take(i as int));
            assert(all.take(i + 1).last() == labels@[i as int]@);
        }
        if same(labels[i].as_str(), label) {
            res = res + 1;
        }
        i = i + 1;
    }
    assert(all.take(i as int) =~= all);
    res
}

/// Counts by label, in ascending order of the labels.
pub fn counts(labels: &Vec<String>) -> (res: Vec<(String, u64)>)
    ensures
        counted(texts(labels@), res@),
{
    let ghost all = texts(labels@);
    let mut distinct: Vec<String> = Vec::new();
    let mut i: usize = 0;
    assert(all.take(0) =~= seq![]);
    assert(texts(distinct@) =~= seq![]);
    while i < labels.len()
        invariant
            i <= labels@.len(),
            all == texts(labels@),
            ascending(texts(distinct@)),
            forall|l: Seq<char>| #[trigger]
                texts(distinct@).contains(l) <==> all.take(i as int).contains(l),
        decreases labels@.len() - i,
    {
        let ghost before = texts(distinct@);
        let ghost seen = all.take(i as int);
        let item = labels[i].clone();
        insert_ascending(&mut distinct, item);
        proof {
            let next = all.take(i + 1);
            assert(next =~= seen.push(item@));
            assert forall|l: Seq<char>| #[trigger]
                texts(distinct@).contains(l) <==> next.contains(l) by {
                assert(before.contains(l) <==> seen.contains(l));
                if seen.contains(l) {
                    let k = choose|k: int| 0 <= k < seen.len() && seen[k] == l;
                    assert(next[k] == l);
                }
                if l == item@ {
                    assert(next[i as int] == l);
                }
                if next.contains(l) && l != item@ {
                    let k = choose|k: int| 0 <= k < next.len() && next[k] == l;
                    assert(seen[k] == l);
                }
            }
        }
        i = i + 1;
    }
    assert(all.take(i as int) =~= all);
    let mut res: Vec<(String, u64)> = Vec::new();
    let mut k: usize = 0;
    while k < distinct.len()
        invariant
            k <= distinct@.len(),
            all == texts(labels@),
            labels_of(res@) =~= texts(distinct@).take(k as int),
            forall|j: int|
                0 <= j < res@.len() ==> (#[trigger] res@[j]).1 == occurrences(all, res@[j].0@),
        decreases distinct@.len() - k,
    {
        let n: u64 = count(labels, distinct[k].as_str());
        let label = distinct[k].clone();
        let ghost before = labels_of(res@);
        res.push((label, n));
        assert(labels_of(res@) =~= before.push(label@));
        k = k + 1;
    }
    assert(texts(distinct@).take(k as int) =~= texts(distinct@));
    res
}

/// Every counted label occurs.
pub proof fn law_counts_are_positive(labels: Seq<Seq<char>>, counts: Seq<(String, u64)>)
    requires
        counted(labels, counts),
    ensures
        forall|i: int| 0 <= i < counts.len() ==> (#[trigger] counts[i]).1 > 0,
{
    assert forall|i: int| 0 <= i < counts.len() implies (#[trigger] counts[i]).1 > 0 by {
        assert(labels_of(counts)[i] == counts[i].0@);
        assert(labels_of(counts).contains(counts[i].0@));
        lemma_occurrences_bound(labels, counts[i].0@);
    }
}

/// Counting a list with one label more counts that label once more and no other.
pub proof fn law_a_label_counts_once(
    labels: &Vec<String>,
    more: &Vec<String>,
    label: &str,
    before: u64,
    after: u64,
)
    requires
        call_ensures(count, (labels, label), before),
        call_ensures(count, (more, label), after),
        more@.len() == labels@.len() + 1,
        texts(more@).drop_last() == texts(labels@),
    ensures
        after == before + if more@.last()@ == label@ {
            1int
        } else {
            0int
        },
        labels@.len() == 0 ==> before == 0,
{
    assert(texts(more@).last() == more@.last()@);
}

proof fn lemma_all_counted(labels: Seq<Seq<char>>, kept: Seq<Seq<char>>)
    requires
        kept.no_duplicates(),
        forall|l: Seq<char>| #[trigger] labels.contains(l) ==> kept.contains(l),
    ensures
        total(labels, kept) == labels.len(),
    decreases labels.len(),
{
    if labels.len() == 0 {
        lemma_total_of_nothing(labels, kept);
    } else {
        let rest = labels.drop_last();
        assert forall|l: Seq<char>| #[trigger] rest.contains(l) implies kept.contains(l) by {
            let i = choose|i: int| 0 <= i < rest.len() && rest[i] == l;
            assert(labels[i] == l);
            assert(labels.contains(l));
        }
        lemma_all_counted(rest, kept);
        assert(labels[labels.len() - 1] == labels.last());
        assert(labels.contains(labels.last()));
        lemma_total_grows(labels, kept);
    }
}

spec fn total(labels: Seq<Seq<char>>, kept: Seq<Seq<char>>) -> nat
    decreases kept.len(),
{
    if kept.len() == 0 {
        0
    } else {
        total(labels, kept.drop_last()) + occurrences(labels, kept.last())
    }
}

proof fn lemma_total_of_nothing(labels: Seq<Seq<char>>, kept: Seq<Seq<char>>)
    requires
        labels.len() == 0,
    ensures
        total(labels, kept) == 0,
    decreases kept.len(),
{
    if kept.len() > 0 {
        lemma_total_of_nothing(labels, kept.drop_last());
    }
}

proof fn lemma_total_grows(labels: Seq<Seq<char>>, kept: Seq<Seq<char>>)
    requires
        labels.len() > 0,
        kept.no_duplicates(),
    ensures
        total(labels, kept) == total(labels.drop_last(), kept) + if kept.contains(labels.last()) {
            1nat
        } else {
            0nat
        },
    decreases kept.len(),
{
    if kept.len() > 0 {
        let front = kept.drop_last();
        lemma_total_grows(labels, front);
        let l = labels.last();
        assert(kept[kept.len() - 1] == kept.last());
        if front.contains(l) {
            let i = choose|i: int| 0 <= i < front.len() && front[i] == l;
            assert(kept[i] == l);
            assert(kept.last() != l);
        }
        if kept.contains(l) && kept.last() != l {
            let i = choose|i: int| 0 <= i < kept.len() && kept[i] == l;
            assert(front[i] == l);
        }
    }
}

spec fn sum_of(counts: Seq<(String, u64)>) -> nat
    decreases counts.len(),
{
    if counts.len() == 0 {
        0
    } else {
        sum_of(counts.drop_last()) + counts.last().1 as nat
    }
}

proof fn lemma_sums(labels: Seq<Seq<char>>, counts: Seq<(String, u64)>)
    requires
        forall|i: int|
            0 <= i < counts.len() ==> (#[trigger] counts[i]).1 == occurrences(labels, counts[i].0@),
    ensures
        sum_of(counts) == total(labels, labels_of(counts)),
    decreases counts.len(),
{
    if counts.len() > 0 {
        let front = counts.drop_last();
        assert forall|i: int| 0 <= i < front.len() implies (#[trigger] front[i]).1 == occurrences(
            labels,
            front[i].0@,
        ) by {
            assert(front[i] == counts[i]);
        }
        lemma_sums(labels, front);
        assert(labels_of(counts).drop_last() =~= labels_of(front));
        assert(counts[counts.len() - 1] == counts.last());
    }
}

/// The number of counted labels, each as often as it was counted.
pub closed spec fn counted_in_all(counts: Seq<(String, u64)>) -> nat {
    sum_of(counts)
}

/// Nothing is left out of a count and nothing counted twice: the counts add up to the number of labels,
/// and each label is listed once.
pub proof fn law_counts_add_up(labels: &Vec<String>, res: Vec<(String, u64)>, i: int, j: int)
    requires
        call_ensures(counts, (labels,), res),
    ensures
        counted_in_all(res@) == labels@.len(),
        0 <= i < j < res@.len() ==> crate::text::text_less(res@[i].0@, res@[j].0@),
        0 <= i < labels@.len() ==> labels_of(res@).contains(labels@[i]@),
{
    let names = texts(labels@);
    let kept = labels_of(res@);
    assert forall|a: int, b: int| 0 <= a < kept.len() && 0 <= b < kept.len() && a != b implies kept[a]
        != kept[b] by {
        crate::text::lemma_text_less_total(kept[a], kept[b]);
        if a < b {
            assert(crate::text::text_less(kept[a], kept[b]));
        } else {
            assert(crate::text::text_less(kept[b], kept[a]));
        }
    }
    lemma_all_counted(names, kept);
    lemma_sums(names, res@);
    if 0 <= i < j < res@.len() {
        assert(kept[i] == res@[i].0@ && kept[j] == res@[j].0@);
    }
    if 0 <= i < labels@.len() {
        assert(names[i] == labels@[i]@);
        assert(names.contains(names[i]));
    }
}

} // verus!
