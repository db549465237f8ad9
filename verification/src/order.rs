//! Stable ordering of rows by their keys.

use vstd::prelude::*;

use crate::text::{
    lemma_text_less_total, lemma_text_less_trans, less, same, text_less,
};

verus! {

/// A key by which rows are ordered.
pub trait SortKey: View + Sized {
    /// Whether one key comes before another.
    spec fn precedes(a: Self::V, b: Self::V) -> bool;

    /// Keys are ordered totally.
    proof fn lemma_order(a: Self::V, b: Self::V, c: Self::V)
        ensures
            Self::precedes(a, b) || Self::precedes(b, a) || a == b,
            !(Self::precedes(a, b) && Self::precedes(b, a)),
            !Self::precedes(a, a),
            Self::precedes(a, b) && Self::precedes(b, c) ==> Self::precedes(a, c),
    ;

    /// Whether this key comes before the other.
    fn before(&self, other: &Self) -> (res: bool)
        ensures
            res == Self::precedes(self@, other@),
    ;
}

/// The model of a list of keys.
pub open spec fn key_views<K: SortKey>(keys: Seq<K>) -> Seq<K::V> {
    keys.map_values(|k: K| k@)
}

/// The order of two pairs: by the first text, then by the second.
pub open spec fn pair_less(a: (Seq<char>, Seq<char>), b: (Seq<char>, Seq<char>)) -> bool {
    text_less(a.0, b.0) || (a.0 == b.0 && text_less(a.1, b.1))
}

impl SortKey for (String, String) {
    open spec fn precedes(a: (Seq<char>, Seq<char>), b: (Seq<char>, Seq<char>)) -> bool {
        pair_less(a, b)
    }

    proof fn lemma_order(
        a: (Seq<char>, Seq<char>),
        b: (Seq<char>, Seq<char>),
        c: (Seq<char>, Seq<char>),
    ) {
        lemma_text_less_total(a.0, b.0);
        lemma_text_less_total(a.1, b.1);
        lemma_text_less_total(b.0, c.0);
        lemma_text_less_total(a.0, a.0);
        lemma_text_less_total(a.1, a.1);
        if text_less(a.0, b.0) && text_less(b.0, c.0) {
            lemma_text_less_trans(a.0, b.0, c.0);
        }
        if text_less(a.1, b.1) && text_less(b.1, c.1) {
            lemma_text_less_trans(a.1, b.1, c.1);
        }
    }

    fn before(&self, other: &Self) -> bool {
        if same(self.0.as_str(), other.0.as_str()) {
            proof {
                lemma_text_less_total(self.0@, other.0@);
            }
            less(self.1.as_str(), other.1.as_str())
        } else {
            less(self.0.as_str(), other.0.as_str())
        }
    }
}

impl SortKey for String {
    open spec fn precedes(a: Seq<char>, b: Seq<char>) -> bool {
        text_less(a, b)
    }

    proof fn lemma_order(a: Seq<char>, b: Seq<char>, c: Seq<char>) {
        lemma_text_less_total(a, b);
        lemma_text_less_total(a, a);
        if text_less(a, b) && text_less(b, c) {
            lemma_text_less_trans(a, b, c);
        }
    }

    fn before(&self, other: &Self) -> bool {
        less(self.as_str(), other.as_str())
    }
}

impl SortKey for i64 {
    open spec fn precedes(a: i64, b: i64) -> bool {
        a < b
    }

    proof fn lemma_order(a: i64, b: i64, c: i64) {
    }

    fn before(&self, other: &Self) -> bool {
        *self < *other
    }
}

/// A text that orders the greatest first.
#[derive(Debug)]
pub struct Descending {
    /// The text.
    pub text: String,
}

impl View for Descending {
    type V = Seq<char>;

    open spec fn view(&self) -> Seq<char> {
        self.text@
    }
}

impl SortKey for Descending {
    open spec fn precedes(a: Seq<char>, b: Seq<char>) -> bool {
        text_less(b, a)
    }

    proof fn lemma_order(a: Seq<char>, b: Seq<char>, c: Seq<char>) {
        lemma_text_less_total(a, b);
        lemma_text_less_total(a, a);
        if text_less(b, a) && text_less(c, b) {
            lemma_text_less_trans(c, b, a);
        }
    }

    fn before(&self, other: &Self) -> bool {
        less(other.text.as_str(), self.text.as_str())
    }
}

/// Whether row `i` comes before row `j`: by key, and among equal keys by position.
pub open spec fn row_before<K: SortKey>(keys: Seq<K::V>, i: int, j: int) -> bool {
    K::precedes(keys[i], keys[j]) || (keys[i] == keys[j] && i < j)
}

/// Whether `order` lists the picked rows, each once, in the order of their keys.
pub open spec fn ordered_pick<K: SortKey>(
    keys: Seq<K::V>,
    pick: Seq<bool>,
    order: Seq<int>,
) -> bool {
    &&& forall|a: int, b: int|
        0 <= a < b < order.len() ==> row_before::<K>(
            keys,
            #[trigger] order[a],
            #[trigger] order[b],
        )
    &&& forall|i: int| #[trigger]
        order.contains(i) <==> 0 <= i < keys.len() && i < pick.len() && pick[i]
}

proof fn lemma_row_before<K: SortKey>(keys: Seq<K::V>, i: int, j: int, k: int)
    ensures
        i != j ==> row_before::<K>(keys, i, j) || row_before::<K>(keys, j, i),
        !(row_before::<K>(keys, i, j) && row_before::<K>(keys, j, i)),
        row_before::<K>(keys, i, j) && row_before::<K>(keys, j, k) ==> row_before::<K>(
            keys,
            i,
            k,
        ),
{
    K::lemma_order(keys[i], keys[j], keys[k]);
    K::lemma_order(keys[j], keys[i], keys[k]);
}

/// The order of the picked rows is determined by the keys.
pub proof fn lemma_ordered_pick_unique<K: SortKey>(
    keys: Seq<K::V>,
    pick: Seq<bool>,
    a: Seq<int>,
    b: Seq<int>,
)
    requires
        ordered_pick::<K>(keys, pick, a),
        ordered_pick::<K>(keys, pick, b),
    ensures
        a == b,
{
    lemma_order_prefix::<K>(keys, pick, a, b, a.len() as int);
    lemma_order_prefix::<K>(keys, pick, b, a, b.len() as int);
    assert(a =~= b);
}

proof fn lemma_order_prefix<K: SortKey>(
    keys: Seq<K::V>,
    pick: Seq<bool>,
    a: Seq<int>,
    b: Seq<int>,
    n: int,
)
    requires
        ordered_pick::<K>(keys, pick, a),
        ordered_pick::<K>(keys, pick, b),
        0 <= n <= a.len(),
    ensures
        n <= b.len(),
        forall|i: int| 0 <= i < n ==> a[i] == b[i],
    decreases n,
{
    if n > 0 {
        let i = n - 1;
        lemma_order_prefix::<K>(keys, pick, a, b, i);
        assert(a.contains(a[i]));
        assert(b.contains(a[i]));
        let j = choose|j: int| 0 <= j < b.len() && b[j] == a[i];
        lemma_row_before::<K>(keys, a[i], a[i], a[i]);
        if j < i {
            assert(a[j] == b[j]);
            assert(row_before::<K>(keys, a[j], a[i]));
        } else if j > i {
            assert(row_before::<K>(keys, b[i], b[j]));
            assert(b.contains(b[i]));
            assert(a.contains(b[i]));
            let k = choose|k: int| 0 <= k < a.len() && a[k] == b[i];
            lemma_row_before::<K>(keys, a[k], a[i], a[i]);
            if k > i {
                assert(row_before::<K>(keys, a[i], a[k]));
            } else if k < i {
                assert(a[k] == b[k]);
                assert(row_before::<K>(keys, b[k], b[i]));
                lemma_row_before::<K>(keys, b[i], b[i], b[i]);
            }
        }
    }
}

proof fn lemma_insert<K: SortKey>(keys: Seq<K::V>, order: Seq<int>, i: int) -> (res: Seq<int>)
    requires
        forall|a: int, b: int|
            0 <= a < b < order.len() ==> row_before::<K>(
                keys,
                #[trigger] order[a],
                #[trigger] order[b],
            ),
        forall|k: int| 0 <= k < order.len() ==> #[trigger] order[k] < i,
    ensures
        forall|a: int, b: int|
            0 <= a < b < res.len() ==> row_before::<K>(keys, #[trigger] res[a], #[trigger] res[b]),
        forall|x: int| #[trigger] res.contains(x) <==> order.contains(x) || x == i,
    decreases order.len(),
{
    if order.len() == 0 {
        assert(seq![i][0] == i);
        seq![i]
    } else {
        let last = order.last();
        let rest = order.drop_last();
        K::lemma_order(keys[i], keys[last], keys[i]);
        if K::precedes(keys[i], keys[last]) {
            let inner = lemma_insert::<K>(keys, rest, i);
            let res = inner.push(last);
            assert forall|a: int, b: int| 0 <= a < b < res.len() implies row_before::<K>(
                keys,
                #[trigger] res[a],
                #[trigger] res[b],
            ) by {
                if b == inner.len() {
                    assert(inner.contains(inner[a]));
                    if inner[a] != i {
                        assert(rest.contains(inner[a]));
                        let k = choose|k: int| 0 <= k < rest.len() && rest[k] == inner[a];
                        assert(row_before::<K>(keys, order[k], order[order.len() - 1]));
                    }
                } else {
                    assert(res[a] == inner[a] && res[b] == inner[b]);
                }
            }
            assert forall|x: int| #[trigger] res.contains(x) <==> order.contains(x) || x == i by {
                if res.contains(x) {
                    let k = choose|k: int| 0 <= k < res.len() && res[k] == x;
                    if k < inner.len() {
                        assert(inner.contains(x));
                        if rest.contains(x) {
                            let j = choose|j: int| 0 <= j < rest.len() && rest[j] == x;
                            assert(order[j] == x);
                        }
                    } else {
                        assert(order[order.len() - 1] == x);
                    }
                }
                if order.contains(x) || x == i {
                    if x == last {
                        assert(res[inner.len() as int] == x);
                    } else {
                        if order.contains(x) {
                            let j = choose|j: int| 0 <= j < order.len() && order[j] == x;
                            assert(rest[j] == x);
                        }
                        assert(inner.contains(x));
                        let k = choose|k: int| 0 <= k < inner.len() && inner[k] == x;
                        assert(res[k] == x);
                    }
                }
            }
            res
        } else {
            let res = order.push(i);
            assert(row_before::<K>(keys, last, i));
            assert forall|a: int, b: int| 0 <= a < b < res.len() implies row_before::<K>(
                keys,
                #[trigger] res[a],
                #[trigger] res[b],
            ) by {
                if b == order.len() {
                    if a < order.len() - 1 {
                        assert(row_before::<K>(keys, order[a], order[order.len() - 1]));
                        lemma_row_before::<K>(keys, order[a], last, i);
                    }
                } else {
                    assert(res[a] == order[a] && res[b] == order[b]);
                }
            }
            assert forall|x: int| #[trigger] res.contains(x) <==> order.contains(x) || x == i by {
                if order.contains(x) {
                    let j = choose|j: int| 0 <= j < order.len() && order[j] == x;
                    assert(res[j] == x);
                }
                if x == i {
                    assert(res[order.len() as int] == x);
                }
                if res.contains(x) && x != i {
                    let k = choose|k: int| 0 <= k < res.len() && res[k] == x;
                    assert(order[k] == x);
                }
            }
            res
        }
    }
}

/// The picked rows can be ordered by their keys.
pub proof fn lemma_ordered_pick_exists<K: SortKey>(keys: Seq<K::V>, pick: Seq<bool>)
    ensures
        exists|order: Seq<int>| #[trigger] ordered_pick::<K>(keys, pick, order),
{
    let order = lemma_order_of::<K>(keys, pick, keys.len() as int);
    assert(ordered_pick::<K>(keys, pick, order));
}

proof fn lemma_order_of<K: SortKey>(keys: Seq<K::V>, pick: Seq<bool>, n: int) -> (res: Seq<int>)
    requires
        0 <= n <= keys.len(),
    ensures
        forall|a: int, b: int|
            0 <= a < b < res.len() ==> row_before::<K>(keys, #[trigger] res[a], #[trigger] res[b]),
        forall|x: int| #[trigger]
            res.contains(x) <==> 0 <= x < n && x < pick.len() && pick[x],
    decreases n,
{
    if n == 0 {
        seq![]
    } else {
        let before = lemma_order_of::<K>(keys, pick, n - 1);
        if n - 1 < pick.len() && pick[n - 1] {
            assert forall|k: int| 0 <= k < before.len() implies #[trigger] before[k] < n - 1 by {
                assert(before.contains(before[k]));
            }
            lemma_insert::<K>(keys, before, n - 1)
        } else {
            before
        }
    }
}

/// The indices of the picked rows in the order of their keys; rows of equal keys keep their order.
pub fn sort_picked<K: SortKey>(keys: &Vec<K>, pick: &Vec<bool>) -> (res: Vec<usize>)
    requires
        keys@.len() == pick@.len(),
    ensures
        ordered_pick::<K>(key_views(keys@), pick@, res@.map_values(|i: usize| i as int)),
        forall|i: int| 0 <= i < res@.len() ==> #[trigger] res@[i] < keys@.len(),
{
    let ghost ks = key_views(keys@);
    let mut res: Vec<usize> = Vec::new();
    let mut i: usize = 0;
    assert(res@.map_values(|i: usize| i as int) =~= seq![]);
    while i < keys.len()
        invariant
            i <= keys@.len() == pick@.len(),
            ks == key_views(keys@),
            ordered_pick::<K>(ks.take(i as int), pick@, res@.map_values(|i: usize| i as int)),
            forall|k: int| 0 <= k < res@.len() ==> #[trigger] res@[k] < i,
        decreases keys@.len() - i,
    {
        let ghost order = res@.map_values(|i: usize| i as int);
        let ghost now = ks.take(i as int);
        let ghost next = ks.take(i + 1);
        if pick[i] {
            let mut pos: usize = res.len();
            while pos > 0 && keys[i].before(&keys[res[pos - 1]])
                invariant
                    pos <= res@.len(),
                    i < keys@.len(),
                    ks == key_views(keys@),
                    order == res@.map_values(|i: usize| i as int),
                    forall|k: int| 0 <= k < res@.len() ==> #[trigger] res@[k] < i,
                    forall|k: int|
                        pos <= k < order.len() ==> K::precedes(ks[i as int], ks[#[trigger] order[k]]),
                ensures
                    pos <= res@.len(),
                    forall|k: int|
                        pos <= k < order.len() ==> K::precedes(ks[i as int], ks[#[trigger] order[k]]),
                    pos > 0 ==> !K::precedes(ks[i as int], ks[order[pos - 1]]),
                decreases pos,
            {
                assert(order[pos - 1] == res@[pos - 1]);
                pos = pos - 1;
            }
            res.insert(pos, i);
            proof {
                let after = res@.map_values(|i: usize| i as int);
                assert(after =~= order.insert(pos as int, i as int));
                assert forall|k: int| 0 <= k < order.len() implies 0 <= #[trigger] order[k] < i by {
                    assert(order[k] == res@[if k < pos { k } else { k + 1 }]);
                }
                assert forall|k: int| 0 <= k < pos implies row_before::<K>(
                    next,
                    #[trigger] order[k],
                    i as int,
                ) by {
                    K::lemma_order(ks[i as int], ks[order[k]], ks[i as int]);
                    let l = order[pos - 1];
                    K::lemma_order(ks[i as int], ks[l], ks[i as int]);
                    assert(row_before::<K>(next, l, i as int));
                    if k < pos - 1 {
                        assert(row_before::<K>(now, order[k], l));
                        assert(now[order[k]] == next[order[k]] && now[l] == next[l]);
                        lemma_row_before::<K>(next, order[k], l, i as int);
                    }
                }
                assert forall|a: int, b: int| 0 <= a < b < after.len() implies row_before::<K>(
                    next,
                    #[trigger] after[a],
                    #[trigger] after[b],
                ) by {
                    let x = if a < pos { a } else { a - 1 };
                    let y = if b < pos { b } else { b - 1 };
                    if a == pos {
                        assert(K::precedes(ks[i as int], ks[order[y]]));
                    } else if b == pos {
                        assert(row_before::<K>(next, order[x], i as int));
                    } else {
                        assert(row_before::<K>(now, order[x], order[y]));
                        assert(now[order[x]] == next[order[x]] && now[order[y]] == next[order[y]]);
                    }
                }
                assert forall|k: int| #[trigger]
                    after.contains(k) <==> 0 <= k < next.len() && k < pick@.len() && pick@[k] by {
                    if after.contains(k) {
                        let a = choose|a: int| 0 <= a < after.len() && after[a] == k;
                        if a != pos {
                            let x = if a < pos { a } else { a - 1 };
                            assert(order[x] == k);
                            assert(order.contains(k));
                        }
                    }
                    if 0 <= k < next.len() && pick@[k] {
                        if k < i {
                            assert(order.contains(k));
                            let x = choose|x: int| 0 <= x < order.len() && order[x] == k;
                            let a = if x < pos { x } else { x + 1 };
                            assert(after[a] == k);
                        } else {
                            assert(after[pos as int] == k);
                        }
                    }
                }
            }
        } else {
            proof {
                assert forall|k: int| 0 <= k < order.len() implies 0 <= #[trigger] order[k] < i by {
                    assert(order[k] == res@[k]);
                }
                assert forall|a: int, b: int| 0 <= a < b < order.len() implies row_before::<K>(
                    next,
                    #[trigger] order[a],
                    #[trigger] order[b],
                ) by {
                    assert(row_before::<K>(now, order[a], order[b]));
                    assert(now[order[a]] == next[order[a]] && now[order[b]] == next[order[b]]);
                }
                assert forall|k: int| #[trigger]
                    order.contains(k) <==> 0 <= k < next.len() && k < pick@.len() && pick@[k] by {}
            }
        }
        i = i + 1;
    }
    assert(ks.take(i as int) =~= ks);
    res
}

/// Rows that are picked in the order of their keys never go back: of two listed rows the later one has
/// no lesser first text, and no lesser second one where the first ones are the same. Every picked row is
/// listed, and no other.
pub proof fn law_picked_rows_never_go_back(
    keys: Seq<(Seq<char>, Seq<char>)>,
    pick: Seq<bool>,
    order: Seq<int>,
    a: int,
    b: int,
)
    requires
        ordered_pick::<(String, String)>(keys, pick, order),
        pick.len() == keys.len(),
        0 <= a < b < order.len(),
    ensures
        0 <= order[a] < keys.len(),
        0 <= order[b] < keys.len(),
        order[a] != order[b],
        pick[order[a]] && pick[order[b]],
        !text_less(keys[order[b]].0, keys[order[a]].0),
        keys[order[a]].0 == keys[order[b]].0 ==> !text_less(keys[order[b]].1, keys[order[a]].1),
        forall|i: int| 0 <= i < keys.len() && #[trigger] pick[i] ==> order.contains(i),
{
    assert(order.contains(order[a]) && order.contains(order[b]));
    assert(row_before::<(String, String)>(keys, order[a], order[b]));
    let (x, y) = (keys[order[a]], keys[order[b]]);
    lemma_text_less_total(x.0, y.0);
    lemma_text_less_total(x.1, y.1);
    assert forall|i: int| 0 <= i < keys.len() && #[trigger] pick[i] implies order.contains(i) by {}
}

/// The order of texts is that of their first difference: a text comes before those that go on after it,
/// and before those that have a greater character where the two first differ.
pub proof fn law_texts_are_ordered_by_their_first_difference(
    start: Seq<char>,
    a: char,
    b: char,
    left: Seq<char>,
    right: Seq<char>,
)
    requires
        (a as int) < (b as int),
    ensures
        text_less(start + seq![a] + left, start + seq![b] + right),
        text_less(start, start + seq![b] + right),
        !text_less(start + seq![b] + right, start + seq![a] + left),
    decreases start.len(),
{
    let (x, y) = (start + seq![a] + left, start + seq![b] + right);
    if start.len() == 0 {
        assert(x[0] == a && y[0] == b);
        assert(start =~= seq![]);
    } else {
        let rest = start.drop_first();
        law_texts_are_ordered_by_their_first_difference(rest, a, b, left, right);
        assert(x.drop_first() =~= rest + seq![a] + left);
        assert(y.drop_first() =~= rest + seq![b] + right);
        assert(x[0] == start[0] && y[0] == start[0]);
    }
    lemma_text_less_total(x, y);
}

} // verus!
