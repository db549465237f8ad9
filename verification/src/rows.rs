//! Removing rows by their owner, and what filtering keeps.

use vstd::prelude::*;

verus! {

/// A row that belongs to something named by an id.
pub trait Owned: Sized {
    /// The id that the row belongs to.
    spec fn owner(self) -> Seq<char>;

    /// Whether the row belongs to `id`.
    fn owned_by(&self, id: &str) -> (res: bool)
        ensures
            res == (self.owner() == id@),
    ;
}

/// The rows that do not belong to `id`.
pub open spec fn not_owned<T: Owned>(rows: Seq<T>, id: Seq<char>) -> Seq<T> {
    rows.filter(|r: T| r.owner() != id)
}

/// Filtering looks at the first row, then at the others.
pub proof fn lemma_filter_first<T>(s: Seq<T>, p: spec_fn(T) -> bool)
    requires
        s.len() > 0,
    ensures
        s.filter(p) == if p(s[0]) {
            seq![s[0]] + s.drop_first().filter(p)
        } else {
            s.drop_first().filter(p)
        },
    decreases s.len(),
{
    reveal(Seq::filter);
    let rest = s.drop_first();
    if s.len() == 1 {
        assert(rest =~= seq![]);
        assert(s.drop_last() =~= seq![]);
        assert(seq![].filter(p) =~= Seq::<T>::empty());
        assert(s =~= seq![s[0]]);
        assert(Seq::<T>::empty().push(s[0]) =~= seq![s[0]]);
        assert(seq![s[0]] + Seq::<T>::empty() =~= seq![s[0]]);
    } else {
        lemma_filter_first(s.drop_last(), p);
        assert(s.drop_last().drop_first() =~= rest.drop_last());
        assert(s.drop_last()[0] == s[0]);
        assert(rest.last() == s.last());
        let mid = rest.drop_last().filter(p);
        assert((seq![s[0]] + mid).push(s.last()) =~= seq![s[0]] + mid.push(s.last()));
    }
}

/// Filtering keeps everything where everything meets the condition.
pub proof fn lemma_filter_all<T>(s: Seq<T>, p: spec_fn(T) -> bool)
    requires
        forall|i: int| 0 <= i < s.len() ==> p(#[trigger] s[i]),
    ensures
        s.filter(p) == s,
    decreases s.len(),
{
    reveal(Seq::filter);
    if s.len() > 0 {
        let rest = s.drop_last();
        assert forall|i: int| 0 <= i < rest.len() implies p(#[trigger] rest[i]) by {
            assert(rest[i] == s[i]);
        }
        lemma_filter_all(rest, p);
        assert(p(s[s.len() - 1]));
        assert(rest.push(s.last()) =~= s);
    }
}

/// What filtering keeps comes, in order, from what was there.
pub proof fn lemma_filter_places<T>(s: Seq<T>, p: spec_fn(T) -> bool) -> (places: Seq<int>)
    ensures
        places.len() == s.filter(p).len(),
        forall|i: int|
            0 <= i < places.len() ==> 0 <= #[trigger] places[i] < s.len() && s[places[i]]
                == s.filter(p)[i] && p(s[places[i]]),
        forall|i: int, j: int|
            0 <= i < j < places.len() ==> #[trigger] places[i] < #[trigger] places[j],
        forall|k: int| 0 <= k < s.len() && p(#[trigger] s[k]) ==> places.contains(k),
    decreases s.len(),
{
    reveal(Seq::filter);
    if s.len() == 0 {
        seq![]
    } else {
        let rest = s.drop_last();
        let before = lemma_filter_places(rest, p);
        assert forall|i: int| 0 <= i < before.len() implies s[#[trigger] before[i]]
            == rest[before[i]] by {}
        if p(s.last()) {
            let places = before.push(s.len() - 1);
            assert forall|k: int| 0 <= k < s.len() && p(#[trigger] s[k]) implies places.contains(
                k,
            ) by {
                if k < rest.len() {
                    assert(rest[k] == s[k]);
                    assert(before.contains(k));
                    let i = choose|i: int| 0 <= i < before.len() && before[i] == k;
                    assert(places[i] == k);
                } else {
                    assert(places[before.len() as int] == k);
                }
            }
            places
        } else {
            assert forall|k: int| 0 <= k < s.len() && p(#[trigger] s[k]) implies before.contains(
                k,
            ) by {
                assert(rest[k] == s[k]);
            }
            before
        }
    }
}

/// What filtering keeps is what meets the condition, and filtering again keeps all of it.
pub proof fn lemma_filter_kept<T>(s: Seq<T>, p: spec_fn(T) -> bool)
    ensures
        forall|x: T| #[trigger] s.filter(p).contains(x) <==> s.contains(x) && p(x),
        s.filter(p).filter(p) == s.filter(p),
{
    let places = lemma_filter_places(s, p);
    let kept = s.filter(p);
    assert forall|x: T| #[trigger] kept.contains(x) <==> s.contains(x) && p(x) by {
        if kept.contains(x) {
            let i = choose|i: int| 0 <= i < kept.len() && kept[i] == x;
            assert(s[places[i]] == x);
        }
        if s.contains(x) && p(x) {
            let k = choose|k: int| 0 <= k < s.len() && s[k] == x;
            let i = choose|i: int| 0 <= i < places.len() && places[i] == k;
            assert(kept[i] == x);
        }
    }
    assert forall|i: int| 0 <= i < kept.len() implies p(#[trigger] kept[i]) by {
        assert(kept[i] == s[places[i]]);
    }
    lemma_filter_all(kept, p);
}

/// Filtering the models of rows is modelling the filtered rows.
pub proof fn lemma_filter_map<T, U>(s: Seq<T>, f: spec_fn(T) -> U, p: spec_fn(U) -> bool)
    ensures
        s.map_values(f).filter(p) == s.filter(|x: T| p(f(x))).map_values(f),
    decreases s.len(),
{
    reveal(Seq::filter);
    let q = |x: T| p(f(x));
    if s.len() > 0 {
        let rest = s.drop_last();
        lemma_filter_map(rest, f, p);
        assert(s.map_values(f).drop_last() =~= rest.map_values(f));
        assert(rest.filter(q).push(s.last()).map_values(f) =~= rest.filter(q).map_values(f).push(
            f(s.last()),
        ));
    } else {
        assert(s.filter(q).map_values(f) =~= s.map_values(f).filter(p));
    }
}

/// Removes the rows that belong to `id`; the others keep their order.
pub fn remove_owned<T: Owned>(rows: &mut Vec<T>, id: &str)
    ensures
        final(rows)@ == not_owned(old(rows)@, id@),
{
    let ghost before = rows@;
    let ghost keep = |r: T| r.owner() != id@;
    let mut i: usize = rows.len();
    assert(before.skip(i as int) =~= seq![]);
    assert(Seq::<T>::empty().filter(keep) =~= seq![]) by {
        reveal(Seq::filter);
    }
    while i > 0
        invariant
            i <= rows@.len(),
            keep == (|r: T| r.owner() != id@),
            i <= before.len(),
            rows@ =~= before.take(i as int) + before.skip(i as int).filter(keep),
        decreases i,
    {
        i = i - 1;
        let ghost now = rows@;
        let ghost tail = before.skip(i + 1).filter(keep);
        assert(now[i as int] == before[i as int]);
        proof {
            lemma_filter_first(before.skip(i as int), keep);
            assert(before.skip(i as int).drop_first() =~= before.skip(i + 1));
            assert(before.skip(i as int)[0] == before[i as int]);
        }
        if rows[i].owned_by(id) {
            let _ = rows.remove(i);
            assert(rows@ =~= before.take(i as int) + tail);
        } else {
            assert(before.take(i as int) + (seq![before[i as int]] + tail) =~= before.take(i + 1)
                + tail);
        }
    }
    assert(before.skip(0) =~= before);
    assert(before.take(0) + before.filter(keep) =~= before.filter(keep));
}

} // verus!
