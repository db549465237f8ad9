//! Breadth-first walks over the fact graph.

use vstd::prelude::*;

use crate::knowledge::Predicate;
use crate::text::{contains_text, lemma_push_contains, same, texts};

verus! {

/// The identity of a fact: its endpoints and predicate.
#[derive(Debug)]
pub struct FactKey {
    /// The subject.
    pub subject_id: String,
    /// The predicate.
    pub predicate: Predicate,
    /// The object.
    pub object_id: String,
}

/// The model of a [`FactKey`].
pub struct FactKeyView {
    pub subject: Seq<char>,
    pub predicate: Predicate,
    pub object: Seq<char>,
}

impl View for FactKey {
    type V = FactKeyView;

    open spec fn view(&self) -> FactKeyView {
        FactKeyView {
            subject: self.subject_id@,
            predicate: self.predicate,
            object: self.object_id@,
        }
    }
}

/// The models of a list of identities.
pub open spec fn key_views(v: Seq<FactKey>) -> Seq<FactKeyView> {
    v.map_values(|k: FactKey| k@)
}

/// Whether an endpoint of a fact is among `nodes`.
pub open spec fn touches(k: FactKeyView, nodes: Set<Seq<char>>) -> bool {
    nodes.contains(k.subject) || nodes.contains(k.object)
}

/// The entities that a walk from `ids` stands on after `hops` steps: the endpoints of all facts that
/// touch where it stood before.
pub open spec fn frontier(keys: Seq<FactKeyView>, ids: Set<Seq<char>>, hops: nat) -> Set<Seq<char>>
    decreases hops,
{
    if hops == 0 {
        ids
    } else {
        endpoints_of(keys, frontier(keys, ids, (hops - 1) as nat), keys.len() as int)
    }
}

/// The endpoints of those of the first `n` facts that touch `nodes`.
pub open spec fn endpoints_of(keys: Seq<FactKeyView>, nodes: Set<Seq<char>>, n: int) -> Set<Seq<char>>
    decreases n,
{
    if n <= 0 {
        Set::empty()
    } else {
        let before = endpoints_of(keys, nodes, n - 1);
        if touches(keys[n - 1], nodes) {
            before.insert(keys[n - 1].subject).insert(keys[n - 1].object)
        } else {
            before
        }
    }
}

/// Whether one of the facts at `found` has this identity.
pub open spec fn seen(keys: Seq<FactKeyView>, found: Seq<int>, k: FactKeyView) -> bool {
    exists|i: int| 0 <= i < found.len() && keys[#[trigger] found[i]] == k
}

/// `found` and those of the first `n` facts that touch `nodes` and have an identity not found
/// before.
pub open spec fn scanned(
    keys: Seq<FactKeyView>,
    nodes: Set<Seq<char>>,
    found: Seq<int>,
    n: int,
) -> Seq<int>
    decreases n,
{
    if n <= 0 {
        found
    } else {
        let before = scanned(keys, nodes, found, n - 1);
        if touches(keys[n - 1], nodes) && !seen(keys, before, keys[n - 1]) {
            before.push(n - 1)
        } else {
            before
        }
    }
}

/// The facts that a walk of `hops` steps from `ids` finds, by their index and in the order in which
/// it finds them, each identity once.
pub open spec fn discovered(keys: Seq<FactKeyView>, ids: Set<Seq<char>>, hops: nat) -> Seq<int>
    decreases hops,
{
    if hops == 0 {
        seq![]
    } else {
        let h = (hops - 1) as nat;
        scanned(keys, frontier(keys, ids, h), discovered(keys, ids, h), keys.len() as int)
    }
}

proof fn lemma_scan_nothing(
    keys: Seq<FactKeyView>,
    nodes: Set<Seq<char>>,
    found: Seq<int>,
    n: int,
)
    requires
        forall|t: Seq<char>| !nodes.contains(t),
    ensures
        scanned(keys, nodes, found, n) == found,
        endpoints_of(keys, nodes, n) == Set::<Seq<char>>::empty(),
    decreases n,
{
    if n > 0 {
        lemma_scan_nothing(keys, nodes, found, n - 1);
    }
}

proof fn lemma_walk_ends(keys: Seq<FactKeyView>, ids: Set<Seq<char>>, g: nat, h: nat)
    requires
        g <= h,
        frontier(keys, ids, g) == Set::<Seq<char>>::empty(),
    ensures
        discovered(keys, ids, h) == discovered(keys, ids, g),
        frontier(keys, ids, h) == Set::<Seq<char>>::empty(),
    decreases h,
{
    if g < h {
        let k = (h - 1) as nat;
        lemma_walk_ends(keys, ids, g, k);
        lemma_scan_nothing(
            keys,
            frontier(keys, ids, k),
            discovered(keys, ids, k),
            keys.len() as int,
        );
    }
}

fn same_key(a: &FactKey, b: &FactKey) -> (res: bool)
    ensures
        res == (a@ == b@),
{
    a.predicate == b.predicate && same(a.subject_id.as_str(), b.subject_id.as_str()) && same(
        a.object_id.as_str(),
        b.object_id.as_str(),
    )
}

fn already_found(keys: &Vec<FactKey>, found: &Vec<usize>, k: &FactKey) -> (res: bool)
    requires
        forall|i: int| 0 <= i < found@.len() ==> #[trigger] found@[i] < keys@.len(),
    ensures
        res == seen(key_views(keys@), found@.map_values(|i: usize| i as int), k@),
{
    let ghost indices = found@.map_values(|i: usize| i as int);
    let mut i: usize = 0;
    while i < found.len()
        invariant
            i <= found@.len(),
            indices == found@.map_values(|i: usize| i as int),
            forall|j: int| 0 <= j < found@.len() ==> #[trigger] found@[j] < keys@.len(),
            forall|j: int| 0 <= j < i ==> key_views(keys@)[#[trigger] indices[j]] != k@,
        decreases found@.len() - i,
    {
        assert(indices[i as int] == found@[i as int]);
        if same_key(&keys[found[i]], k) {
            assert(key_views(keys@)[indices[i as int]] == k@);
            return true;
        }
        i = i + 1;
    }
    false
}

fn add_once(nodes: &mut Vec<String>, item: &String)
    ensures
        texts(final(nodes)@).to_set() == texts(old(nodes)@).to_set().insert(item@),
{
    let ghost before = texts(nodes@);
    if !contains_text(nodes, item.as_str()) {
        nodes.push(item.clone());
        assert(texts(nodes@) =~= before.push(item@));
        proof {
            lemma_push_contains(before, item@);
        }
        assert(texts(nodes@).to_set() =~= before.to_set().insert(item@));
    } else {
        assert(before.to_set() =~= before.to_set().insert(item@));
    }
}

/// Walks the facts breadth first from `ids` for `hops` steps.
pub fn traverse(keys: &Vec<FactKey>, ids: &Vec<String>, hops: u8) -> (res: Vec<usize>)
    ensures
        res@.map_values(|i: usize| i as int) == discovered(
            key_views(keys@),
            texts(ids@).to_set(),
            hops as nat,
        ),
        forall|i: int| 0 <= i < res@.len() ==> #[trigger] res@[i] < keys@.len(),
{
    let ghost ks = key_views(keys@);
    let ghost start = texts(ids@).to_set();
    let mut found: Vec<usize> = Vec::new();
    let mut nodes = crate::text::copy_texts(ids);
    let mut hop: u8 = 0;
    assert(found@.map_values(|i: usize| i as int) =~= seq![]);
    while hop < hops
        invariant
            hop <= hops,
            ks == key_views(keys@),
            start == texts(ids@).to_set(),
            texts(nodes@).to_set() == frontier(ks, start, hop as nat),
            found@.map_values(|i: usize| i as int) == discovered(ks, start, hop as nat),
            forall|i: int| 0 <= i < found@.len() ==> #[trigger] found@[i] < keys@.len(),
        decreases hops - hop,
    {
        let ghost here = frontier(ks, start, hop as nat);
        let ghost known = discovered(ks, start, hop as nat);
        let mut next: Vec<String> = Vec::new();
        let mut i: usize = 0;
        assert(texts(next@).to_set() =~= Set::<Seq<char>>::empty());
        while i < keys.len()
            invariant
                i <= keys@.len(),
                ks == key_views(keys@),
                texts(nodes@).to_set() == here,
                texts(next@).to_set() == endpoints_of(ks, here, i as int),
                found@.map_values(|i: usize| i as int) == scanned(ks, here, known, i as int),
                forall|j: int| 0 <= j < found@.len() ==> #[trigger] found@[j] < keys@.len(),
            decreases keys@.len() - i,
        {
            let k = &keys[i];
            assert(ks[i as int] == k@);
            if contains_text(&nodes, k.subject_id.as_str()) || contains_text(
                &nodes,
                k.object_id.as_str(),
            ) {
                if !already_found(keys, &found, k) {
                    let ghost before = found@.map_values(|i: usize| i as int);
                    found.push(i);
                    assert(found@.map_values(|i: usize| i as int) =~= before.push(i as int));
                }
                add_once(&mut next, &k.subject_id);
                add_once(&mut next, &k.object_id);
            }
            i = i + 1;
        }
        if next.len() == 0 {
            proof {
                assert(texts(next@).to_set() =~= Set::<Seq<char>>::empty());
                lemma_walk_ends(ks, start, (hop + 1) as nat, hops as nat);
            }
            return found;
        }
        nodes = next;
        hop = hop + 1;
    }
    found
}

/// A walk finds a fact exactly where a shorter walk stands on one of its endpoints: every fact
/// found touches the walk within its hops, and of every fact that does the identity is found.
pub proof fn law_walk_finds_what_it_touches(keys: Seq<FactKeyView>, ids: Set<Seq<char>>, hops: nat)
    ensures
        forall|j: int|
            0 <= j < discovered(keys, ids, hops).len() ==> {
                let i = #[trigger] discovered(keys, ids, hops)[j];
                0 <= i < keys.len() && exists|g: nat|
                    g < hops && touches(keys[i], #[trigger] frontier(keys, ids, g))
            },
        forall|i: int, g: nat|
            0 <= i < keys.len() && g < hops && touches(
                #[trigger] keys[i],
                #[trigger] frontier(keys, ids, g),
            ) ==> seen(keys, discovered(keys, ids, hops), keys[i]),
    decreases hops,
{
    if hops > 0 {
        let h = (hops - 1) as nat;
        law_walk_finds_what_it_touches(keys, ids, h);
        let here = frontier(keys, ids, h);
        let known = discovered(keys, ids, h);
        let out = discovered(keys, ids, hops);
        lemma_scanned(keys, here, known, keys.len() as int);
        assert forall|j: int| 0 <= j < out.len() implies {
            let i = #[trigger] out[j];
            0 <= i < keys.len() && exists|g: nat|
                g < hops && touches(keys[i], #[trigger] frontier(keys, ids, g))
        } by {
            let i = out[j];
            if j < known.len() {
                assert(known[j] == i);
                let g = choose|g: nat|
                    g < h && touches(keys[i], #[trigger] frontier(keys, ids, g));
                assert(g < hops && touches(keys[i], frontier(keys, ids, g)));
            } else {
                assert(h < hops && touches(keys[i], frontier(keys, ids, h)));
            }
        }
        assert forall|i: int, g: nat|
            0 <= i < keys.len() && g < hops && touches(
                #[trigger] keys[i],
                #[trigger] frontier(keys, ids, g),
            ) implies seen(keys, out, keys[i]) by {
            if g < h {
                assert(seen(keys, known, keys[i]));
                let j = choose|j: int| 0 <= j < known.len() && keys[#[trigger] known[j]] == keys[i];
                assert(out[j] == known[j]);
            }
        }
    }
}

proof fn lemma_scanned(keys: Seq<FactKeyView>, nodes: Set<Seq<char>>, found: Seq<int>, n: int)
    requires
        0 <= n <= keys.len(),
    ensures
        found.len() <= scanned(keys, nodes, found, n).len(),
        forall|j: int|
            0 <= j < found.len() ==> #[trigger] scanned(keys, nodes, found, n)[j] == found[j],
        forall|j: int|
            found.len() <= j < scanned(keys, nodes, found, n).len() ==> 0 <= (
            #[trigger] scanned(keys, nodes, found, n)[j]) < n && touches(
                keys[scanned(keys, nodes, found, n)[j]],
                nodes,
            ),
        forall|i: int|
            0 <= i < n && touches(#[trigger] keys[i], nodes) ==> seen(
                keys,
                scanned(keys, nodes, found, n),
                keys[i],
            ),
    decreases n,
{
    if n > 0 {
        lemma_scanned(keys, nodes, found, n - 1);
        let before = scanned(keys, nodes, found, n - 1);
        let after = scanned(keys, nodes, found, n);
        assert forall|i: int| 0 <= i < n && touches(#[trigger] keys[i], nodes) implies seen(
            keys,
            after,
            keys[i],
        ) by {
            if i < n - 1 || seen(keys, before, keys[i]) {
                assert(seen(keys, before, keys[i]));
                let j = choose|j: int|
                    0 <= j < before.len() && keys[#[trigger] before[j]] == keys[i];
                assert(after[j] == before[j]);
            } else {
                assert(after[before.len() as int] == n - 1);
            }
        }
    }
}

proof fn lemma_endpoints(keys: Seq<FactKeyView>, nodes: Set<Seq<char>>, n: int, i: int)
    requires
        0 <= i < n <= keys.len(),
        nodes.contains(keys[i].subject) || nodes.contains(keys[i].object),
    ensures
        endpoints_of(keys, nodes, n).contains(keys[i].subject),
        endpoints_of(keys, nodes, n).contains(keys[i].object),
    decreases n,
{
    if i < n - 1 {
        lemma_endpoints(keys, nodes, n - 1, i);
    }
}

/// Whether the facts at two neighboring places of a path share an endpoint.
pub open spec fn shares_end(keys: Seq<FactKeyView>, path: Seq<int>, k: int) -> bool {
    let (a, b) = (keys[path[k]], keys[path[k + 1]]);
    a.subject == b.subject || a.subject == b.object || a.object == b.subject || a.object == b.object
}

proof fn lemma_path_is_walked(keys: Seq<FactKeyView>, ids: Set<Seq<char>>, path: Seq<int>, m: int)
    requires
        0 <= m < path.len(),
        forall|k: int| 0 <= k < path.len() ==> 0 <= #[trigger] path[k] < keys.len(),
        ids.contains(keys[path[0]].subject) || ids.contains(keys[path[0]].object),
        forall|k: int| 0 <= k < path.len() - 1 ==> #[trigger] shares_end(keys, path, k),
    ensures
        touches(keys[path[m]], frontier(keys, ids, m as nat)),
    decreases m,
{
    if m > 0 {
        lemma_path_is_walked(keys, ids, path, m - 1);
        let at = path[m - 1];
        lemma_endpoints(keys, frontier(keys, ids, (m - 1) as nat), keys.len() as int, at);
        assert(shares_end(keys, path, m - 1));
    }
}

proof fn lemma_scanned_once(keys: Seq<FactKeyView>, nodes: Set<Seq<char>>, found: Seq<int>, n: int)
    requires
        0 <= n <= keys.len(),
        forall|a: int, b: int|
            0 <= a < b < found.len() ==> keys[#[trigger] found[a]] != keys[#[trigger] found[b]],
    ensures
        forall|a: int, b: int|
            0 <= a < b < scanned(keys, nodes, found, n).len() ==> keys[#[trigger] scanned(
                keys,
                nodes,
                found,
                n,
            )[a]] != keys[#[trigger] scanned(keys, nodes, found, n)[b]],
    decreases n,
{
    if n > 0 {
        lemma_scanned_once(keys, nodes, found, n - 1);
        let before = scanned(keys, nodes, found, n - 1);
        let after = scanned(keys, nodes, found, n);
        if after != before {
            assert(after == before.push(n - 1));
            assert forall|a: int, b: int| 0 <= a < b < after.len() implies keys[#[trigger] after[a]]
                != keys[#[trigger] after[b]] by {
                assert(after[a] == before[a]);
                if b < before.len() {
                    assert(after[b] == before[b]);
                } else {
                    assert(keys[before[a]] != keys[n - 1]);
                }
            }
        }
    }
}

proof fn lemma_discovered_once(keys: Seq<FactKeyView>, ids: Set<Seq<char>>, hops: nat)
    ensures
        forall|a: int, b: int|
            0 <= a < b < discovered(keys, ids, hops).len() ==> keys[#[trigger] discovered(
                keys,
                ids,
                hops,
            )[a]] != keys[#[trigger] discovered(keys, ids, hops)[b]],
    decreases hops,
{
    if hops > 0 {
        let h = (hops - 1) as nat;
        lemma_discovered_once(keys, ids, h);
        lemma_scanned_once(keys, frontier(keys, ids, h), discovered(keys, ids, h), keys.len() as int);
    }
}

/// A walk goes along facts in both directions: where facts form a chain of no more than `hops`, the
/// first of which has one of `ids` as its subject or object and each of which shares an endpoint with
/// the next, the last is found. No identity is found twice, a walk of one hop finds nothing but facts of
/// `ids`, and one of no hop nothing.
pub proof fn law_walks_follow_chains(
    keys: &Vec<FactKey>,
    ids: &Vec<String>,
    hops: u8,
    res: Vec<usize>,
    path: Seq<int>,
    a: int,
    b: int,
)
    requires
        call_ensures(traverse, (keys, ids, hops), res),
        0 < path.len(),
        forall|k: int| 0 <= k < path.len() ==> 0 <= #[trigger] path[k] < keys@.len(),
        texts(ids@).contains(keys@[path[0]].subject_id@) || texts(ids@).contains(
            keys@[path[0]].object_id@,
        ),
        forall|k: int| 0 <= k < path.len() - 1 ==> #[trigger] shares_end(key_views(keys@), path, k),
    ensures
        path.len() <= hops ==> exists|i: int|
            0 <= i < res@.len() && keys@[#[trigger] res@[i] as int]@ == keys@[path.last()]@,
        0 <= a < b < res@.len() ==> keys@[res@[a] as int]@ != keys@[res@[b] as int]@,
        hops == 1 && 0 <= a < res@.len() ==> texts(ids@).contains(
            keys@[res@[a] as int].subject_id@,
        ) || texts(ids@).contains(keys@[res@[a] as int].object_id@),
        hops == 0 ==> res@.len() == 0,
{
    let ks = key_views(keys@);
    let start = texts(ids@).to_set();
    let found = discovered(ks, start, hops as nat);
    let shown = res@.map_values(|i: usize| i as int);
    assert(shown == found);
    assert forall|k: int| 0 <= k < path.len() implies ks[#[trigger] path[k]] == keys@[path[k]]@ by {}
    law_walk_finds_what_it_touches(ks, start, hops as nat);
    lemma_discovered_once(ks, start, hops as nat);
    if path.len() <= hops {
        let m = path.len() - 1;
        lemma_path_is_walked(ks, start, path, m);
        let last = path[m];
        assert(touches(ks[last], frontier(ks, start, m as nat)));
        assert(seen(ks, found, ks[last]));
        let i = choose|i: int| 0 <= i < found.len() && ks[#[trigger] found[i]] == ks[last];
        assert(shown[i] == found[i]);
        assert(res@[i] as int == found[i]);
        assert(keys@[res@[i] as int]@ == ks[found[i]]);
    }
    if 0 <= a < b < res@.len() {
        assert(shown[a] == found[a] && shown[b] == found[b]);
        assert(ks[found[a]] != ks[found[b]]);
    }
    if hops == 1 && 0 <= a < res@.len() {
        assert(shown[a] == found[a]);
        let i = found[a];
        let g = choose|g: nat| g < 1 && touches(ks[i], #[trigger] frontier(ks, start, g));
        assert(g == 0);
        assert(ks[i] == keys@[i]@);
    }
}

} // verus!
