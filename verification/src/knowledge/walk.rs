//! A walk over facts that are read edge by edge: what was found, where the walk stands, and where it
//! goes next.

use vstd::prelude::*;

use crate::text::{contains_text, copy_texts, same, texts};

verus! {

/// The identity of a stored fact.
#[derive(Debug)]
pub struct Triple {
    /// The subject.
    pub subject: String,
    /// The predicate, as it is stored.
    pub predicate: String,
    /// The object.
    pub object: String,
}

/// The model of an [`Triple`].
#[verifier::ext_equal]
pub struct TripleView {
    pub subject: Seq<char>,
    pub predicate: Seq<char>,
    pub object: Seq<char>,
}

impl View for Triple {
    type V = TripleView;

    open spec fn view(&self) -> TripleView {
        TripleView { subject: self.subject@, predicate: self.predicate@, object: self.object@ }
    }
}

/// The models of identities.
pub open spec fn triple_views(edges: Seq<Triple>) -> Seq<TripleView> {
    edges.map_values(|e: Triple| e@)
}

/// The edges that are known once `edges` were read: each identity once, in the order of discovery.
pub open spec fn absorbed(known: Seq<TripleView>, edges: Seq<TripleView>) -> Seq<TripleView>
    decreases edges.len(),
{
    if edges.len() == 0 {
        known
    } else {
        let before = absorbed(known, edges.drop_last());
        if before.contains(edges.last()) {
            before
        } else {
            before.push(edges.last())
        }
    }
}

/// Whether an entity is an endpoint of one of the edges from `lo` on.
pub open spec fn ends_from(edges: Seq<TripleView>, lo: int, id: Seq<char>) -> bool {
    exists|i: int|
        lo <= i < edges.len() && ((#[trigger] edges[i]).subject == id || edges[i].object == id)
}

/// A walk from some entities.
#[derive(Debug)]
pub struct Walk {
    /// The edges that were found.
    pub found: Vec<Triple>,
    /// The entities that the walk stands on.
    pub frontier: Vec<String>,
    /// The entities that it goes to.
    pub next: Vec<String>,
}

impl Walk {
    /// The edges that were found.
    pub open spec fn edges(self) -> Seq<TripleView> {
        triple_views(self.found@)
    }

    /// A walk that stands on `ids` and found nothing yet.
    pub fn start(ids: &Vec<String>) -> (res: Walk)
        ensures
            res.edges() == Seq::<TripleView>::empty(),
            texts(res.frontier@) == texts(ids@),
            res.next@.len() == 0,
    {
        let res = Walk { found: Vec::new(), frontier: copy_texts(ids), next: Vec::new() };
        assert(res.edges() =~= Seq::empty());
        res
    }

    fn knows(&self, edge: &Triple) -> (res: bool)
        ensures
            res == self.edges().contains(edge@),
    {
        let ghost all = self.edges();
        let mut i: usize = 0;
        while i < self.found.len()
            invariant
                i <= self.found@.len(),
                all == self.edges(),
                forall|j: int| 0 <= j < i ==> #[trigger] all[j] != edge@,
            decreases self.found@.len() - i,
        {
            let e = &self.found[i];
            assert(all[i as int] == e@);
            if same(e.subject.as_str(), edge.subject.as_str()) && same(
                e.predicate.as_str(),
                edge.predicate.as_str(),
            ) && same(e.object.as_str(), edge.object.as_str()) {
                assert(all[i as int] == edge@);
                return true;
            }
            assert(all[i as int] != edge@);
            i = i + 1;
        }
        false
    }

    fn go_to(&mut self, id: &str)
        ensures
            final(self).edges() == old(self).edges(),
            final(self).frontier == old(self).frontier,
            forall|t: Seq<char>|
                texts(final(self).next@).contains(t) <==> texts(old(self).next@).contains(t) || t
                    == id@,
    {
        let ghost before = texts(self.next@);
        if !contains_text(&self.next, id) {
            self.next.push(id.to_owned());
            assert(texts(self.next@) =~= before.push(id@));
            assert forall|t: Seq<char>| #[trigger]
                texts(self.next@).contains(t) <==> before.contains(t) || t == id@ by {
                if before.contains(t) {
                    let i = choose|i: int| 0 <= i < before.len() && before[i] == t;
                    assert(texts(self.next@)[i] == t);
                }
                if t == id@ {
                    assert(texts(self.next@)[before.len() as int] == t);
                }
            }
        }
    }

    /// Takes in edges that were read: those of a new identity are found, and the walk goes to their
    /// endpoints.
    pub fn absorb(&mut self, edges: Vec<Triple>)
        ensures
            final(self).edges() == absorbed(old(self).edges(), triple_views(edges@)),
            final(self).frontier == old(self).frontier,
            forall|t: Seq<char>|
                texts(final(self).next@).contains(t) <==> texts(old(self).next@).contains(t)
                    || ends_from(final(self).edges(), old(self).edges().len() as int, t),
    {
        let ghost start = *self;
        let ghost read = triple_views(edges@);
        let ghost lo = self.edges().len() as int;
        let mut i: usize = 0;
        assert(read.take(0) =~= seq![]);
        while i < edges.len()
            invariant
                i <= edges@.len(),
                read == triple_views(edges@),
                lo == start.edges().len(),
                lo <= self.edges().len(),
                self.edges() == absorbed(start.edges(), read.take(i as int)),
                self.frontier == start.frontier,
                forall|t: Seq<char>| #[trigger]
                    texts(self.next@).contains(t) <==> texts(start.next@).contains(t) || ends_from(
                        self.edges(),
                        lo,
                        t,
                    ),
            decreases edges@.len() - i,
        {
            let e = &edges[i];
            assert(read[i as int] == e@);
            assert(read.take(i + 1).drop_last() =~= read.take(i as int));
            assert(read.take(i + 1).last() == e@);
            if !self.knows(e) {
                let ghost known = self.edges();
                let ghost reached = texts(self.next@);
                self.go_to(e.subject.as_str());
                self.go_to(e.object.as_str());
                self.found.push(
                    Triple {
                        subject: e.subject.clone(),
                        predicate: e.predicate.clone(),
                        object: e.object.clone(),
                    },
                );
                assert(self.edges() =~= known.push(e@));
                assert forall|t: Seq<char>| #[trigger]
                    texts(self.next@).contains(t) <==> texts(start.next@).contains(t) || ends_from(
                        self.edges(),
                        lo,
                        t,
                    ) by {
                    let now = self.edges();
                    assert(now[known.len() as int] == e@);
                    if ends_from(known, lo, t) {
                        let k = choose|k: int|
                            lo <= k < known.len() && ((#[trigger] known[k]).subject == t
                                || known[k].object == t);
                        assert(now[k] == known[k]);
                    }
                    if ends_from(now, lo, t) {
                        let k = choose|k: int|
                            lo <= k < now.len() && ((#[trigger] now[k]).subject == t
                                || now[k].object == t);
                        if k < known.len() {
                            assert(known[k] == now[k]);
                        }
                    }
                    assert(reached.contains(t) <==> texts(start.next@).contains(t) || ends_from(
                        known,
                        lo,
                        t,
                    ));
                }
            }
            i = i + 1;
        }
        assert(read.take(i as int) =~= read);
    }

    /// Steps to where the walk goes next. It is over where there is nothing left to stand on.
    pub fn advance(&mut self) -> (res: bool)
        ensures
            final(self).edges() == old(self).edges(),
            final(self).frontier@ == old(self).next@,
            final(self).next@.len() == 0,
            res == (old(self).next@.len() > 0),
    {
        let mut next: Vec<String> = Vec::new();
        std::mem::swap(&mut next, &mut self.next);
        self.frontier = next;
        self.frontier.len() > 0
    }
}

/// A walk reports each fact once, and every fact that it read: reading the same edges again finds
/// nothing more.
pub proof fn law_walk_finds_each_fact_once(known: Seq<TripleView>, edges: Seq<TripleView>)
    requires
        known.no_duplicates(),
    ensures
        absorbed(known, edges).no_duplicates(),
        forall|e: TripleView|
            absorbed(known, edges).contains(e) <==> known.contains(e) || edges.contains(e),
        absorbed(absorbed(known, edges), edges) == absorbed(known, edges),
{
    lemma_absorbed(known, edges);
    lemma_nothing_new(absorbed(known, edges), edges);
}

proof fn lemma_absorbed(known: Seq<TripleView>, edges: Seq<TripleView>)
    requires
        known.no_duplicates(),
    ensures
        absorbed(known, edges).no_duplicates(),
        forall|e: TripleView|
            absorbed(known, edges).contains(e) <==> known.contains(e) || edges.contains(e),
    decreases edges.len(),
{
    if edges.len() > 0 {
        let rest = edges.drop_last();
        lemma_absorbed(known, rest);
        let before = absorbed(known, rest);
        let after = absorbed(known, edges);
        assert forall|e: TripleView| #[trigger] after.contains(e) <==> known.contains(e)
            || edges.contains(e) by {
            assert(edges.contains(e) <==> rest.contains(e) || e == edges.last()) by {
                if edges.contains(e) {
                    let i = choose|i: int| 0 <= i < edges.len() && edges[i] == e;
                    if i < rest.len() {
                        assert(rest[i] == e);
                    }
                }
                if rest.contains(e) {
                    let i = choose|i: int| 0 <= i < rest.len() && rest[i] == e;
                    assert(edges[i] == e);
                }
                assert(edges[edges.len() - 1] == edges.last());
            }
            assert(before.contains(e) <==> known.contains(e) || rest.contains(e));
            if !before.contains(edges.last()) {
                assert(after == before.push(edges.last()));
                if before.contains(e) {
                    let i = choose|i: int| 0 <= i < before.len() && before[i] == e;
                    assert(after[i] == e);
                }
                if after.contains(e) && e != edges.last() {
                    let i = choose|i: int| 0 <= i < after.len() && after[i] == e;
                    assert(before[i] == e);
                }
                assert(after[before.len() as int] == edges.last());
            }
        }
    }
}

proof fn lemma_nothing_new(known: Seq<TripleView>, edges: Seq<TripleView>)
    requires
        forall|e: TripleView| edges.contains(e) ==> known.contains(e),
    ensures
        absorbed(known, edges) == known,
    decreases edges.len(),
{
    if edges.len() > 0 {
        let rest = edges.drop_last();
        assert forall|e: TripleView| rest.contains(e) implies known.contains(e) by {
            let i = choose|i: int| 0 <= i < rest.len() && rest[i] == e;
            assert(edges[i] == e);
        }
        lemma_nothing_new(known, rest);
        assert(edges[edges.len() - 1] == edges.last());
        assert(edges.contains(edges.last()));
    }
}

proof fn lemma_absorbed_extends(known: Seq<TripleView>, edges: Seq<TripleView>)
    ensures
        known.len() <= absorbed(known, edges).len(),
        forall|i: int| 0 <= i < known.len() ==> #[trigger] absorbed(known, edges)[i] == known[i],
    decreases edges.len(),
{
    if edges.len() > 0 {
        lemma_absorbed_extends(known, edges.drop_last());
    }
}

/// Whether an entity is an endpoint of a fact.
pub open spec fn ends_at(f: TripleView, id: Seq<char>) -> bool {
    f.subject == id || f.object == id
}

/// Whether a path of `hops` facts leads from one of `ids` to an entity.
pub open spec fn reaches(
    facts: Set<TripleView>,
    ids: Set<Seq<char>>,
    hops: nat,
    id: Seq<char>,
) -> bool
    decreases hops,
{
    if hops == 0 {
        ids.contains(id)
    } else {
        exists|f: TripleView| #[trigger]
            facts.contains(f) && ends_at(f, id) && (reaches(
                facts,
                ids,
                (hops - 1) as nat,
                f.subject,
            ) || reaches(facts, ids, (hops - 1) as nat, f.object))
    }
}

/// Whether a fact lies within `hops` edges of one of `ids`: a shorter path leads to one of its
/// endpoints.
pub open spec fn lies_within(
    facts: Set<TripleView>,
    ids: Set<Seq<char>>,
    hops: nat,
    f: TripleView,
) -> bool {
    facts.contains(f) && exists|g: nat|
        g < hops && (#[trigger] reaches(facts, ids, g, f.subject) || reaches(
            facts,
            ids,
            g,
            f.object,
        ))
}

/// Whether a walk that reads, at each hop, the facts that touch where it stands has found a fact
/// after `hops` hops.
pub open spec fn found_after(
    facts: Set<TripleView>,
    ids: Set<Seq<char>>,
    hops: nat,
    f: TripleView,
) -> bool
    decreases hops, 0nat,
{
    hops > 0 && facts.contains(f) && (found_after(facts, ids, (hops - 1) as nat, f) || stands_on(
        facts,
        ids,
        (hops - 1) as nat,
        f.subject,
    ) || stands_on(facts, ids, (hops - 1) as nat, f.object))
}

/// Whether such a walk stands on an entity after `hops` hops: on an endpoint of what the last hop
/// found.
pub open spec fn stands_on(
    facts: Set<TripleView>,
    ids: Set<Seq<char>>,
    hops: nat,
    id: Seq<char>,
) -> bool
    decreases hops, 1nat,
{
    if hops == 0 {
        ids.contains(id)
    } else {
        exists|f: TripleView| #[trigger]
            ends_at(f, id) && found_after(facts, ids, hops, f) && !found_after(
                facts,
                ids,
                (hops - 1) as nat,
                f,
            )
    }
}

proof fn lemma_found_stays(
    facts: Set<TripleView>,
    ids: Set<Seq<char>>,
    g: nat,
    h: nat,
    f: TripleView,
)
    requires
        g <= h,
        found_after(facts, ids, g, f),
    ensures
        found_after(facts, ids, h, f),
    decreases h,
{
    if g < h {
        lemma_found_stays(facts, ids, g, (h - 1) as nat, f);
    }
}

proof fn lemma_stands_where_reached(
    facts: Set<TripleView>,
    ids: Set<Seq<char>>,
    hops: nat,
    id: Seq<char>,
)
    requires
        stands_on(facts, ids, hops, id),
    ensures
        reaches(facts, ids, hops, id),
    decreases hops,
{
    if hops > 0 {
        let h = (hops - 1) as nat;
        let f = choose|f: TripleView| #[trigger]
            ends_at(f, id) && found_after(facts, ids, hops, f) && !found_after(facts, ids, h, f);
        if stands_on(facts, ids, h, f.subject) {
            lemma_stands_where_reached(facts, ids, h, f.subject);
        } else {
            lemma_stands_where_reached(facts, ids, h, f.object);
        }
        assert(facts.contains(f) && ends_at(f, id));
    }
}

/// The hop at which a fact was first found.
proof fn lemma_first_found(
    facts: Set<TripleView>,
    ids: Set<Seq<char>>,
    hops: nat,
    f: TripleView,
) -> (g: nat)
    requires
        found_after(facts, ids, hops, f),
    ensures
        0 < g <= hops,
        found_after(facts, ids, g, f),
        !found_after(facts, ids, (g - 1) as nat, f),
    decreases hops,
{
    let h = (hops - 1) as nat;
    if found_after(facts, ids, h, f) {
        lemma_first_found(facts, ids, h, f)
    } else {
        hops
    }
}

/// An entity that a path reaches is one that the walk stood on by then.
proof fn lemma_reached_was_stood_on(
    facts: Set<TripleView>,
    ids: Set<Seq<char>>,
    hops: nat,
    id: Seq<char>,
) -> (g: nat)
    requires
        reaches(facts, ids, hops, id),
    ensures
        g <= hops,
        stands_on(facts, ids, g, id),
    decreases hops,
{
    if hops == 0 {
        0
    } else {
        let h = (hops - 1) as nat;
        let f = choose|f: TripleView| #[trigger]
            facts.contains(f) && ends_at(f, id) && (reaches(facts, ids, h, f.subject) || reaches(
                facts,
                ids,
                h,
                f.object,
            ));
        let g = if reaches(facts, ids, h, f.subject) {
            lemma_reached_was_stood_on(facts, ids, h, f.subject)
        } else {
            lemma_reached_was_stood_on(facts, ids, h, f.object)
        };
        assert(found_after(facts, ids, g + 1, f));
        lemma_found_stays(facts, ids, g + 1, hops, f);
        let first = lemma_first_found(facts, ids, hops, f);
        assert(found_after(facts, ids, first, f) && ends_at(f, id));
        first
    }
}

/// A walk finds exactly the facts within its hops, although it goes on only from what its last hop
/// found.
pub proof fn law_walk_finds_all_within_hops(
    facts: Set<TripleView>,
    ids: Set<Seq<char>>,
    hops: nat,
    f: TripleView,
)
    ensures
        found_after(facts, ids, hops, f) <==> lies_within(facts, ids, hops, f),
{
    if found_after(facts, ids, hops, f) {
        let first = lemma_first_found(facts, ids, hops, f);
        let g = (first - 1) as nat;
        assert(facts.contains(f));
        if stands_on(facts, ids, g, f.subject) {
            lemma_stands_where_reached(facts, ids, g, f.subject);
        } else {
            lemma_stands_where_reached(facts, ids, g, f.object);
        }
        assert(g < hops && (reaches(facts, ids, g, f.subject) || reaches(facts, ids, g, f.object)));
    }
    if lies_within(facts, ids, hops, f) {
        let g = choose|g: nat|
            g < hops && (#[trigger] reaches(facts, ids, g, f.subject) || reaches(
                facts,
                ids,
                g,
                f.object,
            ));
        let at = if reaches(facts, ids, g, f.subject) {
            lemma_reached_was_stood_on(facts, ids, g, f.subject)
        } else {
            lemma_reached_was_stood_on(facts, ids, g, f.object)
        };
        assert(found_after(facts, ids, at + 1, f));
        lemma_found_stays(facts, ids, at + 1, hops, f);
    }
}

/// One hop of a [`Walk`]: where it has found what a walk of `hops` hops finds, stands where that
/// walk stands, and takes in exactly the facts that touch this, it has found what a walk of one
/// hop more finds, and goes where that walk stands.
pub proof fn law_a_hop_extends_the_walk(
    facts: Set<TripleView>,
    ids: Set<Seq<char>>,
    hops: nat,
    known: Seq<TripleView>,
    nodes: Seq<Seq<char>>,
    edges: Seq<TripleView>,
)
    requires
        known.no_duplicates(),
        forall|f: TripleView| known.contains(f) <==> found_after(facts, ids, hops, f),
        forall|id: Seq<char>| nodes.contains(id) <==> stands_on(facts, ids, hops, id),
        forall|f: TripleView|
            edges.contains(f) <==> facts.contains(f) && (nodes.contains(f.subject)
                || nodes.contains(f.object)),
    ensures
        forall|f: TripleView|
            absorbed(known, edges).contains(f) <==> found_after(facts, ids, hops + 1, f),
        forall|id: Seq<char>|
            ends_from(absorbed(known, edges), known.len() as int, id) <==> stands_on(
                facts,
                ids,
                hops + 1,
                id,
            ),
{
    let after = absorbed(known, edges);
    lemma_absorbed(known, edges);
    lemma_absorbed_extends(known, edges);
    assert forall|f: TripleView| after.contains(f) <==> found_after(facts, ids, hops + 1, f) by {
        assert(known.contains(f) <==> found_after(facts, ids, hops, f));
        assert(edges.contains(f) <==> facts.contains(f) && (nodes.contains(f.subject)
            || nodes.contains(f.object)));
    }
    assert forall|id: Seq<char>|
        ends_from(after, known.len() as int, id) <==> stands_on(facts, ids, hops + 1, id) by {
        if ends_from(after, known.len() as int, id) {
            let i = choose|i: int|
                known.len() <= i < after.len() && ((#[trigger] after[i]).subject == id
                    || after[i].object == id);
            let f = after[i];
            assert(after.contains(f));
            if known.contains(f) {
                let j = choose|j: int| 0 <= j < known.len() && known[j] == f;
                assert(after[j] == f);
            }
            assert(found_after(facts, ids, hops + 1, f) && ends_at(f, id));
        }
        if stands_on(facts, ids, hops + 1, id) {
            let f = choose|f: TripleView| #[trigger]
                ends_at(f, id) && found_after(facts, ids, hops + 1, f) && !found_after(
                    facts,
                    ids,
                    hops,
                    f,
                );
            assert(after.contains(f));
            let i = choose|i: int| 0 <= i < after.len() && after[i] == f;
            if i < known.len() {
                assert(known[i] == f);
                assert(known.contains(f));
            }
        }
    }
}

/// Taking edges in one batch after another is taking them in at once.
pub proof fn law_batches_add_up(known: Seq<TripleView>, a: Seq<TripleView>, b: Seq<TripleView>)
    ensures
        absorbed(absorbed(known, a), b) == absorbed(known, a + b),
    decreases b.len(),
{
    if b.len() == 0 {
        assert(a + b =~= a);
    } else {
        law_batches_add_up(known, a, b.drop_last());
        assert((a + b).drop_last() =~= a + b.drop_last());
    }
}

} // verus!
