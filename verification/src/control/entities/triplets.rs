//! Control-plane triplet staging and replay reads.

use vstd::prelude::*;

use crate::control::db::DbError;
use crate::order::{key_views, ordered_pick, sort_picked};
use crate::rows::{lemma_filter_map, lemma_filter_places, remove_owned, Owned};
use crate::text::{copy_opt, opt_text, same};

verus! {

/// A triplet staged for storage: per-chunk evidence keyed by surface strings. Identity is the
/// content hash `triplet_id`, not the row contents.
#[derive(Debug, Clone)]
pub struct NewTriplet {
    /// The digest of the chunk, the subject, the predicate and the object.
    pub triplet_id: String,
    /// The chunk this evidence came from.
    pub chunk_id: String,
    /// Surface string: evidence, not identity.
    pub subject: String,
    /// Supertype discriminator.
    pub subject_type: String,
    /// Relation out of the closed predicate set.
    pub predicate: String,
    /// Surface string: evidence, not identity.
    pub object: String,
    /// Supertype discriminator.
    pub object_type: String,
    /// JSON properties, where there are any.
    pub properties: Option<String>,
    /// Extractor model and prompt version.
    pub model: String,
}

/// The model of a [`NewTriplet`].
#[verifier::ext_equal]
pub struct TripletView {
    pub triplet_id: Seq<char>,
    pub chunk_id: Seq<char>,
    pub subject: Seq<char>,
    pub subject_type: Seq<char>,
    pub predicate: Seq<char>,
    pub object: Seq<char>,
    pub object_type: Seq<char>,
    pub properties: Option<Seq<char>>,
    pub model: Seq<char>,
}

impl View for NewTriplet {
    type V = TripletView;

    open spec fn view(&self) -> TripletView {
        TripletView {
            triplet_id: self.triplet_id@,
            chunk_id: self.chunk_id@,
            subject: self.subject@,
            subject_type: self.subject_type@,
            predicate: self.predicate@,
            object: self.object@,
            object_type: self.object_type@,
            properties: opt_text(self.properties),
            model: self.model@,
        }
    }
}

/// A stored triplet, read back for the resume re-merge: a crash between staging and the graph write
/// heals by re-merging rows, never by paying for extraction again.
#[derive(Debug, Clone)]
pub struct TripletRow {
    /// The digest of the chunk, the subject, the predicate and the object.
    pub triplet_id: String,
    /// The evidence chunk.
    pub chunk_id: String,
    /// Surface subject string.
    pub subject: String,
    /// Supertype discriminator.
    pub subject_type: String,
    /// The relation discriminator.
    pub predicate: String,
    /// Surface object string.
    pub object: String,
    /// Supertype discriminator.
    pub object_type: String,
    /// JSON properties, where there are any.
    pub properties: Option<String>,
}

impl TripletRow {
    /// Whether the row tells of a stored triplet.
    pub open spec fn reads(self, t: TripletView) -> bool {
        &&& self.triplet_id@ == t.triplet_id
        &&& self.chunk_id@ == t.chunk_id
        &&& self.subject@ == t.subject
        &&& self.subject_type@ == t.subject_type
        &&& self.predicate@ == t.predicate
        &&& self.object@ == t.object
        &&& self.object_type@ == t.object_type
        &&& opt_text(self.properties) == t.properties
    }
}

/// A chunk of a document.
#[derive(Debug)]
pub struct ChunkRow {
    /// The chunk.
    pub chunk_id: String,
    /// The document.
    pub doc_id: String,
    /// The place of the chunk in the document.
    pub seq: i64,
    /// The text.
    pub text: String,
}

impl Owned for ChunkRow {
    open spec fn owner(self) -> Seq<char> {
        self.doc_id@
    }

    fn owned_by(&self, id: &str) -> bool {
        same(self.doc_id.as_str(), id)
    }
}

/// The model of a [`ChunkRow`].
#[verifier::ext_equal]
pub struct ChunkView {
    pub chunk_id: Seq<char>,
    pub doc_id: Seq<char>,
    pub seq: i64,
    pub text: Seq<char>,
}

impl View for ChunkRow {
    type V = ChunkView;

    open spec fn view(&self) -> ChunkView {
        ChunkView {
            chunk_id: self.chunk_id@,
            doc_id: self.doc_id@,
            seq: self.seq,
            text: self.text@,
        }
    }
}

/// The display text of a chunk.
#[derive(Debug, Clone)]
pub struct ChunkText {
    /// The chunk.
    pub chunk_id: String,
    /// The document.
    pub doc_id: String,
    /// The text.
    pub text: String,
}

/// Chunks and the triplets staged for them.
#[derive(Debug)]
pub struct TripletStore {
    /// The chunks.
    pub chunks: Vec<ChunkRow>,
    /// The staged triplets.
    pub triplets: Vec<NewTriplet>,
}

impl TripletStore {
    /// The models of the chunks.
    pub open spec fn chunk_list(self) -> Seq<ChunkView> {
        self.chunks@.map_values(|c: ChunkRow| c@)
    }

    /// The models of the staged triplets.
    pub open spec fn triplet_list(self) -> Seq<TripletView> {
        self.triplets@.map_values(|t: NewTriplet| t@)
    }
}

/// The models of a list of triplets.
pub open spec fn triplet_views(list: Seq<NewTriplet>) -> Seq<TripletView> {
    list.map_values(|t: NewTriplet| t@)
}

/// Whether a triplet is stored.
pub open spec fn has_triplet(stored: Seq<TripletView>, id: Seq<char>) -> bool {
    exists|i: int| 0 <= i < stored.len() && (#[trigger] stored[i]).triplet_id == id
}

/// The triplets of a batch that are new: neither stored nor earlier in the batch.
pub open spec fn fresh_of(stored: Seq<TripletView>, batch: Seq<TripletView>) -> Seq<TripletView>
    decreases batch.len(),
{
    if batch.len() == 0 {
        seq![]
    } else {
        let before = fresh_of(stored, batch.drop_last());
        if has_triplet(stored, batch.last().triplet_id) || has_triplet(
            before,
            batch.last().triplet_id,
        ) {
            before
        } else {
            before.push(batch.last())
        }
    }
}

fn copy_triplet(t: &NewTriplet) -> (res: NewTriplet)
    ensures
        res@ == t@,
{
    let res = NewTriplet {
        triplet_id: t.triplet_id.clone(),
        chunk_id: t.chunk_id.clone(),
        subject: t.subject.clone(),
        subject_type: t.subject_type.clone(),
        predicate: t.predicate.clone(),
        object: t.object.clone(),
        object_type: t.object_type.clone(),
        properties: copy_opt(&t.properties),
        model: t.model.clone(),
    };
    assert(res@ =~= t@);
    res
}

fn triplet_known(stored: &Vec<NewTriplet>, id: &str) -> (res: bool)
    ensures
        res == has_triplet(triplet_views(stored@), id@),
{
    let ghost all = triplet_views(stored@);
    let mut i: usize = 0;
    while i < stored.len()
        invariant
            i <= stored@.len(),
            all == triplet_views(stored@),
            forall|j: int| 0 <= j < i ==> (#[trigger] all[j]).triplet_id != id@,
        decreases stored@.len() - i,
    {
        assert(all[i as int] == stored@[i as int]@);
        if same(stored[i].triplet_id.as_str(), id) {
            return true;
        }
        i = i + 1;
    }
    false
}

proof fn lemma_has_triplet_add(a: Seq<TripletView>, b: Seq<TripletView>, id: Seq<char>)
    ensures
        has_triplet(a + b, id) == (has_triplet(a, id) || has_triplet(b, id)),
{
    let whole = a + b;
    if has_triplet(a, id) {
        let i = choose|i: int| 0 <= i < a.len() && (#[trigger] a[i]).triplet_id == id;
        assert(whole[i] == a[i]);
    }
    if has_triplet(b, id) {
        let i = choose|i: int| 0 <= i < b.len() && (#[trigger] b[i]).triplet_id == id;
        assert(whole[a.len() + i] == b[i]);
    }
    if has_triplet(whole, id) {
        let i = choose|i: int| 0 <= i < whole.len() && (#[trigger] whole[i]).triplet_id == id;
        if i < a.len() {
            assert(a[i] == whole[i]);
        } else {
            assert(b[i - a.len()] == whole[i]);
        }
    }
}

/// Whether one of the triplets speaks of a chunk that is not stored.
pub open spec fn orphaned(chunks: Seq<ChunkView>, triplets: Seq<TripletView>) -> bool {
    exists|i: int|
        0 <= i < triplets.len() && chunk_of(chunks, (#[trigger] triplets[i]).chunk_id) is None
}

fn fresh_triplets(stored: &Vec<NewTriplet>, batch: &Vec<NewTriplet>) -> (res: Vec<NewTriplet>)
    ensures
        triplet_views(res@) == fresh_of(triplet_views(stored@), triplet_views(batch@)),
{
    let ghost all = triplet_views(batch@);
    let ghost known = triplet_views(stored@);
    let mut fresh: Vec<NewTriplet> = Vec::new();
    let mut i: usize = 0;
    assert(triplet_views(fresh@) =~= fresh_of(known, all.take(0)));
    while i < batch.len()
        invariant
            i <= batch@.len(),
            all == triplet_views(batch@),
            known == triplet_views(stored@),
            triplet_views(fresh@) == fresh_of(known, all.take(i as int)),
        decreases batch@.len() - i,
    {
        let ghost done = triplet_views(fresh@);
        let t = &batch[i];
        assert(all.take(i + 1).drop_last() =~= all.take(i as int));
        assert(all.take(i + 1).last() == t@);
        if !triplet_known(stored, t.triplet_id.as_str()) && !triplet_known(
            &fresh,
            t.triplet_id.as_str(),
        ) {
            fresh.push(copy_triplet(t));
            assert(triplet_views(fresh@) =~= done.push(t@));
        }
        i = i + 1;
    }
    assert(all.take(i as int) =~= all);
    fresh
}

/// Stages triplets. A stored triplet is left as it is. Returns those that were newly stored: the
/// ones whose graph merge the caller must perform. Where one of them speaks of a chunk that is not
/// stored, nothing changes.
pub fn stage_triplets(store: &mut TripletStore, triplets: Vec<NewTriplet>) -> (res: Result<
    Vec<NewTriplet>,
    DbError,
>)
    ensures
        final(store).chunk_list() == old(store).chunk_list(),
        ({
            let fresh = fresh_of(old(store).triplet_list(), triplet_views(triplets@));
            if orphaned(old(store).chunk_list(), fresh) {
                &&& res is Err
                &&& res->Err_0 is Sqlite
                &&& final(store).triplet_list() == old(store).triplet_list()
            } else {
                &&& res is Ok
                &&& triplet_views(res->Ok_0@) == fresh
                &&& final(store).triplet_list() == old(store).triplet_list() + fresh
            }
        }),
{
    let ghost start = *store;
    let ghost stored = store.triplet_list();
    let fresh = fresh_triplets(&store.triplets, &triplets);
    let ghost new = triplet_views(fresh@);
    let mut i: usize = 0;
    while i < fresh.len()
        invariant
            i <= fresh@.len(),
            *store == start,
            start == *old(store),
            new == triplet_views(fresh@),
            new == fresh_of(start.triplet_list(), triplet_views(triplets@)),
            forall|j: int|
                0 <= j < i ==> chunk_of(store.chunk_list(), (#[trigger] new[j]).chunk_id) is Some,
        decreases fresh@.len() - i,
    {
        assert(new[i as int] == fresh@[i as int]@);
        if chunk_index(store, fresh[i].chunk_id.as_str()).is_none() {
            assert(orphaned(store.chunk_list(), new));
            return Err(DbError::Sqlite("FOREIGN KEY constraint failed".to_owned()));
        }
        i = i + 1;
    }
    let mut k: usize = 0;
    assert(store.triplet_list() =~= stored + new.take(0));
    while k < fresh.len()
        invariant
            k <= fresh@.len(),
            store.chunks == start.chunks,
            new == triplet_views(fresh@),
            store.triplet_list() == stored + new.take(k as int),
        decreases fresh@.len() - k,
    {
        let ghost before = store.triplet_list();
        assert(new[k as int] == fresh@[k as int]@);
        store.triplets.push(copy_triplet(&fresh[k]));
        assert(store.triplet_list() =~= before.push(new[k as int]));
        assert(new.take(k + 1) =~= new.take(k as int).push(new[k as int]));
        assert(store.triplet_list() =~= stored + new.take(k + 1));
        k = k + 1;
    }
    assert(new.take(k as int) =~= new);
    Ok(fresh)
}

/// Whether a chunk carries a triplet.
pub open spec fn covered(triplets: Seq<TripletView>, chunk_id: Seq<char>) -> bool {
    exists|i: int| 0 <= i < triplets.len() && (#[trigger] triplets[i]).chunk_id == chunk_id
}

/// The places of chunks in their documents.
pub open spec fn chunk_seqs(chunks: Seq<ChunkView>) -> Seq<i64> {
    chunks.map_values(|c: ChunkView| c.seq)
}

/// Which chunks of a document carry no triplet.
pub open spec fn uncovered(
    chunks: Seq<ChunkView>,
    triplets: Seq<TripletView>,
    doc_id: Seq<char>,
) -> Seq<bool> {
    chunks.map_values(|c: ChunkView| c.doc_id == doc_id && !covered(triplets, c.chunk_id))
}

/// Whether `res` lists the chunks of a document that carry no triplet, in their order.
pub open spec fn lists_uncovered(
    chunks: Seq<ChunkView>,
    triplets: Seq<TripletView>,
    doc_id: Seq<char>,
    res: Seq<ChunkText>,
) -> bool {
    exists|order: Seq<int>|
        {
            &&& #[trigger] ordered_pick::<i64>(
                chunk_seqs(chunks),
                uncovered(chunks, triplets, doc_id),
                order,
            )
            &&& res.len() == order.len()
            &&& forall|i: int|
                0 <= i < res.len() ==> {
                    &&& (#[trigger] res[i]).chunk_id@ == chunks[order[i]].chunk_id
                    &&& res[i].doc_id@ == doc_id
                    &&& res[i].text@ == chunks[order[i]].text
                }
        }
}

fn is_covered(store: &TripletStore, chunk_id: &str) -> (res: bool)
    ensures
        res == covered(store.triplet_list(), chunk_id@),
{
    let ghost all = store.triplet_list();
    let mut i: usize = 0;
    while i < store.triplets.len()
        invariant
            i <= store.triplets@.len(),
            all == store.triplet_list(),
            forall|j: int| 0 <= j < i ==> (#[trigger] all[j]).chunk_id != chunk_id@,
        decreases store.triplets@.len() - i,
    {
        assert(all[i as int] == store.triplets@[i as int]@);
        if same(store.triplets[i].chunk_id.as_str(), chunk_id) {
            return true;
        }
        i = i + 1;
    }
    false
}

/// The extraction checkpoint: the chunks of a document that carry no triplet yet, exactly those
/// still to be paid for.
pub fn chunks_without_triplets(store: &TripletStore, doc_id: &str) -> (res: Vec<ChunkText>)
    ensures
        lists_uncovered(store.chunk_list(), store.triplet_list(), doc_id@, res@),
{
    let ghost all = store.chunk_list();
    let ghost wanted_keys = chunk_seqs(all);
    let ghost wanted_pick = uncovered(all, store.triplet_list(), doc_id@);
    let mut keys: Vec<i64> = Vec::new();
    let mut pick: Vec<bool> = Vec::new();
    let mut i: usize = 0;
    while i < store.chunks.len()
        invariant
            i <= store.chunks@.len(),
            all == store.chunk_list(),
            wanted_keys == chunk_seqs(all),
            wanted_pick == uncovered(all, store.triplet_list(), doc_id@),
            key_views(keys@) == wanted_keys.take(i as int),
            pick@ == wanted_pick.take(i as int),
        decreases store.chunks@.len() - i,
    {
        let row = &store.chunks[i];
        assert(all[i as int] == row@);
        let ghost before = key_views(keys@);
        keys.push(row.seq);
        pick.push(same(row.doc_id.as_str(), doc_id) && !is_covered(store, row.chunk_id.as_str()));
        assert(key_views(keys@) =~= before.push(row.seq));
        i = i + 1;
        assert(key_views(keys@) =~= wanted_keys.take(i as int));
        assert(pick@ =~= wanted_pick.take(i as int));
    }
    assert(wanted_keys.take(i as int) =~= wanted_keys);
    assert(wanted_pick.take(i as int) =~= wanted_pick);
    assert(keys@.len() == key_views(keys@).len());
    let order = sort_picked(&keys, &pick);
    let ghost indices = order@.map_values(|i: usize| i as int);
    assert(ordered_pick::<i64>(wanted_keys, wanted_pick, indices));
    let mut res: Vec<ChunkText> = Vec::new();
    let mut k: usize = 0;
    while k < order.len()
        invariant
            k <= order@.len(),
            all == store.chunk_list(),
            indices == order@.map_values(|i: usize| i as int),
            forall|j: int| 0 <= j < order@.len() ==> #[trigger] order@[j] < store.chunks@.len(),
            res@.len() == k,
            forall|j: int|
                0 <= j < k ==> {
                    &&& (#[trigger] res@[j]).chunk_id@ == all[indices[j]].chunk_id
                    &&& res@[j].doc_id@ == doc_id@
                    &&& res@[j].text@ == all[indices[j]].text
                },
        decreases order@.len() - k,
    {
        let row = &store.chunks[order[k]];
        assert(all[order@[k as int] as int] == row@);
        res.push(
            ChunkText {
                chunk_id: row.chunk_id.clone(),
                doc_id: doc_id.to_owned(),
                text: row.text.clone(),
            },
        );
        k = k + 1;
    }
    res
}

/// The chunk of an id.
pub open spec fn chunk_of(chunks: Seq<ChunkView>, id: Seq<char>) -> Option<ChunkView>
    decreases chunks.len(),
{
    if chunks.len() == 0 {
        None
    } else if chunks[0].chunk_id == id {
        Some(chunks[0])
    } else {
        chunk_of(chunks.drop_first(), id)
    }
}

/// The place of the chunk of a triplet.
pub open spec fn triplet_seq(chunks: Seq<ChunkView>, t: TripletView) -> i64 {
    match chunk_of(chunks, t.chunk_id) {
        Some(c) => c.seq,
        None => 0,
    }
}

/// Whether a triplet comes from a document.
pub open spec fn comes_from(chunks: Seq<ChunkView>, t: TripletView, doc_id: Seq<char>) -> bool {
    match chunk_of(chunks, t.chunk_id) {
        Some(c) => c.doc_id == doc_id,
        None => false,
    }
}

/// The places of the chunks of triplets.
pub open spec fn triplet_seqs(chunks: Seq<ChunkView>, triplets: Seq<TripletView>) -> Seq<i64> {
    triplets.map_values(|t: TripletView| triplet_seq(chunks, t))
}

/// Which triplets come from a document.
pub open spec fn of_document(
    chunks: Seq<ChunkView>,
    triplets: Seq<TripletView>,
    doc_id: Seq<char>,
) -> Seq<bool> {
    triplets.map_values(|t: TripletView| comes_from(chunks, t, doc_id))
}

/// Whether `res` lists the triplets of a document in the order of its chunks.
pub open spec fn lists_triplets(
    chunks: Seq<ChunkView>,
    triplets: Seq<TripletView>,
    doc_id: Seq<char>,
    res: Seq<TripletRow>,
) -> bool {
    exists|order: Seq<int>|
        {
            &&& #[trigger] ordered_pick::<i64>(
                triplet_seqs(chunks, triplets),
                of_document(chunks, triplets, doc_id),
                order,
            )
            &&& res.len() == order.len()
            &&& forall|i: int|
                0 <= i < res.len() ==> (#[trigger] res[i]).reads(triplets[order[i]])
        }
}

fn chunk_index(store: &TripletStore, id: &str) -> (res: Option<usize>)
    ensures
        match res {
            Some(i) => i < store.chunks@.len() && chunk_of(store.chunk_list(), id@) == Some(
                store.chunks@[i as int]@,
            ),
            None => chunk_of(store.chunk_list(), id@) is None,
        },
{
    let ghost all = store.chunk_list();
    assert(all.skip(0) =~= all);
    let mut i: usize = 0;
    while i < store.chunks.len()
        invariant
            i <= store.chunks@.len(),
            all == store.chunk_list(),
            chunk_of(all, id@) == chunk_of(all.skip(i as int), id@),
        decreases store.chunks@.len() - i,
    {
        assert(all.skip(i as int)[0] == store.chunks@[i as int]@);
        assert(all.skip(i as int).drop_first() =~= all.skip(i + 1));
        if same(store.chunks[i].chunk_id.as_str(), id) {
            return Some(i);
        }
        i = i + 1;
    }
    None
}

/// Every triplet staged for a document, in chunk order.
pub fn triplets_of_doc(store: &TripletStore, doc_id: &str) -> (res: Vec<TripletRow>)
    ensures
        lists_triplets(store.chunk_list(), store.triplet_list(), doc_id@, res@),
{
    let ghost chunks = store.chunk_list();
    let ghost all = store.triplet_list();
    let ghost wanted_keys = triplet_seqs(chunks, all);
    let ghost wanted_pick = of_document(chunks, all, doc_id@);
    let mut keys: Vec<i64> = Vec::new();
    let mut pick: Vec<bool> = Vec::new();
    let mut i: usize = 0;
    while i < store.triplets.len()
        invariant
            i <= store.triplets@.len(),
            chunks == store.chunk_list(),
            all == store.triplet_list(),
            wanted_keys == triplet_seqs(chunks, all),
            wanted_pick == of_document(chunks, all, doc_id@),
            key_views(keys@) == wanted_keys.take(i as int),
            pick@ == wanted_pick.take(i as int),
        decreases store.triplets@.len() - i,
    {
        assert(all[i as int] == store.triplets@[i as int]@);
        let ghost before = key_views(keys@);
        let (place, hit): (i64, bool) = match chunk_index(
            store,
            store.triplets[i].chunk_id.as_str(),
        ) {
            Some(c) => (store.chunks[c].seq, same(store.chunks[c].doc_id.as_str(), doc_id)),
            None => (0, false),
        };
        keys.push(place);
        pick.push(hit);
        assert(key_views(keys@) =~= before.push(place));
        i = i + 1;
        assert(key_views(keys@) =~= wanted_keys.take(i as int));
        assert(pick@ =~= wanted_pick.take(i as int));
    }
    assert(wanted_keys.take(i as int) =~= wanted_keys);
    assert(wanted_pick.take(i as int) =~= wanted_pick);
    assert(keys@.len() == key_views(keys@).len());
    let order = sort_picked(&keys, &pick);
    let ghost indices = order@.map_values(|i: usize| i as int);
    assert(ordered_pick::<i64>(wanted_keys, wanted_pick, indices));
    let mut res: Vec<TripletRow> = Vec::new();
    let mut k: usize = 0;
    while k < order.len()
        invariant
            k <= order@.len(),
            all == store.triplet_list(),
            indices == order@.map_values(|i: usize| i as int),
            forall|j: int| 0 <= j < order@.len() ==> #[trigger] order@[j] < store.triplets@.len(),
            res@.len() == k,
            forall|j: int| 0 <= j < k ==> (#[trigger] res@[j]).reads(all[indices[j]]),
        decreases order@.len() - k,
    {
        let row = &store.triplets[order[k]];
        assert(all[order@[k as int] as int] == row@);
        res.push(
            TripletRow {
                triplet_id: row.triplet_id.clone(),
                chunk_id: row.chunk_id.clone(),
                subject: row.subject.clone(),
                subject_type: row.subject_type.clone(),
                predicate: row.predicate.clone(),
                object: row.object.clone(),
                object_type: row.object_type.clone(),
                properties: copy_opt(&row.properties),
            },
        );
        k = k + 1;
    }
    res
}

/// The chunks without those of a document.
pub open spec fn chunks_without(chunks: Seq<ChunkView>, doc_id: Seq<char>) -> Seq<ChunkView> {
    chunks.filter(|c: ChunkView| c.doc_id != doc_id)
}

/// The triplets without those that come from a document.
pub open spec fn triplets_without(
    chunks: Seq<ChunkView>,
    triplets: Seq<TripletView>,
    doc_id: Seq<char>,
) -> Seq<TripletView> {
    triplets.filter(|t: TripletView| !comes_from(chunks, t, doc_id))
}

/// Drops the chunks of a deleted document and the triplets that come from them.
pub fn forget_document(store: &mut TripletStore, doc_id: &str)
    ensures
        final(store).chunk_list() == chunks_without(old(store).chunk_list(), doc_id@),
        final(store).triplet_list() == triplets_without(
            old(store).chunk_list(),
            old(store).triplet_list(),
            doc_id@,
        ),
{
    let ghost start = *store;
    let ghost chunks = store.chunk_list();
    let ghost all = store.triplet_list();
    let ghost keep = |t: TripletView| !comes_from(chunks, t, doc_id@);
    let mut kept: Vec<NewTriplet> = Vec::new();
    let mut i: usize = 0;
    assert(triplet_views(kept@) =~= all.take(0).filter(keep)) by {
        reveal(Seq::filter);
    }
    while i < store.triplets.len()
        invariant
            i <= store.triplets@.len(),
            *store == start,
            chunks == store.chunk_list(),
            all == store.triplet_list(),
            keep == (|t: TripletView| !comes_from(chunks, t, doc_id@)),
            triplet_views(kept@) == all.take(i as int).filter(keep),
        decreases store.triplets@.len() - i,
    {
        let t = &store.triplets[i];
        let ghost done = triplet_views(kept@);
        assert(all[i as int] == t@);
        assert(all.take(i + 1).drop_last() =~= all.take(i as int));
        assert(all.take(i + 1).last() == t@);
        proof {
            reveal(Seq::filter);
        }
        let stays = match chunk_index(store, t.chunk_id.as_str()) {
            Some(c) => !same(store.chunks[c].doc_id.as_str(), doc_id),
            None => true,
        };
        assert(stays == keep(t@));
        if stays {
            kept.push(copy_triplet(t));
            assert(triplet_views(kept@) =~= done.push(t@));
        }
        i = i + 1;
    }
    assert(all.take(i as int) =~= all);
    store.triplets = kept;
    assert(store.triplet_list() == triplet_views(store.triplets@));
    remove_owned(&mut store.chunks, doc_id);
    proof {
        let view = |c: ChunkRow| c@;
        let kept_chunk = |c: ChunkView| c.doc_id != doc_id@;
        lemma_filter_map(start.chunks@, view, kept_chunk);
        assert((|c: ChunkRow| kept_chunk(view(c))) =~= (|c: ChunkRow| c.owner() != doc_id@));
    }
}

/// Of a forgotten document no triplet is left: none comes from it any more.
pub proof fn law_forgotten_document_has_no_triplets(
    chunks: Seq<ChunkView>,
    triplets: Seq<TripletView>,
    doc_id: Seq<char>,
    t: TripletView,
)
    requires
        triplets_without(chunks, triplets, doc_id).contains(t),
    ensures
        triplets.contains(t),
        !comes_from(chunks, t, doc_id),
        !comes_from(chunks_without(chunks, doc_id), t, doc_id),
{
    let keep = |t: TripletView| !comes_from(chunks, t, doc_id);
    let kept = triplets.filter(keep);
    let places = lemma_filter_places(triplets, keep);
    let i = choose|i: int| 0 <= i < kept.len() && kept[i] == t;
    assert(triplets[places[i]] == t && keep(t));
    lemma_kept_chunk(chunks, doc_id, t.chunk_id);
}

proof fn lemma_kept_chunk(chunks: Seq<ChunkView>, doc_id: Seq<char>, id: Seq<char>)
    ensures
        match chunk_of(chunks_without(chunks, doc_id), id) {
            Some(c) => c.doc_id != doc_id,
            None => true,
        },
{
    let places = lemma_filter_places(chunks, |c: ChunkView| c.doc_id != doc_id);
    let kept = chunks_without(chunks, doc_id);
    lemma_chunk_of_is_one(kept, id);
    if let Some(c) = chunk_of(kept, id) {
        let i = choose|i: int| 0 <= i < kept.len() && kept[i] == c;
        assert(chunks[places[i]] == c);
    }
}

proof fn lemma_chunk_of_is_one(chunks: Seq<ChunkView>, id: Seq<char>)
    ensures
        match chunk_of(chunks, id) {
            Some(c) => chunks.contains(c),
            None => true,
        },
    decreases chunks.len(),
{
    if chunks.len() > 0 {
        if chunks[0].chunk_id == id {
            assert(chunks.contains(chunks[0]));
        } else {
            lemma_chunk_of_is_one(chunks.drop_first(), id);
            if let Some(c) = chunk_of(chunks.drop_first(), id) {
                let i = choose|i: int| 0 <= i < chunks.drop_first().len() && chunks.drop_first()[i] == c;
                assert(chunks[i + 1] == c);
            }
        }
    }
}

/// Staging a batch a second time stores nothing and returns nothing.
pub proof fn law_staging_replay_is_a_noop(stored: Seq<TripletView>, batch: Seq<TripletView>)
    ensures
        fresh_of(stored + fresh_of(stored, batch), batch) == Seq::<TripletView>::empty(),
{
    let after = stored + fresh_of(stored, batch);
    assert forall|i: int| 0 <= i < batch.len() implies has_triplet(
        after,
        (#[trigger] batch[i]).triplet_id,
    ) by {
        lemma_batch_stored(stored, batch, i);
        lemma_has_triplet_add(stored, fresh_of(stored, batch), batch[i].triplet_id);
    }
    lemma_nothing_fresh(after, batch);
}

proof fn lemma_batch_stored(stored: Seq<TripletView>, batch: Seq<TripletView>, i: int)
    requires
        0 <= i < batch.len(),
    ensures
        has_triplet(stored, batch[i].triplet_id) || has_triplet(
            fresh_of(stored, batch),
            batch[i].triplet_id,
        ),
    decreases batch.len(),
{
    let before = fresh_of(stored, batch.drop_last());
    let now = fresh_of(stored, batch);
    if i < batch.len() - 1 {
        lemma_batch_stored(stored, batch.drop_last(), i);
        if has_triplet(before, batch[i].triplet_id) {
            let k = choose|k: int|
                0 <= k < before.len() && (#[trigger] before[k]).triplet_id == batch[i].triplet_id;
            assert(now[k] == before[k]);
        }
    } else if now != before {
        assert(now[before.len() as int] == batch.last());
    }
}

proof fn lemma_nothing_fresh(stored: Seq<TripletView>, batch: Seq<TripletView>)
    requires
        forall|i: int|
            0 <= i < batch.len() ==> has_triplet(stored, (#[trigger] batch[i]).triplet_id),
    ensures
        fresh_of(stored, batch) == Seq::<TripletView>::empty(),
    decreases batch.len(),
{
    if batch.len() > 0 {
        let rest = batch.drop_last();
        assert forall|i: int| 0 <= i < rest.len() implies has_triplet(
            stored,
            (#[trigger] rest[i]).triplet_id,
        ) by {
            assert(rest[i] == batch[i]);
        }
        lemma_nothing_fresh(stored, rest);
        assert(has_triplet(stored, batch[batch.len() - 1].triplet_id));
    }
}

/// What a batch adds is told apart by id: a triplet of the batch is new exactly where no stored one has its
/// id, of several with one id the first is taken, and each new triplet is one of the batch.
pub proof fn law_new_triplets_are_told_apart_by_id(
    stored: Seq<TripletView>,
    batch: Seq<TripletView>,
    id: Seq<char>,
)
    ensures
        has_triplet(fresh_of(stored, batch), id) <==> has_triplet(batch, id) && !has_triplet(stored, id),
        forall|t: TripletView| #[trigger] fresh_of(stored, batch).contains(t) ==> batch.contains(t),
        forall|i: int, j: int|
            0 <= i < j < fresh_of(stored, batch).len() ==> (#[trigger] fresh_of(
                stored,
                batch,
            )[i]).triplet_id != (#[trigger] fresh_of(stored, batch)[j]).triplet_id,
    decreases batch.len(),
{
    let fresh = fresh_of(stored, batch);
    if batch.len() > 0 {
        let rest = batch.drop_last();
        let last = batch.last();
        let before = fresh_of(stored, rest);
        law_new_triplets_are_told_apart_by_id(stored, rest, id);
        law_new_triplets_are_told_apart_by_id(stored, rest, last.triplet_id);
        assert(rest.push(last) =~= batch);
        crate::text::lemma_push_contains(rest, last);
        crate::text::lemma_push_contains(before, last);
        assert(has_triplet(batch, id) <==> has_triplet(rest, id) || last.triplet_id == id) by {
            if has_triplet(rest, id) {
                let k = choose|k: int| 0 <= k < rest.len() && (#[trigger] rest[k]).triplet_id == id;
                assert(batch[k] == rest[k]);
            }
            if last.triplet_id == id {
                assert(batch[batch.len() - 1].triplet_id == id);
            }
            if has_triplet(batch, id) && last.triplet_id != id {
                let k = choose|k: int| 0 <= k < batch.len() && (#[trigger] batch[k]).triplet_id == id;
                assert(rest[k] == batch[k]);
            }
        }
        if fresh != before {
            assert(has_triplet(fresh, id) <==> has_triplet(before, id) || last.triplet_id == id) by {
                if has_triplet(before, id) {
                    let k = choose|k: int|
                        0 <= k < before.len() && (#[trigger] before[k]).triplet_id == id;
                    assert(fresh[k] == before[k]);
                }
                if last.triplet_id == id {
                    assert(fresh[fresh.len() - 1].triplet_id == id);
                }
                if has_triplet(fresh, id) && last.triplet_id != id {
                    let k = choose|k: int|
                        0 <= k < fresh.len() && (#[trigger] fresh[k]).triplet_id == id;
                    assert(before[k] == fresh[k]);
                }
            }
        }
    }
}

/// The checkpoint lists what is still to be paid for: exactly the chunks of the document that no triplet
/// speaks of, with their texts, in the order of the document.
pub proof fn law_checkpoint_lists_unpaid_chunks(
    chunks: Seq<ChunkView>,
    triplets: Seq<TripletView>,
    doc_id: Seq<char>,
    res: Seq<ChunkText>,
    i: int,
    a: int,
    b: int,
)
    requires
        lists_uncovered(chunks, triplets, doc_id, res),
    ensures
        0 <= i < chunks.len() && chunks[i].doc_id == doc_id && (forall|t: int|
            0 <= t < triplets.len() ==> (#[trigger] triplets[t]).chunk_id != chunks[i].chunk_id)
            ==> exists|k: int|
            {
                &&& 0 <= k < res.len()
                &&& (#[trigger] res[k]).chunk_id@ == chunks[i].chunk_id
                &&& res[k].text@ == chunks[i].text
            },
        0 <= a < res.len() ==> res[a].doc_id@ == doc_id && forall|t: int|
            0 <= t < triplets.len() ==> (#[trigger] triplets[t]).chunk_id != res[a].chunk_id@,
        0 <= a < b < res.len() ==> exists|x: int, y: int|
            {
                &&& 0 <= x < chunks.len() && 0 <= y < chunks.len() && x != y
                &&& (#[trigger] chunks[x]).chunk_id == res[a].chunk_id@ && chunks[x].doc_id == doc_id
                &&& (#[trigger] chunks[y]).chunk_id == res[b].chunk_id@ && chunks[y].doc_id == doc_id
                &&& chunks[x].seq <= chunks[y].seq
            },
{
    let (keys, pick) = (chunk_seqs(chunks), uncovered(chunks, triplets, doc_id));
    let order = choose|order: Seq<int>|
        {
            &&& #[trigger] ordered_pick::<i64>(keys, pick, order)
            &&& res.len() == order.len()
            &&& forall|i: int|
                0 <= i < res.len() ==> {
                    &&& (#[trigger] res[i]).chunk_id@ == chunks[order[i]].chunk_id
                    &&& res[i].doc_id@ == doc_id
                    &&& res[i].text@ == chunks[order[i]].text
                }
        };
    if 0 <= i < chunks.len() && chunks[i].doc_id == doc_id && !covered(triplets, chunks[i].chunk_id) {
        assert(pick[i]);
        assert(order.contains(i));
        let k = choose|k: int| 0 <= k < order.len() && order[k] == i;
        assert(res[k].chunk_id@ == chunks[i].chunk_id);
    }
    if 0 <= a < res.len() {
        assert(order.contains(order[a]));
        assert(pick[order[a]]);
        assert(!covered(triplets, res[a].chunk_id@));
    }
    if 0 <= a < b < res.len() {
        assert(order.contains(order[a]) && order.contains(order[b]));
        assert(crate::order::row_before::<i64>(keys, order[a], order[b]));
        let (x, y) = (order[a], order[b]);
        assert(pick[x] && pick[y]);
        assert(chunks[x].chunk_id == res[a].chunk_id@ && chunks[y].chunk_id == res[b].chunk_id@);
        assert(keys[x] == chunks[x].seq && keys[y] == chunks[y].seq);
    }
}

/// Staging triplets stores each that is new, once, behind what was stored, and answers with those; a triplet
/// whose chunk is unknown stops the whole batch, and nothing is stored of it. A forgotten document leaves
/// no chunk, and another's chunks stay.
pub proof fn law_staging_stores_what_is_new(
    store: &mut TripletStore,
    batch: Vec<NewTriplet>,
    res: Result<Vec<NewTriplet>, DbError>,
    i: int,
    forgotten: &mut TripletStore,
    doc_id: &str,
    c: ChunkView,
)
    requires
        call_ensures(stage_triplets, (store, batch), res),
        call_ensures(forget_document, (forgotten, doc_id), ()),
    ensures
        res is Err ==> final(store).triplet_list() == old(store).triplet_list(),
        res matches Ok(fresh) ==> final(store).triplet_list() == old(store).triplet_list()
            + triplet_views(fresh@),
        res is Ok && 0 <= i < batch@.len() ==> has_triplet(
            final(store).triplet_list(),
            batch@[i]@.triplet_id,
        ),
        res matches Ok(fresh) ==> 0 <= i < fresh@.len() ==> triplet_views(batch@).contains(fresh@[i]@)
            && !has_triplet(old(store).triplet_list(), fresh@[i]@.triplet_id),
        final(forgotten).chunk_list().contains(c) <==> old(forgotten).chunk_list().contains(c)
            && c.doc_id != doc_id@,
{
    let stored = old(store).triplet_list();
    let views = triplet_views(batch@);
    crate::rows::lemma_filter_kept(old(forgotten).chunk_list(), |x: ChunkView| x.doc_id != doc_id@);
    if res is Ok {
        let fresh = fresh_of(stored, views);
        if 0 <= i < batch@.len() {
            assert(views[i] == batch@[i]@);
            lemma_fresh_covers(stored, views, i);
            let id = views[i].triplet_id;
            let all = stored + fresh;
            if has_triplet(stored, id) {
                let k = choose|k: int| 0 <= k < stored.len() && (#[trigger] stored[k]).triplet_id == id;
                assert(all[k] == stored[k]);
            } else {
                let k = choose|k: int| 0 <= k < fresh.len() && (#[trigger] fresh[k]).triplet_id == id;
                assert(all[stored.len() + k] == fresh[k]);
            }
        }
        if 0 <= i < fresh.len() {
            lemma_fresh_is_new(stored, views, i);
            assert(triplet_views(res->Ok_0@)[i] == res->Ok_0@[i]@);
        }
        assert(triplet_views(res->Ok_0@).len() == res->Ok_0@.len());
    }
}

proof fn lemma_fresh_covers(stored: Seq<TripletView>, batch: Seq<TripletView>, i: int)
    requires
        0 <= i < batch.len(),
    ensures
        has_triplet(stored, batch[i].triplet_id) || has_triplet(
            fresh_of(stored, batch),
            batch[i].triplet_id,
        ),
    decreases batch.len(),
{
    let front = batch.drop_last();
    let before = fresh_of(stored, front);
    let after = fresh_of(stored, batch);
    if i < front.len() {
        assert(front[i] == batch[i]);
        lemma_fresh_covers(stored, front, i);
        let id = batch[i].triplet_id;
        if has_triplet(before, id) {
            let k = choose|k: int| 0 <= k < before.len() && (#[trigger] before[k]).triplet_id == id;
            assert(after[k] == before[k]);
        }
    } else if after != before {
        assert(after[before.len() as int] == batch.last());
    }
}

proof fn lemma_fresh_is_new(stored: Seq<TripletView>, batch: Seq<TripletView>, i: int)
    requires
        0 <= i < fresh_of(stored, batch).len(),
    ensures
        batch.contains(fresh_of(stored, batch)[i]),
        !has_triplet(stored, fresh_of(stored, batch)[i].triplet_id),
    decreases batch.len(),
{
    let front = batch.drop_last();
    let before = fresh_of(stored, front);
    let after = fresh_of(stored, batch);
    if i < before.len() {
        lemma_fresh_is_new(stored, front, i);
        assert(after[i] == before[i]);
        let k = choose|k: int| 0 <= k < front.len() && front[k] == before[i];
        assert(batch[k] == front[k]);
    } else {
        assert(batch[batch.len() - 1] == after[i]);
    }
}

} // verus!
