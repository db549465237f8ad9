//! Retrieval signals: the full-text and graph-path evidence for a question, and the candidates that
//! they and the vector store make together.
//!
//! Scores are carried by the bits of their IEEE 754 single. How a score is computed from counts, and
//! how three scores are fused into one, is arithmetic on such singles and is left to the caller.

use vstd::prelude::*;
use vstd::string::StringExecFns;
use vstd::utf8::{decode_utf8, valid_utf8};

use super::{chunk_of, point_to_chunk, QdrantPoint, QueryChunk};
use crate::assoc::{
    assoc, lemma_assoc, lemma_assoc_absent, lemma_assoc_push, lemma_assoc_update, unique_keys,
};
use crate::ranking::{rank, scored_views, top_ranked, Scored};
use crate::reply::{first_rows_within, rows_within, Body, Reply};
use crate::text::{
    ascending, chars_of, contains_text, decimal_signed, decimal_signed_string, find_by,
    insert_ascending, is_alphanumeric, lemma_find_by, lemma_find_by_unique, lemma_trim_start_by,
    lemma_trim_start_props, parse_u64, same, string_of, texts, to_lowercase, trim_start_by,
    unicode_alphanumeric, unicode_lowercase, unsigned_value, utf8_string,
};

verus! {

/// How many rows the graph is asked for.
pub const GRAPH_ROW_LIMIT: usize = 10_000;

/// The bits of the score 1.
pub const UNIT_BITS: u32 = 0x3f80_0000;

// ---------------------------------------------------------------------------------------------
// Terms.
// ---------------------------------------------------------------------------------------------
/// Whether a character separates terms.
pub open spec fn separator() -> spec_fn(char) -> bool {
    |c: char| !unicode_alphanumeric(c)
}

/// The maximal runs of letters and digits of a text.
pub open spec fn runs(s: Seq<char>) -> Seq<Seq<char>>
    decreases s.len(),
    via runs_decreases
{
    let t = trim_start_by(s, separator());
    let n = find_by(t, separator());
    if t.len() == 0 {
        seq![]
    } else {
        seq![t.take(n)] + runs(t.skip(n))
    }
}

#[via_fn]
proof fn runs_decreases(s: Seq<char>) {
    lemma_trim_start_props(s, separator());
    let t = trim_start_by(s, separator());
    lemma_find_by(t, separator());
}

/// Whether a text has a term: a run of more than one letter or digit, in lower case.
pub open spec fn has_term(s: Seq<char>, term: Seq<char>) -> bool {
    exists|i: int|
        0 <= i < runs(s).len() && (#[trigger] runs(s)[i]).len() > 1 && unicode_lowercase(runs(s)[i])
            == term
}

/// Whether a list holds the terms of a text, each once, in order.
pub open spec fn are_terms(s: Seq<char>, list: Seq<Seq<char>>) -> bool {
    &&& ascending(list)
    &&& forall|t: Seq<char>| #[trigger] list.contains(t) <==> has_term(s, t)
}

fn runs_of(s: &str) -> (res: Vec<String>)
    ensures
        texts(res@) == runs(s@),
{
    let v = chars_of(s);
    let n: usize = v.len();
    let mut res: Vec<String> = Vec::new();
    let mut lo: usize = 0;
    assert(v@.subrange(0, n as int) =~= s@);
    assert(texts(res@) + runs(s@) =~= runs(s@));
    loop
        invariant
            lo <= n == v@.len(),
            texts(res@) + runs(v@.subrange(lo as int, n as int)) == runs(s@),
        decreases n - lo,
    {
        let ghost rest = v@.subrange(lo as int, n as int);
        let ghost before = texts(res@);
        let mut a: usize = lo;
        while a < n && !is_alphanumeric(v[a])
            invariant
                lo <= a <= n == v@.len(),
                forall|i: int| lo <= i < a ==> !unicode_alphanumeric(#[trigger] v@[i]),
            decreases n - a,
        {
            a = a + 1;
        }
        proof {
            lemma_trim_start_by(rest, separator(), a - lo);
            assert(rest.skip(a - lo) =~= v@.subrange(a as int, n as int));
        }
        if a == n {
            assert(runs(rest) =~= seq![]);
            assert(before + seq![] =~= before);
            return res;
        }
        let mut b: usize = a;
        while b < n && is_alphanumeric(v[b])
            invariant
                a <= b <= n == v@.len(),
                forall|i: int| a <= i < b ==> unicode_alphanumeric(#[trigger] v@[i]),
            decreases n - b,
        {
            b = b + 1;
        }
        let ghost t = v@.subrange(a as int, n as int);
        proof {
            lemma_find_by_unique(t, separator(), b - a);
        }
        let piece = string_of(v.as_slice(), a, b);
        res.push(piece);
        assert(texts(res@) =~= before.push(piece@));
        assert(t.take(b - a) =~= piece@);
        proof {
            let next = v@.subrange(b as int, n as int);
            assert(t.skip(b - a) =~= next);
            assert(before + (seq![piece@] + runs(next)) =~= texts(res@) + runs(next));
        }
        lo = b;
    }
}

fn longer_than_one(s: &str) -> (res: bool)
    ensures
        res == (s@.len() > 1),
{
    chars_of(s).len() > 1
}

/// The distinct terms of a text, in order.
pub fn unique_terms(value: &str) -> (res: Vec<String>)
    ensures
        are_terms(value@, texts(res@)),
{
    let pieces = runs_of(value);
    let ghost all = runs(value@);
    let mut res: Vec<String> = Vec::new();
    let mut i: usize = 0;
    assert(texts(res@) =~= seq![]);
    while i < pieces.len()
        invariant
            i <= pieces@.len(),
            all == runs(value@),
            all == texts(pieces@),
            ascending(texts(res@)),
            forall|t: Seq<char>| #[trigger]
                texts(res@).contains(t) <==> exists|k: int|
                    0 <= k < i && (#[trigger] all[k]).len() > 1 && unicode_lowercase(all[k]) == t,
        decreases pieces@.len() - i,
    {
        let ghost before = texts(res@);
        assert(all[i as int] == pieces@[i as int]@);
        if longer_than_one(pieces[i].as_str()) {
            let term = to_lowercase(pieces[i].as_str());
            insert_ascending(&mut res, term);
            proof {
                assert forall|t: Seq<char>| #[trigger]
                    texts(res@).contains(t) <==> exists|k: int|
                        0 <= k < i + 1 && (#[trigger] all[k]).len() > 1 && unicode_lowercase(all[k])
                            == t by {
                    assert(texts(res@).contains(t) <==> before.contains(t) || t == term@);
                    if t == term@ {
                        assert(unicode_lowercase(all[i as int]) == t);
                    }
                }
            }
        }
        i = i + 1;
    }
    res
}

/// How many terms of one text another text has.
pub open spec fn shared(terms: Seq<Seq<char>>, other: Seq<char>) -> nat
    decreases terms.len(),
{
    if terms.len() == 0 {
        0
    } else {
        shared(terms.drop_last(), other) + if has_term(other, terms.last()) {
            1nat
        } else {
            0nat
        }
    }
}

fn count_shared(terms: &Vec<String>, other: &str) -> (res: usize)
    ensures
        res == shared(texts(terms@), other@),
        res <= terms@.len(),
{
    let list = unique_terms(other);
    let ghost all = texts(terms@);
    let mut res: usize = 0;
    let mut i: usize = 0;
    assert(all.take(0) =~= seq![]);
    while i < terms.len()
        invariant
            i <= terms@.len(),
            all == texts(terms@),
            are_terms(other@, texts(list@)),
            res <= i,
            res == shared(all.take(i as int), other@),
        decreases terms@.len() - i,
    {
        assert(all.take(i + 1).drop_last() =~= all.take(i as int));
        assert(all.take(i + 1).last() == terms@[i as int]@);
        if contains_text(&list, terms[i].as_str()) {
            res = res + 1;
        }
        i = i + 1;
    }
    assert(all.take(i as int) =~= all);
    res
}

/// A count as it enters a score: no larger than sixteen bits hold.
pub open spec fn bounded(n: nat) -> u16 {
    if n > u16::MAX {
        u16::MAX
    } else {
        n as u16
    }
}

fn bound(n: usize) -> (res: u16)
    ensures
        res == bounded(n as nat),
{
    if n > u16::MAX as usize {
        u16::MAX
    } else {
        n as u16
    }
}

// ---------------------------------------------------------------------------------------------
// Full text.
// ---------------------------------------------------------------------------------------------
/// A chunk of the index.
#[derive(Debug)]
pub struct IndexedChunk {
    /// The chunk.
    pub chunk_id: String,
    /// The title of its document.
    pub title: String,
    /// Its text.
    pub text: String,
}

/// The model of an [`IndexedChunk`].
#[verifier::ext_equal]
pub struct IndexedView {
    pub chunk_id: Seq<char>,
    pub title: Seq<char>,
    pub text: Seq<char>,
}

impl View for IndexedChunk {
    type V = IndexedView;

    open spec fn view(&self) -> IndexedView {
        IndexedView { chunk_id: self.chunk_id@, title: self.title@, text: self.text@ }
    }
}

/// The map that chunks make by their ids; of chunks with one id the last counts.
pub open spec fn index_of(v: Seq<IndexedChunk>) -> Map<Seq<char>, IndexedView>
    decreases v.len(),
{
    if v.len() == 0 {
        Map::empty()
    } else {
        index_of(v.drop_last()).insert(v.last().chunk_id@, v.last()@)
    }
}

/// How many terms a question has, and how many of them the text and the title of a chunk have; each
/// count no larger than sixteen bits hold.
#[derive(Debug, Clone, Copy, PartialEq, Eq, Structural)]
pub struct TextMatch {
    /// The terms of the question.
    pub terms: u16,
    /// Those that the text has.
    pub body: u16,
    /// Those that the title has.
    pub title: u16,
}

/// Whether counts tell how a chunk matches a question.
pub open spec fn matches_text(question: Seq<char>, text: Seq<char>, title: Seq<char>, m: TextMatch) -> bool {
    exists|terms: Seq<Seq<char>>| #[trigger]
        are_terms(question, terms) && m.terms == bounded(terms.len()) && m.body == bounded(
            shared(terms, text),
        ) && m.title == bounded(shared(terms, title))
}

/// Counts how a chunk matches a question.
pub fn text_match(question: &str, chunk: &IndexedChunk) -> (res: TextMatch)
    ensures
        matches_text(question@, chunk.text@, chunk.title@, res),
{
    let terms = unique_terms(question);
    let body: usize = count_shared(&terms, chunk.text.as_str());
    let title: usize = count_shared(&terms, chunk.title.as_str());
    let res = TextMatch { terms: bound(terms.len()), body: bound(body), title: bound(title) };
    assert(texts(terms@).len() == terms@.len());
    assert(are_terms(question@, texts(terms@)));
    res
}

/// Whether bits are those of a score above zero.
pub open spec fn is_positive(bits: u32) -> bool {
    0 < bits <= 0x7f80_0000
}

/// The items with a score above zero.
pub open spec fn positive(items: Seq<(u32, Seq<char>)>) -> Seq<(u32, Seq<char>)>
    decreases items.len(),
{
    if items.len() == 0 {
        seq![]
    } else if is_positive(items.last().0) {
        positive(items.drop_last()).push(items.last())
    } else {
        positive(items.drop_last())
    }
}

/// Ranks the chunks of the index by their full-text scores; those without a match are left out.
pub fn rank_full_text(scores: Vec<Scored>, limit: usize) -> (res: Vec<Scored>)
    ensures
        scored_views(res@) == top_ranked(positive(scored_views(scores@)), limit as nat),
{
    let ghost all = scored_views(scores@);
    let mut kept: Vec<Scored> = Vec::new();
    let mut i: usize = 0;
    assert(all.take(0) =~= seq![]);
    assert(scored_views(kept@) =~= seq![]);
    while i < scores.len()
        invariant
            i <= scores@.len(),
            all == scored_views(scores@),
            scored_views(kept@) == positive(all.take(i as int)),
        decreases scores@.len() - i,
    {
        let s = &scores[i];
        assert(all.take(i + 1).drop_last() =~= all.take(i as int));
        assert(all.take(i + 1).last() == s@);
        if 0 < s.bits && s.bits <= 0x7f80_0000 {
            let ghost before = scored_views(kept@);
            let item = Scored { id: s.id.clone(), bits: s.bits };
            kept.push(item);
            assert(scored_views(kept@) =~= before.push(s@));
        }
        i = i + 1;
    }
    assert(all.take(i as int) =~= all);
    rank(kept, limit)
}

// ---------------------------------------------------------------------------------------------
// Graph paths.
// ---------------------------------------------------------------------------------------------
/// A path from a chunk to an entity that it mentions.
#[derive(Debug)]
pub struct GraphPath {
    /// The chunk.
    pub chunk_id: String,
    /// The name of the entity.
    pub entity_name: String,
    /// The length of the path.
    pub length: usize,
}

/// The model of a [`GraphPath`].
#[verifier::ext_equal]
pub struct GraphPathView {
    pub chunk_id: Seq<char>,
    pub entity_name: Seq<char>,
    pub length: int,
}

impl View for GraphPath {
    type V = GraphPathView;

    open spec fn view(&self) -> GraphPathView {
        GraphPathView {
            chunk_id: self.chunk_id@,
            entity_name: self.entity_name@,
            length: self.length as int,
        }
    }
}

/// The models of paths.
pub open spec fn path_views(v: Seq<GraphPath>) -> Seq<GraphPathView> {
    v.map_values(|p: GraphPath| p@)
}

/// The query for the paths from chunks to the entities that they mention.
pub fn graph_query() -> (res: &'static str)
    ensures
        res@
            == "MATCH p=(c:Chunk)-[:MENTIONS]->(e:Entity) RETURN c.id, e.name, length(p) LIMIT 10000"@,
{
    "MATCH p=(c:Chunk)-[:MENTIONS]->(e:Entity) RETURN c.id, e.name, length(p) LIMIT 10000"
}

fn find_rows<'a>(value: &'a Reply) -> (res: Option<&'a Vec<Reply>>)
    ensures
        match res {
            Some(rows) => rows_within(*value) == Some(rows@),
            None => rows_within(*value) is None,
        },
    decreases value, 0int,
{
    match &value.body {
        Body::Array(items) => {
            let mut lists = items.len() > 0;
            let mut i: usize = 0;
            while i < items.len() && lists
                invariant
                    i <= items@.len(),
                    lists ==> items@.len() > 0,
                    lists ==> forall|j: int| 0 <= j < i ==> (#[trigger] items@[j]).body is Array,
                    !lists ==> items@.len() == 0 || exists|j: int|
                        0 <= j < items@.len() && !((#[trigger] items@[j]).body is Array),
                decreases items@.len() - i,
            {
                match &items[i].body {
                    Body::Array(_) => {},
                    _ => {
                        assert(!(items@[i as int].body is Array));
                        lists = false;
                    },
                }
                i = i + 1;
            }
            if lists {
                Some(items)
            } else {
                find_first_rows(items, 0)
            }
        },
        _ => None,
    }
}

fn find_first_rows<'a>(items: &'a Vec<Reply>, i: usize) -> (res: Option<&'a Vec<Reply>>)
    requires
        i <= items@.len(),
    ensures
        match res {
            Some(rows) => first_rows_within(*items, i as int) == Some(rows@),
            None => first_rows_within(*items, i as int) is None,
        },
    decreases items, items@.len() - i,
{
    if i >= items.len() {
        None
    } else {
        match find_rows(&items[i]) {
            Some(rows) => Some(rows),
            None => find_first_rows(items, i + 1),
        }
    }
}

/// The text of a scalar.
pub open spec fn scalar_text(body: Body) -> Option<Seq<char>> {
    match body {
        Body::Bulk(bytes) => if valid_utf8(bytes@) {
            Some(decode_utf8(bytes@))
        } else {
            None
        },
        Body::Simple(s) => Some(s@),
        Body::Verbatim(s) => Some(s@),
        Body::Int(n) => Some(decimal_signed(n as int)),
        _ => None,
    }
}

fn value_string(value: &Reply) -> (res: Option<String>)
    ensures
        crate::text::opt_text(res) == scalar_text(value.body),
{
    match &value.body {
        Body::Bulk(bytes) => match utf8_string(bytes) {
            Ok(s) => Some(s),
            Err(_) => None,
        },
        Body::Simple(s) => Some(s.clone()),
        Body::Verbatim(s) => Some(s.clone()),
        Body::Int(n) => Some(decimal_signed_string(*n)),
        _ => None,
    }
}

/// The unsigned number of a scalar.
pub open spec fn scalar_number(body: Body) -> Option<int> {
    match scalar_text(body) {
        Some(s) => match unsigned_value(s) {
            Some(n) if n <= usize::MAX => Some(n as int),
            _ => None,
        },
        None => None,
    }
}

fn value_usize(value: &Reply) -> (res: Option<usize>)
    ensures
        match res {
            Some(n) => scalar_number(value.body) == Some(n as int),
            None => scalar_number(value.body) is None,
        },
{
    match value_string(value) {
        None => None,
        Some(s) => match parse_u64(s.as_str()) {
            Ok(n) => if n <= usize::MAX as u64 {
                Some(n as usize)
            } else {
                None
            },
            Err(_) => None,
        },
    }
}

/// The path that a row tells: a list whose first two columns are texts; the length is one where the
/// third is no number.
pub open spec fn path_in(row: Reply) -> Option<GraphPathView> {
    match row.body {
        Body::Array(columns) => if columns@.len() < 2 {
            None
        } else {
            match (scalar_text(columns@[0].body), scalar_text(columns@[1].body)) {
                (Some(chunk_id), Some(entity_name)) => Some(
                    GraphPathView {
                        chunk_id,
                        entity_name,
                        length: if columns@.len() > 2 {
                            match scalar_number(columns@[2].body) {
                                Some(n) => n,
                                None => 1,
                            }
                        } else {
                            1
                        },
                    },
                ),
                _ => None,
            }
        },
        _ => None,
    }
}

/// The paths that rows tell.
pub open spec fn paths_in(rows: Seq<Reply>) -> Seq<GraphPathView>
    decreases rows.len(),
{
    if rows.len() == 0 {
        seq![]
    } else {
        match path_in(rows.last()) {
            Some(p) => paths_in(rows.drop_last()).push(p),
            None => paths_in(rows.drop_last()),
        }
    }
}

fn row_path(row: &Reply) -> (res: Option<GraphPath>)
    ensures
        match res {
            Some(p) => path_in(*row) == Some(p@),
            None => path_in(*row) is None,
        },
{
    match &row.body {
        Body::Array(columns) => {
            if columns.len() < 2 {
                return None;
            }
            match (value_string(&columns[0]), value_string(&columns[1])) {
                (Some(chunk_id), Some(entity_name)) => {
                    let length: usize = if columns.len() > 2 {
                        match value_usize(&columns[2]) {
                            Some(n) => n,
                            None => 1,
                        }
                    } else {
                        1
                    };
                    Some(GraphPath { chunk_id, entity_name, length })
                },
                _ => None,
            }
        },
        _ => None,
    }
}

/// Reads the paths in a reply of the graph: of the list of lists that it holds first, the rows that
/// tell one.
pub fn parse_graph_paths(value: &Reply) -> (res: Vec<GraphPath>)
    ensures
        path_views(res@) == match rows_within(*value) {
            Some(rows) => paths_in(rows),
            None => seq![],
        },
{
    let mut res: Vec<GraphPath> = Vec::new();
    assert(path_views(res@) =~= seq![]);
    match find_rows(value) {
        None => res,
        Some(rows) => {
            let mut i: usize = 0;
            assert(rows@.take(0) =~= seq![]);
            while i < rows.len()
                invariant
                    i <= rows@.len(),
                    path_views(res@) == paths_in(rows@.take(i as int)),
                decreases rows@.len() - i,
            {
                assert(rows@.take(i + 1).drop_last() =~= rows@.take(i as int));
                assert(rows@.take(i + 1).last() == rows@[i as int]);
                if let Some(p) = row_path(&rows[i]) {
                    let ghost before = path_views(res@);
                    res.push(p);
                    assert(path_views(res@) =~= before.push(p@));
                }
                i = i + 1;
            }
            assert(rows@.take(i as int) =~= rows@);
            res
        },
    }
}

/// The evidence of one path for a question: how many of its terms the entity has, over the length of
/// the path.
#[derive(Debug)]
pub struct GraphSignal {
    /// The chunk.
    pub chunk_id: String,
    /// The terms of the question.
    pub terms: u16,
    /// Those that the name of the entity has.
    pub matched: u16,
    /// The length of the path, at least one.
    pub length: u16,
}

/// The model of a [`GraphSignal`].
#[verifier::ext_equal]
pub struct GraphSignalView {
    pub chunk_id: Seq<char>,
    pub terms: u16,
    pub matched: u16,
    pub length: u16,
}

impl View for GraphSignal {
    type V = GraphSignalView;

    open spec fn view(&self) -> GraphSignalView {
        GraphSignalView {
            chunk_id: self.chunk_id@,
            terms: self.terms,
            matched: self.matched,
            length: self.length,
        }
    }
}

/// The models of signals.
pub open spec fn signal_views(v: Seq<GraphSignal>) -> Seq<GraphSignalView> {
    v.map_values(|s: GraphSignal| s@)
}

/// The evidence of paths for the terms of a question; a path whose entity has none of them is left
/// out.
pub open spec fn signals_of(terms: Seq<Seq<char>>, paths: Seq<GraphPathView>) -> Seq<GraphSignalView>
    decreases paths.len(),
{
    if paths.len() == 0 {
        seq![]
    } else {
        let p = paths.last();
        let n = shared(terms, p.entity_name);
        if n == 0 {
            signals_of(terms, paths.drop_last())
        } else {
            signals_of(terms, paths.drop_last()).push(
                GraphSignalView {
                    chunk_id: p.chunk_id,
                    terms: bounded(terms.len()),
                    matched: bounded(n),
                    length: bounded(
                        if p.length < 1 {
                            1
                        } else {
                            p.length as nat
                        },
                    ),
                },
            )
        }
    }
}

/// Whether signals tell the evidence of paths for a question.
pub open spec fn tell(question: Seq<char>, paths: Seq<GraphPathView>, s: Seq<GraphSignalView>) -> bool {
    exists|terms: Seq<Seq<char>>| #[trigger]
        are_terms(question, terms) && s == signals_of(terms, paths)
}

/// Collects the evidence of paths for a question, in the order of the paths.
pub fn graph_signals(question: &str, paths: &Vec<GraphPath>) -> (res: Vec<GraphSignal>)
    ensures
        tell(question@, path_views(paths@), signal_views(res@)),
{
    let terms = unique_terms(question);
    let ghost all = path_views(paths@);
    let ghost ts = texts(terms@);
    let mut res: Vec<GraphSignal> = Vec::new();
    let mut i: usize = 0;
    assert(all.take(0) =~= seq![]);
    assert(signal_views(res@) =~= seq![]);
    while i < paths.len()
        invariant
            i <= paths@.len(),
            all == path_views(paths@),
            ts == texts(terms@),
            signal_views(res@) == signals_of(ts, all.take(i as int)),
        decreases paths@.len() - i,
    {
        let p = &paths[i];
        assert(all.take(i + 1).drop_last() =~= all.take(i as int));
        assert(all.take(i + 1).last() == p@);
        let matched: usize = count_shared(&terms, p.entity_name.as_str());
        if matched > 0 {
            let ghost before = signal_views(res@);
            let length: usize = if p.length < 1 {
                1
            } else {
                p.length
            };
            assert(ts.len() == terms@.len());
            let signal = GraphSignal {
                chunk_id: p.chunk_id.clone(),
                terms: bound(terms.len()),
                matched: bound(matched),
                length: bound(length),
            };
            res.push(signal);
            assert(signal_views(res@) =~= before.push(signal@));
        }
        i = i + 1;
    }
    assert(all.take(i as int) =~= all);
    assert(are_terms(question@, ts));
    res
}

// ---------------------------------------------------------------------------------------------
// Candidates.
// ---------------------------------------------------------------------------------------------
/// A chunk that may answer a question, with the bits of its scores.
#[derive(Debug)]
pub struct Candidate {
    /// The chunk.
    pub chunk_id: String,
    /// Its text.
    pub text: String,
    /// The score of the vector store.
    pub vector_bits: u32,
    /// The score of the full text.
    pub full_text_bits: u32,
    /// The score of the graph.
    pub graph_path_bits: u32,
}

/// What a candidate is, its id aside.
#[verifier::ext_equal]
pub struct CandidateView {
    pub text: Seq<char>,
    pub vector_bits: u32,
    pub full_text_bits: u32,
    pub graph_path_bits: u32,
}

impl View for Candidate {
    type V = (Seq<char>, CandidateView);

    open spec fn view(&self) -> (Seq<char>, CandidateView) {
        (
            self.chunk_id@,
            CandidateView {
                text: self.text@,
                vector_bits: self.vector_bits,
                full_text_bits: self.full_text_bits,
                graph_path_bits: self.graph_path_bits,
            },
        )
    }
}

/// The models of candidates.
pub open spec fn candidate_views(v: Seq<Candidate>) -> Seq<(Seq<char>, CandidateView)> {
    v.map_values(|c: Candidate| c@)
}

/// Candidates by their ids.
pub type Pool = Map<Seq<char>, CandidateView>;

/// The greater of the bits of two scores between 0 and 1.
pub open spec fn greater_bits(a: u32, b: u32) -> u32 {
    if a > b {
        a
    } else {
        b
    }
}

/// The candidates with a hit of the vector store: of several hits of one chunk the first gives the
/// text, and the best the score.
pub open spec fn with_hit(pool: Pool, id: Seq<char>, text: Seq<char>, bits: u32) -> Pool {
    if pool.contains_key(id) {
        pool.insert(
            id,
            (CandidateView { vector_bits: greater_bits(pool[id].vector_bits, bits), ..pool[id] }),
        )
    } else {
        pool.insert(
            id,
            CandidateView { text, vector_bits: bits, full_text_bits: 0, graph_path_bits: 0 },
        )
    }
}

/// The candidates with a match of the full text, where the index has its chunk.
pub open spec fn with_match(
    pool: Pool,
    index: Map<Seq<char>, IndexedView>,
    id: Seq<char>,
    bits: u32,
) -> Pool {
    if !index.contains_key(id) {
        pool
    } else if pool.contains_key(id) {
        pool.insert(id, (CandidateView { full_text_bits: bits, ..pool[id] }))
    } else {
        pool.insert(
            id,
            CandidateView {
                text: index[id].text,
                vector_bits: 0,
                full_text_bits: bits,
                graph_path_bits: 0,
            },
        )
    }
}

/// The candidates with a score of the graph, where they or the index have its chunk.
pub open spec fn with_path(
    pool: Pool,
    index: Map<Seq<char>, IndexedView>,
    id: Seq<char>,
    bits: u32,
) -> Pool {
    if pool.contains_key(id) {
        pool.insert(id, (CandidateView { graph_path_bits: bits, ..pool[id] }))
    } else if index.contains_key(id) {
        pool.insert(
            id,
            CandidateView {
                text: index[id].text,
                vector_bits: 0,
                full_text_bits: 0,
                graph_path_bits: bits,
            },
        )
    } else {
        pool
    }
}

/// The candidates of the hits of the vector store; a point without a chunk is left out.
pub open spec fn hits(points: Seq<QdrantPoint>) -> Pool
    decreases points.len(),
{
    if points.len() == 0 {
        Map::empty()
    } else {
        match chunk_of(points.last()) {
            Some(c) => with_hit(hits(points.drop_last()), c.chunk_id, c.text, c.score_bits),
            None => hits(points.drop_last()),
        }
    }
}

/// Candidates with the matches of the full text.
pub open spec fn matched(
    pool: Pool,
    index: Map<Seq<char>, IndexedView>,
    scores: Seq<(u32, Seq<char>)>,
) -> Pool
    decreases scores.len(),
{
    if scores.len() == 0 {
        pool
    } else {
        with_match(
            matched(pool, index, scores.drop_last()),
            index,
            scores.last().1,
            scores.last().0,
        )
    }
}

/// Candidates with the scores of the graph.
pub open spec fn reached(
    pool: Pool,
    index: Map<Seq<char>, IndexedView>,
    scores: Seq<(u32, Seq<char>)>,
) -> Pool
    decreases scores.len(),
{
    if scores.len() == 0 {
        pool
    } else {
        with_path(
            reached(pool, index, scores.drop_last()),
            index,
            scores.last().1,
            scores.last().0,
        )
    }
}

/// Whether a list holds the candidates of a pool, each once.
pub open spec fn lists(v: Seq<Candidate>, pool: Pool) -> bool {
    unique_keys(candidate_views(v)) && assoc(candidate_views(v)) == pool
}

fn candidate_index(list: &Vec<Candidate>, id: &str) -> (res: Option<usize>)
    ensures
        match res {
            Some(i) => i < list@.len() && list@[i as int].chunk_id@ == id@,
            None => forall|i: int|
                0 <= i < list@.len() ==> (#[trigger] candidate_views(list@)[i]).0 != id@,
        },
{
    let mut i: usize = 0;
    while i < list.len()
        invariant
            i <= list@.len(),
            forall|j: int| 0 <= j < i ==> (#[trigger] candidate_views(list@)[j]).0 != id@,
        decreases list@.len() - i,
    {
        if same(list[i].chunk_id.as_str(), id) {
            return Some(i);
        }
        assert(candidate_views(list@)[i as int].0 == list@[i as int].chunk_id@);
        i = i + 1;
    }
    None
}

fn indexed<'a>(index: &'a Vec<IndexedChunk>, id: &str) -> (res: Option<&'a IndexedChunk>)
    ensures
        match res {
            Some(c) => index_of(index@).contains_key(id@) && index_of(index@)[id@] == c@,
            None => !index_of(index@).contains_key(id@),
        },
{
    let mut i: usize = index.len();
    assert(index@.take(i as int) =~= index@);
    while i > 0
        invariant
            i <= index@.len(),
            index_of(index@).contains_key(id@) <==> index_of(index@.take(i as int)).contains_key(
                id@,
            ),
            index_of(index@).contains_key(id@) ==> index_of(index@)[id@] == index_of(
                index@.take(i as int),
            )[id@],
        decreases i,
    {
        assert(index@.take(i as int).drop_last() =~= index@.take(i - 1));
        assert(index@.take(i as int).last() == index@[i - 1]);
        if same(index[i - 1].chunk_id.as_str(), id) {
            return Some(&index[i - 1]);
        }
        i = i - 1;
    }
    None
}

proof fn lemma_replaced(before: Seq<Candidate>, after: Seq<Candidate>, i: int)
    requires
        unique_keys(candidate_views(before)),
        0 <= i < before.len(),
        after.len() == before.len(),
        after[i].chunk_id@ == before[i].chunk_id@,
        forall|j: int| 0 <= j < before.len() && j != i ==> #[trigger] after[j] == before[j],
    ensures
        lists(after, assoc(candidate_views(before)).insert(before[i].chunk_id@, after[i]@.1)),
        assoc(candidate_views(before)).contains_key(before[i].chunk_id@),
        assoc(candidate_views(before))[before[i].chunk_id@] == before[i]@.1,
{
    let s = candidate_views(before);
    lemma_assoc_update(s, i, after[i]@.1);
    lemma_assoc(s);
    assert(s[i] == before[i]@);
    assert(candidate_views(after) =~= s.update(i, (s[i].0, after[i]@.1)));
}

proof fn lemma_added(before: Seq<Candidate>, c: Candidate)
    requires
        unique_keys(candidate_views(before)),
        forall|i: int|
            0 <= i < before.len() ==> (#[trigger] candidate_views(before)[i]).0 != c.chunk_id@,
    ensures
        lists(before.push(c), assoc(candidate_views(before)).insert(c.chunk_id@, c@.1)),
        !assoc(candidate_views(before)).contains_key(c.chunk_id@),
{
    let s = candidate_views(before);
    lemma_assoc_push(s, c.chunk_id@, c@.1);
    lemma_assoc_absent(s, c.chunk_id@);
    assert(candidate_views(before.push(c)) =~= s.push((c.chunk_id@, c@.1)));
}

fn add_hit(list: &mut Vec<Candidate>, chunk: QueryChunk)
    requires
        unique_keys(candidate_views(old(list)@)),
    ensures
        lists(
            final(list)@,
            with_hit(
                assoc(candidate_views(old(list)@)),
                chunk.chunk_id@,
                chunk.text@,
                chunk.score_bits,
            ),
        ),
{
    let ghost before = list@;
    match candidate_index(list, chunk.chunk_id.as_str()) {
        Some(i) => {
            if list[i].vector_bits <= chunk.score_bits {
                list[i].vector_bits = chunk.score_bits;
            }
            proof {
                lemma_replaced(before, list@, i as int);
                assert(list@[i as int]@.1 =~= (CandidateView {
                    vector_bits: greater_bits(before[i as int].vector_bits, chunk.score_bits),
                    ..before[i as int]@.1
                }));
            }
        },
        None => {
            let c = Candidate {
                chunk_id: chunk.chunk_id,
                text: chunk.text,
                vector_bits: chunk.score_bits,
                full_text_bits: 0,
                graph_path_bits: 0,
            };
            proof {
                lemma_added(before, c);
            }
            list.push(c);
        },
    }
}

fn add_match(list: &mut Vec<Candidate>, index: &Vec<IndexedChunk>, id: &str, bits: u32)
    requires
        unique_keys(candidate_views(old(list)@)),
    ensures
        lists(
            final(list)@,
            with_match(assoc(candidate_views(old(list)@)), index_of(index@), id@, bits),
        ),
{
    let ghost before = list@;
    match indexed(index, id) {
        None => {},
        Some(chunk) => match candidate_index(list, id) {
            Some(i) => {
                list[i].full_text_bits = bits;
                proof {
                    lemma_replaced(before, list@, i as int);
                    assert(list@[i as int]@.1 =~= (CandidateView {
                        full_text_bits: bits,
                        ..before[i as int]@.1
                    }));
                }
            },
            None => {
                let c = Candidate {
                    chunk_id: id.to_owned(),
                    text: chunk.text.clone(),
                    vector_bits: 0,
                    full_text_bits: bits,
                    graph_path_bits: 0,
                };
                proof {
                    lemma_added(before, c);
                }
                list.push(c);
            },
        },
    }
}

fn add_path(list: &mut Vec<Candidate>, index: &Vec<IndexedChunk>, id: &str, bits: u32)
    requires
        unique_keys(candidate_views(old(list)@)),
    ensures
        lists(
            final(list)@,
            with_path(assoc(candidate_views(old(list)@)), index_of(index@), id@, bits),
        ),
{
    let ghost before = list@;
    match candidate_index(list, id) {
        Some(i) => {
            list[i].graph_path_bits = bits;
            proof {
                lemma_replaced(before, list@, i as int);
                assert(list@[i as int]@.1 =~= (CandidateView {
                    graph_path_bits: bits,
                    ..before[i as int]@.1
                }));
            }
        },
        None => {
            proof {
                lemma_assoc_absent(candidate_views(before), id@);
            }
            match indexed(index, id) {
                None => {},
                Some(chunk) => {
                    let c = Candidate {
                        chunk_id: id.to_owned(),
                        text: chunk.text.clone(),
                        vector_bits: 0,
                        full_text_bits: 0,
                        graph_path_bits: bits,
                    };
                    proof {
                        lemma_added(before, c);
                    }
                    list.push(c);
                },
            }
        },
    }
}

/// All candidates: the hits, with the matches of the full text, with the scores of the graph.
pub open spec fn pool_of(
    points: Seq<QdrantPoint>,
    index: Map<Seq<char>, IndexedView>,
    full_text: Seq<(u32, Seq<char>)>,
    graph: Seq<(u32, Seq<char>)>,
) -> Pool {
    reached(matched(hits(points), index, full_text), index, graph)
}

/// Gathers the candidates for a question. The scores of the points are between 0 and 1.
pub fn gather(
    points: &Vec<QdrantPoint>,
    index: &Vec<IndexedChunk>,
    full_text: &Vec<Scored>,
    graph: &Vec<Scored>,
) -> (res: Vec<Candidate>)
    requires
        forall|i: int| 0 <= i < points@.len() ==> (#[trigger] points@[i]).score_bits <= UNIT_BITS,
    ensures
        lists(
            res@,
            pool_of(
                points@,
                index_of(index@),
                scored_views(full_text@),
                scored_views(graph@),
            ),
        ),
{
    let ghost idx = index_of(index@);
    let mut list: Vec<Candidate> = Vec::new();
    let mut i: usize = 0;
    assert(points@.take(0) =~= seq![]);
    assert(candidate_views(list@) =~= seq![]);
    while i < points.len()
        invariant
            i <= points@.len(),
            lists(list@, hits(points@.take(i as int))),
        decreases points@.len() - i,
    {
        assert(points@.take(i + 1).drop_last() =~= points@.take(i as int));
        assert(points@.take(i + 1).last() == points@[i as int]);
        if let Some(chunk) = point_to_chunk(&points[i]) {
            add_hit(&mut list, chunk);
        }
        i = i + 1;
    }
    assert(points@.take(i as int) =~= points@);
    let ghost base = hits(points@);
    let ghost texts_found = scored_views(full_text@);
    let mut k: usize = 0;
    assert(texts_found.take(0) =~= seq![]);
    while k < full_text.len()
        invariant
            k <= full_text@.len(),
            idx == index_of(index@),
            texts_found == scored_views(full_text@),
            lists(list@, matched(base, idx, texts_found.take(k as int))),
        decreases full_text@.len() - k,
    {
        assert(texts_found.take(k + 1).drop_last() =~= texts_found.take(k as int));
        assert(texts_found.take(k + 1).last() == full_text@[k as int]@);
        add_match(&mut list, index, full_text[k].id.as_str(), full_text[k].bits);
        k = k + 1;
    }
    assert(texts_found.take(k as int) =~= texts_found);
    let ghost middle = matched(base, idx, texts_found);
    let ghost paths_found = scored_views(graph@);
    let mut m: usize = 0;
    assert(paths_found.take(0) =~= seq![]);
    while m < graph.len()
        invariant
            m <= graph@.len(),
            idx == index_of(index@),
            paths_found == scored_views(graph@),
            lists(list@, reached(middle, idx, paths_found.take(m as int))),
        decreases graph@.len() - m,
    {
        assert(paths_found.take(m + 1).drop_last() =~= paths_found.take(m as int));
        assert(paths_found.take(m + 1).last() == graph@[m as int]@);
        add_path(&mut list, index, graph[m].id.as_str(), graph[m].bits);
        m = m + 1;
    }
    assert(paths_found.take(m as int) =~= paths_found);
    list
}

/// The fused scores of candidates, with their ids.
pub open spec fn fused_views(list: Seq<Candidate>, fused: Seq<u32>) -> Seq<(u32, Seq<char>)> {
    Seq::new(list.len(), |i: int| (fused[i], list[i].chunk_id@))
}

/// Ranks candidates by their fused scores and keeps the first `limit`, each with its text.
pub fn select(candidates: &Vec<Candidate>, fused: &Vec<u32>, limit: usize) -> (res: Vec<QueryChunk>)
    requires
        unique_keys(candidate_views(candidates@)),
        fused@.len() == candidates@.len(),
    ensures
        res@.map_values(|c: QueryChunk| (c.score_bits, c.chunk_id@)) == top_ranked(
            fused_views(candidates@, fused@),
            limit as nat,
        ),
        forall|k: int|
            0 <= k < res@.len() ==> assoc(candidate_views(candidates@)).contains_key(
                (#[trigger] res@[k]).chunk_id@,
            ) && res@[k].text@ == assoc(candidate_views(candidates@))[res@[k].chunk_id@].text,
{
    let ghost wanted = fused_views(candidates@, fused@);
    let mut items: Vec<Scored> = Vec::new();
    let mut i: usize = 0;
    while i < candidates.len()
        invariant
            i <= candidates@.len() == fused@.len(),
            wanted == fused_views(candidates@, fused@),
            scored_views(items@) == wanted.take(i as int),
        decreases candidates@.len() - i,
    {
        let ghost before = scored_views(items@);
        let item = Scored { id: candidates[i].chunk_id.clone(), bits: fused[i] };
        items.push(item);
        assert(scored_views(items@) =~= before.push(item@));
        assert(wanted[i as int] == item@);
        i = i + 1;
        assert(scored_views(items@) =~= wanted.take(i as int));
    }
    assert(wanted.take(i as int) =~= wanted);
    let ranked = rank(items, limit);
    let ghost order = scored_views(ranked@);
    let mut res: Vec<QueryChunk> = Vec::new();
    let mut k: usize = 0;
    proof {
        lemma_assoc(candidate_views(candidates@));
        lemma_ranked_from(wanted, limit as nat);
    }
    while k < ranked.len()
        invariant
            k <= ranked@.len(),
            unique_keys(candidate_views(candidates@)),
            wanted == fused_views(candidates@, fused@),
            order == scored_views(ranked@),
            order == top_ranked(wanted, limit as nat),
            forall|j: int| 0 <= j < order.len() ==> wanted.contains(#[trigger] order[j]),
            forall|j: int|
                0 <= j < candidates@.len() ==> assoc(
                    candidate_views(candidates@),
                ).contains_key((#[trigger] candidate_views(candidates@)[j]).0) && assoc(
                    candidate_views(candidates@),
                )[candidate_views(candidates@)[j].0] == candidate_views(candidates@)[j].1,
            res@.len() == k,
            forall|j: int|
                0 <= j < k ==> ((#[trigger] res@[j]).score_bits, res@[j].chunk_id@) == order[j],
            forall|j: int|
                0 <= j < k ==> assoc(candidate_views(candidates@)).contains_key(
                    (#[trigger] res@[j]).chunk_id@,
                ) && res@[j].text@ == assoc(
                    candidate_views(candidates@),
                )[res@[j].chunk_id@].text,
        decreases ranked@.len() - k,
    {
        let found = candidate_index(candidates, ranked[k].id.as_str());
        proof {
            assert(order[k as int] == ranked@[k as int]@);
            assert(wanted.contains(order[k as int]));
            let j = choose|j: int| 0 <= j < wanted.len() && wanted[j] == order[k as int];
            assert(candidate_views(candidates@)[j].0 == ranked@[k as int].id@);
        }
        if let Some(at) = found {
            assert(candidate_views(candidates@)[at as int] == candidates@[at as int]@);
            res.push(
                QueryChunk {
                    chunk_id: ranked[k].id.clone(),
                    score_bits: ranked[k].bits,
                    text: candidates[at].text.clone(),
                },
            );
        }
        k = k + 1;
    }
    assert(res@.map_values(|c: QueryChunk| (c.score_bits, c.chunk_id@)) =~= order);
    res
}

proof fn lemma_ranked_from(items: Seq<(u32, Seq<char>)>, limit: nat)
    ensures
        forall|j: int|
            0 <= j < top_ranked(items, limit).len() ==> items.contains(
                #[trigger] top_ranked(items, limit)[j],
            ),
{
    broadcast use vstd::seq_lib::group_to_multiset_ensures;

    crate::ranking::lemma_rank_order();
    items.lemma_sort_by_ensures(crate::ranking::rank_order());
    let out = crate::ranking::ranked(items);
    assert(out.len() == out.to_multiset().len() == items.len());
    assert forall|j: int| 0 <= j < top_ranked(items, limit).len() implies items.contains(
        #[trigger] top_ranked(items, limit)[j],
    ) by {
        let x = top_ranked(items, limit)[j];
        assert(out[j] == x);
        assert(out.contains(x));
        assert(out.to_multiset().contains(x));
        assert(items.to_multiset().contains(x));
    }
}

/// What took part in an answer.
#[derive(Debug, Clone, Copy, PartialEq, Eq, Structural)]
pub struct Availability {
    /// The vector store.
    pub qdrant: bool,
    /// The full text.
    pub full_text: bool,
    /// The graph.
    pub graph_path: bool,
}

/// Reports what took part in an answer: the full text where the index is not empty, the graph where
/// it answered.
pub fn availability_of(index: &Vec<IndexedChunk>, graph_answered: bool) -> (res: Availability)
    ensures
        res == (Availability {
            qdrant: true,
            full_text: index@.len() > 0,
            graph_path: graph_answered,
        }),
{
    Availability { qdrant: true, full_text: index.len() > 0, graph_path: graph_answered }
}

// ---------------------------------------------------------------------------------------------
// Laws.
// ---------------------------------------------------------------------------------------------
/// Whether points have a chunk.
pub open spec fn is_hit(points: Seq<QdrantPoint>, id: Seq<char>) -> bool {
    exists|i: int|
        0 <= i < points.len() && (chunk_of(#[trigger] points[i]) matches Some(c) && c.chunk_id
            == id)
}

proof fn lemma_hits(points: Seq<QdrantPoint>, id: Seq<char>)
    ensures
        hits(points).contains_key(id) <==> is_hit(points, id),
    decreases points.len(),
{
    if points.len() > 0 {
        let rest = points.drop_last();
        lemma_hits(rest, id);
        if is_hit(rest, id) {
            let i = choose|i: int|
                0 <= i < rest.len() && (chunk_of(#[trigger] rest[i]) matches Some(c) && c.chunk_id
                    == id);
            assert(points[i] == rest[i]);
        }
        if is_hit(points, id) {
            let i = choose|i: int|
                0 <= i < points.len() && (chunk_of(#[trigger] points[i]) matches Some(c)
                    && c.chunk_id == id);
            if i < rest.len() {
                assert(rest[i] == points[i]);
            }
        }
        assert(points[points.len() - 1] == points.last());
    }
}

proof fn lemma_matched(
    pool: Pool,
    index: Map<Seq<char>, IndexedView>,
    scores: Seq<(u32, Seq<char>)>,
    id: Seq<char>,
)
    ensures
        matched(pool, index, scores).contains_key(id) ==> pool.contains_key(id)
            || index.contains_key(id),
        pool.contains_key(id) ==> matched(pool, index, scores).contains_key(id),
    decreases scores.len(),
{
    if scores.len() > 0 {
        lemma_matched(pool, index, scores.drop_last(), id);
    }
}

proof fn lemma_reached(
    pool: Pool,
    index: Map<Seq<char>, IndexedView>,
    scores: Seq<(u32, Seq<char>)>,
    id: Seq<char>,
)
    ensures
        reached(pool, index, scores).contains_key(id) ==> pool.contains_key(id)
            || index.contains_key(id),
        pool.contains_key(id) ==> reached(pool, index, scores).contains_key(id),
    decreases scores.len(),
{
    if scores.len() > 0 {
        lemma_reached(pool, index, scores.drop_last(), id);
    }
}

/// Every chunk that the vector store found is a candidate, and every candidate was found by it or is
/// in the index: the graph alone makes none.
pub proof fn law_candidates_have_evidence(
    points: Seq<QdrantPoint>,
    index: Map<Seq<char>, IndexedView>,
    full_text: Seq<(u32, Seq<char>)>,
    graph: Seq<(u32, Seq<char>)>,
    id: Seq<char>,
)
    ensures
        is_hit(points, id) ==> pool_of(points, index, full_text, graph).contains_key(id),
        pool_of(points, index, full_text, graph).contains_key(id) ==> is_hit(points, id)
            || index.contains_key(id),
{
    lemma_hits(points, id);
    lemma_matched(hits(points), index, full_text, id);
    lemma_reached(matched(hits(points), index, full_text), index, graph, id);
}

/// A question without terms finds no path.
pub proof fn law_no_terms_no_signals(terms: Seq<Seq<char>>, paths: Seq<GraphPathView>)
    requires
        terms.len() == 0,
    ensures
        signals_of(terms, paths).len() == 0,
    decreases paths.len(),
{
    if paths.len() > 0 {
        law_no_terms_no_signals(terms, paths.drop_last());
    }
}

/// Whether a run of letters and digits stands in a text from `i` to `j`, and no letter or digit beside
/// it.
pub open spec fn stands_alone(s: Seq<char>, i: int, j: int) -> bool {
    &&& 0 <= i < j <= s.len()
    &&& forall|k: int| i <= k < j ==> unicode_alphanumeric(#[trigger] s[k])
    &&& i > 0 ==> !unicode_alphanumeric(s[i - 1])
    &&& j < s.len() ==> !unicode_alphanumeric(s[j])
}

proof fn lemma_trimmed_off(s: Seq<char>, p: spec_fn(char) -> bool)
    ensures
        trim_start_by(s, p).len() <= s.len(),
        trim_start_by(s, p) == s.skip(s.len() - trim_start_by(s, p).len()),
        forall|k: int| 0 <= k < s.len() - trim_start_by(s, p).len() ==> p(#[trigger] s[k]),
    decreases s.len(),
{
    if s.len() > 0 && p(s[0]) {
        let rest = s.drop_first();
        lemma_trimmed_off(rest, p);
        let n = rest.len() - trim_start_by(rest, p).len();
        assert(rest.skip(n) =~= s.skip(n + 1));
        assert forall|k: int| 0 <= k < n + 1 implies p(#[trigger] s[k]) by {
            if k > 0 {
                assert(rest[k - 1] == s[k]);
            }
        }
    } else {
        assert(s.skip(0) =~= s);
    }
}

proof fn lemma_runs_stand_alone(s: Seq<char>)
    ensures
        forall|r: int|
            0 <= r < runs(s).len() ==> exists|i: int, j: int| #[trigger]
                stands_alone(s, i, j) && #[trigger] runs(s)[r] == s.subrange(i, j),
        forall|i: int, j: int| #[trigger]
            stands_alone(s, i, j) ==> runs(s).contains(s.subrange(i, j)),
    decreases s.len(),
{
    let p = separator();
    let t = trim_start_by(s, p);
    lemma_trimmed_off(s, p);
    lemma_trim_start_props(s, p);
    lemma_find_by(t, p);
    let k = s.len() - t.len();
    let n = find_by(t, p);
    if t.len() == 0 {
        assert forall|i: int, j: int| #[trigger] stands_alone(s, i, j) implies runs(s).contains(
            s.subrange(i, j),
        ) by {
            assert(p(s[i]));
            assert(unicode_alphanumeric(s[i]));
        }
    } else {
        let rest = t.skip(n);
        let off = k + n;
        assert(n > 0);
        assert(rest =~= s.skip(off));
        lemma_runs_stand_alone(rest);
        let all = runs(s);
        assert(all =~= seq![t.take(n)] + runs(rest));
        assert(t.take(n) =~= s.subrange(k, off));
        assert(stands_alone(s, k, off)) by {
            assert forall|q: int| k <= q < off implies unicode_alphanumeric(#[trigger] s[q]) by {
                assert(t[q - k] == s[q]);
                assert(!p(t[q - k]));
            }
            if k > 0 {
                assert(p(s[k - 1]));
            }
            if off < s.len() {
                assert(t[n] == s[off]);
            }
        }
        assert forall|r: int| 0 <= r < all.len() implies exists|i: int, j: int| #[trigger]
            stands_alone(s, i, j) && #[trigger] all[r] == s.subrange(i, j) by {
            if r == 0 {
                assert(stands_alone(s, k, off));
            } else {
                assert(all[r] == runs(rest)[r - 1]);
                let (i, j) = choose|i: int, j: int| #[trigger]
                    stands_alone(rest, i, j) && runs(rest)[r - 1] == rest.subrange(i, j);
                assert(rest.len() > 0);
                assert(rest[0] == t[n]);
                assert(p(rest[0]));
                assert(i > 0) by {
                    if i == 0 {
                        assert(unicode_alphanumeric(rest[0]));
                    }
                }
                assert(stands_alone(s, i + off, j + off)) by {
                    assert forall|q: int| i + off <= q < j + off implies unicode_alphanumeric(
                        #[trigger] s[q],
                    ) by {
                        assert(rest[q - off] == s[q]);
                    }
                    assert(rest[i - 1] == s[i + off - 1]);
                    if j < rest.len() {
                        assert(rest[j] == s[j + off]);
                    }
                }
                assert(rest.subrange(i, j) =~= s.subrange(i + off, j + off));
            }
        }
        assert forall|i: int, j: int| #[trigger] stands_alone(s, i, j) implies all.contains(
            s.subrange(i, j),
        ) by {
            if i < k {
                assert(p(s[i]));
                assert(unicode_alphanumeric(s[i]));
            } else if i < off {
                if i > k {
                    assert(t[i - 1 - k] == s[i - 1]);
                    assert(!p(t[i - 1 - k]));
                }
                assert(i == k);
                if j < off {
                    assert(t[j - k] == s[j]);
                    assert(!p(t[j - k]));
                }
                if j > off {
                    assert(t[n] == s[off]);
                    assert(p(t[n]));
                    assert(unicode_alphanumeric(s[off]));
                }
                assert(all[0] == s.subrange(i, j));
            } else {
                assert(stands_alone(rest, i - off, j - off)) by {
                    assert forall|q: int| i - off <= q < j - off implies unicode_alphanumeric(
                        #[trigger] rest[q],
                    ) by {
                        assert(rest[q] == s[q + off]);
                    }
                    if i > off {
                        assert(rest[i - off - 1] == s[i - 1]);
                    }
                    if j < s.len() {
                        assert(rest[j - off] == s[j]);
                    }
                }
                assert(rest.subrange(i - off, j - off) =~= s.subrange(i, j));
                let r = choose|r: int|
                    0 <= r < runs(rest).len() && runs(rest)[r] == rest.subrange(i - off, j - off);
                assert(all[r + 1] == s.subrange(i, j));
            }
        }
    }
}

/// The terms of a text are its words in lower case: the runs of at least two letters or digits with
/// neither beside them.
pub proof fn law_terms_are_words(s: Seq<char>, term: Seq<char>)
    ensures
        has_term(s, term) <==> exists|i: int, j: int| #[trigger]
            stands_alone(s, i, j) && j - i >= 2 && unicode_lowercase(s.subrange(i, j)) == term,
{
    lemma_runs_stand_alone(s);
    if has_term(s, term) {
        let r = choose|r: int|
            0 <= r < runs(s).len() && (#[trigger] runs(s)[r]).len() > 1 && unicode_lowercase(
                runs(s)[r],
            ) == term;
        let (i, j) = choose|i: int, j: int| #[trigger]
            stands_alone(s, i, j) && runs(s)[r] == s.subrange(i, j);
        assert(stands_alone(s, i, j));
    }
    if exists|i: int, j: int| #[trigger]
        stands_alone(s, i, j) && j - i >= 2 && unicode_lowercase(s.subrange(i, j)) == term {
        let (i, j) = choose|i: int, j: int| #[trigger]
            stands_alone(s, i, j) && j - i >= 2 && unicode_lowercase(s.subrange(i, j)) == term;
        let r = choose|r: int| 0 <= r < runs(s).len() && runs(s)[r] == s.subrange(i, j);
        assert(runs(s)[r].len() > 1);
    }
}

/// The set of the terms of a text.
pub open spec fn term_set(s: Seq<char>) -> Set<Seq<char>> {
    Set::new(|t: Seq<char>| has_term(s, t))
}

proof fn lemma_shared(terms: Seq<Seq<char>>, other: Seq<char>)
    requires
        ascending(terms),
    ensures
        terms.to_set().finite(),
        terms.to_set().len() == terms.len(),
        terms.to_set().intersect(term_set(other)).len() == shared(terms, other),
    decreases terms.len(),
{
    vstd::seq_lib::seq_to_set_is_finite(terms);
    if terms.len() == 0 {
        assert(terms.to_set() =~= Set::empty());
        assert(terms.to_set().intersect(term_set(other)) =~= Set::empty());
    } else {
        let rest = terms.drop_last();
        let last = terms.last();
        assert forall|i: int, j: int| 0 <= i < j < rest.len() implies crate::text::text_less(
            #[trigger] rest[i],
            #[trigger] rest[j],
        ) by {
            assert(rest[i] == terms[i] && rest[j] == terms[j]);
        }
        lemma_shared(rest, other);
        assert(rest.push(last) =~= terms);
        crate::text::lemma_push_to_set(rest, last);
        assert(!rest.contains(last)) by {
            if rest.contains(last) {
                let i = choose|i: int| 0 <= i < rest.len() && rest[i] == last;
                assert(crate::text::text_less(terms[i], terms[terms.len() - 1]));
                crate::text::lemma_text_less_total(last, last);
            }
        }
        assert(!rest.to_set().contains(last));
        let before = rest.to_set().intersect(term_set(other));
        let after = terms.to_set().intersect(term_set(other));
        assert(before.finite()) by {
            assert(before.subset_of(rest.to_set()));
            vstd::set_lib::lemma_len_subset(before, rest.to_set());
        }
        if has_term(other, last) {
            assert(after =~= before.insert(last));
        } else {
            assert(after =~= before);
        }
    }
}

proof fn lemma_term_list(question: Seq<char>, terms: Seq<Seq<char>>, other: Seq<char>)
    requires
        are_terms(question, terms),
    ensures
        term_set(question).finite(),
        term_set(question).len() == terms.len(),
        term_set(question).intersect(term_set(other)).len() == shared(terms, other),
{
    assert(terms.to_set() =~= term_set(question)) by {
        assert forall|t: Seq<char>| terms.to_set().contains(t) <==> term_set(question).contains(t) by {
            assert(terms.contains(t) <==> has_term(question, t));
        }
    }
    lemma_shared(terms, other);
}

/// A match counts words: the terms of the question, those of them that are terms of the chunk's text,
/// and those that are terms of its title, each once and up to what sixteen bits hold. A chunk whose text
/// has a word of the question has a positive count for its text, whatever its title is.
pub proof fn law_matches_count_shared_words(
    question: Seq<char>,
    text: Seq<char>,
    title: Seq<char>,
    m: TextMatch,
    word: Seq<char>,
)
    requires
        matches_text(question, text, title, m),
    ensures
        term_set(question).finite(),
        term_set(question).len() <= u16::MAX ==> {
            &&& m.terms == term_set(question).len()
            &&& m.body == term_set(question).intersect(term_set(text)).len()
            &&& m.title == term_set(question).intersect(term_set(title)).len()
        },
        has_term(question, word) ==> m.terms > 0,
        has_term(question, word) && has_term(text, word) ==> m.body > 0,
        has_term(question, word) && has_term(title, word) ==> m.title > 0,
        m.body > 0 ==> exists|w: Seq<char>| has_term(question, w) && #[trigger] has_term(text, w),
        m.title > 0 ==> exists|w: Seq<char>| has_term(question, w) && #[trigger] has_term(title, w),
        m.body <= m.terms,
        m.title <= m.terms,
{
    let terms = choose|terms: Seq<Seq<char>>| #[trigger]
        are_terms(question, terms) && m.terms == bounded(terms.len()) && m.body == bounded(
            shared(terms, text),
        ) && m.title == bounded(shared(terms, title));
    lemma_term_list(question, terms, text);
    lemma_term_list(question, terms, title);
    let q = term_set(question);
    let (b, t) = (q.intersect(term_set(text)), q.intersect(term_set(title)));
    vstd::set_lib::lemma_len_subset(b, q);
    vstd::set_lib::lemma_len_subset(t, q);
    if has_term(question, word) {
        assert(q.contains(word));
        vstd::set_lib::lemma_set_empty_equivalency_len(q);
    }
    if has_term(question, word) && has_term(text, word) {
        assert(b.contains(word));
    }
    if has_term(question, word) && has_term(title, word) {
        assert(t.contains(word));
    }
    vstd::set_lib::lemma_set_empty_equivalency_len(b);
    vstd::set_lib::lemma_set_empty_equivalency_len(t);
    if m.body > 0 {
        let w = b.choose();
        assert(b.contains(w));
        assert(has_term(text, w));
    }
    if m.title > 0 {
        let w = t.choose();
        assert(t.contains(w));
        assert(has_term(title, w));
    }
}

/// The count of one text does not depend on the other: chunks with one text match a question alike in
/// their texts, whatever their titles are.
pub proof fn law_text_and_title_count_apart(
    question: Seq<char>,
    text: Seq<char>,
    title: Seq<char>,
    other: Seq<char>,
    m: TextMatch,
    n: TextMatch,
)
    requires
        matches_text(question, text, title, m),
        matches_text(question, text, other, n) || matches_text(question, other, title, n),
    ensures
        m.terms == n.terms,
        matches_text(question, text, other, n) ==> m.body == n.body,
        matches_text(question, other, title, n) ==> m.title == n.title,
{
    let terms = choose|terms: Seq<Seq<char>>| #[trigger]
        are_terms(question, terms) && m.terms == bounded(terms.len()) && m.body == bounded(
            shared(terms, text),
        ) && m.title == bounded(shared(terms, title));
    lemma_term_list(question, terms, text);
    lemma_term_list(question, terms, title);
    if matches_text(question, text, other, n) {
        let list = choose|terms: Seq<Seq<char>>| #[trigger]
            are_terms(question, terms) && n.terms == bounded(terms.len()) && n.body == bounded(
                shared(terms, text),
            ) && n.title == bounded(shared(terms, other));
        lemma_term_list(question, list, text);
    }
    if matches_text(question, other, title, n) {
        let list = choose|terms: Seq<Seq<char>>| #[trigger]
            are_terms(question, terms) && n.terms == bounded(terms.len()) && n.body == bounded(
                shared(terms, other),
            ) && n.title == bounded(shared(terms, title));
        lemma_term_list(question, list, title);
    }
}

/// The full text leaves out what does not match and nothing else: a scored chunk is ranked only where its
/// score is above zero, and one above zero is left out only where enough others score no less.
pub proof fn law_full_text_ranks_what_matches(
    scores: Seq<(u32, Seq<char>)>,
    limit: nat,
    x: (u32, Seq<char>),
)
    ensures
        top_ranked(positive(scores), limit).contains(x) ==> scores.contains(x) && 0 < x.0
            <= 0x7f80_0000,
        scores.contains(x) && 0 < x.0 <= 0x7f80_0000 && !top_ranked(
            positive(scores),
            limit,
        ).contains(x) ==> top_ranked(positive(scores), limit).len() == limit && forall|i: int|
            0 <= i < limit ==> (#[trigger] top_ranked(positive(scores), limit)[i]).0 >= x.0,
{
    lemma_positive(scores, x);
    crate::ranking::law_ranking_keeps_the_best(positive(scores), limit, x);
    let top = top_ranked(positive(scores), limit);
    if scores.contains(x) && 0 < x.0 <= 0x7f80_0000 && !top.contains(x) {
        if limit >= positive(scores).len() {
            broadcast use vstd::seq_lib::group_to_multiset_ensures;

            crate::ranking::lemma_rank_order();
            positive(scores).lemma_sort_by_ensures(crate::ranking::rank_order());
            assert(positive(scores).to_multiset().count(x) > 0);
            assert(top.to_multiset().count(x) > 0);
        }
        assert forall|i: int| 0 <= i < limit implies (#[trigger] top[i]).0 >= x.0 by {
            assert(top.contains(top[i]));
            lemma_positive(scores, top[i]);
            crate::ranking::law_ranking_keeps_the_best(positive(scores), limit, top[i]);
        }
    }
}

proof fn lemma_positive(scores: Seq<(u32, Seq<char>)>, x: (u32, Seq<char>))
    ensures
        positive(scores).contains(x) <==> scores.contains(x) && is_positive(x.0),
    decreases scores.len(),
{
    if scores.len() > 0 {
        let rest = scores.drop_last();
        lemma_positive(rest, x);
        crate::text::lemma_push_contains(positive(rest), scores.last());
        crate::text::lemma_push_contains(rest, scores.last());
        assert(rest.push(scores.last()) =~= scores);
    }
}

spec fn speaks(terms: Seq<Seq<char>>, p: GraphPathView, g: GraphSignalView) -> bool {
    &&& g.chunk_id == p.chunk_id
    &&& shared(terms, p.entity_name) > 0
    &&& g.terms == bounded(terms.len())
    &&& g.matched == bounded(shared(terms, p.entity_name))
    &&& p.length >= 1 ==> g.length == bounded(p.length as nat)
    &&& g.length >= 1
}

proof fn lemma_signal_of(terms: Seq<Seq<char>>, paths: Seq<GraphPathView>, k: int) -> (i: int)
    requires
        0 <= k < paths.len(),
        shared(terms, paths[k].entity_name) > 0,
    ensures
        0 <= i < signals_of(terms, paths).len(),
        speaks(terms, paths[k], signals_of(terms, paths)[i]),
    decreases paths.len(),
{
    let rest = paths.drop_last();
    if k < rest.len() {
        assert(rest[k] == paths[k]);
        let i = lemma_signal_of(terms, rest, k);
        assert(signals_of(terms, paths)[i] == signals_of(terms, rest)[i]);
        i
    } else {
        signals_of(terms, paths).len() - 1
    }
}

proof fn lemma_path_of(terms: Seq<Seq<char>>, paths: Seq<GraphPathView>, i: int) -> (k: int)
    requires
        0 <= i < signals_of(terms, paths).len(),
    ensures
        0 <= k < paths.len(),
        speaks(terms, paths[k], signals_of(terms, paths)[i]),
    decreases paths.len(),
{
    let rest = paths.drop_last();
    if i < signals_of(terms, rest).len() {
        let k = lemma_path_of(terms, rest, i);
        assert(rest[k] == paths[k]);
        assert(signals_of(terms, paths)[i] == signals_of(terms, rest)[i]);
        k
    } else {
        paths.len() - 1
    }
}

/// The graph speaks for a chunk where it mentions an entity whose name has a word of the question, and
/// for no other chunk; how many such words the name has, and how long the path is, is told as it is.
pub proof fn law_paths_to_named_entities_are_signals(
    question: Seq<char>,
    paths: Seq<GraphPathView>,
    signals: Seq<GraphSignalView>,
    k: int,
    word: Seq<char>,
)
    requires
        tell(question, paths, signals),
        term_set(question).len() <= u16::MAX,
    ensures
        0 <= k < paths.len() && 1 <= paths[k].length <= u16::MAX && has_term(question, word)
            && has_term(paths[k].entity_name, word) ==> exists|i: int|
            {
                &&& 0 <= i < signals.len()
                &&& (#[trigger] signals[i]).chunk_id == paths[k].chunk_id
                &&& signals[i].matched == term_set(question).intersect(
                    term_set(paths[k].entity_name),
                ).len()
                &&& signals[i].length == paths[k].length
            },
        forall|i: int|
            0 <= i < signals.len() ==> {
                &&& (#[trigger] signals[i]).terms == term_set(question).len()
                &&& signals[i].length >= 1
                &&& signals[i].matched >= 1
                &&& exists|p: int, w: Seq<char>|
                    0 <= p < paths.len() && (#[trigger] paths[p]).chunk_id == signals[i].chunk_id
                        && has_term(question, w) && #[trigger] has_term(paths[p].entity_name, w)
            },
{
    let terms = choose|terms: Seq<Seq<char>>| #[trigger]
        are_terms(question, terms) && signals == signals_of(terms, paths);
    let q = term_set(question);
    if 0 <= k < paths.len() {
        let name = paths[k].entity_name;
        lemma_term_list(question, terms, name);
        let b = q.intersect(term_set(name));
        vstd::set_lib::lemma_len_subset(b, q);
        if has_term(question, word) && has_term(name, word) {
            assert(b.contains(word));
            vstd::set_lib::lemma_set_empty_equivalency_len(b);
            let i = lemma_signal_of(terms, paths, k);
            assert(signals[i].chunk_id == paths[k].chunk_id);
        }
    }
    assert forall|i: int| 0 <= i < signals.len() implies {
        &&& (#[trigger] signals[i]).terms == term_set(question).len()
        &&& signals[i].length >= 1
        &&& signals[i].matched >= 1
        &&& exists|p: int, w: Seq<char>|
            0 <= p < paths.len() && (#[trigger] paths[p]).chunk_id == signals[i].chunk_id
                && has_term(question, w) && #[trigger] has_term(paths[p].entity_name, w)
    } by {
        let p = lemma_path_of(terms, paths, i);
        let name = paths[p].entity_name;
        lemma_term_list(question, terms, name);
        let b = q.intersect(term_set(name));
        vstd::set_lib::lemma_len_subset(b, q);
        vstd::set_lib::lemma_set_empty_equivalency_len(b);
        let w = b.choose();
        assert(b.contains(w));
        assert(has_term(question, w) && has_term(paths[p].entity_name, w));
    }
}

proof fn lemma_hit_scores(points: Seq<QdrantPoint>, id: Seq<char>)
    ensures
        hits(points).contains_key(id) ==> {
            let c = hits(points)[id];
            &&& c.full_text_bits == 0 && c.graph_path_bits == 0
            &&& forall|i: int|
                0 <= i < points.len() && (#[trigger] points[i]).chunk_id is Some
                    && points[i].chunk_id->0@ == id && points[i].text is Some ==> points[i].score_bits
                    <= c.vector_bits
            &&& exists|i: int|
                0 <= i < points.len() && (#[trigger] points[i]).chunk_id is Some
                    && points[i].chunk_id->0@ == id && points[i].text is Some && points[i].score_bits
                    == c.vector_bits
            &&& exists|i: int|
                0 <= i < points.len() && (#[trigger] points[i]).chunk_id is Some
                    && points[i].chunk_id->0@ == id && points[i].text is Some && points[i].text->0@
                    == c.text
        },
    decreases points.len(),
{
    if points.len() > 0 {
        let rest = points.drop_last();
        let last = points.last();
        lemma_hit_scores(rest, id);
        lemma_hits(rest, id);
        assert(points[points.len() - 1] == last);
        if hits(points).contains_key(id) {
            let c = hits(points)[id];
            assert forall|i: int|
                0 <= i < points.len() && (#[trigger] points[i]).chunk_id is Some
                    && points[i].chunk_id->0@ == id && points[i].text is Some implies points[i].score_bits
                <= c.vector_bits by {
                if i < rest.len() {
                    assert(rest[i] == points[i]);
                    assert(chunk_of(rest[i]) is Some);
                    assert(is_hit(rest, id));
                }
            }
            if hits(rest).contains_key(id) {
                let before = hits(rest)[id];
                let i = choose|i: int|
                    0 <= i < rest.len() && (#[trigger] rest[i]).chunk_id is Some
                        && rest[i].chunk_id->0@ == id && rest[i].text is Some && rest[i].score_bits
                        == before.vector_bits;
                let t = choose|i: int|
                    0 <= i < rest.len() && (#[trigger] rest[i]).chunk_id is Some
                        && rest[i].chunk_id->0@ == id && rest[i].text is Some && rest[i].text->0@
                        == before.text;
                assert(points[i] == rest[i] && points[t] == rest[t]);
                assert(c.text == before.text);
            }
        }
    }
}

proof fn lemma_match_scores(
    pool: Pool,
    index: Map<Seq<char>, IndexedView>,
    scores: Seq<(u32, Seq<char>)>,
    id: Seq<char>,
)
    ensures
        matched(pool, index, scores).contains_key(id) ==> {
            let c = matched(pool, index, scores)[id];
            &&& pool.contains_key(id) ==> c.text == pool[id].text && c.vector_bits
                == pool[id].vector_bits && c.graph_path_bits == pool[id].graph_path_bits
            &&& !pool.contains_key(id) ==> c.text == index[id].text && c.vector_bits == 0
                && c.graph_path_bits == 0
            &&& c.full_text_bits == (if pool.contains_key(id) {
                pool[id].full_text_bits
            } else {
                0
            }) || scores.contains((c.full_text_bits, id))
        },
        forall|i: int|
            0 <= i < scores.len() && (#[trigger] scores[i]).1 == id && index.contains_key(id)
                ==> matched(pool, index, scores).contains_key(id) && scores.contains(
                (matched(pool, index, scores)[id].full_text_bits, id),
            ),
    decreases scores.len(),
{
    if scores.len() > 0 {
        let rest = scores.drop_last();
        lemma_match_scores(pool, index, rest, id);
        lemma_matched(pool, index, rest, id);
        crate::text::lemma_push_contains(rest, scores.last());
        assert(rest.push(scores.last()) =~= scores);
        let after = matched(pool, index, scores);
        assert forall|i: int|
            0 <= i < scores.len() && (#[trigger] scores[i]).1 == id && index.contains_key(
                id,
            ) implies after.contains_key(id) && scores.contains((after[id].full_text_bits, id)) by {
            if i < rest.len() {
                assert(rest[i] == scores[i]);
            }
            if scores.last().1 == id {
                assert((after[id].full_text_bits, id) == scores.last());
            }
        }
        if scores.last().1 == id && index.contains_key(id) {
            assert((after[id].full_text_bits, id) == scores.last());
        }
    }
}

proof fn lemma_path_scores(
    pool: Pool,
    index: Map<Seq<char>, IndexedView>,
    scores: Seq<(u32, Seq<char>)>,
    id: Seq<char>,
)
    ensures
        reached(pool, index, scores).contains_key(id) ==> {
            let c = reached(pool, index, scores)[id];
            &&& pool.contains_key(id) ==> c.text == pool[id].text && c.vector_bits
                == pool[id].vector_bits && c.full_text_bits == pool[id].full_text_bits
            &&& !pool.contains_key(id) ==> c.text == index[id].text && c.vector_bits == 0
                && c.full_text_bits == 0
            &&& c.graph_path_bits == (if pool.contains_key(id) {
                pool[id].graph_path_bits
            } else {
                0
            }) || scores.contains((c.graph_path_bits, id))
        },
        forall|i: int|
            0 <= i < scores.len() && (#[trigger] scores[i]).1 == id && (index.contains_key(id)
                || pool.contains_key(id)) ==> reached(pool, index, scores).contains_key(id)
                && scores.contains((reached(pool, index, scores)[id].graph_path_bits, id)),
    decreases scores.len(),
{
    if scores.len() > 0 {
        let rest = scores.drop_last();
        lemma_path_scores(pool, index, rest, id);
        lemma_reached(pool, index, rest, id);
        crate::text::lemma_push_contains(rest, scores.last());
        assert(rest.push(scores.last()) =~= scores);
        let after = reached(pool, index, scores);
        assert forall|i: int|
            0 <= i < scores.len() && (#[trigger] scores[i]).1 == id && (index.contains_key(id)
                || pool.contains_key(id)) implies after.contains_key(id) && scores.contains(
            (after[id].graph_path_bits, id),
        ) by {
            if i < rest.len() {
                assert(rest[i] == scores[i]);
            }
            if scores.last().1 == id {
                assert((after[id].graph_path_bits, id) == scores.last());
            }
        }
        if scores.last().1 == id && after.contains_key(id) {
            assert((after[id].graph_path_bits, id) == scores.last());
        }
    }
}

/// A candidate carries the evidence that was found for it: the best score of its points, its score of the
/// full text and its score of the graph, each zero where there is none; its text is that of a point of
/// its id, or else that of the index.
pub proof fn law_candidates_carry_their_scores(
    points: Seq<QdrantPoint>,
    index: Map<Seq<char>, IndexedView>,
    full_text: Seq<(u32, Seq<char>)>,
    graph: Seq<(u32, Seq<char>)>,
    id: Seq<char>,
)
    ensures
        forall|i: int|
            0 <= i < full_text.len() && (#[trigger] full_text[i]).1 == id && index.contains_key(id)
                ==> pool_of(points, index, full_text, graph).contains_key(id) && full_text.contains(
                (pool_of(points, index, full_text, graph)[id].full_text_bits, id),
            ),
        forall|i: int|
            0 <= i < graph.len() && (#[trigger] graph[i]).1 == id && (index.contains_key(id)
                || is_hit(points, id)) ==> pool_of(points, index, full_text, graph).contains_key(id)
                && graph.contains((pool_of(points, index, full_text, graph)[id].graph_path_bits, id)),
        pool_of(points, index, full_text, graph).contains_key(id) ==> {
            let c = pool_of(points, index, full_text, graph)[id];
            &&& c.full_text_bits == 0 || full_text.contains((c.full_text_bits, id))
            &&& c.graph_path_bits == 0 || graph.contains((c.graph_path_bits, id))
            &&& !is_hit(points, id) ==> c.vector_bits == 0 && c.text == index[id].text
            &&& is_hit(points, id) ==> {
                &&& forall|i: int|
                    0 <= i < points.len() && (#[trigger] points[i]).chunk_id is Some
                        && points[i].chunk_id->0@ == id && points[i].text is Some
                        ==> points[i].score_bits <= c.vector_bits
                &&& exists|i: int|
                    0 <= i < points.len() && (#[trigger] points[i]).chunk_id is Some
                        && points[i].chunk_id->0@ == id && points[i].text is Some
                        && points[i].score_bits == c.vector_bits
                &&& exists|i: int|
                    0 <= i < points.len() && (#[trigger] points[i]).chunk_id is Some
                        && points[i].chunk_id->0@ == id && points[i].text is Some
                        && points[i].text->0@ == c.text
            }
        },
{
    let found = hits(points);
    let two = matched(found, index, full_text);
    lemma_hits(points, id);
    lemma_hit_scores(points, id);
    lemma_matched(found, index, full_text, id);
    lemma_match_scores(found, index, full_text, id);
    lemma_reached(two, index, graph, id);
    lemma_path_scores(two, index, graph, id);
}

/// How a chunk matches a question is told by its words: the count of its text is positive exactly where the
/// text has a word of the question, that of its title exactly where the title has one, and each is the
/// number of such words.
pub proof fn law_text_match_counts_words(
    question: &str,
    chunk: &IndexedChunk,
    m: TextMatch,
    word: Seq<char>,
)
    requires
        call_ensures(text_match, (question, chunk), m),
    ensures
        has_term(question@, word) && has_term(chunk.text@, word) ==> m.body > 0,
        has_term(question@, word) && has_term(chunk.title@, word) ==> m.title > 0,
        m.body > 0 ==> exists|w: Seq<char>|
            has_term(question@, w) && #[trigger] has_term(chunk.text@, w),
        m.title > 0 ==> exists|w: Seq<char>|
            has_term(question@, w) && #[trigger] has_term(chunk.title@, w),
        term_set(question@).len() <= u16::MAX ==> {
            &&& m.terms == term_set(question@).len()
            &&& m.body == term_set(question@).intersect(term_set(chunk.text@)).len()
            &&& m.title == term_set(question@).intersect(term_set(chunk.title@)).len()
        },
{
    law_matches_count_shared_words(question@, chunk.text@, chunk.title@, m, word);
}

/// The distinct terms of a text are its words of two letters or more in lower case, each once.
pub proof fn law_unique_terms_are_the_words(text: &str, terms: Vec<String>, term: Seq<char>)
    requires
        call_ensures(unique_terms, (text,), terms),
    ensures
        texts(terms@).contains(term) <==> exists|i: int, j: int| #[trigger]
            stands_alone(text@, i, j) && j - i >= 2 && unicode_lowercase(text@.subrange(i, j)) == term,
        texts(terms@).no_duplicates(),
{
    law_terms_are_words(text@, term);
    let list = texts(terms@);
    assert forall|i: int, j: int| 0 <= i < list.len() && 0 <= j < list.len() && i != j implies list[i]
        != list[j] by {
        crate::text::lemma_text_less_total(list[i], list[j]);
        if i < j {
            assert(crate::text::text_less(list[i], list[j]));
        } else {
            assert(crate::text::text_less(list[j], list[i]));
        }
    }
}

/// The full text ranks the chunks that match, the best first: what is ranked was given with a score above
/// zero, scores never rise, and a matching chunk is left out only where the list is full of chunks that
/// score no less.
pub proof fn law_full_text_ranking_keeps_the_best(
    scores: Vec<Scored>,
    limit: usize,
    res: Vec<Scored>,
    i: int,
    j: int,
)
    requires
        call_ensures(rank_full_text, (scores, limit), res),
        0 <= i < scores@.len(),
        0 <= j < res@.len() || res@.len() == 0,
    ensures
        res@.len() <= limit,
        res@.len() > 0 ==> 0 < res@[j].bits <= 0x7f80_0000 && scored_views(scores@).contains(
            res@[j]@,
        ),
        res@.len() > 0 ==> forall|k: int| 0 <= k <= j ==> (#[trigger] res@[k]).bits >= res@[j].bits,
        0 < scores@[i].bits <= 0x7f80_0000 && !scored_views(res@).contains(scores@[i]@) ==> res@.len()
            == limit && forall|k: int| 0 <= k < limit ==> (#[trigger] res@[k]).bits >= scores@[i].bits,
{
    let all = scored_views(scores@);
    let top = top_ranked(positive(all), limit as nat);
    assert(scored_views(res@) == top);
    crate::ranking::law_ranking_keeps_the_best(positive(all), limit as nat, all[i]);
    assert(all[i] == scores@[i]@);
    assert(all.contains(all[i]));
    law_full_text_ranks_what_matches(all, limit as nat, all[i]);
    if res@.len() > 0 {
        assert(top[j] == res@[j]@);
        assert(top.contains(top[j]));
        law_full_text_ranks_what_matches(all, limit as nat, top[j]);
        assert forall|k: int| 0 <= k <= j implies (#[trigger] res@[k]).bits >= res@[j].bits by {
            assert(top[k] == res@[k]@);
            assert(top.contains(top[k]));
            law_full_text_ranks_what_matches(all, limit as nat, top[k]);
            crate::ranking::law_ranking_is_bounded_and_descending(positive(all), limit as nat, k, j);
        }
    }
    if 0 < scores@[i].bits <= 0x7f80_0000 && !scored_views(res@).contains(scores@[i]@) {
        assert forall|k: int| 0 <= k < limit implies (#[trigger] res@[k]).bits >= scores@[i].bits by {
            assert(top[k] == res@[k]@);
        }
    }
}

/// An answer cites the best: of the candidates the cited ones have the highest fused scores, in falling
/// order, and each is cited with its own score and text.
pub proof fn law_answers_cite_the_best(
    candidates: &Vec<Candidate>,
    fused: &Vec<u32>,
    limit: usize,
    res: Vec<QueryChunk>,
    i: int,
    j: int,
)
    requires
        unique_keys(candidate_views(candidates@)),
        fused@.len() == candidates@.len(),
        call_ensures(select, (candidates, fused, limit), res),
        0 <= i < candidates@.len(),
        0 <= j < res@.len(),
        forall|k: int| 0 <= k < fused@.len() ==> #[trigger] fused@[k] < 0x8000_0000,
    ensures
        res@.len() == if limit < candidates@.len() {
            limit as nat
        } else {
            candidates@.len()
        },
        exists|c: int|
            {
                &&& 0 <= c < candidates@.len()
                &&& (#[trigger] candidates@[c]).chunk_id@ == res@[j].chunk_id@
                &&& candidates@[c].text@ == res@[j].text@
                &&& fused@[c] == res@[j].score_bits
            },
        (forall|k: int|
            0 <= k < res@.len() ==> (#[trigger] res@[k]).chunk_id@ != candidates@[i].chunk_id@)
            ==> res@[j].score_bits >= fused@[i],
        forall|k: int| 0 <= k <= j ==> (#[trigger] res@[k]).score_bits >= res@[j].score_bits,
{
    let items = fused_views(candidates@, fused@);
    let shown = res@.map_values(|c: QueryChunk| (c.score_bits, c.chunk_id@));
    let top = top_ranked(items, limit as nat);
    crate::ranking::law_ranking_keeps_the_best(items, limit as nat, items[i]);
    assert(items[i] == (fused@[i], candidates@[i].chunk_id@));
    assert(items.contains(items[i]));
    assert forall|k: int| 0 <= k < top.len() implies (#[trigger] top[k]).0 < 0x8000_0000 by {
        crate::ranking::law_ranking_keeps_the_best(items, limit as nat, top[k]);
        assert(top.contains(top[k]));
        let c = choose|c: int| 0 <= c < items.len() && items[c] == top[k];
        assert(items[c].0 == fused@[c]);
    }
    assert(shown[j] == top[j]);
    crate::ranking::law_ranking_keeps_the_best(items, limit as nat, top[j]);
    assert(top.contains(top[j]));
    let c = choose|c: int| 0 <= c < items.len() && items[c] == top[j];
    assert(items[c] == (fused@[c], candidates@[c].chunk_id@));
    let views = candidate_views(candidates@);
    lemma_assoc(views);
    assert(views[c] == candidates@[c]@);
    assert(candidates@[c].chunk_id@ == res@[j].chunk_id@);
    if forall|k: int|
        0 <= k < res@.len() ==> (#[trigger] res@[k]).chunk_id@ != candidates@[i].chunk_id@ {
        assert(!top.contains(items[i])) by {
            if top.contains(items[i]) {
                let k = choose|k: int| 0 <= k < top.len() && top[k] == items[i];
                assert(shown[k] == top[k]);
                assert(res@[k].chunk_id@ == candidates@[i].chunk_id@);
            }
        }
        assert(top[j].0 < 0x8000_0000);
        assert(fused@[i] < 0x8000_0000);
    }
    assert forall|k: int| 0 <= k <= j implies (#[trigger] res@[k]).score_bits >= res@[j].score_bits by {
        assert(shown[k] == top[k]);
        assert(top[k].0 < 0x8000_0000 && top[j].0 < 0x8000_0000);
        crate::ranking::law_ranking_is_bounded_and_descending(items, limit as nat, k, j);
    }
}

/// The graph's evidence names chunks that mention an entity of the question: every path to an entity whose
/// name has a word of the question gives a signal for its chunk, and every signal comes from such a path.
pub proof fn law_graph_signals_name_mentioning_chunks(
    question: &str,
    paths: &Vec<GraphPath>,
    res: Vec<GraphSignal>,
    k: int,
    i: int,
    word: Seq<char>,
)
    requires
        call_ensures(graph_signals, (question, paths), res),
        term_set(question@).len() <= u16::MAX,
    ensures
        0 <= k < paths@.len() && 1 <= paths@[k].length <= u16::MAX && has_term(question@, word)
            && has_term(paths@[k].entity_name@, word) ==> exists|n: int|
            {
                &&& 0 <= n < res@.len()
                &&& (#[trigger] res@[n]).chunk_id@ == paths@[k].chunk_id@
                &&& res@[n].matched == term_set(question@).intersect(
                    term_set(paths@[k].entity_name@),
                ).len()
                &&& res@[n].length == paths@[k].length
            },
        0 <= i < res@.len() ==> res@[i].terms == term_set(question@).len() && exists|
            p: int,
            w: Seq<char>,
        |
            0 <= p < paths@.len() && (#[trigger] paths@[p]).chunk_id@ == res@[i].chunk_id@ && has_term(
                question@,
                w,
            ) && #[trigger] has_term(paths@[p].entity_name@, w),
{
    let (ps, ss) = (path_views(paths@), signal_views(res@));
    law_paths_to_named_entities_are_signals(question@, ps, ss, k, word);
    if 0 <= k < paths@.len() && 1 <= paths@[k].length <= u16::MAX && has_term(question@, word)
        && has_term(paths@[k].entity_name@, word) {
        assert(ps[k] == paths@[k]@);
        let n = choose|n: int|
            {
                &&& 0 <= n < ss.len()
                &&& (#[trigger] ss[n]).chunk_id == ps[k].chunk_id
                &&& ss[n].matched == term_set(question@).intersect(term_set(ps[k].entity_name)).len()
                &&& ss[n].length == ps[k].length
            };
        assert(ss[n] == res@[n]@);
    }
    if 0 <= i < res@.len() {
        assert(ss[i] == res@[i]@);
        let (p, w) = choose|p: int, w: Seq<char>|
            0 <= p < ps.len() && (#[trigger] ps[p]).chunk_id == ss[i].chunk_id && has_term(
                question@,
                w,
            ) && #[trigger] has_term(ps[p].entity_name, w);
        assert(ps[p] == paths@[p]@);
        assert(has_term(paths@[p].entity_name@, w));
    }
}

/// Candidates carry what was found for them: a gathered candidate has the best score of its points, its
/// score of the full text and its score of the graph, or zero, and every chunk of a point, and every
/// indexed chunk that the full text scored, is gathered.
pub proof fn law_gathered_candidates_carry_their_scores(
    points: &Vec<QdrantPoint>,
    index: &Vec<IndexedChunk>,
    full_text: &Vec<Scored>,
    graph: &Vec<Scored>,
    res: Vec<Candidate>,
    c: int,
    id: Seq<char>,
)
    requires
        call_ensures(gather, (points, index, full_text, graph), res),
    ensures
        is_hit(points@, id) || (index_of(index@).contains_key(id) && exists|i: int|
            0 <= i < full_text@.len() && (#[trigger] full_text@[i]).id@ == id) ==> exists|k: int|
            0 <= k < res@.len() && (#[trigger] res@[k]).chunk_id@ == id,
        0 <= c < res@.len() ==> {
            let found = res@[c];
            &&& found.full_text_bits == 0 || scored_views(full_text@).contains(
                (found.full_text_bits, found.chunk_id@),
            )
            &&& found.graph_path_bits == 0 || scored_views(graph@).contains(
                (found.graph_path_bits, found.chunk_id@),
            )
            &&& !is_hit(points@, found.chunk_id@) ==> found.vector_bits == 0
            &&& forall|i: int|
                0 <= i < points@.len() && (#[trigger] points@[i]).chunk_id is Some
                    && points@[i].chunk_id->0@ == found.chunk_id@ && points@[i].text is Some
                    ==> points@[i].score_bits <= found.vector_bits
        },
{
    let (f, g) = (scored_views(full_text@), scored_views(graph@));
    let pool = pool_of(points@, index_of(index@), f, g);
    let views = candidate_views(res@);
    lemma_assoc(views);
    law_candidates_have_evidence(points@, index_of(index@), f, g, id);
    law_candidates_carry_their_scores(points@, index_of(index@), f, g, id);
    if is_hit(points@, id) || (index_of(index@).contains_key(id) && exists|i: int|
        0 <= i < full_text@.len() && (#[trigger] full_text@[i]).id@ == id) {
        if !is_hit(points@, id) {
            let i = choose|i: int| 0 <= i < full_text@.len() && (#[trigger] full_text@[i]).id@ == id;
            assert(f[i] == full_text@[i]@);
        }
        assert(pool.contains_key(id));
        let k = choose|k: int| 0 <= k < views.len() && (#[trigger] views[k]).0 == id;
        assert(views[k] == res@[k]@);
        assert(res@[k].chunk_id@ == id);
    }
    if 0 <= c < res@.len() {
        let key = res@[c].chunk_id@;
        assert(views[c] == res@[c]@);
        assert(pool.contains_key(key) && pool[key] == res@[c]@.1);
        law_candidates_carry_their_scores(points@, index_of(index@), f, g, key);
        if !is_hit(points@, key) {
            assert forall|i: int|
                0 <= i < points@.len() && (#[trigger] points@[i]).chunk_id is Some
                    && points@[i].chunk_id->0@ == key && points@[i].text is Some implies points@[i].score_bits
                <= res@[c].vector_bits by {
                assert(chunk_of(points@[i]) is Some);
            }
        }
    }
}

} // verus!
