//! Indexing: canonical chunks, their identities, and what becomes of a queued artifact.

use vstd::prelude::*;
use vstd::string::StringExecFns;

use crate::digest::{sha256_hex, text_digest};
use crate::text::{
    byte_len, char_width, chars_of, decimal, decimal_string, is_white, is_whitespace, string_of,
    trim, trimmed, width_of,
};

verus! {

/// The largest chunk, in bytes.
pub const MAX_CHUNK_CHARS: u64 = 2_400;

/// How far a chunk reaches back into the one before, in bytes.
pub const OVERLAP_CHARS: u64 = 240;

/// The version of the artifacts.
pub const ARTIFACT_VERSION: u8 = 1;

/// Errors raised by the indexer process.
#[derive(Debug, Clone, PartialEq, Eq)]
pub enum IndexerError {
    /// A clean artifact could not be decoded.
    Artifact(String),
    /// A local file operation failed.
    Storage(String),
    /// The local embedding model could not be loaded or used.
    Embedder(String),
    /// The vector store rejected a request or was unavailable.
    Qdrant(String),
}

impl IndexerError {
    /// The message of the error.
    pub open spec fn text(self) -> Seq<char> {
        match self {
            IndexerError::Artifact(m) => "invalid artifact: "@ + m@,
            IndexerError::Storage(m) => "storage: "@ + m@,
            IndexerError::Embedder(m) => "embedder: "@ + m@,
            IndexerError::Qdrant(m) => "qdrant: "@ + m@,
        }
    }

    /// The message of the error.
    pub fn message(&self) -> (res: String)
        ensures
            res@ == self.text(),
    {
        let (start, rest) = match self {
            IndexerError::Artifact(m) => ("invalid artifact: ", m),
            IndexerError::Storage(m) => ("storage: ", m),
            IndexerError::Embedder(m) => ("embedder: ", m),
            IndexerError::Qdrant(m) => ("qdrant: ", m),
        };
        let mut s = start.to_owned();
        s.append(rest.as_str());
        s
    }
}

/// A clean document, as the indexer is handed it.
#[derive(Debug)]
pub struct CleanArtifact {
    /// The version of the artifact.
    pub schema_version: u8,
    /// Stable document identity.
    pub document_id: String,
    /// Source URL.
    pub source_url: String,
    /// Source title.
    pub title: String,
    /// The text.
    pub markdown: String,
}

/// One chunk of a document.
#[derive(Debug)]
pub struct Chunk {
    /// Stable chunk identity derived from document identity and sequence.
    pub id: String,
    /// Source document identity.
    pub document_id: String,
    /// Human-readable source title.
    pub title: String,
    /// Source URL.
    pub source_url: String,
    /// Text stored in the vector payload and returned as evidence.
    pub text: String,
    /// Position within the canonical chunk sequence.
    pub sequence: usize,
}

/// What an indexed document is published as.
#[derive(Debug)]
pub struct IndexedArtifact {
    /// Version of the artifact.
    pub schema_version: u8,
    /// Stable document identity.
    pub document_id: String,
    /// Source URL.
    pub source_url: String,
    /// Source title.
    pub title: String,
    /// Canonical chunks.
    pub chunks: Vec<Chunk>,
    /// Index completion timestamp.
    pub indexed_at: String,
}

/// Accepts the version of a clean artifact.
pub fn validate_version(version: u8) -> (res: Result<(), IndexerError>)
    ensures
        if version == ARTIFACT_VERSION {
            res is Ok
        } else {
            res matches Err(IndexerError::Artifact(m)) && m@
                == "unsupported clean artifact schema version "@ + decimal(version as nat)
                + "; expected "@ + decimal(ARTIFACT_VERSION as nat)
        },
{
    if version == ARTIFACT_VERSION {
        Ok(())
    } else {
        let mut s = "unsupported clean artifact schema version ".to_owned();
        s.append(decimal_string(version as u64).as_str());
        s.append("; expected ");
        s.append(decimal_string(ARTIFACT_VERSION as u64).as_str());
        Err(IndexerError::Artifact(s))
    }
}

// ---------------------------------------------------------------------------------------------
// Where chunks begin and end.
// ---------------------------------------------------------------------------------------------
/// The place `n` bytes after place `i`, or the end of the text; nothing where that is inside a
/// character.
pub open spec fn after_bytes(t: Seq<char>, i: int, n: int) -> Option<int>
    decreases t.len() - i,
{
    if n <= 0 || i >= t.len() {
        Some(i)
    } else if char_width(t[i]) > n {
        None
    } else {
        after_bytes(t, i + 1, n - char_width(t[i]))
    }
}

/// The place `n` bytes before place `i`, or the start of the text; nothing where that is inside a
/// character.
pub open spec fn before_bytes(t: Seq<char>, i: int, n: int) -> Option<int>
    decreases i,
{
    if n <= 0 || i <= 0 {
        Some(i)
    } else if char_width(t[i - 1]) > n {
        None
    } else {
        before_bytes(t, i - 1, n - char_width(t[i - 1]))
    }
}

/// The last white space at or after `i` and before `j`.
pub open spec fn last_white(t: Seq<char>, i: int, j: int) -> Option<int>
    decreases j - i,
{
    if j <= i {
        None
    } else if is_white(t[j - 1]) {
        Some(j - 1)
    } else {
        last_white(t, i, j - 1)
    }
}

/// Where the chunk that begins at `i` ends, when there is room up to `j`: at the last white space
/// inside it, unless the text ends there or there is none.
pub open spec fn chunk_end(t: Seq<char>, i: int, j: int) -> int {
    if j < t.len() {
        match last_white(t, i, j) {
            Some(k) if k > i => k,
            _ => j,
        }
    } else {
        j
    }
}

/// Where the chunks from place `i` on begin and end. Nothing where a bound falls inside a character,
/// or where a chunk would not begin after the one before.
pub open spec fn spans(t: Seq<char>, i: int) -> Option<Seq<(int, int)>>
    decreases t.len() - i,
{
    if i >= t.len() {
        Some(seq![])
    } else {
        match after_bytes(t, i, MAX_CHUNK_CHARS as int) {
            None => None,
            Some(j) => {
                let e = chunk_end(t, i, j);
                if e >= t.len() {
                    Some(seq![(i, e)])
                } else {
                    match before_bytes(t, e, OVERLAP_CHARS as int) {
                        Some(m) if i < m < t.len() => match spans(t, m) {
                            Some(rest) => Some(seq![(i, e)] + rest),
                            None => None,
                        },
                        _ => None,
                    }
                }
            },
        }
    }
}

/// Whether a text can be cut into chunks: every bound falls between characters, and every chunk
/// begins after the one before.
pub open spec fn chunkable(markdown: Seq<char>) -> bool {
    spans(trimmed(markdown), 0) is Some
}

/// The texts of spans, trimmed, without the empty ones.
pub open spec fn pieces(t: Seq<char>, list: Seq<(int, int)>) -> Seq<Seq<char>>
    decreases list.len(),
{
    if list.len() == 0 {
        seq![]
    } else {
        let piece = trimmed(t.subrange(list.last().0, list.last().1));
        if piece.len() == 0 {
            pieces(t, list.drop_last())
        } else {
            pieces(t, list.drop_last()).push(piece)
        }
    }
}

/// The texts of the chunks of a document.
pub open spec fn chunk_texts(markdown: Seq<char>) -> Seq<Seq<char>> {
    let t = trimmed(markdown);
    pieces(t, spans(t, 0)->0)
}

/// What names a chunk: its document and its place.
pub open spec fn chunk_name(document_id: Seq<char>, sequence: nat) -> Seq<char> {
    document_id + ":"@ + decimal(sequence)
}

/// Whether a chunk is the one of a document at a place.
pub open spec fn is_chunk(clean: CleanArtifact, k: int, text: Seq<char>, c: Chunk) -> bool {
    &&& c.id@ == text_digest(chunk_name(clean.document_id@, k as nat))
    &&& c.document_id@ == clean.document_id@
    &&& c.title@ == clean.title@
    &&& c.source_url@ == clean.source_url@
    &&& c.text@ == text
    &&& c.sequence == k
}

/// The places of spans.
pub open spec fn span_views(v: Seq<(usize, usize)>) -> Seq<(int, int)> {
    v.map_values(|s: (usize, usize)| (s.0 as int, s.1 as int))
}

proof fn lemma_after_bytes(t: Seq<char>, i: int, n: int)
    requires
        0 <= i <= t.len(),
    ensures
        after_bytes(t, i, n) matches Some(j) ==> i <= j <= t.len(),
        n > 0 && i < t.len() ==> (after_bytes(t, i, n) matches Some(j) ==> i < j),
        n >= 0 ==> (after_bytes(t, i, n) matches Some(j) ==> byte_len(t.subrange(i, j)) <= n),
    decreases t.len() - i,
{
    if n <= 0 || i >= t.len() {
        assert(t.subrange(i, i) =~= seq![]);
    } else if char_width(t[i]) <= n {
        lemma_after_bytes(t, i + 1, n - char_width(t[i]));
        if let Some(j) = after_bytes(t, i, n) {
            lemma_byte_len_first(t.subrange(i, j));
            assert(t.subrange(i, j).drop_first() =~= t.subrange(i + 1, j));
        }
    }
}

proof fn lemma_byte_len_first(s: Seq<char>)
    requires
        s.len() > 0,
    ensures
        byte_len(s) == char_width(s[0]) + byte_len(s.drop_first()),
    decreases s.len(),
{
    if s.len() > 1 {
        lemma_byte_len_first(s.drop_last());
        assert(s.drop_last().drop_first() =~= s.drop_first().drop_last());
        assert(s.drop_first().last() == s.last());
    } else {
        assert(s.drop_last() =~= seq![]);
        assert(s.drop_first() =~= seq![]);
    }
}

proof fn lemma_last_white(t: Seq<char>, i: int, j: int)
    ensures
        last_white(t, i, j) matches Some(k) ==> i <= k < j,
    decreases j - i,
{
    if i < j && !is_white(t[j - 1]) {
        lemma_last_white(t, i, j - 1);
    }
}

fn ahead(t: &Vec<char>, i: usize, n: u64) -> (res: Option<usize>)
    requires
        i <= t@.len(),
    ensures
        match res {
            Some(j) => after_bytes(t@, i as int, n as int) == Some(j as int),
            None => after_bytes(t@, i as int, n as int) is None,
        },
{
    let mut j: usize = i;
    let mut left: u64 = n;
    while left > 0 && j < t.len()
        invariant
            i <= j <= t@.len(),
            after_bytes(t@, i as int, n as int) == after_bytes(t@, j as int, left as int),
        decreases t@.len() - j,
    {
        let w: u64 = width_of(t[j]) as u64;
        if w > left {
            return None;
        }
        left = left - w;
        j = j + 1;
    }
    Some(j)
}

fn back(t: &Vec<char>, i: usize, n: u64) -> (res: Option<usize>)
    requires
        i <= t@.len(),
    ensures
        match res {
            Some(j) => before_bytes(t@, i as int, n as int) == Some(j as int),
            None => before_bytes(t@, i as int, n as int) is None,
        },
{
    let mut j: usize = i;
    let mut left: u64 = n;
    while left > 0 && j > 0
        invariant
            j <= i <= t@.len(),
            before_bytes(t@, i as int, n as int) == before_bytes(t@, j as int, left as int),
        decreases j,
    {
        let w: u64 = width_of(t[j - 1]) as u64;
        if w > left {
            return None;
        }
        left = left - w;
        j = j - 1;
    }
    Some(j)
}

fn end_of_chunk(t: &Vec<char>, i: usize, j: usize) -> (res: usize)
    requires
        i < j <= t@.len(),
    ensures
        res == chunk_end(t@, i as int, j as int),
        i < res <= j,
{
    proof {
        lemma_last_white(t@, i as int, j as int);
    }
    if j == t.len() {
        return j;
    }
    let mut k: usize = j;
    while k > i
        invariant
            i <= k <= j < t@.len(),
            last_white(t@, i as int, j as int) == last_white(t@, i as int, k as int),
        decreases k,
    {
        if is_whitespace(t[k - 1]) {
            return if k - 1 > i {
                k - 1
            } else {
                j
            };
        }
        k = k - 1;
    }
    j
}

fn cut(t: &Vec<char>) -> (res: Option<Vec<(usize, usize)>>)
    ensures
        match res {
            Some(v) => spans(t@, 0) == Some(span_views(v@)) && forall|k: int|
                0 <= k < v@.len() ==> (#[trigger] v@[k]).0 <= v@[k].1 <= t@.len(),
            None => spans(t@, 0) is None,
        },
{
    let mut res: Vec<(usize, usize)> = Vec::new();
    let mut start: usize = 0;
    assert(span_views(res@) =~= seq![]);
    proof {
        if let Some(rest) = spans(t@, 0) {
            assert(seq![] + rest =~= rest);
        }
    }
    while start < t.len()
        invariant
            start <= t@.len(),
            spans(t@, 0) is Some <==> spans(t@, start as int) is Some,
            spans(t@, 0) is Some ==> spans(t@, 0)->0 == span_views(res@) + spans(
                t@,
                start as int,
            )->0,
            forall|k: int|
                0 <= k < res@.len() ==> (#[trigger] res@[k]).0 <= res@[k].1 <= t@.len(),
        decreases t@.len() - start,
    {
        proof {
            lemma_after_bytes(t@, start as int, MAX_CHUNK_CHARS as int);
        }
        let room: usize = match ahead(t, start, MAX_CHUNK_CHARS) {
            None => {
                return None;
            },
            Some(j) => j,
        };
        let end: usize = end_of_chunk(t, start, room);
        let ghost before = span_views(res@);
        res.push((start, end));
        assert(span_views(res@) =~= before + seq![(start as int, end as int)]);
        if end == t.len() {
            return Some(res);
        }
        match back(t, end, OVERLAP_CHARS) {
            None => {
                return None;
            },
            Some(m) => {
                if m <= start {
                    return None;
                }
                proof {
                    if let Some(rest) = spans(t@, m as int) {
                        assert(before + (seq![(start as int, end as int)] + rest) =~= span_views(
                            res@,
                        ) + rest);
                    }
                }
                assert(m <= end) by {
                    lemma_before_bytes(t@, end as int, OVERLAP_CHARS as int);
                }
                start = m;
            },
        }
    }
    assert(span_views(res@) + seq![] =~= span_views(res@));
    Some(res)
}

proof fn lemma_before_bytes(t: Seq<char>, i: int, n: int)
    requires
        0 <= i <= t.len(),
    ensures
        before_bytes(t, i, n) matches Some(j) ==> 0 <= j <= i,
    decreases i,
{
    if n > 0 && i > 0 && char_width(t[i - 1]) <= n {
        lemma_before_bytes(t, i - 1, n - char_width(t[i - 1]));
    }
}

/// Whether a text can be cut into chunks.
pub fn is_chunkable(markdown: &str) -> (res: bool)
    ensures
        res == chunkable(markdown@),
{
    let text = trim(markdown);
    let t = chars_of(text.as_str());
    cut(&t).is_some()
}

/// The stable identity of a chunk: a digest of what names it.
pub fn chunk_id(document_id: &str, sequence: usize) -> (res: String)
    ensures
        res@ == text_digest(chunk_name(document_id@, sequence as nat)),
        res@.len() == 64,
{
    let mut s = document_id.to_owned();
    s.append(":");
    s.append(decimal_string(sequence as u64).as_str());
    sha256_hex(s.as_str())
}

/// Cuts a document into its canonical chunks: overlapping runs of at most [`MAX_CHUNK_CHARS`] bytes
/// that end at white space where they can, trimmed and numbered from zero.
pub fn chunk(clean: &CleanArtifact) -> (res: Vec<Chunk>)
    requires
        chunkable(clean.markdown@),
    ensures
        res@.len() == chunk_texts(clean.markdown@).len(),
        forall|k: int|
            0 <= k < res@.len() ==> is_chunk(
                *clean,
                k,
                chunk_texts(clean.markdown@)[k],
                #[trigger] res@[k],
            ),
{
    let text = trim(clean.markdown.as_str());
    let t = chars_of(text.as_str());
    let mut res: Vec<Chunk> = Vec::new();
    if let Some(list) = cut(&t) {
        let ghost all = span_views(list@);
        let mut i: usize = 0;
        assert(all.take(0) =~= seq![]);
        while i < list.len()
            invariant
                i <= list@.len(),
                all == span_views(list@),
                forall|k: int|
                    0 <= k < list@.len() ==> (#[trigger] list@[k]).0 <= list@[k].1 <= t@.len(),
                res@.len() == pieces(t@, all.take(i as int)).len(),
                res@.len() <= i,
                forall|k: int|
                    0 <= k < res@.len() ==> is_chunk(
                        *clean,
                        k,
                        pieces(t@, all.take(i as int))[k],
                        #[trigger] res@[k],
                    ),
            decreases list@.len() - i,
        {
            let (lo, hi) = list[i];
            proof {
                assert(list@[i as int].0 <= list@[i as int].1);
                assert(all.take(i + 1).drop_last() =~= all.take(i as int));
                assert(all.take(i + 1).last() == (lo as int, hi as int));
            }
            let raw = string_of(t.as_slice(), lo, hi);
            let piece = trim(raw.as_str());
            if !piece.as_str().is_empty() {
                let sequence: usize = res.len();
                res.push(
                    Chunk {
                        id: chunk_id(clean.document_id.as_str(), sequence),
                        document_id: clean.document_id.clone(),
                        title: clean.title.clone(),
                        source_url: clean.source_url.clone(),
                        text: piece,
                        sequence,
                    },
                );
            }
            i = i + 1;
        }
        assert(all.take(i as int) =~= all);
    }
    res
}

/// The part of a text between two byte offsets.
pub open spec fn between_bytes(t: Seq<char>, from: int, to: int) -> Seq<char> {
    t.subrange(after_bytes(t, 0, from)->0, after_bytes(t, 0, to)->0)
}

/// Whether a text can be grouped into an identity: the offsets fall between characters, and there
/// are enough bytes.
pub open spec fn groups(t: Seq<char>) -> bool {
    &&& byte_len(t) >= 32
    &&& after_bytes(t, 0, 8) is Some
    &&& after_bytes(t, 0, 12) is Some
    &&& after_bytes(t, 0, 16) is Some
    &&& after_bytes(t, 0, 20) is Some
    &&& after_bytes(t, 0, 32) is Some
}

/// The identity of a chunk in the vector store: the first 32 bytes of its own, grouped.
pub open spec fn grouped(t: Seq<char>) -> Seq<char> {
    between_bytes(t, 0, 8) + "-"@ + between_bytes(t, 8, 12) + "-"@ + between_bytes(t, 12, 16)
        + "-"@ + between_bytes(t, 16, 20) + "-"@ + between_bytes(t, 20, 32)
}

proof fn lemma_farther(t: Seq<char>, i: int, n: int, m: int)
    requires
        0 <= i <= t.len(),
        n <= m,
        after_bytes(t, i, n) is Some,
        after_bytes(t, i, m) is Some,
    ensures
        after_bytes(t, i, n)->0 <= after_bytes(t, i, m)->0,
    decreases t.len() - i,
{
    if n <= 0 || i >= t.len() {
        lemma_after_bytes(t, i, m);
    } else {
        lemma_farther(t, i + 1, n - char_width(t[i]), m - char_width(t[i]));
    }
}

fn part(v: &Vec<char>, from: u64, to: u64) -> (res: String)
    requires
        from <= to,
        after_bytes(v@, 0, from as int) is Some,
        after_bytes(v@, 0, to as int) is Some,
    ensures
        res@ == between_bytes(v@, from as int, to as int),
{
    proof {
        lemma_after_bytes(v@, 0, from as int);
        lemma_after_bytes(v@, 0, to as int);
        lemma_farther(v@, 0, from as int, to as int);
    }
    match (ahead(v, 0, from), ahead(v, 0, to)) {
        (Some(lo), Some(hi)) => string_of(v.as_slice(), lo, hi),
        _ => String::new(),
    }
}

/// The identity of a chunk in the vector store.
pub fn point_id(chunk_id: &str) -> (res: String)
    requires
        groups(chunk_id@),
    ensures
        res@ == grouped(chunk_id@),
{
    let v = chars_of(chunk_id);
    let mut s = part(&v, 0, 8);
    s.append("-");
    s.append(part(&v, 8, 12).as_str());
    s.append("-");
    s.append(part(&v, 12, 16).as_str());
    s.append("-");
    s.append(part(&v, 16, 20).as_str());
    s.append("-");
    s.append(part(&v, 20, 32).as_str());
    s
}

/// Indexes a document: its version is accepted, and its chunks are published under its identity.
pub fn index_document(clean: &CleanArtifact, now: &str) -> (res: Result<
    IndexedArtifact,
    IndexerError,
>)
    requires
        clean.schema_version == ARTIFACT_VERSION ==> chunkable(clean.markdown@),
    ensures
        if clean.schema_version != ARTIFACT_VERSION {
            res matches Err(IndexerError::Artifact(m)) && m@
                == "unsupported clean artifact schema version "@ + decimal(
                clean.schema_version as nat,
            ) + "; expected "@ + decimal(ARTIFACT_VERSION as nat)
        } else {
            res matches Ok(a) && a.schema_version == ARTIFACT_VERSION && a.document_id@
                == clean.document_id@ && a.source_url@ == clean.source_url@ && a.title@
                == clean.title@ && a.indexed_at@ == now@ && a.chunks@.len() == chunk_texts(
                clean.markdown@,
            ).len() && forall|k: int|
                0 <= k < a.chunks@.len() ==> is_chunk(
                    *clean,
                    k,
                    chunk_texts(clean.markdown@)[k],
                    #[trigger] a.chunks@[k],
                )
        },
{
    match validate_version(clean.schema_version) {
        Err(e) => return Err(e),
        Ok(_) => {},
    }
    let chunks = chunk(clean);
    Ok(
        IndexedArtifact {
            schema_version: ARTIFACT_VERSION,
            document_id: clean.document_id.clone(),
            source_url: clean.source_url.clone(),
            title: clean.title.clone(),
            chunks,
            indexed_at: now.to_owned(),
        },
    )
}

/// Refuses to publish chunks with another number of vectors.
pub fn check_vectors(chunks: usize, vectors: usize) -> (res: Result<(), IndexerError>)
    ensures
        if chunks == vectors {
            res is Ok
        } else {
            res matches Err(IndexerError::Qdrant(m)) && m@ == "chunk/vector count mismatch"@
        },
{
    if chunks == vectors {
        Ok(())
    } else {
        Err(IndexerError::Qdrant("chunk/vector count mismatch".to_owned()))
    }
}

/// Decides on the answer to creating the collection: one that exists already is fine.
pub fn collection_outcome(status: u16, shown: &str) -> (res: Result<(), IndexerError>)
    ensures
        if 200 <= status < 300 || status == 409 {
            res is Ok
        } else {
            res matches Err(IndexerError::Qdrant(m)) && m@ == "collection creation returned "@
                + shown@
        },
{
    if (200 <= status && status < 300) || status == 409 {
        Ok(())
    } else {
        let mut s = "collection creation returned ".to_owned();
        s.append(shown);
        Err(IndexerError::Qdrant(s))
    }
}

/// Decides on the answer to publishing points.
pub fn upsert_outcome(status: u16, shown: &str) -> (res: Result<(), IndexerError>)
    ensures
        if 200 <= status < 300 {
            res is Ok
        } else {
            res matches Err(IndexerError::Qdrant(m)) && m@ == "upsert returned "@ + shown@
        },
{
    if 200 <= status && status < 300 {
        Ok(())
    } else {
        let mut s = "upsert returned ".to_owned();
        s.append(shown);
        Err(IndexerError::Qdrant(s))
    }
}

// ---------------------------------------------------------------------------------------------
// Laws.
// ---------------------------------------------------------------------------------------------
/// Whether a list of spans covers a text from a place to its end, without a gap, in steps forward,
/// none larger than allowed.
pub open spec fn covers(t: Seq<char>, i: int, list: Seq<(int, int)>) -> bool {
    &&& list.len() == 0 <==> i >= t.len()
    &&& list.len() > 0 ==> list[0].0 == i && list.last().1 == t.len()
    &&& forall|k: int|
        0 <= k < list.len() ==> (#[trigger] list[k]).0 < list[k].1 && byte_len(
            t.subrange(list[k].0, list[k].1),
        ) <= MAX_CHUNK_CHARS
    &&& forall|k: int|
        0 < k < list.len() ==> list[k - 1].0 < (#[trigger] list[k]).0 <= list[k - 1].1
}

proof fn lemma_byte_len_prefix(s: Seq<char>, n: int)
    requires
        0 <= n <= s.len(),
    ensures
        byte_len(s.take(n)) <= byte_len(s),
    decreases s.len() - n,
{
    if n < s.len() {
        lemma_byte_len_prefix(s, n + 1);
        assert(s.take(n + 1).drop_last() =~= s.take(n));
    } else {
        assert(s.take(n) =~= s);
    }
}

proof fn lemma_spans_cover(t: Seq<char>, i: int)
    requires
        0 <= i <= t.len(),
        spans(t, i) is Some,
    ensures
        covers(t, i, spans(t, i)->0),
    decreases t.len() - i,
{
    let list = spans(t, i)->0;
    if i < t.len() {
        lemma_after_bytes(t, i, MAX_CHUNK_CHARS as int);
        let j = after_bytes(t, i, MAX_CHUNK_CHARS as int)->0;
        lemma_last_white(t, i, j);
        let e = chunk_end(t, i, j);
        assert(t.subrange(i, j).take(e - i) =~= t.subrange(i, e));
        lemma_byte_len_prefix(t.subrange(i, j), e - i);
        if e < t.len() {
            let m = before_bytes(t, e, OVERLAP_CHARS as int)->0;
            lemma_before_bytes(t, e, OVERLAP_CHARS as int);
            lemma_spans_cover(t, m);
            let rest = spans(t, m)->0;
            assert(list =~= seq![(i, e)] + rest);
            assert(list.last() == rest.last());
            assert forall|k: int| 0 <= k < list.len() implies (#[trigger] list[k]).0 < list[k].1
                && byte_len(t.subrange(list[k].0, list[k].1)) <= MAX_CHUNK_CHARS by {
                if k > 0 {
                    assert(list[k] == rest[k - 1]);
                }
            }
            assert forall|k: int| 0 < k < list.len() implies list[k - 1].0 < (
            #[trigger] list[k]).0 <= list[k - 1].1 by {
                assert(list[k] == rest[k - 1]);
                if k > 1 {
                    assert(list[k - 1] == rest[k - 2]);
                }
            }
        }
    }
}

/// The chunks of a document leave nothing out: they run from its first character to its last
/// without a gap, each begins after the one before, and none is too large.
pub proof fn law_chunks_cover_the_text(markdown: Seq<char>)
    requires
        chunkable(markdown),
    ensures
        covers(trimmed(markdown), 0, spans(trimmed(markdown), 0)->0),
{
    lemma_spans_cover(trimmed(markdown), 0);
}

/// Two chunks of one document have one identity only where they have one place, as long as digests
/// do not collide.
pub proof fn law_chunk_names_are_distinct(document_id: Seq<char>, a: nat, b: nat)
    requires
        chunk_name(document_id, a) == chunk_name(document_id, b),
    ensures
        a == b,
{
    let head = document_id + ":"@;
    assert(chunk_name(document_id, a).skip(head.len() as int) =~= decimal(a));
    assert(chunk_name(document_id, b).skip(head.len() as int) =~= decimal(b));
    crate::text::lemma_decimal_injective(a, b);
}

/// The longest run without white space in plain text.
pub const MAX_RUN: usize = 2_000;

/// Whether one of the characters from `i` on, just more than a longest run, is white space.
pub open spec fn run_ends(s: Seq<char>, i: int) -> bool {
    last_white(s, i, i + MAX_RUN + 1) is Some
}

/// Whether a text is ASCII and has no longer run without white space than [`MAX_RUN`].
pub open spec fn plain_text(s: Seq<char>) -> bool {
    &&& forall|i: int| 0 <= i < s.len() ==> (#[trigger] s[i]) as u32 <= 0x7f
    &&& forall|i: int| 0 <= i && i + MAX_RUN < s.len() ==> #[trigger] run_ends(s, i)
}

proof fn lemma_last_white_within(s: Seq<char>, a: int, b: int, i: int, j: int)
    requires
        0 <= a <= b <= s.len(),
        0 <= i <= j <= b - a,
    ensures
        last_white(s.subrange(a, b), i, j) is Some <==> last_white(s, a + i, a + j) is Some,
    decreases j - i,
{
    if i < j {
        assert(s.subrange(a, b)[j - 1] == s[a + j - 1]);
        if !is_white(s[a + j - 1]) {
            lemma_last_white_within(s, a, b, i, j - 1);
        }
    }
}

proof fn lemma_last_white_extends(t: Seq<char>, low: int, i: int, j: int)
    requires
        low <= i <= j,
        last_white(t, i, j) is Some,
    ensures
        last_white(t, low, j) == last_white(t, i, j),
        i <= last_white(t, i, j)->0 < j,
    decreases j - i,
{
    if i < j && !is_white(t[j - 1]) {
        lemma_last_white_extends(t, low, i, j - 1);
    }
}

proof fn lemma_ascii_bytes(t: Seq<char>, i: int, n: int)
    requires
        0 <= i <= t.len(),
        n >= 0,
        forall|k: int| 0 <= k < t.len() ==> (#[trigger] t[k]) as u32 <= 0x7f,
    ensures
        after_bytes(t, i, n) == Some(
            if i + n < t.len() {
                i + n
            } else {
                t.len() as int
            },
        ),
        before_bytes(t, i, n) == Some(
            if i > n {
                i - n
            } else {
                0
            },
        ),
    decreases n,
{
    if n > 0 {
        if i < t.len() {
            assert(t[i] as u32 <= 0x7f);
            lemma_ascii_bytes(t, i + 1, n - 1);
        }
        if i > 0 {
            assert(t[i - 1] as u32 <= 0x7f);
            lemma_ascii_bytes(t, i - 1, n - 1);
        }
    }
}

proof fn lemma_plain_spans(t: Seq<char>, i: int)
    requires
        plain_text(t),
        0 <= i <= t.len(),
    ensures
        spans(t, i) is Some,
    decreases t.len() - i,
{
    if i < t.len() {
        lemma_ascii_bytes(t, i, MAX_CHUNK_CHARS as int);
        let j = after_bytes(t, i, MAX_CHUNK_CHARS as int)->0;
        let e = chunk_end(t, i, j);
        if j < t.len() {
            let low = j - MAX_RUN - 1;
            assert(run_ends(t, low));
            lemma_last_white_extends(t, i, low, j);
            assert(e >= low);
            lemma_ascii_bytes(t, e, OVERLAP_CHARS as int);
            lemma_plain_spans(t, e - OVERLAP_CHARS);
        }
    }
}

/// Ordinary text can be cut into chunks: ASCII text without an overlong run of characters between
/// white space.
pub proof fn law_plain_text_is_chunkable(markdown: Seq<char>)
    requires
        plain_text(markdown),
    ensures
        chunkable(markdown),
{
    let from = crate::text::lemma_trimmed(markdown);
    let t = trimmed(markdown);
    let to = from + t.len();
    assert forall|i: int| 0 <= i < t.len() implies (#[trigger] t[i]) as u32 <= 0x7f by {
        assert(t[i] == markdown[from + i]);
    }
    assert forall|i: int| 0 <= i && i + MAX_RUN < t.len() implies #[trigger] run_ends(t, i) by {
        assert(run_ends(markdown, from + i));
        lemma_last_white_within(markdown, from, to, i, i + MAX_RUN + 1);
    }
    lemma_plain_spans(t, 0);
}

proof fn lemma_bytes_ahead(t: Seq<char>, i: int, n: int, w: int)
    requires
        0 <= i <= t.len(),
        n >= 0,
        after_bytes(t, i, n) is Some,
    ensures
        after_bytes(t, i, n)->0 < t.len() ==> byte_len(t.subrange(i, after_bytes(t, i, n)->0)) == n,
        after_bytes(t, i, n)->0 < t.len() && after_bytes(t, i, n)->0 <= w <= t.len() ==> byte_len(
            t.subrange(i, w),
        ) >= n,
    decreases t.len() - i,
{
    let j = after_bytes(t, i, n)->0;
    lemma_after_bytes(t, i, n);
    if n <= 0 || i >= t.len() {
        assert(t.subrange(i, i) =~= seq![]);
    } else {
        let width = char_width(t[i]);
        lemma_bytes_ahead(t, i + 1, n - width, w);
        lemma_after_bytes(t, i + 1, n - width);
        lemma_byte_len_first(t.subrange(i, j));
        assert(t.subrange(i, j).drop_first() =~= t.subrange(i + 1, j));
        if j <= w <= t.len() {
            lemma_byte_len_first(t.subrange(i, w));
            assert(t.subrange(i, w).drop_first() =~= t.subrange(i + 1, w));
        }
    }
}

proof fn lemma_bytes_back(t: Seq<char>, i: int, n: int)
    requires
        0 <= i <= t.len(),
        n >= 0,
        before_bytes(t, i, n) is Some,
    ensures
        before_bytes(t, i, n)->0 > 0 ==> byte_len(t.subrange(before_bytes(t, i, n)->0, i)) == n,
    decreases i,
{
    let m = before_bytes(t, i, n)->0;
    lemma_before_bytes(t, i, n);
    if n <= 0 || i <= 0 {
        assert(t.subrange(i, i) =~= seq![]);
    } else {
        let width = char_width(t[i - 1]);
        lemma_bytes_back(t, i - 1, n - width);
        lemma_before_bytes(t, i - 1, n - width);
        assert(t.subrange(m, i).drop_last() =~= t.subrange(m, i - 1));
    }
}

proof fn lemma_last_white_is_last(t: Seq<char>, i: int, j: int, w: int)
    requires
        0 <= i <= w < j <= t.len(),
        is_white(t[w]),
    ensures
        last_white(t, i, j) matches Some(k) && k >= w && is_white(t[k]),
    decreases j - i,
{
    if !is_white(t[j - 1]) {
        lemma_last_white_is_last(t, i, j - 1, w);
    }
}

proof fn lemma_last_white_is_white(t: Seq<char>, i: int, j: int)
    requires
        0 <= i <= j <= t.len(),
    ensures
        last_white(t, i, j) matches Some(k) ==> is_white(t[k]),
    decreases j - i,
{
    if i < j && !is_white(t[j - 1]) {
        lemma_last_white_is_white(t, i, j - 1);
    }
}

/// Where chunks are cut: each but the last reaches back the overlap of 240 bytes from the next one's
/// beginning, ends at white space or holds none after its first character, and no later white space
/// would have fit into 2,400 bytes.
pub proof fn law_chunks_overlap(markdown: Seq<char>, k: int, w: int)
    requires
        chunkable(markdown),
        0 <= k < spans(trimmed(markdown), 0)->0.len() - 1,
    ensures
        ({
            let t = trimmed(markdown);
            let (from, to) = spans(t, 0)->0[k];
            let next = spans(t, 0)->0[k + 1].0;
            &&& from < next < to < t.len()
            &&& byte_len(t.subrange(next, to)) == 240
            &&& byte_len(t.subrange(from, to)) <= 2400
            &&& is_white(t[to]) || (from < w < to ==> !is_white(t[w]))
            &&& to < w < t.len() && is_white(t[w]) ==> byte_len(t.subrange(from, w)) >= 2400
        }),
{
    lemma_spans_overlap(trimmed(markdown), 0, k, w);
}

proof fn lemma_spans_overlap(t: Seq<char>, i: int, k: int, w: int)
    requires
        0 <= i <= t.len(),
        spans(t, i) is Some,
        0 <= k < spans(t, i)->0.len() - 1,
    ensures
        ({
            let (from, to) = spans(t, i)->0[k];
            let next = spans(t, i)->0[k + 1].0;
            &&& from < next < to < t.len()
            &&& byte_len(t.subrange(next, to)) == 240
            &&& byte_len(t.subrange(from, to)) <= 2400
            &&& is_white(t[to]) || (from < w < to ==> !is_white(t[w]))
            &&& to < w < t.len() && is_white(t[w]) ==> byte_len(t.subrange(from, w)) >= 2400
        }),
    decreases t.len() - i,
{
    let list = spans(t, i)->0;
    let j = after_bytes(t, i, 2400)->0;
    lemma_after_bytes(t, i, 2400);
    lemma_last_white(t, i, j);
    let e = chunk_end(t, i, j);
    assert(e < t.len());
    let m = before_bytes(t, e, 240)->0;
    lemma_before_bytes(t, e, 240);
    let rest = spans(t, m)->0;
    assert(list =~= seq![(i, e)] + rest);
    if k > 0 {
        assert(list[k] == rest[k - 1] && list[k + 1] == rest[k]);
        lemma_spans_overlap(t, m, k - 1, w);
    } else {
        lemma_spans_cover(t, m);
        assert(list[0] == (i, e));
        assert(list[1] == rest[0]);
        lemma_bytes_back(t, e, 240);
        assert(t.subrange(i, j).take(e - i) =~= t.subrange(i, e));
        lemma_byte_len_prefix(t.subrange(i, j), e - i);
        if m == e {
            assert(t.subrange(m, e) =~= seq![]);
        }
        if j < t.len() {
            lemma_bytes_ahead(t, i, 2400, w);
            lemma_last_white_is_white(t, i, j);
            if i < w < j && is_white(t[w]) {
                lemma_last_white_is_last(t, i, j, w);
            }
        }
    }
}

proof fn lemma_pieces_are_cut(t: Seq<char>, list: Seq<(int, int)>, n: int)
    requires
        0 <= n < pieces(t, list).len(),
        forall|k: int|
            0 <= k < list.len() ==> 0 <= (#[trigger] list[k]).0 <= list[k].1 <= t.len() && byte_len(
                t.subrange(list[k].0, list[k].1),
            ) <= 2400,
    ensures
        pieces(t, list)[n].len() > 0,
        byte_len(pieces(t, list)[n]) <= 2400,
        trimmed(pieces(t, list)[n]) == pieces(t, list)[n],
        exists|at: int|
            0 <= at && at + pieces(t, list)[n].len() <= t.len() && #[trigger] t.subrange(
                at,
                at + pieces(t, list)[n].len(),
            ) == pieces(t, list)[n],
    decreases list.len(),
{
    let (a, b) = list.last();
    assert(list[list.len() - 1] == (a, b));
    let run = t.subrange(a, b);
    let piece = trimmed(run);
    let front = list.drop_last();
    if n < pieces(t, front).len() {
        assert forall|k: int| 0 <= k < front.len() implies 0 <= (#[trigger] front[k]).0 <= front[k].1
            <= t.len() && byte_len(t.subrange(front[k].0, front[k].1)) <= 2400 by {
            assert(front[k] == list[k]);
        }
        lemma_pieces_are_cut(t, front, n);
    } else {
        let from = crate::text::lemma_trimmed(run);
        let end = from + piece.len();
        assert(t.subrange(a + from, a + from + piece.len()) =~= piece);
        assert(run.subrange(from, end) == run.take(end).skip(from)) by {
            assert(run.subrange(from, end) =~= run.take(end).skip(from));
        }
        lemma_byte_len_prefix(run, end);
        lemma_byte_len_suffix(run.take(end), from);
    }
}

proof fn lemma_byte_len_suffix(s: Seq<char>, n: int)
    requires
        0 <= n <= s.len(),
    ensures
        byte_len(s.skip(n)) <= byte_len(s),
    decreases n,
{
    if n > 0 {
        lemma_byte_len_first(s);
        lemma_byte_len_suffix(s.drop_first(), n - 1);
        assert(s.drop_first().skip(n - 1) =~= s.skip(n));
    } else {
        assert(s.skip(0) =~= s);
    }
}

/// What a document is cut into: chunks numbered from zero that hold a part of its text, not empty, of
/// 2,400 bytes at most, with the title and the address of the document, named by its identity and their
/// number. A document that fits is one chunk, its whole text.
pub proof fn law_chunks_are_parts_of_their_document(clean: &CleanArtifact, res: Vec<Chunk>, k: int)
    requires
        call_ensures(chunk, (clean,), res),
        chunkable(clean.markdown@),
    ensures
        0 <= k < res@.len() ==> {
            let c = res@[k];
            let t = trimmed(clean.markdown@);
            &&& c.sequence == k
            &&& c.document_id@ == clean.document_id@
            &&& c.title@ == clean.title@
            &&& c.source_url@ == clean.source_url@
            &&& c.id@ == text_digest(clean.document_id@ + ":"@ + decimal(k as nat))
            &&& c.text@.len() > 0
            &&& byte_len(c.text@) <= 2400
            &&& trimmed(c.text@) == c.text@
            &&& exists|at: int|
                0 <= at && at + c.text@.len() <= t.len() && #[trigger] t.subrange(
                    at,
                    at + c.text@.len(),
                ) == c.text@
        },
        trimmed(clean.markdown@).len() == 0 ==> res@.len() == 0,
        0 < trimmed(clean.markdown@).len() && byte_len(trimmed(clean.markdown@)) < 2400 ==> res@.len()
            == 1 && res@[0].text@ == trimmed(clean.markdown@),
{
    let t = trimmed(clean.markdown@);
    let list = spans(t, 0)->0;
    lemma_spans_cover(t, 0);
    if 0 <= k < res@.len() {
        assert(is_chunk(*clean, k, chunk_texts(clean.markdown@)[k], res@[k]));
        assert forall|n: int| 0 <= n < list.len() implies 0 <= (#[trigger] list[n]).0 <= list[n].1
            <= t.len() && byte_len(t.subrange(list[n].0, list[n].1)) <= 2400 by {
            lemma_spans_inside(t, 0, n);
        }
        lemma_pieces_are_cut(t, list, k);
    }
    if 0 < t.len() && byte_len(t) < 2400 {
        lemma_after_bytes(t, 0, 2400);
        let j = after_bytes(t, 0, 2400)->0;
        if j < t.len() {
            lemma_bytes_ahead(t, 0, 2400, t.len() as int);
            assert(t.subrange(0, t.len() as int) =~= t);
        }
        assert(list =~= seq![(0int, t.len() as int)]);
        assert(t.subrange(0, t.len() as int) =~= t);
        let from = crate::text::lemma_trimmed(clean.markdown@);
        assert(list.drop_last() =~= seq![]);
        assert(pieces(t, list.drop_last()) =~= seq![]);
        assert(list.last() == (0int, t.len() as int));
        assert(pieces(t, list) =~= seq![t]);
        assert(is_chunk(*clean, 0, chunk_texts(clean.markdown@)[0], res@[0]));
    }
}

proof fn lemma_spans_inside(t: Seq<char>, i: int, k: int)
    requires
        0 <= i <= t.len(),
        spans(t, i) is Some,
        0 <= k < spans(t, i)->0.len(),
    ensures
        i <= spans(t, i)->0[k].0,
        spans(t, i)->0[k].0 <= spans(t, i)->0[k].1 <= t.len(),
    decreases t.len() - i,
{
    let list = spans(t, i)->0;
    let j = after_bytes(t, i, MAX_CHUNK_CHARS as int)->0;
    lemma_after_bytes(t, i, MAX_CHUNK_CHARS as int);
    lemma_last_white(t, i, j);
    let e = chunk_end(t, i, j);
    if e < t.len() {
        let m = before_bytes(t, e, OVERLAP_CHARS as int)->0;
        lemma_before_bytes(t, e, OVERLAP_CHARS as int);
        let rest = spans(t, m)->0;
        assert(list =~= seq![(i, e)] + rest);
        if k > 0 {
            assert(list[k] == rest[k - 1]);
            lemma_spans_inside(t, m, k - 1);
        }
    }
}

/// The identity of a chunk in the vector store is the first 32 characters of its own, in groups of
/// eight, four, four, four and twelve.
pub proof fn law_points_group_the_identity(id: &str, res: String)
    requires
        call_ensures(point_id, (id,), res),
        id@.len() >= 32,
        forall|i: int| 0 <= i < id@.len() ==> (#[trigger] id@[i]) as u32 <= 0x7f,
    ensures
        res@ == id@.subrange(0, 8) + "-"@ + id@.subrange(8, 12) + "-"@ + id@.subrange(12, 16) + "-"@
            + id@.subrange(16, 20) + "-"@ + id@.subrange(20, 32),
{
    lemma_ascii_bytes(id@, 0, 0);
    lemma_ascii_bytes(id@, 0, 8);
    lemma_ascii_bytes(id@, 0, 12);
    lemma_ascii_bytes(id@, 0, 16);
    lemma_ascii_bytes(id@, 0, 20);
    lemma_ascii_bytes(id@, 0, 32);
}

/// What the vector store answers: a success is one, a collection that exists already is fine, an upsert
/// that meets it is not, and every other status fails; no vector may be missing.
pub proof fn law_store_answers_decide(
    status: u16,
    shown: &str,
    created: Result<(), IndexerError>,
    upserted: Result<(), IndexerError>,
    chunks: usize,
    vectors: usize,
    checked: Result<(), IndexerError>,
)
    requires
        call_ensures(collection_outcome, (status, shown), created),
        call_ensures(upsert_outcome, (status, shown), upserted),
        call_ensures(check_vectors, (chunks, vectors), checked),
    ensures
        created is Ok <==> status / 100 == 2 || status == 409,
        upserted is Ok <==> status / 100 == 2,
        checked is Ok <==> chunks == vectors,
{
}

} // verus!
