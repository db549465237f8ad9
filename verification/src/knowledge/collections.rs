//! Names of vector collections and points.

use vstd::prelude::*;
use vstd::string::StringExecFns;
use vstd::utf8::encode_utf8;

use crate::digest::{lemma_hex_injective, sha256, sha256_digest, sha256_hex, text_digest};
use crate::knowledge::{SpaceView, VectorSpace};
use crate::text::{has_prefix, hex, is_ascii_alnum, starts_with, texts};

verus! {

/// A character of a model id as it stands in an identifier.
pub open spec fn identifier_char(c: char) -> char {
    if is_ascii_alnum(c) || c == '_' {
        c
    } else {
        '_'
    }
}

/// The table of a space: a readable form of the model id and its digest, which tells ids apart
/// whose readable forms agree.
pub open spec fn table_name(space: SpaceView) -> Seq<char> {
    match space {
        Some(id) => "ChunkVec_"@ + id.map_values(|c: char| identifier_char(c)) + "_"@ + text_digest(
            id,
        ),
        None => "EntityNameVec"@,
    }
}

/// Names the table of a space.
pub fn table(space: &VectorSpace) -> (res: String)
    ensures
        res@ == table_name(space@),
{
    match space {
        VectorSpace::Chunks { model_id } => {
            let id = model_id.as_str();
            let mut sanitized = String::new();
            let ghost image = id@.map_values(|c: char| identifier_char(c));
            for c in it: id.chars()
                invariant
                    it.seq() == id@,
                    image == id@.map_values(|c: char| identifier_char(c)),
                    sanitized@ == image.take(it.index() as int),
            {
                let kept = ('a' <= c && c <= 'z') || ('A' <= c && c <= 'Z') || ('0' <= c && c
                    <= '9') || c == '_';
                if kept {
                    sanitized.push(c);
                } else {
                    sanitized.push('_');
                }
                assert(image[it.index() as int] == identifier_char(c));
                assert(sanitized@ =~= image.take(it.index() + 1));
            }
            assert(image.take(id@.len() as int) =~= image);
            let mut name = "ChunkVec_".to_owned();
            name.append(sanitized.as_str());
            name.append("_");
            let digest = sha256_hex(id);
            name.append(digest.as_str());
            name
        },
        VectorSpace::EntityNames => "EntityNameVec".to_owned(),
    }
}

/// The prefix of the names of chunk collections.
pub const CHUNK_PREFIX: &'static str = "ohara_chunks_";

/// The name of the entity collection.
pub const ENTITY_COLLECTION: &'static str = "ohara_entity_names";

/// The collection of a space in the vector service.
pub open spec fn collection_name(space: SpaceView) -> Seq<char> {
    match space {
        Some(id) => CHUNK_PREFIX@ + text_digest(id),
        None => ENTITY_COLLECTION@,
    }
}

/// Names the collection of a space in the vector service.
pub fn collection(space: &VectorSpace) -> (res: String)
    ensures
        res@ == collection_name(space@),
{
    match space {
        VectorSpace::Chunks { model_id } => {
            let mut name = CHUNK_PREFIX.to_owned();
            let digest = sha256_hex(model_id.as_str());
            name.append(digest.as_str());
            name
        },
        VectorSpace::EntityNames => ENTITY_COLLECTION.to_owned(),
    }
}

/// Model ids of different digests have different tables and collections, even where their readable
/// forms agree.
pub proof fn law_models_have_distinct_collections(a: Seq<char>, b: Seq<char>)
    requires
        sha256_digest(encode_utf8(a)) != sha256_digest(encode_utf8(b)),
        sha256_digest(encode_utf8(a)).len() == 32,
        sha256_digest(encode_utf8(b)).len() == 32,
    ensures
        table_name(Some(a)) != table_name(Some(b)),
        collection_name(Some(a)) != collection_name(Some(b)),
{
    let (x, y) = (text_digest(a), text_digest(b));
    if x == y {
        lemma_hex_injective(sha256_digest(encode_utf8(a)), sha256_digest(encode_utf8(b)));
    }
    let (p, q) = (table_name(Some(a)), table_name(Some(b)));
    assert(p.skip(p.len() - 64) =~= x);
    assert(q.skip(q.len() - 64) =~= y);
    let (r, s) = (collection_name(Some(a)), collection_name(Some(b)));
    assert(r.skip(r.len() - 64) =~= x);
    assert(s.skip(s.len() - 64) =~= y);
}

/// No model's table or collection is that of the entity names.
pub proof fn law_entity_collection_is_separate(id: Seq<char>)
    ensures
        table_name(Some(id)) != table_name(None),
        collection_name(Some(id)) != collection_name(None),
{
    reveal_strlit("ChunkVec_");
    reveal_strlit("EntityNameVec");
    reveal_strlit("ohara_chunks_");
    reveal_strlit("ohara_entity_names");
    assert(table_name(Some(id))[0] == 'C');
    assert(table_name(None)[0] == 'E');
    assert(collection_name(Some(id))[6] == 'c');
    assert(collection_name(None)[6] == 'e');
}

/// The hyphenated form of a UUID: its bytes in lowercase hexadecimal, in groups of 4, 2, 2, 2 and 6
/// bytes.
pub open spec fn hyphenated(bytes: Seq<u8>) -> Seq<char> {
    hex(bytes.subrange(0, 4)) + seq!['-'] + hex(bytes.subrange(4, 6)) + seq!['-'] + hex(
        bytes.subrange(6, 8),
    ) + seq!['-'] + hex(bytes.subrange(8, 10)) + seq!['-'] + hex(bytes.subrange(10, 16))
}

/// Calls `uuid::Uuid::from_bytes` and renders the result with its `Display`, which is the
/// lowercase hyphenated form.
#[verifier::external_body]
fn uuid_text(bytes: [u8; 16]) -> (res: String)
    ensures
        res@ == hyphenated(bytes@),
{
    uuid::Uuid::from_bytes(bytes).to_string()
}

/// The bytes of the point of an id: the first 16 bytes of its digest, marked as a version 5 UUID of
/// the standard variant.
pub open spec fn point_bytes(digest: Seq<u8>) -> Seq<u8> {
    digest.subrange(0, 16).update(6, (digest[6] & 0x0f) | 0x50).update(
        8,
        (digest[8] & 0x3f) | 0x80,
    )
}

/// The point of an id in the vector service.
pub fn point_id(id: &str) -> (res: String)
    ensures
        res@ == hyphenated(point_bytes(sha256_digest(encode_utf8(id@)))),
{
    let d = sha256(id.as_bytes());
    let b6: u8 = (d[6] & 0x0f) | 0x50;
    let b8: u8 = (d[8] & 0x3f) | 0x80;
    let bytes: [u8; 16] = [
        d[0],
        d[1],
        d[2],
        d[3],
        d[4],
        d[5],
        b6,
        d[7],
        b8,
        d[9],
        d[10],
        d[11],
        d[12],
        d[13],
        d[14],
        d[15],
    ];
    assert(bytes@ =~= point_bytes(d@));
    uuid_text(bytes)
}

/// The names among `names` that begin with a prefix, in order.
pub open spec fn with_prefix(names: Seq<Seq<char>>, prefix: Seq<char>) -> Seq<Seq<char>> {
    names.filter(|n: Seq<char>| has_prefix(n, prefix))
}

/// Picks the names that begin with a prefix.
pub fn names_with_prefix(names: &Vec<String>, prefix: &str) -> (res: Vec<String>)
    ensures
        texts(res@) == with_prefix(texts(names@), prefix@),
{
    let ghost all = texts(names@);
    let ghost p = |n: Seq<char>| has_prefix(n, prefix@);
    let mut res: Vec<String> = Vec::new();
    let mut i: usize = 0;
    proof {
        reveal(Seq::filter);
        assert(texts(res@) =~= all.take(0).filter(p));
    }
    while i < names.len()
        invariant
            i <= names@.len(),
            all == texts(names@),
            p == (|n: Seq<char>| has_prefix(n, prefix@)),
            texts(res@) == all.take(i as int).filter(p),
        decreases names@.len() - i,
    {
        let ghost before = texts(res@);
        proof {
            reveal(Seq::filter);
            assert(all.take(i + 1).drop_last() =~= all.take(i as int));
            assert(all.take(i + 1).last() == names@[i as int]@);
        }
        if starts_with(names[i].as_str(), prefix) {
            res.push(names[i].clone());
            assert(texts(res@) =~= before.push(names@[i as int]@));
        }
        i = i + 1;
    }
    assert(all.take(i as int) =~= all);
    res
}

/// Picks the names of chunk collections: those from which a deleted document is purged.
pub fn chunk_collections(names: &Vec<String>) -> (res: Vec<String>)
    ensures
        texts(res@) == with_prefix(texts(names@), CHUNK_PREFIX@),
{
    names_with_prefix(names, CHUNK_PREFIX)
}

/// A document is purged from the collection of every model: the collection of each chunk space is
/// picked wherever it is listed, and the one of the entity names is not.
pub proof fn law_every_chunk_space_is_purged(space: SpaceView, names: Seq<Seq<char>>)
    requires
        names.contains(collection_name(space)),
    ensures
        with_prefix(names, CHUNK_PREFIX@).contains(collection_name(space)) <==> space is Some,
{
    let p = |n: Seq<char>| has_prefix(n, CHUNK_PREFIX@);
    let name = collection_name(space);
    reveal_strlit("ohara_chunks_");
    reveal_strlit("ohara_entity_names");
    assert(with_prefix(names, CHUNK_PREFIX@) == names.filter(p));
    if space is Some {
        assert(name.take(CHUNK_PREFIX@.len() as int) =~= CHUNK_PREFIX@);
        let i = choose|i: int| 0 <= i < names.len() && names[i] == name;
        names.lemma_filter_contains(p, i);
    } else {
        assert(name[6] == 'e' && CHUNK_PREFIX@[6] == 'c');
        assert(!has_prefix(name, CHUNK_PREFIX@)) by {
            if has_prefix(name, CHUNK_PREFIX@) {
                assert(name.take(CHUNK_PREFIX@.len() as int)[6] == name[6]);
            }
        }
        if names.filter(p).contains(name) {
            let j = choose|j: int|
                0 <= j < names.filter(p).len() && names.filter(p)[j] == name;
            names.lemma_filter_pred(p, j);
        }
    }
}

} // verus!
