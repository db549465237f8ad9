//! The deterministic embedding: values that are a digest of the text, for runs without a model.

use vstd::prelude::*;
use vstd::utf8::encode_utf8;

use crate::digest::{sha256, sha256_digest};

verus! {

/// The dimension of the embeddings.
pub const EMBEDDING_DIMENSION: usize = 384;

/// The bytes of a place in an embedding, least first.
pub open spec fn place_bytes(i: int) -> Seq<u8> {
    seq![(i % 256) as u8, (i / 256) as u8, 0u8, 0u8, 0u8, 0u8, 0u8, 0u8]
}

/// The value at a place of the embedding of a text, as a sixteen-bit number: the first two bytes of
/// the digest of the text and the place, least first.
pub open spec fn embedded(text: Seq<char>, i: int) -> int {
    let d = sha256_digest(encode_utf8(text) + place_bytes(i));
    d[0] as int + 256 * d[1] as int
}

/// The embedding of a text, as sixteen-bit numbers.
pub fn embedding_values(text: &str) -> (res: Vec<u16>)
    ensures
        res@.len() == EMBEDDING_DIMENSION,
        forall|i: int| 0 <= i < EMBEDDING_DIMENSION ==> #[trigger] res@[i] == embedded(text@, i),
{
    let bytes = text.as_bytes();
    let mut res: Vec<u16> = Vec::new();
    let mut i: usize = 0;
    while i < EMBEDDING_DIMENSION
        invariant
            i <= EMBEDDING_DIMENSION,
            bytes@ == encode_utf8(text@),
            res@.len() == i,
            forall|k: int| 0 <= k < i ==> #[trigger] res@[k] == embedded(text@, k),
        decreases EMBEDDING_DIMENSION - i,
    {
        let mut input: Vec<u8> = Vec::new();
        let mut k: usize = 0;
        while k < bytes.len()
            invariant
                k <= bytes@.len(),
                input@ =~= bytes@.take(k as int),
            decreases bytes@.len() - k,
        {
            input.push(bytes[k]);
            k = k + 1;
        }
        input.push((i % 256) as u8);
        input.push((i / 256) as u8);
        input.push(0);
        input.push(0);
        input.push(0);
        input.push(0);
        input.push(0);
        input.push(0);
        assert(input@ =~= encode_utf8(text@) + place_bytes(i as int));
        let digest = sha256(input.as_slice());
        let value: u16 = digest[0] as u16 + 256 * digest[1] as u16;
        res.push(value);
        i = i + 1;
    }
    res
}

} // verus!
