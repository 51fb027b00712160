//! Vector codec: a stored embedding vector is a flat little-endian
//! concatenation of 4-byte words, with no header and no length prefix.
//!
//! A vector component is carried as the 32-bit pattern of the original
//! single-precision value, so the round trip is exact bit for bit.

use vstd::prelude::*;

verus! {

/// The four little-endian bytes of one 32-bit word.
pub open spec fn le_bytes(x: u32) -> Seq<u8> {
    seq![
        (x & 0xff) as u8,
        ((x >> 8) & 0xff) as u8,
        ((x >> 16) & 0xff) as u8,
        ((x >> 24) & 0xff) as u8,
    ]
}

/// The 32-bit word with the given little-endian bytes.
pub open spec fn word_of(b0: u8, b1: u8, b2: u8, b3: u8) -> u32 {
    (b0 as u32) | ((b1 as u32) << 8) | ((b2 as u32) << 16) | ((b3 as u32) << 24)
}

/// Little-endian encoding of a whole vector.
pub open spec fn encode_blob(v: Seq<u32>) -> Seq<u8>
    decreases v.len(),
{
    if v.len() == 0 {
        Seq::empty()
    } else {
        le_bytes(v[0]) + encode_blob(v.drop_first())
    }
}

/// Decoding of a byte blob; a trailing partial word is dropped.
pub open spec fn decode_blob(b: Seq<u8>) -> Seq<u32>
    decreases b.len(),
{
    if b.len() < 4 {
        Seq::empty()
    } else {
        seq![word_of(b[0], b[1], b[2], b[3])] + decode_blob(b.subrange(4, b.len() as int))
    }
}

/// Reassembling the four little-endian bytes of a word gives the word back.
pub proof fn lemma_word_round_trip(x: u32)
    ensures
        word_of(
            (x & 0xff) as u8,
            ((x >> 8) & 0xff) as u8,
            ((x >> 16) & 0xff) as u8,
            ((x >> 24) & 0xff) as u8,
        ) == x,
{
    assert((((x & 0xff) as u8) as u32) | (((((x >> 8) & 0xff) as u8) as u32) << 8) | (((((x >> 16)
        & 0xff) as u8) as u32) << 16) | (((((x >> 24) & 0xff) as u8) as u32) << 24) == x)
        by (bit_vector);
}

/// Decoding inverts encoding exactly, for every vector of 32-bit patterns.
pub proof fn lemma_codec_round_trip(v: Seq<u32>)
    ensures
        decode_blob(encode_blob(v)) == v,
    decreases v.len(),
{
    if v.len() == 0 {
        assert(decode_blob(encode_blob(v)) =~= v);
    } else {
        let x = v[0];
        let b = encode_blob(v);
        assert(b == le_bytes(x) + encode_blob(v.drop_first()));
        assert(b.len() >= 4);
        lemma_word_round_trip(x);
        assert(b[0] == le_bytes(x)[0] && b[1] == le_bytes(x)[1] && b[2] == le_bytes(x)[2] && b[3]
            == le_bytes(x)[3]);
        assert(word_of(b[0], b[1], b[2], b[3]) == x);
        assert(b.subrange(4, b.len() as int) =~= encode_blob(v.drop_first()));
        lemma_codec_round_trip(v.drop_first());
        assert(decode_blob(b) =~= seq![x] + v.drop_first());
        assert(seq![x] + v.drop_first() =~= v);
    }
}

/// Serialize a vector of 32-bit patterns into its little-endian byte blob.
pub fn embedding_to_blob(embedding: &Vec<u32>) -> (r: Vec<u8>)
    ensures
        r@ == encode_blob(embedding@),
        r@.len() == 4 * embedding@.len(),
{
    let n = embedding.len();
    let mut r: Vec<u8> = Vec::new();
    let mut i: usize = 0;
    proof {
        assert(encode_blob(embedding@.subrange(0, 0)) =~= Seq::<u8>::empty());
        lemma_encode_len(embedding@);
    }
    while i < n
        invariant
            n == embedding@.len(),
            i <= n,
            r@ == encode_blob(embedding@.subrange(0, i as int)),
            r@.len() == 4 * i,
        decreases n - i,
    {
        let x = embedding[i];
        proof {
            assert(x & 0xff < 256 && (x >> 8) & 0xff < 256 && (x >> 16) & 0xff < 256 && (x >> 24)
                & 0xff < 256) by (bit_vector);
        }
        r.push((x & 0xff) as u8);
        r.push(((x >> 8) & 0xff) as u8);
        r.push(((x >> 16) & 0xff) as u8);
        r.push(((x >> 24) & 0xff) as u8);
        proof {
            lemma_encode_snoc(embedding@.subrange(0, i as int), x);
            assert(embedding@.subrange(0, i as int).push(x) =~= embedding@.subrange(
                0,
                i as int + 1,
            ));
            assert(r@ =~= encode_blob(embedding@.subrange(0, i as int + 1)));
        }
        i = i + 1;
    }
    proof {
        assert(embedding@.subrange(0, n as int) =~= embedding@);
    }
    r
}

/// Encoding one more word appends its four bytes.
proof fn lemma_encode_snoc(v: Seq<u32>, x: u32)
    ensures
        encode_blob(v.push(x)) == encode_blob(v) + le_bytes(x),
    decreases v.len(),
{
    if v.len() == 0 {
        assert(v.push(x).drop_first() =~= Seq::<u32>::empty());
        assert(encode_blob(Seq::<u32>::empty()) =~= Seq::<u8>::empty());
        assert(encode_blob(v.push(x)) =~= le_bytes(x));
        assert(encode_blob(v) + le_bytes(x) =~= le_bytes(x));
    } else {
        lemma_encode_snoc(v.drop_first(), x);
        assert(v.push(x).drop_first() =~= v.drop_first().push(x));
        assert(le_bytes(v[0]) + (encode_blob(v.drop_first()) + le_bytes(x)) =~= (le_bytes(v[0])
            + encode_blob(v.drop_first())) + le_bytes(x));
        assert(encode_blob(v.push(x)) =~= encode_blob(v) + le_bytes(x));
    }
}

/// An encoded vector takes exactly four bytes per component.
pub proof fn lemma_encode_len(v: Seq<u32>)
    ensures
        encode_blob(v).len() == 4 * v.len(),
    decreases v.len(),
{
    if v.len() > 0 {
        lemma_encode_len(v.drop_first());
    }
}

/// Deserialize a little-endian byte blob back into 32-bit patterns; a
/// trailing partial word is dropped.
pub fn blob_to_embedding(blob: &Vec<u8>) -> (r: Vec<u32>)
    ensures
        r@ == decode_blob(blob@),
{
    let n = blob.len();
    let mut r: Vec<u32> = Vec::new();
    let mut i: usize = 0;
    proof {
        assert(blob@.subrange(0, n as int) =~= blob@);
    }
    while n - i >= 4
        invariant
            n == blob@.len(),
            i <= n,
            decode_blob(blob@) == r@ + decode_blob(blob@.subrange(i as int, n as int)),
        decreases n - i,
    {
        let b0 = blob[i];
        let b1 = blob[i + 1];
        let b2 = blob[i + 2];
        let b3 = blob[i + 3];
        let x: u32 = (b0 as u32) | ((b1 as u32) << 8) | ((b2 as u32) << 16) | ((b3 as u32) << 24);
        proof {
            let ghost tail = blob@.subrange(i as int, n as int);
            assert(tail.len() >= 4);
            assert(tail[0] == b0 && tail[1] == b1 && tail[2] == b2 && tail[3] == b3);
            assert(decode_blob(tail) == seq![word_of(b0, b1, b2, b3)] + decode_blob(
                tail.subrange(4, tail.len() as int),
            ));
            assert(tail.subrange(4, tail.len() as int) =~= blob@.subrange(i as int + 4, n as int));
            assert(r@.push(x) + decode_blob(blob@.subrange(i as int + 4, n as int)) =~= r@ + (seq![
                word_of(b0, b1, b2, b3),
            ] + decode_blob(blob@.subrange(i as int + 4, n as int))));
        }
        r.push(x);
        i = i + 4;
    }
    proof {
        assert(decode_blob(blob@.subrange(i as int, n as int)) =~= Seq::<u32>::empty());
        assert(r@ =~= decode_blob(blob@));
    }
    r
}

} // verus!
