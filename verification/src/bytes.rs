//! Little-endian serialization between 32-bit words and bytes.
//!
//! The encoder builds a module as a sequence of 32-bit words; the file
//! format is a byte stream. These functions state and implement the
//! little-endian correspondence explicitly, so nothing depends on host
//! byte order or in-memory layout.

use vstd::prelude::*;

verus! {

/// The 16-bit value stored little-endian as the two bytes `b0`, `b1`.
pub open spec fn le_u16(b0: u8, b1: u8) -> u16 {
    (b0 as u16) | ((b1 as u16) << 8)
}

/// The 32-bit value stored little-endian as the four bytes `b0`..`b3`.
pub open spec fn le_u32(b0: u8, b1: u8, b2: u8, b3: u8) -> u32 {
    (b0 as u32) | ((b1 as u32) << 8) | ((b2 as u32) << 16) | ((b3 as u32) << 24)
}

/// The 32-bit word stored little-endian at byte offset `i` of `b`.
pub open spec fn le_u32_at(b: Seq<u8>, i: int) -> u32
    recommends
        0 <= i,
        i + 4 <= b.len(),
{
    le_u32(b[i], b[i + 1], b[i + 2], b[i + 3])
}

/// The 64-bit value whose low word is `lo` and high word is `hi`.
pub open spec fn u64_from_words(lo: u32, hi: u32) -> u64 {
    (lo as u64) | ((hi as u64) << 32)
}

/// The four bytes of `w`, little-endian.
pub open spec fn word_bytes(w: u32) -> Seq<u8> {
    seq![
        (w & 0xff) as u8,
        ((w >> 8) & 0xff) as u8,
        ((w >> 16) & 0xff) as u8,
        ((w >> 24) & 0xff) as u8,
    ]
}

/// The byte image of a word sequence, little-endian, in order.
pub open spec fn words_to_bytes(ws: Seq<u32>) -> Seq<u8>
    decreases ws.len(),
{
    if ws.len() == 0 {
        Seq::empty()
    } else {
        word_bytes(ws[0]) + words_to_bytes(ws.drop_first())
    }
}

pub proof fn lemma_words_to_bytes_len(ws: Seq<u32>)
    ensures
        words_to_bytes(ws).len() == 4 * ws.len(),
    decreases ws.len(),
{
    if ws.len() > 0 {
        lemma_words_to_bytes_len(ws.drop_first());
    }
}

/// Reading a word back from the little-endian byte image yields the word.
pub proof fn lemma_word_bytes_round_trip(w: u32)
    ensures
        le_u32(
            (w & 0xff) as u8,
            ((w >> 8) & 0xff) as u8,
            ((w >> 16) & 0xff) as u8,
            ((w >> 24) & 0xff) as u8,
        ) == w,
{
    assert(((w & 0xff) as u8 as u32) | (((w >> 8) & 0xff) as u8 as u32) << 8 | (((w >> 16)
        & 0xff) as u8 as u32) << 16 | (((w >> 24) & 0xff) as u8 as u32) << 24 == w)
        by (bit_vector);
}

/// The little-endian bytes of a value read little-endian are those bytes.
pub proof fn lemma_le_bytes_round_trip(b0: u8, b1: u8, b2: u8, b3: u8)
    ensures
        word_bytes(le_u32(b0, b1, b2, b3)) =~= seq![b0, b1, b2, b3],
{
    let w = le_u32(b0, b1, b2, b3);
    assert({
        let v = (b0 as u32) | ((b1 as u32) << 8) | ((b2 as u32) << 16) | ((b3 as u32) << 24);
        (v & 0xff) as u8 == b0 && ((v >> 8) & 0xff) as u8 == b1 && ((v >> 16) & 0xff) as u8 == b2
            && ((v >> 24) & 0xff) as u8 == b3
    }) by (bit_vector);
}

/// Each byte of the image comes from the word that covers it.
pub proof fn lemma_words_to_bytes_index(ws: Seq<u32>, k: int)
    requires
        0 <= k < 4 * ws.len(),
    ensures
        words_to_bytes(ws)[k] == word_bytes(ws[k / 4])[k % 4],
    decreases ws.len(),
{
    lemma_words_to_bytes_len(ws);
    if k < 4 {
        lemma_words_to_bytes_len(ws.drop_first());
    } else {
        lemma_words_to_bytes_len(ws.drop_first());
        lemma_words_to_bytes_index(ws.drop_first(), k - 4);
        assert(ws.drop_first()[k / 4 - 1] == ws[k / 4]);
    }
}

/// Reading the word at an aligned offset of the byte image yields the
/// original word.
pub proof fn lemma_le_u32_at_words(ws: Seq<u32>, i: int)
    requires
        0 <= i < ws.len(),
    ensures
        le_u32_at(words_to_bytes(ws), 4 * i) == ws[i],
    decreases i,
{
    lemma_words_to_bytes_len(ws);
    lemma_words_to_bytes_index(ws, 4 * i);
    lemma_words_to_bytes_index(ws, 4 * i + 1);
    lemma_words_to_bytes_index(ws, 4 * i + 2);
    lemma_words_to_bytes_index(ws, 4 * i + 3);
    lemma_word_bytes_round_trip(ws[i]);
}

/// The byte image distributes over concatenation.
pub proof fn lemma_words_to_bytes_concat(a: Seq<u32>, b: Seq<u32>)
    ensures
        words_to_bytes(a + b) =~= words_to_bytes(a) + words_to_bytes(b),
    decreases a.len(),
{
    if a.len() == 0 {
        assert(a + b =~= b);
    } else {
        lemma_words_to_bytes_concat(a.drop_first(), b);
        assert((a + b).drop_first() =~= a.drop_first() + b);
    }
}

/// Serialize a word buffer to its little-endian byte image.
pub fn to_bytes(ws: &Vec<u32>) -> (r: Vec<u8>)
    ensures
        r@ =~= words_to_bytes(ws@),
{
    let mut out: Vec<u8> = Vec::new();
    let mut i: usize = 0;
    while i < ws.len()
        invariant
            i <= ws@.len(),
            out@ =~= words_to_bytes(ws@.subrange(0, i as int)),
        decreases ws@.len() - i,
    {
        let w = ws[i];
        proof {
            lemma_words_to_bytes_concat(ws@.subrange(0, i as int), seq![ws@[i as int]]);
            assert(ws@.subrange(0, i + 1 as int) =~= ws@.subrange(0, i as int) + seq![
                ws@[i as int],
            ]);
            assert(seq![ws@[i as int]].drop_first() =~= Seq::<u32>::empty());
            assert(words_to_bytes(Seq::<u32>::empty()) =~= Seq::<u8>::empty());
            assert(words_to_bytes(seq![ws@[i as int]]) =~= word_bytes(ws@[i as int]));
        }
        out.push(#[verifier::truncate] ((w & 0xff) as u8));
        out.push(#[verifier::truncate] (((w >> 8) & 0xff) as u8));
        out.push(#[verifier::truncate] (((w >> 16) & 0xff) as u8));
        out.push(#[verifier::truncate] (((w >> 24) & 0xff) as u8));
        i = i + 1;
    }
    proof {
        assert(ws@.subrange(0, ws@.len() as int) =~= ws@);
    }
    out
}

/// Deserialize a little-endian byte buffer into words. The byte length must
/// be a multiple of four.
pub fn to_words(b: &Vec<u8>) -> (r: Vec<u32>)
    requires
        b@.len() % 4 == 0,
    ensures
        r@.len() == b@.len() / 4,
        forall|i: int| 0 <= i < r@.len() ==> r@[i] == le_u32_at(b@, 4 * i),
        words_to_bytes(r@) =~= b@,
{
    let mut out: Vec<u32> = Vec::new();
    let n: usize = b.len() / 4;
    let mut j: usize = 0;
    while j < n
        invariant
            b@.len() % 4 == 0,
            b@.len() <= usize::MAX,
            n == b@.len() / 4,
            j <= n,
            out@.len() == j,
            forall|k: int| 0 <= k < out@.len() ==> out@[k] == le_u32_at(b@, 4 * k),
        decreases n - j,
    {
        proof {
            assert(4 * j < 4 * n);
            assert(4 * n <= b@.len());
        }
        let i: usize = 4 * j;
        let w = (b[i] as u32) | ((b[i + 1] as u32) << 8) | ((b[i + 2] as u32) << 16) | ((b[i
            + 3] as u32) << 24);
        out.push(w);
        j = j + 1;
    }
    proof {
        lemma_words_to_bytes_len(out@);
        assert forall|k: int| 0 <= k < b@.len() implies words_to_bytes(out@)[k] == b@[k] by {
            lemma_words_to_bytes_index(out@, k);
            lemma_le_bytes_round_trip(b@[4 * (k / 4)], b@[4 * (k / 4) + 1], b@[4 * (k / 4) + 2],
                b@[4 * (k / 4) + 3]);
            assert(k == 4 * (k / 4) + k % 4);
        }
    }
    out
}

/// Appending one word appends its four bytes.
pub proof fn lemma_words_to_bytes_push(ws: Seq<u32>, w: u32)
    ensures
        words_to_bytes(ws.push(w)) =~= words_to_bytes(ws) + word_bytes(w),
{
    lemma_words_to_bytes_concat(ws, seq![w]);
    assert(ws.push(w) =~= ws + seq![w]);
    assert(seq![w].drop_first() =~= Seq::<u32>::empty());
    assert(words_to_bytes(Seq::<u32>::empty()) =~= Seq::<u8>::empty());
    assert(words_to_bytes(seq![w]) =~= word_bytes(w));
}

} // verus!
