//! The packed blob layout of a stored vector: four little-endian bytes per
//! component, no separators and no length prefix.
use vstd::prelude::*;

verus! {

/// Byte `k` (0 = least significant) of the word `w`.
pub open spec fn byte_of(w: u32, k: int) -> u8 {
    if k == 0 {
        (w & 0xff) as u8
    } else if k == 1 {
        ((w >> 8u32) & 0xff) as u8
    } else if k == 2 {
        ((w >> 16u32) & 0xff) as u8
    } else {
        ((w >> 24u32) & 0xff) as u8
    }
}

/// The word whose little-endian bytes are `b0 b1 b2 b3`.
pub open spec fn word_of(b0: u8, b1: u8, b2: u8, b3: u8) -> u32 {
    (b0 as u32) | ((b1 as u32) << 8u32) | ((b2 as u32) << 16u32) | ((b3 as u32) << 24u32)
}

/// The blob that holds the components `v`.
pub open spec fn encoding(v: Seq<u32>) -> Seq<u8> {
    Seq::new(4 * v.len(), |i: int| byte_of(v[i / 4], i % 4))
}

/// The components that a blob of a length divisible by four holds.
pub open spec fn decoding(b: Seq<u8>) -> Seq<u32> {
    Seq::new(b.len() / 4, |k: int| word_of(b[4 * k], b[4 * k + 1], b[4 * k + 2], b[4 * k + 3]))
}

/// Why a blob could not be read back as a vector.
#[derive(Debug, Clone, Copy, PartialEq, Eq, Structural)]
pub enum DecodeError {
    /// The blob's length, which is not a multiple of four.
    BadLength(usize),
}

proof fn lemma_word_of_bytes(w: u32)
    ensures
        word_of(byte_of(w, 0), byte_of(w, 1), byte_of(w, 2), byte_of(w, 3)) == w,
{
    assert(((w & 0xff) as u8 as u32) | ((((w >> 8u32) & 0xff) as u8 as u32) << 8u32) | ((((w
        >> 16u32) & 0xff) as u8 as u32) << 16u32) | ((((w >> 24u32) & 0xff) as u8 as u32)
        << 24u32) == w) by (bit_vector);
}

proof fn lemma_bytes_of_word(b0: u8, b1: u8, b2: u8, b3: u8)
    ensures
        byte_of(word_of(b0, b1, b2, b3), 0) == b0,
        byte_of(word_of(b0, b1, b2, b3), 1) == b1,
        byte_of(word_of(b0, b1, b2, b3), 2) == b2,
        byte_of(word_of(b0, b1, b2, b3), 3) == b3,
{
    let w = word_of(b0, b1, b2, b3);
    assert(w == (b0 as u32) | ((b1 as u32) << 8u32) | ((b2 as u32) << 16u32) | ((b3 as u32)
        << 24u32));
    assert((((b0 as u32) | ((b1 as u32) << 8u32) | ((b2 as u32) << 16u32) | ((b3 as u32)
        << 24u32)) & 0xff) as u8 == b0) by (bit_vector);
    assert(((((b0 as u32) | ((b1 as u32) << 8u32) | ((b2 as u32) << 16u32) | ((b3 as u32)
        << 24u32)) >> 8u32) & 0xff) as u8 == b1) by (bit_vector);
    assert(((((b0 as u32) | ((b1 as u32) << 8u32) | ((b2 as u32) << 16u32) | ((b3 as u32)
        << 24u32)) >> 16u32) & 0xff) as u8 == b2) by (bit_vector);
    assert(((((b0 as u32) | ((b1 as u32) << 8u32) | ((b2 as u32) << 16u32) | ((b3 as u32)
        << 24u32)) >> 24u32) & 0xff) as u8 == b3) by (bit_vector);
}

/// Decoding the encoding of any vector gives that vector back, component for
/// component and bit for bit.
pub proof fn lemma_round_trip(v: Seq<u32>)
    ensures
        encoding(v).len() % 4 == 0,
        decoding(encoding(v)) == v,
{
    let b = encoding(v);
    assert(b.len() == 4 * v.len());
    assert(decoding(b).len() == v.len());
    assert forall|k: int| 0 <= k < v.len() implies #[trigger] decoding(b)[k] == v[k] by {
        assert(b[4 * k] == byte_of(v[k], 0));
        assert(b[4 * k + 1] == byte_of(v[k], 1));
        assert(b[4 * k + 2] == byte_of(v[k], 2));
        assert(b[4 * k + 3] == byte_of(v[k], 3));
        lemma_word_of_bytes(v[k]);
    }
    assert(decoding(b) =~= v);
}

/// Encoding the decoding of a blob whose length is a multiple of four gives
/// that blob back.
pub proof fn lemma_blob_round_trip(b: Seq<u8>)
    requires
        b.len() % 4 == 0,
    ensures
        encoding(decoding(b)) == b,
{
    let v = decoding(b);
    assert(encoding(v).len() == b.len());
    assert forall|i: int| 0 <= i < b.len() implies #[trigger] encoding(v)[i] == b[i] by {
        let k = i / 4;
        lemma_bytes_of_word(b[4 * k], b[4 * k + 1], b[4 * k + 2], b[4 * k + 3]);
    }
    assert(encoding(v) =~= b);
}

/// The four little-endian bytes of `w`.
fn push_word(out: &mut Vec<u8>, w: u32)
    ensures
        final(out)@ == old(out)@ + seq![byte_of(w, 0), byte_of(w, 1), byte_of(w, 2), byte_of(w, 3)],
{
    out.push((w & 0xff) as u8);
    out.push(((w >> 8u32) & 0xff) as u8);
    out.push(((w >> 16u32) & 0xff) as u8);
    out.push(((w >> 24u32) & 0xff) as u8);
}

/// Packs the components of a vector into the stored blob.
pub fn encode_vector(v: &Vec<u32>) -> (r: Vec<u8>)
    requires
        4 * v@.len() <= usize::MAX,
    ensures
        r@ == encoding(v@),
{
    let mut out: Vec<u8> = Vec::new();
    let mut i: usize = 0;
    while i < v.len()
        invariant
            i <= v@.len(),
            4 * v@.len() <= usize::MAX,
            out@ =~= encoding(v@.take(i as int)),
        decreases v@.len() - i,
    {
        let w = v[i];
        push_word(&mut out, w);
        proof {
            assert(v@.take(i as int + 1) =~= v@.take(i as int).push(w));
        }
        i = i + 1;
        assert(out@ =~= encoding(v@.take(i as int)));
    }
    assert(v@.take(v@.len() as int) =~= v@);
    out
}

/// Reads a stored blob back into the components of a vector; a blob whose
/// length is not a multiple of four is refused.
pub fn decode_vector(b: &Vec<u8>) -> (r: Result<Vec<u32>, DecodeError>)
    ensures
        b@.len() % 4 != 0 <==> r is Err,
        r matches Ok(v) ==> v@ == decoding(b@),
        r matches Err(e) ==> e == DecodeError::BadLength(b@.len() as usize),
{
    if b.len() % 4 != 0 {
        return Err(DecodeError::BadLength(b.len()));
    }
    let len: usize = b.len();
    let n: usize = len / 4;
    let mut out: Vec<u32> = Vec::new();
    let mut k: usize = 0;
    while k < n
        invariant
            len == b@.len(),
            n == b@.len() / 4,
            b@.len() % 4 == 0,
            k <= n,
            out@ =~= decoding(b@).take(k as int),
        decreases n - k,
    {
        assert(4 * k + 3 < b@.len()) by (nonlinear_arith)
            requires
                k < n,
                n == b@.len() / 4,
        ;
        let j: usize = 4 * k;
        let w: u32 = (b[j] as u32) | ((b[j + 1] as u32) << 8u32) | ((b[j + 2] as u32) << 16u32)
            | ((b[j + 3] as u32) << 24u32);
        out.push(w);
        k = k + 1;
        assert(out@ =~= decoding(b@).take(k as int));
    }
    Ok(out)
}

} // verus!
