//! A labelled vector, as it is stored and as it is read back.
use vstd::prelude::*;

use crate::codec::{decode_vector, decoding, encode_vector, encoding, DecodeError};

verus! {

/// A label with its embedding vector, each component held as the bit pattern
/// of an `f32`.
#[derive(Debug)]
pub struct Embedding {
    pub label: String,
    pub vector: Vec<u32>,
}

/// Whether every blob in `rows` has a length divisible by four.
pub open spec fn all_decodable(rows: Seq<(String, Vec<u8>)>) -> bool {
    forall|i: int| 0 <= i < rows.len() ==> (#[trigger] rows[i]).1@.len() % 4 == 0
}

impl Embedding {
    /// Pairs a label with its vector.
    pub fn new(label: String, vector: Vec<u32>) -> (r: Embedding)
        ensures
            r.label == label,
            r.vector == vector,
    {
        Embedding { label, vector }
    }

    /// Pairs labels with vectors position by position; where one list is
    /// longer, its surplus is dropped.
    pub fn batch_new(labels: Vec<String>, vectors: Vec<Vec<u32>>) -> (r: Vec<Embedding>)
        ensures
            r@.len() == if labels@.len() < vectors@.len() {
                labels@.len()
            } else {
                vectors@.len()
            },
            forall|i: int|
                0 <= i < r@.len() ==> (#[trigger] r@[i]).label == labels@[i] && r@[i].vector
                    == vectors@[i],
    {
        let ghost ls = labels@;
        let ghost vs = vectors@;
        let mut labels = labels;
        let mut vectors = vectors;
        let mut out: Vec<Embedding> = Vec::new();
        while labels.len() > 0 && vectors.len() > 0
            invariant
                0 <= out@.len() <= ls.len(),
                out@.len() <= vs.len(),
                labels@ == ls.subrange(out@.len() as int, ls.len() as int),
                vectors@ == vs.subrange(out@.len() as int, vs.len() as int),
                forall|i: int|
                    0 <= i < out@.len() ==> (#[trigger] out@[i]).label == ls[i] && out@[i].vector
                        == vs[i],
            decreases labels@.len(),
        {
            let label = labels.remove(0);
            let vector = vectors.remove(0);
            let ghost n = out@.len() as int;
            out.push(Embedding { label, vector });
            assert(labels@ =~= ls.subrange(n + 1, ls.len() as int));
            assert(vectors@ =~= vs.subrange(n + 1, vs.len() as int));
        }
        out
    }

    /// The blob under which this record's vector is stored.
    pub fn blob(&self) -> (r: Vec<u8>)
        requires
            4 * self.vector@.len() <= usize::MAX,
        ensures
            r@ == encoding(self.vector@),
    {
        encode_vector(&self.vector)
    }
}

/// Reads back stored rows of label and blob. Fails on the first row whose
/// blob cannot be decoded, naming that blob's length.
pub fn decode_rows(rows: Vec<(String, Vec<u8>)>) -> (r: Result<Vec<(String, Vec<u32>)>, DecodeError>)
    ensures
        r is Ok <==> all_decodable(rows@),
        r matches Ok(v) ==> v@.len() == rows@.len() && forall|i: int|
            0 <= i < v@.len() ==> (#[trigger] v@[i]).0 == rows@[i].0 && v@[i].1@ == decoding(
                rows@[i].1@,
            ),
        r matches Err(e) ==> exists|i: int|
            0 <= i < rows@.len() && #[trigger] rows@[i].1@.len() % 4 != 0 && e
                == DecodeError::BadLength(rows@[i].1@.len() as usize) && all_decodable(
                rows@.take(i),
            ),
{
    let ghost s = rows@;
    let mut rest = rows;
    let mut out: Vec<(String, Vec<u32>)> = Vec::new();
    while rest.len() > 0
        invariant
            s == rows@,
            0 <= out@.len() <= s.len(),
            rest@ == s.subrange(out@.len() as int, s.len() as int),
            all_decodable(s.take(out@.len() as int)),
            forall|i: int|
                0 <= i < out@.len() ==> (#[trigger] out@[i]).0 == s[i].0 && out@[i].1@
                    == decoding(s[i].1@),
        decreases rest@.len(),
    {
        let ghost n = out@.len() as int;
        let entry = rest.remove(0);
        assert(entry == s[n]);
        let (label, bytes) = entry;
        match decode_vector(&bytes) {
            Ok(v) => {
                out.push((label, v));
                assert(s.take(n + 1) =~= s.take(n).push(s[n]));
                assert(rest@ =~= s.subrange(n + 1, s.len() as int));
            },
            Err(e) => {
                assert(bytes@.len() % 4 != 0);
                assert(s[n].1@.len() % 4 != 0);
                assert(e == DecodeError::BadLength(s[n].1@.len() as usize));
                assert(!all_decodable(s));
                return Err(e);
            },
        }
    }
    assert(s.take(s.len() as int) =~= s);
    Ok(out)
}

} // verus!
