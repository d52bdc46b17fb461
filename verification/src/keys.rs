//! The key codec: packing (sensor identifier, measurement kind, bucket
//! sequence number) into a fixed-width 24-byte store key.
//!
//! The layout is 8 bytes of identifier, then the kind code and the sequence
//! number as big-endian 64-bit integers, so keys of one sensor and kind sort
//! and group together wherever the store preserves prefix locality.  The
//! codec is injective: distinct triples never collide.

use vstd::prelude::*;
use crate::types::MeasurementType;

verus! {

/// The big-endian 8-byte encoding of a 64-bit integer.
pub open spec fn be8(x: u64) -> Seq<u8> {
    seq![
        ((x >> 56) & 0xff) as u8,
        ((x >> 48) & 0xff) as u8,
        ((x >> 40) & 0xff) as u8,
        ((x >> 32) & 0xff) as u8,
        ((x >> 24) & 0xff) as u8,
        ((x >> 16) & 0xff) as u8,
        ((x >> 8) & 0xff) as u8,
        (x & 0xff) as u8,
    ]
}

/// The bucket key for sensor `id`, kind `t`, and bucket sequence number
/// `seq_no`: identifier bytes, then kind code, then sequence number.
pub open spec fn key_bytes(id: Seq<u8>, t: MeasurementType, seq_no: u64) -> Seq<u8> {
    id + be8(t.spec_code()) + be8(seq_no)
}

/// Appends the big-endian bytes of `x` to `out`.
fn push_be8(out: &mut Vec<u8>, x: u64)
    ensures
        final(out)@ == old(out)@ + be8(x),
{
    out.push(((x >> 56) & 0xff) as u8);
    out.push(((x >> 48) & 0xff) as u8);
    out.push(((x >> 40) & 0xff) as u8);
    out.push(((x >> 32) & 0xff) as u8);
    out.push(((x >> 24) & 0xff) as u8);
    out.push(((x >> 16) & 0xff) as u8);
    out.push(((x >> 8) & 0xff) as u8);
    out.push((x & 0xff) as u8);
    assert(out@ =~= old(out)@ + be8(x));
}

/// An exact copy of a byte string.
pub(crate) fn copy_bytes(v: &Vec<u8>) -> (r: Vec<u8>)
    ensures
        r@ == v@,
{
    let mut r: Vec<u8> = Vec::new();
    let mut i: usize = 0;
    while i < v.len()
        invariant
            i <= v.len(),
            r@ == v@.take(i as int),
        decreases v.len() - i,
    {
        r.push(v[i]);
        assert(r@ =~= v@.take(i + 1));
        i += 1;
    }
    assert(r@ =~= v@);
    r
}

/// Builds the fixed-width store key for one bucket.
///
/// The identifier must have the declared fixed width of 8 bytes; a caller
/// that holds a registered sensor identifier always satisfies this.
pub fn to_measurement_key(id: &Vec<u8>, t: MeasurementType, seq_no: u64) -> (k: Vec<u8>)
    requires
        id@.len() == 8,
    ensures
        k@ == key_bytes(id@, t, seq_no),
        k@.len() == 24,
{
    let mut k: Vec<u8> = Vec::new();
    let mut i: usize = 0;
    while i < id.len()
        invariant
            i <= id.len(),
            k@ == id@.take(i as int),
        decreases id.len() - i,
    {
        k.push(id[i]);
        assert(k@ =~= id@.take(i + 1));
        i += 1;
    }
    assert(k@ =~= id@);
    push_be8(&mut k, t.code());
    push_be8(&mut k, seq_no);
    assert(k@ =~= key_bytes(id@, t, seq_no));
    k
}

/// The big-endian encoding determines its integer.
pub proof fn lemma_be8_injective(x: u64, y: u64)
    ensures
        be8(x) == be8(y) ==> x == y,
{
    if be8(x) == be8(y) {
        assert(be8(x)[0] == be8(y)[0]);
        assert(be8(x)[1] == be8(y)[1]);
        assert(be8(x)[2] == be8(y)[2]);
        assert(be8(x)[3] == be8(y)[3]);
        assert(be8(x)[4] == be8(y)[4]);
        assert(be8(x)[5] == be8(y)[5]);
        assert(be8(x)[6] == be8(y)[6]);
        assert(be8(x)[7] == be8(y)[7]);
        assert((((x >> 56) & 0xff) as u8 == ((y >> 56) & 0xff) as u8 && ((x >> 48) & 0xff) as u8
            == ((y >> 48) & 0xff) as u8 && ((x >> 40) & 0xff) as u8 == ((y >> 40) & 0xff) as u8 && (
        (x >> 32) & 0xff) as u8 == ((y >> 32) & 0xff) as u8 && ((x >> 24) & 0xff) as u8 == ((y
            >> 24) & 0xff) as u8 && ((x >> 16) & 0xff) as u8 == ((y >> 16) & 0xff) as u8 && ((x
            >> 8) & 0xff) as u8 == ((y >> 8) & 0xff) as u8 && (x & 0xff) as u8 == (y & 0xff) as u8)
            ==> x == y) by (bit_vector);
    }
}

/// Key injectivity: equal keys come only from equal (identifier, kind,
/// sequence number) triples.  Distinct buckets therefore never share a key.
pub proof fn lemma_key_injective(
    id1: Seq<u8>,
    t1: MeasurementType,
    s1: u64,
    id2: Seq<u8>,
    t2: MeasurementType,
    s2: u64,
)
    requires
        id1.len() == 8,
        id2.len() == 8,
        key_bytes(id1, t1, s1) == key_bytes(id2, t2, s2),
    ensures
        id1 == id2,
        t1 == t2,
        s1 == s2,
{
    let k1 = key_bytes(id1, t1, s1);
    let k2 = key_bytes(id2, t2, s2);
    assert(id1 =~= id2) by {
        assert(forall|i: int| 0 <= i < 8 ==> id1[i] == k1[i] && id2[i] == k2[i]);
    }
    assert(be8(t1.spec_code()) =~= be8(t2.spec_code())) by {
        assert(forall|i: int|
            0 <= i < 8 ==> be8(t1.spec_code())[i] == k1[8 + i] && be8(t2.spec_code())[i] == k2[8
                + i]);
    }
    lemma_be8_injective(t1.spec_code(), t2.spec_code());
    MeasurementType::lemma_code_injective(t1, t2);
    assert(be8(s1) =~= be8(s2)) by {
        assert(forall|i: int| 0 <= i < 8 ==> be8(s1)[i] == k1[16 + i] && be8(s2)[i] == k2[16 + i]);
    }
    lemma_be8_injective(s1, s2);
}

} // verus!
