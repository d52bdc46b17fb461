//! The laws of the engine: how ingestion places measurements into buckets,
//! how a fresh window's aggregates reflect exactly the submitted values,
//! how empty windows expose the sentinel results, and how widening a query
//! window can only widen the scanned bucket range.

use vstd::prelude::*;
use crate::keys::{key_bytes, lemma_key_injective};
use crate::model::{
    aligned_end, aligned_start, bucket_slice, compute_result, fold_avg, fold_max, fold_min,
    ingest_batch, ingest_one, lemma_aligned_end_last_bucket, lemma_ingest_batch_push,
    lemma_scan_split, query_window, scan_buckets, seq_of_ts, sorted_by_timestamp, window_hi,
    window_lo,
};
use crate::store::{bucket_or_empty, StoreMap};
use crate::types::{ComputeType, MeasurementType, MeasurementValue};

verus! {

/// Distinct sequence numbers in `u64` range give distinct keys.
proof fn lemma_position_keys_distinct(id: Seq<u8>, t: MeasurementType, p: int, q: int)
    requires
        id.len() == 8,
        0 <= p <= u64::MAX,
        0 <= q <= u64::MAX,
        p != q,
    ensures
        key_bytes(id, t, p as u64) != key_bytes(id, t, q as u64),
{
    if key_bytes(id, t, p as u64) == key_bytes(id, t, q as u64) {
        lemma_key_injective(id, t, p as u64, id, t, q as u64);
    }
}

/// Two maps that agree on every bucket of a range scan alike over it.
proof fn lemma_scan_agree(
    m1: StoreMap,
    m2: StoreMap,
    id: Seq<u8>,
    t: MeasurementType,
    lo: int,
    hi: int,
)
    requires
        forall|q: int|
            lo <= q < hi ==> bucket_or_empty(m1, #[trigger] key_bytes(id, t, q as u64))
                == bucket_or_empty(m2, key_bytes(id, t, q as u64)),
    ensures
        scan_buckets(m1, id, t, lo, hi) == scan_buckets(m2, id, t, lo, hi),
    decreases hi - lo,
{
    if lo < hi {
        lemma_scan_agree(m1, m2, id, t, lo + 1, hi);
    }
}

/// A scan over nothing but empty buckets is empty.
proof fn lemma_scan_of_empties(m: StoreMap, id: Seq<u8>, t: MeasurementType, lo: int, hi: int)
    requires
        forall|q: int|
            lo <= q < hi ==> bucket_or_empty(m, #[trigger] key_bytes(id, t, q as u64))
                == Seq::<MeasurementValue>::empty(),
    ensures
        scan_buckets(m, id, t, lo, hi) == Seq::<MeasurementValue>::empty(),
    decreases hi - lo,
{
    if lo < hi {
        lemma_scan_of_empties(m, id, t, lo + 1, hi);
        assert(scan_buckets(m, id, t, lo, hi) =~= Seq::<MeasurementValue>::empty());
    }
}

/// An empty scan has only empty buckets in its range.
proof fn lemma_empty_scan_pieces(m: StoreMap, id: Seq<u8>, t: MeasurementType, lo: int, hi: int, q: int)
    requires
        scan_buckets(m, id, t, lo, hi).len() == 0,
        lo <= q < hi,
    ensures
        bucket_or_empty(m, key_bytes(id, t, q as u64)) == Seq::<MeasurementValue>::empty(),
    decreases q - lo,
{
    if lo == q {
        assert(bucket_or_empty(m, key_bytes(id, t, q as u64)) =~= Seq::<
            MeasurementValue,
        >::empty());
    } else {
        lemma_empty_scan_pieces(m, id, t, lo + 1, hi, q);
    }
}

/// Inserting one bucket of the scanned range replaces exactly that piece
/// of the scan.
proof fn lemma_scan_insert(
    m: StoreMap,
    id: Seq<u8>,
    t: MeasurementType,
    lo: int,
    hi: int,
    p: int,
    b: Seq<MeasurementValue>,
)
    requires
        id.len() == 8,
        0 <= lo,
        hi <= u64::MAX + 1,
        lo <= p < hi,
    ensures
        scan_buckets(m.insert(key_bytes(id, t, p as u64), b), id, t, lo, hi) == scan_buckets(
            m,
            id,
            t,
            lo,
            p,
        ) + b + scan_buckets(m, id, t, p + 1, hi),
    decreases p - lo,
{
    let m2 = m.insert(key_bytes(id, t, p as u64), b);
    if lo == p {
        assert(bucket_or_empty(m2, key_bytes(id, t, p as u64)) == b);
        assert forall|q: int| p + 1 <= q < hi implies bucket_or_empty(
            m2,
            #[trigger] key_bytes(id, t, q as u64),
        ) == bucket_or_empty(m, key_bytes(id, t, q as u64)) by {
            lemma_position_keys_distinct(id, t, p, q);
        }
        lemma_scan_agree(m2, m, id, t, p + 1, hi);
        assert(scan_buckets(m, id, t, lo, p) =~= Seq::<MeasurementValue>::empty());
        assert(scan_buckets(m2, id, t, lo, hi) =~= scan_buckets(m, id, t, lo, p) + b
            + scan_buckets(m, id, t, p + 1, hi));
    } else {
        lemma_position_keys_distinct(id, t, lo, p);
        assert(bucket_or_empty(m2, key_bytes(id, t, lo as u64)) == bucket_or_empty(
            m,
            key_bytes(id, t, lo as u64),
        ));
        lemma_scan_insert(m, id, t, lo + 1, hi, p, b);
        assert(scan_buckets(m2, id, t, lo, hi) =~= (bucket_or_empty(m, key_bytes(id, t, lo as u64))
            + scan_buckets(m, id, t, lo + 1, p)) + b + scan_buckets(m, id, t, p + 1, hi));
        assert(scan_buckets(m, id, t, lo, p) =~= bucket_or_empty(m, key_bytes(id, t, lo as u64))
            + scan_buckets(m, id, t, lo + 1, p));
    }
}

/// Ingesting a batch leaves every bucket outside the batch's sequence
/// numbers unchanged.
proof fn lemma_ingest_untouched(
    m: StoreMap,
    id: Seq<u8>,
    t: MeasurementType,
    sg: u64,
    vs: Seq<MeasurementValue>,
    k: Seq<u8>,
)
    requires
        forall|i: int|
            0 <= i < vs.len() ==> k != key_bytes(id, t, seq_of_ts(vs[i].timestamp, sg)),
    ensures
        bucket_or_empty(ingest_batch(m, id, t, sg, vs), k) == bucket_or_empty(m, k),
    decreases vs.len(),
{
    if vs.len() > 0 {
        let vs1 = vs.drop_last();
        let x = vs.last();
        assert(vs1.push(x) =~= vs);
        lemma_ingest_batch_push(m, id, t, sg, vs1, x);
        assert(forall|i: int|
            0 <= i < vs1.len() ==> k != key_bytes(id, t, seq_of_ts(vs1[i].timestamp, sg)));
        lemma_ingest_untouched(m, id, t, sg, vs1, k);
        assert(k != key_bytes(id, t, seq_of_ts(x.timestamp, sg)));
    }
}

/// LAW — bucket placement.  After ingesting a batch, each bucket holds
/// what it held before, followed by exactly the batch's measurements whose
/// timestamp divides down to that bucket's sequence number, in the order
/// submitted.
pub proof fn lemma_ingest_bucket_contents(
    m: StoreMap,
    id: Seq<u8>,
    t: MeasurementType,
    sg: u64,
    vs: Seq<MeasurementValue>,
    s: u64,
)
    requires
        id.len() == 8,
        sg >= 1,
    ensures
        bucket_or_empty(ingest_batch(m, id, t, sg, vs), key_bytes(id, t, s)) == bucket_or_empty(
            m,
            key_bytes(id, t, s),
        ) + bucket_slice(vs, sg, s),
    decreases vs.len(),
{
    let k = key_bytes(id, t, s);
    if vs.len() == 0 {
        assert(bucket_or_empty(m, k) + bucket_slice(vs, sg, s) =~= bucket_or_empty(m, k));
    } else {
        let vs1 = vs.drop_last();
        let x = vs.last();
        assert(vs1.push(x) =~= vs);
        lemma_ingest_batch_push(m, id, t, sg, vs1, x);
        lemma_ingest_bucket_contents(m, id, t, sg, vs1, s);
        let m1 = ingest_batch(m, id, t, sg, vs1);
        let sx = seq_of_ts(x.timestamp, sg);
        if sx == s {
            assert(bucket_or_empty(ingest_one(m1, id, t, sg, x), k) == bucket_or_empty(
                m1,
                k,
            ).push(x));
            assert(bucket_or_empty(m, k) + bucket_slice(vs1, sg, s).push(x) =~= (bucket_or_empty(
                m,
                k,
            ) + bucket_slice(vs1, sg, s)).push(x));
        } else {
            lemma_position_keys_distinct(id, t, s as int, sx as int);
            assert(bucket_or_empty(ingest_one(m1, id, t, sg, x), k) == bucket_or_empty(m1, k));
        }
    }
}

/// A timestamp within the requested window lands in a bucket the aligned
/// scan range covers: it lies strictly below the aligned end, which is a
/// multiple of the storage granularity, so its bucket stays below
/// `window_hi`.
proof fn lemma_ts_in_window(sg: u64, qg: u64, start: u64, end: u64, ts: u64)
    requires
        sg >= 1,
        qg >= 1,
        qg % sg == 0,
        start <= ts <= end,
    ensures
        window_lo(sg, qg, start) <= seq_of_ts(ts, sg) < window_hi(sg, qg, end),
{
    vstd::arithmetic::div_mod::lemma_div_is_ordered(
        aligned_start(qg, start),
        ts as int,
        sg as int,
    );
    vstd::arithmetic::div_mod::lemma_div_is_ordered(
        ts as int,
        aligned_end(qg, end) - 1,
        sg as int,
    );
    lemma_aligned_end_last_bucket(sg, qg, end);
    vstd::arithmetic::div_mod::lemma_div_pos_is_pos(ts as int, sg as int);
}

/// LAW — fresh-window round trip.  Submitting a batch whose timestamps are
/// sorted and lie in `[start, end]`, into a window that held no data,
/// makes a query over that same window scan exactly the batch: Max and Min
/// then equal the maximum and minimum of the submitted values, and Avg
/// their truncated mean.
pub proof fn theorem_fresh_window_aggregates(
    m: StoreMap,
    id: Seq<u8>,
    t: MeasurementType,
    sg: u64,
    qg: u64,
    start: u64,
    end: u64,
    vs: Seq<MeasurementValue>,
)
    requires
        id.len() == 8,
        sg >= 1,
        qg >= 1,
        qg % sg == 0,
        end + qg <= u64::MAX,
        sorted_by_timestamp(vs),
        forall|i: int| 0 <= i < vs.len() ==> start <= #[trigger] vs[i].timestamp <= end,
        query_window(m, id, t, sg, qg, start, end).len() == 0,
    ensures
        query_window(ingest_batch(m, id, t, sg, vs), id, t, sg, qg, start, end) == vs,
        compute_result(ingest_batch(m, id, t, sg, vs), id, t, ComputeType::Max, sg, qg, start, end)
            == fold_max(vs),
        compute_result(ingest_batch(m, id, t, sg, vs), id, t, ComputeType::Min, sg, qg, start, end)
            == fold_min(vs),
        compute_result(ingest_batch(m, id, t, sg, vs), id, t, ComputeType::Avg, sg, qg, start, end)
            == fold_avg(vs),
    decreases vs.len(),
{
    let lo = window_lo(sg, qg, start);
    let hi = window_hi(sg, qg, end);
    if vs.len() == 0 {
        assert(query_window(m, id, t, sg, qg, start, end) =~= vs);
    } else {
        let vs1 = vs.drop_last();
        let x = vs.last();
        assert(vs1.push(x) =~= vs);
        lemma_ingest_batch_push(m, id, t, sg, vs1, x);
        theorem_fresh_window_aggregates(m, id, t, sg, qg, start, end, vs1);
        let m1 = ingest_batch(m, id, t, sg, vs1);
        let p = seq_of_ts(x.timestamp, sg) as int;
        lemma_ts_in_window(sg, qg, start, end, x.timestamp);
        assert(lo <= p < hi);
        assert(0 <= lo) by {
            vstd::arithmetic::div_mod::lemma_mod_decreases(start as nat, qg as nat);
            vstd::arithmetic::div_mod::lemma_div_pos_is_pos(aligned_start(qg, start), sg as int);
        }
        assert(hi <= u64::MAX + 1) by {
            vstd::arithmetic::div_mod::lemma_mod_decreases(end as nat, qg as nat);
            vstd::arithmetic::div_mod::lemma_div_nonincreasing(aligned_end(qg, end), sg as int);
        }
        let k = key_bytes(id, t, p as u64);
        let b2 = bucket_or_empty(m1, k).push(x);
        assert(ingest_one(m1, id, t, sg, x) == m1.insert(k, b2));
        lemma_scan_insert(m1, id, t, lo, hi, p, b2);
        // buckets past p were empty before the batch and the batch never
        // touched them, its timestamps all dividing down to p or below
        assert forall|q: int| p + 1 <= q < hi implies bucket_or_empty(
            m1,
            #[trigger] key_bytes(id, t, q as u64),
        ) == Seq::<MeasurementValue>::empty() by {
            assert forall|i: int| 0 <= i < vs1.len() implies key_bytes(id, t, q as u64)
                != key_bytes(id, t, seq_of_ts(vs1[i].timestamp, sg)) by {
                vstd::arithmetic::div_mod::lemma_div_is_ordered(
                    vs1[i].timestamp as int,
                    x.timestamp as int,
                    sg as int,
                );
                lemma_position_keys_distinct(id, t, q, seq_of_ts(vs1[i].timestamp, sg) as int);
            }
            lemma_ingest_untouched(m, id, t, sg, vs1, key_bytes(id, t, q as u64));
            lemma_empty_scan_pieces(m, id, t, lo, hi, q);
        }
        lemma_scan_of_empties(m1, id, t, p + 1, hi);
        lemma_scan_split(m1, id, t, lo, p, hi);
        assert(scan_buckets(m1, id, t, p, hi) == bucket_or_empty(m1, k) + scan_buckets(
            m1,
            id,
            t,
            p + 1,
            hi,
        ));
        assert(vs1 =~= scan_buckets(m1, id, t, lo, p) + bucket_or_empty(m1, k));
        assert(scan_buckets(m1.insert(k, b2), id, t, lo, hi) =~= (scan_buckets(m1, id, t, lo, p)
            + bucket_or_empty(m1, k)).push(x));
        assert(query_window(ingest_batch(m, id, t, sg, vs), id, t, sg, qg, start, end) =~= vs);
    }
}

/// LAW — key-space isolation.  A submission for another sensor, or for
/// another measurement kind of the same sensor, never changes what a query
/// window scans: isolation comes from the composite key alone.
pub proof fn lemma_submission_isolation(
    m: StoreMap,
    id2: Seq<u8>,
    t2: MeasurementType,
    sg2: u64,
    vs: Seq<MeasurementValue>,
    id: Seq<u8>,
    t: MeasurementType,
    sg: u64,
    qg: u64,
    start: u64,
    end: u64,
)
    requires
        id.len() == 8,
        id2.len() == 8,
        id != id2 || t != t2,
    ensures
        query_window(ingest_batch(m, id2, t2, sg2, vs), id, t, sg, qg, start, end) == query_window(
            m,
            id,
            t,
            sg,
            qg,
            start,
            end,
        ),
{
    let lo = window_lo(sg, qg, start);
    let hi = window_hi(sg, qg, end);
    let m1 = ingest_batch(m, id2, t2, sg2, vs);
    assert forall|q: int| lo <= q < hi implies bucket_or_empty(
        m1,
        #[trigger] key_bytes(id, t, q as u64),
    ) == bucket_or_empty(m, key_bytes(id, t, q as u64)) by {
        assert forall|i: int| 0 <= i < vs.len() implies key_bytes(id, t, q as u64) != key_bytes(
            id2,
            t2,
            seq_of_ts(vs[i].timestamp, sg2),
        ) by {
            if key_bytes(id, t, q as u64) == key_bytes(id2, t2, seq_of_ts(vs[i].timestamp, sg2)) {
                lemma_key_injective(
                    id,
                    t,
                    q as u64,
                    id2,
                    t2,
                    seq_of_ts(vs[i].timestamp, sg2),
                );
            }
        }
        lemma_ingest_untouched(m, id2, t2, sg2, vs, key_bytes(id, t, q as u64));
    }
    lemma_scan_agree(m1, m, id, t, lo, hi);
}

/// LAW — empty windows expose the sentinels.  A query over a window whose
/// aligned scan holds no measurement returns the `i32` minimum for Max,
/// the `i32` maximum for Min, and exactly 0 for Avg — never a division
/// fault.
pub proof fn lemma_empty_window_sentinels(
    m: StoreMap,
    id: Seq<u8>,
    t: MeasurementType,
    sg: u64,
    qg: u64,
    start: u64,
    end: u64,
)
    requires
        query_window(m, id, t, sg, qg, start, end).len() == 0,
    ensures
        compute_result(m, id, t, ComputeType::Max, sg, qg, start, end) == i32::MIN,
        compute_result(m, id, t, ComputeType::Min, sg, qg, start, end) == i32::MAX,
        compute_result(m, id, t, ComputeType::Avg, sg, qg, start, end) == 0,
{
    assert(query_window(m, id, t, sg, qg, start, end) =~= Seq::<MeasurementValue>::empty());
}

/// LAW — widening a window widens the scan.  Lowering the start or raising
/// the end of a query window can only extend the aligned bucket range on
/// that side, never shrink it.
pub proof fn lemma_window_monotonic(
    sg: u64,
    qg: u64,
    start1: u64,
    end1: u64,
    start2: u64,
    end2: u64,
)
    requires
        sg >= 1,
        qg >= 1,
        start2 <= start1,
        end1 <= end2,
    ensures
        window_lo(sg, qg, start2) <= window_lo(sg, qg, start1),
        window_hi(sg, qg, end1) <= window_hi(sg, qg, end2),
{
    let g = qg as int;
    let qs1 = start1 as int / g;
    let qs2 = start2 as int / g;
    vstd::arithmetic::div_mod::lemma_fundamental_div_mod(start1 as int, g);
    vstd::arithmetic::div_mod::lemma_fundamental_div_mod(start2 as int, g);
    assert(aligned_start(qg, start1) == g * qs1);
    assert(aligned_start(qg, start2) == g * qs2);
    vstd::arithmetic::div_mod::lemma_div_is_ordered(start2 as int, start1 as int, g);
    vstd::arithmetic::mul::lemma_mul_inequality(qs2, qs1, g);
    vstd::arithmetic::mul::lemma_mul_is_commutative(qs1, g);
    vstd::arithmetic::mul::lemma_mul_is_commutative(qs2, g);
    vstd::arithmetic::div_mod::lemma_div_is_ordered(
        aligned_start(qg, start2),
        aligned_start(qg, start1),
        sg as int,
    );
    let qe1 = end1 as int / g;
    let qe2 = end2 as int / g;
    vstd::arithmetic::div_mod::lemma_fundamental_div_mod(end1 as int, g);
    vstd::arithmetic::div_mod::lemma_fundamental_div_mod(end2 as int, g);
    assert(aligned_end(qg, end1) == g * qe1 + g);
    assert(aligned_end(qg, end2) == g * qe2 + g);
    vstd::arithmetic::div_mod::lemma_div_is_ordered(end1 as int, end2 as int, g);
    vstd::arithmetic::mul::lemma_mul_inequality(qe1, qe2, g);
    vstd::arithmetic::mul::lemma_mul_is_commutative(qe1, g);
    vstd::arithmetic::mul::lemma_mul_is_commutative(qe2, g);
    vstd::arithmetic::div_mod::lemma_div_is_ordered(
        aligned_end(qg, end1),
        aligned_end(qg, end2),
        sg as int,
    );
}

} // verus!

