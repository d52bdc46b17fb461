//! The mathematical model of ingestion and aggregation: which bucket a
//! measurement belongs to, what a batch of submissions does to the store
//! map, which buckets a query window covers, and what each aggregation kind
//! folds a scanned sequence of measurements into.

use vstd::prelude::*;
use crate::keys::key_bytes;
use crate::store::{bucket_or_empty, StoreMap};
use crate::types::{ComputeType, MeasurementType, MeasurementValue};

verus! {

/// The bucket sequence number of a timestamp: `ts / sg` by integer division.
pub open spec fn seq_of_ts(ts: u64, sg: u64) -> u64
    recommends
        sg >= 1,
{
    ((ts as int) / (sg as int)) as u64
}

/// A batch sorted ascending by timestamp.
pub open spec fn sorted_by_timestamp(vs: Seq<MeasurementValue>) -> bool {
    forall|i: int, j: int| 0 <= i < j < vs.len() ==> vs[i].timestamp <= vs[j].timestamp
}

/// Appending one measurement to its bucket: the store map after recording
/// `v` for sensor `id` and kind `t`.
pub open spec fn ingest_one(
    m: StoreMap,
    id: Seq<u8>,
    t: MeasurementType,
    sg: u64,
    v: MeasurementValue,
) -> StoreMap
    recommends
        sg >= 1,
{
    let k = key_bytes(id, t, seq_of_ts(v.timestamp, sg));
    m.insert(k, bucket_or_empty(m, k).push(v))
}

/// The store map after recording a whole batch, first measurement first.
pub open spec fn ingest_batch(
    m: StoreMap,
    id: Seq<u8>,
    t: MeasurementType,
    sg: u64,
    vs: Seq<MeasurementValue>,
) -> StoreMap
    decreases vs.len(),
{
    if vs.len() == 0 {
        m
    } else {
        ingest_batch(ingest_one(m, id, t, sg, vs[0]), id, t, sg, vs.subrange(1, vs.len() as int))
    }
}

/// The store map after recording every kind's batch, first batch first.
pub open spec fn ingest_all(
    m: StoreMap,
    id: Seq<u8>,
    sg: u64,
    batches: Seq<(MeasurementType, Vec<MeasurementValue>)>,
) -> StoreMap
    decreases batches.len(),
{
    if batches.len() == 0 {
        m
    } else {
        ingest_all(
            ingest_batch(m, id, batches[0].0, sg, batches[0].1@),
            id,
            sg,
            batches.subrange(1, batches.len() as int),
        )
    }
}

/// Recording a batch and one more measurement records the batch, then the
/// measurement.
pub proof fn lemma_ingest_batch_push(
    m: StoreMap,
    id: Seq<u8>,
    t: MeasurementType,
    sg: u64,
    vs: Seq<MeasurementValue>,
    v: MeasurementValue,
)
    ensures
        ingest_batch(m, id, t, sg, vs.push(v)) == ingest_one(
            ingest_batch(m, id, t, sg, vs),
            id,
            t,
            sg,
            v,
        ),
    decreases vs.len(),
{
    if vs.len() == 0 {
        reveal_with_fuel(ingest_batch, 2);
        assert(vs.push(v)[0] == v);
        assert(vs.push(v).subrange(1, 1) =~= Seq::<MeasurementValue>::empty());
        assert(vs =~= Seq::<MeasurementValue>::empty());
    } else {
        assert(vs.push(v)[0] == vs[0]);
        assert(vs.push(v).subrange(1, vs.len() as int + 1) =~= vs.subrange(1, vs.len() as int).push(
            v,
        ));
        lemma_ingest_batch_push(ingest_one(m, id, t, sg, vs[0]), id, t, sg, vs.subrange(1, vs.len() as int), v);
    }
}

/// Recording a list of batches and one more batch records the list, then
/// the batch.
pub proof fn lemma_ingest_all_push(
    m: StoreMap,
    id: Seq<u8>,
    sg: u64,
    batches: Seq<(MeasurementType, Vec<MeasurementValue>)>,
    b: (MeasurementType, Vec<MeasurementValue>),
)
    ensures
        ingest_all(m, id, sg, batches.push(b)) == ingest_batch(
            ingest_all(m, id, sg, batches),
            id,
            b.0,
            sg,
            b.1@,
        ),
    decreases batches.len(),
{
    if batches.len() == 0 {
        reveal_with_fuel(ingest_all, 2);
        assert(batches.push(b)[0] == b);
        assert(batches.push(b).subrange(1, 1) =~= Seq::<(MeasurementType, Vec<MeasurementValue>)>::empty());
        assert(batches =~= Seq::<(MeasurementType, Vec<MeasurementValue>)>::empty());
    } else {
        assert(batches.push(b)[0] == batches[0]);
        assert(batches.push(b).subrange(1, batches.len() as int + 1) =~= batches.subrange(
            1,
            batches.len() as int,
        ).push(b));
        lemma_ingest_all_push(
            ingest_batch(m, id, batches[0].0, sg, batches[0].1@),
            id,
            sg,
            batches.subrange(1, batches.len() as int),
            b,
        );
    }
}

/// The measurements of a batch that belong to bucket `s`, in batch order.
pub open spec fn bucket_slice(vs: Seq<MeasurementValue>, sg: u64, s: u64) -> Seq<MeasurementValue>
    recommends
        sg >= 1,
    decreases vs.len(),
{
    if vs.len() == 0 {
        Seq::empty()
    } else {
        let rest = bucket_slice(vs.drop_last(), sg, s);
        if seq_of_ts(vs.last().timestamp, sg) == s {
            rest.push(vs.last())
        } else {
            rest
        }
    }
}

/// Every kind in a submission is among the sensor's permitted kinds.
pub open spec fn batch_kinds_permitted(
    s: crate::types::SensorView,
    ms: Seq<(MeasurementType, Vec<MeasurementValue>)>,
) -> bool {
    forall|i: int| 0 <= i < ms.len() ==> s.measurement_types.contains(ms[i].0)
}

/// A query start rounded down to the query granularity.
pub open spec fn aligned_start(qg: u64, ts: u64) -> int
    recommends
        qg >= 1,
{
    ts - (ts as int % qg as int)
}

/// A query end rounded down to the query granularity and extended by one
/// full granularity, so the aligned window always covers the requested one.
pub open spec fn aligned_end(qg: u64, ts: u64) -> int
    recommends
        qg >= 1,
{
    ts - (ts as int % qg as int) + qg
}

/// The first bucket sequence number a window scans (inclusive).
pub open spec fn window_lo(sg: u64, qg: u64, start: u64) -> int
    recommends
        sg >= 1,
        qg >= 1,
{
    aligned_start(qg, start) / sg as int
}

/// The first bucket sequence number past a window's scan (exclusive): the
/// aligned window end floor-divided by the storage granularity, exactly as
/// ingestion derives bucket numbers.
pub open spec fn window_hi(sg: u64, qg: u64, end: u64) -> int
    recommends
        sg >= 1,
        qg >= 1,
{
    aligned_end(qg, end) / sg as int
}

/// Rounding down to a multiple of `g` leaves the quotient by `g` unchanged.
pub proof fn lemma_floor_div(x: u64, g: u64)
    requires
        g >= 1,
    ensures
        (x - x as int % g as int) / (g as int) == x as int / g as int,
{
    let xi = x as int;
    let gi = g as int;
    vstd::arithmetic::div_mod::lemma_fundamental_div_mod(xi, gi);
    vstd::arithmetic::div_mod::lemma_div_multiples_vanish(xi / gi, gi);
}

/// When the query granularity is a multiple of the storage granularity,
/// the aligned window end is itself a multiple of the storage granularity,
/// so the last timestamp below it lands exactly one bucket lower.
pub proof fn lemma_aligned_end_last_bucket(sg: u64, qg: u64, end: u64)
    requires
        sg >= 1,
        qg >= 1,
        qg % sg == 0,
    ensures
        (aligned_end(qg, end) - 1) / (sg as int) == aligned_end(qg, end) / (sg as int) - 1,
{
    let gi = sg as int;
    let a = aligned_end(qg, end);
    let f = (qg as int / gi) * (end as int / qg as int + 1);
    assert(a == gi * f) by {
        vstd::arithmetic::div_mod::lemma_fundamental_div_mod(end as int, qg as int);
        vstd::arithmetic::mul::lemma_mul_is_distributive_add(
            qg as int,
            end as int / qg as int,
            1,
        );
        vstd::arithmetic::div_mod::lemma_fundamental_div_mod(qg as int, gi);
        vstd::arithmetic::mul::lemma_mul_is_associative(
            gi,
            qg as int / gi,
            end as int / qg as int + 1,
        );
    }
    vstd::arithmetic::div_mod::lemma_div_multiples_vanish(f, gi);
    vstd::arithmetic::mul::lemma_mul_is_distributive_sub(gi, f, 1);
    vstd::arithmetic::div_mod::lemma_div_multiples_vanish_fancy(f - 1, gi - 1, gi);
}

/// The measurements a scan visits: the concatenation of the buckets of
/// sensor `id` and kind `t` with sequence numbers in `[lo, hi)`, in
/// increasing order.
pub open spec fn scan_buckets(
    m: StoreMap,
    id: Seq<u8>,
    t: MeasurementType,
    lo: int,
    hi: int,
) -> Seq<MeasurementValue>
    decreases hi - lo,
{
    if lo >= hi {
        Seq::empty()
    } else {
        bucket_or_empty(m, key_bytes(id, t, lo as u64)) + scan_buckets(m, id, t, lo + 1, hi)
    }
}

/// A scan splits at any midpoint.
pub proof fn lemma_scan_split(m: StoreMap, id: Seq<u8>, t: MeasurementType, lo: int, mid: int, hi: int)
    requires
        lo <= mid <= hi,
    ensures
        scan_buckets(m, id, t, lo, hi) == scan_buckets(m, id, t, lo, mid) + scan_buckets(
            m,
            id,
            t,
            mid,
            hi,
        ),
    decreases mid - lo,
{
    if lo >= mid {
        assert(scan_buckets(m, id, t, lo, mid) =~= Seq::<MeasurementValue>::empty());
        assert(scan_buckets(m, id, t, lo, hi) =~= Seq::<MeasurementValue>::empty() + scan_buckets(
            m, id, t, lo, hi));
    } else {
        lemma_scan_split(m, id, t, lo + 1, mid, hi);
        assert(scan_buckets(m, id, t, lo, hi) =~= bucket_or_empty(m, key_bytes(id, t, lo as u64))
            + (scan_buckets(m, id, t, lo + 1, mid) + scan_buckets(m, id, t, mid, hi)));
        assert(bucket_or_empty(m, key_bytes(id, t, lo as u64)) + (scan_buckets(m, id, t, lo + 1, mid)
            + scan_buckets(m, id, t, mid, hi)) =~= (bucket_or_empty(m, key_bytes(id, t, lo as u64))
            + scan_buckets(m, id, t, lo + 1, mid)) + scan_buckets(m, id, t, mid, hi));
    }
}

/// Extending a scan by one bucket appends that bucket.
pub proof fn lemma_scan_snoc(m: StoreMap, id: Seq<u8>, t: MeasurementType, lo: int, hi: int)
    requires
        lo <= hi,
    ensures
        scan_buckets(m, id, t, lo, hi + 1) == scan_buckets(m, id, t, lo, hi) + bucket_or_empty(
            m,
            key_bytes(id, t, hi as u64),
        ),
{
    lemma_scan_split(m, id, t, lo, hi, hi + 1);
    assert(scan_buckets(m, id, t, hi + 1, hi + 1) =~= Seq::<MeasurementValue>::empty());
    assert(scan_buckets(m, id, t, hi, hi + 1) =~= bucket_or_empty(m, key_bytes(id, t, hi as u64))
        + Seq::<MeasurementValue>::empty());
    assert(bucket_or_empty(m, key_bytes(id, t, hi as u64)) + Seq::<MeasurementValue>::empty()
        =~= bucket_or_empty(m, key_bytes(id, t, hi as u64)));
}

/// The running maximum of a scan, starting from the `i32` minimum sentinel.
pub open spec fn fold_max(vs: Seq<MeasurementValue>) -> int
    decreases vs.len(),
{
    if vs.len() == 0 {
        i32::MIN as int
    } else {
        let p = fold_max(vs.drop_last());
        if vs.last().value > p {
            vs.last().value as int
        } else {
            p
        }
    }
}

/// The running minimum of a scan, starting from the `i32` maximum sentinel.
pub open spec fn fold_min(vs: Seq<MeasurementValue>) -> int
    decreases vs.len(),
{
    if vs.len() == 0 {
        i32::MAX as int
    } else {
        let p = fold_min(vs.drop_last());
        if vs.last().value < p {
            vs.last().value as int
        } else {
            p
        }
    }
}

/// The sum of the values of a scan.
pub open spec fn sum_values(vs: Seq<MeasurementValue>) -> int
    decreases vs.len(),
{
    if vs.len() == 0 {
        0
    } else {
        sum_values(vs.drop_last()) + vs.last().value
    }
}

/// Division truncating toward zero, as the average computation performs it.
pub open spec fn trunc_div(a: int, b: int) -> int
    recommends
        b >= 1,
{
    if a >= 0 {
        a / b
    } else {
        -((-a) / b)
    }
}

/// The average of a scan: the truncating division of the sum by the sample
/// count, or exactly 0 when no sample was scanned.
pub open spec fn fold_avg(vs: Seq<MeasurementValue>) -> int {
    if vs.len() == 0 {
        0
    } else {
        trunc_div(sum_values(vs), vs.len() as int)
    }
}

/// What one aggregation kind folds a scanned sequence into.
pub open spec fn apply_compute(ct: ComputeType, vs: Seq<MeasurementValue>) -> int {
    match ct {
        ComputeType::Max => fold_max(vs),
        ComputeType::Min => fold_min(vs),
        ComputeType::Avg => fold_avg(vs),
    }
}

/// The measurements a query over `[start, end]` scans, after alignment.
pub open spec fn query_window(
    m: StoreMap,
    id: Seq<u8>,
    t: MeasurementType,
    sg: u64,
    qg: u64,
    start: u64,
    end: u64,
) -> Seq<MeasurementValue>
    recommends
        sg >= 1,
        qg >= 1,
{
    scan_buckets(m, id, t, window_lo(sg, qg, start), window_hi(sg, qg, end))
}

/// The result of a query: the aggregation folded over the aligned window.
pub open spec fn compute_result(
    m: StoreMap,
    id: Seq<u8>,
    t: MeasurementType,
    ct: ComputeType,
    sg: u64,
    qg: u64,
    start: u64,
    end: u64,
) -> int
    recommends
        sg >= 1,
        qg >= 1,
{
    apply_compute(ct, query_window(m, id, t, sg, qg, start, end))
}

/// The fold results stay within `i32` range.
pub proof fn lemma_fold_bounds(vs: Seq<MeasurementValue>)
    ensures
        i32::MIN <= fold_max(vs) <= i32::MAX,
        i32::MIN <= fold_min(vs) <= i32::MAX,
        vs.len() * (i32::MIN as int) <= sum_values(vs) <= vs.len() * (i32::MAX as int),
    decreases vs.len(),
{
    if vs.len() > 0 {
        lemma_fold_bounds(vs.drop_last());
    }
}

} // verus!
