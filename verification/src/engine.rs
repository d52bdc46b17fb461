//! The engine: sensor registry, ingestion, and range aggregation over the
//! bucket store.
//!
//! The hosting context is modeled explicitly: the engine owns its state and
//! every operation takes the caller's address as a plain argument, so the
//! engine can be driven against any host and any in-memory substitute.

use vstd::prelude::*;
use crate::digest::{sensor_id_of, sha256_pair};
use crate::keys::{copy_bytes, key_bytes};
use crate::model::{
    batch_kinds_permitted, compute_result, fold_avg, fold_max, fold_min, ingest_all, ingest_batch,
    lemma_floor_div, lemma_fold_bounds, lemma_ingest_all_push, lemma_ingest_batch_push,
    lemma_scan_snoc, lemma_scan_split,
    query_window, scan_buckets, seq_of_ts, sum_values, window_hi, window_lo,
};
use crate::store::{bucket_or_empty, bytes_eq, BucketStore, StoreMap};
use crate::types::{
    ComputeType, Error, MeasurementType, MeasurementValue, Request, Response, Sensor, SensorView,
};

verus! {

/// The registry denoted by a list of identifier/sensor entries with
/// pairwise distinct identifiers.
pub open spec fn sensor_map_of(es: Seq<(Vec<u8>, Sensor)>) -> Map<Seq<u8>, SensorView> {
    Map::new(
        |k: Seq<u8>| exists|i: int| 0 <= i < es.len() && es[i].0@ == k,
        |k: Seq<u8>| es[choose|i: int| 0 <= i < es.len() && es[i].0@ == k].1@,
    )
}

/// Pairwise distinct sensor identifiers.
pub open spec fn sensor_keys_distinct(es: Seq<(Vec<u8>, Sensor)>) -> bool {
    forall|i: int, j: int| 0 <= i < j < es.len() ==> es[i].0@ != es[j].0@
}

/// An entry with identifier `es[i].0@` maps to the sensor stored beside it.
proof fn lemma_sensor_map_at(es: Seq<(Vec<u8>, Sensor)>, i: int)
    requires
        sensor_keys_distinct(es),
        0 <= i < es.len(),
    ensures
        sensor_map_of(es).contains_key(es[i].0@),
        sensor_map_of(es)[es[i].0@] == es[i].1@,
{
    let k = es[i].0@;
    let j = choose|j: int| 0 <= j < es.len() && es[j].0@ == k;
    assert(j == i);
}

/// Replacing the entry that holds `key` updates the registry at `key`.
proof fn lemma_sensor_map_set(es: Seq<(Vec<u8>, Sensor)>, i: int, key: Vec<u8>, s: Sensor)
    requires
        sensor_keys_distinct(es),
        0 <= i < es.len(),
        es[i].0@ == key@,
    ensures
        sensor_keys_distinct(es.update(i, (key, s))),
        sensor_map_of(es.update(i, (key, s))) == sensor_map_of(es).insert(key@, s@),
{
    let after = es.update(i, (key, s));
    assert(forall|j: int| 0 <= j < after.len() ==> after[j].0@ == es[j].0@);
    assert forall|q: Seq<u8>| #[trigger] sensor_map_of(after).contains_key(q)
        == sensor_map_of(es).insert(key@, s@).contains_key(q) by {
        if exists|j: int| 0 <= j < after.len() && after[j].0@ == q {
            let j = choose|j: int| 0 <= j < after.len() && after[j].0@ == q;
            assert(es[j].0@ == q);
        }
        if exists|j: int| 0 <= j < es.len() && es[j].0@ == q {
            let j = choose|j: int| 0 <= j < es.len() && es[j].0@ == q;
            assert(after[j].0@ == q);
        }
    }
    assert forall|q: Seq<u8>| sensor_map_of(after).contains_key(q) implies #[trigger]
        sensor_map_of(after)[q] == sensor_map_of(es).insert(key@, s@)[q] by {
        let j = choose|j: int| 0 <= j < after.len() && after[j].0@ == q;
        lemma_sensor_map_at(after, j);
        if q == key@ {
            assert(j == i);
        } else {
            assert(j != i);
            lemma_sensor_map_at(es, j);
        }
    }
    assert(sensor_map_of(after) =~= sensor_map_of(es).insert(key@, s@));
}

/// Appending an entry with a fresh identifier inserts it into the registry.
proof fn lemma_sensor_map_push(es: Seq<(Vec<u8>, Sensor)>, key: Vec<u8>, s: Sensor)
    requires
        sensor_keys_distinct(es),
        forall|j: int| 0 <= j < es.len() ==> es[j].0@ != key@,
    ensures
        sensor_keys_distinct(es.push((key, s))),
        sensor_map_of(es.push((key, s))) == sensor_map_of(es).insert(key@, s@),
{
    let after = es.push((key, s));
    assert(after[es.len() as int].0@ == key@);
    assert(forall|j: int| 0 <= j < es.len() ==> after[j].0@ == es[j].0@);
    assert forall|q: Seq<u8>| #[trigger] sensor_map_of(after).contains_key(q)
        == sensor_map_of(es).insert(key@, s@).contains_key(q) by {
        if exists|j: int| 0 <= j < after.len() && after[j].0@ == q {
            let j = choose|j: int| 0 <= j < after.len() && after[j].0@ == q;
            if j < es.len() {
                assert(es[j].0@ == q);
            } else {
                assert(q == key@);
            }
        }
        if q != key@ && exists|j: int| 0 <= j < es.len() && es[j].0@ == q {
            let j = choose|j: int| 0 <= j < es.len() && es[j].0@ == q;
            assert(after[j].0@ == q);
        }
    }
    assert forall|q: Seq<u8>| sensor_map_of(after).contains_key(q) implies #[trigger]
        sensor_map_of(after)[q] == sensor_map_of(es).insert(key@, s@)[q] by {
        let j = choose|j: int| 0 <= j < after.len() && after[j].0@ == q;
        lemma_sensor_map_at(after, j);
        if q == key@ {
            assert(j == es.len() as int);
        } else {
            assert(j < es.len());
            lemma_sensor_map_at(es, j);
        }
    }
    assert(sensor_map_of(after) =~= sensor_map_of(es).insert(key@, s@));
}

/// Records one kind's batch into the store through read-modify-write
/// cycles.
///
/// The batch is walked in order; the bucket of the current measurement is
/// held in memory, and is flushed and exchanged only when the computed
/// sequence number changes.  A batch therefore costs one read and one write
/// per distinct bucket it touches, however many measurements land in each.
pub fn ingest_kind(
    store: &mut BucketStore,
    id: &Vec<u8>,
    t: MeasurementType,
    sg: u64,
    vs: &Vec<MeasurementValue>,
)
    requires
        old(store).wf(),
        id@.len() == 8,
        sg >= 1,
    ensures
        final(store).wf(),
        final(store)@ == ingest_batch(old(store)@, id@, t, sg, vs@),
{
    if vs.len() == 0 {
        return;
    }
    let ghost m0 = store@;
    let mut cur_seq: u64 = vs[0].timestamp / sg;
    assert(cur_seq == seq_of_ts(vs@[0].timestamp, sg));
    let mut cur_vals: Vec<MeasurementValue> = store.read(id, t, cur_seq);
    proof {
        if store@.contains_key(key_bytes(id@, t, cur_seq)) {
            store.lemma_no_empty_buckets(key_bytes(id@, t, cur_seq));
            assert(store@.insert(key_bytes(id@, t, cur_seq), cur_vals@) =~= store@);
        }
        assert(vs@.take(0) =~= Seq::<MeasurementValue>::empty());
    }
    let mut i: usize = 0;
    while i < vs.len()
        invariant
            store.wf(),
            id@.len() == 8,
            sg >= 1,
            i <= vs@.len(),
            vs@.len() > 0,
            cur_seq == seq_of_ts(vs@[if i == 0 { 0int } else { i - 1 }].timestamp, sg),
            cur_vals@ == bucket_or_empty(
                ingest_batch(m0, id@, t, sg, vs@.take(i as int)),
                key_bytes(id@, t, cur_seq),
            ),
            i > 0 ==> cur_vals@.len() > 0,
            cur_vals@.len() > 0 ==> store@.insert(key_bytes(id@, t, cur_seq), cur_vals@)
                == ingest_batch(m0, id@, t, sg, vs@.take(i as int)),
            cur_vals@.len() == 0 ==> store@ == ingest_batch(m0, id@, t, sg, vs@.take(i as int))
                && !store@.contains_key(key_bytes(id@, t, cur_seq)),
        decreases vs@.len() - i,
    {
        let s_no: u64 = vs[i].timestamp / sg;
        assert(s_no == seq_of_ts(vs@[i as int].timestamp, sg));
        let ghost gi = ingest_batch(m0, id@, t, sg, vs@.take(i as int));
        proof {
            assert(vs@.take(i as int).push(vs@[i as int]) =~= vs@.take(i as int + 1));
            lemma_ingest_batch_push(m0, id@, t, sg, vs@.take(i as int), vs@[i as int]);
        }
        if s_no != cur_seq {
            assert(i > 0);
            store.write(id, t, cur_seq, cur_vals);
            assert(store@ == gi);
            cur_vals = store.read(id, t, s_no);
            cur_seq = s_no;
        } else {
            proof {
                if cur_vals@.len() > 0 {
                    assert(store@.insert(key_bytes(id@, t, cur_seq), cur_vals@.push(vs@[i as int]))
                        =~= store@.insert(key_bytes(id@, t, cur_seq), cur_vals@).insert(
                        key_bytes(id@, t, cur_seq),
                        cur_vals@.push(vs@[i as int]),
                    ));
                }
            }
        }
        cur_vals.push(vs[i]);
        i += 1;
    }
    proof {
        assert(vs@.take(vs@.len() as int) =~= vs@);
    }
    store.write(id, t, cur_seq, cur_vals);
}

/// The identifier/sensor pairs denoted by a result list.
pub open spec fn pairs_view(v: Seq<(Vec<u8>, Sensor)>) -> Seq<(Seq<u8>, SensorView)> {
    Seq::new(v.len(), |i: int| (v[i].0@, v[i].1@))
}

/// Whether a result list already carries an identifier.
pub open spec fn contains_id(ps: Seq<(Seq<u8>, SensorView)>, id: Seq<u8>) -> bool {
    exists|i: int| 0 <= i < ps.len() && ps[i].0 == id
}

/// The pairs a name-lookup request returns: for each name, in request
/// order, the derived identifier and the registered sensor, skipping names
/// that are not registered and identifiers already collected.
pub open spec fn lookup_pairs(
    m: Map<Seq<u8>, SensorView>,
    caller: Seq<char>,
    names: Seq<String>,
) -> Seq<(Seq<u8>, SensorView)>
    decreases names.len(),
{
    if names.len() == 0 {
        Seq::empty()
    } else {
        let rest = lookup_pairs(m, caller, names.drop_last());
        let id = sensor_id_of(names.last()@, caller);
        if m.contains_key(id) && !contains_id(rest, id) {
            rest.push((id, m[id]))
        } else {
            rest
        }
    }
}

/// Whether a result list already carries an identifier, executably.
fn pairs_contain(out: &Vec<(Vec<u8>, Sensor)>, id: &Vec<u8>) -> (r: bool)
    ensures
        r == contains_id(pairs_view(out@), id@),
{
    let mut i: usize = 0;
    while i < out.len()
        invariant
            i <= out@.len(),
            forall|j: int| 0 <= j < i ==> out@[j].0@ != id@,
        decreases out@.len() - i,
    {
        if bytes_eq(&out[i].0, id) {
            assert(pairs_view(out@)[i as int].0 == id@);
            return true;
        }
        i += 1;
    }
    assert(forall|j: int| 0 <= j < out@.len() ==> pairs_view(out@)[j].0 != id@);
    false
}

/// The engine.  One value of this type holds the whole persistent state:
/// the owner recorded at instantiation, the sensor registry, and the
/// measurement buckets.
pub struct Cloudy {
    owner: Option<String>,
    sensors: Vec<(Vec<u8>, Sensor)>,
    measurements: BucketStore,
}

impl Cloudy {
    /// The owner's address, if the engine was instantiated.
    pub closed spec fn owner_view(&self) -> Option<Seq<char>> {
        match self.owner {
            Some(o) => Some(o@),
            None => None,
        }
    }

    /// The sensor registry: identifier bytes to sensor configuration.
    pub closed spec fn sensors_view(&self) -> Map<Seq<u8>, SensorView> {
        sensor_map_of(self.sensors@)
    }

    /// The measurement store: bucket key bytes to bucket contents.
    pub closed spec fn buckets(&self) -> StoreMap {
        self.measurements@
    }

    /// Well-formed: the store is well-formed, and the registry holds one
    /// entry per identifier, every identifier 8 bytes wide, every
    /// configuration valid.
    pub closed spec fn wf(&self) -> bool {
        &&& self.measurements.wf()
        &&& sensor_keys_distinct(self.sensors@)
        &&& forall|i: int| 0 <= i < self.sensors@.len() ==> self.sensors@[i].0@.len() == 8
        &&& forall|i: int| 0 <= i < self.sensors@.len() ==> self.sensors@[i].1@.valid()
    }

    /// Every registered sensor of a well-formed engine has a valid
    /// configuration and an 8-byte identifier.
    pub proof fn lemma_registered_sensor_valid(&self, k: Seq<u8>)
        requires
            self.wf(),
            self.sensors_view().contains_key(k),
        ensures
            self.sensors_view()[k].valid(),
            k.len() == 8,
    {
        let i = choose|i: int| 0 <= i < self.sensors@.len() && self.sensors@[i].0@ == k;
        lemma_sensor_map_at(self.sensors@, i);
    }

    /// A fresh engine: no owner, no sensors, no measurements.
    pub fn new() -> (c: Cloudy)
        ensures
            c.wf(),
            c.owner_view() is None,
            c.sensors_view() == Map::<Seq<u8>, SensorView>::empty(),
            c.buckets() == StoreMap::empty(),
    {
        let c = Cloudy { owner: None, sensors: Vec::new(), measurements: BucketStore::new() };
        proof {
            assert(c.sensors_view() =~= Map::<Seq<u8>, SensorView>::empty());
        }
        c
    }

    /// Rounds `start` down to the nearest multiple of `granularity`.
    pub fn timestamp_floor(granularity: u64, start: u64) -> (r: u64)
        requires
            granularity >= 1,
        ensures
            r == start - (start as int % granularity as int),
    {
        proof {
            vstd::arithmetic::div_mod::lemma_mod_decreases(start as nat, granularity as nat);
        }
        start - (start % granularity)
    }

    /// Derives the identifier a sensor of `name` gets when registered by
    /// the owner at `address`.
    pub fn compute_sensor_id(name: &String, address: &String) -> (id: Vec<u8>)
        ensures
            id@ == sensor_id_of(name@, address@),
            id@.len() == 8,
    {
        let digest = sha256_pair(name.as_str(), address.as_str());
        let mut id: Vec<u8> = Vec::new();
        let mut i: usize = 0;
        while i < 8
            invariant
                i <= 8,
                digest@.len() == 32,
                id@ == digest@.take(i as int),
            decreases 8 - i,
        {
            id.push(digest[i]);
            assert(id@ =~= digest@.take(i + 1));
            i += 1;
        }
        id
    }

    /// The registry index holding `id`, if any.
    fn find_sensor_index(&self, id: &Vec<u8>) -> (r: Option<usize>)
        ensures
            match r {
                Some(i) => {
                    &&& 0 <= i < self.sensors@.len()
                    &&& self.sensors@[i as int].0@ == id@
                },
                None => forall|i: int|
                    0 <= i < self.sensors@.len() ==> self.sensors@[i].0@ != id@,
            },
    {
        let mut i: usize = 0;
        while i < self.sensors.len()
            invariant
                i <= self.sensors@.len(),
                forall|j: int| 0 <= j < i ==> self.sensors@[j].0@ != id@,
            decreases self.sensors@.len() - i,
        {
            if bytes_eq(&self.sensors[i].0, id) {
                return Some(i);
            }
            i += 1;
        }
        None
    }

    /// Records the caller as owner.  Any other request is malformed here.
    pub fn instantiate(&mut self, caller: &String, request: crate::types::Request) -> (r: Result<
        (),
        Error,
    >)
        requires
            old(self).wf(),
        ensures
            final(self).wf(),
            final(self).sensors_view() == old(self).sensors_view(),
            final(self).buckets() == old(self).buckets(),
            match request {
                crate::types::Request::Instantiate {  } => r == Ok::<(), Error>(())
                    && final(self).owner_view() == Some(caller@),
                _ => r == Err::<(), Error>(Error::BadRequest)
                    && final(self).owner_view() == old(self).owner_view(),
            },
    {
        match request {
            crate::types::Request::Instantiate {  } => {
                self.owner = Some(caller.clone());
                Ok(())
            },
            _ => Err(Error::BadRequest),
        }
    }

    /// Registers a sensor for the caller.
    ///
    /// Only the recorded owner may register sensors; an engine without an
    /// owner, or a configuration whose granularities are not positive with
    /// the query granularity a multiple of the storage granularity, is a
    /// malformed request.  On success the reply carries the sensor's
    /// derived identifier, and registering the same name again replaces the
    /// configuration.
    pub fn register_sensor(&mut self, caller: &String, sensor: Sensor) -> (r: Result<
        Vec<u8>,
        Error,
    >)
        requires
            old(self).wf(),
        ensures
            final(self).wf(),
            final(self).owner_view() == old(self).owner_view(),
            final(self).buckets() == old(self).buckets(),
            old(self).owner_view() is None ==> r == Err::<Vec<u8>, Error>(Error::BadRequest)
                && final(self).sensors_view() == old(self).sensors_view(),
            old(self).owner_view() matches Some(o) && o != caller@
                ==> r == Err::<Vec<u8>, Error>(Error::Forbidden)
                && final(self).sensors_view() == old(self).sensors_view(),
            old(self).owner_view() == Some(caller@) && !sensor@.valid()
                ==> r == Err::<Vec<u8>, Error>(Error::BadRequest)
                && final(self).sensors_view() == old(self).sensors_view(),
            old(self).owner_view() == Some(caller@) && sensor@.valid()
                ==> (r matches Ok(id) && id@ == sensor_id_of(sensor.name@, caller@)
                && final(self).sensors_view()
                == old(self).sensors_view().insert(sensor_id_of(sensor.name@, caller@), sensor@)),
    {
        match &self.owner {
            None => {
                return Err(Error::BadRequest);
            },
            Some(o) => {
                if !o.eq(caller) {
                    return Err(Error::Forbidden);
                }
            },
        }
        if !(sensor.storage_granularity >= 1 && sensor.query_granularity >= 1
            && sensor.query_granularity % sensor.storage_granularity == 0) {
            return Err(Error::BadRequest);
        }
        let id = Self::compute_sensor_id(&sensor.name, caller);
        let key = copy_bytes(&id);
        let ghost es = self.sensors@;
        match self.find_sensor_index(&id) {
            Some(i) => {
                proof {
                    lemma_sensor_map_set(es, i as int, (key, sensor).0, (key, sensor).1);
                }
                self.sensors[i] = (key, sensor);
            },
            None => {
                proof {
                    lemma_sensor_map_push(es, (key, sensor).0, (key, sensor).1);
                }
                self.sensors.push((key, sensor));
            },
        }
        Ok(id)
    }

    /// Adds a submission of measurements to the store.
    ///
    /// The submission maps measurement kinds to batches, each batch sorted
    /// ascending by timestamp; each batch is recorded independently, in
    /// submission order, by `ingest_kind`.  An empty submission succeeds as
    /// a no-op.  Submitting for an unregistered sensor fails with
    /// `UnknownSensorID`, and submitting a kind the sensor is not permitted
    /// to report fails with `BadRequest`; either failure leaves every
    /// bucket unchanged.
    pub fn submit_measurements(
        &mut self,
        sensor_id: &Vec<u8>,
        measurements: Vec<(MeasurementType, Vec<MeasurementValue>)>,
    ) -> (r: Result<(), Error>)
        requires
            old(self).wf(),
        ensures
            final(self).wf(),
            final(self).owner_view() == old(self).owner_view(),
            final(self).sensors_view() == old(self).sensors_view(),
            measurements@.len() == 0 ==> r == Ok::<(), Error>(()) && final(self).buckets() == old(
                self,
            ).buckets(),
            measurements@.len() > 0 && !old(self).sensors_view().contains_key(sensor_id@)
                ==> r == Err::<(), Error>(Error::UnknownSensorID)
                && final(self).buckets() == old(self).buckets(),
            measurements@.len() > 0 && old(self).sensors_view().contains_key(sensor_id@)
                && !batch_kinds_permitted(old(self).sensors_view()[sensor_id@], measurements@)
                ==> r == Err::<(), Error>(Error::BadRequest)
                && final(self).buckets() == old(self).buckets(),
            measurements@.len() > 0 && old(self).sensors_view().contains_key(sensor_id@)
                && batch_kinds_permitted(old(self).sensors_view()[sensor_id@], measurements@)
                ==> r == Ok::<(), Error>(()) && final(self).buckets() == ingest_all(
                old(self).buckets(),
                sensor_id@,
                old(self).sensors_view()[sensor_id@].storage_granularity,
                measurements@,
            ),
    {
        if measurements.len() == 0 {
            return Ok(());
        }
        let idx = match self.find_sensor_index(sensor_id) {
            Some(i) => i,
            None => {
                return Err(Error::UnknownSensorID);
            },
        };
        proof {
            lemma_sensor_map_at(self.sensors@, idx as int);
        }
        let sg = self.sensors[idx].1.storage_granularity;
        let mut i: usize = 0;
        while i < measurements.len()
            invariant
                self == old(self),
                self.wf(),
                0 <= idx < self.sensors@.len(),
                self.sensors@[idx as int].0@ == sensor_id@,
                i <= measurements@.len(),
                forall|j: int|
                    0 <= j < i ==> self.sensors@[idx as int].1@.measurement_types.contains(
                        measurements@[j].0,
                    ),
            decreases measurements@.len() - i,
        {
            if !self.sensors[idx].1.permits(measurements[i].0) {
                proof {
                    lemma_sensor_map_at(self.sensors@, idx as int);
                }
                return Err(Error::BadRequest);
            }
            i += 1;
        }
        let ghost m0 = self.measurements@;
        let ghost sensors0 = self.sensors@;
        let ghost owner0 = self.owner;
        proof {
            assert(measurements@.take(0) =~= Seq::<(MeasurementType, Vec<MeasurementValue>)>::empty());
        }
        let mut i: usize = 0;
        while i < measurements.len()
            invariant
                self.measurements.wf(),
                self.sensors@ == sensors0,
                self.owner == owner0,
                sensor_keys_distinct(sensors0),
                forall|j: int| 0 <= j < sensors0.len() ==> sensors0[j].0@.len() == 8,
                forall|j: int| 0 <= j < sensors0.len() ==> sensors0[j].1@.valid(),
                0 <= idx < sensors0.len(),
                sensors0[idx as int].0@ == sensor_id@,
                sg == sensors0[idx as int].1@.storage_granularity,
                sg >= 1,
                i <= measurements@.len(),
                self.measurements@ == ingest_all(m0, sensor_id@, sg, measurements@.take(i as int)),
            decreases measurements@.len() - i,
        {
            proof {
                assert(measurements@.take(i as int).push(measurements@[i as int])
                    =~= measurements@.take(i as int + 1));
                lemma_ingest_all_push(m0, sensor_id@, sg, measurements@.take(i as int), measurements@[i as int]);
            }
            ingest_kind(&mut self.measurements, sensor_id, measurements[i].0, sg, &measurements[i].1);
            i += 1;
        }
        proof {
            assert(measurements@.take(measurements@.len() as int) =~= measurements@);
        }
        Ok(())
    }

    /// Looks up the caller's sensor of the given name, returning its
    /// identifier and configuration if it is registered.
    pub fn get_sensor_by_name(&self, caller: &String, name: String) -> (r: Option<
        (Vec<u8>, Sensor),
    >)
        requires
            self.wf(),
        ensures
            match r {
                Some(p) => {
                    &&& self.sensors_view().contains_key(sensor_id_of(name@, caller@))
                    &&& p.0@ == sensor_id_of(name@, caller@)
                    &&& p.1@ == self.sensors_view()[sensor_id_of(name@, caller@)]
                },
                None => !self.sensors_view().contains_key(sensor_id_of(name@, caller@)),
            },
    {
        let id = Self::compute_sensor_id(&name, caller);
        match self.find_sensor_index(&id) {
            Some(i) => {
                proof {
                    lemma_sensor_map_at(self.sensors@, i as int);
                }
                let s = self.sensors[i].1.duplicate();
                Some((id, s))
            },
            None => None,
        }
    }

    /// Collects the caller's registered sensors for a list of names, in
    /// request order, one entry per distinct identifier.
    fn gather_sensors(&self, caller: &String, names: &Vec<String>) -> (r: Vec<(Vec<u8>, Sensor)>)
        requires
            self.wf(),
        ensures
            pairs_view(r@) == lookup_pairs(self.sensors_view(), caller@, names@),
    {
        let mut out: Vec<(Vec<u8>, Sensor)> = Vec::new();
        proof {
            assert(names@.take(0) =~= Seq::<String>::empty());
            assert(pairs_view(out@) =~= lookup_pairs(self.sensors_view(), caller@, names@.take(0)));
        }
        let mut i: usize = 0;
        while i < names.len()
            invariant
                self.wf(),
                i <= names@.len(),
                pairs_view(out@) == lookup_pairs(self.sensors_view(), caller@, names@.take(i as int)),
            decreases names@.len() - i,
        {
            proof {
                assert(names@.take(i as int + 1).drop_last() =~= names@.take(i as int));
                assert(names@.take(i as int + 1).last() == names@[i as int]);
            }
            match self.get_sensor_by_name(caller, names[i].clone()) {
                Some(p) => {
                    if !pairs_contain(&out, &p.0) {
                        let ghost before = out@;
                        out.push(p);
                        proof {
                            assert(pairs_view(out@) =~= pairs_view(before).push((p.0@, p.1@)));
                        }
                    }
                },
                None => {},
            }
            i += 1;
        }
        proof {
            assert(names@.take(names@.len() as int) =~= names@);
        }
        out
    }

    /// Aggregates one sensor's measurements of one kind over `[start, end]`.
    ///
    /// The window is first rounded outward to the sensor's query
    /// granularity, then converted into an inclusive-exclusive range of
    /// bucket sequence numbers, and the buckets of that range are folded in
    /// increasing order.  A window with no measurements yields the `i32`
    /// minimum for Max, the `i32` maximum for Min, and exactly 0 for Avg;
    /// Avg truncates the sum of the scanned values toward zero by their
    /// count.  A query mutates nothing.
    pub fn compute(
        &self,
        sensor_id: &Vec<u8>,
        measurement_type: MeasurementType,
        compute_type: ComputeType,
        start: u64,
        end: u64,
    ) -> (r: i32)
        requires
            self.wf(),
            self.sensors_view().contains_key(sensor_id@),
            end + self.sensors_view()[sensor_id@].query_granularity <= u64::MAX,
            compute_type is Avg ==> query_window(
                self.buckets(),
                sensor_id@,
                measurement_type,
                self.sensors_view()[sensor_id@].storage_granularity,
                self.sensors_view()[sensor_id@].query_granularity,
                start,
                end,
            ).len() <= u64::MAX,
        ensures
            r as int == compute_result(
                self.buckets(),
                sensor_id@,
                measurement_type,
                compute_type,
                self.sensors_view()[sensor_id@].storage_granularity,
                self.sensors_view()[sensor_id@].query_granularity,
                start,
                end,
            ),
    {
        proof {
            self.lemma_registered_sensor_valid(sensor_id@);
        }
        let idx = match self.find_sensor_index(sensor_id) {
            Some(i) => i,
            None => {
                proof {
                    assert(false);
                }
                return 0;
            },
        };
        proof {
            lemma_sensor_map_at(self.sensors@, idx as int);
        }
        let sg = self.sensors[idx].1.storage_granularity;
        let qg = self.sensors[idx].1.query_granularity;
        let ts_start = Self::timestamp_floor(qg, start);
        let ts_end = Self::timestamp_floor(qg, end) + qg;
        let mut seq_no: u64 = Self::timestamp_floor(sg, ts_start) / sg;
        let end_seq: u64 = Self::timestamp_floor(sg, ts_end) / sg;
        let ghost m = self.buckets();
        let ghost lo = window_lo(sg, qg, start);
        let ghost hi = window_hi(sg, qg, end);
        let ghost full = query_window(m, sensor_id@, measurement_type, sg, qg, start, end);
        proof {
            lemma_floor_div(ts_start, sg);
            lemma_floor_div(ts_end, sg);
            assert(seq_no as int == lo);
            assert(end_seq as int == hi);
            assert(scan_buckets(m, sensor_id@, measurement_type, lo, lo)
                =~= Seq::<MeasurementValue>::empty());
        }
        let mut v: i32 = match compute_type {
            ComputeType::Max => i32::MIN,
            ComputeType::Min => i32::MAX,
            _ => 0,
        };
        let mut sum: i128 = 0;
        let mut steps: u64 = 0;
        while seq_no < end_seq
            invariant
                self.wf(),
                self.sensors_view().contains_key(sensor_id@),
                sensor_id@.len() == 8,
                sg >= 1,
                qg >= 1,
                m == self.buckets(),
                lo == window_lo(sg, qg, start),
                hi == window_hi(sg, qg, end),
                full == query_window(m, sensor_id@, measurement_type, sg, qg, start, end),
                end_seq as int == hi,
                lo <= seq_no as int,
                seq_no as int == lo || seq_no as int <= hi,
                compute_type is Avg ==> full.len() <= u64::MAX,
                ({
                    let pref = scan_buckets(m, sensor_id@, measurement_type, lo, seq_no as int);
                    &&& (compute_type is Max ==> v as int == fold_max(pref))
                    &&& (compute_type is Min ==> v as int == fold_min(pref))
                    &&& (compute_type is Avg ==> sum as int == sum_values(pref) && steps as int
                        == pref.len() && pref.len() <= full.len())
                }),
            decreases end_seq as int - seq_no as int,
        {
            let ghost pref = scan_buckets(m, sensor_id@, measurement_type, lo, seq_no as int);
            let bucket = self.measurements.read(sensor_id, measurement_type, seq_no);
            proof {
                lemma_scan_snoc(m, sensor_id@, measurement_type, lo, seq_no as int);
                assert(scan_buckets(m, sensor_id@, measurement_type, lo, seq_no as int + 1) == pref
                    + bucket@);
                if compute_type is Avg {
                    lemma_scan_split(
                        m,
                        sensor_id@,
                        measurement_type,
                        lo,
                        seq_no as int + 1,
                        hi,
                    );
                    assert((pref + bucket@).len() <= full.len());
                }
                assert(pref + bucket@.take(0) =~= pref);
            }
            let mut j: usize = 0;
            while j < bucket.len()
                invariant
                    j <= bucket@.len(),
                    compute_type is Avg ==> (pref + bucket@).len() <= full.len(),
                    compute_type is Avg ==> full.len() <= u64::MAX,
                    ({
                        let pref2 = pref + bucket@.take(j as int);
                        &&& (compute_type is Max ==> v as int == fold_max(pref2))
                        &&& (compute_type is Min ==> v as int == fold_min(pref2))
                        &&& (compute_type is Avg ==> sum as int == sum_values(pref2) && steps as int
                            == pref2.len())
                    }),
                decreases bucket@.len() - j,
            {
                let ghost pref2 = pref + bucket@.take(j as int);
                proof {
                    assert(pref2.push(bucket@[j as int]) =~= pref + bucket@.take(j as int + 1));
                    assert(pref2.push(bucket@[j as int]).drop_last() =~= pref2);
                    if compute_type is Avg {
                        lemma_fold_bounds(pref2);
                        assert(pref2.push(bucket@[j as int]).len() <= (pref + bucket@).len());
                    }
                }
                let mv = bucket[j];
                match compute_type {
                    ComputeType::Max => {
                        if mv.value > v {
                            v = mv.value;
                        }
                    },
                    ComputeType::Min => {
                        if mv.value < v {
                            v = mv.value;
                        }
                    },
                    ComputeType::Avg => {
                        sum = sum + mv.value as i128;
                        steps = steps + 1;
                    },
                }
                j += 1;
            }
            proof {
                assert(pref + bucket@.take(bucket@.len() as int) =~= pref + bucket@);
            }
            seq_no = seq_no + 1;
        }
        proof {
            if lo > hi {
                assert(seq_no as int == lo);
                assert(scan_buckets(m, sensor_id@, measurement_type, lo, seq_no as int)
                    =~= Seq::<MeasurementValue>::empty());
                assert(full =~= Seq::<MeasurementValue>::empty());
            } else {
                assert(seq_no as int == hi);
            }
            assert(scan_buckets(m, sensor_id@, measurement_type, lo, seq_no as int) == full);
            lemma_fold_bounds(full);
        }
        match compute_type {
            ComputeType::Max | ComputeType::Min => v,
            ComputeType::Avg => {
                if steps == 0 {
                    assert(fold_avg(full) == 0);
                    0
                } else {
                    if sum >= 0 {
                        proof {
                            vstd::arithmetic::div_mod::lemma_div_pos_is_pos(
                                sum as int,
                                steps as int,
                            );
                            vstd::arithmetic::div_mod::lemma_multiply_divide_le(
                                sum as int,
                                steps as int,
                                i32::MAX as int,
                            );
                        }
                        let q: u128 = (sum as u128) / (steps as u128);
                        q as i32
                    } else {
                        proof {
                            vstd::arithmetic::div_mod::lemma_div_pos_is_pos(
                                -(sum as int),
                                steps as int,
                            );
                            vstd::arithmetic::div_mod::lemma_multiply_divide_le(
                                -(sum as int),
                                steps as int,
                                0x8000_0000,
                            );
                        }
                        let q: u128 = ((-sum) as u128) / (steps as u128);
                        (-(q as i64)) as i32
                    }
                }
            },
        }
    }

    /// Performs one mutating request: dispatches to registration,
    /// submission, lookup, or query.  An `Instantiate` request is malformed
    /// here.
    pub fn call(&mut self, caller: &String, request: Request) -> (r: Result<Response, Error>)
        requires
            old(self).wf(),
            request matches Request::Query { sensor_id, measurement_type, compute_type, start, end }
                ==> ({
                &&& old(self).sensors_view().contains_key(sensor_id@)
                &&& end + old(self).sensors_view()[sensor_id@].query_granularity <= u64::MAX
                &&& (compute_type is Avg ==> query_window(
                    old(self).buckets(),
                    sensor_id@,
                    measurement_type,
                    old(self).sensors_view()[sensor_id@].storage_granularity,
                    old(self).sensors_view()[sensor_id@].query_granularity,
                    start,
                    end,
                ).len() <= u64::MAX)
            }),
        ensures
            final(self).wf(),
            final(self).owner_view() == old(self).owner_view(),
            match request {
                Request::Instantiate {  } => {
                    &&& r == Err::<Response, Error>(Error::BadRequest)
                    &&& final(self).sensors_view() == old(self).sensors_view()
                    &&& final(self).buckets() == old(self).buckets()
                },
                Request::RegisterSensor { sensor } => {
                    &&& final(self).buckets() == old(self).buckets()
                    &&& (old(self).owner_view() is None ==> r == Err::<Response, Error>(
                        Error::BadRequest,
                    ) && final(self).sensors_view() == old(self).sensors_view())
                    &&& (old(self).owner_view() matches Some(o) && o != caller@ ==> r == Err::<
                        Response,
                        Error,
                    >(Error::Forbidden) && final(self).sensors_view() == old(self).sensors_view())
                    &&& (old(self).owner_view() == Some(caller@) && !sensor@.valid() ==> r == Err::<
                        Response,
                        Error,
                    >(Error::BadRequest) && final(self).sensors_view() == old(self).sensors_view())
                    &&& (old(self).owner_view() == Some(caller@) && sensor@.valid() ==> (r matches
                        Ok(Response::RegisterSensor { sensor_id })
                        && sensor_id@ == sensor_id_of(sensor.name@, caller@)
                        && final(self).sensors_view() == old(self).sensors_view().insert(
                        sensor_id_of(sensor.name@, caller@),
                        sensor@,
                    )))
                },
                Request::GetSensorsByName { sensor_names } => {
                    &&& final(self).sensors_view() == old(self).sensors_view()
                    &&& final(self).buckets() == old(self).buckets()
                    &&& (r matches Ok(Response::GetSensorsByName { sensors })
                        && pairs_view(sensors@) == lookup_pairs(
                        old(self).sensors_view(),
                        caller@,
                        sensor_names@,
                    ))
                },
                Request::SubmitMeasurements { sensor_id, measurements } => {
                    &&& final(self).sensors_view() == old(self).sensors_view()
                    &&& (measurements@.len() == 0 ==> r == Ok::<Response, Error>(Response::Empty)
                        && final(self).buckets() == old(self).buckets())
                    &&& (measurements@.len() > 0 && !old(self).sensors_view().contains_key(
                        sensor_id@,
                    ) ==> r == Err::<Response, Error>(Error::UnknownSensorID)
                        && final(self).buckets() == old(self).buckets())
                    &&& (measurements@.len() > 0 && old(self).sensors_view().contains_key(
                        sensor_id@,
                    ) && !batch_kinds_permitted(old(self).sensors_view()[sensor_id@], measurements@)
                        ==> r == Err::<Response, Error>(Error::BadRequest)
                        && final(self).buckets() == old(self).buckets())
                    &&& (measurements@.len() > 0 && old(self).sensors_view().contains_key(
                        sensor_id@,
                    ) && batch_kinds_permitted(old(self).sensors_view()[sensor_id@], measurements@)
                        ==> r == Ok::<Response, Error>(Response::Empty)
                        && final(self).buckets() == ingest_all(
                        old(self).buckets(),
                        sensor_id@,
                        old(self).sensors_view()[sensor_id@].storage_granularity,
                        measurements@,
                    ))
                },
                Request::Query { sensor_id, measurement_type, compute_type, start, end } => {
                    &&& final(self).sensors_view() == old(self).sensors_view()
                    &&& final(self).buckets() == old(self).buckets()
                    &&& (r matches Ok(Response::Query { value }) && value as int == compute_result(
                        old(self).buckets(),
                        sensor_id@,
                        measurement_type,
                        compute_type,
                        old(self).sensors_view()[sensor_id@].storage_granularity,
                        old(self).sensors_view()[sensor_id@].query_granularity,
                        start,
                        end,
                    ))
                },
            },
    {
        match request {
            Request::RegisterSensor { sensor } => match self.register_sensor(caller, sensor) {
                Ok(sensor_id) => Ok(Response::RegisterSensor { sensor_id }),
                Err(err) => Err(err),
            },
            Request::GetSensorsByName { sensor_names } => Ok(
                Response::GetSensorsByName { sensors: self.gather_sensors(caller, &sensor_names) },
            ),
            Request::SubmitMeasurements { sensor_id, measurements } => match self
                .submit_measurements(&sensor_id, measurements) {
                Ok(()) => Ok(Response::Empty),
                Err(e) => Err(e),
            },
            Request::Query { sensor_id, measurement_type, compute_type, start, end } => Ok(
                Response::Query {
                    value: self.compute(&sensor_id, measurement_type, compute_type, start, end),
                },
            ),
            _ => Err(Error::BadRequest),
        }
    }

    /// Performs one read-only request: only queries are served here.
    pub fn query(&self, request: Request) -> (r: Result<Response, Error>)
        requires
            self.wf(),
            request matches Request::Query { sensor_id, measurement_type, compute_type, start, end }
                ==> ({
                &&& self.sensors_view().contains_key(sensor_id@)
                &&& end + self.sensors_view()[sensor_id@].query_granularity <= u64::MAX
                &&& (compute_type is Avg ==> query_window(
                    self.buckets(),
                    sensor_id@,
                    measurement_type,
                    self.sensors_view()[sensor_id@].storage_granularity,
                    self.sensors_view()[sensor_id@].query_granularity,
                    start,
                    end,
                ).len() <= u64::MAX)
            }),
        ensures
            match request {
                Request::Query { sensor_id, measurement_type, compute_type, start, end } => r
                    matches Ok(Response::Query { value }) && value as int == compute_result(
                    self.buckets(),
                    sensor_id@,
                    measurement_type,
                    compute_type,
                    self.sensors_view()[sensor_id@].storage_granularity,
                    self.sensors_view()[sensor_id@].query_granularity,
                    start,
                    end,
                ),
                _ => r == Err::<Response, Error>(Error::BadRequest),
            },
    {
        match request {
            Request::Query { sensor_id, measurement_type, compute_type, start, end } => Ok(
                Response::Query {
                    value: self.compute(&sensor_id, measurement_type, compute_type, start, end),
                },
            ),
            _ => Err(Error::BadRequest),
        }
    }
}

} // verus!
