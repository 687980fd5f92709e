//! Results of a sector's measurement and their flash layout.
//!
//! Real values are held as the IEEE-754 bit patterns of their `f32` values
//! (`f32::to_bits`), which is also how they are stored.
use vstd::prelude::*;
use crate::bytes::{get_u16_le, get_u32_le, lemma_u16_le_roundtrip, lemma_u32_le_roundtrip, put_u16_le, put_u32_le, u16_at, u16_le, u32_at, u32_le};
use crate::hvec::{observation_items, observations_at, observations_len, observations_new, observations_push};

verus! {

/// Most observations of a measurement.
pub const MAX_MEASUREMENT_OBSERVATIONS: usize = 128;
/// Bytes of a measurement's header.
pub const MEASUREMENT_HEADER_SIZE: usize = 32;
/// Bytes of an encoded observation.
pub const OBSERVATION_SIZE: usize = 31;
/// Bytes of an encoded measurement.
pub const MEASUREMENT_SIZE: usize = MEASUREMENT_HEADER_SIZE + (OBSERVATION_SIZE * MAX_MEASUREMENT_OBSERVATIONS);

/// One satellite arc that went into a measurement.
#[derive(Clone, Copy)]
pub struct Observation {
    pub sat_id: u16,
    pub start_time: u16,
    pub end_time: u16,
    pub max_amp_bits: u32,
    pub max_rh_bits: u32,
    pub max_amp_2_bits: u32,
    pub max_rh_2_bits: u32,
    pub mean_amp_bits: u32,
    pub num_recs: u32,
    pub used: bool,
}

impl Observation {
    /// Encoding: three half-words, three words, the count, the used flag as 1
    /// or 0, two words.
    pub open spec fn bytes(self) -> Seq<u8> {
        u16_le(self.sat_id) + u16_le(self.start_time) + u16_le(self.end_time) + u32_le(self.max_amp_bits)
            + u32_le(self.max_rh_bits) + u32_le(self.mean_amp_bits) + u32_le(self.num_recs)
            + seq![if self.used { 1u8 } else { 0u8 }] + u32_le(self.max_amp_2_bits) + u32_le(self.max_rh_2_bits)
    }
}

/// The observation that the 31 bytes at `off` in `b` encode; any nonzero flag
/// byte reads as used.
pub open spec fn observation_decode(b: Seq<u8>, off: int) -> Observation {
    Observation {
        sat_id: u16_at(b, off),
        start_time: u16_at(b, off + 2),
        end_time: u16_at(b, off + 4),
        max_amp_bits: u32_at(b, off + 6),
        max_rh_bits: u32_at(b, off + 10),
        mean_amp_bits: u32_at(b, off + 14),
        num_recs: u32_at(b, off + 18),
        used: b[off + 22] != 0,
        max_amp_2_bits: u32_at(b, off + 23),
        max_rh_2_bits: u32_at(b, off + 27),
    }
}

#[verifier::rlimit(40)]
proof fn lemma_observation_bytes_parts(o: Observation)
    ensures
        o.bytes().len() == 31,
        o.bytes().subrange(0, 2) == u16_le(o.sat_id),
        o.bytes().subrange(2, 4) == u16_le(o.start_time),
        o.bytes().subrange(4, 6) == u16_le(o.end_time),
        o.bytes().subrange(6, 10) == u32_le(o.max_amp_bits),
        o.bytes().subrange(10, 14) == u32_le(o.max_rh_bits),
        o.bytes().subrange(14, 18) == u32_le(o.mean_amp_bits),
        o.bytes().subrange(18, 22) == u32_le(o.num_recs),
        o.bytes()[22] == (if o.used { 1u8 } else { 0u8 }),
        o.bytes().subrange(23, 27) == u32_le(o.max_amp_2_bits),
        o.bytes().subrange(27, 31) == u32_le(o.max_rh_2_bits),
{
    let e = o.bytes();
    assert(e.subrange(0, 2) =~= u16_le(o.sat_id));
    assert(e.subrange(2, 4) =~= u16_le(o.start_time));
    assert(e.subrange(4, 6) =~= u16_le(o.end_time));
    assert(e.subrange(6, 10) =~= u32_le(o.max_amp_bits));
    assert(e.subrange(10, 14) =~= u32_le(o.max_rh_bits));
    assert(e.subrange(14, 18) =~= u32_le(o.mean_amp_bits));
    assert(e.subrange(18, 22) =~= u32_le(o.num_recs));
    assert(e.subrange(23, 27) =~= u32_le(o.max_amp_2_bits));
    assert(e.subrange(27, 31) =~= u32_le(o.max_rh_2_bits));
}

proof fn lemma_word_at(b: Seq<u8>, off: int, e: Seq<u8>, k: int, v: u32)
    requires
        0 <= off,
        0 <= k,
        k + 4 <= e.len(),
        off + e.len() <= b.len(),
        b.subrange(off, off + e.len()) == e,
        e.subrange(k, k + 4) == u32_le(v),
    ensures
        u32_at(b, off + k) == v,
{
    assert(b.subrange(off + k, off + k + 4) =~= e.subrange(k, k + 4));
    lemma_u32_le_roundtrip(v, b, off + k);
}

proof fn lemma_half_at(b: Seq<u8>, off: int, e: Seq<u8>, k: int, v: u16)
    requires
        0 <= off,
        0 <= k,
        k + 2 <= e.len(),
        off + e.len() <= b.len(),
        b.subrange(off, off + e.len()) == e,
        e.subrange(k, k + 2) == u16_le(v),
    ensures
        u16_at(b, off + k) == v,
{
    assert(b.subrange(off + k, off + k + 2) =~= e.subrange(k, k + 2));
    lemma_u16_le_roundtrip(v, b, off + k);
}

/// Decoding an encoded observation gives it back.
pub proof fn lemma_observation_roundtrip(o: Observation, b: Seq<u8>, off: int)
    requires
        0 <= off,
        off + 31 <= b.len(),
        b.subrange(off, off + 31) == o.bytes(),
    ensures
        observation_decode(b, off) == o,
{
    lemma_observation_bytes_parts(o);
    let e = o.bytes();
    lemma_half_at(b, off, e, 0, o.sat_id);
    lemma_half_at(b, off, e, 2, o.start_time);
    lemma_half_at(b, off, e, 4, o.end_time);
    lemma_word_at(b, off, e, 6, o.max_amp_bits);
    lemma_word_at(b, off, e, 10, o.max_rh_bits);
    lemma_word_at(b, off, e, 14, o.mean_amp_bits);
    lemma_word_at(b, off, e, 18, o.num_recs);
    lemma_word_at(b, off, e, 23, o.max_amp_2_bits);
    lemma_word_at(b, off, e, 27, o.max_rh_2_bits);
    assert(b[off + 22] == b.subrange(off, off + 31)[22]);
}

impl Observation {
    pub fn from_bytes(data: &[u8; OBSERVATION_SIZE]) -> (r: Self)
        ensures
            r == observation_decode(data@, 0),
    {
        Self {
            sat_id: get_u16_le(data, 0),
            start_time: get_u16_le(data, 2),
            end_time: get_u16_le(data, 4),
            max_amp_bits: get_u32_le(data, 6),
            max_rh_bits: get_u32_le(data, 10),
            mean_amp_bits: get_u32_le(data, 14),
            num_recs: get_u32_le(data, 18),
            used: data[22] != 0,
            max_amp_2_bits: get_u32_le(data, 23),
            max_rh_2_bits: get_u32_le(data, 27),
        }
    }

    pub fn to_bytes(&self) -> (r: [u8; OBSERVATION_SIZE])
        ensures
            r@ == self.bytes(),
    {
        let mut data = [0u8; OBSERVATION_SIZE];
        put_u16_le(&mut data, 0, self.sat_id);
        put_u16_le(&mut data, 2, self.start_time);
        put_u16_le(&mut data, 4, self.end_time);
        put_u32_le(&mut data, 6, self.max_amp_bits);
        put_u32_le(&mut data, 10, self.max_rh_bits);
        put_u32_le(&mut data, 14, self.mean_amp_bits);
        put_u32_le(&mut data, 18, self.num_recs);
        data[22] = if self.used { 1 } else { 0 };
        put_u32_le(&mut data, 23, self.max_amp_2_bits);
        put_u32_le(&mut data, 27, self.max_rh_2_bits);
        proof {
            lemma_observation_bytes_parts(*self);
            let e = self.bytes();
            assert forall|i: int| 0 <= i < 31 implies data@[i] == e[i] by {
                if i < 2 {
                    assert(data@[i] == data@.subrange(0, 2)[i]);
                    assert(e[i] == e.subrange(0, 2)[i]);
                } else if i < 4 {
                    assert(data@[i] == data@.subrange(2, 4)[i - 2]);
                    assert(e[i] == e.subrange(2, 4)[i - 2]);
                } else if i < 6 {
                    assert(data@[i] == data@.subrange(4, 6)[i - 4]);
                    assert(e[i] == e.subrange(4, 6)[i - 4]);
                } else if i < 10 {
                    assert(data@[i] == data@.subrange(6, 10)[i - 6]);
                    assert(e[i] == e.subrange(6, 10)[i - 6]);
                } else if i < 14 {
                    assert(data@[i] == data@.subrange(10, 14)[i - 10]);
                    assert(e[i] == e.subrange(10, 14)[i - 10]);
                } else if i < 18 {
                    assert(data@[i] == data@.subrange(14, 18)[i - 14]);
                    assert(e[i] == e.subrange(14, 18)[i - 14]);
                } else if i < 22 {
                    assert(data@[i] == data@.subrange(18, 22)[i - 18]);
                    assert(e[i] == e.subrange(18, 22)[i - 18]);
                } else if i == 22 {
                } else if i < 27 {
                    assert(data@[i] == data@.subrange(23, 27)[i - 23]);
                    assert(e[i] == e.subrange(23, 27)[i - 23]);
                } else {
                    assert(data@[i] == data@.subrange(27, 31)[i - 27]);
                    assert(e[i] == e.subrange(27, 31)[i - 27]);
                }
            }
            assert(data@ =~= e);
        }
        data
    }
}

/// The result of measuring one sector: header values and the observations
/// that were used.
pub struct Measurement {
    pub uid_bits: u32,
    pub num_seen: u32,
    pub observations: heapless::Vec<Observation, MAX_MEASUREMENT_OBSERVATIONS>,
    pub start_time: u32,
    pub end_time: u32,
    pub mean_bits: u32,
    pub std_bits: u32,
    pub lat_bits: u32,
    pub lon_bits: u32,
}

/// Header words of a measurement in stored order: start and end time, number
/// seen, mean, standard deviation, uid, latitude, longitude.
pub open spec fn header_words(m: &Measurement) -> Seq<u32> {
    seq![m.start_time, m.end_time, m.num_seen, m.mean_bits, m.std_bits, m.uid_bits, m.lat_bits, m.lon_bits]
}

/// `b` encodes a measurement with header `words` and observations `obs`: the
/// header, the observations in their slots, zeros in the slots after them.
pub open spec fn measurement_layout(words: Seq<u32>, obs: Seq<Observation>, b: Seq<u8>) -> bool {
    &&& b.len() == MEASUREMENT_SIZE
    &&& forall|k: int| 0 <= k < 8 ==> #[trigger] b.subrange(4 * k, 4 * k + 4) == u32_le(words[k])
    &&& observation_slots(obs, b)
}

/// The observation slots of `b` hold `obs`, then zeros.
pub open spec fn observation_slots(obs: Seq<Observation>, b: Seq<u8>) -> bool {
    &&& forall|k: int| 0 <= k < obs.len() ==> #[trigger] b.subrange(32 + 31 * k, 63 + 31 * k) == obs[k].bytes()
    &&& forall|j: int| 32 + 31 * obs.len() <= j < MEASUREMENT_SIZE ==> b[j] == 0
}

/// The used observations among the first `n` slots of `b`, in order.
pub open spec fn used_observations(b: Seq<u8>, n: nat) -> Seq<Observation>
    decreases n,
{
    if n == 0 {
        Seq::empty()
    } else {
        let prev = used_observations(b, (n - 1) as nat);
        let o = observation_decode(b, 32 + 31 * (n - 1));
        if o.used {
            prev.push(o)
        } else {
            prev
        }
    }
}

/// The observations of `s` that are marked used, in order.
pub open spec fn only_used(s: Seq<Observation>) -> Seq<Observation>
    decreases s.len(),
{
    if s.len() == 0 {
        Seq::empty()
    } else {
        let prev = only_used(s.drop_last());
        if s.last().used {
            prev.push(s.last())
        } else {
            prev
        }
    }
}

impl Measurement {
    pub open spec fn obs(&self) -> Seq<Observation> {
        observation_items(self.observations)
    }

    pub fn new(
        uid_bits: u32,
        num_seen: u32,
        start_time: u32,
        end_time: u32,
        mean_bits: u32,
        std_bits: u32,
        lat_bits: u32,
        lon_bits: u32,
    ) -> (r: Self)
        ensures
            header_words(&r) == seq![start_time, end_time, num_seen, mean_bits, std_bits, uid_bits, lat_bits, lon_bits],
            r.obs() == Seq::<Observation>::empty(),
            r.uid_bits == uid_bits && r.num_seen == num_seen,
            r.start_time == start_time && r.end_time == end_time,
            r.mean_bits == mean_bits && r.std_bits == std_bits,
            r.lat_bits == lat_bits && r.lon_bits == lon_bits,
    {
        Self {
            uid_bits,
            num_seen,
            observations: observations_new(),
            start_time,
            end_time,
            mean_bits,
            std_bits,
            lat_bits,
            lon_bits,
        }
    }

    /// Adds an observation; it is dropped when the measurement already holds
    /// `MAX_MEASUREMENT_OBSERVATIONS`.
    pub fn push(&mut self, obs: Observation)
        ensures
            header_words(final(self)) == header_words(old(self)),
            old(self).obs().len() < MAX_MEASUREMENT_OBSERVATIONS ==> final(self).obs() == old(self).obs().push(obs),
            old(self).obs().len() >= MAX_MEASUREMENT_OBSERVATIONS ==> final(self).obs() == old(self).obs(),
    {
        let _ = observations_push(&mut self.observations, obs);
    }

    /// Reads a stored measurement; every slot whose flag is set becomes an
    /// observation.
    pub fn from_bytes(data: &[u8; MEASUREMENT_SIZE]) -> (r: Option<Self>)
        ensures
            r matches Some(m) && header_words(&m) == Seq::new(8, |k: int| u32_at(data@, 4 * k))
                && m.obs() == used_observations(data@, MAX_MEASUREMENT_OBSERVATIONS as nat),
            r matches Some(m) && m.start_time == u32_at(data@, 0) && m.end_time == u32_at(data@, 4)
                && m.num_seen == u32_at(data@, 8) && m.mean_bits == u32_at(data@, 12)
                && m.std_bits == u32_at(data@, 16) && m.uid_bits == u32_at(data@, 20)
                && m.lat_bits == u32_at(data@, 24) && m.lon_bits == u32_at(data@, 28),
    {
        let mut observations = observations_new();
        let mut i: usize = 0;
        while i < MAX_MEASUREMENT_OBSERVATIONS
            invariant
                i <= MAX_MEASUREMENT_OBSERVATIONS,
                observation_items(observations) == used_observations(data@, i as nat),
                observation_items(observations).len() <= i,
            decreases MAX_MEASUREMENT_OBSERVATIONS - i,
        {
            let offset = MEASUREMENT_HEADER_SIZE + i * OBSERVATION_SIZE;
            let mut chunk = [0u8; OBSERVATION_SIZE];
            crate::types::event::copy_chunk(data, offset, &mut chunk);
            let observation = Observation::from_bytes(&chunk);
            proof {
                lemma_observation_copy(chunk@, data@, offset as int);
            }
            if observation.used {
                let _ = observations_push(&mut observations, observation);
            }
            i = i + 1;
        }
        let m = Self {
            start_time: get_u32_le(data, 0),
            end_time: get_u32_le(data, 4),
            num_seen: get_u32_le(data, 8),
            mean_bits: get_u32_le(data, 12),
            std_bits: get_u32_le(data, 16),
            uid_bits: get_u32_le(data, 20),
            lat_bits: get_u32_le(data, 24),
            lon_bits: get_u32_le(data, 28),
            observations,
        };
        assert(header_words(&m) =~= Seq::new(8, |k: int| u32_at(data@, 4 * k)));
        Some(m)
    }

    pub fn to_bytes(&self) -> (r: [u8; MEASUREMENT_SIZE])
        ensures
            measurement_layout(header_words(self), self.obs(), r@),
            r@.subrange(0, 4) == u32_le(self.start_time),
            r@.subrange(4, 8) == u32_le(self.end_time),
            r@.subrange(8, 12) == u32_le(self.num_seen),
            r@.subrange(12, 16) == u32_le(self.mean_bits),
            r@.subrange(16, 20) == u32_le(self.std_bits),
            r@.subrange(20, 24) == u32_le(self.uid_bits),
            r@.subrange(24, 28) == u32_le(self.lat_bits),
            r@.subrange(28, 32) == u32_le(self.lon_bits),
    {
        let mut data = [0u8; MEASUREMENT_SIZE];
        put_u32_le(&mut data, 0, self.start_time);
        put_u32_le(&mut data, 4, self.end_time);
        put_u32_le(&mut data, 8, self.num_seen);
        put_u32_le(&mut data, 12, self.mean_bits);
        put_u32_le(&mut data, 16, self.std_bits);
        put_u32_le(&mut data, 20, self.uid_bits);
        put_u32_le(&mut data, 24, self.lat_bits);
        put_u32_le(&mut data, 28, self.lon_bits);
        let ghost words = header_words(self);
        assert forall|k: int| 0 <= k < 8 implies #[trigger] data@.subrange(4 * k, 4 * k + 4) == u32_le(words[k]) by {
        }
        let n = observations_len(&self.observations);
        let ghost obs = self.obs();
        let mut i: usize = 0;
        while i < n
            invariant
                n == obs.len(),
                obs == self.obs(),
                n <= MAX_MEASUREMENT_OBSERVATIONS,
                words == header_words(self),
                i <= n,
                data@.len() == MEASUREMENT_SIZE,
                forall|k: int| 0 <= k < 8 ==> #[trigger] data@.subrange(4 * k, 4 * k + 4) == u32_le(words[k]),
                forall|k: int| 0 <= k < i ==> #[trigger] data@.subrange(32 + 31 * k, 63 + 31 * k) == obs[k].bytes(),
                forall|j: int| 32 + 31 * i <= j < MEASUREMENT_SIZE ==> data@[j] == 0,
            decreases n - i,
        {
            let ob = observations_at(&self.observations, i).to_bytes();
            let ghost before = data@;
            crate::types::event::put_bytes(&mut data, MEASUREMENT_HEADER_SIZE + i * OBSERVATION_SIZE, &ob);
            assert forall|k: int| 0 <= k < i + 1 implies #[trigger] data@.subrange(32 + 31 * k, 63 + 31 * k)
                == obs[k].bytes() by {
                if k < i {
                    assert(data@.subrange(32 + 31 * k, 63 + 31 * k) =~= before.subrange(32 + 31 * k, 63 + 31 * k));
                }
            }
            assert forall|k: int| 0 <= k < 8 implies #[trigger] data@.subrange(4 * k, 4 * k + 4) == u32_le(words[k]) by {
                assert(data@.subrange(4 * k, 4 * k + 4) =~= before.subrange(4 * k, 4 * k + 4));
            }
            i = i + 1;
        }
        assert(data@.subrange(4 * 0int, 4 * 0int + 4) == u32_le(words[0int]));
        assert(data@.subrange(4 * 1int, 4 * 1int + 4) == u32_le(words[1int]));
        assert(data@.subrange(4 * 2int, 4 * 2int + 4) == u32_le(words[2int]));
        assert(data@.subrange(4 * 3int, 4 * 3int + 4) == u32_le(words[3int]));
        assert(data@.subrange(4 * 4int, 4 * 4int + 4) == u32_le(words[4int]));
        assert(data@.subrange(4 * 5int, 4 * 5int + 4) == u32_le(words[5int]));
        assert(data@.subrange(4 * 6int, 4 * 6int + 4) == u32_le(words[6int]));
        assert(data@.subrange(4 * 7int, 4 * 7int + 4) == u32_le(words[7int]));
        data
    }
}

/// The header words of a measurement, by position: start time, end time,
/// number seen, mean, spread, uid, latitude, longitude.
pub proof fn lemma_header_fields(m: &Measurement)
    ensures
        header_words(m).len() == 8,
        header_words(m)[0] == m.start_time,
        header_words(m)[1] == m.end_time,
        header_words(m)[2] == m.num_seen,
        header_words(m)[3] == m.mean_bits,
        header_words(m)[4] == m.std_bits,
        header_words(m)[5] == m.uid_bits,
        header_words(m)[6] == m.lat_bits,
        header_words(m)[7] == m.lon_bits,
{
}

proof fn lemma_observation_copy(chunk: Seq<u8>, b: Seq<u8>, off: int)
    requires
        0 <= off,
        off + 31 <= b.len(),
        chunk == b.subrange(off, off + 31),
    ensures
        observation_decode(chunk, 0) == observation_decode(b, off),
{
    assert(chunk[22] == b[off + 22]);
    assert forall|k: int| 0 <= k <= 27 implies u32_at(chunk, k) == u32_at(b, off + k) && u16_at(chunk, k) == u16_at(b, off + k) by {
        assert(chunk[k] == b[off + k]);
        assert(chunk[k + 1] == b[off + k + 1]);
        assert(chunk[k + 2] == b[off + k + 2]);
        assert(chunk[k + 3] == b[off + k + 3]);
    }
    assert(u16_at(chunk, 0) == u16_at(b, off + 0));
    assert(u16_at(chunk, 2) == u16_at(b, off + 2));
    assert(u16_at(chunk, 4) == u16_at(b, off + 4));
    assert(u32_at(chunk, 6) == u32_at(b, off + 6));
    assert(u32_at(chunk, 10) == u32_at(b, off + 10));
    assert(u32_at(chunk, 14) == u32_at(b, off + 14));
    assert(u32_at(chunk, 18) == u32_at(b, off + 18));
    assert(u32_at(chunk, 23) == u32_at(b, off + 23));
    assert(u32_at(chunk, 27) == u32_at(b, off + 27));
}

/// What is stored is what is read back, less the observations not marked used:
/// reading an encoded measurement gives its header and its used observations.
pub proof fn lemma_measurement_roundtrip(words: Seq<u32>, obs: Seq<Observation>, b: Seq<u8>)
    requires
        words.len() == 8,
        obs.len() <= MAX_MEASUREMENT_OBSERVATIONS,
        measurement_layout(words, obs, b),
    ensures
        Seq::new(8, |k: int| u32_at(b, 4 * k)) == words,
        used_observations(b, MAX_MEASUREMENT_OBSERVATIONS as nat) == only_used(obs),
{
    assert forall|k: int| 0 <= k < 8 implies u32_at(b, 4 * k) == words[k] by {
        assert(b.subrange(4 * k, 4 * k + 4) == u32_le(words[k]));
        lemma_u32_le_roundtrip(words[k], b, 4 * k);
    }
    assert(Seq::new(8, |k: int| u32_at(b, 4 * k)) =~= words);
    lemma_used_prefix(obs, b, obs.len());
    lemma_empty_slots(obs, b, MAX_MEASUREMENT_OBSERVATIONS as nat);
    assert(obs.take(obs.len() as int) =~= obs);
}

proof fn lemma_used_prefix(obs: Seq<Observation>, b: Seq<u8>, n: nat)
    requires
        n <= obs.len(),
        obs.len() <= MAX_MEASUREMENT_OBSERVATIONS,
        b.len() == MEASUREMENT_SIZE,
        observation_slots(obs, b),
    ensures
        used_observations(b, n) == only_used(obs.take(n as int)),
    decreases n,
{
    if n > 0 {
        lemma_used_prefix(obs, b, (n - 1) as nat);
        let k = n - 1;
        assert(b.subrange(32 + 31 * k, 63 + 31 * k) == obs[k].bytes());
        lemma_observation_roundtrip(obs[k], b, 32 + 31 * k);
        assert(obs.take(n as int).drop_last() =~= obs.take(k));
        assert(obs.take(n as int).last() == obs[k]);
    }
}

proof fn lemma_empty_slots(obs: Seq<Observation>, b: Seq<u8>, n: nat)
    requires
        obs.len() <= n <= MAX_MEASUREMENT_OBSERVATIONS,
        b.len() == MEASUREMENT_SIZE,
        observation_slots(obs, b),
    ensures
        used_observations(b, n) == used_observations(b, obs.len()),
    decreases n - obs.len(),
{
    if n > obs.len() {
        lemma_empty_slots(obs, b, (n - 1) as nat);
        assert(b[32 + 31 * (n - 1) + 22] == 0);
    }
}

} // verus!
