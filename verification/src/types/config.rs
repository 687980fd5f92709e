//! Measurement configuration and its flash layout.
use vstd::prelude::*;
use vstd::string::StringSliceAdditionalSpecFns;
use crate::bytes::{get_u32_le, lemma_u32_le_roundtrip, put_u32_le, u32_at, u32_le};
use crate::hvec::{words128_at, words128_clone, words128_items, words128_len, words128_new, words128_push};
use crate::types::MAX_MIDPOINTS;
use crate::utils::{lemma_whole_hour_text, seconds_to_time_str, time_str_to_seconds, time_text};
use crate::text::{text1536, text1536_new, text1536_push_str, text1536_push_text8};

verus! {

/// Bytes of the mid-time count.
pub const MID_TIMES_HEADER: usize = 4;
/// Bytes of the mid times.
pub const MID_TIMES_SIZE: usize = MAX_MIDPOINTS * 4;
/// Bytes of the magic.
pub const CONFIG_HEADER_SIZE: usize = 4;
/// Bytes of an encoded configuration.
pub const CONFIG_SIZE: usize = CONFIG_HEADER_SIZE + 17 * 4 + MID_TIMES_SIZE + MID_TIMES_HEADER;

/// How and when the device measures.
///
/// Real-valued settings are held as the IEEE-754 bit patterns of their `f32`
/// values (`f32::to_bits`), which is also how they are stored.
pub struct Config {
    pub pre_min_elevation: u32,
    pub pre_max_elevation: u32,
    pub pre_min_azimuth: u32,
    pub pre_max_azimuth: u32,

    pub post_min_elevation: u32,
    pub post_max_elevation: u32,
    pub post_min_azimuth: u32,
    pub post_max_azimuth: u32,

    pub min_relative_height_bits: u32,
    pub max_relative_height_bits: u32,
    pub relative_height_step_size_bits: u32,

    pub qc_min_elevation_range: u32,
    pub qc_iqr_size_bits: u32,
    pub qc_min_peak_to_peak_bits: u32,

    pub bins_per_sector: u32,
    pub seconds_per_bin: u32,

    pub measure_timeout: u32,

    pub sector_mid_times: heapless::Vec<u32, MAX_MIDPOINTS>,
}

/// The ASCII magic "CONF" that opens an encoded configuration.
pub open spec fn config_magic() -> Seq<u8> {
    seq![67u8, 79u8, 78u8, 70u8]
}

impl Config {
    /// The seventeen fixed settings, in their stored order.
    pub open spec fn words(&self) -> Seq<u32> {
        seq![
            self.pre_min_elevation,
            self.pre_max_elevation,
            self.pre_min_azimuth,
            self.pre_max_azimuth,
            self.post_min_elevation,
            self.post_max_elevation,
            self.post_min_azimuth,
            self.post_max_azimuth,
            self.min_relative_height_bits,
            self.max_relative_height_bits,
            self.relative_height_step_size_bits,
            self.qc_min_elevation_range,
            self.qc_iqr_size_bits,
            self.qc_min_peak_to_peak_bits,
            self.bins_per_sector,
            self.seconds_per_bin,
            self.measure_timeout,
        ]
    }

    /// The sector mid times, seconds since midnight.
    pub open spec fn mid_times(&self) -> Seq<u32> {
        words128_items(self.sector_mid_times)
    }
}

impl View for Config {
    type V = (Seq<u32>, Seq<u32>);

    open spec fn view(&self) -> (Seq<u32>, Seq<u32>) {
        (self.words(), self.mid_times())
    }
}

/// `b` is the encoding of a configuration with fixed settings `words` and mid
/// times `mids`: magic, settings, count, mid times, zeros.
pub open spec fn config_layout(words: Seq<u32>, mids: Seq<u32>, b: Seq<u8>) -> bool {
    &&& b.len() == CONFIG_SIZE
    &&& b.subrange(0, 4) == config_magic()
    &&& forall|k: int| 0 <= k < 17 ==> #[trigger] b.subrange(4 + 4 * k, 8 + 4 * k) == u32_le(words[k])
    &&& b.subrange(72, 76) == u32_le(mids.len() as u32)
    &&& forall|k: int| 0 <= k < mids.len() ==> #[trigger] b.subrange(76 + 4 * k, 80 + 4 * k) == u32_le(mids[k])
    &&& forall|j: int| 76 + 4 * mids.len() <= j < CONFIG_SIZE ==> b[j] == 0
}

/// What `Config::from_bytes` accepts: long enough, opened by the magic, at most
/// `MAX_MIDPOINTS` mid times.
pub open spec fn config_accepts(b: Seq<u8>) -> bool {
    &&& b.len() >= CONFIG_SIZE
    &&& b.subrange(0, 4) == config_magic()
    &&& u32_at(b, 72) <= MAX_MIDPOINTS
}

/// The configuration that `b` holds: settings and mid times read in order.
pub open spec fn config_decoded(b: Seq<u8>) -> (Seq<u32>, Seq<u32>) {
    (
        Seq::new(17, |k: int| u32_at(b, 4 + 4 * k)),
        Seq::new(u32_at(b, 72) as nat, |k: int| u32_at(b, 76 + 4 * k)),
    )
}

/// Configuration the device starts with: sectors centred on 00:00, 06:00, 12:00
/// and 18:00.
pub open spec fn default_config_view() -> (Seq<u32>, Seq<u32>) {
    (
        seq![
            5u32, 30u32, 120u32, 240u32,
            5u32, 30u32, 120u32, 240u32,
            0x3F00_0000u32, 0x4170_0000u32, 0x3CF5_C28Fu32,
            8u32, 0x3FC0_0000u32, 0x4000_0000u32,
            3u32, 1200u32,
            60u32,
        ],
        seq![0u32, 21600u32, 43200u32, 64800u32],
    )
}

/// The first `n` mid times as text, each followed by ", " unless it is the last
/// of all of `mids`.
pub open spec fn mid_times_text(mids: Seq<u32>, n: nat) -> Seq<u8>
    decreases n,
{
    if n == 0 {
        Seq::empty()
    } else {
        mid_times_text(mids, (n - 1) as nat) + time_text(mids[n - 1]) + (if n < mids.len() {
            seq![44u8, 32u8]
        } else {
            Seq::empty()
        })
    }
}

impl Config {
    /// The mid times as text: "HH:MM:SS" each, separated by ", ".
    pub fn get_mid_times_as_str(&self) -> (r: heapless::String<1536>)
        ensures
            text1536(r) == mid_times_text(self.mid_times(), self.mid_times().len()),
    {
        let mut mid_times_str = text1536_new();
        let n = words128_len(&self.sector_mid_times);
        let mut idx: usize = 0;
        while idx < n
            invariant
                n == self.mid_times().len(),
                n <= MAX_MIDPOINTS,
                idx <= n,
                text1536(mid_times_str) == mid_times_text(self.mid_times(), idx as nat),
                text1536(mid_times_str).len() <= 10 * idx,
            decreases n - idx,
        {
            let time_str = seconds_to_time_str(words128_at(&self.sector_mid_times, idx));
            let r = text1536_push_text8(&mut mid_times_str, &time_str);
            assert(r is Ok);
            if idx < n - 1 {
                proof {
                    broadcast use vstd::string::is_ascii_spec_bytes;
                    reveal_strlit(", ");
                    assert(vstd::string::is_ascii(", "));
                    assert(", ".spec_bytes() =~= seq![44u8, 32u8]);
                }
                let r2 = text1536_push_str(&mut mid_times_str, ", ");
                assert(r2 is Ok);
            }
            idx = idx + 1;
        }
        mid_times_str
    }

    /// Seconds that a sector's measurement lasts.
    pub fn get_measure_duration(&self) -> (r: u32)
        requires
            self.bins_per_sector * self.seconds_per_bin <= u32::MAX,
        ensures
            r == self.bins_per_sector * self.seconds_per_bin,
    {
        return self.bins_per_sector * self.seconds_per_bin;
    }

    /// The fixed settings in their stored order.
    fn words_array(&self) -> (r: [u32; 17])
        ensures
            r@ == self.words(),
    {
        let r = [
            self.pre_min_elevation,
            self.pre_max_elevation,
            self.pre_min_azimuth,
            self.pre_max_azimuth,
            self.post_min_elevation,
            self.post_max_elevation,
            self.post_min_azimuth,
            self.post_max_azimuth,
            self.min_relative_height_bits,
            self.max_relative_height_bits,
            self.relative_height_step_size_bits,
            self.qc_min_elevation_range,
            self.qc_iqr_size_bits,
            self.qc_min_peak_to_peak_bits,
            self.bins_per_sector,
            self.seconds_per_bin,
            self.measure_timeout,
        ];
        assert(r@ =~= self.words());
        r
    }

    pub fn to_bytes(&self) -> (r: [u8; CONFIG_SIZE])
        ensures
            config_layout(self.words(), self.mid_times(), r@),
    {
        let mut data = [0u8; CONFIG_SIZE];
        data[0] = 67;
        data[1] = 79;
        data[2] = 78;
        data[3] = 70;
        let words = self.words_array();
        let mut k: usize = 0;
        while k < 17
            invariant
                words@ == self.words(),
                k <= 17,
                data@.len() == CONFIG_SIZE,
                data@.subrange(0, 4) == config_magic(),
                forall|i: int| 0 <= i < k ==> #[trigger] data@.subrange(4 + 4 * i, 8 + 4 * i) == u32_le(words@[i]),
                forall|j: int| 4 + 4 * k <= j < CONFIG_SIZE ==> data@[j] == 0,
            decreases 17 - k,
        {
            let ghost before = data@;
            put_u32_le(&mut data, 4 + 4 * k, words[k]);
            assert forall|i: int| 0 <= i < k + 1 implies #[trigger] data@.subrange(4 + 4 * i, 8 + 4 * i)
                == u32_le(words@[i]) by {
                if i < k {
                    assert(data@.subrange(4 + 4 * i, 8 + 4 * i) =~= before.subrange(4 + 4 * i, 8 + 4 * i));
                }
            }
            assert(data@.subrange(0, 4) =~= before.subrange(0, 4));
            k = k + 1;
        }
        let n = words128_len(&self.sector_mid_times);
        let ghost fixed = data@;
        put_u32_le(&mut data, 72, n as u32);
        assert forall|i: int| 0 <= i < 17 implies #[trigger] data@.subrange(4 + 4 * i, 8 + 4 * i)
            == u32_le(words@[i]) by {
            assert(data@.subrange(4 + 4 * i, 8 + 4 * i) =~= fixed.subrange(4 + 4 * i, 8 + 4 * i));
        }
        assert(data@.subrange(0, 4) =~= fixed.subrange(0, 4));
        let ghost mids = self.mid_times();
        let mut t: usize = 0;
        while t < n
            invariant
                words@ == self.words(),
                mids == self.mid_times(),
                n == mids.len(),
                n <= MAX_MIDPOINTS,
                t <= n,
                data@.len() == CONFIG_SIZE,
                data@.subrange(0, 4) == config_magic(),
                forall|i: int| 0 <= i < 17 ==> #[trigger] data@.subrange(4 + 4 * i, 8 + 4 * i) == u32_le(words@[i]),
                data@.subrange(72, 76) == u32_le(n as u32),
                forall|i: int| 0 <= i < t ==> #[trigger] data@.subrange(76 + 4 * i, 80 + 4 * i) == u32_le(mids[i]),
                forall|j: int| 76 + 4 * t <= j < CONFIG_SIZE ==> data@[j] == 0,
            decreases n - t,
        {
            let ghost before = data@;
            let w = words128_at(&self.sector_mid_times, t);
            put_u32_le(&mut data, 76 + 4 * t, w);
            assert forall|i: int| 0 <= i < t + 1 implies #[trigger] data@.subrange(76 + 4 * i, 80 + 4 * i)
                == u32_le(mids[i]) by {
                if i < t {
                    assert(data@.subrange(76 + 4 * i, 80 + 4 * i) =~= before.subrange(76 + 4 * i, 80 + 4 * i));
                }
            }
            assert forall|i: int| 0 <= i < 17 implies #[trigger] data@.subrange(4 + 4 * i, 8 + 4 * i)
                == u32_le(words@[i]) by {
                assert(data@.subrange(4 + 4 * i, 8 + 4 * i) =~= before.subrange(4 + 4 * i, 8 + 4 * i));
            }
            assert(data@.subrange(0, 4) =~= before.subrange(0, 4));
            assert(data@.subrange(72, 76) =~= before.subrange(72, 76));
            t = t + 1;
        }
        data
    }

    pub fn from_bytes(data: &[u8]) -> (r: Option<Self>)
        ensures
            r is Some <==> config_accepts(data@),
            r matches Some(c) ==> c@ == config_decoded(data@),
    {
        if data.len() < CONFIG_SIZE {
            return None;
        }
        if data[0] != 67 || data[1] != 79 || data[2] != 78 || data[3] != 70 {
            assert(data@.subrange(0, 4) != config_magic()) by {
                if data@.subrange(0, 4) == config_magic() {
                    assert(data@[0] == data@.subrange(0, 4)[0]);
                    assert(data@[1] == data@.subrange(0, 4)[1]);
                    assert(data@[2] == data@.subrange(0, 4)[2]);
                    assert(data@[3] == data@.subrange(0, 4)[3]);
                }
            }
            return None;
        }
        assert(data@.subrange(0, 4) =~= config_magic());
        let len = get_u32_le(data, 72);
        if len as usize > MAX_MIDPOINTS {
            return None;
        }
        let mut v = words128_new();
        let mut k: usize = 0;
        while k < len as usize
            invariant
                data@.len() >= CONFIG_SIZE,
                len <= MAX_MIDPOINTS,
                len == u32_at(data@, 72),
                k <= len,
                words128_items(v) =~= Seq::new(k as nat, |i: int| u32_at(data@, 76 + 4 * i)),
            decreases len - k,
        {
            let w = get_u32_le(data, 76 + 4 * k);
            let r = words128_push(&mut v, w);
            assert(r is Ok);
            k = k + 1;
        }
        let c = Self {
            pre_min_elevation: get_u32_le(data, 4),
            pre_max_elevation: get_u32_le(data, 8),
            pre_min_azimuth: get_u32_le(data, 12),
            pre_max_azimuth: get_u32_le(data, 16),
            post_min_elevation: get_u32_le(data, 20),
            post_max_elevation: get_u32_le(data, 24),
            post_min_azimuth: get_u32_le(data, 28),
            post_max_azimuth: get_u32_le(data, 32),
            min_relative_height_bits: get_u32_le(data, 36),
            max_relative_height_bits: get_u32_le(data, 40),
            relative_height_step_size_bits: get_u32_le(data, 44),
            qc_min_elevation_range: get_u32_le(data, 48),
            qc_iqr_size_bits: get_u32_le(data, 52),
            qc_min_peak_to_peak_bits: get_u32_le(data, 56),
            bins_per_sector: get_u32_le(data, 60),
            seconds_per_bin: get_u32_le(data, 64),
            measure_timeout: get_u32_le(data, 68),
            sector_mid_times: v,
        };
        assert(c.words() =~= config_decoded(data@).0);
        Some(c)
    }
}

impl Clone for Config {
    fn clone(&self) -> (r: Self)
        ensures
            r@ == self@,
    {
        Config {
            pre_min_elevation: self.pre_min_elevation,
            pre_max_elevation: self.pre_max_elevation,
            pre_min_azimuth: self.pre_min_azimuth,
            pre_max_azimuth: self.pre_max_azimuth,
            post_min_elevation: self.post_min_elevation,
            post_max_elevation: self.post_max_elevation,
            post_min_azimuth: self.post_min_azimuth,
            post_max_azimuth: self.post_max_azimuth,
            min_relative_height_bits: self.min_relative_height_bits,
            max_relative_height_bits: self.max_relative_height_bits,
            relative_height_step_size_bits: self.relative_height_step_size_bits,
            qc_min_elevation_range: self.qc_min_elevation_range,
            qc_iqr_size_bits: self.qc_iqr_size_bits,
            qc_min_peak_to_peak_bits: self.qc_min_peak_to_peak_bits,
            bins_per_sector: self.bins_per_sector,
            seconds_per_bin: self.seconds_per_bin,
            measure_timeout: self.measure_timeout,
            sector_mid_times: words128_clone(&self.sector_mid_times),
        }
    }
}

/// Reads the whole-hour text `s` ("HH:00:00").
fn whole_hour(s: &str, Ghost(tens): Ghost<u8>, Ghost(ones): Ghost<u8>) -> (r: u32)
    requires
        48 <= tens <= 57,
        48 <= ones <= 57,
        s.spec_bytes() == seq![tens, ones, 58u8, 48u8, 48u8, 58u8, 48u8, 48u8],
    ensures
        r == ((tens - 48) * 10 + (ones - 48)) * 3600,
{
    proof {
        lemma_whole_hour_text(s.spec_bytes(), tens, ones);
    }
    match time_str_to_seconds(s) {
        Some(v) => v,
        None => 0,
    }
}

impl Default for Config {
    fn default() -> (r: Self)
        ensures
            r@ == default_config_view(),
    {
        broadcast use vstd::string::is_ascii_spec_bytes;

        let mut mid_times = words128_new();
        proof {
            reveal_strlit("00:00:00");
            reveal_strlit("06:00:00");
            reveal_strlit("12:00:00");
            reveal_strlit("18:00:00");
            assert(vstd::string::is_ascii("00:00:00"));
            assert(vstd::string::is_ascii("06:00:00"));
            assert(vstd::string::is_ascii("12:00:00"));
            assert(vstd::string::is_ascii("18:00:00"));
            assert("00:00:00".spec_bytes() =~= seq![48u8, 48u8, 58u8, 48u8, 48u8, 58u8, 48u8, 48u8]);
            assert("06:00:00".spec_bytes() =~= seq![48u8, 54u8, 58u8, 48u8, 48u8, 58u8, 48u8, 48u8]);
            assert("12:00:00".spec_bytes() =~= seq![49u8, 50u8, 58u8, 48u8, 48u8, 58u8, 48u8, 48u8]);
            assert("18:00:00".spec_bytes() =~= seq![49u8, 56u8, 58u8, 48u8, 48u8, 58u8, 48u8, 48u8]);
        }
        let _ = words128_push(&mut mid_times, whole_hour("00:00:00", Ghost(48u8), Ghost(48u8)));
        let _ = words128_push(&mut mid_times, whole_hour("06:00:00", Ghost(48u8), Ghost(54u8)));
        let _ = words128_push(&mut mid_times, whole_hour("12:00:00", Ghost(49u8), Ghost(50u8)));
        let _ = words128_push(&mut mid_times, whole_hour("18:00:00", Ghost(49u8), Ghost(56u8)));
        let c = Self {
            pre_min_elevation: 5,
            pre_max_elevation: 30,
            pre_min_azimuth: 120,
            pre_max_azimuth: 240,
            post_min_elevation: 5,
            post_max_elevation: 30,
            post_min_azimuth: 120,
            post_max_azimuth: 240,
            min_relative_height_bits: 0x3F00_0000,
            max_relative_height_bits: 0x4170_0000,
            relative_height_step_size_bits: 0x3CF5_C28F,
            qc_min_elevation_range: 8,
            qc_iqr_size_bits: 0x3FC0_0000,
            qc_min_peak_to_peak_bits: 0x4000_0000,
            sector_mid_times: mid_times,
            bins_per_sector: 3,
            seconds_per_bin: 240 * 5,
            measure_timeout: 60,
        };
        assert(c.words() =~= default_config_view().0);
        assert(c.mid_times() =~= default_config_view().1);
        c
    }
}

/// What is written to flash is what is read back: decoding an encoded
/// configuration gives its settings and mid times.
pub proof fn lemma_config_roundtrip(words: Seq<u32>, mids: Seq<u32>, b: Seq<u8>)
    requires
        words.len() == 17,
        mids.len() <= MAX_MIDPOINTS,
        config_layout(words, mids, b),
    ensures
        config_accepts(b),
        config_decoded(b) == (words, mids),
{
    lemma_u32_le_roundtrip(mids.len() as u32, b, 72);
    assert forall|k: int| 0 <= k < 17 implies u32_at(b, 4 + 4 * k) == words[k] by {
        assert(b.subrange(4 + 4 * k, 8 + 4 * k) == u32_le(words[k]));
        lemma_u32_le_roundtrip(words[k], b, 4 + 4 * k);
    }
    assert forall|k: int| 0 <= k < mids.len() implies u32_at(b, 76 + 4 * k) == mids[k] by {
        assert(b.subrange(76 + 4 * k, 80 + 4 * k) == u32_le(mids[k]));
        lemma_u32_le_roundtrip(mids[k], b, 76 + 4 * k);
    }
    assert(config_decoded(b).0 =~= words);
    assert(config_decoded(b).1 =~= mids);
}

} // verus!
