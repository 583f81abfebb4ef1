//! Audio device configuration: stream parameters, device metadata and the
//! capability summary built from a device's supported configurations.
use vstd::prelude::*;

use vstd::string::StringExecFns;

use crate::{DEFAULT_BUFFER_SIZE, DEFAULT_SAMPLE_RATE, Error};

verus! {

// ---------------------------------------------------------------------------
// Configuration types
// ---------------------------------------------------------------------------

/// Parameters for building audio input/output streams.
#[derive(Debug, Clone)]
pub struct StreamConfig {
    /// Desired sample rate in Hz.  `None` uses the device default.
    pub sample_rate: Option<u32>,
    /// Desired buffer size in samples.  `None` uses the device default.
    pub buffer_size: Option<usize>,
    /// Input device name.  `None` selects the system default.
    pub input_device: Option<String>,
    /// Output device name.  `None` selects the system default.
    pub output_device: Option<String>,
    /// Number of input channels (default 1 -- mono microphone).
    pub input_channels: u16,
    /// Number of output channels (default 2 -- stereo).
    pub output_channels: u16,
}

impl Default for StreamConfig {
    fn default() -> (cfg: Self)
        ensures
            cfg.sample_rate is None,
            cfg.buffer_size is None,
            cfg.input_device is None,
            cfg.output_device is None,
            cfg.input_channels == 1,
            cfg.output_channels == 2,
    {
        Self {
            sample_rate: None,
            buffer_size: None,
            input_device: None,
            output_device: None,
            input_channels: 1,
            output_channels: 2,
        }
    }
}

/// Sample rate and buffer size that a stream is built with.
#[derive(Debug, Clone, Copy, PartialEq, Eq)]
pub struct StreamParams {
    /// Sample rate in Hz.
    pub sample_rate: u32,
    /// Buffer size in samples.
    pub buffer_size: usize,
    /// The buffer size as the device layer takes it.
    pub device_buffer_size: u32,
}

/// Resolves the requested sample rate and buffer size, falling back to the
/// library defaults. A buffer size that does not fit in `u32` is a
/// configuration error.
pub fn stream_params(config: &StreamConfig) -> (r: Result<StreamParams, Error>)
    ensures
        ({
            let rate = match config.sample_rate {
                Some(r) => r,
                None => DEFAULT_SAMPLE_RATE,
            };
            let size = match config.buffer_size {
                Some(b) => b,
                None => DEFAULT_BUFFER_SIZE,
            };
            &&& size <= u32::MAX <==> r is Ok
            &&& r matches Ok(p) ==> p.sample_rate == rate && p.buffer_size == size
                && p.device_buffer_size == size
            &&& r matches Err(e) ==> e is Config
        }),
{
    let sample_rate = match config.sample_rate {
        Some(r) => r,
        None => DEFAULT_SAMPLE_RATE,
    };
    let buffer_size = match config.buffer_size {
        Some(b) => b,
        None => DEFAULT_BUFFER_SIZE,
    };
    if buffer_size > 0xffff_ffff {
        return Err(Error::Config(String::from_str("buffer size too large for u32")));
    }
    Ok(StreamParams { sample_rate, buffer_size, device_buffer_size: buffer_size as u32 })
}

/// Checks the format a WAV recording is opened with: a zero channel count,
/// then a zero sample rate, is a configuration error.
pub fn check_recording_format(sample_rate: u32, channels: u16) -> (r: Result<(), Error>)
    ensures
        r is Ok <==> (channels != 0 && sample_rate != 0),
        r matches Err(e) ==> e is Config,
{
    if channels == 0 {
        return Err(Error::Config(String::from_str("channel count must be > 0")));
    }
    if sample_rate == 0 {
        return Err(Error::Config(String::from_str("sample rate must be > 0")));
    }
    Ok(())
}

// ---------------------------------------------------------------------------
// DeviceInfo
// ---------------------------------------------------------------------------

/// Metadata about a single audio device.
#[derive(Debug, Clone)]
pub struct DeviceInfo {
    /// Human-readable device name.
    pub name: String,
    /// Whether this is the system default for its direction.
    pub is_default: bool,
    /// Maximum number of input channels the device supports.
    pub max_input_channels: u16,
    /// Maximum number of output channels the device supports.
    pub max_output_channels: u16,
    /// Standard sample rates the device supports.
    pub supported_sample_rates: Vec<u32>,
}

/// One supported configuration of a device: channel count and the lowest
/// and highest sample rate it runs at.
#[derive(Debug, Clone, Copy, PartialEq, Eq)]
pub struct ConfigRange {
    /// Number of channels.
    pub channels: u16,
    /// Lowest supported sample rate in Hz.
    pub min_sample_rate: u32,
    /// Highest supported sample rate in Hz.
    pub max_sample_rate: u32,
}

/// Standard sample rates checked during enumeration, ascending.
pub open spec fn standard_rates() -> Seq<u32> {
    seq![8000u32, 11_025, 16_000, 22_050, 44_100, 48_000, 88_200, 96_000]
}

/// Standard sample rates checked during enumeration, ascending.
pub fn standard_rates_vec() -> (v: Vec<u32>)
    ensures
        v@ == standard_rates(),
{
    let v = vec![8000u32, 11_025, 16_000, 22_050, 44_100, 48_000, 88_200, 96_000];
    assert(v@ =~= standard_rates());
    v
}

/// Some configuration in `configs` runs at `rate`.
pub open spec fn rate_covered(configs: Seq<ConfigRange>, rate: u32) -> bool {
    exists|i: int|
        0 <= i < configs.len() && (#[trigger] configs[i]).min_sample_rate <= rate
            <= configs[i].max_sample_rate
}

/// Largest channel count among `configs` (0 when there is none).
pub open spec fn max_channels_spec(configs: Seq<ConfigRange>) -> u16
    decreases configs.len(),
{
    if configs.len() == 0 {
        0
    } else {
        let rest = max_channels_spec(configs.drop_last());
        if configs.last().channels > rest {
            configs.last().channels
        } else {
            rest
        }
    }
}

/// The channel count a device reports is the largest among its
/// configurations: at least that of every configuration, and that of one of
/// them when there is any (0 when there is none).
pub proof fn lemma_max_channels(configs: Seq<ConfigRange>)
    ensures
        forall|i: int| 0 <= i < configs.len() ==> (#[trigger] configs[i]).channels
            <= max_channels_spec(configs),
        configs.len() > 0 ==> exists|i: int|
            0 <= i < configs.len() && (#[trigger] configs[i]).channels == max_channels_spec(
                configs,
            ),
        configs.len() == 0 ==> max_channels_spec(configs) == 0,
    decreases configs.len(),
{
    if configs.len() > 0 {
        let init = configs.drop_last();
        lemma_max_channels(init);
        assert forall|i: int| 0 <= i < configs.len() implies (#[trigger] configs[i]).channels
            <= max_channels_spec(configs) by {
            if i < init.len() {
                assert(init[i] == configs[i]);
            }
        }
        if configs.last().channels > max_channels_spec(init) {
            assert(configs[configs.len() - 1].channels == max_channels_spec(configs));
        } else if init.len() > 0 {
            let k = choose|k: int| 0 <= k < init.len() && (#[trigger] init[k]).channels
                == max_channels_spec(init);
            assert(configs[k] == init[k]);
        } else {
            assert(configs[0].channels == 0);
            assert(configs[0].channels == max_channels_spec(configs));
        }
    }
}

/// A rate is covered exactly when it lies, both ends included, in the
/// range of some configuration.
pub proof fn lemma_rate_covered(configs: Seq<ConfigRange>, rate: u32)
    ensures
        rate_covered(configs, rate) <==> exists|i: int|
            0 <= i < configs.len() && configs[i].min_sample_rate <= rate && rate
                <= #[trigger] configs[i].max_sample_rate,
{
}

/// `s` is strictly increasing.
pub open spec fn strictly_increasing(s: Seq<u32>) -> bool {
    forall|i: int, j: int| 0 <= i < j < s.len() ==> s[i] < s[j]
}

/// A device's capability summary from its supported configurations: the
/// largest channel count, and the standard sample rates that some
/// configuration covers, ascending and each once.
pub fn device_caps(configs: &[ConfigRange]) -> (r: (u16, Vec<u32>))
    ensures
        r.0 == max_channels_spec(configs@),
        strictly_increasing(r.1@),
        forall|rate: u32|
            r.1@.contains(rate) <==> (standard_rates().contains(rate) && rate_covered(
                configs@,
                rate,
            )),
{
    let mut max_channels: u16 = 0;
    let mut k: usize = 0;
    while k < configs.len()
        invariant
            k <= configs@.len(),
            max_channels == max_channels_spec(configs@.take(k as int)),
        decreases configs@.len() - k,
    {
        assert(configs@.take(k + 1).drop_last() =~= configs@.take(k as int));
        if configs[k].channels > max_channels {
            max_channels = configs[k].channels;
        }
        k = k + 1;
    }
    assert(configs@.take(k as int) =~= configs@);
    let standard = standard_rates_vec();
    let mut rates: Vec<u32> = Vec::new();
    let mut i: usize = 0;
    while i < standard.len()
        invariant
            i <= standard@.len(),
            standard@ == standard_rates(),
            strictly_increasing(rates@),
            i < standard@.len() ==> forall|j: int|
                0 <= j < rates@.len() ==> #[trigger] rates@[j] < standard@[i as int],
            forall|rate: u32|
                rates@.contains(rate) <==> (standard@.take(i as int).contains(rate)
                    && rate_covered(configs@, rate)),
        decreases standard@.len() - i,
    {
        let rate = standard[i];
        let mut covered = false;
        let mut c: usize = 0;
        while c < configs.len()
            invariant
                c <= configs@.len(),
                covered <==> exists|j: int|
                    0 <= j < c && (#[trigger] configs@[j]).min_sample_rate <= rate
                        <= configs@[j].max_sample_rate,
            decreases configs@.len() - c,
        {
            if configs[c].min_sample_rate <= rate && rate <= configs[c].max_sample_rate {
                covered = true;
            }
            c = c + 1;
        }
        assert(covered <==> rate_covered(configs@, rate));
        let ghost old_rates = rates@;
        if covered {
            rates.push(rate);
        }
        i = i + 1;
        let ghost t = standard@.take(i as int);
        let ghost t_old = standard@.take(i - 1);
        assert(t =~= t_old.push(rate));
        assert forall|r: u32| rates@.contains(r) <==> (t.contains(r) && rate_covered(configs@, r)) by {
            if r == rate {
                assert(t[i - 1] == rate);
                if covered {
                    assert(rates@[rates@.len() - 1] == r);
                } else {
                    assert(rates@ == old_rates);
                    if old_rates.contains(r) {
                        assert(!rate_covered(configs@, r));
                    }
                }
            } else {
                if t.contains(r) {
                    let idx = choose|idx: int| 0 <= idx < t.len() && t[idx] == r;
                    assert(idx < i - 1);
                    assert(t_old[idx] == r);
                }
                if t_old.contains(r) {
                    let idx = choose|idx: int| 0 <= idx < t_old.len() && t_old[idx] == r;
                    assert(t[idx] == r);
                }
                if rates@.contains(r) {
                    let idx = choose|idx: int| 0 <= idx < rates@.len() && rates@[idx] == r;
                    if idx < old_rates.len() {
                        assert(old_rates[idx] == r);
                    }
                }
                if old_rates.contains(r) {
                    let idx = choose|idx: int| 0 <= idx < old_rates.len() && old_rates[idx] == r;
                    assert(rates@[idx] == r);
                }
            }
        }
        assert(strictly_increasing(standard@));
        assert(i < standard@.len() ==> standard@[i - 1] < standard@[i as int]);
    }
    assert(standard@.take(i as int) =~= standard_rates());
    (max_channels, rates)
}

} // verus!
