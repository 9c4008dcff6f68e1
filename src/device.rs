use vstd::prelude::*;

use crate::engine::Error;

verus! {

/// One stream configuration range a device offers, as plain values.
#[derive(Debug, Clone, Copy, PartialEq, Eq, Structural)]
pub struct ConfigRange {
    /// Samples are 32-bit floats.
    pub float_samples: bool,
    pub min_rate: u32,
    pub max_rate: u32,
    pub channels: u16,
}

/// Whether a range can carry the graph's stream: float samples at `rate`,
/// mono for capture, mono or stereo for playback.
pub open spec fn config_fits(c: ConfigRange, rate: u32, playback: bool) -> bool {
    &&& c.float_samples
    &&& c.min_rate <= rate <= c.max_rate
    &&& if playback { c.channels <= 2 } else { c.channels == 1 }
}

/// The first range that fits, or `err` when none does.
fn first_fit(configs: &[ConfigRange], rate: u32, playback: bool, err: Error) -> (r: Result<usize, Error>)
    ensures
        match r {
            Ok(i) => i < configs@.len() && config_fits(configs@[i as int], rate, playback) && forall|j: int|
                0 <= j < i ==> !config_fits(#[trigger] configs@[j], rate, playback),
            Err(e) => e == err && forall|j: int|
                0 <= j < configs@.len() ==> !config_fits(#[trigger] configs@[j], rate, playback),
        },
{
    let mut i: usize = 0;
    while i < configs.len()
        invariant
            i <= configs@.len(),
            forall|j: int| 0 <= j < i ==> !config_fits(#[trigger] configs@[j], rate, playback),
        decreases configs@.len() - i,
    {
        let c = configs[i];
        let channels_ok = if playback {
            c.channels <= 2
        } else {
            c.channels == 1
        };
        if c.float_samples && c.min_rate <= rate && rate <= c.max_rate && channels_ok {
            return Ok(i);
        }
        i = i + 1;
    }
    Err(err)
}

/// Picks the capture configuration: the first float, mono range that
/// contains `rate`; with none, the input format is unsupported.
pub fn select_input_config(configs: &[ConfigRange], rate: u32) -> (r: Result<usize, Error>)
    ensures
        match r {
            Ok(i) => i < configs@.len() && config_fits(configs@[i as int], rate, false) && forall|j: int|
                0 <= j < i ==> !config_fits(#[trigger] configs@[j], rate, false),
            Err(e) => e == Error::UnsupportedInputSampleFormat && forall|j: int|
                0 <= j < configs@.len() ==> !config_fits(#[trigger] configs@[j], rate, false),
        },
{
    first_fit(configs, rate, false, Error::UnsupportedInputSampleFormat)
}

/// Picks the playback configuration: the first float range of at most two
/// channels that contains `rate`; with none, the output format is
/// unsupported.
pub fn select_output_config(configs: &[ConfigRange], rate: u32) -> (r: Result<usize, Error>)
    ensures
        match r {
            Ok(i) => i < configs@.len() && config_fits(configs@[i as int], rate, true) && forall|j: int|
                0 <= j < i ==> !config_fits(#[trigger] configs@[j], rate, true),
            Err(e) => e == Error::UnsupportedOutputSampleFormat && forall|j: int|
                0 <= j < configs@.len() ==> !config_fits(#[trigger] configs@[j], rate, true),
        },
{
    first_fit(configs, rate, true, Error::UnsupportedOutputSampleFormat)
}

} // verus!
