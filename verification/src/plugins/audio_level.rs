//! Which level the AudioLevel plugin reports, and from which channel.
use crate::ini::MeasureConfig;
use crate::measures::{first_of, lower_or, opt_view, option, or_default, pick, prop};
use crate::text::{lower, str_eq};
use vstd::prelude::*;

verus! {

/// Target audio property to extract.
#[derive(Debug, Clone, Copy, PartialEq, Eq)]
pub enum AudioLevelType {
    RMS,
    Peak,
    FFT,
    BandFreq,
}

/// Channel selection for audio measurement.
#[derive(Debug, Clone, Copy, PartialEq, Eq)]
pub enum AudioChannel {
    Left,
    Right,
    Avg,
    Sum,
}

/// The level a (lower-case) `Type` names; unknown names give RMS.
pub open spec fn level_type_named(s: Seq<char>) -> AudioLevelType {
    if s == "peak"@ {
        AudioLevelType::Peak
    } else if s == "fft"@ || s == "band"@ {
        AudioLevelType::FFT
    } else if s == "bandfreq"@ || s == "freq"@ {
        AudioLevelType::BandFreq
    } else {
        AudioLevelType::RMS
    }
}

/// The channel a (lower-case) `Channel` names; unknown names average both.
pub open spec fn channel_named(s: Seq<char>) -> AudioChannel {
    if s == "l"@ || s == "left"@ {
        AudioChannel::Left
    } else if s == "r"@ || s == "right"@ {
        AudioChannel::Right
    } else if s == "sum"@ {
        AudioChannel::Sum
    } else {
        AudioChannel::Avg
    }
}

impl AudioLevelType {
    /// The level the `Type` option selects (default `rms`).
    pub fn from_config(config: &MeasureConfig) -> (r: AudioLevelType)
        requires
            config.properties.wf(),
        ensures
            r == level_type_named(lower(or_default(prop(*config, "type"@), "rms"@))),
    {
        let s = lower_or(option(config, "type"), "rms");
        let s = s.as_str();
        if str_eq(s, "peak") {
            AudioLevelType::Peak
        } else if str_eq(s, "fft") || str_eq(s, "band") {
            AudioLevelType::FFT
        } else if str_eq(s, "bandfreq") || str_eq(s, "freq") {
            AudioLevelType::BandFreq
        } else {
            AudioLevelType::RMS
        }
    }
}

impl AudioChannel {
    /// The channel the `Channel` option selects (default `avg`).
    pub fn from_config(config: &MeasureConfig) -> (r: AudioChannel)
        requires
            config.properties.wf(),
        ensures
            r == channel_named(lower(or_default(prop(*config, "channel"@), "avg"@))),
    {
        let s = lower_or(option(config, "channel"), "avg");
        let s = s.as_str();
        if str_eq(s, "l") || str_eq(s, "left") {
            AudioChannel::Left
        } else if str_eq(s, "r") || str_eq(s, "right") {
            AudioChannel::Right
        } else if str_eq(s, "sum") {
            AudioChannel::Sum
        } else {
            AudioChannel::Avg
        }
    }
}

} // verus!
verus! {

/// `p` is a power of two.
pub open spec fn is_pow2(p: nat) -> bool
    decreases p,
{
    if p == 1 {
        true
    } else if p < 2 || p % 2 != 0 {
        false
    } else {
        is_pow2(p / 2)
    }
}

/// The FFT size for a configured size: the next power of two (0 when it
/// would not fit).
pub fn fft_size_for(n: usize) -> (r: usize)
    ensures
        r == 0 || (is_pow2(r as nat) && r >= n && (r == 1 || r / 2 < n)),
        r == 0 ==> n > usize::MAX / 2 + 1,
{
    let mut p: usize = 1;
    while p < n
        invariant
            is_pow2(p as nat),
            p == 1 || p / 2 < n,
        decreases usize::MAX - p,
    {
        if p > usize::MAX / 2 {
            return 0;
        }
        assert(is_pow2((p * 2) as nat)) by {
            assert((p * 2) as nat / 2 == p as nat);
            assert((p * 2) as nat % 2 == 0);
        }
        p = p * 2;
    }
    p
}

/// The whole-number options of an AudioLevel measure.
#[derive(Debug, Clone, Copy, PartialEq, Eq)]
pub struct AudioLevelSettings {
    pub bands_count: usize,
    pub band_idx: usize,
    pub fft_size: usize,
}

/// An option read as a `usize`, if it is one.
pub open spec fn usize_opt(o: Option<Seq<char>>) -> Option<nat> {
    match o {
        Some(s) => crate::text::parse_uint(s, usize::MAX as nat),
        None => None,
    }
}

fn usize_opt_exec(o: Option<&str>) -> (r: Option<usize>)
    ensures
        match r {
            Some(n) => usize_opt(opt_view(o)) == Some(n as nat),
            None => usize_opt(opt_view(o)) is None,
        },
{
    match o {
        Some(s) => match crate::text::parse_uint_str(s, usize::MAX as u64) {
            Some(n) => Some(n as usize),
            None => None,
        },
        None => None,
    }
}

impl AudioLevelSettings {
    /// Reads `Bands` (at least 1; default 16), `BandIdx` or `Band`
    /// (default 0) and `FFTSize` (rounded up to a power of two; default
    /// 1024).
    pub fn from_config(config: &MeasureConfig) -> (r: AudioLevelSettings)
        requires
            config.properties.wf(),
        ensures
            r.bands_count == (match usize_opt(prop(*config, "bands"@)) {
                Some(n) => if n == 0 {
                    1
                } else {
                    n
                },
                None => 16,
            }),
            r.band_idx == (match usize_opt(first_of(prop(*config, "bandidx"@), prop(*config, "band"@))) {
                Some(n) => n,
                None => 0,
            }),
            match usize_opt(prop(*config, "fftsize"@)) {
                Some(n) => r.fft_size == 0 || (is_pow2(r.fft_size as nat) && r.fft_size >= n && (
                r.fft_size == 1 || r.fft_size / 2 < n)),
                None => r.fft_size == 1024,
            },
    {
        let bands_count = match usize_opt_exec(option(config, "bands")) {
            Some(n) => if n == 0 {
                1
            } else {
                n
            },
            None => 16,
        };
        let band_idx = match usize_opt_exec(pick(option(config, "bandidx"), option(config, "band"))) {
            Some(n) => n,
            None => 0,
        };
        let fft_size = match usize_opt_exec(option(config, "fftsize")) {
            Some(n) => fft_size_for(n),
            None => 1024,
        };
        AudioLevelSettings { bands_count, band_idx, fft_size }
    }
}

} // verus!
