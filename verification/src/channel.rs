//! Observable-code classification and nominal carrier-frequency lookup.
//!
//! A three-letter observable code names the measured quantity by its first
//! letter and the frequency band by its second. The four measurement classes
//! (pseudorange, carrier phase, doppler, signal strength) are mutually
//! exclusive and total over the first letters used in practice.
use vstd::prelude::*;

use crate::constellation::Constellation;

verus! {

/// True of observable codes carrying a pseudorange: first letter `C`, or the
/// older `P` style.
pub open spec fn spec_is_pseudo_range_code(s: Seq<char>) -> bool {
    s.len() >= 1 && (s[0] == 'C' || s[0] == 'P')
}

/// True of observable codes carrying a carrier phase: first letter `L`.
pub open spec fn spec_is_phase_carrier_code(s: Seq<char>) -> bool {
    s.len() >= 1 && s[0] == 'L'
}

/// True of observable codes carrying a doppler shift: first letter `D`.
pub open spec fn spec_is_doppler_code(s: Seq<char>) -> bool {
    s.len() >= 1 && s[0] == 'D'
}

/// True of observable codes carrying a signal strength: first letter `S`.
pub open spec fn spec_is_sig_strength_code(s: Seq<char>) -> bool {
    s.len() >= 1 && s[0] == 'S'
}

/// Returns whether the code names a pseudorange observable.
pub fn is_pseudo_range_obs_code(code: &str) -> (r: bool)
    ensures
        r == spec_is_pseudo_range_code(code@),
{
    if code.unicode_len() == 0 {
        return false;
    }
    let c = code.get_char(0);
    c == 'C' || c == 'P'
}

/// Returns whether the code names a carrier-phase observable.
pub fn is_phase_carrier_obs_code(code: &str) -> (r: bool)
    ensures
        r == spec_is_phase_carrier_code(code@),
{
    if code.unicode_len() == 0 {
        return false;
    }
    code.get_char(0) == 'L'
}

/// Returns whether the code names a doppler observable.
pub fn is_doppler_obs_code(code: &str) -> (r: bool)
    ensures
        r == spec_is_doppler_code(code@),
{
    if code.unicode_len() == 0 {
        return false;
    }
    code.get_char(0) == 'D'
}

/// Returns whether the code names a signal-strength observable.
pub fn is_sig_strength_obs_code(code: &str) -> (r: bool)
    ensures
        r == spec_is_sig_strength_code(code@),
{
    if code.unicode_len() == 0 {
        return false;
    }
    code.get_char(0) == 'S'
}

/// The nominal carrier frequency, in hertz, of the band that digit `band`
/// names within constellation `c`; `None` for a band the table does not
/// know.
pub open spec fn spec_band_freq_hz(c: Constellation, band: char) -> Option<u64> {
    match c {
        Constellation::GPS | Constellation::QZSS => {
            if band == '1' {
                Some(1_575_420_000u64)
            } else if band == '2' {
                Some(1_227_600_000u64)
            } else if band == '5' {
                Some(1_176_450_000u64)
            } else {
                None
            }
        },
        Constellation::Glonass => {
            if band == '1' {
                Some(1_602_000_000u64)
            } else if band == '2' {
                Some(1_246_000_000u64)
            } else if band == '3' {
                Some(1_202_025_000u64)
            } else {
                None
            }
        },
        Constellation::Galileo => {
            if band == '1' {
                Some(1_575_420_000u64)
            } else if band == '5' {
                Some(1_176_450_000u64)
            } else if band == '6' {
                Some(1_278_750_000u64)
            } else if band == '7' {
                Some(1_207_140_000u64)
            } else if band == '8' {
                Some(1_191_795_000u64)
            } else {
                None
            }
        },
        Constellation::Beidou => {
            if band == '1' {
                Some(1_561_098_000u64)
            } else if band == '2' {
                Some(1_207_140_000u64)
            } else if band == '5' {
                Some(1_176_450_000u64)
            } else if band == '6' {
                Some(1_268_520_000u64)
            } else if band == '7' {
                Some(1_207_140_000u64)
            } else {
                None
            }
        },
        Constellation::Sbas => {
            if band == '1' {
                Some(1_575_420_000u64)
            } else if band == '5' {
                Some(1_176_450_000u64)
            } else {
                None
            }
        },
        Constellation::Mixed => None,
    }
}

/// The nominal carrier frequency of an observable code within a
/// constellation: the code's second character names the band.
pub open spec fn spec_carrier_freq_hz(c: Constellation, code: Seq<char>) -> Option<u64> {
    if code.len() < 2 {
        None
    } else {
        spec_band_freq_hz(c, code[1])
    }
}

/// Every frequency the table gives is positive and below two gigahertz.
pub proof fn lemma_band_freq_bounds(c: Constellation, band: char)
    ensures
        match spec_band_freq_hz(c, band) {
            Some(f) => 1_000_000_000 <= f <= 2_000_000_000,
            None => true,
        },
{
}

/// Returns the nominal carrier frequency, in hertz, of an observable code
/// within a constellation.
pub fn carrier_frequency_hz(c: Constellation, code: &str) -> (r: Option<u64>)
    ensures
        r == spec_carrier_freq_hz(c, code@),
{
    if code.unicode_len() < 2 {
        return None;
    }
    let band = code.get_char(1);
    match c {
        Constellation::GPS | Constellation::QZSS => {
            if band == '1' {
                Some(1_575_420_000)
            } else if band == '2' {
                Some(1_227_600_000)
            } else if band == '5' {
                Some(1_176_450_000)
            } else {
                None
            }
        },
        Constellation::Glonass => {
            if band == '1' {
                Some(1_602_000_000)
            } else if band == '2' {
                Some(1_246_000_000)
            } else if band == '3' {
                Some(1_202_025_000)
            } else {
                None
            }
        },
        Constellation::Galileo => {
            if band == '1' {
                Some(1_575_420_000)
            } else if band == '5' {
                Some(1_176_450_000)
            } else if band == '6' {
                Some(1_278_750_000)
            } else if band == '7' {
                Some(1_207_140_000)
            } else if band == '8' {
                Some(1_191_795_000)
            } else {
                None
            }
        },
        Constellation::Beidou => {
            if band == '1' {
                Some(1_561_098_000)
            } else if band == '2' {
                Some(1_207_140_000)
            } else if band == '5' {
                Some(1_176_450_000)
            } else if band == '6' {
                Some(1_268_520_000)
            } else if band == '7' {
                Some(1_207_140_000)
            } else {
                None
            }
        },
        Constellation::Sbas => {
            if band == '1' {
                Some(1_575_420_000)
            } else if band == '5' {
                Some(1_176_450_000)
            } else {
                None
            }
        },
        Constellation::Mixed => None,
    }
}

} // verus!
