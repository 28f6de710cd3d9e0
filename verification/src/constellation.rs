//! GNSS constellations and space-vehicle identifiers.
use vstd::prelude::*;

use crate::deepclone::DeepClone;

verus! {

/// A satellite navigation system.
#[derive(Clone, Copy, Debug, PartialEq, Eq, Structural)]
pub enum Constellation {
    /// American GPS.
    GPS,
    /// Russian Glonass.
    Glonass,
    /// Chinese Beidou.
    Beidou,
    /// Japanese QZSS.
    QZSS,
    /// European Galileo.
    Galileo,
    /// Geostationary augmentation systems.
    Sbas,
    /// A file mixing several constellations.
    Mixed,
}

impl Default for Constellation {
    /// The default constellation is GPS.
    fn default() -> (r: Self)
        ensures
            r == Constellation::GPS,
    {
        Constellation::GPS
    }
}

impl DeepClone for Constellation {
    fn deep_clone(&self) -> (r: Self) {
        *self
    }
}

impl View for Constellation {
    type V = Constellation;

    open spec fn view(&self) -> Constellation {
        *self
    }
}

impl DeepView for Constellation {
    type V = Constellation;

    open spec fn deep_view(&self) -> Constellation {
        *self
    }
}

/// The one-letter code of a constellation, as file names carry it.
pub open spec fn spec_one_letter_code(c: Constellation) -> char {
    match c {
        Constellation::GPS => 'g',
        Constellation::Glonass => 'r',
        Constellation::Beidou => 'c',
        Constellation::QZSS => 'j',
        Constellation::Galileo => 'e',
        Constellation::Sbas => 's',
        Constellation::Mixed => 'm',
    }
}

/// The upper-case one-letter code of a constellation, as modern file names
/// carry it.
pub open spec fn spec_upper_code(c: Constellation) -> char {
    match c {
        Constellation::GPS => 'G',
        Constellation::Glonass => 'R',
        Constellation::Beidou => 'C',
        Constellation::QZSS => 'J',
        Constellation::Galileo => 'E',
        Constellation::Sbas => 'S',
        Constellation::Mixed => 'M',
    }
}

/// The three-letter code of a constellation.
pub open spec fn spec_three_letter_code(c: Constellation) -> Seq<char> {
    match c {
        Constellation::GPS => "GPS"@,
        Constellation::Glonass => "GLO"@,
        Constellation::Beidou => "BDS"@,
        Constellation::QZSS => "QZS"@,
        Constellation::Galileo => "GAL"@,
        Constellation::Sbas => "SBS"@,
        Constellation::Mixed => "MIX"@,
    }
}

impl Constellation {
    /// Returns the lower-case one-letter code of this constellation.
    pub fn to_1_letter_code(&self) -> (r: char)
        ensures
            r == spec_one_letter_code(*self),
    {
        match self {
            Constellation::GPS => 'g',
            Constellation::Glonass => 'r',
            Constellation::Beidou => 'c',
            Constellation::QZSS => 'j',
            Constellation::Galileo => 'e',
            Constellation::Sbas => 's',
            Constellation::Mixed => 'm',
        }
    }

    /// Returns the upper-case one-letter code of this constellation.
    pub fn to_upper_1_letter_code(&self) -> (r: char)
        ensures
            r == spec_upper_code(*self),
    {
        match self {
            Constellation::GPS => 'G',
            Constellation::Glonass => 'R',
            Constellation::Beidou => 'C',
            Constellation::QZSS => 'J',
            Constellation::Galileo => 'E',
            Constellation::Sbas => 'S',
            Constellation::Mixed => 'M',
        }
    }

    /// Returns the three-letter code of this constellation.
    pub fn to_3_letter_code(&self) -> (r: &'static str)
        ensures
            r@ == spec_three_letter_code(*self),
    {
        match self {
            Constellation::GPS => "GPS",
            Constellation::Glonass => "GLO",
            Constellation::Beidou => "BDS",
            Constellation::QZSS => "QZS",
            Constellation::Galileo => "GAL",
            Constellation::Sbas => "SBS",
            Constellation::Mixed => "MIX",
        }
    }
}

/// A space vehicle: a constellation plus the in-constellation number.
#[derive(Clone, Copy, Debug, PartialEq, Eq, Structural)]
pub struct Sv {
    /// The constellation the vehicle belongs to.
    pub constellation: Constellation,
    /// The pseudo-random-noise number identifying the vehicle.
    pub prn: u8,
}

impl Sv {
    /// Builds a space-vehicle identifier.
    pub fn new(constellation: Constellation, prn: u8) -> (r: Self)
        ensures
            r == (Sv { constellation, prn }),
    {
        Sv { constellation, prn }
    }
}

impl Default for Sv {
    /// The default vehicle is GPS number zero.
    fn default() -> (r: Self)
        ensures
            r == (Sv { constellation: Constellation::GPS, prn: 0u8 }),
    {
        Sv { constellation: Constellation::GPS, prn: 0 }
    }
}

impl DeepClone for Sv {
    fn deep_clone(&self) -> (r: Self) {
        *self
    }
}

impl View for Sv {
    type V = Sv;

    open spec fn view(&self) -> Sv {
        *self
    }
}

impl DeepView for Sv {
    type V = Sv;

    open spec fn deep_view(&self) -> Sv {
        *self
    }
}

/// Whether a vehicle list names `sv`.
pub open spec fn sv_listed(list: Seq<Sv>, sv: Sv) -> bool {
    exists|i: int| 0 <= i < list.len() && list[i] == sv
}

/// Whether a constellation list names `c`.
pub open spec fn constellation_listed(list: Seq<Constellation>, c: Constellation) -> bool {
    exists|i: int| 0 <= i < list.len() && list[i] == c
}

/// Returns whether the vehicle list names `sv`.
pub fn sv_list_contains(list: &Vec<Sv>, sv: Sv) -> (r: bool)
    ensures
        r == sv_listed(list.deep_view(), sv),
{
    let n = list.len();
    let mut i: usize = 0;
    while i < n
        invariant
            n == list@.len(),
            i <= n,
            forall|k: int| 0 <= k < i ==> list.deep_view()[k] != sv,
        decreases n - i,
    {
        if list[i].constellation == sv.constellation && list[i].prn == sv.prn {
            proof {
                assert(list.deep_view()[i as int] == sv);
            }
            return true;
        }
        proof {
            assert(list.deep_view()[i as int] == list@[i as int]);
        }
        i += 1;
    }
    false
}

/// Returns whether the constellation list names `c`.
pub fn constellation_list_contains(list: &Vec<Constellation>, c: Constellation) -> (r: bool)
    ensures
        r == constellation_listed(list.deep_view(), c),
{
    let n = list.len();
    let mut i: usize = 0;
    while i < n
        invariant
            n == list@.len(),
            i <= n,
            forall|k: int| 0 <= k < i ==> list.deep_view()[k] != c,
        decreases n - i,
    {
        if list[i] == c {
            proof {
                assert(list.deep_view()[i as int] == c);
            }
            return true;
        }
        proof {
            assert(list.deep_view()[i as int] == list@[i as int]);
        }
        i += 1;
    }
    false
}

} // verus!
