//! The header projection the record engine consumes: record kind,
//! constellation, sampling interval, comment list, compactness, and the
//! code tables that the observable listing reads.
use vstd::prelude::*;

use crate::constellation::Constellation;
use crate::deepclone::DeepClone;
use crate::strutil::{all_dec_digits, digits_val, parse_fixed_digits};
use crate::types::Type;

verus! {

/// The newest format revision the library understands.
pub const SUPPORTED_VERSION_MAJOR: u8 = 3;

/// The minor part of the newest understood revision.
pub const SUPPORTED_VERSION_MINOR: u8 = 4;

/// Compact-format information, present when a record was produced from a
/// compacted observation file.
#[derive(Debug)]
pub struct Crinex {
    /// Major compression format revision.
    pub version_major: u8,
    /// Minor compression format revision.
    pub version_minor: u8,
    /// The program that produced the compacted file.
    pub prog: String,
    /// When the compaction happened, seconds relative to
    /// 1970-01-01 00:00:00 UTC.
    pub date: i64,
}

/// The model of the compact-format information.
pub struct CrinexV {
    /// Major compression format revision.
    pub version_major: u8,
    /// Minor compression format revision.
    pub version_minor: u8,
    /// The program that produced the compacted file.
    pub prog: Seq<char>,
    /// When the compaction happened.
    pub date: i64,
}

impl View for Crinex {
    type V = CrinexV;

    open spec fn view(&self) -> CrinexV {
        CrinexV {
            version_major: self.version_major,
            version_minor: self.version_minor,
            prog: self.prog@,
            date: self.date,
        }
    }
}

impl DeepView for Crinex {
    type V = CrinexV;

    open spec fn deep_view(&self) -> CrinexV {
        self.view()
    }
}

impl DeepClone for Crinex {
    fn deep_clone(&self) -> (r: Self) {
        Crinex {
            version_major: self.version_major,
            version_minor: self.version_minor,
            prog: self.prog.clone(),
            date: self.date,
        }
    }
}

/// The header fields the record engine reads.
#[derive(Debug)]
pub struct Header {
    /// Major format revision.
    pub version_major: u8,
    /// Minor format revision.
    pub version_minor: u8,
    /// Which record kind the file carries.
    pub rinex_type: Type,
    /// The constellation the file covers, when it names one.
    pub constellation: Option<Constellation>,
    /// The producing program; it also names the producer in merge markers.
    pub program: String,
    /// The station (marker) name.
    pub station: String,
    /// The nominal sampling interval in seconds, when the header names one.
    pub sampling_interval: Option<u64>,
    /// The header comment list; merges stamp their marker here.
    pub comments: Vec<String>,
    /// Compact-format information, when the file was compacted.
    pub crinex: Option<Crinex>,
    /// Leap seconds announced by the header.
    pub leap: Option<u32>,
    /// Observable codes per constellation, for observation files.
    pub obs_codes: Option<Vec<(Constellation, Vec<String>)>>,
    /// Sensor-observable codes, for meteo files.
    pub meteo_codes: Option<Vec<String>>,
    /// Clock-data-type codes, for clock files.
    pub clock_codes: Option<Vec<String>>,
}

/// The model of the header projection.
pub struct HeaderV {
    /// Major format revision.
    pub version_major: u8,
    /// Minor format revision.
    pub version_minor: u8,
    /// Which record kind the file carries.
    pub rinex_type: Type,
    /// The constellation the file covers.
    pub constellation: Option<Constellation>,
    /// The producing program.
    pub program: Seq<char>,
    /// The station name.
    pub station: Seq<char>,
    /// The nominal sampling interval in seconds.
    pub sampling_interval: Option<u64>,
    /// The header comment list.
    pub comments: Seq<Seq<char>>,
    /// Compact-format information.
    pub crinex: Option<CrinexV>,
    /// Leap seconds announced by the header.
    pub leap: Option<u32>,
    /// Observable codes per constellation.
    pub obs_codes: Option<Seq<(Constellation, Seq<Seq<char>>)>>,
    /// Sensor-observable codes.
    pub meteo_codes: Option<Seq<Seq<char>>>,
    /// Clock-data-type codes.
    pub clock_codes: Option<Seq<Seq<char>>>,
}

impl View for Header {
    type V = HeaderV;

    open spec fn view(&self) -> HeaderV {
        HeaderV {
            version_major: self.version_major,
            version_minor: self.version_minor,
            rinex_type: self.rinex_type,
            constellation: self.constellation,
            program: self.program@,
            station: self.station@,
            sampling_interval: self.sampling_interval,
            comments: self.comments.deep_view(),
            crinex: self.crinex.deep_view(),
            leap: self.leap,
            obs_codes: self.obs_codes.deep_view(),
            meteo_codes: self.meteo_codes.deep_view(),
            clock_codes: self.clock_codes.deep_view(),
        }
    }
}

impl DeepView for Header {
    type V = HeaderV;

    open spec fn deep_view(&self) -> HeaderV {
        self.view()
    }
}

impl DeepClone for Header {
    fn deep_clone(&self) -> (r: Self) {
        Header {
            version_major: self.version_major,
            version_minor: self.version_minor,
            rinex_type: self.rinex_type,
            constellation: self.constellation,
            program: self.program.clone(),
            station: self.station.clone(),
            sampling_interval: self.sampling_interval,
            comments: self.comments.deep_clone(),
            crinex: self.crinex.deep_clone(),
            leap: self.leap,
            obs_codes: self.obs_codes.deep_clone(),
            meteo_codes: self.meteo_codes.deep_clone(),
            clock_codes: self.clock_codes.deep_clone(),
        }
    }
}

impl Default for Header {
    /// A default header: an observation file at the newest understood
    /// revision, GPS, no optional fields.
    fn default() -> (r: Self)
        ensures
            r@.version_major == SUPPORTED_VERSION_MAJOR,
            r@.version_minor == SUPPORTED_VERSION_MINOR,
            r@.rinex_type == Type::ObservationData,
            r@.constellation == Some(Constellation::GPS),
            r@.program == Seq::<char>::empty(),
            r@.comments == Seq::<Seq<char>>::empty(),
            r@.crinex is None,
            r@.sampling_interval is None,
            r@.leap is None,
    {
        let r = Header {
            version_major: SUPPORTED_VERSION_MAJOR,
            version_minor: SUPPORTED_VERSION_MINOR,
            rinex_type: Type::ObservationData,
            constellation: Some(Constellation::GPS),
            program: String::new(),
            station: String::new(),
            sampling_interval: None,
            comments: Vec::new(),
            crinex: None,
            leap: None,
            obs_codes: None,
            meteo_codes: None,
            clock_codes: None,
        };
        proof {
            assert(r@.comments =~= Seq::<Seq<char>>::empty());
        }
        r
    }
}

impl Header {
    /// Returns whether the header marks a compacted observation file.
    pub fn is_crinex(&self) -> (r: bool)
        ensures
            r == (self@.crinex is Some),
    {
        self.crinex.is_some()
    }

    /// Returns the compact-format revision, when there is one.
    pub fn get_crinex_version(&self) -> (r: Option<(u8, u8)>)
        ensures
            match r {
                Some(v) => self@.crinex is Some && v.0 == self@.crinex->0.version_major && v.1
                    == self@.crinex->0.version_minor,
                None => self@.crinex is None,
            },
    {
        match &self.crinex {
            Some(c) => Some((c.version_major, c.version_minor)),
            None => None,
        }
    }

    /// Returns the compact-format program name, when there is one.
    pub fn get_crinex_prog(&self) -> (r: Option<&str>)
        ensures
            match r {
                Some(p) => self@.crinex is Some && p@ == self@.crinex->0.prog,
                None => self@.crinex is None,
            },
    {
        match &self.crinex {
            Some(c) => Some(c.prog.as_str()),
            None => None,
        }
    }

    /// Returns the compact-format date, when there is one.
    pub fn get_crinex_date(&self) -> (r: Option<i64>)
        ensures
            match r {
                Some(d) => self@.crinex is Some && d == self@.crinex->0.date,
                None => self@.crinex is None,
            },
    {
        match &self.crinex {
            Some(c) => Some(c.date),
            None => None,
        }
    }

    /// Returns a copy of this header carrying the given compact-format
    /// information.
    pub fn with_crinex(&self, crinex: Crinex) -> (r: Header)
        ensures
            r@ == (HeaderV { crinex: Some(crinex.deep_view()), ..self@ }),
    {
        let mut h = self.deep_clone();
        h.crinex = Some(crinex);
        proof {
            assert(h@ =~= (HeaderV { crinex: Some(crinex.deep_view()), ..self@ }));
        }
        h
    }

    /// Whether two headers may be merged: they must announce the same record
    /// kind.
    pub open spec fn spec_merge_compatible(a: HeaderV, b: HeaderV) -> bool {
        a.rinex_type == b.rinex_type
    }

    /// Returns whether this header may be merged with `other`.
    pub fn merge_compatible(&self, other: &Header) -> (r: bool)
        ensures
            r == Self::spec_merge_compatible(self@, other@),
    {
        self.rinex_type == other.rinex_type
    }
}

/// A leap-second announcement.
#[derive(Clone, Copy, Debug, PartialEq, Eq, Structural)]
pub struct LeapSecond {
    /// Current leap-second count.
    pub leap: u32,
    /// Week number of the next (or past) change.
    pub week: u32,
    /// Day number of the change within the week.
    pub day: u32,
    /// Time difference carried by the change, seconds.
    pub delta: u32,
    /// The time system the announcement belongs to.
    pub constellation: Constellation,
}

impl LeapSecond {
    /// Builds a leap-second announcement; absent fields default to zero and
    /// to GPS.
    pub fn new(
        leap: u32,
        week: Option<u32>,
        day: Option<u32>,
        delta: Option<u32>,
        constellation: Option<Constellation>,
    ) -> (r: LeapSecond)
        ensures
            r.leap == leap,
            r.week == (match week {
                Some(w) => w,
                None => 0u32,
            }),
            r.day == (match day {
                Some(d) => d,
                None => 0u32,
            }),
            r.delta == (match delta {
                Some(d) => d,
                None => 0u32,
            }),
            r.constellation == (match constellation {
                Some(c) => c,
                None => Constellation::GPS,
            }),
    {
        LeapSecond {
            leap,
            week: week.unwrap_or(0),
            day: day.unwrap_or(0),
            delta: delta.unwrap_or(0),
            constellation: constellation.unwrap_or(Constellation::GPS),
        }
    }
}

impl Default for LeapSecond {
    /// The default announcement is all zeros against GPS time.
    fn default() -> (r: Self)
        ensures
            r == (LeapSecond {
                leap: 0u32,
                week: 0u32,
                day: 0u32,
                delta: 0u32,
                constellation: Constellation::GPS,
            }),
    {
        LeapSecond { leap: 0, week: 0, day: 0, delta: 0, constellation: Constellation::GPS }
    }
}

/// The revision-string parse failed: a component is missing, empty, too long
/// or not numeric.
#[derive(Clone, Copy, Debug, PartialEq, Eq, Structural)]
pub struct VersionParseError;

/// The position of the first `.` in `s` at or after `from`, or the length
/// when there is none.
pub open spec fn dot_index(s: Seq<char>, from: int) -> int
    decreases s.len() - from,
{
    if from < 0 || from >= s.len() {
        s.len() as int
    } else if s[from] == '.' {
        from
    } else {
        dot_index(s, from + 1)
    }
}

/// Whether a revision component is readable: one to nine decimal digits.
pub open spec fn version_component_ok(c: Seq<char>) -> bool {
    1 <= c.len() <= 9 && all_dec_digits(c)
}

/// What the revision check answers on a given string: `None` when the string
/// is not of the two-component numeric `major.minor` shape, otherwise
/// whether the named revision is at most the newest understood one.
pub open spec fn version_supported_spec(s: Seq<char>) -> Option<bool> {
    let d0 = dot_index(s, 0);
    if d0 == s.len() {
        None
    } else {
        let c0 = s.take(d0);
        let d1 = dot_index(s, d0 + 1);
        let c1 = s.subrange(d0 + 1, d1);
        if version_component_ok(c0) && version_component_ok(c1) {
            let v0 = digits_val(c0);
            let v1 = digits_val(c1);
            Some(
                v0 < SUPPORTED_VERSION_MAJOR as int || (v0 == SUPPORTED_VERSION_MAJOR as int && v1
                    <= SUPPORTED_VERSION_MINOR as int),
            )
        } else {
            None
        }
    }
}

/// Scans for the first `.` at or after `from`.
fn find_dot(s: &str, from: usize) -> (r: usize)
    requires
        from <= s@.len(),
    ensures
        r as int == dot_index(s@, from as int),
        from <= r <= s@.len(),
{
    let n = s.unicode_len();
    let mut i: usize = from;
    while i < n && s.get_char(i) != '.'
        invariant
            n == s@.len(),
            from <= i <= n,
            dot_index(s@, from as int) == dot_index(s@, i as int),
            forall|k: int| from <= k < i ==> s@[k] != '.',
        decreases n - i,
    {
        i += 1;
    }
    i
}

/// Checks whether the library understands the revision a version string
/// names. Returns an error exactly when the string is not of the numeric
/// `major.minor` shape (each component one to nine digits).
pub fn version_is_supported(version: &str) -> (r: Result<bool, VersionParseError>)
    ensures
        match r {
            Ok(b) => version_supported_spec(version@) == Some(b),
            Err(e) => version_supported_spec(version@) is None,
        },
{
    let n = version.unicode_len();
    let d0 = find_dot(version, 0);
    if d0 == n {
        return Err(VersionParseError);
    }
    let d1 = find_dot(version, d0 + 1);
    let len0 = d0;
    let len1 = d1 - (d0 + 1);
    if len0 < 1 || len0 > 9 || len1 < 1 || len1 > 9 {
        proof {
            let c0 = version@.take(d0 as int);
            let c1 = version@.subrange(d0 + 1, d1 as int);
            assert(c0.len() == len0 && c1.len() == len1);
        }
        return Err(VersionParseError);
    }
    let p0 = parse_fixed_digits(version, 0, len0);
    let p1 = parse_fixed_digits(version, d0 + 1, len1);
    proof {
        assert(version@.take(d0 as int) =~= version@.subrange(0, len0 as int));
        assert(version@.subrange(d0 + 1, d1 as int) =~= version@.subrange(
            d0 + 1,
            d0 + 1 + len1,
        ));
    }
    match (p0, p1) {
        (Some(v0), Some(v1)) => {
            let supported = v0 < SUPPORTED_VERSION_MAJOR as u64 || (v0
                == SUPPORTED_VERSION_MAJOR as u64 && v1 <= SUPPORTED_VERSION_MINOR as u64);
            Ok(supported)
        },
        _ => Err(VersionParseError),
    }
}

} // verus!
