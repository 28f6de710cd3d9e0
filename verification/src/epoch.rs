//! Epochs: the universal ordering key of every record kind.
//!
//! An epoch is a timestamp (seconds, at second resolution) together with a
//! recording-quality flag. Ordering is total and derived from the timestamp
//! alone; the flag only matters to filtering predicates.
use vstd::prelude::*;

use crate::deepclone::DeepClone;

verus! {

/// Quality flag attached to an epoch: one nominal value, and several
/// anomaly kinds around the sample.
#[derive(Clone, Copy, Debug, PartialEq, Eq, Structural)]
pub enum EpochFlag {
    /// Nominal recording conditions.
    Nominal,
    /// A power failure happened since the previous epoch.
    PowerFailure,
    /// The antenna is being physically moved.
    AntennaBeingMoved,
    /// A new site is being occupied.
    NewSiteOccupation,
    /// Extra header information follows this epoch.
    HeaderInformationFollows,
    /// An external event happened at this epoch.
    ExternalEvent,
    /// A cycle slip was detected at this epoch.
    CycleSlip,
}

impl EpochFlag {
    /// True only of the nominal flag value.
    pub open spec fn spec_is_ok(&self) -> bool {
        self is Nominal
    }

    /// Returns whether this flag marks nominal recording conditions.
    #[verifier::when_used_as_spec(spec_is_ok)]
    pub fn is_ok(&self) -> (r: bool)
        ensures
            r == self.spec_is_ok(),
    {
        match self {
            EpochFlag::Nominal => true,
            _ => false,
        }
    }
}

impl Default for EpochFlag {
    /// The default flag marks nominal conditions.
    fn default() -> (r: Self)
        ensures
            r == EpochFlag::Nominal,
    {
        EpochFlag::Nominal
    }
}

/// A sampling timestamp plus its recording-quality flag.
///
/// `date` counts seconds relative to 1970-01-01 00:00:00 UTC (it may be
/// negative). Two epochs compare by `date` alone.
#[derive(Clone, Copy, Debug, PartialEq, Eq, Structural)]
pub struct Epoch {
    /// Seconds relative to 1970-01-01 00:00:00 UTC.
    pub date: i64,
    /// Recording-quality flag; never part of the ordering.
    pub flag: EpochFlag,
}

impl View for Epoch {
    type V = Epoch;

    open spec fn view(&self) -> Epoch {
        *self
    }
}

impl DeepView for Epoch {
    type V = Epoch;

    open spec fn deep_view(&self) -> Epoch {
        *self
    }
}

impl DeepClone for Epoch {
    fn deep_clone(&self) -> (r: Self) {
        *self
    }
}

impl Epoch {
    /// Builds an epoch from a timestamp and a flag.
    pub fn new(date: i64, flag: EpochFlag) -> (r: Self)
        ensures
            r == (Epoch { date, flag }),
    {
        Epoch { date, flag }
    }
}

impl Default for Epoch {
    /// The default epoch sits at the time origin with the nominal flag.
    fn default() -> (r: Self)
        ensures
            r == (Epoch { date: 0i64, flag: EpochFlag::Nominal }),
    {
        Epoch { date: 0, flag: EpochFlag::Nominal }
    }
}

} // verus!
