//! The closed set of record kinds a file can carry.
use vstd::prelude::*;

verus! {

/// Which kind of record a file carries. The header announces exactly one,
/// and the record payload must be of the matching variant.
#[derive(Clone, Copy, Debug, PartialEq, Eq, Structural)]
pub enum Type {
    /// Observation records: raw signal measurements per epoch and vehicle.
    ObservationData,
    /// Navigation records: broadcast frames per epoch.
    NavigationData,
    /// Meteorological records: sensor readings per epoch.
    MeteoData,
    /// Clock records: clock states per epoch.
    ClockData,
    /// Antenna calibration records, keyed by antenna rather than by time.
    AntennaData,
    /// Ionosphere maps: TEC grids per epoch.
    IonosphereMaps,
}

impl Default for Type {
    /// The default record kind is observation data.
    fn default() -> (r: Self)
        ensures
            r == Type::ObservationData,
    {
        Type::ObservationData
    }
}

} // verus!
