//! The record sum type: one container per record kind behind one set of
//! time-ordered operations, plus the comment ledger extracted while parsing.
use vstd::prelude::*;

use crate::antex::{AntexRecord, AntexRecordV};
use crate::clocks::ClockEntry;
use crate::deepclone::DeepClone;
use crate::epoch::Epoch;
use crate::ionex::IonexMap;
use crate::meteo::MeteoEntry;
use crate::navigation::{NavEntry, NavEntryV};
use crate::observation::{ObsEntry, ObsEntryV};
use crate::series::{cut_index, in_window, thin_by_gap, TimeSeries};
use crate::types::Type;

verus! {

/// The epoch-to-comment ledger filled during parsing; read-only to the
/// record engine.
pub type Comments = TimeSeries<Vec<String>>;

/// A record: exactly one active variant, which must match the record kind
/// the header announces.
#[derive(Debug)]
pub enum Record {
    /// Observation data.
    ObsRecord(TimeSeries<ObsEntry>),
    /// Navigation data.
    NavRecord(TimeSeries<NavEntry>),
    /// Meteorological data.
    MeteoRecord(TimeSeries<MeteoEntry>),
    /// Clock data.
    ClockRecord(TimeSeries<ClockEntry>),
    /// Ionosphere maps.
    IonexRecord(TimeSeries<IonexMap>),
    /// Antenna calibrations.
    AntexRecord(AntexRecord),
}

/// The model of a record.
pub enum RecordV {
    /// Observation data.
    ObsRecord(Seq<(Epoch, ObsEntryV)>),
    /// Navigation data.
    NavRecord(Seq<(Epoch, NavEntryV)>),
    /// Meteorological data.
    MeteoRecord(Seq<(Epoch, Seq<(Seq<char>, i64)>)>),
    /// Clock data.
    ClockRecord(Seq<(Epoch, crate::clocks::ClockEntryV)>),
    /// Ionosphere maps.
    IonexRecord(Seq<(Epoch, Seq<i64>)>),
    /// Antenna calibrations.
    AntexRecord(AntexRecordV),
}

impl View for Record {
    type V = RecordV;

    open spec fn view(&self) -> RecordV {
        match self {
            Record::ObsRecord(s) => RecordV::ObsRecord(s@),
            Record::NavRecord(s) => RecordV::NavRecord(s@),
            Record::MeteoRecord(s) => RecordV::MeteoRecord(s@),
            Record::ClockRecord(s) => RecordV::ClockRecord(s@),
            Record::IonexRecord(s) => RecordV::IonexRecord(s@),
            Record::AntexRecord(s) => RecordV::AntexRecord(s@),
        }
    }
}

impl DeepView for Record {
    type V = RecordV;

    open spec fn deep_view(&self) -> RecordV {
        self.view()
    }
}

impl DeepClone for Record {
    fn deep_clone(&self) -> (r: Self) {
        match self {
            Record::ObsRecord(s) => Record::ObsRecord(s.deep_clone()),
            Record::NavRecord(s) => Record::NavRecord(s.deep_clone()),
            Record::MeteoRecord(s) => Record::MeteoRecord(s.deep_clone()),
            Record::ClockRecord(s) => Record::ClockRecord(s.deep_clone()),
            Record::IonexRecord(s) => Record::IonexRecord(s.deep_clone()),
            Record::AntexRecord(s) => Record::AntexRecord(s.deep_clone()),
        }
    }
}

/// The ordering invariant of a record: whatever the variant, its epochs
/// strictly ascend.
pub open spec fn record_wf(r: RecordV) -> bool {
    match r {
        RecordV::ObsRecord(s) => crate::series::sorted_by_date(s),
        RecordV::NavRecord(s) => crate::series::sorted_by_date(s),
        RecordV::MeteoRecord(s) => crate::series::sorted_by_date(s),
        RecordV::ClockRecord(s) => crate::series::sorted_by_date(s),
        RecordV::IonexRecord(s) => crate::series::sorted_by_date(s),
        RecordV::AntexRecord(_) => true,
    }
}

/// Whether a record variant matches the record kind a header announces.
pub open spec fn record_matches_type(r: RecordV, t: Type) -> bool {
    match r {
        RecordV::ObsRecord(_) => t == Type::ObservationData,
        RecordV::NavRecord(_) => t == Type::NavigationData,
        RecordV::MeteoRecord(_) => t == Type::MeteoData,
        RecordV::ClockRecord(_) => t == Type::ClockData,
        RecordV::IonexRecord(_) => t == Type::IonosphereMaps,
        RecordV::AntexRecord(_) => t == Type::AntennaData,
    }
}

/// Whether a record is keyed by epochs and supports the epoch listing (the
/// clock and antenna variants are not part of that contract).
pub open spec fn record_has_epochs(r: RecordV) -> bool {
    r is ObsRecord || r is NavRecord || r is MeteoRecord || r is IonexRecord
}

/// The epoch sequence of an epoch-keyed record.
pub open spec fn record_epoch_seq(r: RecordV) -> Seq<Epoch> {
    match r {
        RecordV::ObsRecord(s) => s.map_values(|p: (Epoch, ObsEntryV)| p.0),
        RecordV::NavRecord(s) => s.map_values(|p: (Epoch, NavEntryV)| p.0),
        RecordV::MeteoRecord(s) => s.map_values(|p: (Epoch, Seq<(Seq<char>, i64)>)| p.0),
        RecordV::IonexRecord(s) => s.map_values(|p: (Epoch, Seq<i64>)| p.0),
        _ => Seq::empty(),
    }
}

/// The sub-record within the half-open epoch window `[lo, hi)`.
pub open spec fn record_window(r: RecordV, lo: i64, hi: i64) -> RecordV {
    match r {
        RecordV::ObsRecord(s) => RecordV::ObsRecord(in_window(s, lo, hi)),
        RecordV::NavRecord(s) => RecordV::NavRecord(in_window(s, lo, hi)),
        RecordV::MeteoRecord(s) => RecordV::MeteoRecord(in_window(s, lo, hi)),
        RecordV::ClockRecord(s) => RecordV::ClockRecord(in_window(s, lo, hi)),
        RecordV::IonexRecord(s) => RecordV::IonexRecord(in_window(s, lo, hi)),
        RecordV::AntexRecord(s) => RecordV::AntexRecord(s),
    }
}

impl Record {
    /// Returns the observation series, when this record is one.
    pub fn as_obs(&self) -> (r: Option<&TimeSeries<ObsEntry>>)
        ensures
            match r {
                Some(s) => self@ == RecordV::ObsRecord(s@),
                None => !(self@ is ObsRecord),
            },
    {
        match self {
            Record::ObsRecord(s) => Some(s),
            _ => None,
        }
    }

    /// Returns the navigation series, when this record is one.
    pub fn as_nav(&self) -> (r: Option<&TimeSeries<NavEntry>>)
        ensures
            match r {
                Some(s) => self@ == RecordV::NavRecord(s@),
                None => !(self@ is NavRecord),
            },
    {
        match self {
            Record::NavRecord(s) => Some(s),
            _ => None,
        }
    }

    /// Returns the meteo series, when this record is one.
    pub fn as_meteo(&self) -> (r: Option<&TimeSeries<MeteoEntry>>)
        ensures
            match r {
                Some(s) => self@ == RecordV::MeteoRecord(s@),
                None => !(self@ is MeteoRecord),
            },
    {
        match self {
            Record::MeteoRecord(s) => Some(s),
            _ => None,
        }
    }

    /// Returns the clock series, when this record is one.
    pub fn as_clock(&self) -> (r: Option<&TimeSeries<ClockEntry>>)
        ensures
            match r {
                Some(s) => self@ == RecordV::ClockRecord(s@),
                None => !(self@ is ClockRecord),
            },
    {
        match self {
            Record::ClockRecord(s) => Some(s),
            _ => None,
        }
    }

    /// Returns the ionosphere-map series, when this record is one.
    pub fn as_ionex(&self) -> (r: Option<&TimeSeries<IonexMap>>)
        ensures
            match r {
                Some(s) => self@ == RecordV::IonexRecord(s@),
                None => !(self@ is IonexRecord),
            },
    {
        match self {
            Record::IonexRecord(s) => Some(s),
            _ => None,
        }
    }

    /// Returns the antenna record, when this record is one.
    pub fn as_antex(&self) -> (r: Option<&AntexRecord>)
        ensures
            match r {
                Some(s) => self@ == RecordV::AntexRecord(s@),
                None => !(self@ is AntexRecord),
            },
    {
        match self {
            Record::AntexRecord(s) => Some(s),
            _ => None,
        }
    }

    /// The ordered epoch list of an epoch-keyed record.
    pub fn epochs(&self) -> (r: Vec<Epoch>)
        requires
            record_has_epochs(self@),
        ensures
            r@ == record_epoch_seq(self@),
    {
        let r = match self {
            Record::ObsRecord(s) => s.epochs(),
            Record::NavRecord(s) => s.epochs(),
            Record::MeteoRecord(s) => s.epochs(),
            Record::IonexRecord(s) => s.epochs(),
            Record::ClockRecord(_) => Vec::new(),
            Record::AntexRecord(_) => Vec::new(),
        };
        proof {
            assert(r@ =~= record_epoch_seq(self@));
        }
        r
    }

    /// The sub-record within the half-open epoch window `[lo, hi)`, as a
    /// structurally independent copy. An antenna record, carrying no epochs,
    /// is copied whole.
    pub fn window(&self, lo: i64, hi: i64) -> (r: Record)
        requires
            record_wf(self@),
        ensures
            record_wf(r@),
            r@ == record_window(self@, lo, hi),
    {
        match self {
            Record::ObsRecord(s) => Record::ObsRecord(s.window(lo, hi)),
            Record::NavRecord(s) => Record::NavRecord(s.window(lo, hi)),
            Record::MeteoRecord(s) => Record::MeteoRecord(s.window(lo, hi)),
            Record::ClockRecord(s) => Record::ClockRecord(s.window(lo, hi)),
            Record::IonexRecord(s) => Record::IonexRecord(s.window(lo, hi)),
            Record::AntexRecord(s) => Record::AntexRecord(s.deep_clone()),
        }
    }
}

impl Default for Record {
    /// The default record is an empty observation record.
    fn default() -> (r: Self)
        ensures
            r@ == RecordV::ObsRecord(Seq::<(Epoch, ObsEntryV)>::empty()),
            record_wf(r@),
    {
        Record::ObsRecord(TimeSeries::new())
    }
}


/// The number of entries a record holds (epochs, or antennas for the
/// antenna variant).
pub open spec fn record_len(r: RecordV) -> int {
    match r {
        RecordV::ObsRecord(s) => s.len() as int,
        RecordV::NavRecord(s) => s.len() as int,
        RecordV::MeteoRecord(s) => s.len() as int,
        RecordV::ClockRecord(s) => s.len() as int,
        RecordV::IonexRecord(s) => s.len() as int,
        RecordV::AntexRecord(s) => s.len() as int,
    }
}

/// How a ratio-decimated record relates to its source: same variant, every
/// `n`-th entry retained, `ceil(len / n)` entries in all.
pub open spec fn record_ratio_decimated(orig: RecordV, result: RecordV, n: int) -> bool {
    match (orig, result) {
        (RecordV::ObsRecord(a), RecordV::ObsRecord(b)) => b.len() == (a.len() + n - 1) / n
            && forall|k: int| 0 <= k < b.len() ==> (#[trigger] b[k]) == a[k * n],
        (RecordV::NavRecord(a), RecordV::NavRecord(b)) => b.len() == (a.len() + n - 1) / n
            && forall|k: int| 0 <= k < b.len() ==> (#[trigger] b[k]) == a[k * n],
        (RecordV::MeteoRecord(a), RecordV::MeteoRecord(b)) => b.len() == (a.len() + n - 1) / n
            && forall|k: int| 0 <= k < b.len() ==> (#[trigger] b[k]) == a[k * n],
        (RecordV::ClockRecord(a), RecordV::ClockRecord(b)) => b.len() == (a.len() + n - 1) / n
            && forall|k: int| 0 <= k < b.len() ==> (#[trigger] b[k]) == a[k * n],
        (RecordV::IonexRecord(a), RecordV::IonexRecord(b)) => b.len() == (a.len() + n - 1) / n
            && forall|k: int| 0 <= k < b.len() ==> (#[trigger] b[k]) == a[k * n],
        (RecordV::AntexRecord(a), RecordV::AntexRecord(b)) => b.len() == (a.len() + n - 1) / n
            && forall|k: int| 0 <= k < b.len() ==> (#[trigger] b[k]) == a[k * n],
        _ => false,
    }
}

/// How an interval-decimated record relates to its source: same variant,
/// entries thinned greedily by the minimum gap.
pub open spec fn record_gap_decimated(orig: RecordV, result: RecordV, min_gap: int) -> bool {
    match (orig, result) {
        (RecordV::ObsRecord(a), RecordV::ObsRecord(b)) => b == thin_by_gap(a, min_gap),
        (RecordV::NavRecord(a), RecordV::NavRecord(b)) => b == thin_by_gap(a, min_gap),
        (RecordV::MeteoRecord(a), RecordV::MeteoRecord(b)) => b == thin_by_gap(a, min_gap),
        (RecordV::IonexRecord(a), RecordV::IonexRecord(b)) => b == thin_by_gap(a, min_gap),
        _ => false,
    }
}

/// How the two halves of a split relate to the source: same variant, the
/// entries strictly before the boundary and the entries at or after it.
pub open spec fn record_split(orig: RecordV, left: RecordV, right: RecordV, d: i64) -> bool {
    match (orig, left, right) {
        (RecordV::ObsRecord(a), RecordV::ObsRecord(l), RecordV::ObsRecord(rr)) => l == a.take(
            cut_index(a, d),
        ) && rr == a.skip(cut_index(a, d)),
        (RecordV::NavRecord(a), RecordV::NavRecord(l), RecordV::NavRecord(rr)) => l == a.take(
            cut_index(a, d),
        ) && rr == a.skip(cut_index(a, d)),
        (RecordV::MeteoRecord(a), RecordV::MeteoRecord(l), RecordV::MeteoRecord(rr)) => l
            == a.take(cut_index(a, d)) && rr == a.skip(cut_index(a, d)),
        _ => false,
    }
}

/// Whether a record variant supports the boundary split (observation,
/// navigation and meteo records do).
pub open spec fn record_supports_split(r: RecordV) -> bool {
    r is ObsRecord || r is NavRecord || r is MeteoRecord
}

impl Record {
    /// How many entries the record holds.
    pub fn len(&self) -> (r: usize)
        ensures
            r as int == record_len(self@),
    {
        match self {
            Record::ObsRecord(s) => s.len(),
            Record::NavRecord(s) => s.len(),
            Record::MeteoRecord(s) => s.len(),
            Record::ClockRecord(s) => s.len(),
            Record::IonexRecord(s) => s.len(),
            Record::AntexRecord(s) => s.len(),
        }
    }

    /// Splits an epoch-keyed record at a boundary timestamp: entries
    /// strictly before it, then entries at or after it, both structurally
    /// independent copies.
    pub fn split_at(&self, d: i64) -> (r: (Record, Record))
        requires
            record_wf(self@),
            record_supports_split(self@),
        ensures
            record_wf(r.0@),
            record_wf(r.1@),
            record_split(self@, r.0@, r.1@, d),
    {
        match self {
            Record::ObsRecord(s) => {
                let (a, b) = s.split_at_date(d);
                (Record::ObsRecord(a), Record::ObsRecord(b))
            },
            Record::NavRecord(s) => {
                let (a, b) = s.split_at_date(d);
                (Record::NavRecord(a), Record::NavRecord(b))
            },
            Record::MeteoRecord(s) => {
                let (a, b) = s.split_at_date(d);
                (Record::MeteoRecord(a), Record::MeteoRecord(b))
            },
            Record::ClockRecord(_) | Record::IonexRecord(_) | Record::AntexRecord(_) => {
                proof {
                    assert(false);
                }
                (Record::default(), Record::default())
            },
        }
    }

    /// Keeps every `n`-th entry by ordinal position, whatever the variant.
    pub fn decimate_by_ratio(&self, n: u32) -> (r: Record)
        requires
            record_wf(self@),
            n >= 1,
            record_len(self@) + n <= usize::MAX,
        ensures
            record_wf(r@),
            record_ratio_decimated(self@, r@, n as int),
    {
        match self {
            Record::ObsRecord(s) => Record::ObsRecord(s.decimate_by_ratio(n)),
            Record::NavRecord(s) => Record::NavRecord(s.decimate_by_ratio(n)),
            Record::MeteoRecord(s) => Record::MeteoRecord(s.decimate_by_ratio(n)),
            Record::ClockRecord(s) => Record::ClockRecord(s.decimate_by_ratio(n)),
            Record::IonexRecord(s) => Record::IonexRecord(s.decimate_by_ratio(n)),
            Record::AntexRecord(s) => Record::AntexRecord(s.decimate_by_ratio(n)),
        }
    }

    /// Thins an epoch-keyed record greedily by a minimum gap in seconds.
    pub fn decimate_by_interval(&self, min_gap: u64) -> (r: Record)
        requires
            record_wf(self@),
            record_has_epochs(self@),
        ensures
            record_wf(r@),
            record_gap_decimated(self@, r@, min_gap as int),
    {
        match self {
            Record::ObsRecord(s) => Record::ObsRecord(s.decimate_by_interval(min_gap)),
            Record::NavRecord(s) => Record::NavRecord(s.decimate_by_interval(min_gap)),
            Record::MeteoRecord(s) => Record::MeteoRecord(s.decimate_by_interval(min_gap)),
            Record::IonexRecord(s) => Record::IonexRecord(s.decimate_by_interval(min_gap)),
            Record::ClockRecord(_) | Record::AntexRecord(_) => {
                proof {
                    assert(false);
                }
                (Record::default())
            },
        }
    }
}


/// In a well-formed record the epoch sequence ascends strictly.
pub proof fn lemma_record_epochs_sorted(r: RecordV)
    requires
        record_wf(r),
    ensures
        forall|a: int, b: int|
            #![trigger record_epoch_seq(r)[a], record_epoch_seq(r)[b]]
            0 <= a < b < record_epoch_seq(r).len() ==> record_epoch_seq(r)[a].date
                < record_epoch_seq(r)[b].date,
{
    let eps = record_epoch_seq(r);
    assert forall|a: int, b: int|
        #![trigger eps[a], eps[b]]
        0 <= a < b < eps.len() implies eps[a].date < eps[b].date by {
        match r {
            RecordV::ObsRecord(s) => {
                assert(eps[a] == s[a].0);
                assert(eps[b] == s[b].0);
            },
            RecordV::NavRecord(s) => {
                assert(eps[a] == s[a].0);
                assert(eps[b] == s[b].0);
            },
            RecordV::MeteoRecord(s) => {
                assert(eps[a] == s[a].0);
                assert(eps[b] == s[b].0);
            },
            RecordV::IonexRecord(s) => {
                assert(eps[a] == s[a].0);
                assert(eps[b] == s[b].0);
            },
            _ => {},
        }
    }
}

} // verus!
