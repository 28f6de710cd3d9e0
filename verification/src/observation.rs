//! Observation records: per epoch, an optional receiver-clock offset and,
//! per space vehicle, a map from observable code to one measurement.
//!
//! A measurement carries the raw value together with an optional loss-of-lock
//! indicator (a bit mask) and an optional signal-strength indicator. Values
//! are fixed-point integers in the unit the producer chose (distances in
//! nanometers pair with clock offsets in nanoseconds in the derived
//! computations); clock offsets are nanoseconds.
use vstd::prelude::*;

use crate::constellation::{sv_listed, constellation_listed, Constellation, Sv};
use crate::deepclone::DeepClone;
use crate::epoch::Epoch;
use crate::series::{sorted_by_date, TimeSeries};
use crate::strutil::str_listed;

verus! {

/// Loss-of-lock bit: lock was lost since the previous measurement.
pub const LLI_LOCK_LOSS: u8 = 0x01;

/// Loss-of-lock bit: opposite wavelength factor / half-cycle ambiguity.
pub const LLI_HALF_CYCLE_SLIP: u8 = 0x02;

/// Loss-of-lock bit: observation under anti-spoofing.
pub const LLI_UNDER_ANTI_SPOOFING: u8 = 0x04;

/// Signal-strength indicator, the coarse carrier-to-noise classes.
#[derive(Clone, Copy, Debug, PartialEq, Eq, Structural)]
pub enum Ssi {
    /// Unknown or unset signal strength.
    DbHz0,
    /// Strength under 12 dBc/Hz.
    DbHz12,
    /// Strength from 12 to under 18 dBc/Hz.
    DbHz12_17,
    /// Strength from 18 to under 24 dBc/Hz.
    DbHz18_23,
    /// Strength from 24 to under 30 dBc/Hz.
    DbHz24_29,
    /// Strength from 30 to under 36 dBc/Hz.
    DbHz30_35,
    /// Strength from 36 to under 42 dBc/Hz.
    DbHz36_41,
    /// Strength from 42 to under 48 dBc/Hz.
    DbHz42_47,
    /// Strength from 48 to under 54 dBc/Hz.
    DbHz48_53,
    /// Strength of 54 dBc/Hz or more.
    DbHz54,
}

impl Ssi {
    /// The rank of the strength class, zero for unknown up to nine for the
    /// strongest.
    pub open spec fn spec_level(&self) -> u8 {
        match self {
            Ssi::DbHz0 => 0,
            Ssi::DbHz12 => 1,
            Ssi::DbHz12_17 => 2,
            Ssi::DbHz18_23 => 3,
            Ssi::DbHz24_29 => 4,
            Ssi::DbHz30_35 => 5,
            Ssi::DbHz36_41 => 6,
            Ssi::DbHz42_47 => 7,
            Ssi::DbHz48_53 => 8,
            Ssi::DbHz54 => 9,
        }
    }

    /// Returns the rank of the strength class.
    #[verifier::when_used_as_spec(spec_level)]
    pub fn level(&self) -> (r: u8)
        ensures
            r == self.spec_level(),
    {
        match self {
            Ssi::DbHz0 => 0,
            Ssi::DbHz12 => 1,
            Ssi::DbHz12_17 => 2,
            Ssi::DbHz18_23 => 3,
            Ssi::DbHz24_29 => 4,
            Ssi::DbHz30_35 => 5,
            Ssi::DbHz36_41 => 6,
            Ssi::DbHz42_47 => 7,
            Ssi::DbHz48_53 => 8,
            Ssi::DbHz54 => 9,
        }
    }
}

impl Default for Ssi {
    /// The default strength is unknown.
    fn default() -> (r: Self)
        ensures
            r == Ssi::DbHz0,
    {
        Ssi::DbHz0
    }
}

/// One measurement: the raw value plus its optional quality indicators.
#[derive(Clone, Copy, Debug, PartialEq)]
pub struct ObservationData {
    /// The raw measured value, a fixed-point integer.
    pub obs: i64,
    /// The loss-of-lock indicator bits, when the receiver attached any.
    pub lli: Option<u8>,
    /// The signal-strength indicator, when the receiver attached one.
    pub ssi: Option<Ssi>,
}

impl View for ObservationData {
    type V = ObservationData;

    open spec fn view(&self) -> ObservationData {
        *self
    }
}

impl DeepView for ObservationData {
    type V = ObservationData;

    open spec fn deep_view(&self) -> ObservationData {
        *self
    }
}

impl DeepClone for ObservationData {
    fn deep_clone(&self) -> (r: Self) {
        *self
    }
}

impl ObservationData {
    /// Builds a measurement.
    pub fn new(obs: i64, lli: Option<u8>, ssi: Option<Ssi>) -> (r: Self)
        ensures
            r == (ObservationData { obs, lli, ssi }),
    {
        ObservationData { obs, lli, ssi }
    }
}

/// The model of one vehicle's observable map.
pub type ObsMapV = Seq<(Seq<char>, ObservationData)>;

/// The model of the per-vehicle part of one epoch's data.
pub type VehiclesV = Seq<(Sv, ObsMapV)>;

/// The model of one epoch's observation data.
pub type ObsEntryV = (Option<i64>, VehiclesV);

/// One epoch of an observation record: the optional receiver-clock offset
/// (nanoseconds) and, per vehicle, the map from observable code to
/// measurement.
#[derive(Debug)]
pub struct ObsEntry {
    /// The receiver-clock offset in nanoseconds, when the epoch carries one.
    pub clock_offset: Option<i64>,
    /// Per space vehicle, the observable-code-to-measurement map.
    pub vehicles: Vec<(Sv, Vec<(String, ObservationData)>)>,
}

impl View for ObsEntry {
    type V = ObsEntryV;

    open spec fn view(&self) -> ObsEntryV {
        (self.clock_offset, self.vehicles.deep_view())
    }
}

impl DeepView for ObsEntry {
    type V = ObsEntryV;

    open spec fn deep_view(&self) -> ObsEntryV {
        (self.clock_offset, self.vehicles.deep_view())
    }
}

impl DeepClone for ObsEntry {
    fn deep_clone(&self) -> (r: Self) {
        ObsEntry { clock_offset: self.clock_offset, vehicles: self.vehicles.deep_clone() }
    }
}

impl ObsEntry {
    /// Builds an epoch entry.
    pub fn new(clock_offset: Option<i64>, vehicles: Vec<(Sv, Vec<(String, ObservationData)>)>)
        -> (r: Self)
        ensures
            r.deep_view() == (clock_offset, vehicles.deep_view()),
    {
        ObsEntry { clock_offset, vehicles }
    }
}

/// Whether a measurement passes the loss-of-lock mask: an indicator must be
/// attached and intersect the mask; a measurement without an indicator never
/// passes.
pub open spec fn lli_keep(d: ObservationData, mask: u8) -> bool {
    match d.lli {
        Some(l) => (l & mask) != 0,
        None => false,
    }
}

/// Whether a measurement passes the minimum-strength bar: an indicator must
/// be attached and lie strictly above the minimum; a measurement without an
/// indicator never passes.
pub open spec fn ssi_keep(d: ObservationData, minimum: Ssi) -> bool {
    match d.ssi {
        Some(s) => s.spec_level() > minimum.spec_level(),
        None => false,
    }
}

/// An observable map filtered by the loss-of-lock mask.
pub open spec fn lli_masked_map(m: ObsMapV, mask: u8) -> ObsMapV {
    m.filter(|p: (Seq<char>, ObservationData)| lli_keep(p.1, mask))
}

/// An observable map filtered by the minimum-strength bar.
pub open spec fn ssi_min_map(m: ObsMapV, minimum: Ssi) -> ObsMapV {
    m.filter(|p: (Seq<char>, ObservationData)| ssi_keep(p.1, minimum))
}

/// An observable map filtered by an observable-code allow list.
pub open spec fn code_kept_map(m: ObsMapV, codes: Seq<Seq<char>>) -> ObsMapV {
    m.filter(|p: (Seq<char>, ObservationData)| str_listed(codes, p.0))
}

/// An epoch entry with every vehicle's map filtered by the loss-of-lock
/// mask.
pub open spec fn lli_masked_entry(e: ObsEntryV, mask: u8) -> ObsEntryV {
    (e.0, e.1.map_values(|sp: (Sv, ObsMapV)| (sp.0, lli_masked_map(sp.1, mask))))
}

/// An epoch entry with every vehicle's map filtered by the minimum-strength
/// bar.
pub open spec fn ssi_min_entry(e: ObsEntryV, minimum: Ssi) -> ObsEntryV {
    (e.0, e.1.map_values(|sp: (Sv, ObsMapV)| (sp.0, ssi_min_map(sp.1, minimum))))
}

/// An epoch entry with every vehicle's map filtered by an observable-code
/// allow list.
pub open spec fn code_kept_entry(e: ObsEntryV, codes: Seq<Seq<char>>) -> ObsEntryV {
    (e.0, e.1.map_values(|sp: (Sv, ObsMapV)| (sp.0, code_kept_map(sp.1, codes))))
}

/// An epoch entry keeping only vehicles named in the allow list.
pub open spec fn sv_kept_entry(e: ObsEntryV, allow: Seq<Sv>) -> ObsEntryV {
    (e.0, e.1.filter(|sp: (Sv, ObsMapV)| sv_listed(allow, sp.0)))
}

/// An epoch entry keeping only vehicles of a listed constellation.
pub open spec fn constellation_kept_entry(e: ObsEntryV, allow: Seq<Constellation>) -> ObsEntryV {
    (e.0, e.1.filter(|sp: (Sv, ObsMapV)| constellation_listed(allow, sp.0.constellation)))
}

/// Every measurement a loss-of-lock filter keeps carries an indicator that
/// intersects the mask; in particular one lacking an indicator is always
/// excluded.
pub proof fn lemma_lli_filter_drop_policy(m: ObsMapV, mask: u8)
    ensures
        forall|j: int|
            0 <= j < lli_masked_map(m, mask).len() ==> (#[trigger] lli_masked_map(m, mask)[j]).1.lli
                is Some && (lli_masked_map(m, mask)[j].1.lli->0 & mask) != 0,
{
    let pred = |p: (Seq<char>, ObservationData)| lli_keep(p.1, mask);
    assert forall|j: int|
        0 <= j < lli_masked_map(m, mask).len() implies (#[trigger] lli_masked_map(m, mask)[j]).1.lli
        is Some && (lli_masked_map(m, mask)[j].1.lli->0 & mask) != 0 by {
        m.lemma_filter_pred(pred, j);
    }
}

/// Every measurement a minimum-strength filter keeps carries an indicator
/// strictly above the minimum; in particular one lacking an indicator is
/// always excluded.
pub proof fn lemma_ssi_filter_drop_policy(m: ObsMapV, minimum: Ssi)
    ensures
        forall|j: int|
            0 <= j < ssi_min_map(m, minimum).len() ==> (#[trigger] ssi_min_map(m, minimum)[
            j]).1.ssi is Some && ssi_min_map(m, minimum)[j].1.ssi->0.spec_level()
                > minimum.spec_level(),
{
    let pred = |p: (Seq<char>, ObservationData)| ssi_keep(p.1, minimum);
    assert forall|j: int|
        0 <= j < ssi_min_map(m, minimum).len() implies (#[trigger] ssi_min_map(m, minimum)[
    j]).1.ssi is Some && ssi_min_map(m, minimum)[j].1.ssi->0.spec_level()
        > minimum.spec_level() by {
        m.lemma_filter_pred(pred, j);
    }
}

/// Filters one observable map by the loss-of-lock mask.
fn filter_map_lli(m: &Vec<(String, ObservationData)>, mask: u8) -> (r: Vec<
    (String, ObservationData),
>)
    ensures
        r.deep_view() == lli_masked_map(m.deep_view(), mask),
{
    let ghost pred = |p: (Seq<char>, ObservationData)| lli_keep(p.1, mask);
    let n = m.len();
    let mut out: Vec<(String, ObservationData)> = Vec::new();
    let mut i: usize = 0;
    proof {
        reveal(Seq::filter);
        assert(out.deep_view() =~= m.deep_view().take(0int).filter(pred));
    }
    while i < n
        invariant
            n == m@.len(),
            i <= n,
            out.deep_view() == m.deep_view().take(i as int).filter(pred),
            pred == (|p: (Seq<char>, ObservationData)| lli_keep(p.1, mask)),
        decreases n - i,
    {
        let p = &m[i];
        let ghost prefix = m.deep_view().take(i as int);
        let ghost elem = m.deep_view()[i as int];
        proof {
            reveal(Seq::filter);
            assert(m.deep_view().take(i + 1int).drop_last() =~= prefix);
            assert(m.deep_view().take(i + 1int).last() == elem);
        }
        let keep = match p.1.lli {
            Some(l) => (l & mask) != 0,
            None => false,
        };
        if keep {
            let ghost pre_dv = out.deep_view();
            out.push((p.0.clone(), p.1));
            proof {
                assert(pred(elem));
                assert(elem == (m@[i as int].0@, m@[i as int].1));
                assert(out.deep_view() =~= pre_dv.push(elem));
                assert(out.deep_view() =~= m.deep_view().take(i + 1int).filter(pred));
            }
        } else {
            proof {
                assert(!pred(elem));
                assert(out.deep_view() == m.deep_view().take(i + 1int).filter(pred));
            }
        }
        i += 1;
    }
    proof {
        assert(m.deep_view().take(n as int) =~= m.deep_view());
    }
    out
}

/// Filters one observable map by the minimum-strength bar.
fn filter_map_ssi(m: &Vec<(String, ObservationData)>, minimum: Ssi) -> (r: Vec<
    (String, ObservationData),
>)
    ensures
        r.deep_view() == ssi_min_map(m.deep_view(), minimum),
{
    let ghost pred = |p: (Seq<char>, ObservationData)| ssi_keep(p.1, minimum);
    let n = m.len();
    let mut out: Vec<(String, ObservationData)> = Vec::new();
    let mut i: usize = 0;
    proof {
        reveal(Seq::filter);
        assert(out.deep_view() =~= m.deep_view().take(0int).filter(pred));
    }
    while i < n
        invariant
            n == m@.len(),
            i <= n,
            out.deep_view() == m.deep_view().take(i as int).filter(pred),
            pred == (|p: (Seq<char>, ObservationData)| ssi_keep(p.1, minimum)),
        decreases n - i,
    {
        let p = &m[i];
        let ghost prefix = m.deep_view().take(i as int);
        let ghost elem = m.deep_view()[i as int];
        proof {
            reveal(Seq::filter);
            assert(m.deep_view().take(i + 1int).drop_last() =~= prefix);
            assert(m.deep_view().take(i + 1int).last() == elem);
        }
        let keep = match p.1.ssi {
            Some(s) => s.level() > minimum.level(),
            None => false,
        };
        if keep {
            let ghost pre_dv = out.deep_view();
            out.push((p.0.clone(), p.1));
            proof {
                assert(pred(elem));
                assert(elem == (m@[i as int].0@, m@[i as int].1));
                assert(out.deep_view() =~= pre_dv.push(elem));
                assert(out.deep_view() =~= m.deep_view().take(i + 1int).filter(pred));
            }
        } else {
            proof {
                assert(!pred(elem));
                assert(out.deep_view() == m.deep_view().take(i + 1int).filter(pred));
            }
        }
        i += 1;
    }
    proof {
        assert(m.deep_view().take(n as int) =~= m.deep_view());
    }
    out
}

/// Filters one observable map by an observable-code allow list.
fn filter_map_codes(m: &Vec<(String, ObservationData)>, codes: &Vec<String>) -> (r: Vec<
    (String, ObservationData),
>)
    ensures
        r.deep_view() == code_kept_map(m.deep_view(), codes.deep_view()),
{
    let ghost pred = |p: (Seq<char>, ObservationData)| str_listed(codes.deep_view(), p.0);
    let n = m.len();
    let mut out: Vec<(String, ObservationData)> = Vec::new();
    let mut i: usize = 0;
    proof {
        reveal(Seq::filter);
        assert(out.deep_view() =~= m.deep_view().take(0int).filter(pred));
    }
    while i < n
        invariant
            n == m@.len(),
            i <= n,
            out.deep_view() == m.deep_view().take(i as int).filter(pred),
            pred == (|p: (Seq<char>, ObservationData)| str_listed(codes.deep_view(), p.0)),
        decreases n - i,
    {
        let p = &m[i];
        let ghost prefix = m.deep_view().take(i as int);
        let ghost elem = m.deep_view()[i as int];
        proof {
            reveal(Seq::filter);
            assert(m.deep_view().take(i + 1int).drop_last() =~= prefix);
            assert(m.deep_view().take(i + 1int).last() == elem);
        }
        let keep = crate::strutil::str_list_contains(codes, p.0.as_str());
        if keep {
            let ghost pre_dv = out.deep_view();
            out.push((p.0.clone(), p.1));
            proof {
                assert(elem == (m@[i as int].0@, m@[i as int].1));
                assert(pred(elem));
                assert(out.deep_view() =~= pre_dv.push(elem));
                assert(out.deep_view() =~= m.deep_view().take(i + 1int).filter(pred));
            }
        } else {
            proof {
                assert(elem == (m@[i as int].0@, m@[i as int].1));
                assert(!pred(elem));
                assert(out.deep_view() == m.deep_view().take(i + 1int).filter(pred));
            }
        }
        i += 1;
    }
    proof {
        assert(m.deep_view().take(n as int) =~= m.deep_view());
    }
    out
}

/// Filters one epoch entry by the loss-of-lock mask.
pub fn lli_filter_entry(e: &ObsEntry, mask: u8) -> (r: ObsEntry)
    ensures
        r.deep_view() == lli_masked_entry(e.deep_view(), mask),
{
    let ghost f = |sp: (Sv, ObsMapV)| (sp.0, lli_masked_map(sp.1, mask));
    let n = e.vehicles.len();
    let mut vehicles: Vec<(Sv, Vec<(String, ObservationData)>)> = Vec::new();
    let mut i: usize = 0;
    proof {
        assert(vehicles.deep_view() =~= e.vehicles.deep_view().take(0int).map_values(f));
    }
    while i < n
        invariant
            n == e.vehicles@.len(),
            i <= n,
            vehicles.deep_view() == e.vehicles.deep_view().take(i as int).map_values(f),
            f == (|sp: (Sv, ObsMapV)| (sp.0, lli_masked_map(sp.1, mask))),
        decreases n - i,
    {
        let p = &e.vehicles[i];
        let filtered = filter_map_lli(&p.1, mask);
        let ghost pre_dv = vehicles.deep_view();
        vehicles.push((p.0, filtered));
        proof {
            let edv = e.vehicles.deep_view();
            assert(edv[i as int] == (e.vehicles@[i as int].0, e.vehicles@[i as int].1.deep_view()));
            assert(vehicles.deep_view() =~= pre_dv.push(f(edv[i as int])));
            assert(vehicles.deep_view() =~= edv.take(i + 1int).map_values(f));
        }
        i += 1;
    }
    proof {
        assert(e.vehicles.deep_view().take(n as int) =~= e.vehicles.deep_view());
    }
    ObsEntry { clock_offset: e.clock_offset, vehicles }
}

/// Filters one epoch entry by the minimum-strength bar.
pub fn ssi_filter_entry(e: &ObsEntry, minimum: Ssi) -> (r: ObsEntry)
    ensures
        r.deep_view() == ssi_min_entry(e.deep_view(), minimum),
{
    let ghost f = |sp: (Sv, ObsMapV)| (sp.0, ssi_min_map(sp.1, minimum));
    let n = e.vehicles.len();
    let mut vehicles: Vec<(Sv, Vec<(String, ObservationData)>)> = Vec::new();
    let mut i: usize = 0;
    proof {
        assert(vehicles.deep_view() =~= e.vehicles.deep_view().take(0int).map_values(f));
    }
    while i < n
        invariant
            n == e.vehicles@.len(),
            i <= n,
            vehicles.deep_view() == e.vehicles.deep_view().take(i as int).map_values(f),
            f == (|sp: (Sv, ObsMapV)| (sp.0, ssi_min_map(sp.1, minimum))),
        decreases n - i,
    {
        let p = &e.vehicles[i];
        let filtered = filter_map_ssi(&p.1, minimum);
        let ghost pre_dv = vehicles.deep_view();
        vehicles.push((p.0, filtered));
        proof {
            let edv = e.vehicles.deep_view();
            assert(edv[i as int] == (e.vehicles@[i as int].0, e.vehicles@[i as int].1.deep_view()));
            assert(vehicles.deep_view() =~= pre_dv.push(f(edv[i as int])));
            assert(vehicles.deep_view() =~= edv.take(i + 1int).map_values(f));
        }
        i += 1;
    }
    proof {
        assert(e.vehicles.deep_view().take(n as int) =~= e.vehicles.deep_view());
    }
    ObsEntry { clock_offset: e.clock_offset, vehicles }
}

/// Filters one epoch entry by an observable-code allow list.
pub fn code_filter_entry(e: &ObsEntry, codes: &Vec<String>) -> (r: ObsEntry)
    ensures
        r.deep_view() == code_kept_entry(e.deep_view(), codes.deep_view()),
{
    let ghost f = |sp: (Sv, ObsMapV)| (sp.0, code_kept_map(sp.1, codes.deep_view()));
    let n = e.vehicles.len();
    let mut vehicles: Vec<(Sv, Vec<(String, ObservationData)>)> = Vec::new();
    let mut i: usize = 0;
    proof {
        assert(vehicles.deep_view() =~= e.vehicles.deep_view().take(0int).map_values(f));
    }
    while i < n
        invariant
            n == e.vehicles@.len(),
            i <= n,
            vehicles.deep_view() == e.vehicles.deep_view().take(i as int).map_values(f),
            f == (|sp: (Sv, ObsMapV)| (sp.0, code_kept_map(sp.1, codes.deep_view()))),
        decreases n - i,
    {
        let p = &e.vehicles[i];
        let filtered = filter_map_codes(&p.1, codes);
        let ghost pre_dv = vehicles.deep_view();
        vehicles.push((p.0, filtered));
        proof {
            let edv = e.vehicles.deep_view();
            assert(edv[i as int] == (e.vehicles@[i as int].0, e.vehicles@[i as int].1.deep_view()));
            assert(vehicles.deep_view() =~= pre_dv.push(f(edv[i as int])));
            assert(vehicles.deep_view() =~= edv.take(i + 1int).map_values(f));
        }
        i += 1;
    }
    proof {
        assert(e.vehicles.deep_view().take(n as int) =~= e.vehicles.deep_view());
    }
    ObsEntry { clock_offset: e.clock_offset, vehicles }
}

/// Filters one epoch entry down to the vehicles named in the allow list.
pub fn sv_filter_entry(e: &ObsEntry, allow: &Vec<Sv>) -> (r: ObsEntry)
    ensures
        r.deep_view() == sv_kept_entry(e.deep_view(), allow.deep_view()),
{
    let ghost pred = |sp: (Sv, ObsMapV)| sv_listed(allow.deep_view(), sp.0);
    let n = e.vehicles.len();
    let mut vehicles: Vec<(Sv, Vec<(String, ObservationData)>)> = Vec::new();
    let mut i: usize = 0;
    proof {
        reveal(Seq::filter);
        assert(vehicles.deep_view() =~= e.vehicles.deep_view().take(0int).filter(pred));
    }
    while i < n
        invariant
            n == e.vehicles@.len(),
            i <= n,
            vehicles.deep_view() == e.vehicles.deep_view().take(i as int).filter(pred),
            pred == (|sp: (Sv, ObsMapV)| sv_listed(allow.deep_view(), sp.0)),
        decreases n - i,
    {
        let p = &e.vehicles[i];
        let ghost edv = e.vehicles.deep_view();
        let ghost elem = edv[i as int];
        proof {
            reveal(Seq::filter);
            assert(edv.take(i + 1int).drop_last() =~= edv.take(i as int));
            assert(edv.take(i + 1int).last() == elem);
            assert(elem == (e.vehicles@[i as int].0, e.vehicles@[i as int].1.deep_view()));
        }
        let keep = crate::constellation::sv_list_contains(allow, p.0);
        if keep {
            let cloned = p.1.deep_clone();
            let ghost pre_dv = vehicles.deep_view();
            vehicles.push((p.0, cloned));
            proof {
                assert(pred(elem));
                assert(vehicles.deep_view() =~= pre_dv.push(elem));
                assert(vehicles.deep_view() =~= edv.take(i + 1int).filter(pred));
            }
        } else {
            proof {
                assert(!pred(elem));
                assert(vehicles.deep_view() == edv.take(i + 1int).filter(pred));
            }
        }
        i += 1;
    }
    proof {
        assert(e.vehicles.deep_view().take(n as int) =~= e.vehicles.deep_view());
    }
    ObsEntry { clock_offset: e.clock_offset, vehicles }
}

/// Filters one epoch entry down to the vehicles of a listed constellation.
pub fn constellation_filter_entry(e: &ObsEntry, allow: &Vec<Constellation>) -> (r: ObsEntry)
    ensures
        r.deep_view() == constellation_kept_entry(e.deep_view(), allow.deep_view()),
{
    let ghost pred = |sp: (Sv, ObsMapV)| constellation_listed(allow.deep_view(), sp.0.constellation);
    let n = e.vehicles.len();
    let mut vehicles: Vec<(Sv, Vec<(String, ObservationData)>)> = Vec::new();
    let mut i: usize = 0;
    proof {
        reveal(Seq::filter);
        assert(vehicles.deep_view() =~= e.vehicles.deep_view().take(0int).filter(pred));
    }
    while i < n
        invariant
            n == e.vehicles@.len(),
            i <= n,
            vehicles.deep_view() == e.vehicles.deep_view().take(i as int).filter(pred),
            pred == (|sp: (Sv, ObsMapV)| constellation_listed(
                allow.deep_view(),
                sp.0.constellation,
            )),
        decreases n - i,
    {
        let p = &e.vehicles[i];
        let ghost edv = e.vehicles.deep_view();
        let ghost elem = edv[i as int];
        proof {
            reveal(Seq::filter);
            assert(edv.take(i + 1int).drop_last() =~= edv.take(i as int));
            assert(edv.take(i + 1int).last() == elem);
            assert(elem == (e.vehicles@[i as int].0, e.vehicles@[i as int].1.deep_view()));
        }
        let keep = crate::constellation::constellation_list_contains(allow, p.0.constellation);
        if keep {
            let cloned = p.1.deep_clone();
            let ghost pre_dv = vehicles.deep_view();
            vehicles.push((p.0, cloned));
            proof {
                assert(pred(elem));
                assert(vehicles.deep_view() =~= pre_dv.push(elem));
                assert(vehicles.deep_view() =~= edv.take(i + 1int).filter(pred));
            }
        } else {
            proof {
                assert(!pred(elem));
                assert(vehicles.deep_view() == edv.take(i + 1int).filter(pred));
            }
        }
        i += 1;
    }
    proof {
        assert(e.vehicles.deep_view().take(n as int) =~= e.vehicles.deep_view());
    }
    ObsEntry { clock_offset: e.clock_offset, vehicles }
}


/// Which per-entry filter to run over an observation series.
pub enum ObsFilter<'a> {
    /// Keep measurements whose loss-of-lock bits intersect the mask.
    LliMask(u8),
    /// Keep measurements strictly above the minimum strength.
    MinSsi(Ssi),
    /// Keep measurements whose observable code the list names.
    Codes(&'a Vec<String>),
    /// Keep the vehicles the list names.
    Vehicles(&'a Vec<Sv>),
    /// Keep the vehicles of a listed constellation.
    Constellations(&'a Vec<Constellation>),
}

impl<'a> ObsFilter<'a> {
    /// What the filter does to one epoch entry.
    pub open spec fn apply_spec(self, e: ObsEntryV) -> ObsEntryV {
        match self {
            ObsFilter::LliMask(m) => lli_masked_entry(e, m),
            ObsFilter::MinSsi(s) => ssi_min_entry(e, s),
            ObsFilter::Codes(c) => code_kept_entry(e, c.deep_view()),
            ObsFilter::Vehicles(v) => sv_kept_entry(e, v.deep_view()),
            ObsFilter::Constellations(c) => constellation_kept_entry(e, c.deep_view()),
        }
    }

    /// Runs the filter on one epoch entry.
    pub fn apply(&self, e: &ObsEntry) -> (r: ObsEntry)
        ensures
            r.deep_view() == self.apply_spec(e.deep_view()),
    {
        match self {
            ObsFilter::LliMask(m) => lli_filter_entry(e, *m),
            ObsFilter::MinSsi(s) => ssi_filter_entry(e, *s),
            ObsFilter::Codes(c) => code_filter_entry(e, c),
            ObsFilter::Vehicles(v) => sv_filter_entry(e, v),
            ObsFilter::Constellations(c) => constellation_filter_entry(e, c),
        }
    }
}

/// The whole observation series with the filter applied to every epoch
/// entry; the epochs themselves stay untouched.
pub open spec fn obs_series_filtered(s: Seq<(Epoch, ObsEntryV)>, f: ObsFilter<'_>) -> Seq<
    (Epoch, ObsEntryV),
> {
    s.map_values(|p: (Epoch, ObsEntryV)| (p.0, f.apply_spec(p.1)))
}

/// Applies a per-entry filter across a whole observation series, as a
/// structurally independent copy; epochs and their order stay untouched.
pub fn filter_obs_series(rec: &TimeSeries<ObsEntry>, f: &ObsFilter<'_>) -> (r: TimeSeries<
    ObsEntry,
>)
    requires
        rec.wf(),
    ensures
        r.wf(),
        r@ == obs_series_filtered(rec@, *f),
{
    let ghost fm = |p: (Epoch, ObsEntryV)| (p.0, f.apply_spec(p.1));
    let n = rec.len();
    let mut out: Vec<(Epoch, ObsEntry)> = Vec::new();
    let mut i: usize = 0;
    proof {
        assert(out.deep_view() =~= rec@.take(0int).map_values(fm));
    }
    while i < n
        invariant
            rec.wf(),
            n == rec@.len(),
            i <= n,
            out.deep_view() == rec@.take(i as int).map_values(fm),
            fm == (|p: (Epoch, ObsEntryV)| (p.0, f.apply_spec(p.1))),
        decreases n - i,
    {
        let p = rec.get(i);
        let fe = f.apply(&p.1);
        let ghost pre = out.deep_view();
        out.push((p.0, fe));
        proof {
            assert(out.deep_view() =~= pre.push(fm(rec@[i as int])));
            assert(out.deep_view() =~= rec@.take(i + 1int).map_values(fm));
        }
        i += 1;
    }
    proof {
        assert(rec@.take(n as int) =~= rec@);
        let od = out.deep_view();
        assert(sorted_by_date(od)) by {
            assert forall|x: int, y: int|
                #![trigger od[x], od[y]]
                0 <= x < y < od.len() implies od[x].0.date < od[y].0.date by {
                assert(od[x].0 == rec@[x].0);
                assert(od[y].0 == rec@[y].0);
            }
        }
    }
    TimeSeries::from_parts(out)
}


/// The drop policy across a whole filtered series: after the loss-of-lock
/// filter, every retained measurement of every epoch and vehicle carries an
/// indicator intersecting the mask; a measurement without one is never
/// retained.
pub proof fn lemma_lli_series_drop_policy(s: Seq<(Epoch, ObsEntryV)>, mask: u8)
    ensures
        ({
            let f = obs_series_filtered(s, ObsFilter::LliMask(mask));
            forall|i: int, v: int, j: int|
                0 <= i < f.len() && 0 <= v < f[i].1.1.len() && 0 <= j < f[i].1.1[v].1.len()
                    ==> lli_keep((#[trigger] f[i].1.1[v].1[j]).1, mask) && f[i].1.1[v].1[j].1.lli
                    is Some
        }),
{
    let f = obs_series_filtered(s, ObsFilter::LliMask(mask));
    assert forall|i: int, v: int, j: int|
        0 <= i < f.len() && 0 <= v < f[i].1.1.len() && 0 <= j < f[i].1.1[v].1.len() implies
        lli_keep((#[trigger] f[i].1.1[v].1[j]).1, mask) && f[i].1.1[v].1[j].1.lli is Some by {
        assert(f[i] == (s[i].0, lli_masked_entry(s[i].1, mask)));
        assert(f[i].1.1[v] == (s[i].1.1[v].0, lli_masked_map(s[i].1.1[v].1, mask)));
        lemma_lli_filter_drop_policy(s[i].1.1[v].1, mask);
    }
}

/// The drop policy across a whole filtered series: after the
/// minimum-strength filter, every retained measurement of every epoch and
/// vehicle carries an indicator strictly above the minimum; a measurement
/// without one is never retained.
pub proof fn lemma_ssi_series_drop_policy(s: Seq<(Epoch, ObsEntryV)>, minimum: Ssi)
    ensures
        ({
            let f = obs_series_filtered(s, ObsFilter::MinSsi(minimum));
            forall|i: int, v: int, j: int|
                0 <= i < f.len() && 0 <= v < f[i].1.1.len() && 0 <= j < f[i].1.1[v].1.len()
                    ==> ssi_keep((#[trigger] f[i].1.1[v].1[j]).1, minimum) && f[i].1.1[v].1[
                    j].1.ssi is Some
        }),
{
    let f = obs_series_filtered(s, ObsFilter::MinSsi(minimum));
    assert forall|i: int, v: int, j: int|
        0 <= i < f.len() && 0 <= v < f[i].1.1.len() && 0 <= j < f[i].1.1[v].1.len() implies
        ssi_keep((#[trigger] f[i].1.1[v].1[j]).1, minimum) && f[i].1.1[v].1[j].1.ssi is Some by {
        assert(f[i] == (s[i].0, ssi_min_entry(s[i].1, minimum)));
        assert(f[i].1.1[v] == (s[i].1.1[v].0, ssi_min_map(s[i].1.1[v].1, minimum)));
        lemma_ssi_filter_drop_policy(s[i].1.1[v].1, minimum);
    }
}

} // verus!
