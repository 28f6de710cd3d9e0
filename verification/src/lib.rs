//! Analysis and manipulation of GNSS receiver records: an epoch-indexed
//! record model with merge / split / decimation / filtering operations and
//! a derived-observable computation layer.
//!
//! A [`Rinex`](Rinex) pairs a parsed header projection with an
//! already-decoded record; every operation here either mutates it in place
//! or hands back a structurally independent copy, and every operation keeps
//! the record's epochs strictly ascending.
use vstd::prelude::*;

pub mod antex;
pub mod channel;
pub mod civil;
pub mod clocks;
pub mod combination;
pub mod constellation;
pub mod deepclone;
pub mod epoch;
pub mod header;
pub mod ionex;
pub mod marker;
pub mod meteo;
pub mod navigation;
pub mod observation;
pub mod processing;
pub mod record;
pub mod series;
pub mod strutil;
pub mod types;

use crate::civil::CivilTime;
use crate::deepclone::DeepClone;
use crate::epoch::{Epoch, EpochFlag};
use crate::header::Header;
use crate::marker::{boundaries_of, marker_comment, marker_comment_seq, scan_boundaries};
use crate::constellation::{spec_three_letter_code, Constellation, Sv};
use crate::navigation::{nav_series_filtered, filter_nav_series, EphFrameV, FrameV, IonMessage, NavEntryV, NavFilter};
use crate::observation::{filter_obs_series, obs_series_filtered, ObsEntryV, ObsFilter, Ssi};
use crate::clocks::clock_series_filtered;
use crate::meteo::meteo_series_filtered;
use crate::processing::{
    distance_table, eph_offset, eph_triplet, iono_table, ion_table, ion_table_of, nav_offsets_table,
    nav_sv_table, nav_triplets_table, obs_class_table, obs_class_table_of, sto_table, sto_table_of,
    distance_table_of, iono_table_of,
};
use crate::record::{
    record_epoch_seq, record_gap_decimated, record_has_epochs, record_len, record_matches_type,
    record_ratio_decimated, record_split, record_supports_split, record_wf, record_window,
    Comments, Record, RecordV,
};
use crate::series::{entry_of, has_date, sorted_by_date, TimeSeries};
use crate::strutil::{contains_seq, contains_sub};
use crate::types::Type;

verus! {

/// A merge was asked of two files that may not be combined.
#[derive(Clone, Copy, Debug, PartialEq, Eq, Structural)]
pub enum MergeError {
    /// The two headers announce different record kinds.
    HeaderMismatch,
}

impl MergeError {
    /// A short description of the failure.
    pub fn message(&self) -> (r: &'static str)
        ensures
            r@ == "headers cannot be merged"@,
    {
        "headers cannot be merged"
    }
}

/// A split boundary fell outside the recorded time span.
#[derive(Clone, Copy, Debug, PartialEq, Eq, Structural)]
pub enum SplitError {
    /// The boundary precedes every recorded epoch.
    EpochTooEarly,
    /// The boundary follows every recorded epoch.
    EpochTooLate,
}

impl SplitError {
    /// A short description of the failure.
    pub fn message(&self) -> (r: &'static str)
        ensures
            (*self is EpochTooEarly) ==> r@ == "desired epoch is too early"@,
            (*self is EpochTooLate) ==> r@ == "desired epoch is too late"@,
    {
        match self {
            SplitError::EpochTooEarly => "desired epoch is too early",
            SplitError::EpochTooLate => "desired epoch is too late",
        }
    }
}

/// Returns whether a line is a comment line: it carries the comment label.
pub fn is_comment(line: &str) -> (r: bool)
    ensures
        r == contains_seq(line@, "COMMENT"@),
{
    contains_sub(line, "COMMENT")
}

/// The file-name session character of an hour of day: `a` for the first
/// hour up to `w` for the second-to-last, and `x` for the last.
pub open spec fn spec_hourly_session(h: u8) -> Seq<char> {
    if h == 23 {
        seq!['x']
    } else {
        seq![((h + 0x61) as char)]
    }
}

/// Returns the file-name session character of an hour of day.
pub fn hourly_session_str(h: u8) -> (r: String)
    requires
        h <= 23,
    ensures
        r@ == spec_hourly_session(h),
{
    let mut out = String::new();
    if h == 23 {
        crate::strutil::push_char(&mut out, 'x');
    } else {
        crate::strutil::push_char(&mut out, (h + 0x61) as char);
    }
    proof {
        assert(out@ =~= spec_hourly_session(h));
    }
    out
}

/// How a merged series relates to its two inputs: the timestamps are the
/// union; a timestamp the incoming series carries takes the incoming value
/// (last writer wins) while a colliding epoch key keeps its stored flag; a
/// timestamp only the original carries keeps its entry.
pub open spec fn merged_series<VV>(
    c: Seq<(Epoch, VV)>,
    a: Seq<(Epoch, VV)>,
    b: Seq<(Epoch, VV)>,
) -> bool {
    &&& sorted_by_date(c)
    &&& forall|d: i64| #[trigger] has_date(c, d) <==> (has_date(a, d) || has_date(b, d))
    &&& forall|d: i64|
        #[trigger] has_date(b, d) ==> entry_of(c, d).1 == entry_of(b, d).1 && entry_of(c, d).0
            == (if has_date(a, d) {
            entry_of(a, d).0
        } else {
            entry_of(b, d).0
        })
    &&& forall|d: i64|
        !has_date(b, d) && #[trigger] has_date(a, d) ==> entry_of(c, d) == entry_of(a, d)
}

/// How a merged record relates to its two inputs, variant by variant.
pub open spec fn record_merged(c: RecordV, a: RecordV, b: RecordV) -> bool {
    match (c, a, b) {
        (RecordV::ObsRecord(cc), RecordV::ObsRecord(aa), RecordV::ObsRecord(bb)) => merged_series(
            cc,
            aa,
            bb,
        ),
        (RecordV::NavRecord(cc), RecordV::NavRecord(aa), RecordV::NavRecord(bb)) => merged_series(
            cc,
            aa,
            bb,
        ),
        (
            RecordV::MeteoRecord(cc),
            RecordV::MeteoRecord(aa),
            RecordV::MeteoRecord(bb),
        ) => merged_series(cc, aa, bb),
        (
            RecordV::IonexRecord(cc),
            RecordV::IonexRecord(aa),
            RecordV::IonexRecord(bb),
        ) => merged_series(cc, aa, bb),
        _ => false,
    }
}

/// The epochs the gap scan flags: an epoch is a gap epoch when it sits more
/// than the sampling interval after the last well-sampled epoch (which
/// starts at `last` and advances only over well-sampled epochs).
pub open spec fn gap_epochs_from(eps: Seq<Epoch>, last: int, iv: int) -> Seq<Epoch>
    decreases eps.len(),
{
    if eps.len() == 0 {
        Seq::empty()
    } else if eps[0].date - last <= iv {
        gap_epochs_from(eps.skip(1), eps[0].date as int, iv)
    } else {
        seq![eps[0]] + gap_epochs_from(eps.skip(1), last, iv)
    }
}

/// A file as the record engine sees it: the header projection, the comment
/// ledger extracted alongside the record, and the record itself.
#[derive(Debug)]
pub struct Rinex {
    /// The parsed header projection.
    pub header: Header,
    /// Comments found in the record section, by epoch.
    pub comments: Comments,
    /// The record body; its variant matches the header's record kind.
    pub record: Record,
}

impl DeepClone for Rinex {
    fn deep_clone(&self) -> (r: Self) {
        Rinex {
            header: self.header.deep_clone(),
            comments: self.comments.deep_clone(),
            record: self.record.deep_clone(),
        }
    }
}

impl View for Rinex {
    type V = (crate::header::HeaderV, Seq<(Epoch, Seq<Seq<char>>)>, RecordV);

    open spec fn view(&self) -> (crate::header::HeaderV, Seq<(Epoch, Seq<Seq<char>>)>, RecordV) {
        (self.header@, self.comments@, self.record@)
    }
}

impl DeepView for Rinex {
    type V = (crate::header::HeaderV, Seq<(Epoch, Seq<Seq<char>>)>, RecordV);

    open spec fn deep_view(&self) -> (
        crate::header::HeaderV,
        Seq<(Epoch, Seq<Seq<char>>)>,
        RecordV,
    ) {
        self.view()
    }
}

impl Default for Rinex {
    /// A default file: a default header over an empty observation record.
    fn default() -> (r: Self)
        ensures
            r.wf(),
            r.record@ == RecordV::ObsRecord(Seq::<(Epoch, ObsEntryV)>::empty()),
    {
        Rinex { header: Header::default(), comments: TimeSeries::new(), record: Record::default() }
    }
}

impl Rinex {
    /// The structural invariant: the record and the comment ledger keep
    /// their epochs strictly ascending, and the record variant matches the
    /// kind the header announces.
    pub open spec fn wf(&self) -> bool {
        &&& record_wf(self.record@)
        &&& sorted_by_date(self.comments@)
        &&& record_matches_type(self.record@, self.header@.rinex_type)
    }

    /// Builds a file from a header and a record; the comment ledger starts
    /// empty.
    pub fn new(header: Header, record: Record) -> (r: Rinex)
        requires
            record_wf(record@),
            record_matches_type(record@, header@.rinex_type),
        ensures
            r.wf(),
            r.header@ == header@,
            r.record@ == record@,
            r.comments@ == Seq::<(Epoch, Seq<Seq<char>>)>::empty(),
    {
        Rinex { header, record, comments: TimeSeries::new() }
    }

    /// A copy of this file under another header.
    pub fn with_header(&self, header: Header) -> (r: Rinex)
        requires
            self.wf(),
            record_matches_type(self.record@, header@.rinex_type),
        ensures
            r.wf(),
            r.header@ == header@,
            r.record@ == self.record@,
            r.comments@ == self.comments@,
    {
        Rinex {
            header,
            record: self.record.deep_clone(),
            comments: self.comments.deep_clone(),
        }
    }

    /// Returns whether this file carries antenna calibrations.
    pub fn is_antex_rinex(&self) -> (r: bool)
        ensures
            r == (self.header@.rinex_type == Type::AntennaData),
    {
        self.header.rinex_type == Type::AntennaData
    }

    /// Returns whether this file carries clock data.
    pub fn is_clocks_rinex(&self) -> (r: bool)
        ensures
            r == (self.header@.rinex_type == Type::ClockData),
    {
        self.header.rinex_type == Type::ClockData
    }

    /// Returns whether this file carries ionosphere maps.
    pub fn is_ionex(&self) -> (r: bool)
        ensures
            r == (self.header@.rinex_type == Type::IonosphereMaps),
    {
        self.header.rinex_type == Type::IonosphereMaps
    }

    /// Returns whether this file carries meteo data.
    pub fn is_meteo_rinex(&self) -> (r: bool)
        ensures
            r == (self.header@.rinex_type == Type::MeteoData),
    {
        self.header.rinex_type == Type::MeteoData
    }

    /// Returns whether this file carries navigation data.
    pub fn is_navigation_rinex(&self) -> (r: bool)
        ensures
            r == (self.header@.rinex_type == Type::NavigationData),
    {
        self.header.rinex_type == Type::NavigationData
    }

    /// Returns whether this file carries observation data.
    pub fn is_observation_rinex(&self) -> (r: bool)
        ensures
            r == (self.header@.rinex_type == Type::ObservationData),
    {
        self.header.rinex_type == Type::ObservationData
    }

    /// The ordered epoch list of an epoch-keyed record.
    pub fn epochs(&self) -> (r: Vec<Epoch>)
        requires
            self.wf(),
            record_has_epochs(self.record@),
        ensures
            r@ == record_epoch_seq(self.record@),
    {
        self.record.epochs()
    }

    /// The earliest recorded epoch, when the record holds one.
    pub fn first_epoch(&self) -> (r: Option<Epoch>)
        requires
            self.wf(),
            record_has_epochs(self.record@),
        ensures
            match r {
                Some(e) => record_epoch_seq(self.record@).len() > 0 && e == record_epoch_seq(
                    self.record@,
                )[0],
                None => record_epoch_seq(self.record@).len() == 0,
            },
    {
        let eps = self.epochs();
        if eps.len() == 0 {
            None
        } else {
            Some(eps[0])
        }
    }

    /// The latest recorded epoch, when the record holds one.
    pub fn last_epoch(&self) -> (r: Option<Epoch>)
        requires
            self.wf(),
            record_has_epochs(self.record@),
        ensures
            match r {
                Some(e) => record_epoch_seq(self.record@).len() > 0 && e == record_epoch_seq(
                    self.record@,
                ).last(),
                None => record_epoch_seq(self.record@).len() == 0,
            },
    {
        let eps = self.epochs();
        if eps.len() == 0 {
            None
        } else {
            Some(eps[eps.len() - 1])
        }
    }

    /// The epochs that present a data gap: each epoch more than the header's
    /// sampling interval after the last well-sampled epoch, the scan starting
    /// at the first recorded epoch. Returns nothing when the header names no
    /// interval.
    pub fn data_gap(&self) -> (r: Vec<Epoch>)
        requires
            self.wf(),
            record_has_epochs(self.record@),
            self.header@.sampling_interval is Some ==> record_epoch_seq(self.record@).len() > 0,
        ensures
            match self.header@.sampling_interval {
                Some(iv) => r@ == gap_epochs_from(
                    record_epoch_seq(self.record@),
                    record_epoch_seq(self.record@)[0].date as int,
                    iv as int,
                ),
                None => r@ == Seq::<Epoch>::empty(),
            },
    {
        let iv: u64 = match self.header.sampling_interval {
            Some(v) => v,
            None => {
                let r: Vec<Epoch> = Vec::new();
                proof {
                    assert(r@ =~= Seq::<Epoch>::empty());
                }
                return r;
            },
        };
        let eps = self.epochs();
        let ghost full = record_epoch_seq(self.record@);
        let n = eps.len();
        let mut out: Vec<Epoch> = Vec::new();
        let mut last: i64 = eps[0].date;
        let mut i: usize = 0;
        proof {
            assert(full.skip(0) =~= full);
        }
        while i < n
            invariant
                n == full.len(),
                eps@ == full,
                i <= n,
                out@ + gap_epochs_from(full.skip(i as int), last as int, iv as int)
                    == gap_epochs_from(full, full[0].date as int, iv as int),
            decreases n - i,
        {
            let ghost rest = full.skip(i as int);
            proof {
                assert(rest[0] == full[i as int]);
                assert(rest.skip(1) =~= full.skip(i + 1int));
            }
            let e = eps[i];
            let well_sampled = (e.date as i128) - (last as i128) <= (iv as i128);
            if well_sampled {
                proof {
                    assert(out@ + gap_epochs_from(full.skip(i + 1int), e.date as int, iv as int)
                        == gap_epochs_from(full, full[0].date as int, iv as int));
                }
                last = e.date;
            } else {
                let ghost pre = out@;
                out.push(e);
                proof {
                    assert(out@ + gap_epochs_from(full.skip(i + 1int), last as int, iv as int)
                        =~= pre + (seq![full[i as int]] + gap_epochs_from(
                        full.skip(i + 1int),
                        last as int,
                        iv as int,
                    )));
                }
            }
            i += 1;
        }
        proof {
            assert(full.skip(n as int) =~= Seq::<Epoch>::empty());
            assert(out@ + Seq::<Epoch>::empty() =~= out@);
        }
        out
    }

    /// The epochs that carry an anomaly flag, optionally narrowed to one
    /// anomaly kind.
    pub fn epoch_anomalies(&self, mask: Option<EpochFlag>) -> (r: Vec<Epoch>)
        requires
            self.wf(),
            record_has_epochs(self.record@),
        ensures
            r@ == record_epoch_seq(self.record@).filter(
                |e: Epoch|
                    !e.flag.spec_is_ok() && (match mask {
                        Some(m) => e.flag == m,
                        None => true,
                    }),
            ),
    {
        let ghost pred = |e: Epoch|
            !e.flag.spec_is_ok() && (match mask {
                Some(m) => e.flag == m,
                None => true,
            });
        let eps = self.epochs();
        let ghost full = record_epoch_seq(self.record@);
        let n = eps.len();
        let mut out: Vec<Epoch> = Vec::new();
        let mut i: usize = 0;
        proof {
            reveal(Seq::filter);
            assert(out@ =~= full.take(0int).filter(pred));
        }
        while i < n
            invariant
                n == full.len(),
                eps@ == full,
                i <= n,
                out@ == full.take(i as int).filter(pred),
                pred == (|e: Epoch|
                    !e.flag.spec_is_ok() && (match mask {
                        Some(m) => e.flag == m,
                        None => true,
                    })),
            decreases n - i,
        {
            let ghost elem = full[i as int];
            proof {
                reveal(Seq::filter);
                assert(full.take(i + 1int).drop_last() =~= full.take(i as int));
                assert(full.take(i + 1int).last() == elem);
            }
            let e = eps[i];
            let keep = !e.flag.is_ok() && (match mask {
                Some(m) => e.flag == m,
                None => true,
            });
            if keep {
                let ghost pre = out@;
                out.push(e);
                proof {
                    assert(pred(elem));
                    assert(out@ =~= full.take(i + 1int).filter(pred));
                }
            } else {
                proof {
                    assert(!pred(elem));
                    assert(out@ == full.take(i + 1int).filter(pred));
                }
            }
            i += 1;
        }
        proof {
            assert(full.take(n as int) =~= full);
        }
        out
    }

    /// The first comment recorded exactly at the given epoch (timestamp and
    /// flag), when there is one.
    pub fn event_description(&self, event: Epoch) -> (r: Option<String>)
        requires
            self.wf(),
        ensures
            match r {
                Some(s) => has_date(self.comments@, event.date) && entry_of(
                    self.comments@,
                    event.date,
                ).0 == event && entry_of(self.comments@, event.date).1.len() > 0 && s@ == entry_of(
                    self.comments@,
                    event.date,
                ).1[0],
                None => !(has_date(self.comments@, event.date) && entry_of(
                    self.comments@,
                    event.date,
                ).0 == event && entry_of(self.comments@, event.date).1.len() > 0),
            },
    {
        let n = self.comments.len();
        let mut i: usize = 0;
        while i < n
            invariant
                self.wf(),
                n == self.comments@.len(),
                i <= n,
                forall|k: int| 0 <= k < i ==> (#[trigger] self.comments@[k]).0.date != event.date,
            decreases n - i,
        {
            let p = self.comments.get(i);
            if p.0.date == event.date {
                proof {
                    assert(self.comments@[i as int].0.date == event.date);
                    assert(has_date(self.comments@, event.date));
                    crate::series::lemma_date_index(self.comments@, event.date);
                    assert(crate::series::date_index(self.comments@, event.date) == i as int);
                }
                if p.0.flag == event.flag && p.1.len() > 0 {
                    proof {
                        assert(entry_of(self.comments@, event.date).0 == event);
                        assert(entry_of(self.comments@, event.date).1[0] == p.1@[0]@);
                    }
                    return Some(p.1[0].clone());
                } else {
                    return None;
                }
            }
            i += 1;
        }
        proof {
            if has_date(self.comments@, event.date) {
                let k = choose|k: int|
                    0 <= k < self.comments@.len() && (#[trigger] self.comments@[k]).0.date
                        == event.date;
                assert(false);
            }
        }
        None
    }

    /// Returns whether this file was produced by merging: some record
    /// comment, or some header comment (where a merge stamps its marker),
    /// carries the merge label.
    pub fn is_merged(&self) -> (r: bool)
        requires
            self.wf(),
        ensures
            r == ((exists|i: int, j: int|
                0 <= i < self.comments@.len() && 0 <= j < (#[trigger] self.comments@[i]).1.len()
                    && contains_seq(#[trigger] self.comments@[i].1[j], "FILE MERGE"@)) || (
            exists|i: int|
                0 <= i < self.header@.comments.len() && contains_seq(
                    #[trigger] self.header@.comments[i],
                    "FILE MERGE"@,
                ))),
    {
        let n = self.comments.len();
        let mut i: usize = 0;
        while i < n
            invariant
                self.wf(),
                n == self.comments@.len(),
                i <= n,
                forall|k: int, j: int|
                    0 <= k < i && 0 <= j < (#[trigger] self.comments@[k]).1.len()
                        ==> !contains_seq(#[trigger] self.comments@[k].1[j], "FILE MERGE"@),
            decreases n - i,
        {
            let p = self.comments.get(i);
            let m = p.1.len();
            let mut j: usize = 0;
            while j < m
                invariant
                    self.wf(),
                    n == self.comments@.len(),
                    i < n,
                    m == self.comments@[i as int].1.len(),
                    p.1.deep_view() == self.comments@[i as int].1,
                    m == p.1@.len(),
                    j <= m,
                    forall|t: int|
                        0 <= t < j ==> !contains_seq(
                            #[trigger] self.comments@[i as int].1[t],
                            "FILE MERGE"@,
                        ),
                decreases m - j,
            {
                proof {
                    assert(self.comments@[i as int].1[j as int] == p.1@[j as int]@);
                }
                if crate::marker::is_merge_marker(p.1[j].as_str()) {
                    return true;
                }
                j += 1;
            }
            i += 1;
        }
        let hn = self.header.comments.len();
        let mut k: usize = 0;
        while k < hn
            invariant
                self.wf(),
                hn == self.header@.comments.len(),
                k <= hn,
                forall|t: int|
                    0 <= t < k ==> !contains_seq(#[trigger] self.header@.comments[t],
                    "FILE MERGE"@),
                forall|a: int, j: int|
                    0 <= a < self.comments@.len() && 0 <= j < (#[trigger] self.comments@[a]).1.len()
                        ==> !contains_seq(#[trigger] self.comments@[a].1[j], "FILE MERGE"@),
            decreases hn - k,
        {
            proof {
                assert(self.header@.comments[k as int] == self.header.comments@[k as int]@);
            }
            if crate::marker::is_merge_marker(self.header.comments[k].as_str()) {
                return true;
            }
            k += 1;
        }
        false
    }

    /// The merge-boundary timestamps recorded in the header comments, in
    /// comment order: seconds relative to 1970-01-01 00:00:00 UTC.
    pub fn merge_boundaries(&self) -> (r: Vec<i64>)
        ensures
            r@.map_values(|v: i64| v as int) == boundaries_of(self.header@.comments),
    {
        scan_boundaries(&self.header.comments)
    }

    /// Cuts a merged record into its contiguous pieces: one half-open window
    /// per recorded merge boundary, the first starting at the first recorded
    /// epoch. A file without merge markers yields no pieces.
    pub fn split_merged_records(&self) -> (r: Vec<Record>)
        requires
            self.wf(),
            record_has_epochs(self.record@),
            record_epoch_seq(self.record@).len() > 0,
        ensures
            ({
                let bs = boundaries_of(self.header@.comments);
                let first = record_epoch_seq(self.record@)[0].date as int;
                &&& r@.len() == bs.len()
                &&& forall|i: int|
                    0 <= i < r@.len() ==> record_wf((#[trigger] r@[i])@) && r@[i]@
                        == record_window(
                        self.record@,
                        (if i == 0 {
                            first
                        } else {
                            bs[i - 1]
                        }) as i64,
                        bs[i] as i64,
                    )
            }),
    {
        let bounds = self.merge_boundaries();
        let ghost bs = boundaries_of(self.header@.comments);
        let eps = self.epochs();
        let mut e0: i64 = eps[0].date;
        let ghost first = record_epoch_seq(self.record@)[0].date as int;
        let n = bounds.len();
        let mut out: Vec<Record> = Vec::new();
        let mut i: usize = 0;
        proof {
            assert(bounds@.map_values(|v: i64| v as int).len() == bs.len());
        }
        while i < n
            invariant
                self.wf(),
                n == bounds@.len(),
                bs == boundaries_of(self.header@.comments),
                bounds@.map_values(|v: i64| v as int) == bs,
                first == record_epoch_seq(self.record@)[0].date as int,
                i <= n,
                out@.len() == i as int,
                e0 as int == (if i == 0 {
                    first
                } else {
                    bs[i - 1]
                }),
                forall|k: int|
                    0 <= k < i ==> record_wf((#[trigger] out@[k])@) && out@[k]@ == record_window(
                        self.record@,
                        (if k == 0 {
                            first
                        } else {
                            bs[k - 1]
                        }) as i64,
                        bs[k] as i64,
                    ),
            decreases n - i,
        {
            proof {
                assert(bs[i as int] == bounds@[i as int] as int);
            }
            let b = bounds[i];
            let piece = self.record.window(e0, b);
            out.push(piece);
            e0 = b;
            i += 1;
        }
        out
    }

    /// Cuts a merged file into its contiguous pieces; the header and comment
    /// ledger are copied into each piece.
    pub fn split(&self) -> (r: Vec<Rinex>)
        requires
            self.wf(),
            record_has_epochs(self.record@),
            record_epoch_seq(self.record@).len() > 0,
        ensures
            ({
                let bs = boundaries_of(self.header@.comments);
                let first = record_epoch_seq(self.record@)[0].date as int;
                &&& r@.len() == bs.len()
                &&& forall|i: int|
                    0 <= i < r@.len() ==> (#[trigger] r@[i]).wf() && r@[i].header@ == self.header@
                        && r@[i].comments@ == self.comments@ && r@[i].record@ == record_window(
                        self.record@,
                        (if i == 0 {
                            first
                        } else {
                            bs[i - 1]
                        }) as i64,
                        bs[i] as i64,
                    )
            }),
    {
        let records = self.split_merged_records();
        let n = records.len();
        let ghost pieces = records@;
        let mut out: Vec<Rinex> = Vec::new();
        let mut records = records;
        let mut i: usize = 0;
        // consume the pieces front to back
        while i < n
            invariant
                self.wf(),
                records@.len() + i as int == n as int,
                pieces.len() == n,
                forall|k: int| 0 <= k < records@.len() ==> #[trigger] records@[k] == pieces[k + i],
                i <= n,
                out@.len() == i as int,
                forall|k: int|
                    0 <= k < i ==> (#[trigger] out@[k]).header@ == self.header@ && out@[k].record
                        == pieces[k] && out@[k].comments@ == self.comments@,
            decreases n - i,
        {
            let piece = records.remove(0);
            proof {
                assert(piece == pieces[i as int]);
            }
            out.push(
                Rinex {
                    header: self.header.deep_clone(),
                    record: piece,
                    comments: self.comments.deep_clone(),
                },
            );
            i += 1;
        }
        proof {
            let bs = boundaries_of(self.header@.comments);
            let first = record_epoch_seq(self.record@)[0].date as int;
            assert forall|k: int| 0 <= k < out@.len() implies (#[trigger] out@[k]).wf()
                && out@[k].header@ == self.header@ && out@[k].comments@ == self.comments@
                && out@[k].record@ == record_window(
                self.record@,
                (if k == 0 {
                    first
                } else {
                    bs[k - 1]
                }) as i64,
                bs[k] as i64,
            ) by {
                assert(out@[k].record == pieces[k]);
                assert(record_wf(pieces[k]@));
            }
        }
        out
    }

    /// Splits the record in two at a boundary epoch: the entries strictly
    /// before it, then the entries at or after it. Fails exactly when the
    /// boundary precedes every recorded epoch or follows every recorded
    /// epoch.
    pub fn split_record_at_epoch(&self, epoch: Epoch) -> (r: Result<
        (Record, Record),
        SplitError,
    >)
        requires
            self.wf(),
            record_supports_split(self.record@),
            record_epoch_seq(self.record@).len() > 0,
        ensures
            ({
                let eps = record_epoch_seq(self.record@);
                match r {
                    Ok((a, b)) => eps[0].date <= epoch.date <= eps.last().date && record_wf(a@)
                        && record_wf(b@) && record_split(self.record@, a@, b@, epoch.date),
                    Err(SplitError::EpochTooEarly) => epoch.date < eps[0].date,
                    Err(SplitError::EpochTooLate) => epoch.date > eps.last().date,
                }
            }),
    {
        let eps = self.epochs();
        if epoch.date < eps[0].date {
            return Err(SplitError::EpochTooEarly);
        }
        if epoch.date > eps[eps.len() - 1].date {
            return Err(SplitError::EpochTooLate);
        }
        let halves = self.record.split_at(epoch.date);
        Ok(halves)
    }

    /// Splits the file in two at a boundary epoch; the header and comment
    /// ledger are copied into both halves.
    pub fn split_at_epoch(&self, epoch: Epoch) -> (r: Result<(Rinex, Rinex), SplitError>)
        requires
            self.wf(),
            record_supports_split(self.record@),
            record_epoch_seq(self.record@).len() > 0,
        ensures
            ({
                let eps = record_epoch_seq(self.record@);
                match r {
                    Ok((a, b)) => eps[0].date <= epoch.date <= eps.last().date && a.wf() && b.wf()
                        && record_split(self.record@, a.record@, b.record@, epoch.date)
                        && a.header@ == self.header@ && b.header@ == self.header@ && a.comments@
                        == self.comments@ && b.comments@ == self.comments@,
                    Err(SplitError::EpochTooEarly) => epoch.date < eps[0].date,
                    Err(SplitError::EpochTooLate) => epoch.date > eps.last().date,
                }
            }),
    {
        let halves = self.split_record_at_epoch(epoch)?;
        let (r0, r1) = halves;
        Ok(
            (
                Rinex {
                    header: self.header.deep_clone(),
                    comments: self.comments.deep_clone(),
                    record: r0,
                },
                Rinex {
                    header: self.header.deep_clone(),
                    comments: self.comments.deep_clone(),
                    record: r1,
                },
            ),
        )
    }

    /// Merges another file of the same record kind into this one at a given
    /// wall-clock reading: the record epochs become the union, the incoming
    /// file winning timestamp collisions, and - exactly when both records
    /// were non-empty - a merge-marker comment carrying the reading is
    /// stamped into the header. An empty record is wholly replaced by the
    /// incoming one, with no marker; an empty incoming record changes
    /// nothing.
    pub fn merge_mut_with_time(&mut self, other: &Rinex, now: CivilTime) -> (r: Result<
        (),
        MergeError,
    >)
        requires
            old(self).wf(),
            other.wf(),
            record_has_epochs(old(self).record@),
            record_has_epochs(other.record@),
            now.wf(),
            now.year >= 0,
            1 <= now.day <= crate::civil::spec_days_in_month(now.year as int, now.month as int),
        ensures
            final(self).wf(),
            ({
                let compatible = old(self).header@.rinex_type == other.header@.rinex_type;
                match r {
                    Err(MergeError::HeaderMismatch) => !compatible && *final(self) == *old(self),
                    Ok(()) => compatible && final(self).comments@ == old(self).comments@ && (if
                    record_len(old(self).record@) == 0 {
                        final(self).record@ == other.record@ && final(self).header@ == old(
                            self,
                        ).header@
                    } else if record_len(other.record@) == 0 {
                        *final(self) == *old(self)
                    } else {
                        record_merged(final(self).record@, old(self).record@, other.record@)
                            && final(self).header@ == (crate::header::HeaderV {
                            comments: old(self).header@.comments.push(
                                marker_comment_seq(old(self).header@.program, now),
                            ),
                            ..old(self).header@
                        }) && (now.year <= 9999 ==> crate::marker::boundary_of(
                            marker_comment_seq(old(self).header@.program, now),
                        ) == Some(crate::civil::secs_of_civil(now)))
                    }),
                }
            }),
    {
        if !self.header.merge_compatible(&other.header) {
            return Err(MergeError::HeaderMismatch);
        }
        let own_len = self.record.len();
        let other_len = other.record.len();
        if own_len == 0 {
            self.record = other.record.deep_clone();
            return Ok(());
        }
        if other_len == 0 {
            return Ok(());
        }
        let marker = marker_comment(self.header.program.as_str(), now);
        self.header.comments.push(marker);
        proof {
            if now.year <= 9999 {
                crate::marker::lemma_marker_round_trip(old(self).header@.program, now);
            }
            assert(self.header@.comments =~= old(self).header@.comments.push(
                marker_comment_seq(old(self).header@.program, now),
            ));
            assert(self.header@ == (crate::header::HeaderV {
                comments: old(self).header@.comments.push(
                    marker_comment_seq(old(self).header@.program, now),
                ),
                ..old(self).header@
            }));
        }
        match (&mut self.record, &other.record) {
            (Record::ObsRecord(a), Record::ObsRecord(b)) => {
                a.merge_from(b);
            },
            (Record::NavRecord(a), Record::NavRecord(b)) => {
                a.merge_from(b);
            },
            (Record::MeteoRecord(a), Record::MeteoRecord(b)) => {
                a.merge_from(b);
            },
            (Record::IonexRecord(a), Record::IonexRecord(b)) => {
                a.merge_from(b);
            },
            _ => {
                proof {
                    assert(false);
                }
            },
        }
        Ok(())
    }

    /// Merges another file of the same record kind into this one, stamping
    /// the current wall-clock time into the marker comment (when both
    /// records are non-empty).
    pub fn merge_mut(&mut self, other: &Rinex) -> (r: Result<(), MergeError>)
        requires
            old(self).wf(),
            other.wf(),
            record_has_epochs(old(self).record@),
            record_has_epochs(other.record@),
        ensures
            final(self).wf(),
            ({
                let compatible = old(self).header@.rinex_type == other.header@.rinex_type;
                match r {
                    Err(MergeError::HeaderMismatch) => !compatible && *final(self) == *old(self),
                    Ok(()) => compatible && final(self).comments@ == old(self).comments@ && (if
                    record_len(old(self).record@) == 0 {
                        final(self).record@ == other.record@ && final(self).header@ == old(
                            self,
                        ).header@
                    } else if record_len(other.record@) == 0 {
                        *final(self) == *old(self)
                    } else {
                        record_merged(final(self).record@, old(self).record@, other.record@)
                            && exists|t: CivilTime|
                            (#[trigger] t.wf()) && t.year >= 0 && 1 <= t.day
                                <= crate::civil::spec_days_in_month(t.year as int, t.month as int)
                                && final(self).header@ == (crate::header::HeaderV {
                                comments: old(self).header@.comments.push(
                                    marker_comment_seq(old(self).header@.program, t),
                                ),
                                ..old(self).header@
                            }) && (t.year <= 9999 ==> crate::marker::boundary_of(
                                marker_comment_seq(old(self).header@.program, t),
                            ) == Some(crate::civil::secs_of_civil(t)))
                    }),
                }
            }),
    {
        let now = crate::marker::utc_now_civil();
        let stamp = if now.year >= 0 {
            now
        } else {
            CivilTime { year: 0, month: 1, day: 1, hour: 0, minute: 0, second: 0 }
        };
        let r = self.merge_mut_with_time(other, stamp);
        proof {
            if r is Ok && record_len(old(self).record@) != 0 && record_len(other.record@) != 0 {
                assert((stamp.wf()) && stamp.year >= 0 && 1 <= stamp.day
                    <= crate::civil::spec_days_in_month(stamp.year as int, stamp.month as int)
                    && final(self).header@ == (crate::header::HeaderV {
                    comments: old(self).header@.comments.push(
                        marker_comment_seq(old(self).header@.program, stamp),
                    ),
                    ..old(self).header@
                }) && (stamp.year <= 9999 ==> crate::marker::boundary_of(
                    marker_comment_seq(old(self).header@.program, stamp),
                ) == Some(crate::civil::secs_of_civil(stamp))));
            }
        }
        r
    }

    /// A copy of this file keeping every `n`-th record entry by ordinal
    /// position, whatever the record kind.
    pub fn decimate_by_ratio(&self, n: u32) -> (r: Rinex)
        requires
            self.wf(),
            n >= 1,
            record_len(self.record@) + n <= usize::MAX,
        ensures
            r.wf(),
            r.header@ == self.header@,
            r.comments@ == self.comments@,
            record_ratio_decimated(self.record@, r.record@, n as int),
    {
        Rinex {
            header: self.header.deep_clone(),
            comments: self.comments.deep_clone(),
            record: self.record.decimate_by_ratio(n),
        }
    }

    /// Keeps every `n`-th record entry by ordinal position, in place.
    pub fn decimate_by_ratio_mut(&mut self, n: u32)
        requires
            old(self).wf(),
            n >= 1,
            record_len(old(self).record@) + n <= usize::MAX,
        ensures
            final(self).wf(),
            final(self).header@ == old(self).header@,
            final(self).comments@ == old(self).comments@,
            record_ratio_decimated(old(self).record@, final(self).record@, n as int),
    {
        let dec = self.record.decimate_by_ratio(n);
        self.record = dec;
    }

    /// A copy of this file greedily thinned to a minimum epoch spacing: the
    /// first epoch always stays, and each later epoch stays exactly when it
    /// sits at least `min_gap_secs` seconds after the last kept one.
    pub fn decimate_by_interval(&self, min_gap_secs: u64) -> (r: Rinex)
        requires
            self.wf(),
            record_has_epochs(self.record@),
        ensures
            r.wf(),
            r.header@ == self.header@,
            r.comments@ == self.comments@,
            record_gap_decimated(self.record@, r.record@, min_gap_secs as int),
    {
        Rinex {
            header: self.header.deep_clone(),
            comments: self.comments.deep_clone(),
            record: self.record.decimate_by_interval(min_gap_secs),
        }
    }

    /// Greedily thins the record to a minimum epoch spacing, in place.
    pub fn decimate_by_interval_mut(&mut self, min_gap_secs: u64)
        requires
            old(self).wf(),
            record_has_epochs(old(self).record@),
        ensures
            final(self).wf(),
            final(self).header@ == old(self).header@,
            final(self).comments@ == old(self).comments@,
            record_gap_decimated(old(self).record@, final(self).record@, min_gap_secs as int),
    {
        let dec = self.record.decimate_by_interval(min_gap_secs);
        self.record = dec;
    }

    /// The average spacing of consecutive epochs, in seconds: the recorded
    /// time span divided by the number of epochs.
    pub fn average_epoch_duration(&self) -> (r: u64)
        requires
            self.wf(),
            record_has_epochs(self.record@),
            record_epoch_seq(self.record@).len() > 0,
        ensures
            r as int == (record_epoch_seq(self.record@).last().date - record_epoch_seq(
                self.record@,
            )[0].date) / (record_epoch_seq(self.record@).len() as int),
    {
        let eps = self.epochs();
        let ghost full = record_epoch_seq(self.record@);
        proof {
            crate::record::lemma_record_epochs_sorted(self.record@);
        }
        let n = eps.len();
        let mut sum: u64 = 0;
        let mut i: usize = 1;
        while i < n
            invariant
                n == full.len(),
                n >= 1,
                eps@ == full,
                1 <= i <= n,
                forall|a: int, b: int|
                    #![trigger full[a], full[b]]
                    0 <= a < b < n ==> full[a].date < full[b].date,
                sum as int == full[i - 1].date - full[0].date,
            decreases n - i,
        {
            let d: i64 = eps[i].date;
            let prev: i64 = eps[i - 1].date;
            proof {
                assert(full[i as int].date > full[i - 1].date);
                assert(full[0].date < full[i as int].date || i as int == 0);
            }
            let delta: u64 = (((d as i128) - (prev as i128)) as u64);
            sum = sum + delta;
            i += 1;
        }
        proof {
            assert(full.last() == full[n - 1]);
        }
        sum / (n as u64)
    }
}

} // verus!

verus! {

/// The labeled observable list of an observation header's code table: each
/// code prefixed by its constellation's three-letter label and a colon.
pub open spec fn obs_header_codes(codes: Seq<(Constellation, Seq<Seq<char>>)>) -> Seq<Seq<char>>
    decreases codes.len(),
{
    if codes.len() == 0 {
        Seq::empty()
    } else {
        codes[0].1.map_values(
            |c: Seq<char>| spec_three_letter_code(codes[0].0) + seq![':'] + c,
        ) + obs_header_codes(codes.skip(1))
    }
}

/// The message-type and time-system codes a navigation entry announces.
pub open spec fn entry_nav_codes(cs: NavEntryV) -> Seq<Seq<char>>
    decreases cs.len(),
{
    if cs.len() == 0 {
        Seq::empty()
    } else {
        (if cs[0].0 == crate::navigation::FrameClass::Ephemeris {
            eph_codes(cs[0].1)
        } else if cs[0].0 == crate::navigation::FrameClass::SystemTimeOffset {
            sto_codes(cs[0].1)
        } else {
            Seq::empty()
        }) + entry_nav_codes(cs.skip(1))
    }
}

/// The message-type codes of the ephemerides in a frame list.
pub open spec fn eph_codes(fs: Seq<FrameV>) -> Seq<Seq<char>>
    decreases fs.len(),
{
    if fs.len() == 0 {
        Seq::empty()
    } else {
        (match fs[0] {
            FrameV::Eph(e) => seq![crate::navigation::spec_msg_code(e.msg_type)],
            _ => Seq::empty(),
        }) + eph_codes(fs.skip(1))
    }
}

/// The time-system names of the system-time messages in a frame list.
pub open spec fn sto_codes(fs: Seq<FrameV>) -> Seq<Seq<char>>
    decreases fs.len(),
{
    if fs.len() == 0 {
        Seq::empty()
    } else {
        (match fs[0] {
            FrameV::Sto(s) => seq![s.system],
            _ => Seq::empty(),
        }) + sto_codes(fs.skip(1))
    }
}

/// The codes of all entries of a navigation record, in record order.
pub open spec fn nav_codes_table(s: Seq<(Epoch, NavEntryV)>) -> Seq<Seq<char>>
    decreases s.len(),
{
    if s.len() == 0 {
        Seq::empty()
    } else {
        entry_nav_codes(s[0].1) + nav_codes_table(s.skip(1))
    }
}

impl Rinex {
    /// Removes, in place, measurements whose loss-of-lock bits do not
    /// intersect the mask; measurements without loss-of-lock bits are always
    /// removed. Leaves non-observation records untouched.
    pub fn lli_filter_mut(&mut self, mask: u8)
        requires
            old(self).wf(),
        ensures
            final(self).wf(),
            final(self).header@ == old(self).header@,
            final(self).comments@ == old(self).comments@,
            match old(self).record@ {
                RecordV::ObsRecord(s) => final(self).record@ == RecordV::ObsRecord(
                    obs_series_filtered(s, ObsFilter::LliMask(mask)),
                ),
                _ => final(self).record@ == old(self).record@,
            },
    {
        match &mut self.record {
            Record::ObsRecord(s) => {
                let f = filter_obs_series(s, &ObsFilter::LliMask(mask));
                *s = f;
            },
            _ => {},
        }
    }

    /// A copy with the loss-of-lock mask applied; see
    /// [`lli_filter_mut`](Self::lli_filter_mut).
    pub fn lli_filter(&self, mask: u8) -> (r: Rinex)
        requires
            self.wf(),
        ensures
            r.wf(),
            r.header@ == self.header@,
            r.comments@ == self.comments@,
            match self.record@ {
                RecordV::ObsRecord(s) => r.record@ == RecordV::ObsRecord(
                    obs_series_filtered(s, ObsFilter::LliMask(mask)),
                ),
                _ => r.record@ == self.record@,
            },
    {
        let mut r = self.deep_clone();
        r.lli_filter_mut(mask);
        r
    }

    /// The epochs at which a loss-of-lock event is recorded; the per-epoch
    /// filtering never removes an epoch, so these are the record's epochs.
    pub fn lock_loss_events(&self) -> (r: Vec<Epoch>)
        requires
            self.wf(),
            record_has_epochs(self.record@),
        ensures
            r@ == record_epoch_seq(self.record@),
    {
        let filtered = self.lli_filter(crate::observation::LLI_LOCK_LOSS);
        let r = filtered.epochs();
        proof {
            match self.record@ {
                RecordV::ObsRecord(s) => {
                    assert(r@ =~= record_epoch_seq(self.record@));
                },
                _ => {},
            }
        }
        r
    }

    /// Removes, in place, measurements not marked with a lost lock.
    pub fn lock_loss_filter(&mut self)
        requires
            old(self).wf(),
        ensures
            final(self).wf(),
            final(self).header@ == old(self).header@,
            final(self).comments@ == old(self).comments@,
            match old(self).record@ {
                RecordV::ObsRecord(s) => final(self).record@ == RecordV::ObsRecord(
                    obs_series_filtered(
                        s,
                        ObsFilter::LliMask(crate::observation::LLI_LOCK_LOSS),
                    ),
                ),
                _ => final(self).record@ == old(self).record@,
            },
    {
        self.lli_filter_mut(crate::observation::LLI_LOCK_LOSS)
    }

    /// Removes, in place, measurements whose signal strength is not strictly
    /// above the minimum; measurements without a strength indicator are
    /// always removed. Leaves non-observation records untouched.
    pub fn minimum_sig_strength_filter_mut(&mut self, minimum: Ssi)
        requires
            old(self).wf(),
        ensures
            final(self).wf(),
            final(self).header@ == old(self).header@,
            final(self).comments@ == old(self).comments@,
            match old(self).record@ {
                RecordV::ObsRecord(s) => final(self).record@ == RecordV::ObsRecord(
                    obs_series_filtered(s, ObsFilter::MinSsi(minimum)),
                ),
                _ => final(self).record@ == old(self).record@,
            },
    {
        match &mut self.record {
            Record::ObsRecord(s) => {
                let f = filter_obs_series(s, &ObsFilter::MinSsi(minimum));
                *s = f;
            },
            _ => {},
        }
    }

    /// Keeps, in place, only the epochs whose flag is nominal. Leaves
    /// non-observation records untouched.
    pub fn epoch_ok_filter_mut(&mut self)
        requires
            old(self).wf(),
        ensures
            final(self).wf(),
            final(self).header@ == old(self).header@,
            final(self).comments@ == old(self).comments@,
            match old(self).record@ {
                RecordV::ObsRecord(s) => final(self).record@ == RecordV::ObsRecord(
                    crate::series::flag_selected(s, true),
                ),
                _ => final(self).record@ == old(self).record@,
            },
    {
        match &mut self.record {
            Record::ObsRecord(s) => {
                let f = s.filter_by_flag_ok(true);
                *s = f;
            },
            _ => {},
        }
    }

    /// Keeps, in place, only the epochs whose flag marks an anomaly. Leaves
    /// non-observation records untouched.
    pub fn epoch_nok_filter_mut(&mut self)
        requires
            old(self).wf(),
        ensures
            final(self).wf(),
            final(self).header@ == old(self).header@,
            final(self).comments@ == old(self).comments@,
            match old(self).record@ {
                RecordV::ObsRecord(s) => final(self).record@ == RecordV::ObsRecord(
                    crate::series::flag_selected(s, false),
                ),
                _ => final(self).record@ == old(self).record@,
            },
    {
        match &mut self.record {
            Record::ObsRecord(s) => {
                let f = s.filter_by_flag_ok(false);
                *s = f;
            },
            _ => {},
        }
    }

    /// A copy keeping only the epochs whose flag is nominal; see
    /// [`epoch_ok_filter_mut`](Self::epoch_ok_filter_mut).
    pub fn epoch_ok_filter(&self) -> (r: Rinex)
        requires
            self.wf(),
        ensures
            r.wf(),
            r.header@ == self.header@,
            r.comments@ == self.comments@,
            match self.record@ {
                RecordV::ObsRecord(s) => r.record@ == RecordV::ObsRecord(
                    crate::series::flag_selected(s, true),
                ),
                _ => r.record@ == self.record@,
            },
    {
        let mut r = self.deep_clone();
        r.epoch_ok_filter_mut();
        r
    }

    /// A copy keeping only the epochs whose flag marks an anomaly; see
    /// [`epoch_nok_filter_mut`](Self::epoch_nok_filter_mut).
    pub fn epoch_nok_filter(&self) -> (r: Rinex)
        requires
            self.wf(),
        ensures
            r.wf(),
            r.header@ == self.header@,
            r.comments@ == self.comments@,
            match self.record@ {
                RecordV::ObsRecord(s) => r.record@ == RecordV::ObsRecord(
                    crate::series::flag_selected(s, false),
                ),
                _ => r.record@ == self.record@,
            },
    {
        let mut r = self.deep_clone();
        r.epoch_nok_filter_mut();
        r
    }

    /// Keeps, in place, only data of the listed constellations: vehicles in
    /// observation records, ephemerides in navigation records. Leaves the
    /// other record kinds untouched.
    pub fn constellation_filter_mut(&mut self, filter: Vec<Constellation>)
        requires
            old(self).wf(),
        ensures
            final(self).wf(),
            final(self).header@ == old(self).header@,
            final(self).comments@ == old(self).comments@,
            match old(self).record@ {
                RecordV::ObsRecord(s) => final(self).record@ == RecordV::ObsRecord(
                    obs_series_filtered(s, ObsFilter::Constellations(&filter)),
                ),
                RecordV::NavRecord(s) => final(self).record@ == RecordV::NavRecord(
                    nav_series_filtered(s, NavFilter::Constellations(&filter)),
                ),
                _ => final(self).record@ == old(self).record@,
            },
    {
        match &mut self.record {
            Record::ObsRecord(s) => {
                let f = filter_obs_series(s, &ObsFilter::Constellations(&filter));
                *s = f;
            },
            Record::NavRecord(s) => {
                let f = filter_nav_series(s, &NavFilter::Constellations(&filter));
                *s = f;
            },
            _ => {},
        }
    }

    /// Keeps, in place, only data of the listed space vehicles: vehicles in
    /// observation records, ephemerides in navigation records. Leaves the
    /// other record kinds untouched.
    pub fn space_vehicule_filter_mut(&mut self, filter: Vec<Sv>)
        requires
            old(self).wf(),
        ensures
            final(self).wf(),
            final(self).header@ == old(self).header@,
            final(self).comments@ == old(self).comments@,
            match old(self).record@ {
                RecordV::ObsRecord(s) => final(self).record@ == RecordV::ObsRecord(
                    obs_series_filtered(s, ObsFilter::Vehicles(&filter)),
                ),
                RecordV::NavRecord(s) => final(self).record@ == RecordV::NavRecord(
                    nav_series_filtered(s, NavFilter::Vehicles(&filter)),
                ),
                _ => final(self).record@ == old(self).record@,
            },
    {
        match &mut self.record {
            Record::ObsRecord(s) => {
                let f = filter_obs_series(s, &ObsFilter::Vehicles(&filter));
                *s = f;
            },
            Record::NavRecord(s) => {
                let f = filter_nav_series(s, &NavFilter::Vehicles(&filter));
                *s = f;
            },
            _ => {},
        }
    }

    /// Keeps, in place, only data carrying a listed observable code:
    /// per-vehicle codes in observation records, message types and time
    /// systems in navigation records, sensor codes in meteo records,
    /// clock-data types in clock records.
    pub fn observable_filter_mut(&mut self, filter: &Vec<String>)
        requires
            old(self).wf(),
        ensures
            final(self).wf(),
            final(self).header@ == old(self).header@,
            final(self).comments@ == old(self).comments@,
            match old(self).record@ {
                RecordV::ObsRecord(s) => final(self).record@ == RecordV::ObsRecord(
                    obs_series_filtered(s, ObsFilter::Codes(filter)),
                ),
                RecordV::NavRecord(s) => final(self).record@ == RecordV::NavRecord(
                    nav_series_filtered(s, NavFilter::Codes(filter)),
                ),
                RecordV::MeteoRecord(s) => final(self).record@ == RecordV::MeteoRecord(
                    meteo_series_filtered(s, filter.deep_view()),
                ),
                RecordV::ClockRecord(s) => final(self).record@ == RecordV::ClockRecord(
                    clock_series_filtered(s, filter.deep_view()),
                ),
                _ => final(self).record@ == old(self).record@,
            },
    {
        match &mut self.record {
            Record::ObsRecord(s) => {
                let f = filter_obs_series(s, &ObsFilter::Codes(filter));
                *s = f;
            },
            Record::NavRecord(s) => {
                let f = filter_nav_series(s, &NavFilter::Codes(filter));
                *s = f;
            },
            Record::MeteoRecord(s) => {
                let f = crate::meteo::filter_meteo_series(s, filter);
                *s = f;
            },
            Record::ClockRecord(s) => {
                let f = crate::clocks::filter_clock_series(s, filter);
                *s = f;
            },
            _ => {},
        }
    }

    /// Removes, in place, every legacy ephemeris, keeping modern frames
    /// only. Leaves non-navigation records untouched.
    pub fn legacy_nav_filter_mut(&mut self)
        requires
            old(self).wf(),
        ensures
            final(self).wf(),
            final(self).header@ == old(self).header@,
            final(self).comments@ == old(self).comments@,
            match old(self).record@ {
                RecordV::NavRecord(s) => final(self).record@ == RecordV::NavRecord(
                    nav_series_filtered(s, NavFilter::ModernOnly),
                ),
                _ => final(self).record@ == old(self).record@,
            },
    {
        match &mut self.record {
            Record::NavRecord(s) => {
                let f = filter_nav_series(s, &NavFilter::ModernOnly);
                *s = f;
            },
            _ => {},
        }
    }

    /// Removes, in place, every modern ephemeris, keeping legacy frames
    /// only. Leaves non-navigation records untouched.
    pub fn modern_nav_filter_mut(&mut self)
        requires
            old(self).wf(),
        ensures
            final(self).wf(),
            final(self).header@ == old(self).header@,
            final(self).comments@ == old(self).comments@,
            match old(self).record@ {
                RecordV::NavRecord(s) => final(self).record@ == RecordV::NavRecord(
                    nav_series_filtered(s, NavFilter::LegacyOnly),
                ),
                _ => final(self).record@ == old(self).record@,
            },
    {
        match &mut self.record {
            Record::NavRecord(s) => {
                let f = filter_nav_series(s, &NavFilter::LegacyOnly);
                *s = f;
            },
            _ => {},
        }
    }

    /// Per epoch and vehicle, the broadcast clock offsets (nanoseconds) of a
    /// navigation record's ephemerides; the last ephemeris per vehicle wins,
    /// and epochs without any are omitted. Yields nothing for other record
    /// kinds.
    pub fn space_vehicule_clocks_offset(&self) -> (r: Vec<(Epoch, Vec<(Sv, i64)>)>)
        requires
            self.wf(),
        ensures
            match self.record@ {
                RecordV::NavRecord(s) => r.deep_view() == nav_sv_table(
                    s,
                    |fr: EphFrameV| eph_offset(fr),
                ),
                _ => r.deep_view() == Seq::<(Epoch, Seq<(Sv, i64)>)>::empty(),
            },
    {
        match &self.record {
            Record::NavRecord(s) => nav_offsets_table(s),
            _ => {
                let r: Vec<(Epoch, Vec<(Sv, i64)>)> = Vec::new();
                proof {
                    assert(r.deep_view() =~= Seq::<(Epoch, Seq<(Sv, i64)>)>::empty());
                }
                r
            },
        }
    }

    /// Per epoch and vehicle, the broadcast clock state (offset, drift,
    /// drift rate) of a navigation record's ephemerides. Yields nothing for
    /// other record kinds.
    pub fn space_vehicule_clocks_drift(&self) -> (r: Vec<(Epoch, Vec<(Sv, (i64, i64, i64))>)>)
        requires
            self.wf(),
        ensures
            match self.record@ {
                RecordV::NavRecord(s) => r.deep_view() == nav_sv_table(
                    s,
                    |fr: EphFrameV| eph_triplet(fr),
                ),
                _ => r.deep_view() == Seq::<(Epoch, Seq<(Sv, (i64, i64, i64))>)>::empty(),
            },
    {
        match &self.record {
            Record::NavRecord(s) => nav_triplets_table(s),
            _ => {
                let r: Vec<(Epoch, Vec<(Sv, (i64, i64, i64))>)> = Vec::new();
                proof {
                    assert(r.deep_view() =~= Seq::<(Epoch, Seq<(Sv, (i64, i64, i64))>)>::empty());
                }
                r
            },
        }
    }

    /// Per epoch and vehicle, the full ephemeris payloads of a navigation
    /// record: clock offset, drift, drift rate, and the free-form auxiliary
    /// field map; the last ephemeris per vehicle wins, and epochs without
    /// any are omitted. Yields nothing for other record kinds.
    pub fn ephemeris(&self) -> (r: Vec<
        (Epoch, Vec<(Sv, (i64, i64, i64, Vec<(String, i64)>))>),
    >)
        requires
            self.wf(),
        ensures
            match self.record@ {
                RecordV::NavRecord(s) => r.deep_view() == nav_sv_table(
                    s,
                    |fr: EphFrameV| crate::processing::eph_full(fr),
                ),
                _ => r.deep_view() == Seq::<
                    (Epoch, Seq<(Sv, (i64, i64, i64, Seq<(Seq<char>, i64)>))>),
                >::empty(),
            },
    {
        match &self.record {
            Record::NavRecord(s) => crate::processing::nav_full_table(s),
            _ => {
                let r: Vec<(Epoch, Vec<(Sv, (i64, i64, i64, Vec<(String, i64)>))>)> = Vec::new();
                proof {
                    assert(r.deep_view() =~= Seq::<
                        (Epoch, Seq<(Sv, (i64, i64, i64, Seq<(Seq<char>, i64)>))>),
                    >::empty());
                }
                r
            },
        }
    }

    /// Per epoch and vehicle, the raw pseudorange observables of an
    /// observation record. Yields nothing for other record kinds.
    pub fn pseudo_ranges(&self) -> (r: Vec<(Epoch, Vec<(Sv, Vec<(String, i64)>)>)>)
        requires
            self.wf(),
        ensures
            match self.record@ {
                RecordV::ObsRecord(s) => r.deep_view() == obs_class_table(s, true),
                _ => r.deep_view() == Seq::<
                    (Epoch, Seq<(Sv, Seq<(Seq<char>, i64)>)>),
                >::empty(),
            },
    {
        match &self.record {
            Record::ObsRecord(s) => obs_class_table_of(s, true),
            _ => {
                let r: Vec<(Epoch, Vec<(Sv, Vec<(String, i64)>)>)> = Vec::new();
                proof {
                    assert(r.deep_view() =~= Seq::<
                        (Epoch, Seq<(Sv, Seq<(Seq<char>, i64)>)>),
                    >::empty());
                }
                r
            },
        }
    }

    /// Per epoch and vehicle, the raw carrier-phase observables of an
    /// observation record. Yields nothing for other record kinds.
    pub fn carrier_phases(&self) -> (r: Vec<(Epoch, Vec<(Sv, Vec<(String, i64)>)>)>)
        requires
            self.wf(),
        ensures
            match self.record@ {
                RecordV::ObsRecord(s) => r.deep_view() == obs_class_table(s, false),
                _ => r.deep_view() == Seq::<
                    (Epoch, Seq<(Sv, Seq<(Seq<char>, i64)>)>),
                >::empty(),
            },
    {
        match &self.record {
            Record::ObsRecord(s) => obs_class_table_of(s, false),
            _ => {
                let r: Vec<(Epoch, Vec<(Sv, Vec<(String, i64)>)>)> = Vec::new();
                proof {
                    assert(r.deep_view() =~= Seq::<
                        (Epoch, Seq<(Sv, Seq<(Seq<char>, i64)>)>),
                    >::empty());
                }
                r
            },
        }
    }

    /// Per epoch and vehicle, the ionosphere-free pseudorange combination of
    /// the first two pseudorange observables at known, distinct carrier
    /// frequencies. Yields nothing for other record kinds.
    pub fn iono_free_pseudo_ranges(&self) -> (r: Vec<(Epoch, Vec<(Sv, i64)>)>)
        requires
            self.wf(),
        ensures
            match self.record@ {
                RecordV::ObsRecord(s) => r.deep_view() == iono_table(obs_class_table(s, true)),
                _ => r.deep_view() == Seq::<(Epoch, Seq<(Sv, i64)>)>::empty(),
            },
    {
        let table = self.pseudo_ranges();
        let r = iono_table_of(&table);
        proof {
            match self.record@ {
                RecordV::ObsRecord(s) => {},
                _ => {
                    assert(r.deep_view() =~= Seq::<(Epoch, Seq<(Sv, i64)>)>::empty());
                },
            }
        }
        r
    }

    /// Per epoch and vehicle, the ionosphere-free carrier-phase combination
    /// of the first two carrier-phase observables at known, distinct carrier
    /// frequencies. Yields nothing for other record kinds.
    pub fn iono_free_carrier_phases(&self) -> (r: Vec<(Epoch, Vec<(Sv, i64)>)>)
        requires
            self.wf(),
        ensures
            match self.record@ {
                RecordV::ObsRecord(s) => r.deep_view() == iono_table(obs_class_table(s, false)),
                _ => r.deep_view() == Seq::<(Epoch, Seq<(Sv, i64)>)>::empty(),
            },
    {
        let table = self.carrier_phases();
        let r = iono_table_of(&table);
        proof {
            match self.record@ {
                RecordV::ObsRecord(s) => {},
                _ => {
                    assert(r.deep_view() =~= Seq::<(Epoch, Seq<(Sv, i64)>)>::empty());
                },
            }
        }
        r
    }

    /// Converts every pseudorange of an observation record to a
    /// clock-corrected distance (nanometers) against a per-epoch,
    /// per-vehicle table of distant clock offsets (nanoseconds): an epoch
    /// contributes only when it carries a local receiver-clock offset and
    /// has a row in the table, and a vehicle only when that row names it.
    /// Yields nothing for other record kinds.
    pub fn pseudo_range_to_distance(&self, sv_clk_offsets: &Vec<(Epoch, Vec<(Sv, i64)>)>) -> (r:
        Vec<(Epoch, Vec<(Sv, Vec<(String, i64)>)>)>)
        requires
            self.wf(),
            sorted_by_date(sv_clk_offsets.deep_view()),
            forall|i: int|
                0 <= i < sv_clk_offsets.deep_view().len() ==> crate::processing::sv_keys_unique(
                    (#[trigger] sv_clk_offsets.deep_view()[i]).1,
                ),
        ensures
            match self.record@ {
                RecordV::ObsRecord(s) => r.deep_view() == distance_table(
                    s,
                    sv_clk_offsets.deep_view(),
                ),
                _ => r.deep_view() == Seq::<
                    (Epoch, Seq<(Sv, Seq<(Seq<char>, i64)>)>),
                >::empty(),
            },
    {
        match &self.record {
            Record::ObsRecord(s) => distance_table_of(s, sv_clk_offsets),
            _ => {
                let r: Vec<(Epoch, Vec<(Sv, Vec<(String, i64)>)>)> = Vec::new();
                proof {
                    assert(r.deep_view() =~= Seq::<
                        (Epoch, Seq<(Sv, Seq<(Seq<char>, i64)>)>),
                    >::empty());
                }
                r
            },
        }
    }

    /// Per epoch, the system-time offset messages of a navigation record.
    /// Yields nothing for other record kinds.
    pub fn system_time_offsets(&self) -> (r: Vec<(Epoch, Vec<crate::navigation::StoMessage>)>)
        requires
            self.wf(),
        ensures
            match self.record@ {
                RecordV::NavRecord(s) => r.deep_view() == sto_table(s),
                _ => r.deep_view() == Seq::<
                    (Epoch, Seq<crate::navigation::StoMessageV>),
                >::empty(),
            },
    {
        match &self.record {
            Record::NavRecord(s) => sto_table_of(s),
            _ => {
                let r: Vec<(Epoch, Vec<crate::navigation::StoMessage>)> = Vec::new();
                proof {
                    assert(r.deep_view() =~= Seq::<
                        (Epoch, Seq<crate::navigation::StoMessageV>),
                    >::empty());
                }
                r
            },
        }
    }

    /// Per epoch, the ionospheric models of a navigation record, whatever
    /// their kind. Yields nothing for other record kinds.
    pub fn ionospheric_models(&self) -> (r: Vec<(Epoch, Vec<IonMessage>)>)
        requires
            self.wf(),
        ensures
            match self.record@ {
                RecordV::NavRecord(s) => r.deep_view() == ion_table(s),
                _ => r.deep_view() == Seq::<(Epoch, Seq<IonMessage>)>::empty(),
            },
    {
        match &self.record {
            Record::NavRecord(s) => ion_table_of(s),
            _ => {
                let r: Vec<(Epoch, Vec<IonMessage>)> = Vec::new();
                proof {
                    assert(r.deep_view() =~= Seq::<(Epoch, Seq<IonMessage>)>::empty());
                }
                r
            },
        }
    }
}

} // verus!

verus! {

/// The Klobuchar rows of an ionospheric-model table, epochs without any
/// omitted.
pub open spec fn kb_table(t: Seq<(Epoch, Seq<IonMessage>)>) -> Seq<
    (Epoch, Seq<crate::navigation::KbModel>),
>
    decreases t.len(),
{
    if t.len() == 0 {
        Seq::empty()
    } else {
        let row = crate::processing::kb_of(t[0].1);
        (if row.len() > 0 {
            seq![(t[0].0, row)]
        } else {
            Seq::empty()
        }) + kb_table(t.skip(1))
    }
}

/// The Nequick-G rows of an ionospheric-model table, epochs without any
/// omitted.
pub open spec fn ng_table(t: Seq<(Epoch, Seq<IonMessage>)>) -> Seq<
    (Epoch, Seq<crate::navigation::NgModel>),
>
    decreases t.len(),
{
    if t.len() == 0 {
        Seq::empty()
    } else {
        let row = crate::processing::ng_of(t[0].1);
        (if row.len() > 0 {
            seq![(t[0].0, row)]
        } else {
            Seq::empty()
        }) + ng_table(t.skip(1))
    }
}

/// The BDGIM rows of an ionospheric-model table, epochs without any omitted.
pub open spec fn bd_table(t: Seq<(Epoch, Seq<IonMessage>)>) -> Seq<
    (Epoch, Seq<crate::navigation::BdModel>),
>
    decreases t.len(),
{
    if t.len() == 0 {
        Seq::empty()
    } else {
        let row = crate::processing::bd_of(t[0].1);
        (if row.len() > 0 {
            seq![(t[0].0, row)]
        } else {
            Seq::empty()
        }) + bd_table(t.skip(1))
    }
}

impl Rinex {
    /// Per epoch, the Klobuchar ionospheric models of a navigation record.
    /// Yields nothing for other record kinds.
    pub fn klobuchar_ionospheric_models(&self) -> (r: Vec<
        (Epoch, Vec<crate::navigation::KbModel>),
    >)
        requires
            self.wf(),
        ensures
            match self.record@ {
                RecordV::NavRecord(s) => r.deep_view() == kb_table(ion_table(s)),
                _ => r.deep_view() == Seq::<
                    (Epoch, Seq<crate::navigation::KbModel>),
                >::empty(),
            },
    {
        let models = self.ionospheric_models();
        let ghost tdv = models.deep_view();
        let n = models.len();
        let mut out: Vec<(Epoch, Vec<crate::navigation::KbModel>)> = Vec::new();
        let mut i: usize = 0;
        proof {
            assert(tdv.skip(0) =~= tdv);
            assert(out.deep_view() =~= Seq::<(Epoch, Seq<crate::navigation::KbModel>)>::empty());
            assert(out.deep_view() + kb_table(tdv) =~= kb_table(tdv));
        }
        while i < n
            invariant
                n == models@.len(),
                tdv == models.deep_view(),
                tdv.len() == n,
                i <= n,
                out.deep_view() + kb_table(tdv.skip(i as int)) == kb_table(tdv),
            decreases n - i,
        {
            let ghost rest = tdv.skip(i as int);
            proof {
                assert(rest[0] == tdv[i as int]);
                assert(rest.skip(1) =~= tdv.skip(i + 1int));
                assert(tdv[i as int] == (models@[i as int].0, models@[i as int].1.deep_view()));
            }
            let p = &models[i];
            let row = crate::processing::kb_row_of(&p.1);
            if row.len() > 0 {
                let ghost pre_dv = out.deep_view();
                out.push((p.0, row));
                proof {
                    assert(out.deep_view() =~= pre_dv.push((tdv[i as int].0,
                    crate::processing::kb_of(tdv[i as int].1))));
                    assert(out.deep_view() + kb_table(tdv.skip(i + 1int)) =~= pre_dv + (seq![
                        (tdv[i as int].0, crate::processing::kb_of(tdv[i as int].1)),
                    ] + kb_table(tdv.skip(i + 1int))));
                }
            } else {
                proof {
                    assert(crate::processing::kb_of(tdv[i as int].1).len() == 0);
                    assert(out.deep_view() + kb_table(tdv.skip(i + 1int)) =~= out.deep_view() + (
                    Seq::<(Epoch, Seq<crate::navigation::KbModel>)>::empty() + kb_table(
                        tdv.skip(i + 1int),
                    )));
                }
            }
            i += 1;
        }
        proof {
            assert(tdv.skip(n as int) =~= Seq::<(Epoch, Seq<IonMessage>)>::empty());
            assert(out.deep_view() + Seq::<(Epoch, Seq<crate::navigation::KbModel>)>::empty()
                =~= out.deep_view());
            match self.record@ {
                RecordV::NavRecord(s) => {},
                _ => {
                    assert(tdv =~= Seq::<(Epoch, Seq<IonMessage>)>::empty());
                    assert(out.deep_view() =~= Seq::<
                        (Epoch, Seq<crate::navigation::KbModel>),
                    >::empty());
                },
            }
        }
        out
    }

    /// Per epoch, the Nequick-G ionospheric models of a navigation record.
    /// Yields nothing for other record kinds.
    pub fn nequick_g_ionospheric_models(&self) -> (r: Vec<
        (Epoch, Vec<crate::navigation::NgModel>),
    >)
        requires
            self.wf(),
        ensures
            match self.record@ {
                RecordV::NavRecord(s) => r.deep_view() == ng_table(ion_table(s)),
                _ => r.deep_view() == Seq::<
                    (Epoch, Seq<crate::navigation::NgModel>),
                >::empty(),
            },
    {
        let models = self.ionospheric_models();
        let ghost tdv = models.deep_view();
        let n = models.len();
        let mut out: Vec<(Epoch, Vec<crate::navigation::NgModel>)> = Vec::new();
        let mut i: usize = 0;
        proof {
            assert(tdv.skip(0) =~= tdv);
            assert(out.deep_view() =~= Seq::<(Epoch, Seq<crate::navigation::NgModel>)>::empty());
            assert(out.deep_view() + ng_table(tdv) =~= ng_table(tdv));
        }
        while i < n
            invariant
                n == models@.len(),
                tdv == models.deep_view(),
                tdv.len() == n,
                i <= n,
                out.deep_view() + ng_table(tdv.skip(i as int)) == ng_table(tdv),
            decreases n - i,
        {
            let ghost rest = tdv.skip(i as int);
            proof {
                assert(rest[0] == tdv[i as int]);
                assert(rest.skip(1) =~= tdv.skip(i + 1int));
                assert(tdv[i as int] == (models@[i as int].0, models@[i as int].1.deep_view()));
            }
            let p = &models[i];
            let row = crate::processing::ng_row_of(&p.1);
            if row.len() > 0 {
                let ghost pre_dv = out.deep_view();
                out.push((p.0, row));
                proof {
                    assert(out.deep_view() =~= pre_dv.push((tdv[i as int].0,
                    crate::processing::ng_of(tdv[i as int].1))));
                    assert(out.deep_view() + ng_table(tdv.skip(i + 1int)) =~= pre_dv + (seq![
                        (tdv[i as int].0, crate::processing::ng_of(tdv[i as int].1)),
                    ] + ng_table(tdv.skip(i + 1int))));
                }
            } else {
                proof {
                    assert(crate::processing::ng_of(tdv[i as int].1).len() == 0);
                    assert(out.deep_view() + ng_table(tdv.skip(i + 1int)) =~= out.deep_view() + (
                    Seq::<(Epoch, Seq<crate::navigation::NgModel>)>::empty() + ng_table(
                        tdv.skip(i + 1int),
                    )));
                }
            }
            i += 1;
        }
        proof {
            assert(tdv.skip(n as int) =~= Seq::<(Epoch, Seq<IonMessage>)>::empty());
            assert(out.deep_view() + Seq::<(Epoch, Seq<crate::navigation::NgModel>)>::empty()
                =~= out.deep_view());
            match self.record@ {
                RecordV::NavRecord(s) => {},
                _ => {
                    assert(tdv =~= Seq::<(Epoch, Seq<IonMessage>)>::empty());
                    assert(out.deep_view() =~= Seq::<
                        (Epoch, Seq<crate::navigation::NgModel>),
                    >::empty());
                },
            }
        }
        out
    }

    /// Per epoch, the BDGIM ionospheric models of a navigation record.
    /// Yields nothing for other record kinds.
    pub fn bdgim_ionospheric_models(&self) -> (r: Vec<
        (Epoch, Vec<crate::navigation::BdModel>),
    >)
        requires
            self.wf(),
        ensures
            match self.record@ {
                RecordV::NavRecord(s) => r.deep_view() == bd_table(ion_table(s)),
                _ => r.deep_view() == Seq::<
                    (Epoch, Seq<crate::navigation::BdModel>),
                >::empty(),
            },
    {
        let models = self.ionospheric_models();
        let ghost tdv = models.deep_view();
        let n = models.len();
        let mut out: Vec<(Epoch, Vec<crate::navigation::BdModel>)> = Vec::new();
        let mut i: usize = 0;
        proof {
            assert(tdv.skip(0) =~= tdv);
            assert(out.deep_view() =~= Seq::<(Epoch, Seq<crate::navigation::BdModel>)>::empty());
            assert(out.deep_view() + bd_table(tdv) =~= bd_table(tdv));
        }
        while i < n
            invariant
                n == models@.len(),
                tdv == models.deep_view(),
                tdv.len() == n,
                i <= n,
                out.deep_view() + bd_table(tdv.skip(i as int)) == bd_table(tdv),
            decreases n - i,
        {
            let ghost rest = tdv.skip(i as int);
            proof {
                assert(rest[0] == tdv[i as int]);
                assert(rest.skip(1) =~= tdv.skip(i + 1int));
                assert(tdv[i as int] == (models@[i as int].0, models@[i as int].1.deep_view()));
            }
            let p = &models[i];
            let row = crate::processing::bd_row_of(&p.1);
            if row.len() > 0 {
                let ghost pre_dv = out.deep_view();
                out.push((p.0, row));
                proof {
                    assert(out.deep_view() =~= pre_dv.push((tdv[i as int].0,
                    crate::processing::bd_of(tdv[i as int].1))));
                    assert(out.deep_view() + bd_table(tdv.skip(i + 1int)) =~= pre_dv + (seq![
                        (tdv[i as int].0, crate::processing::bd_of(tdv[i as int].1)),
                    ] + bd_table(tdv.skip(i + 1int))));
                }
            } else {
                proof {
                    assert(crate::processing::bd_of(tdv[i as int].1).len() == 0);
                    assert(out.deep_view() + bd_table(tdv.skip(i + 1int)) =~= out.deep_view() + (
                    Seq::<(Epoch, Seq<crate::navigation::BdModel>)>::empty() + bd_table(
                        tdv.skip(i + 1int),
                    )));
                }
            }
            i += 1;
        }
        proof {
            assert(tdv.skip(n as int) =~= Seq::<(Epoch, Seq<IonMessage>)>::empty());
            assert(out.deep_view() + Seq::<(Epoch, Seq<crate::navigation::BdModel>)>::empty()
                =~= out.deep_view());
            match self.record@ {
                RecordV::NavRecord(s) => {},
                _ => {
                    assert(tdv =~= Seq::<(Epoch, Seq<IonMessage>)>::empty());
                    assert(out.deep_view() =~= Seq::<
                        (Epoch, Seq<crate::navigation::BdModel>),
                    >::empty());
                },
            }
        }
        out
    }

    /// Marks this file as produced from a compacted observation file:
    /// stamps compact-format information carrying the current wall-clock
    /// time. Does nothing on other record kinds.
    pub fn crx2rnx(&mut self)
        requires
            old(self).wf(),
        ensures
            final(self).wf(),
            final(self).record@ == old(self).record@,
            final(self).comments@ == old(self).comments@,
            if old(self).header@.rinex_type == Type::ObservationData {
                exists|t: CivilTime|
                    (#[trigger] t.wf()) && t.year >= 0 && final(self).header@ == (
                    crate::header::HeaderV {
                        crinex: Some(
                            crate::header::CrinexV {
                                version_major: 3u8,
                                version_minor: 0u8,
                                prog: "rustcrx"@,
                                date: crate::civil::secs_of_civil(t) as i64,
                            },
                        ),
                        ..old(self).header@
                    })
            } else {
                final(self).header@ == old(self).header@
            },
    {
        if self.header.rinex_type == Type::ObservationData {
            let now = crate::marker::utc_now_civil();
            let stamp = if now.year >= 0 {
                now
            } else {
                CivilTime { year: 0, month: 1, day: 1, hour: 0, minute: 0, second: 0 }
            };
            let date = crate::civil::civil_to_secs(stamp);
            let crinex = crate::header::Crinex {
                version_major: 3,
                version_minor: 0,
                prog: new_rustcrx_name(),
                date,
            };
            let h = self.header.with_crinex(crinex);
            self.header = h;
            proof {
                assert((stamp.wf()) && stamp.year >= 0 && self.header@ == (
                crate::header::HeaderV {
                    crinex: Some(
                        crate::header::CrinexV {
                            version_major: 3u8,
                            version_minor: 0u8,
                            prog: "rustcrx"@,
                            date: crate::civil::secs_of_civil(stamp) as i64,
                        },
                    ),
                    ..old(self).header@
                }));
            }
        }
    }
}

/// The name this library stamps as the compacting program.
fn new_rustcrx_name() -> (r: String)
    ensures
        r@ == "rustcrx"@,
{
    String::from_str("rustcrx")
}

} // verus!


verus! {

/// The observable listing of a file: the header's code tables when the
/// header carries any (observation codes labeled by constellation), else the
/// message-type and time-system codes found in a navigation record.
pub open spec fn observables_spec(h: crate::header::HeaderV, r: RecordV) -> Seq<Seq<char>> {
    if h.obs_codes is Some {
        obs_header_codes(h.obs_codes->0)
    } else if h.meteo_codes is Some {
        h.meteo_codes->0
    } else if h.clock_codes is Some {
        h.clock_codes->0
    } else {
        match r {
            RecordV::NavRecord(s) => nav_codes_table(s),
            _ => Seq::empty(),
        }
    }
}

/// Collects the codes of one navigation frame list, by class.
fn codes_of_frames(frames: &Vec<crate::navigation::Frame>, eph: bool) -> (r: Vec<String>)
    ensures
        eph ==> r.deep_view() == eph_codes(frames.deep_view()),
        !eph ==> r.deep_view() == sto_codes(frames.deep_view()),
{
    let n = frames.len();
    let mut out: Vec<String> = Vec::new();
    let mut j: usize = 0;
    let ghost fdv = frames.deep_view();
    proof {
        assert(fdv.skip(0) =~= fdv);
        assert(out.deep_view() =~= Seq::<Seq<char>>::empty());
        assert(out.deep_view() + eph_codes(fdv) =~= eph_codes(fdv));
        assert(out.deep_view() + sto_codes(fdv) =~= sto_codes(fdv));
    }
    while j < n
        invariant
            n == frames@.len(),
            fdv == frames.deep_view(),
            fdv.len() == n,
            j <= n,
            eph ==> out.deep_view() + eph_codes(fdv.skip(j as int)) == eph_codes(fdv),
            !eph ==> out.deep_view() + sto_codes(fdv.skip(j as int)) == sto_codes(fdv),
        decreases n - j,
    {
        let ghost rest = fdv.skip(j as int);
        proof {
            assert(rest[0] == fdv[j as int]);
            assert(rest.skip(1) =~= fdv.skip(j + 1int));
            assert(fdv[j as int] == frames@[j as int].deep_view());
        }
        let f = &frames[j];
        let mut pushed = false;
        if eph {
            match f {
                crate::navigation::Frame::Eph(e) => {
                    let ghost pre = out.deep_view();
                    out.push(String::from_str(e.msg_type.to_code()));
                    pushed = true;
                    proof {
                        assert(out.deep_view() =~= pre.push(crate::navigation::spec_msg_code(
                            fdv[j as int]->Eph_0.msg_type,
                        )));
                        assert(out.deep_view() + eph_codes(fdv.skip(j + 1int)) =~= pre + (seq![
                            crate::navigation::spec_msg_code(fdv[j as int]->Eph_0.msg_type),
                        ] + eph_codes(fdv.skip(j + 1int))));
                    }
                },
                _ => {},
            }
        } else {
            match f {
                crate::navigation::Frame::Sto(st) => {
                    let ghost pre = out.deep_view();
                    out.push(st.system.clone());
                    pushed = true;
                    proof {
                        assert(out.deep_view() =~= pre.push(fdv[j as int]->Sto_0.system));
                        assert(out.deep_view() + sto_codes(fdv.skip(j + 1int)) =~= pre + (seq![
                            fdv[j as int]->Sto_0.system,
                        ] + sto_codes(fdv.skip(j + 1int))));
                    }
                },
                _ => {},
            }
        }
        proof {
            if !pushed {
                if eph {
                    assert(out.deep_view() + eph_codes(fdv.skip(j + 1int)) =~= out.deep_view() + (
                    Seq::<Seq<char>>::empty() + eph_codes(fdv.skip(j + 1int))));
                } else {
                    assert(out.deep_view() + sto_codes(fdv.skip(j + 1int)) =~= out.deep_view() + (
                    Seq::<Seq<char>>::empty() + sto_codes(fdv.skip(j + 1int))));
                }
            }
        }
        j += 1;
    }
    proof {
        assert(fdv.skip(n as int) =~= Seq::<FrameV>::empty());
        assert(out.deep_view() + Seq::<Seq<char>>::empty() =~= out.deep_view());
    }
    out
}

/// Collects the announced codes of one navigation epoch entry.
fn codes_of_nav_entry(e: &crate::navigation::NavEntry) -> (r: Vec<String>)
    ensures
        r.deep_view() == entry_nav_codes(e.deep_view()),
{
    let n = e.classes.len();
    let mut out: Vec<String> = Vec::new();
    let mut i: usize = 0;
    let ghost cs = e.deep_view();
    proof {
        assert(cs.skip(0) =~= cs);
        assert(out.deep_view() =~= Seq::<Seq<char>>::empty());
        assert(out.deep_view() + entry_nav_codes(cs) =~= entry_nav_codes(cs));
    }
    while i < n
        invariant
            n == e.classes@.len(),
            cs == e.deep_view(),
            cs.len() == n,
            i <= n,
            out.deep_view() + entry_nav_codes(cs.skip(i as int)) == entry_nav_codes(cs),
        decreases n - i,
    {
        let ghost rest = cs.skip(i as int);
        proof {
            assert(rest[0] == cs[i as int]);
            assert(rest.skip(1) =~= cs.skip(i + 1int));
            assert(cs[i as int] == (e.classes@[i as int].0, e.classes@[i as int].1.deep_view()));
        }
        let p = &e.classes[i];
        let is_eph = p.0 == crate::navigation::FrameClass::Ephemeris;
        let is_sto = p.0 == crate::navigation::FrameClass::SystemTimeOffset;
        if is_eph || is_sto {
            let mut found = codes_of_frames(&p.1, is_eph);
            let ghost pre = out.deep_view();
            let ghost found_dv = found.deep_view();
            out.append(&mut found);
            proof {
                assert(out.deep_view() =~= pre + found_dv);
                if is_eph {
                    assert(out.deep_view() + entry_nav_codes(cs.skip(i + 1int)) =~= pre + (
                    eph_codes(cs[i as int].1) + entry_nav_codes(cs.skip(i + 1int))));
                } else {
                    assert(out.deep_view() + entry_nav_codes(cs.skip(i + 1int)) =~= pre + (
                    sto_codes(cs[i as int].1) + entry_nav_codes(cs.skip(i + 1int))));
                }
            }
        } else {
            proof {
                assert(out.deep_view() + entry_nav_codes(cs.skip(i + 1int)) =~= out.deep_view() + (
                Seq::<Seq<char>>::empty() + entry_nav_codes(cs.skip(i + 1int))));
            }
        }
        i += 1;
    }
    proof {
        assert(cs.skip(n as int) =~= Seq::<(crate::navigation::FrameClass, Seq<FrameV>)>::empty());
        assert(out.deep_view() + Seq::<Seq<char>>::empty() =~= out.deep_view());
    }
    out
}

impl Rinex {
    /// The observables this file announces: labeled observation codes from
    /// the header when present, else meteo sensor codes, else clock-data
    /// codes, else, for navigation records, the message types and time
    /// systems found in the record.
    pub fn observables(&self) -> (r: Vec<String>)
        requires
            self.wf(),
        ensures
            r.deep_view() == observables_spec(self.header@, self.record@),
    {
        if let Some(codes) = &self.header.obs_codes {
            let n = codes.len();
            let mut out: Vec<String> = Vec::new();
            let mut i: usize = 0;
            let ghost cdv = codes.deep_view();
            proof {
                assert(cdv.skip(0) =~= cdv);
                assert(out.deep_view() =~= Seq::<Seq<char>>::empty());
                assert(out.deep_view() + obs_header_codes(cdv) =~= obs_header_codes(cdv));
            }
            while i < n
                invariant
                    n == codes@.len(),
                    cdv == codes.deep_view(),
                    cdv.len() == n,
                    i <= n,
                    out.deep_view() + obs_header_codes(cdv.skip(i as int)) == obs_header_codes(
                        cdv,
                    ),
                decreases n - i,
            {
                let ghost rest = cdv.skip(i as int);
                proof {
                    assert(rest[0] == cdv[i as int]);
                    assert(rest.skip(1) =~= cdv.skip(i + 1int));
                    assert(cdv[i as int] == (codes@[i as int].0, codes@[
                        i as int].1.deep_view()));
                }
                let p = &codes[i];
                let ghost f = |c: Seq<char>| spec_three_letter_code(cdv[i as int].0) + seq![':']
                    + c;
                let m = p.1.len();
                let mut j: usize = 0;
                let ghost pre_outer = out.deep_view();
                proof {
                    reveal_strlit(":");
                    assert(pre_outer + cdv[i as int].1.take(0int).map_values(f) =~= pre_outer);
                }
                while j < m
                    invariant
                        m == p.1@.len(),
                        p.1.deep_view() == cdv[i as int].1,
                        cdv[i as int].1.len() == m,
                        cdv[i as int].0 == p.0,
                        j <= m,
                        out.deep_view() == pre_outer + cdv[i as int].1.take(j as int).map_values(
                            f,
                        ),
                        f == (|c: Seq<char>| spec_three_letter_code(cdv[i as int].0) + seq![':']
                            + c),
                    decreases m - j,
                {
                    let mut one = String::from_str(p.0.to_3_letter_code());
                    one.append(":");
                    one.append(p.1[j].as_str());
                    let ghost pre = out.deep_view();
                    out.push(one);
                    proof {
                        reveal_strlit(":");
                        assert(cdv[i as int].1[j as int] == p.1@[j as int]@);
                        assert(one@ =~= f(cdv[i as int].1[j as int]));
                        assert(out.deep_view() =~= pre.push(f(cdv[i as int].1[j as int])));
                        assert(out.deep_view() =~= pre_outer + cdv[i as int].1.take(
                            j + 1int,
                        ).map_values(f));
                    }
                    j += 1;
                }
                proof {
                    assert(cdv[i as int].1.take(m as int) =~= cdv[i as int].1);
                    assert(out.deep_view() =~= pre_outer + cdv[i as int].1.map_values(f));
                    assert(out.deep_view() + obs_header_codes(cdv.skip(i + 1int)) =~= pre_outer + (
                    cdv[i as int].1.map_values(f) + obs_header_codes(cdv.skip(i + 1int))));
                }
                i += 1;
            }
            proof {
                assert(cdv.skip(n as int) =~= Seq::<(Constellation, Seq<Seq<char>>)>::empty());
                assert(out.deep_view() + Seq::<Seq<char>>::empty() =~= out.deep_view());
            }
            out
        } else if let Some(codes) = &self.header.meteo_codes {
            let r = codes.deep_clone();
            r
        } else if let Some(codes) = &self.header.clock_codes {
            let r = codes.deep_clone();
            r
        } else {
            match &self.record {
                Record::NavRecord(s) => {
                    let n = s.len();
                    let mut out: Vec<String> = Vec::new();
                    let mut i: usize = 0;
                    proof {
                        assert(s@.skip(0) =~= s@);
                        assert(out.deep_view() =~= Seq::<Seq<char>>::empty());
                        assert(out.deep_view() + nav_codes_table(s@) =~= nav_codes_table(s@));
                    }
                    while i < n
                        invariant
                            s.wf(),
                            n == s@.len(),
                            i <= n,
                            out.deep_view() + nav_codes_table(s@.skip(i as int))
                                == nav_codes_table(s@),
                        decreases n - i,
                    {
                        let ghost rest = s@.skip(i as int);
                        proof {
                            assert(rest[0] == s@[i as int]);
                            assert(rest.skip(1) =~= s@.skip(i + 1int));
                        }
                        let p = s.get(i);
                        let mut found = codes_of_nav_entry(&p.1);
                        let ghost pre = out.deep_view();
                        let ghost found_dv = found.deep_view();
                        out.append(&mut found);
                        proof {
                            assert(out.deep_view() =~= pre + found_dv);
                            assert(out.deep_view() + nav_codes_table(s@.skip(i + 1int)) =~= pre + (
                            entry_nav_codes(s@[i as int].1) + nav_codes_table(
                                s@.skip(i + 1int),
                            )));
                        }
                        i += 1;
                    }
                    proof {
                        assert(s@.skip(n as int) =~= Seq::<(Epoch, NavEntryV)>::empty());
                        assert(out.deep_view() + Seq::<Seq<char>>::empty() =~= out.deep_view());
                    }
                    out
                },
                _ => {
                    let r: Vec<String> = Vec::new();
                    proof {
                        assert(r.deep_view() =~= Seq::<Seq<char>>::empty());
                    }
                    r
                },
            }
        }
    }
}

} // verus!

verus! {

/// The conventional file name of a file: the lower-cased four-letter station
/// label, the (unresolved) day-of-year placeholder, and the fields the
/// header and first epoch fix. The older short form is used below format
/// revision three, the modern long form from revision three on.
pub open spec fn spec_filename(h: crate::header::HeaderV, t: CivilTime) -> Seq<char> {
    let nnnn = crate::strutil::lower_seq(h.station.take(4));
    if h.version_major < 3 {
        let kind = if h.rinex_type == Type::ObservationData {
            if h.crinex is Some {
                'd'
            } else {
                'o'
            }
        } else if h.rinex_type == Type::NavigationData {
            match h.constellation {
                Some(c) => if c == crate::constellation::Constellation::Glonass {
                    'g'
                } else {
                    'n'
                },
                None => 'x',
            }
        } else {
            'm'
        };
        nnnn + "DDD"@ + spec_hourly_session(t.hour) + seq!['.'] + crate::strutil::dec_digits(
            t.year as nat,
            2,
        ) + seq![kind]
    } else {
        let c = match h.constellation {
            Some(c) => crate::constellation::spec_upper_code(c),
            None => 'X',
        };
        let kind = if h.rinex_type == Type::ObservationData {
            'O'
        } else if h.rinex_type == Type::NavigationData {
            'N'
        } else {
            'M'
        };
        let fmt = if h.crinex is Some {
            "crx"@
        } else {
            "rnx"@
        };
        nnnn + "00CCC_R_"@ + crate::strutil::dec_digits(t.year as nat, 4) + "DDD"@
            + crate::strutil::dec_digits(t.hour as nat, 2) + crate::strutil::dec_digits(
            t.minute as nat,
            2,
        ) + "_00H_00Z_"@ + seq![c] + seq![kind] + seq!['.'] + fmt
    }
}

impl Rinex {
    /// Builds a file name respecting the naming conventions, from the header
    /// and the first recorded epoch. The day-of-year field stays a
    /// placeholder: the header projection does not carry the production
    /// date it would need.
    pub fn filename(&self) -> (r: String)
        requires
            self.wf(),
            record_has_epochs(self.record@),
            record_epoch_seq(self.record@).len() > 0,
            self.header@.station.len() >= 4,
            self.header@.rinex_type == Type::ObservationData || self.header@.rinex_type
                == Type::NavigationData || self.header@.rinex_type == Type::MeteoData,
            crate::civil::EPOCH_SECS_LO <= record_epoch_seq(self.record@)[0].date
                <= crate::civil::EPOCH_SECS_HI,
            crate::civil::civil_of_secs(record_epoch_seq(self.record@)[0].date as int).year >= 0,
        ensures
            r@ == spec_filename(
                self.header@,
                crate::civil::civil_of_secs(record_epoch_seq(self.record@)[0].date as int),
            ),
    {
        let eps = self.epochs();
        let t = crate::civil::secs_to_civil(eps[0].date);
        proof {
            crate::civil::lemma_civil_of_secs_clock_ranges(eps@[0].date as int);
        }
        let head4 = self.header.station.as_str().substring_char(0, 4);
        let nnnn = crate::strutil::to_lower(head4);
        proof {
            assert(head4@ =~= self.header@.station.take(4));
        }
        let mut out = String::new();
        out.append(nnnn.as_str());
        if self.header.version_major < 3 {
            out.append("DDD");
            let sess = hourly_session_str(t.hour);
            out.append(sess.as_str());
            crate::strutil::push_char(&mut out, '.');
            crate::strutil::push_decimal(&mut out, t.year as u64, 2);
            let kind: char = match self.header.rinex_type {
                Type::ObservationData => {
                    if self.header.is_crinex() {
                        'd'
                    } else {
                        'o'
                    }
                },
                Type::NavigationData => {
                    match self.header.constellation {
                        Some(c) => {
                            if c == crate::constellation::Constellation::Glonass {
                                'g'
                            } else {
                                'n'
                            }
                        },
                        None => 'x',
                    }
                },
                _ => 'm',
            };
            crate::strutil::push_char(&mut out, kind);
            proof {
                assert(out@ =~= spec_filename(
                    self.header@,
                    crate::civil::civil_of_secs(record_epoch_seq(self.record@)[0].date as int),
                ));
            }
        } else {
            out.append("00CCC_R_");
            crate::strutil::push_decimal(&mut out, t.year as u64, 4);
            out.append("DDD");
            crate::strutil::push_decimal(&mut out, t.hour as u64, 2);
            crate::strutil::push_decimal(&mut out, t.minute as u64, 2);
            out.append("_00H_00Z_");
            let c: char = match self.header.constellation {
                Some(c) => c.to_upper_1_letter_code(),
                None => 'X',
            };
            crate::strutil::push_char(&mut out, c);
            let kind: char = match self.header.rinex_type {
                Type::ObservationData => 'O',
                Type::NavigationData => 'N',
                _ => 'M',
            };
            crate::strutil::push_char(&mut out, kind);
            crate::strutil::push_char(&mut out, '.');
            if self.header.is_crinex() {
                out.append("crx");
            } else {
                out.append("rnx");
            }
            proof {
                assert(out@ =~= spec_filename(
                    self.header@,
                    crate::civil::civil_of_secs(record_epoch_seq(self.record@)[0].date as int),
                ));
            }
        }
        out
    }
}

} // verus!

verus! {

/// Merging two records whose time spans do not overlap concatenates them:
/// when every epoch of the incoming record comes after every epoch of the
/// original, the merged entry sequence is exactly the original followed by
/// the incoming one.
pub proof fn lemma_merge_disjoint_concat<VV>(
    c: Seq<(Epoch, VV)>,
    a: Seq<(Epoch, VV)>,
    b: Seq<(Epoch, VV)>,
)
    requires
        sorted_by_date(a),
        sorted_by_date(b),
        merged_series(c, a, b),
        forall|i: int, j: int|
            0 <= i < a.len() && 0 <= j < b.len() ==> (#[trigger] a[i]).0.date < (
            #[trigger] b[j]).0.date,
    ensures
        c == a + b,
{
    let ab = a + b;
    assert(sorted_by_date(ab)) by {
        assert forall|i: int, j: int|
            #![trigger ab[i], ab[j]]
            0 <= i < j < ab.len() implies ab[i].0.date < ab[j].0.date by {
            if j < a.len() {
                assert(ab[i] == a[i]);
                assert(ab[j] == a[j]);
            } else if i < a.len() {
                assert(ab[i] == a[i]);
                assert(ab[j] == b[j - a.len()]);
            } else {
                assert(ab[i] == b[i - a.len()]);
                assert(ab[j] == b[j - a.len()]);
            }
        }
    }
    assert forall|d: i64| #[trigger] has_date(ab, d) <==> (has_date(a, d) || has_date(b, d)) by {
        if has_date(ab, d) {
            let k = choose|k: int| 0 <= k < ab.len() && (#[trigger] ab[k]).0.date == d;
            if k < a.len() {
                assert(a[k].0.date == d);
                assert(has_date(a, d));
            } else {
                assert(b[k - a.len()].0.date == d);
                assert(has_date(b, d));
            }
        }
        if has_date(a, d) {
            let k = choose|k: int| 0 <= k < a.len() && (#[trigger] a[k]).0.date == d;
            assert(ab[k].0.date == d);
            assert(has_date(ab, d));
        }
        if has_date(b, d) {
            let k = choose|k: int| 0 <= k < b.len() && (#[trigger] b[k]).0.date == d;
            assert(ab[k + a.len()].0.date == d);
            assert(has_date(ab, d));
        }
    }
    assert forall|d: i64| !(#[trigger] has_date(a, d) && has_date(b, d)) by {
        if has_date(a, d) && has_date(b, d) {
            let ka = choose|k: int| 0 <= k < a.len() && (#[trigger] a[k]).0.date == d;
            let kb = choose|k: int| 0 <= k < b.len() && (#[trigger] b[k]).0.date == d;
            assert(a[ka].0.date < b[kb].0.date);
            assert(false);
        }
    }
    assert forall|d: i64| #[trigger] has_date(c, d) implies entry_of(c, d) == entry_of(ab, d) by {
        crate::series::lemma_date_index(ab, d);
        if has_date(b, d) {
            crate::series::lemma_date_index(b, d);
            let kb = crate::series::date_index(b, d);
            assert(ab[kb + a.len()].0.date == d);
            assert(crate::series::date_index(ab, d) == kb + a.len());
            assert(entry_of(ab, d) == b[kb]);
            assert(entry_of(c, d).1 == entry_of(b, d).1);
            assert(entry_of(c, d).0 == entry_of(b, d).0);
            assert(entry_of(c, d) == entry_of(b, d));
        } else {
            assert(has_date(a, d));
            crate::series::lemma_date_index(a, d);
            let ka = crate::series::date_index(a, d);
            assert(ab[ka].0.date == d);
            assert(crate::series::date_index(ab, d) == ka);
            assert(entry_of(ab, d) == a[ka]);
            assert(entry_of(c, d) == entry_of(a, d));
        }
    }
    assert forall|d: i64| #[trigger] has_date(c, d) <==> has_date(ab, d) by {}
    crate::series::lemma_sorted_entries_equal(c, ab);
}

} // verus!
