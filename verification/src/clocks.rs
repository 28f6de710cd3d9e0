//! Clock records: per epoch, a map from clock-data type to, per reference
//! system, a set of fixed-point values (bias, and where present sigma, rate
//! and rate sigma).
use vstd::prelude::*;

use crate::deepclone::DeepClone;
use crate::strutil::str_listed;

verus! {

/// The kind of clock data a record row carries.
#[derive(Clone, Copy, Debug, PartialEq, Eq, Structural)]
pub enum ClockDataType {
    /// Receiver clocks derived from a network.
    Ar,
    /// Satellite clocks derived from a network.
    As,
    /// Calibration measurements for a single receiver.
    Cr,
    /// Discontinuity measurements for a single receiver.
    Dr,
    /// Monitor measurements for broadcast satellite clocks.
    Ms,
}

impl View for ClockDataType {
    type V = ClockDataType;

    open spec fn view(&self) -> ClockDataType {
        *self
    }
}

impl DeepView for ClockDataType {
    type V = ClockDataType;

    open spec fn deep_view(&self) -> ClockDataType {
        *self
    }
}

impl DeepClone for ClockDataType {
    fn deep_clone(&self) -> (r: Self) {
        *self
    }
}

/// The two-letter code of a clock-data type, as filters name it.
pub open spec fn spec_clock_code(t: ClockDataType) -> Seq<char> {
    match t {
        ClockDataType::Ar => "AR"@,
        ClockDataType::As => "AS"@,
        ClockDataType::Cr => "CR"@,
        ClockDataType::Dr => "DR"@,
        ClockDataType::Ms => "MS"@,
    }
}

impl ClockDataType {
    /// Returns the two-letter code of this clock-data type.
    pub fn to_code(&self) -> (r: &'static str)
        ensures
            r@ == spec_clock_code(*self),
    {
        match self {
            ClockDataType::Ar => "AR",
            ClockDataType::As => "AS",
            ClockDataType::Cr => "CR",
            ClockDataType::Dr => "DR",
            ClockDataType::Ms => "MS",
        }
    }
}

/// The model of one epoch of a clock record.
pub type ClockEntryV = Seq<(ClockDataType, Seq<(Seq<char>, Seq<i64>)>)>;

/// One epoch of a clock record: per clock-data type, the value sets by
/// reference-system identifier.
#[derive(Debug)]
pub struct ClockEntry {
    /// Per clock-data type, the value sets by reference-system identifier.
    pub types: Vec<(ClockDataType, Vec<(String, Vec<i64>)>)>,
}

impl View for ClockEntry {
    type V = ClockEntryV;

    open spec fn view(&self) -> ClockEntryV {
        self.types.deep_view()
    }
}

impl DeepView for ClockEntry {
    type V = ClockEntryV;

    open spec fn deep_view(&self) -> ClockEntryV {
        self.types.deep_view()
    }
}

impl DeepClone for ClockEntry {
    fn deep_clone(&self) -> (r: Self) {
        ClockEntry { types: self.types.deep_clone() }
    }
}

impl ClockEntry {
    /// Builds an epoch entry.
    pub fn new(types: Vec<(ClockDataType, Vec<(String, Vec<i64>)>)>) -> (r: Self)
        ensures
            r.deep_view() == types.deep_view(),
    {
        ClockEntry { types }
    }
}

/// An epoch entry keeping only the clock-data types whose code the allow
/// list names.
pub open spec fn clock_code_kept(e: ClockEntryV, codes: Seq<Seq<char>>) -> ClockEntryV {
    e.filter(
        |p: (ClockDataType, Seq<(Seq<char>, Seq<i64>)>)| str_listed(codes, spec_clock_code(p.0)),
    )
}

/// Filters one epoch entry by a clock-data-type code allow list.
pub fn code_filter_clock_entry(e: &ClockEntry, codes: &Vec<String>) -> (r: ClockEntry)
    ensures
        r.deep_view() == clock_code_kept(e.deep_view(), codes.deep_view()),
{
    let ghost pred = |p: (ClockDataType, Seq<(Seq<char>, Seq<i64>)>)|
        str_listed(codes.deep_view(), spec_clock_code(p.0));
    let n = e.types.len();
    let mut out: Vec<(ClockDataType, Vec<(String, Vec<i64>)>)> = Vec::new();
    let mut i: usize = 0;
    proof {
        reveal(Seq::filter);
        assert(out.deep_view() =~= e.deep_view().take(0int).filter(pred));
    }
    while i < n
        invariant
            n == e.types@.len(),
            i <= n,
            out.deep_view() == e.deep_view().take(i as int).filter(pred),
            pred == (|p: (ClockDataType, Seq<(Seq<char>, Seq<i64>)>)|
                str_listed(codes.deep_view(), spec_clock_code(p.0))),
        decreases n - i,
    {
        let p = &e.types[i];
        let ghost elem = e.deep_view()[i as int];
        proof {
            reveal(Seq::filter);
            assert(e.deep_view().take(i + 1int).drop_last() =~= e.deep_view().take(i as int));
            assert(e.deep_view().take(i + 1int).last() == elem);
            assert(elem == (e.types@[i as int].0, e.types@[i as int].1.deep_view()));
        }
        if crate::strutil::str_list_contains(codes, p.0.to_code()) {
            let cloned = p.1.deep_clone();
            let ghost pre_dv = out.deep_view();
            out.push((p.0, cloned));
            proof {
                assert(pred(elem));
                assert(out.deep_view() =~= pre_dv.push(elem));
                assert(out.deep_view() =~= e.deep_view().take(i + 1int).filter(pred));
            }
        } else {
            proof {
                assert(!pred(elem));
                assert(out.deep_view() == e.deep_view().take(i + 1int).filter(pred));
            }
        }
        i += 1;
    }
    proof {
        assert(e.deep_view().take(n as int) =~= e.deep_view());
    }
    ClockEntry { types: out }
}


/// The whole clock series with the code filter applied to every epoch entry.
pub open spec fn clock_series_filtered(s: Seq<(crate::epoch::Epoch, ClockEntryV)>, codes: Seq<
    Seq<char>,
>) -> Seq<(crate::epoch::Epoch, ClockEntryV)> {
    s.map_values(|p: (crate::epoch::Epoch, ClockEntryV)| (p.0, clock_code_kept(p.1, codes)))
}

/// Applies the clock-data-type code filter across a whole clock series, as a
/// structurally independent copy; epochs and their order stay untouched.
pub fn filter_clock_series(
    rec: &crate::series::TimeSeries<ClockEntry>,
    codes: &Vec<String>,
) -> (r: crate::series::TimeSeries<ClockEntry>)
    requires
        rec.wf(),
    ensures
        r.wf(),
        r@ == clock_series_filtered(rec@, codes.deep_view()),
{
    let ghost fm = |p: (crate::epoch::Epoch, ClockEntryV)|
        (p.0, clock_code_kept(p.1, codes.deep_view()));
    let n = rec.len();
    let mut out: Vec<(crate::epoch::Epoch, ClockEntry)> = Vec::new();
    let mut i: usize = 0;
    proof {
        assert(out.deep_view() =~= rec@.take(0int).map_values(fm));
    }
    while i < n
        invariant
            rec.wf(),
            n == rec@.len(),
            i <= n,
            out.deep_view() == rec@.take(i as int).map_values(fm),
            fm == (|p: (crate::epoch::Epoch, ClockEntryV)|
                (p.0, clock_code_kept(p.1, codes.deep_view()))),
        decreases n - i,
    {
        let p = rec.get(i);
        let fe = code_filter_clock_entry(&p.1, codes);
        let ghost pre = out.deep_view();
        out.push((p.0, fe));
        proof {
            assert(out.deep_view() =~= pre.push(fm(rec@[i as int])));
            assert(out.deep_view() =~= rec@.take(i + 1int).map_values(fm));
        }
        i += 1;
    }
    proof {
        assert(rec@.take(n as int) =~= rec@);
        let od = out.deep_view();
        assert(crate::series::sorted_by_date(od)) by {
            assert forall|x: int, y: int|
                #![trigger od[x], od[y]]
                0 <= x < y < od.len() implies od[x].0.date < od[y].0.date by {
                assert(od[x].0 == rec@[x].0);
                assert(od[y].0 == rec@[y].0);
            }
        }
    }
    crate::series::TimeSeries::from_parts(out)
}

} // verus!
