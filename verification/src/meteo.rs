//! Meteorological records: per epoch, a map from sensor-observable code to
//! one reading (a fixed-point integer in the sensor's unit).
use vstd::prelude::*;

use crate::deepclone::DeepClone;
use crate::strutil::str_listed;

verus! {

/// The model of one epoch of a meteo record.
pub type MeteoEntryV = Seq<(Seq<char>, i64)>;

/// One epoch of a meteo record: readings by sensor-observable code.
#[derive(Debug)]
pub struct MeteoEntry {
    /// Readings by two-letter sensor-observable code.
    pub observations: Vec<(String, i64)>,
}

impl View for MeteoEntry {
    type V = MeteoEntryV;

    open spec fn view(&self) -> MeteoEntryV {
        self.observations.deep_view()
    }
}

impl DeepView for MeteoEntry {
    type V = MeteoEntryV;

    open spec fn deep_view(&self) -> MeteoEntryV {
        self.observations.deep_view()
    }
}

impl DeepClone for MeteoEntry {
    fn deep_clone(&self) -> (r: Self) {
        MeteoEntry { observations: self.observations.deep_clone() }
    }
}

impl MeteoEntry {
    /// Builds an epoch entry from readings.
    pub fn new(observations: Vec<(String, i64)>) -> (r: Self)
        ensures
            r.deep_view() == observations.deep_view(),
    {
        MeteoEntry { observations }
    }
}

/// An epoch entry filtered by a sensor-code allow list.
pub open spec fn meteo_code_kept(e: MeteoEntryV, codes: Seq<Seq<char>>) -> MeteoEntryV {
    e.filter(|p: (Seq<char>, i64)| str_listed(codes, p.0))
}

/// Filters one epoch entry by a sensor-code allow list.
pub fn code_filter_meteo_entry(e: &MeteoEntry, codes: &Vec<String>) -> (r: MeteoEntry)
    ensures
        r.deep_view() == meteo_code_kept(e.deep_view(), codes.deep_view()),
{
    let ghost pred = |p: (Seq<char>, i64)| str_listed(codes.deep_view(), p.0);
    let n = e.observations.len();
    let mut out: Vec<(String, i64)> = Vec::new();
    let mut i: usize = 0;
    proof {
        reveal(Seq::filter);
        assert(out.deep_view() =~= e.deep_view().take(0int).filter(pred));
    }
    while i < n
        invariant
            n == e.observations@.len(),
            i <= n,
            out.deep_view() == e.deep_view().take(i as int).filter(pred),
            pred == (|p: (Seq<char>, i64)| str_listed(codes.deep_view(), p.0)),
        decreases n - i,
    {
        let p = &e.observations[i];
        let ghost elem = e.deep_view()[i as int];
        proof {
            reveal(Seq::filter);
            assert(e.deep_view().take(i + 1int).drop_last() =~= e.deep_view().take(i as int));
            assert(e.deep_view().take(i + 1int).last() == elem);
            assert(elem == (e.observations@[i as int].0@, e.observations@[i as int].1));
        }
        if crate::strutil::str_list_contains(codes, p.0.as_str()) {
            let ghost pre_dv = out.deep_view();
            out.push((p.0.clone(), p.1));
            proof {
                assert(pred(elem));
                assert(out.deep_view() =~= pre_dv.push(elem));
                assert(out.deep_view() =~= e.deep_view().take(i + 1int).filter(pred));
            }
        } else {
            proof {
                assert(!pred(elem));
                assert(out.deep_view() == e.deep_view().take(i + 1int).filter(pred));
            }
        }
        i += 1;
    }
    proof {
        assert(e.deep_view().take(n as int) =~= e.deep_view());
    }
    MeteoEntry { observations: out }
}


/// The whole meteo series with the code filter applied to every epoch entry.
pub open spec fn meteo_series_filtered(s: Seq<(crate::epoch::Epoch, MeteoEntryV)>, codes: Seq<
    Seq<char>,
>) -> Seq<(crate::epoch::Epoch, MeteoEntryV)> {
    s.map_values(|p: (crate::epoch::Epoch, MeteoEntryV)| (p.0, meteo_code_kept(p.1, codes)))
}

/// Applies the sensor-code filter across a whole meteo series, as a
/// structurally independent copy; epochs and their order stay untouched.
pub fn filter_meteo_series(
    rec: &crate::series::TimeSeries<MeteoEntry>,
    codes: &Vec<String>,
) -> (r: crate::series::TimeSeries<MeteoEntry>)
    requires
        rec.wf(),
    ensures
        r.wf(),
        r@ == meteo_series_filtered(rec@, codes.deep_view()),
{
    let ghost fm = |p: (crate::epoch::Epoch, MeteoEntryV)|
        (p.0, meteo_code_kept(p.1, codes.deep_view()));
    let n = rec.len();
    let mut out: Vec<(crate::epoch::Epoch, MeteoEntry)> = Vec::new();
    let mut i: usize = 0;
    proof {
        assert(out.deep_view() =~= rec@.take(0int).map_values(fm));
    }
    while i < n
        invariant
            rec.wf(),
            n == rec@.len(),
            i <= n,
            out.deep_view() == rec@.take(i as int).map_values(fm),
            fm == (|p: (crate::epoch::Epoch, MeteoEntryV)|
                (p.0, meteo_code_kept(p.1, codes.deep_view()))),
        decreases n - i,
    {
        let p = rec.get(i);
        let fe = code_filter_meteo_entry(&p.1, codes);
        let ghost pre = out.deep_view();
        out.push((p.0, fe));
        proof {
            assert(out.deep_view() =~= pre.push(fm(rec@[i as int])));
            assert(out.deep_view() =~= rec@.take(i + 1int).map_values(fm));
        }
        i += 1;
    }
    proof {
        assert(rec@.take(n as int) =~= rec@);
        let od = out.deep_view();
        assert(crate::series::sorted_by_date(od)) by {
            assert forall|x: int, y: int|
                #![trigger od[x], od[y]]
                0 <= x < y < od.len() implies od[x].0.date < od[y].0.date by {
                assert(od[x].0 == rec@[x].0);
                assert(od[y].0 == rec@[y].0);
            }
        }
    }
    crate::series::TimeSeries::from_parts(out)
}

} // verus!
