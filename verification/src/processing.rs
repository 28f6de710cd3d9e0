//! The derived-observable engine: per-class extraction of raw observables,
//! the ionosphere-free tables, vehicle clock states out of navigation
//! ephemerides, and the collected navigation messages.
//!
//! Every extraction is defined by a recursive specification that walks the
//! record front to back; epochs that yield nothing are omitted, never
//! zero-filled.
use vstd::prelude::*;

use crate::channel::{
    spec_carrier_freq_hz, spec_is_phase_carrier_code, spec_is_pseudo_range_code,
    carrier_frequency_hz, is_phase_carrier_obs_code, is_pseudo_range_obs_code,
};
use crate::combination::{iono_free_combination, iono_free_spec};
use crate::constellation::Sv;
use crate::deepclone::DeepClone;
use crate::epoch::Epoch;
use crate::navigation::{EphFrameV, FrameClass, FrameV, IonMessage, KbModel, NavEntry, NavEntryV};
use crate::observation::{ObsEntry, ObsEntryV, ObsMapV, ObservationData, VehiclesV};
use crate::series::TimeSeries;

verus! {

/// Whether an observable code belongs to the class under extraction:
/// pseudoranges when `pr` is set, carrier phases otherwise.
pub open spec fn class_code(code: Seq<char>, pr: bool) -> bool {
    if pr {
        spec_is_pseudo_range_code(code)
    } else {
        spec_is_phase_carrier_code(code)
    }
}

/// The code-value pairs of one vehicle's map that belong to the class.
pub open spec fn class_values(m: ObsMapV, pr: bool) -> Seq<(Seq<char>, i64)> {
    m.filter(|p: (Seq<char>, ObservationData)| class_code(p.0, pr)).map_values(
        |p: (Seq<char>, ObservationData)| (p.0, p.1.obs),
    )
}

/// Per vehicle, the class values; vehicles without any are omitted.
pub open spec fn vehicles_class(vs: VehiclesV, pr: bool) -> Seq<(Sv, Seq<(Seq<char>, i64)>)>
    decreases vs.len(),
{
    if vs.len() == 0 {
        Seq::empty()
    } else {
        let lst = class_values(vs[0].1, pr);
        (if lst.len() > 0 {
            seq![(vs[0].0, lst)]
        } else {
            Seq::empty()
        }) + vehicles_class(vs.skip(1), pr)
    }
}

/// Per epoch, the per-vehicle class values; epochs without any are omitted.
pub open spec fn obs_class_table(s: Seq<(Epoch, ObsEntryV)>, pr: bool) -> Seq<
    (Epoch, Seq<(Sv, Seq<(Seq<char>, i64)>)>),
>
    decreases s.len(),
{
    if s.len() == 0 {
        Seq::empty()
    } else {
        let row = vehicles_class(s[0].1.1, pr);
        (if row.len() > 0 {
            seq![(s[0].0, row)]
        } else {
            Seq::empty()
        }) + obs_class_table(s.skip(1), pr)
    }
}

/// Extracts the class values of one vehicle's observable map.
fn class_values_of_map(m: &Vec<(String, ObservationData)>, pr: bool) -> (r: Vec<(String, i64)>)
    ensures
        r.deep_view() == class_values(m.deep_view(), pr),
{
    let ghost pred = |p: (Seq<char>, ObservationData)| class_code(p.0, pr);
    let ghost f = |p: (Seq<char>, ObservationData)| (p.0, p.1.obs);
    let n = m.len();
    let mut out: Vec<(String, i64)> = Vec::new();
    let mut i: usize = 0;
    proof {
        reveal(Seq::filter);
        assert(out.deep_view() =~= m.deep_view().take(0int).filter(pred).map_values(f));
    }
    while i < n
        invariant
            n == m@.len(),
            i <= n,
            out.deep_view() == m.deep_view().take(i as int).filter(pred).map_values(f),
            pred == (|p: (Seq<char>, ObservationData)| class_code(p.0, pr)),
            f == (|p: (Seq<char>, ObservationData)| (p.0, p.1.obs)),
        decreases n - i,
    {
        let p = &m[i];
        let ghost elem = m.deep_view()[i as int];
        proof {
            reveal(Seq::filter);
            assert(m.deep_view().take(i + 1int).drop_last() =~= m.deep_view().take(i as int));
            assert(m.deep_view().take(i + 1int).last() == elem);
            assert(elem == (m@[i as int].0@, m@[i as int].1));
        }
        let keep = if pr {
            is_pseudo_range_obs_code(p.0.as_str())
        } else {
            is_phase_carrier_obs_code(p.0.as_str())
        };
        if keep {
            let ghost pre_dv = out.deep_view();
            out.push((p.0.clone(), p.1.obs));
            proof {
                assert(pred(elem));
                assert(out.deep_view() =~= pre_dv.push(f(elem)));
                assert(m.deep_view().take(i + 1int).filter(pred) =~= m.deep_view().take(
                    i as int,
                ).filter(pred).push(elem));
                assert(out.deep_view() =~= m.deep_view().take(i + 1int).filter(pred).map_values(
                    f,
                ));
            }
        } else {
            proof {
                assert(!pred(elem));
                assert(m.deep_view().take(i + 1int).filter(pred) == m.deep_view().take(
                    i as int,
                ).filter(pred));
            }
        }
        i += 1;
    }
    proof {
        assert(m.deep_view().take(n as int) =~= m.deep_view());
    }
    out
}

/// Extracts the per-vehicle class values of one epoch entry.
fn class_row_of_entry(e: &ObsEntry, pr: bool) -> (r: Vec<(Sv, Vec<(String, i64)>)>)
    ensures
        r.deep_view() == vehicles_class(e.deep_view().1, pr),
{
    let n = e.vehicles.len();
    let mut out: Vec<(Sv, Vec<(String, i64)>)> = Vec::new();
    let mut i: usize = 0;
    let ghost vs = e.deep_view().1;
    proof {
        assert(vs.skip(0) =~= vs);
    }
    while i < n
        invariant
            n == e.vehicles@.len(),
            vs == e.deep_view().1,
            vs.len() == n,
            i <= n,
            out.deep_view() + vehicles_class(vs.skip(i as int), pr) == vehicles_class(vs, pr),
        decreases n - i,
    {
        let ghost rest = vs.skip(i as int);
        proof {
            assert(rest[0] == vs[i as int]);
            assert(rest.skip(1) =~= vs.skip(i + 1int));
            assert(vs[i as int] == (e.vehicles@[i as int].0, e.vehicles@[
                i as int].1.deep_view()));
        }
        let p = &e.vehicles[i];
        let lst = class_values_of_map(&p.1, pr);
        if lst.len() > 0 {
            let ghost pre_dv = out.deep_view();
            out.push((p.0, lst));
            proof {
                assert(out.deep_view() =~= pre_dv.push((vs[i as int].0, lst.deep_view())));
                assert(out.deep_view() + vehicles_class(vs.skip(i + 1int), pr) =~= pre_dv + (seq![
                    (vs[i as int].0, class_values(vs[i as int].1, pr)),
                ] + vehicles_class(vs.skip(i + 1int), pr)));
            }
        } else {
            proof {
                assert(class_values(vs[i as int].1, pr).len() == 0);
                assert(out.deep_view() + vehicles_class(vs.skip(i + 1int), pr) =~= out.deep_view()
                    + (Seq::<(Sv, Seq<(Seq<char>, i64)>)>::empty() + vehicles_class(
                    vs.skip(i + 1int),
                    pr,
                )));
            }
        }
        i += 1;
    }
    proof {
        assert(vs.skip(n as int) =~= Seq::<(Sv, ObsMapV)>::empty());
        assert(out.deep_view() + Seq::<(Sv, Seq<(Seq<char>, i64)>)>::empty() =~= out.deep_view());
    }
    out
}

/// Extracts the class table of a whole observation series: pseudoranges when
/// `pr` is set, carrier phases otherwise.
pub fn obs_class_table_of(rec: &TimeSeries<ObsEntry>, pr: bool) -> (r: Vec<
    (Epoch, Vec<(Sv, Vec<(String, i64)>)>),
>)
    requires
        rec.wf(),
    ensures
        r.deep_view() == obs_class_table(rec@, pr),
{
    let n = rec.len();
    let mut out: Vec<(Epoch, Vec<(Sv, Vec<(String, i64)>)>)> = Vec::new();
    let mut i: usize = 0;
    proof {
        assert(rec@.skip(0) =~= rec@);
    }
    while i < n
        invariant
            rec.wf(),
            n == rec@.len(),
            i <= n,
            out.deep_view() + obs_class_table(rec@.skip(i as int), pr) == obs_class_table(
                rec@,
                pr,
            ),
        decreases n - i,
    {
        let ghost rest = rec@.skip(i as int);
        proof {
            assert(rest[0] == rec@[i as int]);
            assert(rest.skip(1) =~= rec@.skip(i + 1int));
        }
        let p = rec.get(i);
        let row = class_row_of_entry(&p.1, pr);
        if row.len() > 0 {
            let ghost pre_dv = out.deep_view();
            out.push((p.0, row));
            proof {
                assert(out.deep_view() =~= pre_dv.push((rec@[i as int].0, row.deep_view())));
                assert(out.deep_view() + obs_class_table(rec@.skip(i + 1int), pr) =~= pre_dv + (
                seq![(rec@[i as int].0, vehicles_class(rec@[i as int].1.1, pr))]
                    + obs_class_table(rec@.skip(i + 1int), pr)));
            }
        } else {
            proof {
                assert(vehicles_class(rec@[i as int].1.1, pr).len() == 0);
                assert(out.deep_view() + obs_class_table(rec@.skip(i + 1int), pr) =~= out.deep_view()
                    + (Seq::<(Epoch, Seq<(Sv, Seq<(Seq<char>, i64)>)>)>::empty()
                    + obs_class_table(rec@.skip(i + 1int), pr)));
            }
        }
        i += 1;
    }
    proof {
        assert(rec@.skip(n as int) =~= Seq::<(Epoch, ObsEntryV)>::empty());
        assert(out.deep_view() + Seq::<(Epoch, Seq<(Sv, Seq<(Seq<char>, i64)>)>)>::empty()
            =~= out.deep_view());
    }
    out
}

/// The ionosphere-free value of one vehicle's class list: the combination of
/// the first two listed values, when both codes resolve to known, distinct
/// carrier frequencies and the combination fits the value range.
pub open spec fn iono_value(sv: Sv, lst: Seq<(Seq<char>, i64)>) -> Option<i64> {
    if lst.len() < 2 {
        None
    } else {
        match (
            spec_carrier_freq_hz(sv.constellation, lst[0].0),
            spec_carrier_freq_hz(sv.constellation, lst[1].0),
        ) {
            (Some(fa), Some(fb)) => {
                if fa != fb {
                    let q = iono_free_spec(fa as int, fb as int, lst[0].1 as int, lst[1].1 as int);
                    if i64::MIN <= q <= i64::MAX {
                        Some(q as i64)
                    } else {
                        None
                    }
                } else {
                    None
                }
            },
            _ => None,
        }
    }
}

/// Per vehicle of one table row, the ionosphere-free value; vehicles whose
/// conditions are not met are omitted.
pub open spec fn iono_row(row: Seq<(Sv, Seq<(Seq<char>, i64)>)>) -> Seq<(Sv, i64)>
    decreases row.len(),
{
    if row.len() == 0 {
        Seq::empty()
    } else {
        (match iono_value(row[0].0, row[0].1) {
            Some(v) => seq![(row[0].0, v)],
            None => Seq::empty(),
        }) + iono_row(row.skip(1))
    }
}

/// Per epoch of a class table, the ionosphere-free values; epochs that yield
/// nothing are omitted.
pub open spec fn iono_table(t: Seq<(Epoch, Seq<(Sv, Seq<(Seq<char>, i64)>)>)>) -> Seq<
    (Epoch, Seq<(Sv, i64)>),
>
    decreases t.len(),
{
    if t.len() == 0 {
        Seq::empty()
    } else {
        let row = iono_row(t[0].1);
        (if row.len() > 0 {
            seq![(t[0].0, row)]
        } else {
            Seq::empty()
        }) + iono_table(t.skip(1))
    }
}

/// Computes the ionosphere-free value of one vehicle's class list.
fn iono_value_of(sv: Sv, lst: &Vec<(String, i64)>) -> (r: Option<i64>)
    ensures
        r == iono_value(sv, lst.deep_view()),
{
    if lst.len() < 2 {
        return None;
    }
    proof {
        assert(lst.deep_view()[0] == (lst@[0].0@, lst@[0].1));
        assert(lst.deep_view()[1] == (lst@[1].0@, lst@[1].1));
    }
    let fa = carrier_frequency_hz(sv.constellation, lst[0].0.as_str());
    let fb = carrier_frequency_hz(sv.constellation, lst[1].0.as_str());
    match (fa, fb) {
        (Some(fa), Some(fb)) => {
            if fa != fb {
                proof {
                    crate::channel::lemma_band_freq_bounds(sv.constellation, lst@[0].0@[1]);
                    crate::channel::lemma_band_freq_bounds(sv.constellation, lst@[1].0@[1]);
                }
                iono_free_combination(fa, fb, lst[0].1, lst[1].1)
            } else {
                None
            }
        },
        _ => None,
    }
}

/// Computes the ionosphere-free values of one table row.
fn iono_row_of(row: &Vec<(Sv, Vec<(String, i64)>)>) -> (r: Vec<(Sv, i64)>)
    ensures
        r.deep_view() == iono_row(row.deep_view()),
{
    let n = row.len();
    let mut out: Vec<(Sv, i64)> = Vec::new();
    let mut i: usize = 0;
    let ghost rdv = row.deep_view();
    proof {
        assert(rdv.skip(0) =~= rdv);
    }
    while i < n
        invariant
            n == row@.len(),
            rdv == row.deep_view(),
            rdv.len() == n,
            i <= n,
            out.deep_view() + iono_row(rdv.skip(i as int)) == iono_row(rdv),
        decreases n - i,
    {
        let ghost rest = rdv.skip(i as int);
        proof {
            assert(rest[0] == rdv[i as int]);
            assert(rest.skip(1) =~= rdv.skip(i + 1int));
            assert(rdv[i as int] == (row@[i as int].0, row@[i as int].1.deep_view()));
        }
        let p = &row[i];
        match iono_value_of(p.0, &p.1) {
            Some(v) => {
                let ghost pre_dv = out.deep_view();
                out.push((p.0, v));
                proof {
                    assert(out.deep_view() =~= pre_dv.push((rdv[i as int].0, v)));
                    assert(out.deep_view() + iono_row(rdv.skip(i + 1int)) =~= pre_dv + (seq![
                        (rdv[i as int].0, v),
                    ] + iono_row(rdv.skip(i + 1int))));
                }
            },
            None => {
                proof {
                    assert(out.deep_view() + iono_row(rdv.skip(i + 1int)) =~= out.deep_view() + (
                    Seq::<(Sv, i64)>::empty() + iono_row(rdv.skip(i + 1int))));
                }
            },
        }
        i += 1;
    }
    proof {
        assert(rdv.skip(n as int) =~= Seq::<(Sv, Seq<(Seq<char>, i64)>)>::empty());
        assert(out.deep_view() + Seq::<(Sv, i64)>::empty() =~= out.deep_view());
    }
    out
}

/// Computes the ionosphere-free table of an extracted class table.
pub fn iono_table_of(t: &Vec<(Epoch, Vec<(Sv, Vec<(String, i64)>)>)>) -> (r: Vec<
    (Epoch, Vec<(Sv, i64)>),
>)
    ensures
        r.deep_view() == iono_table(t.deep_view()),
{
    let n = t.len();
    let mut out: Vec<(Epoch, Vec<(Sv, i64)>)> = Vec::new();
    let mut i: usize = 0;
    let ghost tdv = t.deep_view();
    proof {
        assert(tdv.skip(0) =~= tdv);
    }
    while i < n
        invariant
            n == t@.len(),
            tdv == t.deep_view(),
            tdv.len() == n,
            i <= n,
            out.deep_view() + iono_table(tdv.skip(i as int)) == iono_table(tdv),
        decreases n - i,
    {
        let ghost rest = tdv.skip(i as int);
        proof {
            assert(rest[0] == tdv[i as int]);
            assert(rest.skip(1) =~= tdv.skip(i + 1int));
            assert(tdv[i as int] == (t@[i as int].0, t@[i as int].1.deep_view()));
        }
        let p = &t[i];
        let row = iono_row_of(&p.1);
        if row.len() > 0 {
            let ghost pre_dv = out.deep_view();
            out.push((p.0, row));
            proof {
                assert(out.deep_view() =~= pre_dv.push((tdv[i as int].0, row.deep_view())));
                assert(out.deep_view() + iono_table(tdv.skip(i + 1int)) =~= pre_dv + (seq![
                    (tdv[i as int].0, iono_row(tdv[i as int].1)),
                ] + iono_table(tdv.skip(i + 1int))));
            }
        } else {
            proof {
                assert(iono_row(tdv[i as int].1).len() == 0);
                assert(out.deep_view() + iono_table(tdv.skip(i + 1int)) =~= out.deep_view() + (
                Seq::<(Epoch, Seq<(Sv, i64)>)>::empty() + iono_table(tdv.skip(i + 1int))));
            }
        }
        i += 1;
    }
    proof {
        assert(tdv.skip(n as int) =~= Seq::<(Epoch, Seq<(Sv, Seq<(Seq<char>, i64)>)>)>::empty());
        assert(out.deep_view() + Seq::<(Epoch, Seq<(Sv, i64)>)>::empty() =~= out.deep_view());
    }
    out
}


/// Whether a vehicle key occurs in a vehicle-keyed list.
pub open spec fn has_sv<T>(m: Seq<(Sv, T)>, sv: Sv) -> bool {
    exists|j: int| 0 <= j < m.len() && (#[trigger] m[j]).0 == sv
}

/// The index of a vehicle key in a vehicle-keyed list.
pub open spec fn sv_index<T>(m: Seq<(Sv, T)>, sv: Sv) -> int {
    choose|j: int| 0 <= j < m.len() && (#[trigger] m[j]).0 == sv
}

/// Vehicle keys occur at most once.
pub open spec fn sv_keys_unique<T>(m: Seq<(Sv, T)>) -> bool {
    forall|i: int, j: int| #![trigger m[i], m[j]] 0 <= i < j < m.len() ==> m[i].0 != m[j].0
}

/// Insertion with the last writer winning: an existing entry for the vehicle
/// is overwritten in place, a new vehicle is appended.
pub open spec fn upd_sv<T>(m: Seq<(Sv, T)>, sv: Sv, v: T) -> Seq<(Sv, T)> {
    if has_sv(m, sv) {
        m.update(sv_index(m, sv), (sv, v))
    } else {
        m.push((sv, v))
    }
}

/// In a unique-keyed list the index of a vehicle is unique, and updating
/// keeps the keys unique.
pub proof fn lemma_sv_index<T>(m: Seq<(Sv, T)>, sv: Sv)
    requires
        sv_keys_unique(m),
        has_sv(m, sv),
    ensures
        0 <= sv_index(m, sv) < m.len(),
        m[sv_index(m, sv)].0 == sv,
        forall|j: int| 0 <= j < m.len() && (#[trigger] m[j]).0 == sv ==> j == sv_index(m, sv),
{
    let idx = sv_index(m, sv);
    assert(0 <= idx < m.len() && m[idx].0 == sv);
    assert forall|j: int| 0 <= j < m.len() && (#[trigger] m[j]).0 == sv implies j == idx by {
        if j < idx {
            assert(m[j].0 != m[idx].0);
        } else if idx < j {
            assert(m[idx].0 != m[j].0);
        }
    }
}

/// Updating a unique-keyed list keeps the keys unique.
pub proof fn lemma_upd_sv_unique<T>(m: Seq<(Sv, T)>, sv: Sv, v: T)
    requires
        sv_keys_unique(m),
    ensures
        sv_keys_unique(upd_sv(m, sv, v)),
{
    let post = upd_sv(m, sv, v);
    if has_sv(m, sv) {
        lemma_sv_index(m, sv);
        assert forall|i: int, j: int|
            #![trigger post[i], post[j]]
            0 <= i < j < post.len() implies post[i].0 != post[j].0 by {
            assert(m[i].0 != m[j].0);
        }
    } else {
        assert forall|i: int, j: int|
            #![trigger post[i], post[j]]
            0 <= i < j < post.len() implies post[i].0 != post[j].0 by {
            if j < m.len() {
                assert(m[i].0 != m[j].0);
            } else {
                assert(post[j] == (sv, v));
                assert(post[i] == m[i]);
                assert(!has_sv(m, sv) ==> m[i].0 != sv) by {
                    if m[i].0 == sv {
                        assert(has_sv(m, sv));
                    }
                }
            }
        }
    }
}

/// Updates a vehicle-keyed vector, the last writer winning.
fn upd_sv_vec<T: DeepClone>(m: &mut Vec<(Sv, T)>, sv: Sv, v: T)
    requires
        sv_keys_unique(old(m).deep_view()),
    ensures
        final(m).deep_view() == upd_sv(old(m).deep_view(), sv, v.deep_view()),
        sv_keys_unique(final(m).deep_view()),
{
    let ghost pre = m.deep_view();
    let n = m.len();
    let mut i: usize = 0;
    while i < n && !(m[i].0.constellation == sv.constellation && m[i].0.prn == sv.prn)
        invariant
            m.deep_view() == pre,
            m@.len() == n,
            pre.len() == n,
            i <= n,
            forall|k: int| 0 <= k < i ==> (#[trigger] pre[k]).0 != sv,
        decreases n - i,
    {
        proof {
            assert(pre[i as int].0 == m@[i as int].0);
        }
        i += 1;
    }
    proof {
        lemma_upd_sv_unique(pre, sv, v.deep_view());
    }
    if i < n {
        proof {
            assert(pre[i as int].0 == m@[i as int].0);
            assert(pre[i as int].0 == sv);
            assert(has_sv(pre, sv));
            lemma_sv_index(pre, sv);
            assert(sv_index(pre, sv) == i as int);
        }
        let ghost sh = m@;
        let _prev = m.remove(i);
        let ghost sh_mid = m@;
        m.insert(i, (sv, v));
        proof {
            sh.remove_ensures(i as int);
            sh_mid.insert_ensures(i as int, (sv, v));
            assert(m@ == sh_mid.insert(i as int, (sv, v)));
            assert forall|k: int|
                0 <= k < m@.len() && k != i implies #[trigger] m.deep_view()[k] == pre[k] by {
                if k < i {
                    assert(sh_mid.insert(i as int, (sv, v))[k] == sh_mid[k]);
                    assert(sh_mid[k] == sh[k]);
                } else {
                    assert(sh_mid.insert(i as int, (sv, v))[k] == sh_mid[k - 1]);
                    assert(sh_mid[k - 1] == sh[k]);
                }
            }
            assert(m.deep_view()[i as int] == (sv, v.deep_view())) by {
                assert(sh_mid.insert(i as int, (sv, v))[i as int] == (sv, v));
            }
            assert(m.deep_view() =~= upd_sv(pre, sv, v.deep_view()));
        }
    } else {
        proof {
            assert(!has_sv(pre, sv)) by {
                if has_sv(pre, sv) {
                    let k = choose|k: int| 0 <= k < pre.len() && (#[trigger] pre[k]).0 == sv;
                    assert(false);
                }
            }
        }
        m.push((sv, v));
        proof {
            assert(m.deep_view() =~= upd_sv(pre, sv, v.deep_view()));
        }
    }
}

/// The clock offset of an ephemeris, nanoseconds.
pub open spec fn eph_offset(e: EphFrameV) -> i64 {
    e.clock_offset
}

/// The clock state triplet of an ephemeris: offset, drift and drift rate.
pub open spec fn eph_triplet(e: EphFrameV) -> (i64, i64, i64) {
    (e.clock_offset, e.clock_drift, e.clock_drift_rate)
}

/// Folds the ephemerides of a frame list into a vehicle-keyed list, the last
/// frame per vehicle winning; frames of other kinds contribute nothing.
pub open spec fn eph_fold<T>(
    m: Seq<(Sv, T)>,
    fs: Seq<FrameV>,
    proj: spec_fn(EphFrameV) -> T,
) -> Seq<(Sv, T)>
    decreases fs.len(),
{
    if fs.len() == 0 {
        m
    } else {
        let m2 = match fs[0] {
            FrameV::Eph(e) => upd_sv(m, e.sv, proj(e)),
            _ => m,
        };
        eph_fold(m2, fs.skip(1), proj)
    }
}

/// Folding keeps vehicle keys unique.
pub proof fn lemma_eph_fold_unique<T>(m: Seq<(Sv, T)>, fs: Seq<FrameV>, proj: spec_fn(EphFrameV) -> T)
    requires
        sv_keys_unique(m),
    ensures
        sv_keys_unique(eph_fold(m, fs, proj)),
    decreases fs.len(),
{
    if fs.len() > 0 {
        match fs[0] {
            FrameV::Eph(e) => {
                lemma_upd_sv_unique(m, e.sv, proj(e));
                lemma_eph_fold_unique(upd_sv(m, e.sv, proj(e)), fs.skip(1), proj);
            },
            _ => {
                lemma_eph_fold_unique(m, fs.skip(1), proj);
            },
        }
    }
}

/// The vehicle-keyed clock map of one epoch entry: the fold over the frames
/// of each ephemeris class, the last class with any eligible frame winning.
pub open spec fn entry_fold<T>(
    acc: Seq<(Sv, T)>,
    cs: NavEntryV,
    proj: spec_fn(EphFrameV) -> T,
) -> Seq<(Sv, T)>
    decreases cs.len(),
{
    if cs.len() == 0 {
        acc
    } else {
        let acc2 = if cs[0].0 == FrameClass::Ephemeris {
            let m = eph_fold(Seq::empty(), cs[0].1, proj);
            if m.len() > 0 {
                m
            } else {
                acc
            }
        } else {
            acc
        };
        entry_fold(acc2, cs.skip(1), proj)
    }
}

/// The vehicle-keyed clock map of one epoch entry.
pub open spec fn entry_sv_map<T>(cs: NavEntryV, proj: spec_fn(EphFrameV) -> T) -> Seq<(Sv, T)> {
    entry_fold(Seq::empty(), cs, proj)
}

/// Per epoch of a navigation record, the vehicle-keyed clock map; epochs
/// that yield nothing are omitted.
pub open spec fn nav_sv_table<T>(
    s: Seq<(Epoch, NavEntryV)>,
    proj: spec_fn(EphFrameV) -> T,
) -> Seq<(Epoch, Seq<(Sv, T)>)>
    decreases s.len(),
{
    if s.len() == 0 {
        Seq::empty()
    } else {
        let m = entry_sv_map(s[0].1, proj);
        (if m.len() > 0 {
            seq![(s[0].0, m)]
        } else {
            Seq::empty()
        }) + nav_sv_table(s.skip(1), proj)
    }
}

/// Folds one frame list into a vehicle-keyed offset map.
fn eph_fold_offsets_of(frames: &Vec<crate::navigation::Frame>) -> (r: Vec<(Sv, i64)>)
    ensures
        r.deep_view() == eph_fold(
            Seq::<(Sv, i64)>::empty(),
            frames.deep_view(),
            |e: EphFrameV| eph_offset(e),
        ),
        sv_keys_unique(r.deep_view()),
{
    let ghost proj = |e: EphFrameV| eph_offset(e);
    let n = frames.len();
    let mut m: Vec<(Sv, i64)> = Vec::new();
    let mut j: usize = 0;
    let ghost fdv = frames.deep_view();
    proof {
        assert(m.deep_view() =~= Seq::<(Sv, i64)>::empty());
        assert(fdv.skip(0) =~= fdv);
    }
    while j < n
        invariant
            n == frames@.len(),
            fdv == frames.deep_view(),
            fdv.len() == n,
            j <= n,
            sv_keys_unique(m.deep_view()),
            eph_fold(m.deep_view(), fdv.skip(j as int), proj) == eph_fold(
                Seq::<(Sv, i64)>::empty(),
                fdv,
                proj,
            ),
            proj == (|e: EphFrameV| eph_offset(e)),
        decreases n - j,
    {
        let ghost rest = fdv.skip(j as int);
        proof {
            assert(rest[0] == fdv[j as int]);
            assert(rest.skip(1) =~= fdv.skip(j + 1int));
            assert(fdv[j as int] == frames@[j as int].deep_view());
        }
        let f = &frames[j];
        match f {
            crate::navigation::Frame::Eph(e) => {
                upd_sv_vec(&mut m, e.sv, e.clock_offset);
            },
            _ => {
            },
        }
        j += 1;
    }
    proof {
        assert(fdv.skip(n as int) =~= Seq::<FrameV>::empty());
    }
    m
}

/// Folds one frame list into a vehicle-keyed clock-state map.
fn eph_fold_triplets_of(frames: &Vec<crate::navigation::Frame>) -> (r: Vec<
    (Sv, (i64, i64, i64)),
>)
    ensures
        r.deep_view() == eph_fold(
            Seq::<(Sv, (i64, i64, i64))>::empty(),
            frames.deep_view(),
            |e: EphFrameV| eph_triplet(e),
        ),
        sv_keys_unique(r.deep_view()),
{
    let ghost proj = |e: EphFrameV| eph_triplet(e);
    let n = frames.len();
    let mut m: Vec<(Sv, (i64, i64, i64))> = Vec::new();
    let mut j: usize = 0;
    let ghost fdv = frames.deep_view();
    proof {
        assert(m.deep_view() =~= Seq::<(Sv, (i64, i64, i64))>::empty());
        assert(fdv.skip(0) =~= fdv);
    }
    while j < n
        invariant
            n == frames@.len(),
            fdv == frames.deep_view(),
            fdv.len() == n,
            j <= n,
            sv_keys_unique(m.deep_view()),
            eph_fold(m.deep_view(), fdv.skip(j as int), proj) == eph_fold(
                Seq::<(Sv, (i64, i64, i64))>::empty(),
                fdv,
                proj,
            ),
            proj == (|e: EphFrameV| eph_triplet(e)),
        decreases n - j,
    {
        let ghost rest = fdv.skip(j as int);
        proof {
            assert(rest[0] == fdv[j as int]);
            assert(rest.skip(1) =~= fdv.skip(j + 1int));
            assert(fdv[j as int] == frames@[j as int].deep_view());
        }
        let f = &frames[j];
        match f {
            crate::navigation::Frame::Eph(e) => {
                upd_sv_vec(&mut m, e.sv, (e.clock_offset, e.clock_drift, e.clock_drift_rate));
            },
            _ => {
            },
        }
        j += 1;
    }
    proof {
        assert(fdv.skip(n as int) =~= Seq::<FrameV>::empty());
    }
    m
}

/// Extracts the vehicle-keyed clock-offset map of one epoch entry.
fn entry_offsets_of(e: &NavEntry) -> (r: Vec<(Sv, i64)>)
    ensures
        r.deep_view() == entry_sv_map(e.deep_view(), |fr: EphFrameV| eph_offset(fr)),
{
    let ghost proj = |fr: EphFrameV| eph_offset(fr);
    let n = e.classes.len();
    let mut acc: Vec<(Sv, i64)> = Vec::new();
    let mut i: usize = 0;
    let ghost cs = e.deep_view();
    proof {
        assert(acc.deep_view() =~= Seq::<(Sv, i64)>::empty());
        assert(cs.skip(0) =~= cs);
    }
    while i < n
        invariant
            n == e.classes@.len(),
            cs == e.deep_view(),
            cs.len() == n,
            i <= n,
            entry_fold(acc.deep_view(), cs.skip(i as int), proj) == entry_sv_map(cs, proj),
            proj == (|fr: EphFrameV| eph_offset(fr)),
        decreases n - i,
    {
        let ghost rest = cs.skip(i as int);
        proof {
            assert(rest[0] == cs[i as int]);
            assert(rest.skip(1) =~= cs.skip(i + 1int));
            assert(cs[i as int] == (e.classes@[i as int].0, e.classes@[i as int].1.deep_view()));
        }
        let p = &e.classes[i];
        if p.0 == FrameClass::Ephemeris {
            let m = eph_fold_offsets_of(&p.1);
            if m.len() > 0 {
                acc = m;
            }
        }
        i += 1;
    }
    proof {
        assert(cs.skip(n as int) =~= Seq::<(FrameClass, Seq<FrameV>)>::empty());
    }
    acc
}

/// Extracts the vehicle-keyed clock-state map of one epoch entry.
fn entry_triplets_of(e: &NavEntry) -> (r: Vec<(Sv, (i64, i64, i64))>)
    ensures
        r.deep_view() == entry_sv_map(e.deep_view(), |fr: EphFrameV| eph_triplet(fr)),
{
    let ghost proj = |fr: EphFrameV| eph_triplet(fr);
    let n = e.classes.len();
    let mut acc: Vec<(Sv, (i64, i64, i64))> = Vec::new();
    let mut i: usize = 0;
    let ghost cs = e.deep_view();
    proof {
        assert(acc.deep_view() =~= Seq::<(Sv, (i64, i64, i64))>::empty());
        assert(cs.skip(0) =~= cs);
    }
    while i < n
        invariant
            n == e.classes@.len(),
            cs == e.deep_view(),
            cs.len() == n,
            i <= n,
            entry_fold(acc.deep_view(), cs.skip(i as int), proj) == entry_sv_map(cs, proj),
            proj == (|fr: EphFrameV| eph_triplet(fr)),
        decreases n - i,
    {
        let ghost rest = cs.skip(i as int);
        proof {
            assert(rest[0] == cs[i as int]);
            assert(rest.skip(1) =~= cs.skip(i + 1int));
            assert(cs[i as int] == (e.classes@[i as int].0, e.classes@[i as int].1.deep_view()));
        }
        let p = &e.classes[i];
        if p.0 == FrameClass::Ephemeris {
            let m = eph_fold_triplets_of(&p.1);
            if m.len() > 0 {
                acc = m;
            }
        }
        i += 1;
    }
    proof {
        assert(cs.skip(n as int) =~= Seq::<(FrameClass, Seq<FrameV>)>::empty());
    }
    acc
}

/// Extracts per epoch the vehicle clock offsets of a navigation record.
pub fn nav_offsets_table(rec: &TimeSeries<NavEntry>) -> (r: Vec<(Epoch, Vec<(Sv, i64)>)>)
    requires
        rec.wf(),
    ensures
        r.deep_view() == nav_sv_table(rec@, |fr: EphFrameV| eph_offset(fr)),
{
    let ghost proj = |fr: EphFrameV| eph_offset(fr);
    let n = rec.len();
    let mut out: Vec<(Epoch, Vec<(Sv, i64)>)> = Vec::new();
    let mut i: usize = 0;
    proof {
        assert(rec@.skip(0) =~= rec@);
    }
    while i < n
        invariant
            rec.wf(),
            n == rec@.len(),
            i <= n,
            out.deep_view() + nav_sv_table(rec@.skip(i as int), proj) == nav_sv_table(rec@, proj),
            proj == (|fr: EphFrameV| eph_offset(fr)),
        decreases n - i,
    {
        let ghost rest = rec@.skip(i as int);
        proof {
            assert(rest[0] == rec@[i as int]);
            assert(rest.skip(1) =~= rec@.skip(i + 1int));
        }
        let p = rec.get(i);
        let m = entry_offsets_of(&p.1);
        if m.len() > 0 {
            let ghost pre_dv = out.deep_view();
            out.push((p.0, m));
            proof {
                assert(out.deep_view() =~= pre_dv.push((rec@[i as int].0, entry_sv_map(
                    rec@[i as int].1,
                    proj,
                ))));
                assert(out.deep_view() + nav_sv_table(rec@.skip(i + 1int), proj) =~= pre_dv + (
                seq![(rec@[i as int].0, entry_sv_map(rec@[i as int].1, proj))] + nav_sv_table(
                    rec@.skip(i + 1int),
                    proj,
                )));
            }
        } else {
            proof {
                assert(entry_sv_map(rec@[i as int].1, proj).len() == 0);
                assert(out.deep_view() + nav_sv_table(rec@.skip(i + 1int), proj) =~= out.deep_view()
                    + (Seq::<(Epoch, Seq<(Sv, i64)>)>::empty() + nav_sv_table(
                    rec@.skip(i + 1int),
                    proj,
                )));
            }
        }
        i += 1;
    }
    proof {
        assert(rec@.skip(n as int) =~= Seq::<(Epoch, NavEntryV)>::empty());
        assert(out.deep_view() + Seq::<(Epoch, Seq<(Sv, i64)>)>::empty() =~= out.deep_view());
    }
    out
}

/// Extracts per epoch the vehicle clock states (offset, drift, drift rate)
/// of a navigation record.
pub fn nav_triplets_table(rec: &TimeSeries<NavEntry>) -> (r: Vec<
    (Epoch, Vec<(Sv, (i64, i64, i64))>),
>)
    requires
        rec.wf(),
    ensures
        r.deep_view() == nav_sv_table(rec@, |fr: EphFrameV| eph_triplet(fr)),
{
    let ghost proj = |fr: EphFrameV| eph_triplet(fr);
    let n = rec.len();
    let mut out: Vec<(Epoch, Vec<(Sv, (i64, i64, i64))>)> = Vec::new();
    let mut i: usize = 0;
    proof {
        assert(rec@.skip(0) =~= rec@);
    }
    while i < n
        invariant
            rec.wf(),
            n == rec@.len(),
            i <= n,
            out.deep_view() + nav_sv_table(rec@.skip(i as int), proj) == nav_sv_table(rec@, proj),
            proj == (|fr: EphFrameV| eph_triplet(fr)),
        decreases n - i,
    {
        let ghost rest = rec@.skip(i as int);
        proof {
            assert(rest[0] == rec@[i as int]);
            assert(rest.skip(1) =~= rec@.skip(i + 1int));
        }
        let p = rec.get(i);
        let m = entry_triplets_of(&p.1);
        if m.len() > 0 {
            let ghost pre_dv = out.deep_view();
            out.push((p.0, m));
            proof {
                assert(out.deep_view() =~= pre_dv.push((rec@[i as int].0, entry_sv_map(
                    rec@[i as int].1,
                    proj,
                ))));
                assert(out.deep_view() + nav_sv_table(rec@.skip(i + 1int), proj) =~= pre_dv + (
                seq![(rec@[i as int].0, entry_sv_map(rec@[i as int].1, proj))] + nav_sv_table(
                    rec@.skip(i + 1int),
                    proj,
                )));
            }
        } else {
            proof {
                assert(entry_sv_map(rec@[i as int].1, proj).len() == 0);
                assert(out.deep_view() + nav_sv_table(rec@.skip(i + 1int), proj) =~= out.deep_view()
                    + (Seq::<(Epoch, Seq<(Sv, (i64, i64, i64))>)>::empty() + nav_sv_table(
                    rec@.skip(i + 1int),
                    proj,
                )));
            }
        }
        i += 1;
    }
    proof {
        assert(rec@.skip(n as int) =~= Seq::<(Epoch, NavEntryV)>::empty());
        assert(out.deep_view() + Seq::<(Epoch, Seq<(Sv, (i64, i64, i64))>)>::empty()
            =~= out.deep_view());
    }
    out
}


/// The system-time messages of one frame list.
pub open spec fn sto_msgs(fs: Seq<FrameV>) -> Seq<crate::navigation::StoMessageV>
    decreases fs.len(),
{
    if fs.len() == 0 {
        Seq::empty()
    } else {
        (match fs[0] {
            FrameV::Sto(s) => seq![s],
            _ => Seq::empty(),
        }) + sto_msgs(fs.skip(1))
    }
}

/// The system-time messages of one epoch entry, from every class carrying
/// them.
pub open spec fn entry_sto(cs: NavEntryV) -> Seq<crate::navigation::StoMessageV>
    decreases cs.len(),
{
    if cs.len() == 0 {
        Seq::empty()
    } else {
        (if cs[0].0 == FrameClass::SystemTimeOffset {
            sto_msgs(cs[0].1)
        } else {
            Seq::empty()
        }) + entry_sto(cs.skip(1))
    }
}

/// Per epoch, the system-time messages; epochs without any are omitted.
pub open spec fn sto_table(s: Seq<(Epoch, NavEntryV)>) -> Seq<
    (Epoch, Seq<crate::navigation::StoMessageV>),
>
    decreases s.len(),
{
    if s.len() == 0 {
        Seq::empty()
    } else {
        let row = entry_sto(s[0].1);
        (if row.len() > 0 {
            seq![(s[0].0, row)]
        } else {
            Seq::empty()
        }) + sto_table(s.skip(1))
    }
}

/// The ionospheric models of one frame list.
pub open spec fn ion_msgs(fs: Seq<FrameV>) -> Seq<IonMessage>
    decreases fs.len(),
{
    if fs.len() == 0 {
        Seq::empty()
    } else {
        (match fs[0] {
            FrameV::Ion(m) => seq![m],
            _ => Seq::empty(),
        }) + ion_msgs(fs.skip(1))
    }
}

/// The ionospheric models of one epoch entry, from every class carrying
/// them.
pub open spec fn entry_ion(cs: NavEntryV) -> Seq<IonMessage>
    decreases cs.len(),
{
    if cs.len() == 0 {
        Seq::empty()
    } else {
        (if cs[0].0 == FrameClass::IonosphericModel {
            ion_msgs(cs[0].1)
        } else {
            Seq::empty()
        }) + entry_ion(cs.skip(1))
    }
}

/// Per epoch, the ionospheric models; epochs without any are omitted.
pub open spec fn ion_table(s: Seq<(Epoch, NavEntryV)>) -> Seq<(Epoch, Seq<IonMessage>)>
    decreases s.len(),
{
    if s.len() == 0 {
        Seq::empty()
    } else {
        let row = entry_ion(s[0].1);
        (if row.len() > 0 {
            seq![(s[0].0, row)]
        } else {
            Seq::empty()
        }) + ion_table(s.skip(1))
    }
}

/// Collects the system-time messages of one frame list.
fn sto_msgs_of(frames: &Vec<crate::navigation::Frame>) -> (r: Vec<crate::navigation::StoMessage>)
    ensures
        r.deep_view() == sto_msgs(frames.deep_view()),
{
    let n = frames.len();
    let mut out: Vec<crate::navigation::StoMessage> = Vec::new();
    let mut j: usize = 0;
    let ghost fdv = frames.deep_view();
    proof {
        assert(fdv.skip(0) =~= fdv);
        assert(out.deep_view() =~= Seq::<crate::navigation::StoMessageV>::empty());
        assert(out.deep_view() + sto_msgs(fdv) =~= sto_msgs(fdv));
    }
    while j < n
        invariant
            n == frames@.len(),
            fdv == frames.deep_view(),
            fdv.len() == n,
            j <= n,
            out.deep_view() + sto_msgs(fdv.skip(j as int)) == sto_msgs(fdv),
        decreases n - j,
    {
        let ghost rest = fdv.skip(j as int);
        proof {
            assert(rest[0] == fdv[j as int]);
            assert(rest.skip(1) =~= fdv.skip(j + 1int));
            assert(fdv[j as int] == frames@[j as int].deep_view());
        }
        let f = &frames[j];
        match f {
            crate::navigation::Frame::Sto(s) => {
                let ghost pre_dv = out.deep_view();
                let c = s.deep_clone();
                out.push(c);
                proof {
                    assert(out.deep_view() =~= pre_dv.push(frames@[j as int].deep_view()->Sto_0));
                    assert(out.deep_view() + sto_msgs(fdv.skip(j + 1int)) =~= pre_dv + (seq![
                        fdv[j as int]->Sto_0,
                    ] + sto_msgs(fdv.skip(j + 1int))));
                }
            },
            _ => {
                proof {
                    assert(out.deep_view() + sto_msgs(fdv.skip(j + 1int)) =~= out.deep_view() + (
                    Seq::<crate::navigation::StoMessageV>::empty() + sto_msgs(
                        fdv.skip(j + 1int),
                    )));
                }
            },
        }
        j += 1;
    }
    proof {
        assert(fdv.skip(n as int) =~= Seq::<FrameV>::empty());
        assert(out.deep_view() + Seq::<crate::navigation::StoMessageV>::empty()
            =~= out.deep_view());
    }
    out
}

/// Collects the ionospheric models of one frame list.
fn ion_msgs_of(frames: &Vec<crate::navigation::Frame>) -> (r: Vec<IonMessage>)
    ensures
        r.deep_view() == ion_msgs(frames.deep_view()),
{
    let n = frames.len();
    let mut out: Vec<IonMessage> = Vec::new();
    let mut j: usize = 0;
    let ghost fdv = frames.deep_view();
    proof {
        assert(fdv.skip(0) =~= fdv);
        assert(out.deep_view() =~= Seq::<IonMessage>::empty());
        assert(out.deep_view() + ion_msgs(fdv) =~= ion_msgs(fdv));
    }
    while j < n
        invariant
            n == frames@.len(),
            fdv == frames.deep_view(),
            fdv.len() == n,
            j <= n,
            out.deep_view() + ion_msgs(fdv.skip(j as int)) == ion_msgs(fdv),
        decreases n - j,
    {
        let ghost rest = fdv.skip(j as int);
        proof {
            assert(rest[0] == fdv[j as int]);
            assert(rest.skip(1) =~= fdv.skip(j + 1int));
            assert(fdv[j as int] == frames@[j as int].deep_view());
        }
        let f = &frames[j];
        match f {
            crate::navigation::Frame::Ion(m) => {
                let ghost pre_dv = out.deep_view();
                out.push(*m);
                proof {
                    assert(out.deep_view() =~= pre_dv.push(fdv[j as int]->Ion_0));
                    assert(out.deep_view() + ion_msgs(fdv.skip(j + 1int)) =~= pre_dv + (seq![
                        fdv[j as int]->Ion_0,
                    ] + ion_msgs(fdv.skip(j + 1int))));
                }
            },
            _ => {
                proof {
                    assert(out.deep_view() + ion_msgs(fdv.skip(j + 1int)) =~= out.deep_view() + (
                    Seq::<IonMessage>::empty() + ion_msgs(fdv.skip(j + 1int))));
                }
            },
        }
        j += 1;
    }
    proof {
        assert(fdv.skip(n as int) =~= Seq::<FrameV>::empty());
        assert(out.deep_view() + Seq::<IonMessage>::empty() =~= out.deep_view());
    }
    out
}

/// Collects the system-time messages of one epoch entry.
fn entry_sto_of(e: &NavEntry) -> (r: Vec<crate::navigation::StoMessage>)
    ensures
        r.deep_view() == entry_sto(e.deep_view()),
{
    let n = e.classes.len();
    let mut out: Vec<crate::navigation::StoMessage> = Vec::new();
    let mut i: usize = 0;
    let ghost cs = e.deep_view();
    proof {
        assert(cs.skip(0) =~= cs);
        assert(out.deep_view() =~= Seq::<crate::navigation::StoMessageV>::empty());
        assert(out.deep_view() + entry_sto(cs) =~= entry_sto(cs));
    }
    while i < n
        invariant
            n == e.classes@.len(),
            cs == e.deep_view(),
            cs.len() == n,
            i <= n,
            out.deep_view() + entry_sto(cs.skip(i as int)) == entry_sto(cs),
        decreases n - i,
    {
        let ghost rest = cs.skip(i as int);
        proof {
            assert(rest[0] == cs[i as int]);
            assert(rest.skip(1) =~= cs.skip(i + 1int));
            assert(cs[i as int] == (e.classes@[i as int].0, e.classes@[i as int].1.deep_view()));
        }
        let p = &e.classes[i];
        if p.0 == FrameClass::SystemTimeOffset {
            let mut found = sto_msgs_of(&p.1);
            let ghost pre_dv = out.deep_view();
            let ghost found_dv = found.deep_view();
            out.append(&mut found);
            proof {
                assert(out.deep_view() =~= pre_dv + found_dv);
                assert(out.deep_view() + entry_sto(cs.skip(i + 1int)) =~= pre_dv + (sto_msgs(
                    cs[i as int].1,
                ) + entry_sto(cs.skip(i + 1int))));
            }
        } else {
            proof {
                assert(out.deep_view() + entry_sto(cs.skip(i + 1int)) =~= out.deep_view() + (Seq::<
                    crate::navigation::StoMessageV,
                >::empty() + entry_sto(cs.skip(i + 1int))));
            }
        }
        i += 1;
    }
    proof {
        assert(cs.skip(n as int) =~= Seq::<(FrameClass, Seq<FrameV>)>::empty());
        assert(out.deep_view() + Seq::<crate::navigation::StoMessageV>::empty()
            =~= out.deep_view());
    }
    out
}

/// Collects the ionospheric models of one epoch entry.
fn entry_ion_of(e: &NavEntry) -> (r: Vec<IonMessage>)
    ensures
        r.deep_view() == entry_ion(e.deep_view()),
{
    let n = e.classes.len();
    let mut out: Vec<IonMessage> = Vec::new();
    let mut i: usize = 0;
    let ghost cs = e.deep_view();
    proof {
        assert(cs.skip(0) =~= cs);
        assert(out.deep_view() =~= Seq::<IonMessage>::empty());
        assert(out.deep_view() + entry_ion(cs) =~= entry_ion(cs));
    }
    while i < n
        invariant
            n == e.classes@.len(),
            cs == e.deep_view(),
            cs.len() == n,
            i <= n,
            out.deep_view() + entry_ion(cs.skip(i as int)) == entry_ion(cs),
        decreases n - i,
    {
        let ghost rest = cs.skip(i as int);
        proof {
            assert(rest[0] == cs[i as int]);
            assert(rest.skip(1) =~= cs.skip(i + 1int));
            assert(cs[i as int] == (e.classes@[i as int].0, e.classes@[i as int].1.deep_view()));
        }
        let p = &e.classes[i];
        if p.0 == FrameClass::IonosphericModel {
            let mut found = ion_msgs_of(&p.1);
            let ghost pre_dv = out.deep_view();
            let ghost found_dv = found.deep_view();
            out.append(&mut found);
            proof {
                assert(out.deep_view() =~= pre_dv + found_dv);
                assert(out.deep_view() + entry_ion(cs.skip(i + 1int)) =~= pre_dv + (ion_msgs(
                    cs[i as int].1,
                ) + entry_ion(cs.skip(i + 1int))));
            }
        } else {
            proof {
                assert(out.deep_view() + entry_ion(cs.skip(i + 1int)) =~= out.deep_view() + (Seq::<
                    IonMessage,
                >::empty() + entry_ion(cs.skip(i + 1int))));
            }
        }
        i += 1;
    }
    proof {
        assert(cs.skip(n as int) =~= Seq::<(FrameClass, Seq<FrameV>)>::empty());
        assert(out.deep_view() + Seq::<IonMessage>::empty() =~= out.deep_view());
    }
    out
}

/// Extracts per epoch the system-time messages of a navigation record.
pub fn sto_table_of(rec: &TimeSeries<NavEntry>) -> (r: Vec<
    (Epoch, Vec<crate::navigation::StoMessage>),
>)
    requires
        rec.wf(),
    ensures
        r.deep_view() == sto_table(rec@),
{
    let n = rec.len();
    let mut out: Vec<(Epoch, Vec<crate::navigation::StoMessage>)> = Vec::new();
    let mut i: usize = 0;
    proof {
        assert(rec@.skip(0) =~= rec@);
    }
    while i < n
        invariant
            rec.wf(),
            n == rec@.len(),
            i <= n,
            out.deep_view() + sto_table(rec@.skip(i as int)) == sto_table(rec@),
        decreases n - i,
    {
        let ghost rest = rec@.skip(i as int);
        proof {
            assert(rest[0] == rec@[i as int]);
            assert(rest.skip(1) =~= rec@.skip(i + 1int));
        }
        let p = rec.get(i);
        let row = entry_sto_of(&p.1);
        if row.len() > 0 {
            let ghost pre_dv = out.deep_view();
            out.push((p.0, row));
            proof {
                assert(out.deep_view() =~= pre_dv.push((rec@[i as int].0, entry_sto(
                    rec@[i as int].1,
                ))));
                assert(out.deep_view() + sto_table(rec@.skip(i + 1int)) =~= pre_dv + (seq![
                    (rec@[i as int].0, entry_sto(rec@[i as int].1)),
                ] + sto_table(rec@.skip(i + 1int))));
            }
        } else {
            proof {
                assert(entry_sto(rec@[i as int].1).len() == 0);
                assert(out.deep_view() + sto_table(rec@.skip(i + 1int)) =~= out.deep_view() + (
                Seq::<(Epoch, Seq<crate::navigation::StoMessageV>)>::empty() + sto_table(
                    rec@.skip(i + 1int),
                )));
            }
        }
        i += 1;
    }
    proof {
        assert(rec@.skip(n as int) =~= Seq::<(Epoch, NavEntryV)>::empty());
        assert(out.deep_view() + Seq::<(Epoch, Seq<crate::navigation::StoMessageV>)>::empty()
            =~= out.deep_view());
    }
    out
}

/// Extracts per epoch the ionospheric models of a navigation record.
pub fn ion_table_of(rec: &TimeSeries<NavEntry>) -> (r: Vec<(Epoch, Vec<IonMessage>)>)
    requires
        rec.wf(),
    ensures
        r.deep_view() == ion_table(rec@),
{
    let n = rec.len();
    let mut out: Vec<(Epoch, Vec<IonMessage>)> = Vec::new();
    let mut i: usize = 0;
    proof {
        assert(rec@.skip(0) =~= rec@);
    }
    while i < n
        invariant
            rec.wf(),
            n == rec@.len(),
            i <= n,
            out.deep_view() + ion_table(rec@.skip(i as int)) == ion_table(rec@),
        decreases n - i,
    {
        let ghost rest = rec@.skip(i as int);
        proof {
            assert(rest[0] == rec@[i as int]);
            assert(rest.skip(1) =~= rec@.skip(i + 1int));
        }
        let p = rec.get(i);
        let row = entry_ion_of(&p.1);
        if row.len() > 0 {
            let ghost pre_dv = out.deep_view();
            out.push((p.0, row));
            proof {
                assert(out.deep_view() =~= pre_dv.push((rec@[i as int].0, entry_ion(
                    rec@[i as int].1,
                ))));
                assert(out.deep_view() + ion_table(rec@.skip(i + 1int)) =~= pre_dv + (seq![
                    (rec@[i as int].0, entry_ion(rec@[i as int].1)),
                ] + ion_table(rec@.skip(i + 1int))));
            }
        } else {
            proof {
                assert(entry_ion(rec@[i as int].1).len() == 0);
                assert(out.deep_view() + ion_table(rec@.skip(i + 1int)) =~= out.deep_view() + (
                Seq::<(Epoch, Seq<IonMessage>)>::empty() + ion_table(rec@.skip(i + 1int))));
            }
        }
        i += 1;
    }
    proof {
        assert(rec@.skip(n as int) =~= Seq::<(Epoch, NavEntryV)>::empty());
        assert(out.deep_view() + Seq::<(Epoch, Seq<IonMessage>)>::empty() =~= out.deep_view());
    }
    out
}

/// The Klobuchar models among a list of ionospheric models.
pub open spec fn kb_of(ms: Seq<IonMessage>) -> Seq<KbModel> {
    ms.filter(|m: IonMessage| m is Klobuchar).map_values(|m: IonMessage| m->Klobuchar_0)
}

/// The Nequick-G models among a list of ionospheric models.
pub open spec fn ng_of(ms: Seq<IonMessage>) -> Seq<crate::navigation::NgModel> {
    ms.filter(|m: IonMessage| m is NequickG).map_values(|m: IonMessage| m->NequickG_0)
}

/// The BDGIM models among a list of ionospheric models.
pub open spec fn bd_of(ms: Seq<IonMessage>) -> Seq<crate::navigation::BdModel> {
    ms.filter(|m: IonMessage| m is Bdgim).map_values(|m: IonMessage| m->Bdgim_0)
}

/// Selects the Klobuchar models of one epoch row.
pub fn kb_row_of(ms: &Vec<IonMessage>) -> (r: Vec<KbModel>)
    ensures
        r.deep_view() == kb_of(ms.deep_view()),
{
    let ghost pred = |m: IonMessage| m is Klobuchar;
    let ghost f = |m: IonMessage| m->Klobuchar_0;
    let n = ms.len();
    let mut out: Vec<KbModel> = Vec::new();
    let mut i: usize = 0;
    proof {
        reveal(Seq::filter);
        assert(out.deep_view() =~= ms.deep_view().take(0int).filter(pred).map_values(f));
    }
    while i < n
        invariant
            n == ms@.len(),
            i <= n,
            out.deep_view() == ms.deep_view().take(i as int).filter(pred).map_values(f),
            pred == (|m: IonMessage| m is Klobuchar),
            f == (|m: IonMessage| m->Klobuchar_0),
        decreases n - i,
    {
        let ghost elem = ms.deep_view()[i as int];
        proof {
            reveal(Seq::filter);
            assert(ms.deep_view().take(i + 1int).drop_last() =~= ms.deep_view().take(i as int));
            assert(ms.deep_view().take(i + 1int).last() == elem);
            assert(elem == ms@[i as int]);
        }
        match &ms[i] {
            IonMessage::Klobuchar(k) => {
                let ghost pre_dv = out.deep_view();
                out.push(*k);
                proof {
                    assert(pred(elem));
                    assert(out.deep_view() =~= pre_dv.push(f(elem)));
                    assert(ms.deep_view().take(i + 1int).filter(pred) =~= ms.deep_view().take(
                        i as int,
                    ).filter(pred).push(elem));
                    assert(out.deep_view() =~= ms.deep_view().take(i + 1int).filter(
                        pred,
                    ).map_values(f));
                }
            },
            _ => {
                proof {
                    assert(!pred(elem));
                    assert(ms.deep_view().take(i + 1int).filter(pred) == ms.deep_view().take(
                        i as int,
                    ).filter(pred));
                }
            },
        }
        i += 1;
    }
    proof {
        assert(ms.deep_view().take(n as int) =~= ms.deep_view());
    }
    out
}

/// Selects the Nequick-G models of one epoch row.
pub fn ng_row_of(ms: &Vec<IonMessage>) -> (r: Vec<crate::navigation::NgModel>)
    ensures
        r.deep_view() == ng_of(ms.deep_view()),
{
    let ghost pred = |m: IonMessage| m is NequickG;
    let ghost f = |m: IonMessage| m->NequickG_0;
    let n = ms.len();
    let mut out: Vec<crate::navigation::NgModel> = Vec::new();
    let mut i: usize = 0;
    proof {
        reveal(Seq::filter);
        assert(out.deep_view() =~= ms.deep_view().take(0int).filter(pred).map_values(f));
    }
    while i < n
        invariant
            n == ms@.len(),
            i <= n,
            out.deep_view() == ms.deep_view().take(i as int).filter(pred).map_values(f),
            pred == (|m: IonMessage| m is NequickG),
            f == (|m: IonMessage| m->NequickG_0),
        decreases n - i,
    {
        let ghost elem = ms.deep_view()[i as int];
        proof {
            reveal(Seq::filter);
            assert(ms.deep_view().take(i + 1int).drop_last() =~= ms.deep_view().take(i as int));
            assert(ms.deep_view().take(i + 1int).last() == elem);
            assert(elem == ms@[i as int]);
        }
        match &ms[i] {
            IonMessage::NequickG(k) => {
                let ghost pre_dv = out.deep_view();
                out.push(*k);
                proof {
                    assert(pred(elem));
                    assert(out.deep_view() =~= pre_dv.push(f(elem)));
                    assert(ms.deep_view().take(i + 1int).filter(pred) =~= ms.deep_view().take(
                        i as int,
                    ).filter(pred).push(elem));
                    assert(out.deep_view() =~= ms.deep_view().take(i + 1int).filter(
                        pred,
                    ).map_values(f));
                }
            },
            _ => {
                proof {
                    assert(!pred(elem));
                    assert(ms.deep_view().take(i + 1int).filter(pred) == ms.deep_view().take(
                        i as int,
                    ).filter(pred));
                }
            },
        }
        i += 1;
    }
    proof {
        assert(ms.deep_view().take(n as int) =~= ms.deep_view());
    }
    out
}

/// Selects the BDGIM models of one epoch row.
pub fn bd_row_of(ms: &Vec<IonMessage>) -> (r: Vec<crate::navigation::BdModel>)
    ensures
        r.deep_view() == bd_of(ms.deep_view()),
{
    let ghost pred = |m: IonMessage| m is Bdgim;
    let ghost f = |m: IonMessage| m->Bdgim_0;
    let n = ms.len();
    let mut out: Vec<crate::navigation::BdModel> = Vec::new();
    let mut i: usize = 0;
    proof {
        reveal(Seq::filter);
        assert(out.deep_view() =~= ms.deep_view().take(0int).filter(pred).map_values(f));
    }
    while i < n
        invariant
            n == ms@.len(),
            i <= n,
            out.deep_view() == ms.deep_view().take(i as int).filter(pred).map_values(f),
            pred == (|m: IonMessage| m is Bdgim),
            f == (|m: IonMessage| m->Bdgim_0),
        decreases n - i,
    {
        let ghost elem = ms.deep_view()[i as int];
        proof {
            reveal(Seq::filter);
            assert(ms.deep_view().take(i + 1int).drop_last() =~= ms.deep_view().take(i as int));
            assert(ms.deep_view().take(i + 1int).last() == elem);
            assert(elem == ms@[i as int]);
        }
        match &ms[i] {
            IonMessage::Bdgim(k) => {
                let ghost pre_dv = out.deep_view();
                out.push(*k);
                proof {
                    assert(pred(elem));
                    assert(out.deep_view() =~= pre_dv.push(f(elem)));
                    assert(ms.deep_view().take(i + 1int).filter(pred) =~= ms.deep_view().take(
                        i as int,
                    ).filter(pred).push(elem));
                    assert(out.deep_view() =~= ms.deep_view().take(i + 1int).filter(
                        pred,
                    ).map_values(f));
                }
            },
            _ => {
                proof {
                    assert(!pred(elem));
                    assert(ms.deep_view().take(i + 1int).filter(pred) == ms.deep_view().take(
                        i as int,
                    ).filter(pred));
                }
            },
        }
        i += 1;
    }
    proof {
        assert(ms.deep_view().take(n as int) =~= ms.deep_view());
    }
    out
}


/// Uniqueness of vehicle keys falls out of the fold that builds the maps.
pub proof fn lemma_entry_fold_unique<T>(
    acc: Seq<(Sv, T)>,
    cs: NavEntryV,
    proj: spec_fn(EphFrameV) -> T,
)
    requires
        sv_keys_unique(acc),
    ensures
        sv_keys_unique(entry_fold(acc, cs, proj)),
    decreases cs.len(),
{
    if cs.len() > 0 {
        if cs[0].0 == FrameClass::Ephemeris {
            lemma_eph_fold_unique(Seq::<(Sv, T)>::empty(), cs[0].1, proj);
            let m = eph_fold(Seq::<(Sv, T)>::empty(), cs[0].1, proj);
            if m.len() > 0 {
                lemma_entry_fold_unique(m, cs.skip(1), proj);
            } else {
                lemma_entry_fold_unique(acc, cs.skip(1), proj);
            }
        } else {
            lemma_entry_fold_unique(acc, cs.skip(1), proj);
        }
    }
}

/// Every row of a vehicle-keyed clock table has unique vehicle keys.
pub proof fn lemma_nav_sv_table_unique<T>(s: Seq<(Epoch, NavEntryV)>, proj: spec_fn(EphFrameV) -> T)
    ensures
        forall|i: int|
            0 <= i < nav_sv_table(s, proj).len() ==> sv_keys_unique(
                (#[trigger] nav_sv_table(s, proj)[i]).1,
            ),
    decreases s.len(),
{
    if s.len() > 0 {
        lemma_entry_fold_unique(Seq::<(Sv, T)>::empty(), s[0].1, proj);
        lemma_nav_sv_table_unique(s.skip(1), proj);
        let t = nav_sv_table(s, proj);
        let rest = nav_sv_table(s.skip(1), proj);
        let m = entry_sv_map(s[0].1, proj);
        assert forall|i: int| 0 <= i < t.len() implies sv_keys_unique((#[trigger] t[i]).1) by {
            if m.len() > 0 {
                if i == 0 {
                    assert(t[0] == (s[0].0, m));
                } else {
                    assert(t[i] == rest[i - 1]);
                }
            } else {
                assert(t[i] == rest[i]);
            }
        }
    }
}

/// The clock-corrected pseudoranges of one vehicle's map: every pseudorange
/// code, converted, keeping only conversions that fit the value range.
pub open spec fn distance_codes(m: ObsMapV, local: i64, doff: i64) -> Seq<(Seq<char>, i64)>
    decreases m.len(),
{
    if m.len() == 0 {
        Seq::empty()
    } else {
        let q = crate::combination::pr_distance_spec(m[0].1.obs as int, local as int, doff as int, 0);
        (if spec_is_pseudo_range_code(m[0].0) && i64::MIN <= q <= i64::MAX {
            seq![(m[0].0, q as i64)]
        } else {
            Seq::empty()
        }) + distance_codes(m.skip(1), local, doff)
    }
}

/// Per vehicle with a known distant clock offset, the corrected distances;
/// vehicles without a distant offset or without any convertible pseudorange
/// are omitted.
pub open spec fn distance_vehicles(vs: VehiclesV, distant: Seq<(Sv, i64)>, local: i64) -> Seq<
    (Sv, Seq<(Seq<char>, i64)>),
>
    decreases vs.len(),
{
    if vs.len() == 0 {
        Seq::empty()
    } else {
        let kept_part = if has_sv(distant, vs[0].0) {
            let lst = distance_codes(vs[0].1, local, distant[sv_index(distant, vs[0].0)].1);
            if lst.len() > 0 {
                seq![(vs[0].0, lst)]
            } else {
                Seq::empty()
            }
        } else {
            Seq::empty()
        };
        kept_part + distance_vehicles(vs.skip(1), distant, local)
    }
}

/// Per epoch that carries a local receiver-clock offset and has a row in the
/// distant offset table, the corrected distances; every other epoch is
/// omitted.
pub open spec fn distance_table(
    s: Seq<(Epoch, ObsEntryV)>,
    offs: Seq<(Epoch, Seq<(Sv, i64)>)>,
) -> Seq<(Epoch, Seq<(Sv, Seq<(Seq<char>, i64)>)>)>
    decreases s.len(),
{
    if s.len() == 0 {
        Seq::empty()
    } else {
        let kept_part = if s[0].1.0 is Some && crate::series::has_date(offs, s[0].0.date) {
            let row = distance_vehicles(
                s[0].1.1,
                crate::series::entry_of(offs, s[0].0.date).1,
                s[0].1.0->0,
            );
            if row.len() > 0 {
                seq![(s[0].0, row)]
            } else {
                Seq::empty()
            }
        } else {
            Seq::empty()
        };
        kept_part + distance_table(s.skip(1), offs)
    }
}

/// Converts one vehicle's map to corrected distances.
fn distance_codes_of(m: &Vec<(String, ObservationData)>, local: i64, doff: i64) -> (r: Vec<
    (String, i64),
>)
    ensures
        r.deep_view() == distance_codes(m.deep_view(), local, doff),
{
    let n = m.len();
    let mut out: Vec<(String, i64)> = Vec::new();
    let mut i: usize = 0;
    let ghost mdv = m.deep_view();
    proof {
        assert(mdv.skip(0) =~= mdv);
        assert(out.deep_view() =~= Seq::<(Seq<char>, i64)>::empty());
        assert(out.deep_view() + distance_codes(mdv, local, doff) =~= distance_codes(
            mdv,
            local,
            doff,
        ));
    }
    while i < n
        invariant
            n == m@.len(),
            mdv == m.deep_view(),
            mdv.len() == n,
            i <= n,
            out.deep_view() + distance_codes(mdv.skip(i as int), local, doff) == distance_codes(
                mdv,
                local,
                doff,
            ),
        decreases n - i,
    {
        let ghost rest = mdv.skip(i as int);
        proof {
            assert(rest[0] == mdv[i as int]);
            assert(rest.skip(1) =~= mdv.skip(i + 1int));
            assert(mdv[i as int] == (m@[i as int].0@, m@[i as int].1));
        }
        let p = &m[i];
        let mut contributed = false;
        if is_pseudo_range_obs_code(p.0.as_str()) {
            match p.1.pr_real_distance(local, doff, 0) {
                Some(v) => {
                    let ghost pre_dv = out.deep_view();
                    out.push((p.0.clone(), v));
                    contributed = true;
                    proof {
                        assert(out.deep_view() =~= pre_dv.push((mdv[i as int].0, v)));
                        assert(out.deep_view() + distance_codes(mdv.skip(i + 1int), local, doff)
                            =~= pre_dv + (seq![(mdv[i as int].0, v)] + distance_codes(
                            mdv.skip(i + 1int),
                            local,
                            doff,
                        )));
                    }
                },
                None => {
                },
            }
        }
        proof {
            if !contributed {
                assert(out.deep_view() + distance_codes(mdv.skip(i + 1int), local, doff)
                    =~= out.deep_view() + (Seq::<(Seq<char>, i64)>::empty() + distance_codes(
                    mdv.skip(i + 1int),
                    local,
                    doff,
                )));
            }
        }
        i += 1;
    }
    proof {
        assert(mdv.skip(n as int) =~= Seq::<(Seq<char>, ObservationData)>::empty());
        assert(out.deep_view() + Seq::<(Seq<char>, i64)>::empty() =~= out.deep_view());
    }
    out
}

/// Looks a vehicle up in a unique-keyed offset row.
fn lookup_sv(row: &Vec<(Sv, i64)>, sv: Sv) -> (r: Option<i64>)
    requires
        sv_keys_unique(row.deep_view()),
    ensures
        match r {
            Some(v) => has_sv(row.deep_view(), sv) && v == row.deep_view()[sv_index(
                row.deep_view(),
                sv,
            )].1,
            None => !has_sv(row.deep_view(), sv),
        },
{
    let ghost rdv = row.deep_view();
    let n = row.len();
    let mut i: usize = 0;
    while i < n
        invariant
            n == row@.len(),
            rdv == row.deep_view(),
            rdv.len() == n,
            i <= n,
            forall|k: int| 0 <= k < i ==> (#[trigger] rdv[k]).0 != sv,
            sv_keys_unique(rdv),
        decreases n - i,
    {
        proof {
            assert(rdv[i as int] == (row@[i as int].0, row@[i as int].1));
        }
        if row[i].0.constellation == sv.constellation && row[i].0.prn == sv.prn {
            proof {
                assert(rdv[i as int].0 == sv);
                assert(has_sv(rdv, sv));
                lemma_sv_index(rdv, sv);
                assert(sv_index(rdv, sv) == i as int);
            }
            return Some(row[i].1);
        }
        i += 1;
    }
    proof {
        if has_sv(rdv, sv) {
            let k = choose|k: int| 0 <= k < rdv.len() && (#[trigger] rdv[k]).0 == sv;
            assert(false);
        }
    }
    None
}

/// Converts the vehicles of one epoch entry against one distant offset row.
fn distance_vehicles_of(e: &ObsEntry, row: &Vec<(Sv, i64)>, local: i64) -> (r: Vec<
    (Sv, Vec<(String, i64)>),
>)
    requires
        sv_keys_unique(row.deep_view()),
    ensures
        r.deep_view() == distance_vehicles(e.deep_view().1, row.deep_view(), local),
{
    let n = e.vehicles.len();
    let mut out: Vec<(Sv, Vec<(String, i64)>)> = Vec::new();
    let mut i: usize = 0;
    let ghost vs = e.deep_view().1;
    let ghost rdv = row.deep_view();
    proof {
        assert(vs.skip(0) =~= vs);
        assert(out.deep_view() =~= Seq::<(Sv, Seq<(Seq<char>, i64)>)>::empty());
        assert(out.deep_view() + distance_vehicles(vs, rdv, local) =~= distance_vehicles(
            vs,
            rdv,
            local,
        ));
    }
    while i < n
        invariant
            n == e.vehicles@.len(),
            vs == e.deep_view().1,
            vs.len() == n,
            rdv == row.deep_view(),
            sv_keys_unique(rdv),
            i <= n,
            out.deep_view() + distance_vehicles(vs.skip(i as int), rdv, local)
                == distance_vehicles(vs, rdv, local),
        decreases n - i,
    {
        let ghost rest = vs.skip(i as int);
        proof {
            assert(rest[0] == vs[i as int]);
            assert(rest.skip(1) =~= vs.skip(i + 1int));
            assert(vs[i as int] == (e.vehicles@[i as int].0, e.vehicles@[
                i as int].1.deep_view()));
        }
        let p = &e.vehicles[i];
        let mut contributed = false;
        match lookup_sv(row, p.0) {
            Some(doff) => {
                let lst = distance_codes_of(&p.1, local, doff);
                if lst.len() > 0 {
                    let ghost pre_dv = out.deep_view();
                    out.push((p.0, lst));
                    contributed = true;
                    proof {
                        assert(out.deep_view() =~= pre_dv.push((vs[i as int].0, lst.deep_view())));
                        assert(out.deep_view() + distance_vehicles(vs.skip(i + 1int), rdv, local)
                            =~= pre_dv + (seq![
                            (vs[i as int].0, distance_codes(vs[i as int].1, local, doff)),
                        ] + distance_vehicles(vs.skip(i + 1int), rdv, local)));
                    }
                }
            },
            None => {
            },
        }
        proof {
            if !contributed {
                assert(out.deep_view() + distance_vehicles(vs.skip(i + 1int), rdv, local)
                    =~= out.deep_view() + (Seq::<(Sv, Seq<(Seq<char>, i64)>)>::empty()
                    + distance_vehicles(vs.skip(i + 1int), rdv, local)));
            }
        }
        i += 1;
    }
    proof {
        assert(vs.skip(n as int) =~= Seq::<(Sv, ObsMapV)>::empty());
        assert(out.deep_view() + Seq::<(Sv, Seq<(Seq<char>, i64)>)>::empty() =~= out.deep_view());
    }
    out
}


/// Finds the row of a sorted offset table carrying the given timestamp.
fn lookup_epoch_row(offs: &Vec<(Epoch, Vec<(Sv, i64)>)>, d: i64) -> (r: Option<usize>)
    requires
        crate::series::sorted_by_date(offs.deep_view()),
    ensures
        match r {
            Some(j) => j < offs.deep_view().len() && crate::series::has_date(offs.deep_view(), d)
                && crate::series::date_index(offs.deep_view(), d) == j as int,
            None => !crate::series::has_date(offs.deep_view(), d),
        },
{
    let ghost odv = offs.deep_view();
    let m = offs.len();
    let mut j: usize = 0;
    while j < m
        invariant
            m == offs@.len(),
            odv == offs.deep_view(),
            odv.len() == m,
            j <= m,
            crate::series::sorted_by_date(odv),
            forall|k: int| 0 <= k < j ==> (#[trigger] odv[k]).0.date != d,
        decreases m - j,
    {
        proof {
            assert(odv[j as int] == (offs@[j as int].0, offs@[j as int].1.deep_view()));
        }
        if offs[j].0.date == d {
            proof {
                assert(odv[j as int].0.date == d);
                assert(crate::series::has_date(odv, d));
                crate::series::lemma_date_index(odv, d);
            }
            return Some(j);
        }
        j += 1;
    }
    proof {
        if crate::series::has_date(odv, d) {
            let k = choose|k: int| 0 <= k < odv.len() && (#[trigger] odv[k]).0.date == d;
            assert(false);
        }
    }
    None
}

/// Converts every pseudorange of an observation series to a clock-corrected
/// distance, against a per-epoch, per-vehicle table of distant clock
/// offsets. An epoch contributes only when it carries a local receiver-clock
/// offset and has a row in the table; a vehicle only when the row names it.
pub fn distance_table_of(
    rec: &TimeSeries<ObsEntry>,
    offs: &Vec<(Epoch, Vec<(Sv, i64)>)>,
) -> (r: Vec<(Epoch, Vec<(Sv, Vec<(String, i64)>)>)>)
    requires
        rec.wf(),
        crate::series::sorted_by_date(offs.deep_view()),
        forall|i: int|
            0 <= i < offs.deep_view().len() ==> sv_keys_unique(
                (#[trigger] offs.deep_view()[i]).1,
            ),
    ensures
        r.deep_view() == distance_table(rec@, offs.deep_view()),
{
    let n = rec.len();
    let mut out: Vec<(Epoch, Vec<(Sv, Vec<(String, i64)>)>)> = Vec::new();
    let mut i: usize = 0;
    let ghost odv = offs.deep_view();
    proof {
        assert(rec@.skip(0) =~= rec@);
    }
    while i < n
        invariant
            rec.wf(),
            n == rec@.len(),
            i <= n,
            odv == offs.deep_view(),
            crate::series::sorted_by_date(odv),
            forall|k: int| 0 <= k < odv.len() ==> sv_keys_unique((#[trigger] odv[k]).1),
            out.deep_view() + distance_table(rec@.skip(i as int), odv) == distance_table(
                rec@,
                odv,
            ),
        decreases n - i,
    {
        let ghost rest = rec@.skip(i as int);
        proof {
            assert(rest[0] == rec@[i as int]);
            assert(rest.skip(1) =~= rec@.skip(i + 1int));
        }
        let p = rec.get(i);
        let mut contributed = false;
        let local_opt = p.1.clock_offset;
        match local_opt {
            Some(local) => {
                match lookup_epoch_row(offs, p.0.date) {
                    Some(jj) => {
                        proof {
                            assert(p.0 == rec@[i as int].0);
                            assert(crate::series::has_date(odv, rec@[i as int].0.date));
                            assert(crate::series::date_index(odv, rec@[i as int].0.date)
                                == jj as int);
                        }
                        let row = distance_vehicles_of(&p.1, &offs[jj].1, local);
                        proof {
                            assert(odv[jj as int].1 == offs@[jj as int].1.deep_view());
                        }
                        if row.len() > 0 {
                            let ghost pre_dv = out.deep_view();
                            out.push((p.0, row));
                            contributed = true;
                            proof {
                                let rowv = distance_vehicles(
                                    rec@[i as int].1.1,
                                    crate::series::entry_of(odv, rec@[i as int].0.date).1,
                                    rec@[i as int].1.0->0,
                                );
                                assert(out.deep_view() =~= pre_dv.push((rec@[i as int].0, rowv)));
                                assert(out.deep_view() + distance_table(rec@.skip(i + 1int), odv)
                                    =~= pre_dv + (seq![(rec@[i as int].0, rowv)] + distance_table(
                                    rec@.skip(i + 1int),
                                    odv,
                                )));
                            }
                        }
                    },
                    None => {
                        proof {
                            assert(p.0 == rec@[i as int].0);
                        }
                    },
                }
            },
            None => {
            },
        }
        proof {
            if !contributed {
                assert(out.deep_view() + distance_table(rec@.skip(i + 1int), odv)
                    =~= out.deep_view() + (Seq::<
                    (Epoch, Seq<(Sv, Seq<(Seq<char>, i64)>)>),
                >::empty() + distance_table(rec@.skip(i + 1int), odv)));
            }
        }
        i += 1;
    }
    proof {
        assert(rec@.skip(n as int) =~= Seq::<(Epoch, ObsEntryV)>::empty());
        assert(out.deep_view() + Seq::<(Epoch, Seq<(Sv, Seq<(Seq<char>, i64)>)>)>::empty()
            =~= out.deep_view());
    }
    out
}


/// The full clock-and-data payload of an ephemeris: offset, drift, drift
/// rate, and the free-form auxiliary field map.
pub open spec fn eph_full(e: EphFrameV) -> (i64, i64, i64, Seq<(Seq<char>, i64)>) {
    (e.clock_offset, e.clock_drift, e.clock_drift_rate, e.data)
}

/// Folds one frame list into a vehicle-keyed full-payload map.
fn eph_fold_full_of(frames: &Vec<crate::navigation::Frame>) -> (r: Vec<
    (Sv, (i64, i64, i64, Vec<(String, i64)>)),
>)
    ensures
        r.deep_view() == eph_fold(
            Seq::<(Sv, (i64, i64, i64, Seq<(Seq<char>, i64)>))>::empty(),
            frames.deep_view(),
            |e: EphFrameV| eph_full(e),
        ),
        sv_keys_unique(r.deep_view()),
{
    let ghost proj = |e: EphFrameV| eph_full(e);
    let n = frames.len();
    let mut m: Vec<(Sv, (i64, i64, i64, Vec<(String, i64)>))> = Vec::new();
    let mut j: usize = 0;
    let ghost fdv = frames.deep_view();
    proof {
        assert(m.deep_view() =~= Seq::<(Sv, (i64, i64, i64, Seq<(Seq<char>, i64)>))>::empty());
        assert(fdv.skip(0) =~= fdv);
    }
    while j < n
        invariant
            n == frames@.len(),
            fdv == frames.deep_view(),
            fdv.len() == n,
            j <= n,
            sv_keys_unique(m.deep_view()),
            eph_fold(m.deep_view(), fdv.skip(j as int), proj) == eph_fold(
                Seq::<(Sv, (i64, i64, i64, Seq<(Seq<char>, i64)>))>::empty(),
                fdv,
                proj,
            ),
            proj == (|e: EphFrameV| eph_full(e)),
        decreases n - j,
    {
        let ghost rest = fdv.skip(j as int);
        proof {
            assert(rest[0] == fdv[j as int]);
            assert(rest.skip(1) =~= fdv.skip(j + 1int));
            assert(fdv[j as int] == frames@[j as int].deep_view());
        }
        let f = &frames[j];
        match f {
            crate::navigation::Frame::Eph(e) => {
                let payload = (e.clock_offset, e.clock_drift, e.clock_drift_rate,
                e.data.deep_clone());
                upd_sv_vec(&mut m, e.sv, payload);
            },
            _ => {
            },
        }
        j += 1;
    }
    proof {
        assert(fdv.skip(n as int) =~= Seq::<FrameV>::empty());
    }
    m
}

/// Extracts the vehicle-keyed full ephemeris map of one epoch entry.
fn entry_full_of(e: &NavEntry) -> (r: Vec<(Sv, (i64, i64, i64, Vec<(String, i64)>))>)
    ensures
        r.deep_view() == entry_sv_map(e.deep_view(), |fr: EphFrameV| eph_full(fr)),
{
    let ghost proj = |fr: EphFrameV| eph_full(fr);
    let n = e.classes.len();
    let mut acc: Vec<(Sv, (i64, i64, i64, Vec<(String, i64)>))> = Vec::new();
    let mut i: usize = 0;
    let ghost cs = e.deep_view();
    proof {
        assert(acc.deep_view() =~= Seq::<(Sv, (i64, i64, i64, Seq<(Seq<char>, i64)>))>::empty());
        assert(cs.skip(0) =~= cs);
    }
    while i < n
        invariant
            n == e.classes@.len(),
            cs == e.deep_view(),
            cs.len() == n,
            i <= n,
            entry_fold(acc.deep_view(), cs.skip(i as int), proj) == entry_sv_map(cs, proj),
            proj == (|fr: EphFrameV| eph_full(fr)),
        decreases n - i,
    {
        let ghost rest = cs.skip(i as int);
        proof {
            assert(rest[0] == cs[i as int]);
            assert(rest.skip(1) =~= cs.skip(i + 1int));
            assert(cs[i as int] == (e.classes@[i as int].0, e.classes@[i as int].1.deep_view()));
        }
        let p = &e.classes[i];
        if p.0 == FrameClass::Ephemeris {
            let m = eph_fold_full_of(&p.1);
            if m.len() > 0 {
                acc = m;
            }
        }
        i += 1;
    }
    proof {
        assert(cs.skip(n as int) =~= Seq::<(FrameClass, Seq<FrameV>)>::empty());
    }
    acc
}

/// Extracts per epoch the full ephemeris payloads (clock offset, drift,
/// drift rate and the auxiliary field map) of a navigation record.
pub fn nav_full_table(rec: &TimeSeries<NavEntry>) -> (r: Vec<
    (Epoch, Vec<(Sv, (i64, i64, i64, Vec<(String, i64)>))>),
>)
    requires
        rec.wf(),
    ensures
        r.deep_view() == nav_sv_table(rec@, |fr: EphFrameV| eph_full(fr)),
{
    let ghost proj = |fr: EphFrameV| eph_full(fr);
    let n = rec.len();
    let mut out: Vec<(Epoch, Vec<(Sv, (i64, i64, i64, Vec<(String, i64)>))>)> = Vec::new();
    let mut i: usize = 0;
    proof {
        assert(rec@.skip(0) =~= rec@);
    }
    while i < n
        invariant
            rec.wf(),
            n == rec@.len(),
            i <= n,
            out.deep_view() + nav_sv_table(rec@.skip(i as int), proj) == nav_sv_table(rec@, proj),
            proj == (|fr: EphFrameV| eph_full(fr)),
        decreases n - i,
    {
        let ghost rest = rec@.skip(i as int);
        proof {
            assert(rest[0] == rec@[i as int]);
            assert(rest.skip(1) =~= rec@.skip(i + 1int));
        }
        let p = rec.get(i);
        let m = entry_full_of(&p.1);
        if m.len() > 0 {
            let ghost pre_dv = out.deep_view();
            out.push((p.0, m));
            proof {
                assert(out.deep_view() =~= pre_dv.push((rec@[i as int].0, entry_sv_map(
                    rec@[i as int].1,
                    proj,
                ))));
                assert(out.deep_view() + nav_sv_table(rec@.skip(i + 1int), proj) =~= pre_dv + (
                seq![(rec@[i as int].0, entry_sv_map(rec@[i as int].1, proj))] + nav_sv_table(
                    rec@.skip(i + 1int),
                    proj,
                )));
            }
        } else {
            proof {
                assert(entry_sv_map(rec@[i as int].1, proj).len() == 0);
                assert(out.deep_view() + nav_sv_table(rec@.skip(i + 1int), proj) =~= out.deep_view()
                    + (Seq::<(Epoch, Seq<(Sv, (i64, i64, i64, Seq<(Seq<char>, i64)>))>)>::empty()
                    + nav_sv_table(rec@.skip(i + 1int), proj)));
            }
        }
        i += 1;
    }
    proof {
        assert(rec@.skip(n as int) =~= Seq::<(Epoch, NavEntryV)>::empty());
        assert(out.deep_view() + Seq::<
            (Epoch, Seq<(Sv, (i64, i64, i64, Seq<(Seq<char>, i64)>))>),
        >::empty() =~= out.deep_view());
    }
    out
}

} // verus!
