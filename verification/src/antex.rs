//! Antenna calibration records, keyed by antenna identifier rather than by
//! time; decimation works on ordinal position only.
use vstd::prelude::*;

use crate::deepclone::DeepClone;

verus! {

/// One antenna calibration: the calibration values by frequency code.
#[derive(Debug)]
pub struct CalData {
    /// Calibration values by frequency code, fixed-point integers.
    pub frequencies: Vec<(String, i64)>,
}

/// The model of one antenna calibration.
pub type CalDataV = Seq<(Seq<char>, i64)>;

impl View for CalData {
    type V = CalDataV;

    open spec fn view(&self) -> CalDataV {
        self.frequencies.deep_view()
    }
}

impl DeepView for CalData {
    type V = CalDataV;

    open spec fn deep_view(&self) -> CalDataV {
        self.frequencies.deep_view()
    }
}

impl DeepClone for CalData {
    fn deep_clone(&self) -> (r: Self) {
        CalData { frequencies: self.frequencies.deep_clone() }
    }
}

/// The model of an antenna record.
pub type AntexRecordV = Seq<(Seq<char>, CalDataV)>;

/// An antenna record: calibrations by antenna identifier, in file order.
#[derive(Debug)]
pub struct AntexRecord {
    /// Calibrations by antenna identifier.
    pub antennas: Vec<(String, CalData)>,
}

impl View for AntexRecord {
    type V = AntexRecordV;

    open spec fn view(&self) -> AntexRecordV {
        self.antennas.deep_view()
    }
}

impl DeepView for AntexRecord {
    type V = AntexRecordV;

    open spec fn deep_view(&self) -> AntexRecordV {
        self.antennas.deep_view()
    }
}

impl DeepClone for AntexRecord {
    fn deep_clone(&self) -> (r: Self) {
        AntexRecord { antennas: self.antennas.deep_clone() }
    }
}

impl AntexRecord {
    /// An empty antenna record.
    pub fn new() -> (r: Self)
        ensures
            r@ == Seq::<(Seq<char>, CalDataV)>::empty(),
    {
        let r = AntexRecord { antennas: Vec::new() };
        proof {
            assert(r@ =~= Seq::<(Seq<char>, CalDataV)>::empty());
        }
        r
    }

    /// How many antennas the record holds.
    pub fn len(&self) -> (r: usize)
        ensures
            r == self@.len(),
    {
        self.antennas.len()
    }

    /// Appends one antenna calibration.
    pub fn push(&mut self, id: String, cal: CalData)
        ensures
            final(self)@ == old(self)@.push((id@, cal.deep_view())),
    {
        self.antennas.push((id, cal));
        proof {
            assert(self@ =~= old(self)@.push((id@, cal.deep_view())));
        }
    }

    /// Keeps every `n`-th calibration by ordinal position (positions 0, n,
    /// 2n, ...), as a structurally independent copy. The result holds
    /// exactly `ceil(len / n)` entries.
    pub fn decimate_by_ratio(&self, n: u32) -> (r: Self)
        requires
            n >= 1,
            self@.len() + n <= usize::MAX,
        ensures
            forall|k: int| 0 <= k < r@.len() ==> (#[trigger] r@[k]) == self@[k * (n as int)],
            r@.len() == (self@.len() + n - 1) / (n as int),
    {
        let len = self.antennas.len();
        let step = n as usize;
        let mut out: Vec<(String, CalData)> = Vec::new();
        let mut i: usize = 0;
        proof {
            assert(out.deep_view().len() == 0);
            assert(out.deep_view().len() * (n as int) == 0) by (nonlinear_arith)
                requires
                    out.deep_view().len() == 0,
            ;
        }
        while i < len
            invariant
                len == self@.len(),
                step == n as int,
                step >= 1,
                len + step <= usize::MAX,
                i <= len + step,
                i as int == out.deep_view().len() * (n as int),
                out.deep_view().len() == 0 || (out.deep_view().len() - 1) * (n as int) < len,
                forall|k: int|
                    0 <= k < out.deep_view().len() ==> 0 <= #[trigger] (k * (n as int)) < len,
                forall|k: int|
                    0 <= k < out.deep_view().len() ==> (#[trigger] out.deep_view()[k]) == self@[k
                        * (n as int)],
            decreases len + step - i,
        {
            let p = &self.antennas[i];
            let c = p.1.deep_clone();
            let ghost pre_dv = out.deep_view();
            let ghost cc = pre_dv.len();
            out.push((p.0.clone(), c));
            proof {
                assert(self@[i as int] == (self.antennas@[i as int].0@, self.antennas@[
                    i as int].1.deep_view()));
                assert(out.deep_view() =~= pre_dv.push(self@[i as int]));
                assert((cc + 1) * (n as int) == cc * (n as int) + (n as int)) by (nonlinear_arith);
                assert forall|k: int|
                    0 <= k < out.deep_view().len() implies 0 <= #[trigger] (k * (n as int))
                    < len by {
                    if k < cc {
                        assert(pre_dv[k] == pre_dv[k]);
                        assert(0 <= k * (n as int) < len);
                    } else {
                        assert(k == cc);
                        assert(cc * (n as int) == i as int);
                    }
                }
                assert forall|k: int|
                    0 <= k < out.deep_view().len() implies (#[trigger] out.deep_view()[k])
                    == self@[k * (n as int)] by {
                    if k < cc {
                        assert(out.deep_view()[k] == pre_dv[k]);
                    } else {
                        assert(k == cc);
                        assert(cc * (n as int) == i as int);
                        assert(out.deep_view()[k] == self@[i as int]);
                    }
                }
            }
            i += step;
        }
        proof {
            let s = self@;
            let od = out.deep_view();
            let c = od.len();
            assert(c * (n as int) >= s.len());
            assert(c == (s.len() + n - 1) / (n as int)) by {
                let q = (s.len() + n - 1) / (n as int);
                if s.len() == 0 {
                    if c > 0 {
                        assert((c - 1) * (n as int) >= 0) by (nonlinear_arith)
                            requires
                                c >= 1,
                                n >= 1,
                        ;
                        assert(false);
                    }
                    assert((0int + n - 1) / (n as int) == 0) by (nonlinear_arith)
                        requires
                            n >= 1,
                    ;
                } else {
                    assert(c >= 1) by {
                        if c == 0 {
                            assert(c * (n as int) == 0) by (nonlinear_arith)
                                requires
                                    c == 0,
                            ;
                            assert(false);
                        }
                    }
                    assert(q == c) by (nonlinear_arith)
                        requires
                            n >= 1,
                            s.len() >= 1,
                            c >= 1,
                            c * (n as int) >= s.len(),
                            (c - 1) * (n as int) < s.len(),
                            q == (s.len() + n - 1) / (n as int),
                    ;
                }
            }
        }
        AntexRecord { antennas: out }
    }
}

} // verus!
