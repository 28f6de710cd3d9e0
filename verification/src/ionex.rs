//! Ionosphere-map records: per epoch, a grid of total-electron-content
//! values. The grid is opaque to the temporal operations beyond epoch-keyed
//! retention.
use vstd::prelude::*;

use crate::deepclone::DeepClone;

verus! {

/// One epoch of an ionosphere-map record: the TEC grid, flattened, in the
/// producer's fixed-point unit.
#[derive(Debug)]
pub struct IonexMap {
    /// The flattened grid of total-electron-content values.
    pub tec: Vec<i64>,
}

impl View for IonexMap {
    type V = Seq<i64>;

    open spec fn view(&self) -> Seq<i64> {
        self.tec.deep_view()
    }
}

impl DeepView for IonexMap {
    type V = Seq<i64>;

    open spec fn deep_view(&self) -> Seq<i64> {
        self.tec.deep_view()
    }
}

impl DeepClone for IonexMap {
    fn deep_clone(&self) -> (r: Self) {
        IonexMap { tec: self.tec.deep_clone() }
    }
}

impl IonexMap {
    /// Builds an epoch entry from a flattened TEC grid.
    pub fn new(tec: Vec<i64>) -> (r: Self)
        ensures
            r.deep_view() == tec.deep_view(),
    {
        IonexMap { tec }
    }
}

} // verus!
