//! The epoch-indexed container shared by every time-keyed record kind, and
//! the time-ordered operations over it: sorted insertion (last writer wins),
//! merging, splitting, windowing and both decimation schemes.
//!
//! The container is an association vector kept strictly sorted by ascending
//! timestamp, with at most one entry per timestamp. Every operation states in
//! its contract how the resulting entry sequence relates to the inputs, and
//! every operation preserves the ordering invariant.
use vstd::prelude::*;

use crate::deepclone::DeepClone;
use crate::epoch::Epoch;

verus! {

/// True when the entry sequence is strictly ascending by timestamp; strict
/// ascent also means that no timestamp occurs twice.
pub open spec fn sorted_by_date<VV>(s: Seq<(Epoch, VV)>) -> bool {
    forall|i: int, j: int|
        #![trigger s[i], s[j]]
        0 <= i < j < s.len() ==> s[i].0.date < s[j].0.date
}

/// True when some entry carries the timestamp `d`.
pub open spec fn has_date<VV>(s: Seq<(Epoch, VV)>, d: i64) -> bool {
    exists|i: int| 0 <= i < s.len() && (#[trigger] s[i]).0.date == d
}

/// The index of the entry carrying timestamp `d` (meaningful when
/// `has_date(s, d)` holds and `s` is sorted).
pub open spec fn date_index<VV>(s: Seq<(Epoch, VV)>, d: i64) -> int {
    choose|i: int| 0 <= i < s.len() && (#[trigger] s[i]).0.date == d
}

/// The entry carrying timestamp `d`.
pub open spec fn entry_of<VV>(s: Seq<(Epoch, VV)>, d: i64) -> (Epoch, VV) {
    s[date_index(s, d)]
}

/// How many leading entries have a timestamp strictly below `d`.
pub open spec fn cut_index<VV>(s: Seq<(Epoch, VV)>, d: i64) -> int
    decreases s.len(),
{
    if s.len() == 0 {
        0
    } else if s[0].0.date < d {
        1 + cut_index(s.skip(1), d)
    } else {
        0
    }
}

/// The entries whose timestamp falls in the half-open window `[lo, hi)`.
pub open spec fn in_window<VV>(s: Seq<(Epoch, VV)>, lo: i64, hi: i64) -> Seq<(Epoch, VV)> {
    s.filter(|p: (Epoch, VV)| lo <= p.0.date < hi)
}

/// The entries whose flag matches `want_ok` (nominal when true).
pub open spec fn flag_selected<VV>(s: Seq<(Epoch, VV)>, want_ok: bool) -> Seq<(Epoch, VV)> {
    s.filter(|p: (Epoch, VV)| p.0.flag.spec_is_ok() == want_ok)
}

/// Greedy low-pass thinning of the entries after the first retained one:
/// keeps an entry exactly when its timestamp sits at least `min_gap` seconds
/// after the last retained timestamp `last`.
pub open spec fn thin_by_gap_from<VV>(s: Seq<(Epoch, VV)>, last: int, min_gap: int) -> Seq<
    (Epoch, VV),
>
    decreases s.len(),
{
    if s.len() == 0 {
        Seq::empty()
    } else if s[0].0.date - last >= min_gap {
        seq![s[0]] + thin_by_gap_from(s.skip(1), s[0].0.date as int, min_gap)
    } else {
        thin_by_gap_from(s.skip(1), last, min_gap)
    }
}

/// Greedy low-pass thinning: the first entry is always retained, and each
/// later entry is retained exactly when it sits at least `min_gap` seconds
/// after the last retained one.
pub open spec fn thin_by_gap<VV>(s: Seq<(Epoch, VV)>, min_gap: int) -> Seq<(Epoch, VV)> {
    if s.len() == 0 {
        s
    } else {
        seq![s[0]] + thin_by_gap_from(s.skip(1), s[0].0.date as int, min_gap)
    }
}

/// In a sorted entry sequence the index of a timestamp is unique.
pub proof fn lemma_date_index<VV>(s: Seq<(Epoch, VV)>, d: i64)
    requires
        sorted_by_date(s),
        has_date(s, d),
    ensures
        0 <= date_index(s, d) < s.len(),
        s[date_index(s, d)].0.date == d,
        forall|i: int| 0 <= i < s.len() && (#[trigger] s[i]).0.date == d ==> i == date_index(s, d),
{
    let idx = date_index(s, d);
    assert(0 <= idx < s.len() && s[idx].0.date == d);
    assert forall|i: int|
        0 <= i < s.len() && (#[trigger] s[i]).0.date == d implies i == idx by {
        if i < idx {
            assert(s[i].0.date < s[idx].0.date);
        } else if idx < i {
            assert(s[idx].0.date < s[i].0.date);
        }
    }
}

/// Where a sorted sequence is cut for a boundary `d`: everything before the
/// cut is strictly earlier than `d`, everything from the cut on is at or
/// after `d`.
pub proof fn lemma_cut_index<VV>(s: Seq<(Epoch, VV)>, d: i64)
    requires
        sorted_by_date(s),
    ensures
        0 <= cut_index(s, d) <= s.len(),
        forall|k: int| 0 <= k < cut_index(s, d) ==> (#[trigger] s[k]).0.date < d,
        forall|k: int| cut_index(s, d) <= k < s.len() ==> (#[trigger] s[k]).0.date >= d,
    decreases s.len(),
{
    if s.len() == 0 {
    } else if s[0].0.date < d {
        let t = s.skip(1);
        assert(sorted_by_date(t)) by {
            assert forall|i: int, j: int|
                #![trigger t[i], t[j]]
                0 <= i < j < t.len() implies t[i].0.date < t[j].0.date by {
                assert(t[i] == s[i + 1]);
                assert(t[j] == s[j + 1]);
            }
        }
        lemma_cut_index(t, d);
        assert forall|k: int| 0 <= k < cut_index(s, d) implies (#[trigger] s[k]).0.date < d by {
            if k > 0 {
                assert(t[k - 1] == s[k]);
            }
        }
        assert forall|k: int| cut_index(s, d) <= k < s.len() implies (#[trigger] s[k]).0.date
            >= d by {
            assert(t[k - 1] == s[k]);
        }
    } else {
    }
}

/// Two sorted entry sequences holding the same entries for the same
/// timestamps are the same sequence.
pub proof fn lemma_sorted_entries_equal<VV>(a: Seq<(Epoch, VV)>, b: Seq<(Epoch, VV)>)
    requires
        sorted_by_date(a),
        sorted_by_date(b),
        forall|d: i64| #[trigger] has_date(a, d) <==> has_date(b, d),
        forall|d: i64| #[trigger] has_date(a, d) ==> entry_of(a, d) == entry_of(b, d),
    ensures
        a == b,
    decreases a.len(),
{
    if a.len() == 0 {
        if b.len() > 0 {
            assert(has_date(b, b[0].0.date));
            assert(!has_date(a, b[0].0.date));
            assert(false);
        }
        assert(a =~= b);
    } else if b.len() == 0 {
        assert(has_date(a, a[0].0.date));
        assert(!has_date(b, a[0].0.date));
        assert(false);
    } else {
        let d0 = a[0].0.date;
        assert(has_date(a, d0));
        lemma_date_index(a, d0);
        lemma_date_index(b, d0);
        let i = date_index(b, d0);
        if i > 0 {
            let e0 = b[0].0.date;
            assert(b[0].0.date < b[i].0.date);
            assert(has_date(b, e0));
            lemma_date_index(a, e0);
            let j = date_index(a, e0);
            if j > 0 {
                assert(a[0].0.date < a[j].0.date);
            }
            assert(false);
        }
        assert(date_index(a, d0) == 0);
        assert(entry_of(a, d0) == a[0]);
        assert(entry_of(b, d0) == b[0]);
        let at = a.skip(1);
        let bt = b.skip(1);
        assert(sorted_by_date(at)) by {
            assert forall|i2: int, j2: int|
                #![trigger at[i2], at[j2]]
                0 <= i2 < j2 < at.len() implies at[i2].0.date < at[j2].0.date by {
                assert(at[i2] == a[i2 + 1]);
                assert(at[j2] == a[j2 + 1]);
            }
        }
        assert(sorted_by_date(bt)) by {
            assert forall|i2: int, j2: int|
                #![trigger bt[i2], bt[j2]]
                0 <= i2 < j2 < bt.len() implies bt[i2].0.date < bt[j2].0.date by {
                assert(bt[i2] == b[i2 + 1]);
                assert(bt[j2] == b[j2 + 1]);
            }
        }
        assert forall|d: i64| #[trigger] has_date(at, d) implies has_date(bt, d) by {
            let k = choose|k: int| 0 <= k < at.len() && (#[trigger] at[k]).0.date == d;
            assert(at[k] == a[k + 1]);
            assert(has_date(a, d));
            assert(has_date(b, d));
            lemma_date_index(b, d);
            let m = date_index(b, d);
            assert(a[0].0.date < a[k + 1].0.date);
            assert(m != 0);
            assert(bt[m - 1] == b[m]);
            assert(has_date(bt, d));
        }
        assert forall|d: i64| #[trigger] has_date(bt, d) implies has_date(at, d) by {
            let k = choose|k: int| 0 <= k < bt.len() && (#[trigger] bt[k]).0.date == d;
            assert(bt[k] == b[k + 1]);
            assert(has_date(b, d));
            assert(has_date(a, d));
            lemma_date_index(a, d);
            let m = date_index(a, d);
            assert(b[0].0.date < b[k + 1].0.date);
            assert(m != 0);
            assert(at[m - 1] == a[m]);
            assert(has_date(at, d));
        }
        assert forall|d: i64| #[trigger] has_date(at, d) implies entry_of(at, d) == entry_of(
            bt,
            d,
        ) by {
            lemma_date_index(at, d);
            lemma_date_index(bt, d);
            let ka = date_index(at, d);
            assert(has_date(bt, d));
            let kb = date_index(bt, d);
            assert(at[ka] == a[ka + 1]);
            assert(bt[kb] == b[kb + 1]);
            assert(has_date(a, d));
            lemma_date_index(a, d);
            lemma_date_index(b, d);
            assert(date_index(a, d) == ka + 1);
            assert(date_index(b, d) == kb + 1);
            assert(entry_of(at, d) == entry_of(a, d));
            assert(entry_of(bt, d) == entry_of(b, d));
        }
        lemma_sorted_entries_equal(at, bt);
        assert(a =~= b) by {
            assert(a.len() == b.len());
            assert forall|k: int| 0 <= k < a.len() implies a[k] == b[k] by {
                if k > 0 {
                    assert(at[k - 1] == a[k]);
                    assert(bt[k - 1] == b[k]);
                }
            }
        }
    }
}

/// Filtering a sorted entry sequence leaves it sorted, and every retained
/// entry is one of the original entries.
pub proof fn lemma_filter_keeps_order<VV>(s: Seq<(Epoch, VV)>, pred: spec_fn((Epoch, VV)) -> bool)
    requires
        sorted_by_date(s),
    ensures
        sorted_by_date(s.filter(pred)),
        forall|j: int|
            0 <= j < s.filter(pred).len() ==> exists|i: int|
                0 <= i < s.len() && s[i] == (#[trigger] s.filter(pred)[j]),
    decreases s.len(),
{
    reveal(Seq::filter);
    if s.len() > 0 {
        let dl = s.drop_last();
        assert(sorted_by_date(dl)) by {
            assert forall|i: int, j: int|
                #![trigger dl[i], dl[j]]
                0 <= i < j < dl.len() implies dl[i].0.date < dl[j].0.date by {
                assert(dl[i] == s[i]);
                assert(dl[j] == s[j]);
            }
        }
        lemma_filter_keeps_order(dl, pred);
        let f = s.filter(pred);
        let fd = dl.filter(pred);
        assert forall|j: int|
            0 <= j < f.len() implies exists|i: int|
            0 <= i < s.len() && s[i] == (#[trigger] f[j]) by {
            if pred(s.last()) && j == f.len() - 1 {
                assert(s[s.len() - 1] == f[j]);
            } else {
                assert(f[j] == fd[j]);
                let i = choose|i: int| 0 <= i < dl.len() && dl[i] == fd[j];
                assert(s[i] == f[j]);
            }
        }
        assert forall|i: int, j: int|
            #![trigger f[i], f[j]]
            0 <= i < j < f.len() implies f[i].0.date < f[j].0.date by {
            if pred(s.last()) && j == f.len() - 1 {
                assert(f[i] == fd[i]);
                let k = choose|k: int| 0 <= k < dl.len() && dl[k] == fd[i];
                assert(s[k] == f[i]);
                assert(s[k].0.date < s[s.len() - 1].0.date);
            } else {
                assert(f[i] == fd[i]);
                assert(f[j] == fd[j]);
            }
        }
    }
}

/// An association list from epochs to payload values, strictly sorted by
/// ascending timestamp.
#[derive(Debug)]
pub struct TimeSeries<V> {
    entries: Vec<(Epoch, V)>,
}

impl<V: DeepView> View for TimeSeries<V> {
    type V = Seq<(Epoch, V::V)>;

    open spec fn view(&self) -> Seq<(Epoch, V::V)> {
        self.deep_view()
    }
}

impl<V: DeepView> DeepView for TimeSeries<V> {
    type V = Seq<(Epoch, V::V)>;

    closed spec fn deep_view(&self) -> Seq<(Epoch, V::V)> {
        self.entries.deep_view()
    }
}

impl<V: DeepClone> DeepClone for TimeSeries<V> {
    fn deep_clone(&self) -> (r: Self) {
        TimeSeries { entries: self.entries.deep_clone() }
    }
}

impl<V: DeepClone> TimeSeries<V> {
    /// The ordering invariant: entries strictly ascend by timestamp.
    pub open spec fn wf(&self) -> bool {
        sorted_by_date(self@)
    }

    /// An empty series.
    pub fn new() -> (r: Self)
        ensures
            r.wf(),
            r@ == Seq::<(Epoch, V::V)>::empty(),
    {
        let r = TimeSeries { entries: Vec::new() };
        proof {
            assert(r@ =~= Seq::<(Epoch, V::V)>::empty());
        }
        r
    }

    /// Wraps an already sorted entry vector.
    pub fn from_parts(entries: Vec<(Epoch, V)>) -> (r: Self)
        requires
            sorted_by_date(entries.deep_view()),
        ensures
            r.wf(),
            r@ == entries.deep_view(),
    {
        TimeSeries { entries }
    }

    /// How many epochs the series holds.
    pub fn len(&self) -> (r: usize)
        ensures
            r == self@.len(),
    {
        self.entries.len()
    }

    /// Whether the series holds no epoch at all.
    pub fn is_empty(&self) -> (r: bool)
        ensures
            r == (self@.len() == 0),
    {
        self.entries.len() == 0
    }

    /// Borrows the entry at position `i`.
    pub fn get(&self, i: usize) -> (r: &(Epoch, V))
        requires
            i < self@.len(),
        ensures
            r.0 == self@[i as int].0,
            r.1.deep_view() == self@[i as int].1,
    {
        &self.entries[i]
    }

    /// The ordered list of epochs.
    pub fn epochs(&self) -> (r: Vec<Epoch>)
        ensures
            r@.len() == self@.len(),
            forall|i: int| 0 <= i < r@.len() ==> r@[i] == self@[i].0,
    {
        let n = self.entries.len();
        let mut out: Vec<Epoch> = Vec::new();
        let mut i: usize = 0;
        while i < n
            invariant
                n == self@.len(),
                i <= n,
                out@.len() == i as int,
                forall|k: int| 0 <= k < i ==> out@[k] == self@[k].0,
            decreases n - i,
        {
            out.push(self.entries[i].0);
            i += 1;
        }
        out
    }

    /// The earliest epoch, when one exists.
    pub fn first_epoch(&self) -> (r: Option<Epoch>)
        ensures
            match r {
                Some(e) => self@.len() > 0 && e == self@[0].0,
                None => self@.len() == 0,
            },
    {
        if self.entries.len() == 0 {
            None
        } else {
            Some(self.entries[0].0)
        }
    }

    /// The latest epoch, when one exists.
    pub fn last_epoch(&self) -> (r: Option<Epoch>)
        ensures
            match r {
                Some(e) => self@.len() > 0 && e == self@[self@.len() - 1].0,
                None => self@.len() == 0,
            },
    {
        let n = self.entries.len();
        if n == 0 {
            None
        } else {
            Some(self.entries[n - 1].0)
        }
    }

    /// Inserts a value at its timestamp, keeping the order. On a timestamp
    /// collision the stored value is replaced (last writer wins) while the
    /// already recorded epoch key, including its flag, stays.
    #[verifier::rlimit(100)]
    pub fn upsert(&mut self, e: Epoch, v: V)
        requires
            old(self).wf(),
        ensures
            final(self).wf(),
            forall|d: i64|
                #[trigger] has_date(final(self)@, d) <==> (has_date(old(self)@, d) || d
                    == e.date),
            entry_of(final(self)@, e.date).1 == v.deep_view(),
            entry_of(final(self)@, e.date).0 == (if has_date(old(self)@, e.date) {
                entry_of(old(self)@, e.date).0
            } else {
                e
            }),
            forall|d: i64|
                d != e.date && #[trigger] has_date(old(self)@, d) ==> entry_of(final(self)@, d)
                    == entry_of(old(self)@, d),
            final(self)@.len() == old(self)@.len() + (if has_date(old(self)@, e.date) {
                0int
            } else {
                1int
            }),
    {
        let ghost pre = self@;
        let n = self.entries.len();
        let mut i: usize = 0;
        while i < n && self.entries[i].0.date < e.date
            invariant
                self@ == pre,
                self.entries.len() == n,
                n == pre.len(),
                i <= n,
                sorted_by_date(pre),
                forall|k: int| 0 <= k < i ==> (#[trigger] pre[k]).0.date < e.date,
            decreases n - i,
        {
            i += 1;
        }
        if i < n && self.entries[i].0.date == e.date {
            let kept = self.entries[i].0;
            let ghost sh = self.entries@;
            let _replaced = self.entries.remove(i);
            let ghost sh_mid = self.entries@;
            self.entries.insert(i, (kept, v));
            proof {
                let post = self@;
                let ii = i as int;
                sh.remove_ensures(ii);
                sh_mid.insert_ensures(ii, (kept, v));
                assert(sh_mid == sh.remove(ii));
                assert(self.entries@ == sh_mid.insert(ii, (kept, v)));
                assert(post.len() == pre.len());
                assert forall|k: int| 0 <= k < post.len() && k != ii implies post[k] == pre[k] by {
                    if k < ii {
                        assert(sh_mid.insert(ii, (kept, v))[k] == sh_mid[k]);
                        assert(sh_mid[k] == sh[k]);
                    } else {
                        assert(sh_mid.insert(ii, (kept, v))[k] == sh_mid[k - 1]);
                        assert(sh_mid[k - 1] == sh[k]);
                    }
                }
                assert(post[ii] == (kept, v.deep_view())) by {
                    assert(sh_mid.insert(ii, (kept, v))[ii] == (kept, v));
                }
                assert(kept == pre[ii].0);
                assert(sorted_by_date(post)) by {
                    assert forall|a: int, b: int|
                        #![trigger post[a], post[b]]
                        0 <= a < b < post.len() implies post[a].0.date < post[b].0.date by {
                        assert(post[a].0.date == pre[a].0.date);
                        assert(post[b].0.date == pre[b].0.date);
                    }
                }
                assert(has_date(pre, e.date)) by {
                    assert(pre[ii].0.date == e.date);
                }
                lemma_date_index(pre, e.date);
                lemma_date_index(post, e.date);
                assert(post[ii].0.date == e.date);
                assert(date_index(post, e.date) == ii);
                assert(date_index(pre, e.date) == ii);
                assert forall|d: i64| #[trigger]
                    has_date(post, d) <==> (has_date(pre, d) || d == e.date) by {
                    if has_date(post, d) {
                        let k = choose|k: int|
                            0 <= k < post.len() && (#[trigger] post[k]).0.date == d;
                        assert(pre[k].0.date == d);
                        assert(has_date(pre, d));
                    }
                    if has_date(pre, d) {
                        let k = choose|k: int| 0 <= k < pre.len() && (#[trigger] pre[k]).0.date == d;
                        assert(post[k].0.date == d);
                        assert(has_date(post, d));
                    }
                }
                assert forall|d: i64|
                    d != e.date && #[trigger] has_date(pre, d) implies entry_of(post, d)
                    == entry_of(pre, d) by {
                    lemma_date_index(pre, d);
                    let k = date_index(pre, d);
                    assert(has_date(post, d)) by {
                        assert(post[k].0.date == d);
                    }
                    lemma_date_index(post, d);
                    assert(post[k].0.date == d);
                    assert(date_index(post, d) == k);
                    assert(k != ii);
                }
            }
        } else {
            let ghost sh = self.entries@;
            proof {
                assert(i as int == n as int || pre[i as int].0.date > e.date);
            }
            self.entries.insert(i, (e, v));
            proof {
                let post = self@;
                let ii = i as int;
                sh.insert_ensures(ii, (e, v));
                assert(self.entries@ == sh.insert(ii, (e, v)));
                assert(post.len() == pre.len() + 1);
                assert forall|k: int| 0 <= k < ii implies post[k] == pre[k] by {
                    assert(sh.insert(ii, (e, v))[k] == sh[k]);
                }
                assert forall|k: int| ii <= k < pre.len() implies post[k + 1] == pre[k] by {
                    assert(sh.insert(ii, (e, v))[k + 1] == sh[k]);
                }
                assert(post[ii] == (e, v.deep_view())) by {
                    assert(sh.insert(ii, (e, v))[ii] == (e, v));
                }
                assert forall|k: int| ii <= k < pre.len() implies (#[trigger] pre[k]).0.date
                    > e.date by {
                    if k > ii {
                        assert(pre[ii].0.date < pre[k].0.date);
                    }
                }
                assert(!has_date(pre, e.date)) by {
                    if has_date(pre, e.date) {
                        let k = choose|k: int|
                            0 <= k < pre.len() && (#[trigger] pre[k]).0.date == e.date;
                        assert(false);
                    }
                }
                assert(sorted_by_date(post)) by {
                    assert forall|a: int, b: int|
                        #![trigger post[a], post[b]]
                        0 <= a < b < post.len() implies post[a].0.date < post[b].0.date by {
                        if b < ii {
                            assert(post[a] == pre[a]);
                            assert(post[b] == pre[b]);
                        } else if a < ii && b == ii {
                            assert(post[a] == pre[a]);
                        } else if a < ii && b > ii {
                            assert(post[a] == pre[a]);
                            assert(post[b] == pre[b - 1]);
                            if b - 1 == a {
                                assert(pre[a].0.date < e.date);
                                assert(ii <= b - 1);
                                assert(pre[b - 1].0.date >= e.date);
                            }
                        } else if a == ii {
                            assert(post[b] == pre[b - 1]);
                            assert(b - 1 >= ii);
                            assert(pre[b - 1].0.date >= e.date);
                            assert(pre[b - 1].0.date != e.date);
                        } else {
                            assert(post[a] == pre[a - 1]);
                            assert(post[b] == pre[b - 1]);
                        }
                    }
                }
                assert(has_date(post, e.date)) by {
                    assert(post[ii].0.date == e.date);
                }
                lemma_date_index(post, e.date);
                assert(date_index(post, e.date) == ii);
                assert forall|d: i64| #[trigger]
                    has_date(post, d) <==> (has_date(pre, d) || d == e.date) by {
                    if has_date(post, d) && d != e.date {
                        let k = choose|k: int|
                            0 <= k < post.len() && (#[trigger] post[k]).0.date == d;
                        if k < ii {
                            assert(pre[k].0.date == d);
                        } else if k > ii {
                            assert(pre[k - 1].0.date == d);
                        }
                        assert(has_date(pre, d));
                    }
                    if has_date(pre, d) {
                        let k = choose|k: int| 0 <= k < pre.len() && (#[trigger] pre[k]).0.date == d;
                        if k < ii {
                            assert(post[k].0.date == d);
                        } else {
                            assert(post[k + 1].0.date == d);
                        }
                        assert(has_date(post, d));
                    }
                }
                assert forall|d: i64|
                    d != e.date && #[trigger] has_date(pre, d) implies entry_of(post, d)
                    == entry_of(pre, d) by {
                    lemma_date_index(pre, d);
                    let k = date_index(pre, d);
                    if k < ii {
                        assert(post[k].0.date == d);
                        assert(has_date(post, d));
                        lemma_date_index(post, d);
                        assert(date_index(post, d) == k);
                    } else {
                        assert(post[k + 1].0.date == d);
                        assert(has_date(post, d));
                        lemma_date_index(post, d);
                        assert(date_index(post, d) == k + 1);
                    }
                }
            }
        }
    }

    /// Merges the entries of `other` into this series. Timestamps present in
    /// both keep the already stored epoch key and take `other`'s value (last
    /// writer wins); the result stays sorted.
    pub fn merge_from(&mut self, other: &Self)
        requires
            old(self).wf(),
            other.wf(),
        ensures
            final(self).wf(),
            forall|d: i64|
                #[trigger] has_date(final(self)@, d) <==> (has_date(old(self)@, d) || has_date(
                    other@,
                    d,
                )),
            forall|d: i64|
                #[trigger] has_date(other@, d) ==> entry_of(final(self)@, d).1 == entry_of(
                    other@,
                    d,
                ).1 && entry_of(final(self)@, d).0 == (if has_date(old(self)@, d) {
                    entry_of(old(self)@, d).0
                } else {
                    entry_of(other@, d).0
                }),
            forall|d: i64|
                !has_date(other@, d) && #[trigger] has_date(old(self)@, d) ==> entry_of(
                    final(self)@,
                    d,
                ) == entry_of(old(self)@, d),
    {
        let ghost a = self@;
        let ghost b = other@;
        let n = other.entries.len();
        let mut i: usize = 0;
        while i < n
            invariant
                self.wf(),
                other.wf(),
                a == old(self)@,
                b == other@,
                sorted_by_date(a),
                n == b.len(),
                i <= n,
                forall|d: i64|
                    #[trigger] has_date(self@, d) <==> (has_date(a, d) || has_date(
                        b.take(i as int),
                        d,
                    )),
                forall|d: i64|
                    #[trigger] has_date(b.take(i as int), d) ==> entry_of(self@, d).1 == entry_of(
                        b,
                        d,
                    ).1 && entry_of(self@, d).0 == (if has_date(a, d) {
                        entry_of(a, d).0
                    } else {
                        entry_of(b, d).0
                    }),
                forall|d: i64|
                    !has_date(b.take(i as int), d) && #[trigger] has_date(a, d) ==> entry_of(
                        self@,
                        d,
                    ) == entry_of(a, d),
            decreases n - i,
        {
            let ghost mid = self@;
            let pair = other.get(i);
            let e = pair.0;
            let v = pair.1.deep_clone();
            proof {
                assert(e == b[i as int].0);
                assert(v.deep_view() == b[i as int].1);
            }
            self.upsert(e, v);
            proof {
                let ii = i as int;
                let post = self@;
                let tk = b.take(ii);
                let tk1 = b.take(ii + 1);
                lemma_date_index(b, e.date);
                assert(date_index(b, e.date) == ii) by {
                    assert(b[ii].0.date == e.date);
                }
                assert(entry_of(b, e.date) == b[ii]);
                assert(!has_date(tk, e.date)) by {
                    if has_date(tk, e.date) {
                        let k = choose|k: int|
                            0 <= k < tk.len() && (#[trigger] tk[k]).0.date == e.date;
                        assert(b[k].0.date == e.date);
                        assert(k == ii);
                        assert(false);
                    }
                }
                assert forall|d: i64| #[trigger]
                    has_date(tk1, d) <==> (has_date(tk, d) || d == e.date) by {
                    if has_date(tk1, d) {
                        let k = choose|k: int|
                            0 <= k < tk1.len() && (#[trigger] tk1[k]).0.date == d;
                        if k < ii {
                            assert(tk[k].0.date == d);
                            assert(has_date(tk, d));
                        } else {
                            assert(b[ii].0.date == d);
                        }
                    }
                    if has_date(tk, d) {
                        let k = choose|k: int|
                            0 <= k < tk.len() && (#[trigger] tk[k]).0.date == d;
                        assert(tk1[k].0.date == d);
                        assert(has_date(tk1, d));
                    }
                    if d == e.date {
                        assert(tk1[ii].0.date == d);
                        assert(has_date(tk1, d));
                    }
                }
                assert forall|d: i64| #[trigger] has_date(tk, d) implies d != e.date by {
                    let k = choose|k: int|
                        0 <= k < tk.len() && (#[trigger] tk[k]).0.date == d;
                    assert(b[k].0.date == d);
                    if d == e.date {
                        assert(k == ii);
                        assert(false);
                    }
                }
                assert forall|d: i64| #[trigger]
                    has_date(post, d) <==> (has_date(a, d) || has_date(tk1, d)) by {
                    assert(has_date(post, d) <==> (has_date(mid, d) || d == e.date));
                    assert(has_date(mid, d) <==> (has_date(a, d) || has_date(tk, d)));
                }
                assert forall|d: i64| #[trigger] has_date(tk1, d) implies entry_of(post, d).1
                    == entry_of(b, d).1 && entry_of(post, d).0 == (if has_date(a, d) {
                    entry_of(a, d).0
                } else {
                    entry_of(b, d).0
                }) by {
                    if d == e.date {
                        assert(entry_of(post, e.date).1 == v.deep_view());
                        if has_date(a, e.date) {
                            assert(has_date(mid, e.date));
                            assert(entry_of(mid, e.date) == entry_of(a, e.date));
                            assert(entry_of(post, e.date).0 == entry_of(mid, e.date).0);
                        } else {
                            assert(!has_date(mid, e.date));
                            assert(entry_of(post, e.date).0 == e);
                            assert(entry_of(b, e.date).0 == b[ii].0);
                        }
                    } else {
                        assert(has_date(tk, d));
                        assert(has_date(mid, d));
                        assert(entry_of(post, d) == entry_of(mid, d));
                        assert(entry_of(mid, d).1 == entry_of(b, d).1);
                    }
                }
                assert forall|d: i64|
                    !has_date(tk1, d) && #[trigger] has_date(a, d) implies entry_of(post, d)
                    == entry_of(a, d) by {
                    assert(!has_date(tk, d));
                    assert(d != e.date);
                    assert(has_date(mid, d));
                    assert(entry_of(mid, d) == entry_of(a, d));
                    assert(entry_of(post, d) == entry_of(mid, d));
                }
            }
            i += 1;
        }
        proof {
            assert(b.take(n as int) =~= b);
        }
    }

    /// Splits the series at timestamp `d`: entries strictly before `d`, then
    /// entries at or after `d`. Both halves are structurally independent
    /// copies.
    pub fn split_at_date(&self, d: i64) -> (r: (Self, Self))
        requires
            self.wf(),
        ensures
            r.0.wf(),
            r.1.wf(),
            r.0@ == self@.take(cut_index(self@, d)),
            r.1@ == self@.skip(cut_index(self@, d)),
    {
        proof {
            lemma_cut_index(self@, d);
        }
        let n = self.entries.len();
        let mut i: usize = 0;
        while i < n && self.entries[i].0.date < d
            invariant
                self.wf(),
                n == self@.len(),
                i <= n,
                forall|k: int| 0 <= k < i ==> (#[trigger] self@[k]).0.date < d,
            decreases n - i,
        {
            i += 1;
        }
        proof {
            let c = cut_index(self@, d);
            assert(i as int == c) by {
                if (i as int) < c {
                    assert(self@[i as int].0.date < d);
                    assert(false);
                } else if c < i as int {
                    assert(self@[c].0.date < d);
                    assert(false);
                }
            }
        }
        let mut left: Vec<(Epoch, V)> = Vec::new();
        let mut k: usize = 0;
        proof {
            assert(left.deep_view() =~= self@.take(0int));
        }
        while k < i
            invariant
                self.wf(),
                i <= n,
                n == self@.len(),
                k <= i,
                left.deep_view() == self@.take(k as int),
            decreases i - k,
        {
            let p = &self.entries[k];
            let c = p.1.deep_clone();
            let ghost pre_dv = left.deep_view();
            left.push((p.0, c));
            proof {
                assert(self@[k as int] == (self.entries@[k as int].0, self.entries@[
                    k as int].1.deep_view()));
                assert(left.deep_view() =~= pre_dv.push(self@[k as int]));
                assert(left.deep_view() =~= self@.take(k + 1int));
            }
            k += 1;
        }
        let mut right: Vec<(Epoch, V)> = Vec::new();
        let mut m: usize = i;
        proof {
            assert(right.deep_view() =~= self@.subrange(i as int, i as int));
        }
        while m < n
            invariant
                self.wf(),
                i <= m <= n,
                n == self@.len(),
                right.deep_view() == self@.subrange(i as int, m as int),
            decreases n - m,
        {
            let p = &self.entries[m];
            let c = p.1.deep_clone();
            let ghost pre_dv = right.deep_view();
            right.push((p.0, c));
            proof {
                assert(self@[m as int] == (self.entries@[m as int].0, self.entries@[
                    m as int].1.deep_view()));
                assert(right.deep_view() =~= pre_dv.push(self@[m as int]));
                assert(right.deep_view() =~= self@.subrange(i as int, m + 1int));
            }
            m += 1;
        }
        proof {
            let s = self@;
            let ii = i as int;
            assert(sorted_by_date(s.take(ii))) by {
                assert forall|x: int, y: int|
                    #![trigger s.take(ii)[x], s.take(ii)[y]]
                    0 <= x < y < s.take(ii).len() implies s.take(ii)[x].0.date < s.take(
                    ii,
                )[y].0.date by {
                    assert(s.take(ii)[x] == s[x]);
                    assert(s.take(ii)[y] == s[y]);
                }
            }
            assert(sorted_by_date(s.skip(ii))) by {
                assert forall|x: int, y: int|
                    #![trigger s.skip(ii)[x], s.skip(ii)[y]]
                    0 <= x < y < s.skip(ii).len() implies s.skip(ii)[x].0.date < s.skip(
                    ii,
                )[y].0.date by {
                    assert(s.skip(ii)[x] == s[x + ii]);
                    assert(s.skip(ii)[y] == s[y + ii]);
                }
            }
            assert(right.deep_view() == s.skip(ii)) by {
                assert(s.subrange(ii, n as int) =~= s.skip(ii));
            }
        }
        (Self::from_parts(left), Self::from_parts(right))
    }

    /// The sub-series whose timestamps fall in the half-open window
    /// `[lo, hi)`, as a structurally independent copy.
    pub fn window(&self, lo: i64, hi: i64) -> (r: Self)
        requires
            self.wf(),
        ensures
            r.wf(),
            r@ == in_window(self@, lo, hi),
    {
        let ghost pred = |p: (Epoch, V::V)| lo <= p.0.date < hi;
        let n = self.entries.len();
        let mut out: Vec<(Epoch, V)> = Vec::new();
        let mut i: usize = 0;
        proof {
            reveal(Seq::filter);
            assert(out.deep_view() =~= self@.take(0int).filter(pred));
        }
        while i < n
            invariant
                self.wf(),
                n == self@.len(),
                i <= n,
                out.deep_view() == self@.take(i as int).filter(pred),
                pred == (|p: (Epoch, V::V)| lo <= p.0.date < hi),
            decreases n - i,
        {
            let p = &self.entries[i];
            let ghost prefix = self@.take(i as int);
            let ghost elem = self@[i as int];
            proof {
                reveal(Seq::filter);
                assert(self@.take(i + 1int).drop_last() =~= prefix);
                assert(self@.take(i + 1int).last() == elem);
            }
            if lo <= p.0.date && p.0.date < hi {
                let c = p.1.deep_clone();
                let ghost pre_dv = out.deep_view();
                out.push((p.0, c));
                proof {
                    assert(pred(elem));
                    assert(elem == (self.entries@[i as int].0, self.entries@[
                        i as int].1.deep_view()));
                    assert(out.deep_view() =~= pre_dv.push(elem));
                    assert(out.deep_view() =~= self@.take(i + 1int).filter(pred));
                }
            } else {
                proof {
                    assert(!pred(elem));
                    assert(out.deep_view() == self@.take(i + 1int).filter(pred));
                }
            }
            i += 1;
        }
        proof {
            assert(self@.take(n as int) =~= self@);
            lemma_filter_keeps_order(self@, pred);
        }
        Self::from_parts(out)
    }

    /// The sub-series of entries whose epoch flag matches `want_ok` (nominal
    /// entries when true, anomalous entries when false), as a structurally
    /// independent copy.
    pub fn filter_by_flag_ok(&self, want_ok: bool) -> (r: Self)
        requires
            self.wf(),
        ensures
            r.wf(),
            r@ == flag_selected(self@, want_ok),
    {
        let ghost pred = |p: (Epoch, V::V)| p.0.flag.spec_is_ok() == want_ok;
        let n = self.entries.len();
        let mut out: Vec<(Epoch, V)> = Vec::new();
        let mut i: usize = 0;
        proof {
            reveal(Seq::filter);
            assert(out.deep_view() =~= self@.take(0int).filter(pred));
        }
        while i < n
            invariant
                self.wf(),
                n == self@.len(),
                i <= n,
                out.deep_view() == self@.take(i as int).filter(pred),
                pred == (|p: (Epoch, V::V)| p.0.flag.spec_is_ok() == want_ok),
            decreases n - i,
        {
            let p = &self.entries[i];
            let ghost prefix = self@.take(i as int);
            let ghost elem = self@[i as int];
            proof {
                reveal(Seq::filter);
                assert(self@.take(i + 1int).drop_last() =~= prefix);
                assert(self@.take(i + 1int).last() == elem);
            }
            if p.0.flag.is_ok() == want_ok {
                let c = p.1.deep_clone();
                let ghost pre_dv = out.deep_view();
                out.push((p.0, c));
                proof {
                    assert(pred(elem));
                    assert(elem == (self.entries@[i as int].0, self.entries@[
                        i as int].1.deep_view()));
                    assert(out.deep_view() =~= pre_dv.push(elem));
                    assert(out.deep_view() =~= self@.take(i + 1int).filter(pred));
                }
            } else {
                proof {
                    assert(!pred(elem));
                    assert(out.deep_view() == self@.take(i + 1int).filter(pred));
                }
            }
            i += 1;
        }
        proof {
            assert(self@.take(n as int) =~= self@);
            lemma_filter_keeps_order(self@, pred);
        }
        Self::from_parts(out)
    }

    /// Keeps every `n`-th entry by ordinal position (positions 0, n, 2n, ...),
    /// regardless of timestamp spacing, as a structurally independent copy.
    /// The result holds exactly `ceil(len / n)` entries.
    pub fn decimate_by_ratio(&self, n: u32) -> (r: Self)
        requires
            self.wf(),
            n >= 1,
            self@.len() + n <= usize::MAX,
        ensures
            r.wf(),
            forall|k: int| 0 <= k < r@.len() ==> (#[trigger] r@[k]) == self@[k * (n as int)],
            r@.len() == (self@.len() + n - 1) / (n as int),
    {
        let len = self.entries.len();
        let step = n as usize;
        let mut out: Vec<(Epoch, V)> = Vec::new();
        let mut i: usize = 0;
        proof {
            assert(out.deep_view().len() == 0);
            assert(out.deep_view().len() * (n as int) == 0) by (nonlinear_arith)
                requires
                    out.deep_view().len() == 0,
            ;
        }
        while i < len
            invariant
                self.wf(),
                len == self@.len(),
                step == n as int,
                step >= 1,
                len + step <= usize::MAX,
                i <= len + step,
                i as int == out.deep_view().len() * (n as int),
                out.deep_view().len() == 0 || (out.deep_view().len() - 1) * (n as int) < len,
                forall|k: int|
                    0 <= k < out.deep_view().len() ==> 0 <= #[trigger] (k * (n as int)) < len,
                forall|k: int|
                    0 <= k < out.deep_view().len() ==> (#[trigger] out.deep_view()[k]) == self@[k
                        * (n as int)],
            decreases len + step - i,
        {
            let p = &self.entries[i];
            let c = p.1.deep_clone();
            let ghost pre_dv = out.deep_view();
            let ghost cc = pre_dv.len();
            out.push((p.0, c));
            proof {
                assert(self@[i as int] == (self.entries@[i as int].0, self.entries@[
                    i as int].1.deep_view()));
                assert(out.deep_view() =~= pre_dv.push(self@[i as int]));
                assert(out.deep_view().len() == cc + 1);
                assert((cc + 1) * (n as int) == cc * (n as int) + (n as int)) by (nonlinear_arith);
                assert forall|k: int|
                    0 <= k < out.deep_view().len() implies 0 <= #[trigger] (k * (n as int))
                    < len by {
                    if k < cc {
                        assert(pre_dv[k] == pre_dv[k]);
                        assert(0 <= k * (n as int) < len);
                    } else {
                        assert(k == cc);
                        assert(cc * (n as int) == i as int);
                    }
                }
                assert forall|k: int|
                    0 <= k < out.deep_view().len() implies (#[trigger] out.deep_view()[k])
                    == self@[k * (n as int)] by {
                    if k < cc {
                        assert(out.deep_view()[k] == pre_dv[k]);
                    } else {
                        assert(k == cc);
                        assert(cc * (n as int) == i as int);
                        assert(out.deep_view()[k] == self@[i as int]);
                    }
                }
            }
            i += step;
        }
        proof {
            let s = self@;
            let od = out.deep_view();
            let c = od.len();
            assert(c * (n as int) >= s.len());
            assert(c == (s.len() + n - 1) / (n as int)) by {
                let q = (s.len() + n - 1) / (n as int);
                if s.len() == 0 {
                    if c > 0 {
                        assert((c - 1) * (n as int) >= 0) by (nonlinear_arith)
                            requires
                                c >= 1,
                                n >= 1,
                        ;
                        assert(false);
                    }
                    assert((0int + n - 1) / (n as int) == 0) by (nonlinear_arith)
                        requires
                            n >= 1,
                    ;
                } else {
                    assert(c >= 1) by {
                        if c == 0 {
                            assert(c * (n as int) == 0) by (nonlinear_arith)
                                requires
                                    c == 0,
                            ;
                            assert(false);
                        }
                    }
                    assert(q == c) by (nonlinear_arith)
                        requires
                            n >= 1,
                            s.len() >= 1,
                            c >= 1,
                            c * (n as int) >= s.len(),
                            (c - 1) * (n as int) < s.len(),
                            q == (s.len() + n - 1) / (n as int),
                    ;
                }
            }
            assert(sorted_by_date(od)) by {
                assert forall|x: int, y: int|
                    #![trigger od[x], od[y]]
                    0 <= x < y < od.len() implies od[x].0.date < od[y].0.date by {
                    assert(od[x] == s[x * (n as int)]);
                    assert(od[y] == s[y * (n as int)]);
                    assert(x * (n as int) < y * (n as int)) by (nonlinear_arith)
                        requires
                            x < y,
                            n >= 1,
                    ;
                }
            }
        }
        Self::from_parts(out)
    }

    /// Greedy low-pass thinning, as a structurally independent copy: the
    /// first entry is always retained, and each later entry is retained
    /// exactly when its timestamp sits at least `min_gap` seconds after the
    /// last retained one.
    pub fn decimate_by_interval(&self, min_gap: u64) -> (r: Self)
        requires
            self.wf(),
        ensures
            r.wf(),
            r@ == thin_by_gap(self@, min_gap as int),
    {
        let n = self.entries.len();
        let mut out: Vec<(Epoch, V)> = Vec::new();
        if n == 0 {
            proof {
                assert(out.deep_view() =~= thin_by_gap(self@, min_gap as int));
            }
            return Self::from_parts(out);
        }
        let p0 = &self.entries[0];
        let c0 = p0.1.deep_clone();
        out.push((p0.0, c0));
        let mut last: i64 = p0.0.date;
        let mut i: usize = 1;
        proof {
            assert(self@[0] == (self.entries@[0].0, self.entries@[0].1.deep_view()));
            assert(out.deep_view() =~= seq![self@[0]]);
        }
        while i < n
            invariant
                self.wf(),
                n == self@.len(),
                n >= 1,
                1 <= i <= n,
                out.deep_view().len() >= 1,
                out.deep_view() + thin_by_gap_from(self@.skip(i as int), last as int, min_gap as int)
                    == thin_by_gap(self@, min_gap as int),
                sorted_by_date(out.deep_view()),
                forall|k: int|
                    0 <= k < out.deep_view().len() ==> (#[trigger] out.deep_view()[k]).0.date
                        <= last,
                forall|k: int| i <= k < n ==> last < (#[trigger] self@[k]).0.date,
            decreases n - i,
        {
            let p = &self.entries[i];
            let ghost rest = self@.skip(i as int);
            let ghost rest1 = self@.skip(i + 1int);
            proof {
                assert(rest.len() > 0);
                assert(rest[0] == self@[i as int]);
                assert(rest.skip(1) =~= rest1);
            }
            let keep = (p.0.date as i128) - (last as i128) >= (min_gap as i128);
            if keep {
                let c = p.1.deep_clone();
                let ghost pre_dv = out.deep_view();
                out.push((p.0, c));
                proof {
                    let od = out.deep_view();
                    assert(self@[i as int] == (self.entries@[i as int].0, self.entries@[
                        i as int].1.deep_view()));
                    assert(od =~= pre_dv.push(self@[i as int]));
                    assert(rest[0].0.date - last >= min_gap);
                    assert(thin_by_gap_from(rest, last as int, min_gap as int) == seq![rest[0]]
                        + thin_by_gap_from(rest1, rest[0].0.date as int, min_gap as int));
                    assert(od + thin_by_gap_from(rest1, self@[i as int].0.date as int, min_gap as int)
                        =~= pre_dv + (seq![rest[0]] + thin_by_gap_from(
                        rest1,
                        rest[0].0.date as int,
                        min_gap as int,
                    )));
                    assert(od + thin_by_gap_from(rest1, self@[i as int].0.date as int, min_gap as int)
                        == thin_by_gap(self@, min_gap as int));
                    assert(sorted_by_date(od)) by {
                        assert forall|x: int, y: int|
                            #![trigger od[x], od[y]]
                            0 <= x < y < od.len() implies od[x].0.date < od[y].0.date by {
                            if y < od.len() - 1 {
                                assert(od[x] == pre_dv[x]);
                                assert(od[y] == pre_dv[y]);
                            } else {
                                assert(od[x] == pre_dv[x]);
                                assert(od[x].0.date <= last);
                                assert(od[y] == self@[i as int]);
                                assert(last < self@[i as int].0.date);
                            }
                        }
                    }
                }
                last = p.0.date;
            } else {
                proof {
                    assert(rest[0].0.date - last < min_gap);
                    assert(thin_by_gap_from(rest, last as int, min_gap as int)
                        == thin_by_gap_from(rest1, last as int, min_gap as int));
                }
            }
            i += 1;
            proof {
                assert forall|k: int| i <= k < n implies last < (#[trigger] self@[k]).0.date by {
                    assert(self@[i - 1].0.date < self@[k].0.date || k == i - 1);
                }
            }
        }
        proof {
            assert(self@.skip(n as int) =~= Seq::<(Epoch, V::V)>::empty());
            assert(thin_by_gap_from(
                Seq::<(Epoch, V::V)>::empty(),
                last as int,
                min_gap as int,
            ) =~= Seq::<(Epoch, V::V)>::empty());
            assert(out.deep_view() + Seq::<(Epoch, V::V)>::empty() =~= out.deep_view());
        }
        Self::from_parts(out)
    }
}


/// Split completeness: cutting a sorted record at any boundary yields two
/// halves whose timestamp sets are disjoint and whose concatenation is
/// exactly the original record, every epoch kept exactly once.
pub proof fn lemma_split_completeness<VV>(s: Seq<(Epoch, VV)>, d: i64)
    requires
        sorted_by_date(s),
    ensures
        ({
            let c = cut_index(s, d);
            let l = s.take(c);
            let r = s.skip(c);
            &&& l + r == s
            &&& forall|dd: i64| #[trigger] has_date(s, dd) <==> (has_date(l, dd) || has_date(
                r,
                dd,
            ))
            &&& forall|dd: i64| !(#[trigger] has_date(l, dd) && has_date(r, dd))
        }),
{
    lemma_cut_index(s, d);
    let c = cut_index(s, d);
    let l = s.take(c);
    let r = s.skip(c);
    assert(l + r =~= s);
    assert forall|dd: i64| #[trigger]
        has_date(s, dd) <==> (has_date(l, dd) || has_date(r, dd)) by {
        if has_date(s, dd) {
            let k = choose|k: int| 0 <= k < s.len() && (#[trigger] s[k]).0.date == dd;
            if k < c {
                assert(l[k].0.date == dd);
                assert(has_date(l, dd));
            } else {
                assert(r[k - c].0.date == dd);
                assert(has_date(r, dd));
            }
        }
        if has_date(l, dd) {
            let k = choose|k: int| 0 <= k < l.len() && (#[trigger] l[k]).0.date == dd;
            assert(s[k].0.date == dd);
            assert(has_date(s, dd));
        }
        if has_date(r, dd) {
            let k = choose|k: int| 0 <= k < r.len() && (#[trigger] r[k]).0.date == dd;
            assert(s[k + c].0.date == dd);
            assert(has_date(s, dd));
        }
    }
    assert forall|dd: i64| !(#[trigger] has_date(l, dd) && has_date(r, dd)) by {
        if has_date(l, dd) && has_date(r, dd) {
            let k1 = choose|k: int| 0 <= k < l.len() && (#[trigger] l[k]).0.date == dd;
            let k2 = choose|k: int| 0 <= k < r.len() && (#[trigger] r[k]).0.date == dd;
            assert(s[k1].0.date == dd);
            assert(s[k2 + c].0.date == dd);
            assert(s[k1].0.date < d);
            assert(s[k2 + c].0.date >= d);
            assert(false);
        }
    }
}

/// After greedy thinning, every element sits at least the gap after the
/// baseline, and consecutive elements are at least the gap apart.
#[verifier::rlimit(100)]
proof fn lemma_thin_from_spacing<VV>(s: Seq<(Epoch, VV)>, last: int, min_gap: int)
    requires
        sorted_by_date(s),
        min_gap >= 0,
    ensures
        ({
            let t = thin_by_gap_from(s, last, min_gap);
            &&& forall|i: int| 0 <= i < t.len() ==> (#[trigger] t[i]).0.date >= last + min_gap
            &&& forall|i: int|
                0 <= i < t.len() - 1 ==> t[i + 1].0.date - (#[trigger] t[i]).0.date >= min_gap
        }),
    decreases s.len(),
{
    if s.len() > 0 {
        let tail = s.skip(1);
        assert(sorted_by_date(tail)) by {
            assert forall|a: int, b: int|
                #![trigger tail[a], tail[b]]
                0 <= a < b < tail.len() implies tail[a].0.date < tail[b].0.date by {
                assert(tail[a] == s[a + 1]);
                assert(tail[b] == s[b + 1]);
            }
        }
        if s[0].0.date - last >= min_gap {
            lemma_thin_from_spacing(tail, s[0].0.date as int, min_gap);
            let t = thin_by_gap_from(s, last, min_gap);
            let tt = thin_by_gap_from(tail, s[0].0.date as int, min_gap);
            assert(t == seq![s[0]] + tt);
            assert forall|i: int| 0 <= i < t.len() implies (#[trigger] t[i]).0.date >= last
                + min_gap by {
                if i == 0 {
                    assert(t[0] == s[0]);
                } else {
                    assert(t[i] == tt[i - 1]);
                    assert(tt[i - 1].0.date >= s[0].0.date + min_gap);
                }
            }
            assert forall|i: int|
                0 <= i < t.len() - 1 implies t[i + 1].0.date - (#[trigger] t[i]).0.date
                >= min_gap by {
                if i == 0 {
                    assert(t[0] == s[0]);
                    assert(t[1] == tt[0]);
                    assert(tt[0].0.date >= s[0].0.date + min_gap);
                } else {
                    assert(t[i] == tt[i - 1]);
                    assert(t[i + 1] == tt[i]);
                }
            }
        } else {
            lemma_thin_from_spacing(tail, last, min_gap);
            assert(thin_by_gap_from(s, last, min_gap) == thin_by_gap_from(tail, last, min_gap));
        }
    }
}

/// Monotonic spacing of the greedy thinning: the first epoch is always
/// retained, and every pair of consecutive retained epochs is separated by
/// at least the requested minimum gap.
pub proof fn lemma_thin_by_gap_spacing<VV>(s: Seq<(Epoch, VV)>, min_gap: int)
    requires
        sorted_by_date(s),
        min_gap >= 0,
    ensures
        ({
            let t = thin_by_gap(s, min_gap);
            &&& s.len() > 0 ==> t.len() > 0 && t[0] == s[0]
            &&& forall|i: int|
                0 <= i < t.len() - 1 ==> t[i + 1].0.date - (#[trigger] t[i]).0.date >= min_gap
        }),
{
    if s.len() > 0 {
        let tail = s.skip(1);
        assert(sorted_by_date(tail)) by {
            assert forall|a: int, b: int|
                #![trigger tail[a], tail[b]]
                0 <= a < b < tail.len() implies tail[a].0.date < tail[b].0.date by {
                assert(tail[a] == s[a + 1]);
                assert(tail[b] == s[b + 1]);
            }
        }
        lemma_thin_from_spacing(tail, s[0].0.date as int, min_gap);
        let t = thin_by_gap(s, min_gap);
        let tt = thin_by_gap_from(tail, s[0].0.date as int, min_gap);
        assert(t == seq![s[0]] + tt);
        assert(t[0] == s[0]);
        assert forall|i: int|
            0 <= i < t.len() - 1 implies t[i + 1].0.date - (#[trigger] t[i]).0.date >= min_gap by {
            if i == 0 {
                assert(t[1] == tt[0]);
                assert(tt[0].0.date >= s[0].0.date + min_gap);
            } else {
                assert(t[i] == tt[i - 1]);
                assert(t[i + 1] == tt[i]);
            }
        }
    }
}

} // verus!
