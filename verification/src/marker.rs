//! The merge-marker wire format: the one piece of text this library itself
//! produces. A successful merge of two non-empty records stamps a header
//! comment of the fixed-column form
//! `<producer padded to 20>FILE MERGE          <YYYYMMDD HHMMSS> UTC`,
//! and the split of a merged record finds its boundaries by reading the
//! timestamp back from column 40 of each such comment.
use vstd::prelude::*;

use chrono::{Datelike, Timelike};

use crate::civil::{
    civil_to_secs, days_in_month, secs_of_civil, spec_days_in_month, CivilTime, YEAR_HI,
};
use crate::strutil::{
    all_dec_digits, contains_seq, contains_sub, dec_digits, digits_val, parse_fixed_digits,
    push_char, push_decimal,
};

verus! {

/// A sequence of `n` spaces.
pub open spec fn spaces(n: nat) -> Seq<char> {
    Seq::new(n, |i: int| ' ')
}

/// A producer name padded (or cut) to exactly twenty characters.
pub open spec fn pad_to_20(s: Seq<char>) -> Seq<char> {
    if s.len() >= 20 {
        s.take(20)
    } else {
        s + spaces((20 - s.len()) as nat)
    }
}

/// The timestamp field of a merge marker: `YYYYMMDD HHMMSS UTC`, each number
/// zero-padded.
pub open spec fn timestamp_seq(t: CivilTime) -> Seq<char> {
    dec_digits(t.year as nat, 4) + dec_digits(t.month as nat, 2) + dec_digits(t.day as nat, 2)
        + seq![' '] + dec_digits(t.hour as nat, 2) + dec_digits(t.minute as nat, 2) + dec_digits(
        t.second as nat,
        2,
    ) + " UTC"@
}

/// The full marker comment: the padded producer, the fixed `FILE MERGE`
/// label with its padding (so the timestamp starts at column 40), and the
/// timestamp.
pub open spec fn marker_comment_seq(producer: Seq<char>, t: CivilTime) -> Seq<char> {
    pad_to_20(producer) + "FILE MERGE          "@ + timestamp_seq(t)
}

/// Builds the marker comment a merge stamps into the header.
pub fn marker_comment(producer: &str, t: CivilTime) -> (r: String)
    requires
        t.wf(),
        t.year >= 0,
    ensures
        r@ == marker_comment_seq(producer@, t),
{
    let mut out = String::new();
    let n = producer.unicode_len();
    let cut = if n >= 20 {
        20
    } else {
        n
    };
    let mut i: usize = 0;
    while i < cut
        invariant
            cut <= n,
            n == producer@.len(),
            i <= cut,
            out@ == producer@.take(i as int),
        decreases cut - i,
    {
        push_char(&mut out, producer.get_char(i));
        proof {
            assert(out@ =~= producer@.take(i + 1int));
        }
        i += 1;
    }
    while i < 20
        invariant
            cut <= 20,
            cut == (if producer@.len() >= 20 {
                20int
            } else {
                producer@.len() as int
            }),
            cut <= i <= 20,
            out@ == producer@.take(cut as int) + spaces((i - cut) as nat),
        decreases 20 - i,
    {
        push_char(&mut out, ' ');
        proof {
            assert(out@ =~= producer@.take(cut as int) + spaces((i + 1 - cut) as nat));
        }
        i += 1;
    }
    proof {
        assert(out@ =~= pad_to_20(producer@));
    }
    out.append("FILE MERGE          ");
    push_decimal(&mut out, t.year as u64, 4);
    push_decimal(&mut out, t.month as u64, 2);
    push_decimal(&mut out, t.day as u64, 2);
    push_char(&mut out, ' ');
    push_decimal(&mut out, t.hour as u64, 2);
    push_decimal(&mut out, t.minute as u64, 2);
    push_decimal(&mut out, t.second as u64, 2);
    out.append(" UTC");
    proof {
        assert(out@ =~= marker_comment_seq(producer@, t));
    }
    out
}

/// The characters left after removing leading spaces.
pub open spec fn trim_l(s: Seq<char>) -> Seq<char>
    decreases s.len(),
{
    if s.len() > 0 && s[0] == ' ' {
        trim_l(s.skip(1))
    } else {
        s
    }
}

/// The characters left after removing trailing spaces.
pub open spec fn trim_r(s: Seq<char>) -> Seq<char>
    decreases s.len(),
{
    if s.len() > 0 && s.last() == ' ' {
        trim_r(s.drop_last())
    } else {
        s
    }
}

/// The characters left after removing leading and trailing spaces.
pub open spec fn trimmed(s: Seq<char>) -> Seq<char> {
    trim_r(trim_l(s))
}

/// Removing leading spaces keeps exactly the suffix from the first non-space
/// character on.
proof fn lemma_trim_l(s: Seq<char>, a: int)
    requires
        0 <= a <= s.len(),
        forall|k: int| 0 <= k < a ==> s[k] == ' ',
        a == s.len() || s[a] != ' ',
    ensures
        trim_l(s) == s.skip(a),
    decreases a,
{
    if a == 0 {
        assert(s.skip(0) =~= s);
    } else {
        assert(s[0] == ' ');
        let t = s.skip(1);
        assert forall|k: int| 0 <= k < a - 1 implies t[k] == ' ' by {
            assert(t[k] == s[k + 1]);
        }
        if a - 1 < t.len() {
            assert(t[a - 1] == s[a]);
        }
        lemma_trim_l(t, a - 1);
        assert(t.skip(a - 1) =~= s.skip(a));
    }
}

/// Removing trailing spaces keeps exactly the prefix up to the last
/// non-space character.
proof fn lemma_trim_r(s: Seq<char>, b: int)
    requires
        0 <= b <= s.len(),
        forall|k: int| b <= k < s.len() ==> s[k] == ' ',
        b == 0 || s[b - 1] != ' ',
    ensures
        trim_r(s) == s.take(b),
    decreases s.len() - b,
{
    if b == s.len() {
        if s.len() > 0 && s.last() == ' ' {
            assert(false);
        }
        assert(s.take(b) =~= s);
    } else {
        assert(s.last() == ' ');
        let t = s.drop_last();
        assert forall|k: int| b <= k < t.len() implies t[k] == ' ' by {
            assert(t[k] == s[k]);
        }
        if b > 0 {
            assert(t[b - 1] == s[b - 1]);
        }
        lemma_trim_r(t, b);
        assert(t.take(b) =~= s.take(b));
    }
}

/// The calendar timestamp a trimmed marker tail carries, when it is exactly
/// the nineteen-character `YYYYMMDD HHMMSS UTC` form with a valid calendar
/// date.
pub open spec fn timestamp_of(t: Seq<char>) -> Option<CivilTime> {
    if t.len() == 19 && all_dec_digits(t.subrange(0, 8)) && t[8] == ' ' && all_dec_digits(
        t.subrange(9, 15),
    ) && t.subrange(15, 19) == " UTC"@ {
        let y = digits_val(t.subrange(0, 4));
        let mo = digits_val(t.subrange(4, 6));
        let d = digits_val(t.subrange(6, 8));
        let h = digits_val(t.subrange(9, 11));
        let mi = digits_val(t.subrange(11, 13));
        let se = digits_val(t.subrange(13, 15));
        if 1 <= mo <= 12 && 1 <= d <= spec_days_in_month(y, mo) && h <= 23 && mi <= 59 && se <= 59 {
            Some(
                CivilTime {
                    year: y as i64,
                    month: mo as u8,
                    day: d as u8,
                    hour: h as u8,
                    minute: mi as u8,
                    second: se as u8,
                },
            )
        } else {
            None
        }
    } else {
        None
    }
}

/// The boundary second count a comment line encodes: the timestamp read from
/// column 40 on, leading and trailing spaces ignored. `None` for a line
/// without a well-formed timestamp there.
pub open spec fn marker_secs(s: Seq<char>) -> Option<int> {
    if s.len() < 40 {
        None
    } else {
        match timestamp_of(trimmed(s.skip(40))) {
            Some(t) => Some(secs_of_civil(t)),
            None => None,
        }
    }
}

/// The boundary a comment contributes: only comments carrying the
/// `FILE MERGE` label are read at all.
pub open spec fn boundary_of(s: Seq<char>) -> Option<int> {
    if contains_seq(s, "FILE MERGE"@) {
        marker_secs(s)
    } else {
        None
    }
}

/// Returns whether a comment carries the merge-marker label.
pub fn is_merge_marker(comment: &str) -> (r: bool)
    ensures
        r == contains_seq(comment@, "FILE MERGE"@),
{
    contains_sub(comment, "FILE MERGE")
}

/// Reads the boundary second count from one marker comment: the timestamp at
/// column 40, leading and trailing spaces ignored. Returns `None` exactly
/// when no well-formed timestamp stands there.
pub fn parse_merge_marker(comment: &str) -> (r: Option<i64>)
    ensures
        match r {
            Some(v) => marker_secs(comment@) == Some(v as int),
            None => marker_secs(comment@) is None,
        },
{
    let n = comment.unicode_len();
    if n < 40 {
        return None;
    }
    let ghost tail = comment@.skip(40);
    let mut a: usize = 40;
    while a < n && comment.get_char(a) == ' '
        invariant
            n == comment@.len(),
            40 <= a <= n,
            forall|k: int| 40 <= k < a ==> comment@[k] == ' ',
        decreases n - a,
    {
        a += 1;
    }
    let mut b: usize = n;
    while b > a && comment.get_char(b - 1) == ' '
        invariant
            n == comment@.len(),
            a <= b <= n,
            forall|k: int| b <= k < n ==> comment@[k] == ' ',
        decreases b,
    {
        b -= 1;
    }
    proof {
        assert forall|k: int| 0 <= k < a - 40 implies tail[k] == ' ' by {
            assert(tail[k] == comment@[k + 40]);
        }
        if a - 40 < tail.len() {
            assert(tail[a - 40] == comment@[a as int]);
        }
        lemma_trim_l(tail, a - 40);
        let mid = tail.skip(a - 40);
        assert(mid =~= comment@.subrange(a as int, n as int));
        assert forall|k: int| b - a <= k < mid.len() implies mid[k] == ' ' by {
            assert(mid[k] == comment@[k + a]);
        }
        if b > a {
            assert(mid[b - a - 1] == comment@[b - 1]);
        }
        lemma_trim_r(mid, b - a);
        assert(trimmed(tail) == mid.take(b - a));
        assert(mid.take(b - a) =~= comment@.subrange(a as int, b as int));
    }
    let ghost t = comment@.subrange(a as int, b as int);
    if b - a != 19 {
        return None;
    }
    // the two digit groups
    let date_digits = parse_fixed_digits(comment, a, 8);
    let time_digits = parse_fixed_digits(comment, a + 9, 6);
    proof {
        assert(t.subrange(0, 8) =~= comment@.subrange(a as int, a + 8));
        assert(t.subrange(9, 15) =~= comment@.subrange(a + 9, a + 15));
    }
    if date_digits.is_none() {
        proof {
            assert(!all_dec_digits(t.subrange(0, 8)));
        }
        return None;
    }
    if time_digits.is_none() {
        proof {
            assert(!all_dec_digits(t.subrange(9, 15)));
        }
        return None;
    }
    if comment.get_char(a + 8) != ' ' {
        proof {
            assert(t[8] == comment@[a + 8]);
        }
        return None;
    }
    let ok_suffix = comment.get_char(a + 15) == ' ' && comment.get_char(a + 16) == 'U'
        && comment.get_char(a + 17) == 'T' && comment.get_char(a + 18) == 'C';
    proof {
        reveal_strlit(" UTC");
    }
    if !ok_suffix {
        proof {
            assert(t.subrange(15, 19)[0] == comment@[a + 15]);
            assert(t.subrange(15, 19)[1] == comment@[a + 16]);
            assert(t.subrange(15, 19)[2] == comment@[a + 17]);
            assert(t.subrange(15, 19)[3] == comment@[a + 18]);
            assert(t.subrange(15, 19) != " UTC"@);
        }
        return None;
    }
    proof {
        assert(t.subrange(15, 19) =~= " UTC"@) by {
            assert(t.subrange(15, 19)[0] == comment@[a + 15]);
            assert(t.subrange(15, 19)[1] == comment@[a + 16]);
            assert(t.subrange(15, 19)[2] == comment@[a + 17]);
            assert(t.subrange(15, 19)[3] == comment@[a + 18]);
        }
        assert(t[8] == comment@[a + 8]);
    }
    let y = parse_fixed_digits(comment, a, 4);
    let mo = parse_fixed_digits(comment, a + 4, 2);
    let d = parse_fixed_digits(comment, a + 6, 2);
    let h = parse_fixed_digits(comment, a + 9, 2);
    let mi = parse_fixed_digits(comment, a + 11, 2);
    let se = parse_fixed_digits(comment, a + 13, 2);
    proof {
        let full_date = t.subrange(0, 8);
        assert(t.subrange(0, 4) =~= comment@.subrange(a as int, a + 4));
        assert(t.subrange(4, 6) =~= comment@.subrange(a + 4, a + 6));
        assert(t.subrange(6, 8) =~= comment@.subrange(a + 6, a + 8));
        assert(t.subrange(9, 11) =~= comment@.subrange(a + 9, a + 11));
        assert(t.subrange(11, 13) =~= comment@.subrange(a + 11, a + 13));
        assert(t.subrange(13, 15) =~= comment@.subrange(a + 13, a + 15));
        assert forall|k: int| 0 <= k < 4 implies crate::strutil::is_dec_digit(
            #[trigger] comment@.subrange(a as int, a + 4)[k],
        ) by {
            assert(comment@.subrange(a as int, a + 4)[k] == full_date[k]);
        }
        assert forall|k: int| 0 <= k < 2 implies crate::strutil::is_dec_digit(
            #[trigger] comment@.subrange(a + 4, a + 6)[k],
        ) by {
            assert(comment@.subrange(a + 4, a + 6)[k] == full_date[k + 4]);
        }
        assert forall|k: int| 0 <= k < 2 implies crate::strutil::is_dec_digit(
            #[trigger] comment@.subrange(a + 6, a + 8)[k],
        ) by {
            assert(comment@.subrange(a + 6, a + 8)[k] == full_date[k + 6]);
        }
        let full_time = t.subrange(9, 15);
        assert forall|k: int| 0 <= k < 2 implies crate::strutil::is_dec_digit(
            #[trigger] comment@.subrange(a + 9, a + 11)[k],
        ) by {
            assert(comment@.subrange(a + 9, a + 11)[k] == full_time[k]);
        }
        assert forall|k: int| 0 <= k < 2 implies crate::strutil::is_dec_digit(
            #[trigger] comment@.subrange(a + 11, a + 13)[k],
        ) by {
            assert(comment@.subrange(a + 11, a + 13)[k] == full_time[k + 2]);
        }
        assert forall|k: int| 0 <= k < 2 implies crate::strutil::is_dec_digit(
            #[trigger] comment@.subrange(a + 13, a + 15)[k],
        ) by {
            assert(comment@.subrange(a + 13, a + 15)[k] == full_time[k + 4]);
        }
    }
    let yv = y.unwrap();
    let mov = mo.unwrap();
    let dv = d.unwrap();
    let hv = h.unwrap();
    let miv = mi.unwrap();
    let sev = se.unwrap();
    proof {
        assert(yv <= 9999) by {
            crate::strutil::lemma_digits_val_pow(t.subrange(0, 4));
            assert(crate::strutil::pow10(0) == 1);
            assert(crate::strutil::pow10(1) == 10);
            assert(crate::strutil::pow10(2) == 100);
            assert(crate::strutil::pow10(3) == 1000);
            assert(crate::strutil::pow10(4) == 10000);
        }
        assert(mov <= 99 && dv <= 99 && hv <= 99 && miv <= 99 && sev <= 99) by {
            crate::strutil::lemma_digits_val_pow(t.subrange(4, 6));
            crate::strutil::lemma_digits_val_pow(t.subrange(6, 8));
            crate::strutil::lemma_digits_val_pow(t.subrange(9, 11));
            crate::strutil::lemma_digits_val_pow(t.subrange(11, 13));
            crate::strutil::lemma_digits_val_pow(t.subrange(13, 15));
            assert(crate::strutil::pow10(0) == 1);
            assert(crate::strutil::pow10(1) == 10);
            assert(crate::strutil::pow10(2) == 100);
        }
    }
    if !(1 <= mov && mov <= 12) {
        return None;
    }
    let dim = days_in_month(yv as i64, mov as u8);
    if !(1 <= dv && dv <= dim as u64) {
        return None;
    }
    if !(hv <= 23 && miv <= 59 && sev <= 59) {
        return None;
    }
    let ct = CivilTime {
        year: yv as i64,
        month: mov as u8,
        day: dv as u8,
        hour: hv as u8,
        minute: miv as u8,
        second: sev as u8,
    };
    proof {
        assert(timestamp_of(t) == Some(ct));
        assert(ct.wf());
    }
    let secs = civil_to_secs(ct);
    Some(secs)
}

/// The boundary timestamps of a comment list, in list order: one entry for
/// each comment that carries the merge label and a well-formed timestamp.
pub open spec fn boundaries_of(comments: Seq<Seq<char>>) -> Seq<int>
    decreases comments.len(),
{
    if comments.len() == 0 {
        Seq::empty()
    } else {
        (match boundary_of(comments[0]) {
            Some(v) => seq![v],
            None => Seq::empty(),
        }) + boundaries_of(comments.skip(1))
    }
}

/// Scans a comment list for merge boundaries, in list order.
pub fn scan_boundaries(comments: &Vec<String>) -> (r: Vec<i64>)
    ensures
        r@.map_values(|v: i64| v as int) == boundaries_of(comments.deep_view()),
{
    let n = comments.len();
    let mut out: Vec<i64> = Vec::new();
    let mut i: usize = 0;
    proof {
        assert(comments.deep_view().skip(0) =~= comments.deep_view());
    }
    while i < n
        invariant
            n == comments@.len(),
            i <= n,
            out@.map_values(|v: i64| v as int) + boundaries_of(comments.deep_view().skip(i as int))
                == boundaries_of(comments.deep_view()),
        decreases n - i,
    {
        let ghost cdv = comments.deep_view();
        let ghost rest = cdv.skip(i as int);
        proof {
            assert(rest[0] == cdv[i as int]);
            assert(rest.skip(1) =~= cdv.skip(i + 1int));
            assert(cdv[i as int] == comments@[i as int]@);
        }
        let c = &comments[i];
        if is_merge_marker(c.as_str()) {
            match parse_merge_marker(c.as_str()) {
                Some(v) => {
                    let ghost pre = out@;
                    out.push(v);
                    proof {
                        assert(boundary_of(cdv[i as int]) == Some(v as int));
                        assert(out@.map_values(|x: i64| x as int) =~= pre.map_values(
                            |x: i64| x as int,
                        ).push(v as int));
                        assert(out@.map_values(|x: i64| x as int) + boundaries_of(
                            cdv.skip(i + 1int),
                        ) =~= pre.map_values(|x: i64| x as int) + (seq![v as int] + boundaries_of(
                            cdv.skip(i + 1int),
                        )));
                    }
                },
                None => {
                    proof {
                        assert(boundary_of(cdv[i as int]) is None);
                        assert(out@.map_values(|x: i64| x as int) + boundaries_of(
                            cdv.skip(i + 1int),
                        ) =~= out@.map_values(|x: i64| x as int) + (Seq::<int>::empty()
                            + boundaries_of(cdv.skip(i + 1int))));
                    }
                },
            }
        } else {
            proof {
                assert(boundary_of(cdv[i as int]) is None);
                assert(out@.map_values(|x: i64| x as int) + boundaries_of(cdv.skip(i + 1int)) =~= out@.map_values(
                    |x: i64| x as int,
                ) + (Seq::<int>::empty() + boundaries_of(cdv.skip(i + 1int))));
            }
        }
        i += 1;
    }
    proof {
        assert(comments.deep_view().skip(n as int) =~= Seq::<Seq<char>>::empty());
        assert(out@.map_values(|v: i64| v as int) + Seq::<int>::empty() =~= out@.map_values(
            |v: i64| v as int,
        ));
    }
    out
}

/// Relies on `SystemTime::now` of std and chrono's total
/// `DateTime::from_timestamp` with the `Datelike` / `Timelike` accessors:
/// the current UTC wall-clock time as calendar fields. A clock before 1970
/// or outside chrono's date range falls back to the 1970 origin, so the call
/// never panics. chrono documents the accessor ranges (month 1 to 12, day 1
/// to 31, hour to 23, minute and second to 59), bounds its dates to about
/// 262,000 years around the common era, and a `NaiveDate` is a valid
/// calendar date by construction, so the day fits its month; nothing else
/// holds of a wall clock.
#[verifier::external_body]
pub fn utc_now_civil() -> (r: CivilTime)
    ensures
        r.wf(),
        -262144 <= r.year <= 262143,
        1 <= r.day <= spec_days_in_month(r.year as int, r.month as int),
{
    let secs = std::time::SystemTime::now()
        .duration_since(std::time::UNIX_EPOCH)
        .map(|d| d.as_secs() as i64)
        .unwrap_or(0);
    match chrono::DateTime::<chrono::Utc>::from_timestamp(secs, 0) {
        Some(dt) => {
            let t = dt.naive_utc();
            CivilTime { year: t.year() as i64, month: t.month() as u8, day: t.day() as u8,
                hour: t.hour() as u8, minute: t.minute() as u8, second: t.second() as u8 }
        },
        None => CivilTime { year: 1970, month: 1, day: 1, hour: 0, minute: 0, second: 0 },
    }
}

/// Reading back a freshly stamped marker yields exactly the stamped
/// timestamp: the marker format and the boundary scan agree, for any
/// producer name and any wall-clock reading with a four-digit year.
pub proof fn lemma_marker_round_trip(producer: Seq<char>, t: CivilTime)
    requires
        t.wf(),
        0 <= t.year <= 9999,
        1 <= t.day <= spec_days_in_month(t.year as int, t.month as int),
    ensures
        marker_secs(marker_comment_seq(producer, t)) == Some(secs_of_civil(t)),
        boundary_of(marker_comment_seq(producer, t)) == Some(secs_of_civil(t)),
{
    let m = marker_comment_seq(producer, t);
    let ts = timestamp_seq(t);
    assert(crate::strutil::pow10(0) == 1);
    assert(crate::strutil::pow10(1) == 10);
    assert(crate::strutil::pow10(2) == 100);
    assert(crate::strutil::pow10(3) == 1000);
    assert(crate::strutil::pow10(4) == 10000);
    lemma_dec_digits_len_val(t.year as nat, 4);
    lemma_dec_digits_len_val(t.month as nat, 2);
    lemma_dec_digits_len_val(t.day as nat, 2);
    lemma_dec_digits_len_val(t.hour as nat, 2);
    lemma_dec_digits_len_val(t.minute as nat, 2);
    lemma_dec_digits_len_val(t.second as nat, 2);
    reveal_strlit(" UTC");
    reveal_strlit("FILE MERGE          ");
    assert(pad_to_20(producer).len() == 20);
    assert(m.len() == 40 + ts.len());
    assert(ts.len() == 19);
    assert(m.skip(40) =~= ts);
    // the tail holds no leading or trailing spaces
    assert(ts[0] == dec_digits(t.year as nat, 4)[0]);
    assert(crate::strutil::is_dec_digit(ts[0]));
    assert(ts[0] != ' ');
    assert(ts[18] == 'C');
    assert(trim_l(ts) == ts);
    assert(trim_r(ts) == ts);
    assert(trimmed(m.skip(40)) == ts);
    // the digit groups sit at their fixed columns
    assert(ts.subrange(0, 4) =~= dec_digits(t.year as nat, 4));
    assert(ts.subrange(4, 6) =~= dec_digits(t.month as nat, 2));
    assert(ts.subrange(6, 8) =~= dec_digits(t.day as nat, 2));
    assert(ts[8] == ' ');
    assert(ts.subrange(9, 11) =~= dec_digits(t.hour as nat, 2));
    assert(ts.subrange(11, 13) =~= dec_digits(t.minute as nat, 2));
    assert(ts.subrange(13, 15) =~= dec_digits(t.second as nat, 2));
    assert(ts.subrange(15, 19) =~= " UTC"@);
    assert(all_dec_digits(ts.subrange(0, 8))) by {
        assert forall|k: int| 0 <= k < 8 implies crate::strutil::is_dec_digit(
            #[trigger] ts.subrange(0, 8)[k],
        ) by {
            if k < 4 {
                assert(ts.subrange(0, 8)[k] == dec_digits(t.year as nat, 4)[k]);
            } else if k < 6 {
                assert(ts.subrange(0, 8)[k] == dec_digits(t.month as nat, 2)[k - 4]);
            } else {
                assert(ts.subrange(0, 8)[k] == dec_digits(t.day as nat, 2)[k - 6]);
            }
        }
    }
    assert(all_dec_digits(ts.subrange(9, 15))) by {
        assert forall|k: int| 0 <= k < 6 implies crate::strutil::is_dec_digit(
            #[trigger] ts.subrange(9, 15)[k],
        ) by {
            if k < 2 {
                assert(ts.subrange(9, 15)[k] == dec_digits(t.hour as nat, 2)[k]);
            } else if k < 4 {
                assert(ts.subrange(9, 15)[k] == dec_digits(t.minute as nat, 2)[k - 2]);
            } else {
                assert(ts.subrange(9, 15)[k] == dec_digits(t.second as nat, 2)[k - 4]);
            }
        }
    }
    assert(timestamp_of(ts) == Some(t)) by {
        assert(digits_val(ts.subrange(0, 4)) == t.year as int);
        assert(digits_val(ts.subrange(4, 6)) == t.month as int);
        assert(digits_val(ts.subrange(6, 8)) == t.day as int);
        assert(digits_val(ts.subrange(9, 11)) == t.hour as int);
        assert(digits_val(ts.subrange(11, 13)) == t.minute as int);
        assert(digits_val(ts.subrange(13, 15)) == t.second as int);
    }
    reveal_strlit("FILE MERGE");
    assert(m.subrange(20, 30) =~= "FILE MERGE"@);
    assert(crate::strutil::matches_at(m, "FILE MERGE"@, 20));
}

/// For values that fit the width, the fixed-width digit string has exactly
/// that width, holds only digits, and reads back to the value.
pub proof fn lemma_dec_digits_len_val(v: nat, width: nat)
    requires
        1 <= width <= 9,
        v < crate::strutil::pow10(width),
    ensures
        dec_digits(v, width).len() == width,
        all_dec_digits(dec_digits(v, width)),
        digits_val(dec_digits(v, width)) == v,
    decreases width,
{
    let s = dec_digits(v, width);
    if width == 1 {
        assert(crate::strutil::pow10(0) == 1);
        assert(crate::strutil::pow10(1) == 10);
        assert(v < 10);
        assert(s =~= seq![crate::strutil::digit_char(v as int)]);
        assert(crate::strutil::is_dec_digit(s[0]));
        assert(s.drop_last() =~= Seq::<char>::empty());
        assert(digits_val(s) == 10 * digits_val(s.drop_last()) + crate::strutil::digit_val(s[0]));
        assert(crate::strutil::digit_val(crate::strutil::digit_char(v as int)) == v);
    } else {
        assert(crate::strutil::pow10(width) == 10 * crate::strutil::pow10((width - 1) as nat));
        assert(v / 10 < crate::strutil::pow10((width - 1) as nat)) by (nonlinear_arith)
            requires
                v < 10 * crate::strutil::pow10((width - 1) as nat),
                crate::strutil::pow10((width - 1) as nat) >= 1,
        ;
        lemma_dec_digits_len_val(v / 10, (width - 1) as nat);
        assert(!(v < 10 && width <= 1));
        assert(s == dec_digits(v / 10, (width - 1) as nat).push(
            crate::strutil::digit_char((v % 10) as int),
        ));
        assert(s.drop_last() =~= dec_digits(v / 10, (width - 1) as nat));
        assert(s.last() == crate::strutil::digit_char((v % 10) as int));
        assert(crate::strutil::is_dec_digit(s.last()));
        assert(crate::strutil::digit_val(s.last()) == v % 10);
        assert forall|k: int| 0 <= k < s.len() implies crate::strutil::is_dec_digit(
            #[trigger] s[k],
        ) by {
            if k < s.len() - 1 {
                assert(s[k] == s.drop_last()[k]);
            }
        }
        assert(digits_val(s) == digits_val(s.drop_last()) * 10 + crate::strutil::digit_val(
            s.last(),
        ));
        assert((v / 10) * 10 + v % 10 == v) by (nonlinear_arith);
    }
}

} // verus!
