//! Proleptic Gregorian calendar arithmetic: conversions between civil
//! calendar fields and the second counts that epochs carry. The merge-marker
//! timestamp and the file naming logic rest on these conversions.
use vstd::prelude::*;

verus! {

/// Lowest calendar year the conversions accept.
pub const YEAR_LO: i64 = -300000;

/// Highest calendar year the conversions accept.
pub const YEAR_HI: i64 = 300000;

/// Lowest second count the conversions accept.
pub const EPOCH_SECS_LO: i64 = -9_500_000_000_000;

/// Highest second count the conversions accept.
pub const EPOCH_SECS_HI: i64 = 9_500_000_000_000;

/// Calendar fields of one UTC timestamp, at second resolution.
#[derive(Clone, Copy, Debug, PartialEq, Eq, Structural)]
pub struct CivilTime {
    /// Calendar year (proleptic Gregorian).
    pub year: i64,
    /// Month, 1 to 12.
    pub month: u8,
    /// Day of month, 1 to 31.
    pub day: u8,
    /// Hour of day, 0 to 23.
    pub hour: u8,
    /// Minute, 0 to 59.
    pub minute: u8,
    /// Second, 0 to 59.
    pub second: u8,
}

impl CivilTime {
    /// Field ranges every conversion expects.
    pub open spec fn wf(self) -> bool {
        &&& YEAR_LO <= self.year <= YEAR_HI
        &&& 1 <= self.month <= 12
        &&& 1 <= self.day <= 31
        &&& self.hour <= 23
        &&& self.minute <= 59
        &&& self.second <= 59
    }
}

/// The Gregorian leap-year rule.
pub open spec fn is_leap_year(y: int) -> bool {
    y % 4 == 0 && (y % 100 != 0 || y % 400 == 0)
}

/// How many days the month `m` of year `y` has.
pub open spec fn spec_days_in_month(y: int, m: int) -> int {
    if m == 2 {
        if is_leap_year(y) {
            29
        } else {
            28
        }
    } else if m == 4 || m == 6 || m == 9 || m == 11 {
        30
    } else {
        31
    }
}

/// Returns how many days the month `m` of year `y` has.
pub fn days_in_month(y: i64, m: u8) -> (r: u8)
    requires
        0 <= y,
        1 <= m <= 12,
    ensures
        r as int == spec_days_in_month(y as int, m as int),
{
    if m == 2 {
        let leap = y % 4 == 0 && (y % 100 != 0 || y % 400 == 0);
        if leap {
            29
        } else {
            28
        }
    } else if m == 4 || m == 6 || m == 9 || m == 11 {
        30
    } else {
        31
    }
}

/// Day count of a calendar date, relative to 1970-01-01 (day zero).
pub open spec fn days_from_civil(y: int, m: int, d: int) -> int {
    let yy = if m <= 2 {
        y - 1
    } else {
        y
    };
    let sy = yy + 400000;
    let era = sy / 400;
    let yoe = sy - era * 400;
    let mp = if m > 2 {
        m - 3
    } else {
        m + 9
    };
    let doy = (153 * mp + 2) / 5 + d - 1;
    let doe = yoe * 365 + yoe / 4 - yoe / 100 + doy;
    era * 146097 + doe - 719468 - 146097000
}

/// Second count of a civil timestamp, relative to 1970-01-01 00:00:00 UTC.
pub open spec fn secs_of_civil(t: CivilTime) -> int {
    days_from_civil(t.year as int, t.month as int, t.day as int) * 86400 + t.hour * 3600
        + t.minute * 60 + t.second
}

/// Converts a calendar date to its day count relative to 1970-01-01.
pub fn civil_to_days(y: i64, m: u8, d: u8) -> (r: i64)
    requires
        YEAR_LO <= y <= YEAR_HI,
        1 <= m <= 12,
        1 <= d <= 31,
    ensures
        r as int == days_from_civil(y as int, m as int, d as int),
{
    let yy: i64 = if m <= 2 {
        y - 1
    } else {
        y
    };
    let sy: i64 = yy + 400000;
    let era: i64 = ((sy as u64) / 400) as i64;
    proof {
        assert(0 <= (sy as int) / 400 <= 1751) by (nonlinear_arith)
            requires
                0 <= (sy as int) <= 700001,
        ;
        assert(0 <= (sy as int) - ((sy as int) / 400) * 400 < 400) by (nonlinear_arith)
            requires
                (sy as int) >= 0,
        ;
    }
    let yoe: i64 = sy - era * 400;
    let mi: i64 = m as i64;
    let mp: i64 = if m > 2 {
        mi - 3
    } else {
        mi + 9
    };
    let num: i64 = 153 * mp + 2;
    proof {
        assert(0 <= (num as int) / 5 <= 337) by (nonlinear_arith)
            requires
                0 <= (num as int) <= 1685,
        ;
    }
    let doy: i64 = ((num as u64) / 5) as i64 + (d as i64) - 1;
    proof {
        assert(0 <= (yoe as int) / 4 <= 99) by (nonlinear_arith)
            requires
                0 <= (yoe as int) < 400,
        ;
        assert(0 <= (yoe as int) / 100 <= 3) by (nonlinear_arith)
            requires
                0 <= (yoe as int) < 400,
        ;
    }
    let doe: i64 = yoe * 365 + ((yoe as u64) / 4) as i64 - ((yoe as u64) / 100) as i64 + doy;
    era * 146097 + doe - 719468 - 146097000
}

/// Converts a civil timestamp to its second count relative to
/// 1970-01-01 00:00:00 UTC.
pub fn civil_to_secs(t: CivilTime) -> (r: i64)
    requires
        t.wf(),
    ensures
        r as int == secs_of_civil(t),
{
    let days = civil_to_days(t.year, t.month, t.day);
    days * 86400 + (t.hour as i64) * 3600 + (t.minute as i64) * 60 + (t.second as i64)
}

/// Day count of the day a second count falls in.
pub open spec fn days_of_secs(s: int) -> int {
    (s + 17_280_000_000_000) / 86400 - 200_000_000
}

/// Second of day of a second count.
pub open spec fn sec_of_day(s: int) -> int {
    (s + 17_280_000_000_000) % 86400
}

/// Calendar date (year, month, day) of a day count relative to 1970-01-01.
pub open spec fn civil_of_days(z: int) -> (int, int, int) {
    let zz = z + 719468 + 146097000;
    let era = zz / 146097;
    let doe = zz - era * 146097;
    let yoe = (doe - doe / 1460 + doe / 36524 - doe / 146096) / 365;
    let yy = yoe + era * 400 - 400000;
    let doy = doe - (365 * yoe + yoe / 4 - yoe / 100);
    let mp = (5 * doy + 2) / 153;
    let d = doy - (153 * mp + 2) / 5 + 1;
    let m = if mp < 10 {
        mp + 3
    } else {
        mp - 9
    };
    let y = if m <= 2 {
        yy + 1
    } else {
        yy
    };
    (y, m, d)
}

/// Civil timestamp of a second count relative to 1970-01-01 00:00:00 UTC.
pub open spec fn civil_of_secs(s: int) -> CivilTime {
    let (y, m, d) = civil_of_days(days_of_secs(s));
    let sod = sec_of_day(s);
    CivilTime {
        year: y as i64,
        month: m as u8,
        day: d as u8,
        hour: (sod / 3600) as u8,
        minute: ((sod % 3600) / 60) as u8,
        second: (sod % 60) as u8,
    }
}

/// Converts a second count to its civil timestamp.
pub fn secs_to_civil(s: i64) -> (r: CivilTime)
    requires
        EPOCH_SECS_LO <= s <= EPOCH_SECS_HI,
    ensures
        r == civil_of_secs(s as int),
{
    let sh: i64 = s + 17_280_000_000_000;
    proof {
        assert(90_000_000 <= (sh as int) / 86400 <= 310_185_186) by (nonlinear_arith)
            requires
                7_780_000_000_000 <= (sh as int) <= 26_800_000_000_000,
        ;
        assert(0 <= (sh as int) % 86400 < 86400) by (nonlinear_arith)
            requires
                (sh as int) >= 0,
        ;
    }
    let days: i64 = ((sh as u64) / 86400) as i64 - 200_000_000;
    let sod: i64 = ((sh as u64) % 86400) as i64;
    let (y, m, d) = days_to_civil(days);
    proof {
        assert(0 <= (sod as int) / 3600 <= 23) by (nonlinear_arith)
            requires
                0 <= (sod as int) < 86400,
        ;
        assert(0 <= (sod as int) % 3600 < 3600) by (nonlinear_arith)
            requires
                (sod as int) >= 0,
        ;
        assert(0 <= ((sod as int) % 3600) / 60 <= 59) by (nonlinear_arith)
            requires
                0 <= (sod as int) % 3600 < 3600,
        ;
        assert(0 <= (sod as int) % 60 < 60) by (nonlinear_arith)
            requires
                (sod as int) >= 0,
        ;
    }
    let hour: u8 = (((sod as u64) / 3600) as u8);
    let minute: u8 = ((((sod as u64) % 3600) / 60) as u8);
    let second: u8 = (((sod as u64) % 60) as u8);
    CivilTime { year: y, month: m, day: d, hour, minute, second }
}

/// The time-of-day fields of a second count stay within their ranges.
pub proof fn lemma_civil_of_secs_clock_ranges(s: int)
    requires
        EPOCH_SECS_LO <= s <= EPOCH_SECS_HI,
    ensures
        civil_of_secs(s).hour <= 23,
        civil_of_secs(s).minute <= 59,
        civil_of_secs(s).second <= 59,
{
    let sod = sec_of_day(s);
    assert(0 <= sod < 86400) by (nonlinear_arith)
        requires
            sod == (s + 17_280_000_000_000) % 86400,
            s + 17_280_000_000_000 >= 0,
    ;
    assert(0 <= sod / 3600 <= 23) by (nonlinear_arith)
        requires
            0 <= sod < 86400,
    ;
    assert(0 <= sod % 3600 < 3600) by (nonlinear_arith)
        requires
            sod >= 0,
    ;
    assert(0 <= (sod % 3600) / 60 <= 59) by (nonlinear_arith)
        requires
            0 <= sod % 3600 < 3600,
    ;
    assert(0 <= sod % 60 < 60) by (nonlinear_arith)
        requires
            sod >= 0,
    ;
}

/// Converts a day count relative to 1970-01-01 to its calendar date.
pub fn days_to_civil(z: i64) -> (r: (i64, u8, u8))
    requires
        -146_000_000 <= z <= 146_000_000,
    ensures
        (r.0 as int, r.1 as int, r.2 as int) == civil_of_days(z as int),
{
    let zz: i64 = z + 719468 + 146097000;
    proof {
        assert(0 <= (zz as int) / 146097 <= 2013) by (nonlinear_arith)
            requires
                0 <= (zz as int) <= 292_916_468,
        ;
        assert(0 <= (zz as int) - ((zz as int) / 146097) * 146097 < 146097) by (nonlinear_arith)
            requires
                (zz as int) >= 0,
        ;
    }
    let era: i64 = ((zz as u64) / 146097) as i64;
    let doe: i64 = zz - era * 146097;
    proof {
        assert(0 <= (doe as int) / 1460 <= 100) by (nonlinear_arith)
            requires
                0 <= (doe as int) < 146097,
        ;
        assert(0 <= (doe as int) / 36524 <= 4) by (nonlinear_arith)
            requires
                0 <= (doe as int) < 146097,
        ;
        assert(0 <= (doe as int) / 146096 <= 1) by (nonlinear_arith)
            requires
                0 <= (doe as int) < 146097,
        ;
        assert((doe as int) / 1460 <= (doe as int)) by (nonlinear_arith)
            requires
                (doe as int) >= 0,
        ;
        assert((doe as int) >= 1 ==> (doe as int) - (doe as int) / 1460 >= 1) by (nonlinear_arith)
            requires
                (doe as int) >= 0,
        ;
    }
    let ynum: i64 = doe - ((doe as u64) / 1460) as i64 + ((doe as u64) / 36524) as i64 - ((
    doe as u64) / 146096) as i64;
    proof {
        assert(0 <= (ynum as int));
        assert(0 <= (ynum as int) / 365 <= 400) by (nonlinear_arith)
            requires
                0 <= (ynum as int) <= 146101,
        ;
    }
    let yoe: i64 = ((ynum as u64) / 365) as i64;
    let yy: i64 = yoe + era * 400 - 400000;
    proof {
        assert(0 <= (yoe as int) / 4 <= 100) by (nonlinear_arith)
            requires
                0 <= (yoe as int) <= 400,
        ;
        assert(0 <= (yoe as int) / 100 <= 4) by (nonlinear_arith)
            requires
                0 <= (yoe as int) <= 400,
        ;
    }
    let doy: i64 = doe - (365 * yoe + ((yoe as u64) / 4) as i64 - ((yoe as u64) / 100) as i64);
    proof {
        assert(-146_500 <= (doy as int) <= 147_000);
    }
    let mpnum: i64 = 5 * doy + 2;
    let mp: i64 = if mpnum >= 0 {
        ((mpnum as u64) / 153) as i64
    } else {
        proof {
            assert((((-(mpnum as int)) + 152) / 153) >= 0) by (nonlinear_arith)
                requires
                    (mpnum as int) < 0,
            ;
            assert((((-(mpnum as int)) + 152) / 153) <= 4810) by (nonlinear_arith)
                requires
                    0 < -(mpnum as int) <= 735_500,
            ;
        }
        let q: i64 = (((-mpnum) as u64 + 152) / 153) as i64;
        proof {
            lemma_neg_div(mpnum as int, q as int, 153);
        }
        -q
    };
    let dnum: i64 = 153 * mp + 2;
    let dq: i64 = if dnum >= 0 {
        proof {
            assert(0 <= (dnum as int) / 5) by (nonlinear_arith)
                requires
                    (dnum as int) >= 0,
            ;
            assert((dnum as int) / 5 <= 147_200) by (nonlinear_arith)
                requires
                    0 <= (dnum as int) <= 735_500,
            ;
        }
        ((dnum as u64) / 5) as i64
    } else {
        proof {
            assert(0 <= (((-(dnum as int)) + 4) / 5) <= 147_200) by (nonlinear_arith)
                requires
                    0 < -(dnum as int) <= 735_500,
            ;
        }
        let q: i64 = (((-dnum) as u64 + 4) / 5) as i64;
        proof {
            lemma_neg_div(dnum as int, q as int, 5);
        }
        -q
    };
    let d: i64 = doy - dq + 1;
    let m: i64 = if mp < 10 {
        mp + 3
    } else {
        mp - 9
    };
    let y: i64 = if m <= 2 {
        yy + 1
    } else {
        yy
    };
    proof {
        let (sy, sm, sd) = civil_of_days(z as int);
        assert(1 <= sm <= 12 && 1 <= sd <= 31 ==> true);
        assert(m as int == sm && d as int == sd && y as int == sy) by {
            assert(mp as int == (5 * (doy as int) + 2) / 153);
            assert(dq as int == (153 * (mp as int) + 2) / 5);
        }
        assert(1 <= m <= 12 && 1 <= d <= 31) by {
            lemma_civil_of_days_ranges(doe as int, yoe as int, doy as int, mp as int);
        }
    }
    (y, m as u8, d as u8)
}

/// For a negative dividend, the mathematical quotient by a positive divisor
/// equals the negated rounded-up quotient of the magnitude.
proof fn lemma_neg_div(a: int, q: int, b: int)
    requires
        a < 0,
        b > 0,
        q == ((-a) + b - 1) / b,
    ensures
        a / b == -q,
{
    assert(a / b == -(((-a) + b - 1) / b)) by (nonlinear_arith)
        requires
            a < 0,
            b > 0,
    ;
}

/// The month and day that fall out of the day-count conversion stay within
/// calendar ranges.
proof fn lemma_civil_of_days_ranges(doe: int, yoe: int, doy: int, mp: int)
    requires
        0 <= doe < 146097,
        yoe == (doe - doe / 1460 + doe / 36524 - doe / 146096) / 365,
        doy == doe - (365 * yoe + yoe / 4 - yoe / 100),
        mp == (5 * doy + 2) / 153,
    ensures
        0 <= doy <= 365,
        0 <= mp <= 11,
        1 <= doy - (153 * mp + 2) / 5 + 1 <= 31,
{
    assert(0 <= yoe <= 399) by (nonlinear_arith)
        requires
            0 <= doe < 146097,
            yoe == (doe - doe / 1460 + doe / 36524 - doe / 146096) / 365,
    ;
    assert(0 <= doy <= 365) by (nonlinear_arith)
        requires
            0 <= doe < 146097,
            0 <= yoe <= 399,
            yoe == (doe - doe / 1460 + doe / 36524 - doe / 146096) / 365,
            doy == doe - (365 * yoe + yoe / 4 - yoe / 100),
    ;
    assert(0 <= mp <= 11) by (nonlinear_arith)
        requires
            0 <= doy <= 365,
            mp == (5 * doy + 2) / 153,
    ;
    assert(1 <= doy - (153 * mp + 2) / 5 + 1 <= 31) by (nonlinear_arith)
        requires
            0 <= doy <= 365,
            mp == (5 * doy + 2) / 153,
    ;
}

} // verus!
