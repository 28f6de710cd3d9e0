use std::str::FromStr;

use chrono::Timelike;

use rinex::channel::{
    is_doppler_obs_code, is_phase_carrier_obs_code, is_pseudo_range_obs_code,
    is_sig_strength_obs_code,
};
use rinex::civil::{civil_to_secs, days_in_month, secs_to_civil, CivilTime};
use rinex::header::version_is_supported;
use rinex::hourly_session_str;
use rinex::is_comment;
use rinex::constellation::Constellation;
use rinex::epoch::{Epoch, EpochFlag};
use rinex::header::Header;
use rinex::observation::ObsEntry;
use rinex::record::Record;
use rinex::series::TimeSeries;
use rinex::Rinex;
use rinex::header::LeapSecond;
use rinex::marker::{marker_comment, parse_merge_marker};
use rinex::{MergeError, SplitError};

#[test]
fn test_macros() {
    assert_eq!(is_comment("This is a comment COMMENT"), true);
    assert_eq!(is_comment("This is a comment"), false);
    assert_eq!(is_pseudo_range_obs_code("C1P"), true);
    assert_eq!(is_pseudo_range_obs_code("P1P"), true);
    assert_eq!(is_pseudo_range_obs_code("L1P"), false);
    assert_eq!(is_phase_carrier_obs_code("L1P"), true);
    assert_eq!(is_phase_carrier_obs_code("D1P"), false);
    assert_eq!(is_doppler_obs_code("D1P"), true);
    assert_eq!(is_doppler_obs_code("L1P"), false);
    assert_eq!(is_sig_strength_obs_code("S1P"), true);
    assert_eq!(is_sig_strength_obs_code("L1P"), false);
}

#[test]
fn test_version_tool() {
    assert_eq!(version_is_supported("a.b").is_err(), true); // fmt error
    assert_eq!(version_is_supported("1.0").unwrap(), true); // OK basic
    assert_eq!(version_is_supported("1.0").unwrap(), true); // OK old
    assert_eq!(version_is_supported("3.04").unwrap(), true); // OK current
    assert_eq!(version_is_supported("4.0").unwrap(), false); // NOK too recent
}

#[test]
fn test_shared_methods() {
    let time = chrono::NaiveTime::from_str("00:00:00").unwrap();
    assert_eq!(hourly_session_str(time.hour() as u8), "a");
    let time = chrono::NaiveTime::from_str("00:30:00").unwrap();
    assert_eq!(hourly_session_str(time.hour() as u8), "a");
    let time = chrono::NaiveTime::from_str("23:30:00").unwrap();
    assert_eq!(hourly_session_str(time.hour() as u8), "x");
}

#[test]
fn civil_conversion_known_values() {
    // 2023-01-01 00:00:00 UTC
    let t = CivilTime { year: 2023, month: 1, day: 1, hour: 0, minute: 0, second: 0 };
    assert_eq!(civil_to_secs(t), 1_672_531_200);
    // the UNIX origin itself
    let zero = CivilTime { year: 1970, month: 1, day: 1, hour: 0, minute: 0, second: 0 };
    assert_eq!(civil_to_secs(zero), 0);
    // a date before the origin
    let before = CivilTime { year: 1969, month: 12, day: 31, hour: 23, minute: 59, second: 59 };
    assert_eq!(civil_to_secs(before), -1);
    // round trip through the inverse conversion
    let back = secs_to_civil(1_672_531_200);
    assert_eq!(back, t);
    let back2 = secs_to_civil(civil_to_secs(CivilTime {
        year: 2024,
        month: 2,
        day: 29,
        hour: 12,
        minute: 34,
        second: 56,
    }));
    assert_eq!(back2.year, 2024);
    assert_eq!(back2.month, 2);
    assert_eq!(back2.day, 29);
    assert_eq!(back2.hour, 12);
    assert_eq!(back2.minute, 34);
    assert_eq!(back2.second, 56);
}

#[test]
fn month_lengths_respect_leap_years() {
    assert_eq!(days_in_month(2024, 2), 29);
    assert_eq!(days_in_month(2023, 2), 28);
    assert_eq!(days_in_month(2100, 2), 28);
    assert_eq!(days_in_month(2000, 2), 29);
    assert_eq!(days_in_month(2023, 4), 30);
    assert_eq!(days_in_month(2023, 12), 31);
}

#[test]
fn marker_comment_round_trip() {
    let t = CivilTime { year: 2023, month: 1, day: 2, hour: 3, minute: 4, second: 5 };
    let m = marker_comment("prog-1.0", t);
    // fixed columns: producer padded to 20, label padded to column 40
    assert_eq!(&m[..20], "prog-1.0            ");
    assert_eq!(&m[20..40], "FILE MERGE          ");
    assert_eq!(&m[40..], "20230102 030405 UTC");
    // the scan reads the stamped time back exactly
    assert_eq!(parse_merge_marker(&m), Some(civil_to_secs(t)));
}

#[test]
fn marker_parse_rejects_malformed_timestamps() {
    // too short: no column 40
    assert_eq!(parse_merge_marker("FILE MERGE"), None);
    // month out of range
    let bad = format!("{:<20}{:<20}{}", "p", "FILE MERGE", "20231302 030405 UTC");
    assert_eq!(parse_merge_marker(&bad), None);
    // day not valid for the month
    let bad = format!("{:<20}{:<20}{}", "p", "FILE MERGE", "20230229 030405 UTC");
    assert_eq!(parse_merge_marker(&bad), None);
    // letters where digits belong
    let bad = format!("{:<20}{:<20}{}", "p", "FILE MERGE", "2023010a 030405 UTC");
    assert_eq!(parse_merge_marker(&bad), None);
    // missing the trailing label
    let bad = format!("{:<20}{:<20}{}", "p", "FILE MERGE", "20230102 030405 XYZ");
    assert_eq!(parse_merge_marker(&bad), None);
    // leap years accepted
    let good = format!("{:<20}{:<20}{}", "p", "FILE MERGE", "20240229 030405 UTC");
    assert!(parse_merge_marker(&good).is_some());
}

#[test]
fn version_components_parse_like_numbers() {
    assert!(version_is_supported("2.11").unwrap());
    assert!(version_is_supported("3.05").is_ok());
    assert_eq!(version_is_supported("3.05").unwrap(), false);
    assert!(version_is_supported("3").is_err());
    assert!(version_is_supported(".5").is_err());
    assert!(version_is_supported("3.").is_err());
    // extra components beyond the second are ignored
    assert_eq!(version_is_supported("1.2.3").unwrap(), true);
}

#[test]
fn leap_second_defaults() {
    let ls = LeapSecond::new(18, Some(2185), Some(7), None, None);
    assert_eq!(ls.leap, 18);
    assert_eq!(ls.week, 2185);
    assert_eq!(ls.day, 7);
    assert_eq!(ls.delta, 0);
    assert_eq!(ls.constellation, Constellation::GPS);
    let d = LeapSecond::default();
    assert_eq!(d.leap, 0);
}

#[test]
fn error_messages_name_the_failure() {
    assert_eq!(MergeError::HeaderMismatch.message(), "headers cannot be merged");
    assert_eq!(SplitError::EpochTooEarly.message(), "desired epoch is too early");
    assert_eq!(SplitError::EpochTooLate.message(), "desired epoch is too late");
}

#[test]
fn filename_follows_conventions() {
    let date = civil_to_secs(CivilTime {
        year: 2021,
        month: 6,
        day: 1,
        hour: 14,
        minute: 30,
        second: 0,
    });
    let mut series: TimeSeries<ObsEntry> = TimeSeries::new();
    series.upsert(Epoch::new(date, EpochFlag::Nominal), ObsEntry::new(None, Vec::new()));
    let mut h = Header::default();
    h.station = "ACOR00ESP".to_string();
    let r = Rinex::new(h, Record::ObsRecord(series));
    // modern long form at revision three
    assert_eq!(r.filename(), "acor00CCC_R_2021DDD1430_00H_00Z_GO.rnx");
    // older short form below revision three
    let mut r2 = r;
    r2.header.version_major = 2;
    r2.header.version_minor = 11;
    assert_eq!(r2.filename(), "acorDDDo.2021o");
}
