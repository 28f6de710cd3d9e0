use rinex::antex::{AntexRecord, CalData};
use rinex::civil::{civil_to_secs, CivilTime};
use rinex::clocks::{ClockDataType, ClockEntry};
use rinex::constellation::{Constellation, Sv};
use rinex::epoch::{Epoch, EpochFlag};
use rinex::header::Header;
use rinex::observation::{ObsEntry, ObservationData};
use rinex::record::Record;
use rinex::series::TimeSeries;
use rinex::types::Type;
use rinex::{Rinex, SplitError};

fn secs(y: i64, mo: u8, d: u8, h: u8, mi: u8, s: u8) -> i64 {
    civil_to_secs(CivilTime { year: y, month: mo, day: d, hour: h, minute: mi, second: s })
}

fn ep(date: i64) -> Epoch {
    Epoch::new(date, EpochFlag::Nominal)
}

fn sv(c: Constellation, prn: u8) -> Sv {
    Sv::new(c, prn)
}

fn obs(v: i64) -> ObservationData {
    ObservationData::new(v, None, None)
}

fn obs_entry_one(code: &str, v: i64) -> ObsEntry {
    ObsEntry::new(
        None,
        vec![(sv(Constellation::GPS, 1), vec![(code.to_string(), obs(v))])],
    )
}

fn obs_rinex(dates: &[i64]) -> Rinex {
    let mut series: TimeSeries<ObsEntry> = TimeSeries::new();
    for (k, d) in dates.iter().enumerate() {
        series.upsert(ep(*d), obs_entry_one("C1C", 100 + k as i64));
    }
    let header = Header::default();
    Rinex::new(header, Record::ObsRecord(series))
}

fn epochs_of(r: &Rinex) -> Vec<i64> {
    r.epochs().iter().map(|e| e.date).collect()
}

fn assert_strictly_ascending(dates: &[i64]) {
    for w in dates.windows(2) {
        assert!(w[0] < w[1], "epochs out of order: {} then {}", w[0], w[1]);
    }
}

#[test]
fn upsert_keeps_order_whatever_the_insertion_order() {
    let mut series: TimeSeries<ObsEntry> = TimeSeries::new();
    for d in [50i64, 10, 30, 20, 40, 30] {
        series.upsert(ep(d), obs_entry_one("C1C", d));
    }
    let rec = Rinex::new(Header::default(), Record::ObsRecord(series));
    let dates = epochs_of(&rec);
    assert_eq!(dates, vec![10, 20, 30, 40, 50]);
    assert_strictly_ascending(&dates);
}

#[test]
fn merge_identity_on_empty_inputs() {
    // an empty incoming record leaves the target byte-for-byte alone:
    // same epochs, same header comments, no marker
    let mut a = obs_rinex(&[100, 200]);
    let empty = obs_rinex(&[]);
    let comments_before = a.header.comments.len();
    a.merge_mut(&empty).unwrap();
    assert_eq!(epochs_of(&a), vec![100, 200]);
    assert_eq!(a.header.comments.len(), comments_before);

    // an empty target takes the incoming record wholly, again with no marker
    let mut b = obs_rinex(&[]);
    let other = obs_rinex(&[300, 400]);
    b.merge_mut(&other).unwrap();
    assert_eq!(epochs_of(&b), vec![300, 400]);
    assert_eq!(b.header.comments.len(), 0);
}

#[test]
fn merge_unions_epochs_and_stamps_marker() {
    let mut a = obs_rinex(&[100, 200]);
    let b = obs_rinex(&[200, 300]);
    a.merge_mut(&b).unwrap();
    let dates = epochs_of(&a);
    assert_eq!(dates, vec![100, 200, 300]);
    assert_strictly_ascending(&dates);
    assert_eq!(a.header.comments.len(), 1);
    assert!(a.header.comments[0].contains("FILE MERGE"));
    // the stamped header marker makes the file report as merged
    assert!(a.is_merged());
}

#[test]
fn merge_last_writer_wins_on_collision() {
    let mut a = obs_rinex(&[100]);
    let mut series: TimeSeries<ObsEntry> = TimeSeries::new();
    series.upsert(ep(100), obs_entry_one("C1C", 777));
    let b = Rinex::new(Header::default(), Record::ObsRecord(series));
    a.merge_mut(&b).unwrap();
    let rec = a.record.as_obs().unwrap();
    assert_eq!(rec.len(), 1);
    let entry = rec.get(0);
    assert_eq!(entry.1.vehicles[0].1[0].1.obs, 777);
}

#[test]
fn merge_refuses_mismatched_kinds() {
    let mut a = obs_rinex(&[100]);
    let mut nav_header = Header::default();
    nav_header.rinex_type = Type::NavigationData;
    let b = Rinex::new(
        nav_header,
        Record::NavRecord(TimeSeries::new()),
    );
    assert!(a.merge_mut(&b).is_err());
    // the failed merge left everything alone
    assert_eq!(epochs_of(&a), vec![100]);
    assert_eq!(a.header.comments.len(), 0);
}

#[test]
fn split_partitions_epochs() {
    let r = obs_rinex(&[100, 200, 300, 400]);
    let (left, right) = r.split_at_epoch(ep(300)).unwrap();
    assert_eq!(epochs_of(&left), vec![100, 200]);
    assert_eq!(epochs_of(&right), vec![300, 400]);
    // boundary equal to an existing epoch lands in the right half;
    // together the halves hold every epoch exactly once
    let mut all = epochs_of(&left);
    all.extend(epochs_of(&right));
    assert_eq!(all, vec![100, 200, 300, 400]);
}

#[test]
fn split_rejects_out_of_range_boundaries() {
    let r = obs_rinex(&[100, 200]);
    assert_eq!(r.split_at_epoch(ep(50)).unwrap_err(), SplitError::EpochTooEarly);
    assert_eq!(r.split_at_epoch(ep(250)).unwrap_err(), SplitError::EpochTooLate);
    assert!(r.split_at_epoch(ep(100)).is_ok());
    assert!(r.split_at_epoch(ep(200)).is_ok());
}

#[test]
fn decimate_by_ratio_keeps_every_nth() {
    let r = obs_rinex(&[0, 10, 20, 30, 40, 50, 60]);
    let d = r.decimate_by_ratio(3);
    // ceil(7 / 3) = 3 entries, at ordinal positions 0, 3, 6
    assert_eq!(epochs_of(&d), vec![0, 30, 60]);
    let d1 = r.decimate_by_ratio(1);
    assert_eq!(epochs_of(&d1), vec![0, 10, 20, 30, 40, 50, 60]);
    let d10 = r.decimate_by_ratio(10);
    assert_eq!(epochs_of(&d10), vec![0]);
    assert_strictly_ascending(&epochs_of(&d));
}

#[test]
fn decimate_by_interval_is_greedy() {
    let r = obs_rinex(&[0, 5, 10, 30, 35, 70]);
    let d = r.decimate_by_interval(30);
    // first epoch always kept, then epochs at least 30 s after the last kept
    let dates = epochs_of(&d);
    assert_eq!(dates, vec![0, 30, 70]);
    for w in dates.windows(2) {
        assert!(w[1] - w[0] >= 30);
    }
    // in-place form agrees
    let mut m = obs_rinex(&[0, 5, 10, 30, 35, 70]);
    m.decimate_by_interval_mut(30);
    assert_eq!(epochs_of(&m), dates);
}

#[test]
fn merge_then_split_by_markers() {
    // two day-long records
    let day1 = secs(2023, 1, 1, 0, 0, 0);
    let day2 = secs(2023, 1, 2, 0, 0, 0);
    let mut a = obs_rinex(&[day1, day1 + 43200]);
    let b = obs_rinex(&[day2, day2 + 43200]);
    let before = chrono::Utc::now().timestamp();
    a.merge_mut(&b).unwrap();
    let after = chrono::Utc::now().timestamp();
    // the merged record spans both inputs
    assert_eq!(epochs_of(&a), vec![day1, day1 + 43200, day2, day2 + 43200]);
    // the marker carries the wall-clock time of the merge call
    let bounds = a.merge_boundaries();
    assert_eq!(bounds.len(), 1);
    assert!(bounds[0] >= before && bounds[0] <= after);
    // one boundary cuts one piece, from the first epoch up to the boundary:
    // with a wall-clock boundary after every epoch the piece holds them all
    let pieces = a.split_merged_records();
    assert_eq!(pieces.len(), 1);
    assert_eq!(pieces[0].epochs().len(), 4);
}

#[test]
fn split_merged_records_reproduces_inputs() {
    // a merged file whose markers sit between the data days cuts back into
    // exactly the two original inputs
    let day1 = secs(2023, 1, 1, 0, 0, 0);
    let day2 = secs(2023, 1, 2, 0, 0, 0);
    let day3 = secs(2023, 1, 3, 0, 0, 0);
    let mut merged = obs_rinex(&[day1, day1 + 43200, day2, day2 + 43200]);
    merged.header.comments.push(format!(
        "{:<20}{:<20}{}",
        "producer", "FILE MERGE", "20230102 000000 UTC"
    ));
    merged.header.comments.push(format!(
        "{:<20}{:<20}{}",
        "producer", "FILE MERGE", "20230103 000000 UTC"
    ));
    let bounds = merged.merge_boundaries();
    assert_eq!(bounds, vec![day2, day3]);
    let pieces = merged.split_merged_records();
    assert_eq!(pieces.len(), 2);
    let dates0: Vec<i64> = pieces[0].epochs().iter().map(|e| e.date).collect();
    let dates1: Vec<i64> = pieces[1].epochs().iter().map(|e| e.date).collect();
    assert_eq!(dates0, vec![day1, day1 + 43200]);
    assert_eq!(dates1, vec![day2, day2 + 43200]);
    // the file-level split carries the header into each piece
    let files = merged.split();
    assert_eq!(files.len(), 2);
    assert_eq!(files[0].header.rinex_type, merged.header.rinex_type);
}

#[test]
fn epoch_flag_filters() {
    let mut series: TimeSeries<ObsEntry> = TimeSeries::new();
    series.upsert(Epoch::new(10, EpochFlag::Nominal), obs_entry_one("C1C", 1));
    series.upsert(Epoch::new(20, EpochFlag::PowerFailure), obs_entry_one("C1C", 2));
    series.upsert(Epoch::new(30, EpochFlag::Nominal), obs_entry_one("C1C", 3));
    let r = Rinex::new(Header::default(), Record::ObsRecord(series));
    let ok = r.epoch_ok_filter();
    assert_eq!(epochs_of(&ok), vec![10, 30]);
    let nok = r.epoch_nok_filter();
    assert_eq!(epochs_of(&nok), vec![20]);
    let anomalies = r.epoch_anomalies(None);
    assert_eq!(anomalies.len(), 1);
    assert_eq!(anomalies[0].date, 20);
    let masked = r.epoch_anomalies(Some(EpochFlag::CycleSlip));
    assert_eq!(masked.len(), 0);
}

#[test]
fn average_duration_and_gaps() {
    let mut r = obs_rinex(&[0, 30, 60, 90]);
    // time span 90 s over 4 epochs
    assert_eq!(r.average_epoch_duration(), 22);
    // a record sampled at its nominal interval presents no gap
    r.header.sampling_interval = Some(30);
    assert_eq!(r.data_gap().len(), 0);
    // without an interval in the header, nothing is flagged
    let mut r1 = obs_rinex(&[0, 100]);
    r1.header.sampling_interval = None;
    assert_eq!(r1.data_gap().len(), 0);
    // epochs more than the interval after the last well-sampled one are gaps
    let mut r2 = obs_rinex(&[0, 30, 120, 150]);
    r2.header.sampling_interval = Some(30);
    let gaps: Vec<i64> = r2.data_gap().iter().map(|e| e.date).collect();
    assert_eq!(gaps, vec![120, 150]);
}

#[test]
fn event_description_looks_up_comments() {
    let mut r = obs_rinex(&[100]);
    let mut comments: TimeSeries<Vec<String>> = TimeSeries::new();
    comments.upsert(ep(100), vec!["antenna moved".to_string()]);
    r.comments = comments;
    assert_eq!(r.event_description(ep(100)), Some("antenna moved".to_string()));
    assert_eq!(r.event_description(ep(200)), None);
    assert!(!r.is_merged());
}

#[test]
fn decimate_antenna_record_by_position() {
    let mut rec = AntexRecord::new();
    for k in 0..5u8 {
        rec.push(format!("ANT-{}", k), CalData { frequencies: vec![("L1".to_string(), k as i64)] });
    }
    let d = rec.decimate_by_ratio(2);
    assert_eq!(d.len(), 3);
}

#[test]
fn collision_keeps_stored_epoch_flag() {
    // a timestamp collision replaces the value but keeps the stored epoch
    // key, including its flag
    let mut series: TimeSeries<ObsEntry> = TimeSeries::new();
    series.upsert(Epoch::new(100, EpochFlag::PowerFailure), obs_entry_one("C1C", 1));
    series.upsert(Epoch::new(100, EpochFlag::Nominal), obs_entry_one("C1C", 2));
    let r = Rinex::new(Header::default(), Record::ObsRecord(series));
    let rec = r.record.as_obs().unwrap();
    assert_eq!(rec.len(), 1);
    let e = rec.get(0);
    assert_eq!(e.0.flag, EpochFlag::PowerFailure);
    assert_eq!(e.1.vehicles[0].1[0].1.obs, 2);
}

#[test]
fn first_and_last_epochs() {
    let r = obs_rinex(&[10, 20, 30]);
    assert_eq!(r.first_epoch().unwrap().date, 10);
    assert_eq!(r.last_epoch().unwrap().date, 30);
    let empty = obs_rinex(&[]);
    assert!(empty.first_epoch().is_none());
    assert!(empty.last_epoch().is_none());
    assert!(r.is_observation_rinex());
    assert!(!r.is_navigation_rinex());
    assert!(!r.is_meteo_rinex());
    assert!(!r.is_clocks_rinex());
    assert!(!r.is_ionex());
    assert!(!r.is_antex_rinex());
}

#[test]
fn crx2rnx_stamps_compactness() {
    let mut r = obs_rinex(&[10]);
    assert!(!r.header.is_crinex());
    r.crx2rnx();
    assert!(r.header.is_crinex());
    assert_eq!(r.header.get_crinex_prog(), Some("rustcrx"));
    // the stamped date is the wall clock of the call
    let now = chrono::Utc::now().timestamp();
    let stamped = r.header.get_crinex_date().unwrap();
    assert!((stamped - now).abs() < 60);
}

#[test]
fn with_header_replaces_header_only() {
    let r = obs_rinex(&[10, 20]);
    let mut h = Header::default();
    h.station = "STATION".to_string();
    let swapped = r.with_header(h);
    assert_eq!(swapped.header.station, "STATION");
    assert_eq!(epochs_of(&swapped), vec![10, 20]);
}

#[test]
fn ratio_decimation_on_clock_records() {
    let mut series: TimeSeries<ClockEntry> = TimeSeries::new();
    for d in [0i64, 10, 20, 30] {
        series.upsert(
            ep(d),
            ClockEntry::new(vec![(
                ClockDataType::As,
                vec![("GPST".to_string(), vec![d])],
            )]),
        );
    }
    let mut h = Header::default();
    h.rinex_type = Type::ClockData;
    let r = Rinex::new(h, Record::ClockRecord(series));
    let d = r.decimate_by_ratio(2);
    let rec = d.record.as_clock().unwrap();
    assert_eq!(rec.len(), 2);
    assert_eq!(rec.get(0).0.date, 0);
    assert_eq!(rec.get(1).0.date, 20);
    // the clock-code filter keeps only listed data kinds
    let mut f = r;
    f.observable_filter_mut(&vec!["AR".to_string()]);
    let rec = f.record.as_clock().unwrap();
    assert_eq!(rec.get(0).1.types.len(), 0);
}
