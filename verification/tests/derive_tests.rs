use rinex::combination::{iono_free_combination, pr_to_distance, SPEED_OF_LIGHT_NM_PER_NS};
use rinex::constellation::{Constellation, Sv};
use rinex::epoch::{Epoch, EpochFlag};
use rinex::header::Header;
use rinex::navigation::{EphFrame, Frame, FrameClass, IonMessage, KbModel, MsgType, NavEntry};
use rinex::observation::{ObsEntry, ObservationData, Ssi, LLI_LOCK_LOSS};
use rinex::record::Record;
use rinex::series::TimeSeries;
use rinex::types::Type;
use rinex::Rinex;

fn ep(date: i64) -> Epoch {
    Epoch::new(date, EpochFlag::Nominal)
}

fn gps(prn: u8) -> Sv {
    Sv::new(Constellation::GPS, prn)
}

fn eph(svid: Sv, offset: i64) -> Frame {
    Frame::Eph(EphFrame {
        msg_type: MsgType::LNAV,
        sv: svid,
        clock_offset: offset,
        clock_drift: 2 * offset,
        clock_drift_rate: 3 * offset,
        data: Vec::new(),
    })
}

fn nav_rinex(entries: Vec<(i64, Vec<Frame>)>) -> Rinex {
    let mut series: TimeSeries<NavEntry> = TimeSeries::new();
    for (date, frames) in entries {
        series.upsert(ep(date), NavEntry::new(vec![(FrameClass::Ephemeris, frames)]));
    }
    let mut header = Header::default();
    header.rinex_type = Type::NavigationData;
    Rinex::new(header, Record::NavRecord(series))
}

#[test]
fn iono_free_degenerates_to_equal_value() {
    // GPS L1 and L2 nominal carriers
    let f0 = 1_575_420_000u64;
    let f1 = 1_227_600_000u64;
    for v in [0i64, 1, -1, 22_000_000_000, -987_654_321] {
        assert_eq!(iono_free_combination(f0, f1, v, v), Some(v));
    }
    // and the same for any other pair of distinct frequencies in range
    assert_eq!(
        iono_free_combination(1_176_450_000, 1_191_795_000, 424_242, 424_242),
        Some(424_242)
    );
}

#[test]
fn iono_free_known_combination() {
    let f0 = 2_000_000_000u64;
    let f1 = 1_000_000_000u64;
    // (4 f^2 v0 - f^2 v1) / (3 f^2) with v0 = 9, v1 = 3 gives (36 - 3) / 3 = 11
    assert_eq!(iono_free_combination(f0, f1, 9, 3), Some(11));
    // order of the two carriers flips the weights
    assert_eq!(iono_free_combination(f1, f0, 3, 9), Some(11));
}

#[test]
fn iono_free_through_observation_record() {
    // one vehicle with the same raw value on two distinct carriers: the
    // record-level combination returns exactly that value
    let v = 21_000_000_000_000_000i64;
    let entry = ObsEntry::new(
        None,
        vec![(
            gps(7),
            vec![
                ("C1C".to_string(), ObservationData::new(v, None, None)),
                ("C2W".to_string(), ObservationData::new(v, None, None)),
                ("L1C".to_string(), ObservationData::new(5, None, None)),
            ],
        )],
    );
    let mut series: TimeSeries<ObsEntry> = TimeSeries::new();
    series.upsert(ep(100), entry);
    let r = Rinex::new(Header::default(), Record::ObsRecord(series));
    let table = r.iono_free_pseudo_ranges();
    assert_eq!(table.len(), 1);
    assert_eq!(table[0].0.date, 100);
    assert_eq!(table[0].1.len(), 1);
    assert_eq!(table[0].1[0].0, gps(7));
    assert_eq!(table[0].1[0].1, v);
    // a single carrier yields nothing
    let single = ObsEntry::new(
        None,
        vec![(gps(7), vec![("C1C".to_string(), ObservationData::new(v, None, None))])],
    );
    let mut series1: TimeSeries<ObsEntry> = TimeSeries::new();
    series1.upsert(ep(100), single);
    let r1 = Rinex::new(Header::default(), Record::ObsRecord(series1));
    assert_eq!(r1.iono_free_pseudo_ranges().len(), 0);
    // an unknown band yields nothing either
    let odd = ObsEntry::new(
        None,
        vec![(
            gps(7),
            vec![
                ("C9X".to_string(), ObservationData::new(v, None, None)),
                ("C2W".to_string(), ObservationData::new(v, None, None)),
            ],
        )],
    );
    let mut series2: TimeSeries<ObsEntry> = TimeSeries::new();
    series2.upsert(ep(100), odd);
    let r2 = Rinex::new(Header::default(), Record::ObsRecord(series2));
    assert_eq!(r2.iono_free_pseudo_ranges().len(), 0);
}

#[test]
fn lli_and_ssi_drop_unattached_entries() {
    // three measurements: no indicators, only matching LLI, only strong SSI
    let entry = ObsEntry::new(
        None,
        vec![(
            gps(1),
            vec![
                ("C1C".to_string(), ObservationData::new(10, None, None)),
                ("C2C".to_string(), ObservationData::new(20, Some(LLI_LOCK_LOSS), None)),
                ("C5Q".to_string(), ObservationData::new(30, None, Some(Ssi::DbHz54))),
            ],
        )],
    );
    let mut series: TimeSeries<ObsEntry> = TimeSeries::new();
    series.upsert(ep(100), entry);
    let r = Rinex::new(Header::default(), Record::ObsRecord(series));

    // the loss-of-lock filter keeps only the measurement with matching bits
    let masked = r.lli_filter(LLI_LOCK_LOSS);
    let rec = masked.record.as_obs().unwrap();
    let e = rec.get(0);
    assert_eq!(e.1.vehicles[0].1.len(), 1);
    assert_eq!(e.1.vehicles[0].1[0].0, "C2C");

    // the strength filter keeps only the measurement with a strong indicator
    let mut strong = Rinex::new(Header::default(), Record::ObsRecord(masked_rebuild(&r)));
    strong.minimum_sig_strength_filter_mut(Ssi::DbHz30_35);
    let rec = strong.record.as_obs().unwrap();
    let e = rec.get(0);
    assert_eq!(e.1.vehicles[0].1.len(), 1);
    assert_eq!(e.1.vehicles[0].1[0].0, "C5Q");
}

fn masked_rebuild(r: &Rinex) -> TimeSeries<ObsEntry> {
    // rebuild the same one-epoch series as in the test above
    let src = r.record.as_obs().unwrap();
    let mut series: TimeSeries<ObsEntry> = TimeSeries::new();
    let e = src.get(0);
    let mut vehicles = Vec::new();
    for (svid, m) in e.1.vehicles.iter() {
        vehicles.push((*svid, m.clone()));
    }
    series.upsert(e.0, ObsEntry::new(e.1.clock_offset, vehicles));
    series
}

#[test]
fn sv_filter_then_clock_offsets() {
    // two ephemerides for GPS-07 at t1 < t2 and one for GPS-08 at t1
    let t1 = 1000i64;
    let t2 = 2000i64;
    let mut r = nav_rinex(vec![
        (t1, vec![eph(gps(7), 70), eph(gps(8), 80)]),
        (t2, vec![eph(gps(7), 71)]),
    ]);
    r.space_vehicule_filter_mut(vec![gps(7)]);
    let offsets = r.space_vehicule_clocks_offset();
    assert_eq!(offsets.len(), 2);
    assert_eq!(offsets[0].0.date, t1);
    assert_eq!(offsets[0].1, vec![(gps(7), 70)]);
    assert_eq!(offsets[1].0.date, t2);
    assert_eq!(offsets[1].1, vec![(gps(7), 71)]);
    // drift extraction carries the full clock state
    let drifts = r.space_vehicule_clocks_drift();
    assert_eq!(drifts.len(), 2);
    assert_eq!(drifts[0].1, vec![(gps(7), (70, 140, 210))]);
}

#[test]
fn constellation_filter_on_navigation() {
    let glo = Sv::new(Constellation::Glonass, 3);
    let mut r = nav_rinex(vec![(1000, vec![eph(gps(7), 70), eph(glo, 30)])]);
    r.constellation_filter_mut(vec![Constellation::Glonass]);
    let offsets = r.space_vehicule_clocks_offset();
    assert_eq!(offsets.len(), 1);
    assert_eq!(offsets[0].1, vec![(glo, 30)]);
}

#[test]
fn legacy_and_modern_partition_frames() {
    let mut modern_frame = eph(gps(5), 50);
    if let Frame::Eph(e) = &mut modern_frame {
        e.msg_type = MsgType::CNVX;
    }
    let r = nav_rinex(vec![(1000, vec![eph(gps(7), 70), modern_frame])]);
    let mut legacy_only = Rinex::new(
        {
            let mut h = Header::default();
            h.rinex_type = Type::NavigationData;
            h
        },
        rebuild_nav(&r),
    );
    legacy_only.modern_nav_filter_mut();
    let offsets = legacy_only.space_vehicule_clocks_offset();
    assert_eq!(offsets[0].1, vec![(gps(7), 70)]);

    let mut modern_only = Rinex::new(
        {
            let mut h = Header::default();
            h.rinex_type = Type::NavigationData;
            h
        },
        rebuild_nav(&r),
    );
    modern_only.legacy_nav_filter_mut();
    let offsets = modern_only.space_vehicule_clocks_offset();
    assert_eq!(offsets[0].1, vec![(gps(5), 50)]);
}

fn rebuild_nav(r: &Rinex) -> Record {
    let src = r.record.as_nav().unwrap();
    let mut series: TimeSeries<NavEntry> = TimeSeries::new();
    for k in 0..src.len() {
        let e = src.get(k);
        let mut classes = Vec::new();
        for (class, frames) in e.1.classes.iter() {
            let mut fs = Vec::new();
            for f in frames.iter() {
                fs.push(clone_frame(f));
            }
            classes.push((*class, fs));
        }
        series.upsert(e.0, NavEntry::new(classes));
    }
    Record::NavRecord(series)
}

fn clone_frame(f: &Frame) -> Frame {
    match f {
        Frame::Eph(e) => Frame::Eph(EphFrame {
            msg_type: e.msg_type,
            sv: e.sv,
            clock_offset: e.clock_offset,
            clock_drift: e.clock_drift,
            clock_drift_rate: e.clock_drift_rate,
            data: e.data.clone(),
        }),
        Frame::Sto(s) => Frame::Sto(rinex::navigation::StoMessage {
            system: s.system.clone(),
            a: s.a,
        }),
        Frame::Ion(m) => Frame::Ion(*m),
        Frame::Eop(m) => Frame::Eop(*m),
    }
}

#[test]
fn klobuchar_models_are_collected() {
    let kb = KbModel { alpha: (1, 2, 3, 4), beta: (5, 6, 7, 8) };
    let mut series: TimeSeries<NavEntry> = TimeSeries::new();
    series.upsert(
        ep(1000),
        NavEntry::new(vec![(FrameClass::IonosphericModel, vec![Frame::Ion(
            IonMessage::Klobuchar(kb),
        )])]),
    );
    let mut header = Header::default();
    header.rinex_type = Type::NavigationData;
    let r = Rinex::new(header, Record::NavRecord(series));
    let kbs = r.klobuchar_ionospheric_models();
    assert_eq!(kbs.len(), 1);
    assert_eq!(kbs[0].1, vec![kb]);
    assert_eq!(r.nequick_g_ionospheric_models().len(), 0);
    assert_eq!(r.bdgim_ionospheric_models().len(), 0);
    assert_eq!(r.ionospheric_models().len(), 1);
    assert_eq!(r.system_time_offsets().len(), 0);
}

#[test]
fn distance_conversion_applies_clock_correction() {
    // distance = raw - c (local - distant), in nanometers and nanoseconds
    assert_eq!(pr_to_distance(1_000_000, 3, 1, 0), Some(1_000_000 - 2 * SPEED_OF_LIGHT_NM_PER_NS));
    assert_eq!(pr_to_distance(1_000_000, 1, 1, 5), Some(1_000_005));

    // through an observation record, keyed by epoch and vehicle
    let raw = 20_000_000_000_000_000i64;
    let entry = ObsEntry::new(
        Some(3),
        vec![
            (gps(7), vec![("C1C".to_string(), ObservationData::new(raw, None, None))]),
            (gps(9), vec![("C1C".to_string(), ObservationData::new(raw, None, None))]),
        ],
    );
    let mut series: TimeSeries<ObsEntry> = TimeSeries::new();
    series.upsert(ep(100), entry);
    // a second epoch without a local clock offset contributes nothing
    series.upsert(
        ep(200),
        ObsEntry::new(None, vec![(gps(7), vec![("C1C".to_string(), ObservationData::new(raw, None, None))])]),
    );
    let r = Rinex::new(Header::default(), Record::ObsRecord(series));
    let offsets = vec![(ep(100), vec![(gps(7), 1i64)]), (ep(200), vec![(gps(7), 1i64)])];
    let distances = r.pseudo_range_to_distance(&offsets);
    assert_eq!(distances.len(), 1);
    assert_eq!(distances[0].0.date, 100);
    // only the vehicle named in the distant table contributes
    assert_eq!(distances[0].1.len(), 1);
    assert_eq!(distances[0].1[0].0, gps(7));
    assert_eq!(
        distances[0].1[0].1,
        vec![("C1C".to_string(), raw - 2 * SPEED_OF_LIGHT_NM_PER_NS)]
    );
}

#[test]
fn pseudo_ranges_and_phases_split_by_class() {
    let entry = ObsEntry::new(
        None,
        vec![(
            gps(1),
            vec![
                ("C1C".to_string(), ObservationData::new(11, None, None)),
                ("L1C".to_string(), ObservationData::new(22, None, None)),
                ("D1C".to_string(), ObservationData::new(33, None, None)),
                ("S1C".to_string(), ObservationData::new(44, None, None)),
                ("P2P".to_string(), ObservationData::new(55, None, None)),
            ],
        )],
    );
    let mut series: TimeSeries<ObsEntry> = TimeSeries::new();
    series.upsert(ep(100), entry);
    let r = Rinex::new(Header::default(), Record::ObsRecord(series));
    let pr = r.pseudo_ranges();
    assert_eq!(pr.len(), 1);
    assert_eq!(
        pr[0].1[0].1,
        vec![("C1C".to_string(), 11i64), ("P2P".to_string(), 55i64)]
    );
    let cp = r.carrier_phases();
    assert_eq!(cp[0].1[0].1, vec![("L1C".to_string(), 22i64)]);
    // observable filter narrows the stored codes themselves
    let mut filtered = Rinex::new(Header::default(), Record::ObsRecord(masked_rebuild2(&r)));
    filtered.observable_filter_mut(&vec!["L1C".to_string()]);
    let rec = filtered.record.as_obs().unwrap();
    assert_eq!(rec.get(0).1.vehicles[0].1.len(), 1);
}

fn masked_rebuild2(r: &Rinex) -> TimeSeries<ObsEntry> {
    let src = r.record.as_obs().unwrap();
    let mut series: TimeSeries<ObsEntry> = TimeSeries::new();
    let e = src.get(0);
    let mut vehicles = Vec::new();
    for (svid, m) in e.1.vehicles.iter() {
        vehicles.push((*svid, m.clone()));
    }
    series.upsert(e.0, ObsEntry::new(e.1.clock_offset, vehicles));
    series
}

#[test]
fn observables_prefer_header_tables() {
    // an observation header table is labeled by constellation
    let mut h = Header::default();
    h.obs_codes = Some(vec![(
        Constellation::GPS,
        vec!["C1C".to_string(), "L1C".to_string()],
    )]);
    let r = Rinex::new(h, Record::ObsRecord(TimeSeries::new()));
    assert_eq!(
        r.observables(),
        vec!["GPS:C1C".to_string(), "GPS:L1C".to_string()]
    );
    // a navigation record without header tables lists its own codes
    let nav = nav_rinex(vec![(1000, vec![eph(gps(7), 70)])]);
    assert_eq!(nav.observables(), vec!["LNAV".to_string()]);
}

#[test]
fn ephemeris_carries_the_auxiliary_fields() {
    let mut frame = eph(gps(7), 70);
    if let Frame::Eph(e) = &mut frame {
        e.data = vec![("iode".to_string(), 17), ("crs".to_string(), -5)];
    }
    let r = nav_rinex(vec![(1000, vec![frame])]);
    let table = r.ephemeris();
    assert_eq!(table.len(), 1);
    assert_eq!(table[0].0.date, 1000);
    let (svid, (offset, drift, drift_rate, data)) = &table[0].1[0];
    assert_eq!(*svid, gps(7));
    assert_eq!((*offset, *drift, *drift_rate), (70, 140, 210));
    assert_eq!(data, &vec![("iode".to_string(), 17i64), ("crs".to_string(), -5i64)]);
    // non-navigation records yield nothing
    let obs = Rinex::new(Header::default(), Record::ObsRecord(TimeSeries::new()));
    assert_eq!(obs.ephemeris().len(), 0);
}
