use sp3::{
    parse_epoch, Constellation, Epoch, MergeError, ParsingError, TimeScale, SP3, SV,
};

fn header_lines(agency: &str) -> Vec<String> {
    vec![
        format!("#dP2019 10 27  0  0  0.00000000      97 ORBIT IGS14 FIT  {}", agency),
        "## 2077 259200.00000000   900.00000000 58783 0.0000000000000".to_string(),
        "%c M  cc GPS ccc cccc cccc cccc cccc ccccc ccccc ccccc ccccc".to_string(),
        "/* THIS FILE IS BUILT IN MEMORY FOR THE TEST SUITE".to_string(),
    ]
}

fn epoch_line(hour: u32, minute: u32) -> String {
    format!("*  2019 10 27 {:2} {:2}  0.00000000", hour, minute)
}

fn pos_line(sv: &str, x: &str, y: &str, z: &str, clk: &str, flags: &str) -> String {
    format!("P{}{:>14}{:>14}{:>14}{:>14}{}", sv, x, y, z, clk, flags)
}

fn vel_line(sv: &str, x: &str, y: &str, z: &str, clk: &str) -> String {
    format!("V{}{:>14}{:>14}{:>14}{:>14}", sv, x, y, z, clk)
}

fn gps(prn: u8) -> SV {
    SV { constellation: Constellation::Gps, prn }
}

fn epoch_at(hour: u32, minute: u32) -> Epoch {
    Epoch {
        year: 2019,
        month: 10,
        day: 27,
        hour,
        minute,
        second: 0,
        timescale: TimeScale::Gpst,
    }
}

/// A single-epoch five-satellite file where one satellite is flagged
/// as both predicted-orbit and in-maneuver.
#[test]
fn single_epoch_five_satellites_with_flags() {
    let mut lines = header_lines("IGS");
    lines.push(epoch_line(0, 0));
    for prn in 1..=4u8 {
        lines.push(pos_line(
            &format!("G{:02}", prn),
            "15325.171736",
            "5781.778008",
            "24645.429817",
            "999999.999999",
            "",
        ));
    }
    // the fifth satellite carries the maneuver and orbit-prediction flags
    let flags = format!("{:14}EP  MP", "");
    lines.push(pos_line("G05", "14656.871337", "-1218.141405", "30616.952220", "101.351843", &flags));
    lines.push("EOF".to_string());

    let sp3 = SP3::parse(&lines).unwrap();
    assert_eq!(sp3.total_epochs(), 1);
    assert_eq!(sp3.header.satellites.len(), 5);
    assert_eq!(sp3.data.len(), 5);
    for (k, e) in sp3.data.iter() {
        if k.sv == gps(5) {
            assert!(e.maneuver && e.orbit_prediction);
            assert!(e.clock_event && e.clock_prediction);
            assert_eq!(e.clock_us_e6, Some(101_351_843));
        } else {
            assert!(!e.maneuver && !e.orbit_prediction);
            assert_eq!(e.clock_us_e6, None);
        }
        assert_eq!(k.epoch, epoch_at(0, 0));
    }
    // the flagged satellite's decoded position, exactly
    let g5 = sp3
        .data
        .iter()
        .find(|(k, _)| k.sv == gps(5))
        .map(|(_, e)| e.position_km_e6)
        .unwrap();
    assert_eq!(g5, (14_656_871_337, -1_218_141_405, 30_616_952_220));
}

fn file_with_epochs(agency: &str, start_hour: u32, hours: u32) -> Vec<String> {
    let mut lines = header_lines(agency);
    for h in start_hour..start_hour + hours {
        lines.push(epoch_line(h % 24, h / 24));
        lines.push(pos_line(
            "G01",
            "15325.171736",
            "5781.778008",
            "24645.429817",
            "999999.999999",
            "",
        ));
    }
    lines.push("EOF".to_string());
    lines
}

/// Merging two same-agency files with disjoint epoch ranges unions the
/// keys: the distinct-epoch count is the sum, and the first epoch is
/// the earlier file's.
#[test]
fn merge_disjoint_epoch_ranges() {
    let a = SP3::parse(&file_with_epochs("ESA", 0, 96)).unwrap();
    let b = SP3::parse(&file_with_epochs("ESA", 96, 192)).unwrap();
    assert_eq!(a.total_epochs(), 96);
    assert_eq!(b.total_epochs(), 192);
    let merged = b.merge(&a).expect("same-agency files must merge");
    assert_eq!(merged.total_epochs(), 96 + 192);
    assert_eq!(merged.first_epoch(), a.first_epoch());
    assert_eq!(merged.first_epoch().unwrap(), epoch_at(0, 0));
}

/// Files of different producing agencies never merge.
#[test]
fn merge_rejects_differing_provenance() {
    let a = SP3::parse(&file_with_epochs("ESA", 0, 2)).unwrap();
    let b = SP3::parse(&file_with_epochs("EMR", 0, 2)).unwrap();
    assert!(matches!(a.merge(&b), Err(MergeError::IncompatibleProvenance)));
}

/// On a key present in both inputs, the left dataset's entry is kept.
#[test]
fn merge_overlap_prefers_self() {
    let mut la = header_lines("ESA");
    la.push(epoch_line(0, 0));
    la.push(pos_line("G01", "1.000000", "2.000000", "3.000000", "999999.999999", ""));
    la.push("EOF".to_string());
    let mut lb = header_lines("ESA");
    lb.push(epoch_line(0, 0));
    lb.push(pos_line("G01", "7.000000", "8.000000", "9.000000", "999999.999999", ""));
    lb.push("EOF".to_string());
    let a = SP3::parse(&la).unwrap();
    let b = SP3::parse(&lb).unwrap();
    let m = a.merge(&b).unwrap();
    assert_eq!(m.data.len(), 1);
    assert_eq!(m.data[0].1.position_km_e6, (1_000_000, 2_000_000, 3_000_000));
}

/// An all-zero position vector is the format's "no data" and never
/// creates an entry, though the satellite is still registered.
#[test]
fn zero_position_vector_discarded() {
    let mut lines = header_lines("IGS");
    lines.push(epoch_line(0, 0));
    lines.push(pos_line("G07", "0.000000", "0.000000", "0.000000", "999999.999999", ""));
    lines.push("EOF".to_string());
    let sp3 = SP3::parse(&lines).unwrap();
    assert_eq!(sp3.data.len(), 0);
    assert_eq!(sp3.header.satellites, vec![gps(7)]);
}

/// A position with one zero component is a legitimate fix and is kept.
#[test]
fn partly_zero_position_kept() {
    let mut lines = header_lines("IGS");
    lines.push(epoch_line(0, 0));
    lines.push(pos_line("G07", "0.000000", "5.000000", "0.000000", "999999.999999", ""));
    lines.push("EOF".to_string());
    let sp3 = SP3::parse(&lines).unwrap();
    assert_eq!(sp3.data.len(), 1);
    assert_eq!(sp3.data[0].1.position_km_e6, (0, 5_000_000, 0));
}

/// Sentinel-adjacent but non-zero velocity components are kept: the
/// discard rule is an exact-equality test, not a threshold.
#[test]
fn sentinel_adjacent_velocity_not_discarded() {
    let mut lines = header_lines("IGS");
    lines.push(epoch_line(0, 0));
    lines.push(vel_line(
        "G01",
        "999999.999999",
        "999999.999999",
        "999999.999999",
        "999999.999999",
    ));
    lines.push("EOF".to_string());
    let sp3 = SP3::parse(&lines).unwrap();
    assert_eq!(sp3.data.len(), 1);
    let e = &sp3.data[0].1;
    assert_eq!(
        e.velocity_km_s_e10,
        Some((999_999_999_999, 999_999_999_999, 999_999_999_999))
    );
    // velocity arrived before any position: the tolerated anomaly
    assert_eq!(e.position_km_e6, (0, 0, 0));
    // the clock column's sentinel means "no drift"
    assert_eq!(e.clock_drift_ns_e10, None);
}

/// A position line truncated below the sixty-column minimum is skipped
/// without aborting the parse, and registers nothing.
#[test]
fn truncated_position_line_skipped() {
    let mut lines = header_lines("IGS");
    lines.push(epoch_line(0, 0));
    let full = pos_line("G09", "15325.171736", "5781.778008", "24645.429817", "1.000000", "");
    lines.push(full[..40].to_string());
    lines.push("EOF".to_string());
    let sp3 = SP3::parse(&lines).unwrap();
    assert_eq!(sp3.data.len(), 0);
    assert!(sp3.header.satellites.is_empty());
}

/// A record line before any epoch marker is undefined input.
#[test]
fn record_before_epoch_marker_rejected() {
    let mut lines = header_lines("IGS");
    lines.push(pos_line("G01", "1.000000", "2.000000", "3.000000", "999999.999999", ""));
    lines.push("EOF".to_string());
    assert!(matches!(SP3::parse(&lines), Err(ParsingError::MissingEpoch)));
}

/// A wide-enough record with a corrupt field aborts the parse.
#[test]
fn corrupt_wide_record_aborts() {
    let mut lines = header_lines("IGS");
    lines.push(epoch_line(0, 0));
    lines.push(pos_line("G01", "1.0x0000", "2.000000", "3.000000", "999999.999999", ""));
    lines.push("EOF".to_string());
    assert!(matches!(SP3::parse(&lines), Err(ParsingError::Coordinates(_))));
    let mut lines = header_lines("IGS");
    lines.push(epoch_line(0, 0));
    lines.push(pos_line("Z99", "1.000000", "2.000000", "3.000000", "999999.999999", ""));
    lines.push("EOF".to_string());
    assert!(matches!(SP3::parse(&lines), Err(ParsingError::SV(_))));
    let mut lines = header_lines("IGS");
    lines.push(epoch_line(0, 0));
    lines.push(pos_line("G01", "1.000000", "2.000000", "3.000000", "1.0x0000", ""));
    lines.push("EOF".to_string());
    assert!(matches!(SP3::parse(&lines), Err(ParsingError::Clock(_))));
}

/// Lines after the terminator are ignored, corrupt or not.
#[test]
fn lines_after_terminator_ignored() {
    let mut lines = header_lines("IGS");
    lines.push(epoch_line(0, 0));
    lines.push("EOF".to_string());
    lines.push(pos_line("G01", "1.0x0000", "2.000000", "3.000000", "999999.999999", ""));
    assert!(SP3::parse(&lines).is_ok());
}

/// Missing header lines each have their own kind.
#[test]
fn missing_header_lines() {
    assert!(matches!(SP3::parse(&vec![]), Err(ParsingError::MissingH1)));
    let one = vec!["#dP2019 10 27  0  0  0.00000000      97 ORBIT IGS14 FIT  IGS".to_string()];
    assert!(matches!(SP3::parse(&one), Err(ParsingError::MissingH2)));
}

/// A corrupt epoch marker names the corrupted column.
#[test]
fn epoch_marker_errors() {
    assert!(matches!(parse_epoch("2019", TimeScale::Gpst), Err(ParsingError::Epoch)));
    assert!(matches!(
        parse_epoch("2x19 10 27  0  0  0.00000000", TimeScale::Gpst),
        Err(ParsingError::EpochYear(_))
    ));
    assert!(matches!(
        parse_epoch("2019 1x 27  0  0  0.00000000", TimeScale::Gpst),
        Err(ParsingError::EpochMonth(_))
    ));
    assert!(matches!(
        parse_epoch("2019 10 2x  0  0  0.00000000", TimeScale::Gpst),
        Err(ParsingError::EpochDay(_))
    ));
    assert!(matches!(
        parse_epoch("2019 10 27  x  0  0.00000000", TimeScale::Gpst),
        Err(ParsingError::EpochHours(_))
    ));
    assert!(matches!(
        parse_epoch("2019 10 27  0  x  0.00000000", TimeScale::Gpst),
        Err(ParsingError::EpochMinutes(_))
    ));
    assert!(matches!(
        parse_epoch("2019 10 27  0  0  x.00000000", TimeScale::Gpst),
        Err(ParsingError::EpochSeconds(_))
    ));
    assert!(matches!(
        parse_epoch("2019 10 27  0  0  0.0000x000", TimeScale::Gpst),
        Err(ParsingError::EpochMilliSeconds(_))
    ));
    let e = parse_epoch("2019 10 27  6 15 30.00000000", TimeScale::Gpst).unwrap();
    assert_eq!(
        e,
        Epoch {
            year: 2019,
            month: 10,
            day: 27,
            hour: 6,
            minute: 15,
            second: 30,
            timescale: TimeScale::Gpst
        }
    );
}

/// A velocity record overwrites only velocity and drift on an existing
/// entry; a later position record overwrites only position and its
/// flags.
#[test]
fn coalescing_overwrites_fields_in_place() {
    let mut lines = header_lines("IGS");
    lines.push(epoch_line(0, 0));
    lines.push(pos_line("G01", "1.000000", "2.000000", "3.000000", "5.500000", ""));
    lines.push(vel_line("G01", "4.000000", "5.000000", "6.000000", "7.000000"));
    lines.push(pos_line("G01", "9.000000", "9.500000", "9.750000", "999999.999999", ""));
    lines.push("EOF".to_string());
    let sp3 = SP3::parse(&lines).unwrap();
    assert_eq!(sp3.data.len(), 1);
    let e = &sp3.data[0].1;
    // the second position superseded the first
    assert_eq!(e.position_km_e6, (9_000_000, 9_500_000, 9_750_000));
    // the clock offset of the first record survived the overwrite
    assert_eq!(e.clock_us_e6, Some(5_500_000));
    assert_eq!(e.velocity_km_s_e10, Some((4_000_000, 5_000_000, 6_000_000)));
    assert_eq!(e.clock_drift_ns_e10, Some(7_000_000));
}

/// The orbital-state view walks the body in stored order, zero-filling
/// absent velocities.
#[test]
fn orbital_state_view() {
    let mut lines = header_lines("IGS");
    lines.push(epoch_line(0, 0));
    let flags = format!("{:14}    M ", "");
    lines.push(pos_line("G02", "1.000000", "2.000000", "3.000000", "999999.999999", &flags));
    lines.push(pos_line("G01", "4.000000", "5.000000", "6.000000", "999999.999999", ""));
    lines.push("EOF".to_string());
    let sp3 = SP3::parse(&lines).unwrap();
    let states = sp3.satellites_orbit_iter();
    assert_eq!(states.len(), 2);
    // stored order is by satellite within the epoch
    assert_eq!(states[0].satellite, gps(1));
    assert_eq!(states[1].satellite, gps(2));
    assert_eq!(states[0].velocity_km_s_e10, (0, 0, 0));
    assert!(states[1].maneuver);
    assert!(!states[0].maneuver);
}

/// Stored order is by key: epochs never decrease when the mapping is
/// iterated, whatever order the file supplied them in.
#[test]
fn iteration_order_is_by_epoch() {
    let mut lines = header_lines("IGS");
    // the later epoch block comes first in the file
    lines.push(epoch_line(1, 0));
    lines.push(pos_line("G02", "2.000000", "2.000000", "2.000000", "999999.999999", ""));
    lines.push(epoch_line(0, 0));
    lines.push(pos_line("G01", "1.000000", "1.000000", "1.000000", "999999.999999", ""));
    lines.push("EOF".to_string());
    let sp3 = SP3::parse(&lines).unwrap();
    assert_eq!(sp3.data.len(), 2);
    for w in sp3.data.windows(2) {
        let a = &w[0].0.epoch;
        let b = &w[1].0.epoch;
        assert!((a.hour, a.minute, a.second) <= (b.hour, b.minute, b.second));
    }
    assert_eq!(sp3.first_epoch().unwrap(), epoch_at(0, 0));
    assert_eq!(sp3.last_epoch().unwrap(), epoch_at(1, 0));
}
