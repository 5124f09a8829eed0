use sp3::num::{parse_fixed, parse_uint};
use sp3::{
    end_of_file, is_file_descriptor, is_header_line1, is_header_line2, new_epoch, position_entry,
    velocity_entry, Constellation, FileDescriptor, FileDescriptorH1, ParsingError, TimeScale, SP3,
    SV,
};

fn rec(kind: char, sv: &str, x: &str, y: &str, z: &str, clk: &str) -> String {
    format!("{}{}{:>14}{:>14}{:>14}{:>14}", kind, sv, x, y, z, clk)
}

fn sample_lines() -> Vec<String> {
    vec![
        "#dP2019 10 27  0  0  0.00000000      97 ORBIT IGS14 FIT  IGS".to_string(),
        "## 2077 259200.00000000   900.00000000 58783 0.0000000000000".to_string(),
        "%c M  cc GPS ccc cccc cccc cccc cccc ccccc ccccc ccccc ccccc".to_string(),
        "/* PCV:IGS14_2074 OL/AL:FES2004  NONE     YN CLK:CoN ORB:CoN".to_string(),
        "*  2019 10 27  0  0  0.00000000".to_string(),
        rec('P', "G01", "15325.171736", "5781.778008", "24645.429817", "101.351843"),
        rec('V', "G01", "-2060.981930", "-1234.567890", "2550.561130", "999999.999999"),
        rec('P', "G02", "12408.397863", "15847.787366", "16227.000000", "999999.999999"),
        "*  2019 10 27  0 15  0.00000000".to_string(),
        rec('P', "G01", "15400.000000", "5800.000000", "24600.000000", "999999.999999"),
        "EOF".to_string(),
    ]
}

/// Parsing and re-serializing a canonical file reproduces it line for
/// line, the whole-dataset round trip.
#[test]
fn dataset_round_trip() {
    let lines = sample_lines();
    let sp3 = SP3::parse(&lines).unwrap();
    let out = sp3.to_lines();
    assert_eq!(out, lines);
    // and the re-serialized text parses back to the same dataset
    let again = SP3::parse(&out).unwrap();
    assert_eq!(again.data, sp3.data);
    assert_eq!(again.header.agency, sp3.header.agency);
    assert_eq!(again.header.comments, sp3.header.comments);
    assert_eq!(again.header.satellites, sp3.header.satellites);
}

#[test]
fn header_fields_from_sample() {
    let sp3 = SP3::parse(&sample_lines()).unwrap();
    assert_eq!(sp3.header.week_counter.0, 2077);
    assert_eq!(sp3.header.week_counter.1.integer, 259200);
    assert_eq!(sp3.header.epoch_interval.integer, 900);
    assert_eq!(sp3.header.mjd.0, 58783);
    assert_eq!(sp3.header.coord_system, "IGS14");
    assert_eq!(sp3.header.agency, "IGS");
    assert_eq!(sp3.header.constellation, Constellation::Mixed);
    assert_eq!(sp3.header.timescale, TimeScale::Gpst);
    assert_eq!(
        sp3.header.comments,
        vec!["PCV:IGS14_2074 OL/AL:FES2004  NONE     YN CLK:CoN ORB:CoN".to_string()]
    );
    assert_eq!(sp3.total_epochs(), 2);
    assert_eq!(
        sp3.header.satellites,
        vec![
            SV { constellation: Constellation::Gps, prn: 1 },
            SV { constellation: Constellation::Gps, prn: 2 },
        ]
    );
    // the unified G01 entry of the first epoch
    let e = &sp3.data[0].1;
    assert_eq!(e.position_km_e6, (15_325_171_736, 5_781_778_008, 24_645_429_817));
    assert_eq!(e.velocity_km_s_e10, Some((-20_609_819_30, -12_345_678_90, 25_505_611_30)));
    assert_eq!(e.clock_us_e6, Some(101_351_843));
}

#[test]
fn line_class_predicates() {
    assert!(is_header_line1("#dP2019"));
    assert!(!is_header_line1("xx"));
    assert!(is_header_line2("## 2077"));
    assert!(!is_header_line2("#dP"));
    assert!(is_file_descriptor("%c M  cc GPS"));
    assert!(!is_file_descriptor("%f"));
    assert!(position_entry("PG01"));
    assert!(!position_entry("VG01"));
    assert!(velocity_entry("VG01"));
    assert!(!velocity_entry(""));
    assert!(new_epoch("*  2019"));
    assert!(!new_epoch("* 2019"));
    assert!(end_of_file("EOF"));
    assert!(!end_of_file("EOF "));
}

#[test]
fn descriptor_lead_line() {
    let line = "%c M  cc GPS ccc cccc cccc cccc cccc ccccc ccccc ccccc ccccc";
    let h1 = FileDescriptorH1::parse(line).unwrap();
    assert_eq!(h1.constellation, Constellation::Mixed);
    assert_eq!(h1.timescale, TimeScale::Gpst);
    // a continuation line is benign, never an error
    let cont = "%c cc cc ccc ccc cccc cccc cccc cccc ccccc ccccc ccccc ccccc";
    assert_eq!(FileDescriptor::parse(cont).unwrap(), FileDescriptor::Continuation);
    assert!(matches!(
        FileDescriptorH1::parse("%c M"),
        Err(ParsingError::InvalidFileDescriptorH1)
    ));
}

#[test]
fn satellite_identifiers() {
    let sv = SV::from_str("G01").unwrap();
    assert_eq!(sv, SV { constellation: Constellation::Gps, prn: 1 });
    assert_eq!(SV::from_str("R24").unwrap().constellation, Constellation::Glonass);
    assert_eq!(SV::from_str("E36").unwrap().prn, 36);
    // the oldest revision writes bare numbers, read as GPS
    assert_eq!(SV::from_str(" 7 ").unwrap(), SV { constellation: Constellation::Gps, prn: 7 });
    assert!(matches!(SV::from_str("Z01"), Err(ParsingError::SV(_))));
    assert!(matches!(SV::from_str("G1x"), Err(ParsingError::SV(_))));
}

#[test]
fn numeric_field_readers() {
    assert_eq!(parse_uint("  42 ", 99), Some(42));
    assert_eq!(parse_uint("100", 99), None);
    assert_eq!(parse_uint("", 99), None);
    assert_eq!(parse_uint("4x", 99), None);
    assert_eq!(parse_fixed(" -12.345678 ", 6, 1_000_000_000), Some(-12_345_678));
    assert_eq!(parse_fixed("+3.5", 6, 1_000_000_000), Some(3_500_000));
    assert_eq!(parse_fixed("7", 6, 1_000_000_000), Some(7_000_000));
    assert_eq!(parse_fixed("7.", 6, 1_000_000_000), Some(7_000_000));
    // fraction digits beyond the scale are ignored
    assert_eq!(parse_fixed("0.1234567899", 6, 1_000_000_000), Some(123_456));
    assert_eq!(parse_fixed(".5", 6, 1_000_000_000), None);
    assert_eq!(parse_fixed("1.2.3", 6, 1_000_000_000), None);
    assert_eq!(parse_fixed("2.0", 6, 1_000_000), None);
    assert_eq!(parse_fixed("1e5", 6, 1_000_000_000), None);
}

#[test]
fn velocity_entry_parts() {
    let sv = SV { constellation: Constellation::Galileo, prn: 12 };
    let e = sp3::VelocityEntry {
        sv,
        velocity_dm_s_e6: (1_000_000, -2_000_000, 3_500_000),
        clock_sub_ns_e6: Some(42),
    };
    assert_eq!(e.to_parts(), (sv, (1_000_000, -2_000_000, 3_500_000), Some(42)));
}
