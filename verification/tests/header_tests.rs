use sp3::{Line1, Line2, OrbitType, ParsingError, Version};

#[test]
fn test_line1() {
    let bad = "#dP2020  6 24  0  0  0.00000000      97 __u+U IGS14 FIT  ";
    assert!(Line1::parse(bad).is_err());

    for (line, version, coord_system, orbit_type) in [(
        "#dP2020  6 24  0  0  0.00000000      97 __u+U IGS14 FIT  IAC",
        Version::D,
        "IGS14",
        OrbitType::Fit,
    )] {
        let line1 = Line1::parse(line).unwrap();
        assert_eq!(line1.version, version);
        assert_eq!(line1.coord_system, coord_system);
        assert_eq!(line1.orbit_type, orbit_type);

        // reciprocal
        let formatted = line1.format();
        assert_eq!(formatted.as_str(), line);
    }
}

#[test]
fn test_line2_parsing() {
    let bad = "##  887      0.00000000   900.00000000 50453 0.0000000000";
    assert!(Line2::parse(bad).is_err());

    for (line, week_counter, week_sow, epoch_interval, mjd, mjd_fract) in [(
        "##  887      0.00000000   900.00000000 50453 0.0000000000000",
        887u32,
        (0u64, 0u32),
        (900u64, 0u32),
        50453u32,
        0u64,
    )] {
        let line2 = Line2::parse(line).unwrap();

        assert_eq!(line2.week_counter.0, week_counter);
        assert_eq!(line2.week_counter.1.integer, week_sow.0);
        assert_eq!(line2.week_counter.1.fract_e8, week_sow.1);
        assert_eq!(line2.mjd.0, mjd);
        assert_eq!(line2.mjd.1, mjd_fract);
        assert_eq!(line2.epoch_interval.integer, epoch_interval.0);
        assert_eq!(line2.epoch_interval.fract_e8, epoch_interval.1);

        let formatted = line2.format();
        assert_eq!(formatted.as_str(), line);
    }
}

#[test]
fn line1_fields_and_release_datetime() {
    let line = "#dP2019 10 27  0  0  0.00000000      97 ORBIT IGS14 HLM  IGS";
    let l1 = Line1::parse(line).unwrap();
    assert_eq!(l1.release_datetime, (2019, 10, 27, 0, 0, 0, 0));
    assert_eq!(l1.num_epochs, 97);
    assert_eq!(l1.data_used, "ORBIT");
    assert_eq!(l1.agency, "IGS");
    assert_eq!(l1.orbit_type, OrbitType::Hlm);
    assert_eq!(l1.format().as_str(), line);
}

#[test]
fn line1_error_kinds() {
    // unsupported revision character
    let bad = "#zP2020  6 24  0  0  0.00000000      97 __u+U IGS14 FIT  IAC";
    assert!(matches!(Line1::parse(bad), Err(ParsingError::NonSupportedRevision)));
    // unknown data type character
    let bad = "#dX2020  6 24  0  0  0.00000000      97 __u+U IGS14 FIT  IAC";
    assert!(matches!(Line1::parse(bad), Err(ParsingError::UnknownDataType)));
    // unknown orbit type label
    let bad = "#dP2020  6 24  0  0  0.00000000      97 __u+U IGS14 XYZ  IAC";
    assert!(matches!(Line1::parse(bad), Err(ParsingError::UnknownOrbitType)));
    // corrupt year column
    let bad = "#dPx020  6 24  0  0  0.00000000      97 __u+U IGS14 FIT  IAC";
    assert!(matches!(Line1::parse(bad), Err(ParsingError::DateTimeParsing(_))));
    // corrupt epoch-count column
    let bad = "#dP2020  6 24  0  0  0.00000000      9x __u+U IGS14 FIT  IAC";
    assert!(matches!(Line1::parse(bad), Err(ParsingError::EpochCount(_))));
    // too short
    assert!(matches!(Line1::parse("#dP2020"), Err(ParsingError::InvalidH1)));
}

#[test]
fn line2_error_kinds() {
    // wrong exact width
    let bad = "##  887      0.00000000   900.00000000 50453 0.00000000000000";
    assert!(matches!(Line2::parse(bad), Err(ParsingError::MalformedH2)));
    // corrupt week column
    let bad = "##  8x7      0.00000000   900.00000000 50453 0.0000000000000";
    assert!(matches!(Line2::parse(bad), Err(ParsingError::WeekCounter(_))));
    // corrupt interval column
    let bad = "##  887      0.00000000   9x0.00000000 50453 0.0000000000000";
    assert!(matches!(Line2::parse(bad), Err(ParsingError::EpochInterval(_))));
    // corrupt day column
    let bad = "##  887      0.00000000   900.00000000 5x453 0.0000000000000";
    assert!(matches!(Line2::parse(bad), Err(ParsingError::Mjd(_))));
}

#[test]
fn line2_sub_second_precision_survives() {
    let line = "## 2077 259200.00000001   900.00000000 58783 0.0000000000042";
    let l2 = Line2::parse(line).unwrap();
    assert_eq!(l2.week_counter.1.integer, 259200);
    assert_eq!(l2.week_counter.1.fract_e8, 1);
    assert_eq!(l2.mjd.1, 42);
    assert_eq!(l2.format().as_str(), line);
}
