//! Position records: one satellite's coordinates, optional clock
//! offset, and flag columns.
use vstd::prelude::*;

use crate::errors::ParsingError;
use crate::ids::{sv_parse, SV};
use crate::num::{fixed_field_ok, fixed_field_val, parse_fixed, spec_trim, trim_range};

verus! {

/// Whether a body line is a position record.
pub fn position_entry(content: &str) -> (r: bool)
    ensures
        r == (content@.len() > 0 && content@[0] == 'P'),
{
    if content.unicode_len() == 0 {
        return false;
    }
    content.get_char(0) == 'P'
}

/// The greatest scaled magnitude a coordinate or clock field admits.
pub open spec fn coord_max() -> int {
    999999999999999999
}

/// The reserved clock literal: a trimmed clock field opening with six
/// nines and the point means "no clock data".
pub open spec fn clock_absent(s: Seq<char>) -> bool {
    let t = spec_trim(s.subrange(46, 60));
    &&& t.len() >= 7
    &&& t[0] == '9'
    &&& t[1] == '9'
    &&& t[2] == '9'
    &&& t[3] == '9'
    &&& t[4] == '9'
    &&& t[5] == '9'
    &&& t[6] == '.'
}

/// Tests the sentinel on the clock columns of a record line.
pub fn clock_absent_exec(line: &str) -> (r: bool)
    requires
        line@.len() >= 60,
    ensures
        r == clock_absent(line@),
{
    let f = line.substring_char(46, 60);
    let (lo, hi) = trim_range(f);
    if hi - lo < 7 {
        return false;
    }
    proof {
        assert(forall|i: int|
            0 <= i < 7 ==> spec_trim(f@)[i] == f@[lo + i]);
    }
    f.get_char(lo) == '9' && f.get_char(lo + 1) == '9' && f.get_char(lo + 2) == '9' && f.get_char(
        lo + 3,
    ) == '9' && f.get_char(lo + 4) == '9' && f.get_char(lo + 5) == '9' && f.get_char(lo + 6) == '.'
}

/// One decoded position record.
#[derive(Debug, Clone, Copy, PartialEq, Eq)]
pub struct PositionEntry {
    pub sv: SV,
    /// Coordinates in `1e-6` kilometers (the six fraction digits of
    /// the kilometer columns, kept exact).
    pub x_km_e6: i64,
    pub y_km_e6: i64,
    pub z_km_e6: i64,
    /// Clock offset in `1e-6` microseconds, absent on the sentinel.
    pub clock_us_e6: Option<i64>,
    pub maneuver: bool,
    pub orbit_prediction: bool,
    pub clock_prediction: bool,
    pub clock_event: bool,
}

/// Which failure a rejected record line reports: each kind comes
/// exactly on its own inputs, checked in column order.
pub open spec fn record_error_matches(s: Seq<char>, e: crate::errors::ParsingError) -> bool {
    let sv_ok = sv_parse(spec_trim(s.subrange(1, 4))) is Some;
    let coords_ok = fixed_field_ok(s.subrange(4, 18), 6, coord_max()) && fixed_field_ok(
        s.subrange(18, 32),
        6,
        coord_max(),
    ) && fixed_field_ok(s.subrange(32, 46), 6, coord_max());
    &&& (e is SV <==> !sv_ok)
    &&& (e is Coordinates <==> sv_ok && !coords_ok)
    &&& (e is Clock <==> sv_ok && coords_ok && !clock_absent(s) && !fixed_field_ok(
        s.subrange(46, 60),
        6,
        coord_max(),
    ))
}

/// Every field of a position record in its column range, readable.
pub open spec fn position_ok(s: Seq<char>) -> bool {
    &&& sv_parse(spec_trim(s.subrange(1, 4))) is Some
    &&& fixed_field_ok(s.subrange(4, 18), 6, coord_max())
    &&& fixed_field_ok(s.subrange(18, 32), 6, coord_max())
    &&& fixed_field_ok(s.subrange(32, 46), 6, coord_max())
    &&& (clock_absent(s) || fixed_field_ok(s.subrange(46, 60), 6, coord_max()))
}

/// How a decoded record relates to the columns it was read from.
pub open spec fn position_matches(s: Seq<char>, e: PositionEntry) -> bool {
    &&& sv_parse(spec_trim(s.subrange(1, 4))) == Some(e.sv)
    &&& e.x_km_e6 == fixed_field_val(s.subrange(4, 18), 6)
    &&& e.y_km_e6 == fixed_field_val(s.subrange(18, 32), 6)
    &&& e.z_km_e6 == fixed_field_val(s.subrange(32, 46), 6)
    &&& (clock_absent(s) ==> e.clock_us_e6 is None)
    &&& (!clock_absent(s) ==> e.clock_us_e6 == Some(
        fixed_field_val(s.subrange(46, 60), 6) as i64,
    ))
    &&& e.clock_event == (s.len() > 74 && s[74] == 'E')
    &&& e.clock_prediction == (s.len() > 75 && s[75] == 'P')
    &&& e.maneuver == (s.len() > 78 && s[78] == 'M')
    &&& e.orbit_prediction == (s.len() > 79 && s[79] == 'P')
}

impl PositionEntry {
    /// Decodes a position record of at least sixty columns.
    #[verifier::spinoff_prover]
    #[verifier::rlimit(100)]
    pub(crate) fn parse(line: &str) -> (r: Result<PositionEntry, ParsingError>)
        requires
            line@.len() >= 60,
        ensures
            r is Ok <==> position_ok(line@),
            r matches Ok(e) ==> position_matches(line@, e),
            r matches Err(err) ==> record_error_matches(line@, err),
    {
        let n = line.unicode_len();
        let sv = match SV::from_str(line.substring_char(1, 4)) {
            Ok(v) => v,
            Err(e) => {
                return Err(e);
            },
        };
        let x = match parse_fixed(line.substring_char(4, 18), 6, 999999999999999999) {
            Some(v) => v,
            None => {
                return Err(ParsingError::Coordinates(line.substring_char(4, 18).to_owned()));
            },
        };
        let y = match parse_fixed(line.substring_char(18, 32), 6, 999999999999999999) {
            Some(v) => v,
            None => {
                return Err(ParsingError::Coordinates(line.substring_char(18, 32).to_owned()));
            },
        };
        let z = match parse_fixed(line.substring_char(32, 46), 6, 999999999999999999) {
            Some(v) => v,
            None => {
                return Err(ParsingError::Coordinates(line.substring_char(32, 46).to_owned()));
            },
        };
        let clock_us_e6 = if clock_absent_exec(line) {
            None
        } else {
            match parse_fixed(line.substring_char(46, 60), 6, 999999999999999999) {
                Some(v) => Some(v),
                None => {
                    return Err(ParsingError::Clock(line.substring_char(46, 60).to_owned()));
                },
            }
        };
        let clock_event = n > 74 && line.get_char(74) == 'E';
        let clock_prediction = n > 75 && line.get_char(75) == 'P';
        let maneuver = n > 78 && line.get_char(78) == 'M';
        let orbit_prediction = n > 79 && line.get_char(79) == 'P';
        Ok(
            PositionEntry {
                sv,
                x_km_e6: x,
                y_km_e6: y,
                z_km_e6: z,
                clock_us_e6,
                maneuver,
                orbit_prediction,
                clock_prediction,
                clock_event,
            },
        )
    }
}

} // verus!
