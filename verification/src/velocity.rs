//! Velocity records: one satellite's velocity components in their raw
//! decimeter-per-second scale, and an optional clock rate-of-change.
use vstd::prelude::*;

use crate::errors::ParsingError;
use crate::ids::{sv_parse, SV};
use crate::num::{fixed_field_ok, fixed_field_val, parse_fixed, spec_trim};
use crate::position::{clock_absent, clock_absent_exec, coord_max};

verus! {

/// Whether a body line is a velocity record.
pub fn velocity_entry(content: &str) -> (r: bool)
    ensures
        r == (content@.len() > 0 && content@[0] == 'V'),
{
    if content.unicode_len() == 0 {
        return false;
    }
    content.get_char(0) == 'V'
}

/// One decoded velocity record.  Components stay in the decoder's raw
/// unit, `1e-6` of a decimeter per second; the assembly stage owns the
/// unit conversion.
#[derive(Debug, Clone, Copy, PartialEq, Eq)]
pub struct VelocityEntry {
    pub sv: SV,
    pub velocity_dm_s_e6: (i64, i64, i64),
    /// Clock rate-of-change in `1e-6` of the field unit, absent on the
    /// sentinel.
    pub clock_sub_ns_e6: Option<i64>,
}

pub open spec fn velocity_ok(s: Seq<char>) -> bool {
    &&& sv_parse(spec_trim(s.subrange(1, 4))) is Some
    &&& fixed_field_ok(s.subrange(4, 18), 6, coord_max())
    &&& fixed_field_ok(s.subrange(18, 32), 6, coord_max())
    &&& fixed_field_ok(s.subrange(32, 46), 6, coord_max())
    &&& (clock_absent(s) || fixed_field_ok(s.subrange(46, 60), 6, coord_max()))
}

pub open spec fn velocity_matches(s: Seq<char>, e: VelocityEntry) -> bool {
    &&& sv_parse(spec_trim(s.subrange(1, 4))) == Some(e.sv)
    &&& e.velocity_dm_s_e6.0 == fixed_field_val(s.subrange(4, 18), 6)
    &&& e.velocity_dm_s_e6.1 == fixed_field_val(s.subrange(18, 32), 6)
    &&& e.velocity_dm_s_e6.2 == fixed_field_val(s.subrange(32, 46), 6)
    &&& (clock_absent(s) ==> e.clock_sub_ns_e6 is None)
    &&& (!clock_absent(s) ==> e.clock_sub_ns_e6 == Some(
        fixed_field_val(s.subrange(46, 60), 6) as i64,
    ))
}

impl VelocityEntry {
    /// Hands the record out as its parts.
    pub fn to_parts(&self) -> (r: (SV, (i64, i64, i64), Option<i64>))
        ensures
            r == (self.sv, self.velocity_dm_s_e6, self.clock_sub_ns_e6),
    {
        (self.sv, self.velocity_dm_s_e6, self.clock_sub_ns_e6)
    }

    /// Decodes a velocity record of at least sixty columns.
    #[verifier::spinoff_prover]
    #[verifier::rlimit(100)]
    pub(crate) fn parse(line: &str) -> (r: Result<VelocityEntry, ParsingError>)
        requires
            line@.len() >= 60,
        ensures
            r is Ok <==> velocity_ok(line@),
            r matches Ok(e) ==> velocity_matches(line@, e),
            r matches Err(err) ==> crate::position::record_error_matches(line@, err),
    {
        let sv = match SV::from_str(line.substring_char(1, 4)) {
            Ok(v) => v,
            Err(e) => {
                return Err(e);
            },
        };
        let x = match parse_fixed(line.substring_char(4, 18), 6, 999999999999999999) {
            Some(v) => v,
            None => {
                return Err(ParsingError::Coordinates(line.substring_char(4, 18).to_owned()));
            },
        };
        let y = match parse_fixed(line.substring_char(18, 32), 6, 999999999999999999) {
            Some(v) => v,
            None => {
                return Err(ParsingError::Coordinates(line.substring_char(18, 32).to_owned()));
            },
        };
        let z = match parse_fixed(line.substring_char(32, 46), 6, 999999999999999999) {
            Some(v) => v,
            None => {
                return Err(ParsingError::Coordinates(line.substring_char(32, 46).to_owned()));
            },
        };
        let clock_sub_ns_e6 = if clock_absent_exec(line) {
            None
        } else {
            match parse_fixed(line.substring_char(46, 60), 6, 999999999999999999) {
                Some(v) => Some(v),
                None => {
                    return Err(ParsingError::Clock(line.substring_char(46, 60).to_owned()));
                },
            }
        };
        Ok(VelocityEntry { sv, velocity_dm_s_e6: (x, y, z), clock_sub_ns_e6 })
    }
}

} // verus!
