//! Header line 2: GNSS week counter, week seconds, sampling interval
//! and modified Julian date, every fractional part kept exact.
use vstd::prelude::*;

use crate::errors::ParsingError;
use crate::num::{
    dec_str, fixed_field_ok, fixed_field_val, fixed_str, fmt_fixed, fmt_uint, lemma_dec_str,
    lemma_dec_str_len, lemma_fixed_round_trip, lemma_uint_round_trip, pad_left, pad_str,
    parse_fixed, parse_uint, pow10, spec_trim, uint_field_ok, uint_field_val,
};

verus! {

/// Whether a line is header line 2: it starts with its two-character
/// marker.
pub fn is_header_line2(content: &str) -> (r: bool)
    ensures
        r == (content@.len() >= 2 && content@[0] == '#' && content@[1] == '#'),
{
    if content.unicode_len() < 2 {
        return false;
    }
    content.get_char(0) == '#' && content.get_char(1) == '#'
}

/// A span of seconds held as whole seconds and `1e-8` second parts, so
/// the eight fraction digits of the format survive unchanged.
#[derive(Debug, Clone, Copy, PartialEq, Eq, Structural)]
pub struct Seconds8 {
    pub integer: u64,
    pub fract_e8: u32,
}

pub open spec fn seconds8_e8(s: Seconds8) -> int {
    s.integer * 100000000 + s.fract_e8
}

/// The decoded fields of header line 2.
#[derive(Debug, Clone, Copy, PartialEq, Eq)]
pub struct Line2 {
    /// GNSS week number, and seconds into that week.
    pub week_counter: (u32, Seconds8),
    /// The sampling interval between epochs.
    pub epoch_interval: Seconds8,
    /// Modified Julian date: whole day, and the fractional day in
    /// `1e-13` day parts (the thirteen fraction digits of the field).
    pub mjd: (u32, u64),
}

/// The greatest scaled magnitude any of the fixed-point fields admits.
pub open spec fn line2_field_max() -> int {
    999999999999999
}

/// Line 2 has one exact width, stricter than line 1's minimum.
pub open spec fn line2_len() -> int {
    60
}

pub open spec fn line2_ok(s: Seq<char>) -> bool {
    &&& s.len() == line2_len()
    &&& uint_field_ok(s.subrange(2, 7), 99999)
    &&& fixed_field_ok(s.subrange(7, 23), 8, line2_field_max())
    &&& fixed_field_val(s.subrange(7, 23), 8) >= 0
    &&& fixed_field_ok(s.subrange(24, 38), 8, line2_field_max())
    &&& fixed_field_val(s.subrange(24, 38), 8) >= 0
    &&& uint_field_ok(s.subrange(38, 44), 999999)
    &&& fixed_field_ok(s.subrange(44, 60), 13, line2_field_max())
    &&& fixed_field_val(s.subrange(44, 60), 13) >= 0
}

pub open spec fn line2_matches(s: Seq<char>, l: Line2) -> bool {
    &&& l.week_counter.0 == uint_field_val(s.subrange(2, 7))
    &&& seconds8_e8(l.week_counter.1) == fixed_field_val(s.subrange(7, 23), 8)
    &&& seconds8_e8(l.epoch_interval) == fixed_field_val(s.subrange(24, 38), 8)
    &&& l.mjd.0 == uint_field_val(s.subrange(38, 44))
    &&& l.mjd.1 == fixed_field_val(s.subrange(44, 60), 13)
}

/// Splits a non-negative scaled value into whole seconds and parts.
fn split_e8(v: i64) -> (r: Seconds8)
    requires
        v >= 0,
    ensures
        seconds8_e8(r) == v,
        r.fract_e8 < 100000000,
        r.integer == v / 100000000,
{
    let integer = (v / 100000000) as u64;
    let fract_e8 = (v % 100000000) as u32;
    proof {
        vstd::arithmetic::div_mod::lemma_fundamental_div_mod(v as int, 100000000);
    }
    Seconds8 { integer, fract_e8 }
}

/// Which failure a rejected line 2 reports: each kind comes exactly on
/// its own inputs, checked in column order.
pub open spec fn line2_error_matches(s: Seq<char>, e: ParsingError) -> bool {
    let week_ok = uint_field_ok(s.subrange(2, 7), 99999) && fixed_field_ok(
        s.subrange(7, 23),
        8,
        line2_field_max(),
    ) && fixed_field_val(s.subrange(7, 23), 8) >= 0;
    let dt_ok = fixed_field_ok(s.subrange(24, 38), 8, line2_field_max()) && fixed_field_val(
        s.subrange(24, 38),
        8,
    ) >= 0;
    &&& (e is MalformedH2 <==> s.len() != line2_len())
    &&& (e is WeekCounter <==> s.len() == line2_len() && !week_ok)
    &&& (e is EpochInterval <==> s.len() == line2_len() && week_ok && !dt_ok)
    &&& (e is Mjd <==> s.len() == line2_len() && week_ok && dt_ok && !(uint_field_ok(
        s.subrange(38, 44),
        999999,
    ) && fixed_field_ok(s.subrange(44, 60), 13, line2_field_max()) && fixed_field_val(
        s.subrange(44, 60),
        13,
    ) >= 0))
}

impl Line2 {
    /// Decodes header line 2, which must have its exact fixed width.
    #[verifier::spinoff_prover]
    #[verifier::rlimit(100)]
    pub fn parse(line: &str) -> (r: Result<Line2, ParsingError>)
        ensures
            r is Ok <==> line2_ok(line@),
            r matches Ok(l) ==> line2_matches(line@, l),
            r matches Err(e) ==> line2_error_matches(line@, e),
            r matches Err(e) ==> (e is MalformedH2 || e is WeekCounter || e is EpochInterval
                || e is Mjd),
    {
        let n = line.unicode_len();
        if n != 60 {
            return Err(ParsingError::MalformedH2);
        }
        let week = match parse_uint(line.substring_char(2, 7), 99999) {
            Some(v) => v as u32,
            None => {
                return Err(ParsingError::WeekCounter(line.substring_char(2, 7).to_owned()));
            },
        };
        let sow = match parse_fixed(line.substring_char(7, 23), 8, 999999999999999) {
            Some(v) if v >= 0 => v,
            _ => {
                return Err(ParsingError::WeekCounter(line.substring_char(7, 23).to_owned()));
            },
        };
        let dt = match parse_fixed(line.substring_char(24, 38), 8, 999999999999999) {
            Some(v) if v >= 0 => v,
            _ => {
                return Err(ParsingError::EpochInterval(line.substring_char(24, 38).to_owned()));
            },
        };
        let mjd_day = match parse_uint(line.substring_char(38, 44), 999999) {
            Some(v) => v as u32,
            None => {
                return Err(ParsingError::Mjd(line.substring_char(38, 44).to_owned()));
            },
        };
        let mjd_fract = match parse_fixed(line.substring_char(44, 60), 13, 999999999999999) {
            Some(v) if v >= 0 => v as u64,
            _ => {
                return Err(ParsingError::Mjd(line.substring_char(44, 60).to_owned()));
            },
        };
        Ok(
            Line2 {
                week_counter: (week, split_e8(sow)),
                epoch_interval: split_e8(dt),
                mjd: (mjd_day, mjd_fract),
            },
        )
    }
}

/// The value bounds under which line 2 re-renders into its own columns.
pub open spec fn line2_wf(l: Line2) -> bool {
    &&& l.week_counter.0 <= 99999
    &&& l.week_counter.1.integer <= 9999999
    &&& l.week_counter.1.fract_e8 < 100000000
    &&& l.epoch_interval.integer <= 99999
    &&& l.epoch_interval.fract_e8 < 100000000
    &&& l.mjd.0 <= 999999
    &&& l.mjd.1 < 1000000000000000
}

/// The canonical text of line 2.
pub open spec fn line2_str(l: Line2) -> Seq<char> {
    seq!['#', '#'] + pad_left(dec_str(l.week_counter.0 as nat), 5, ' ') + pad_left(
        fixed_str(seconds8_e8(l.week_counter.1), 8),
        16,
        ' ',
    ) + seq![' '] + pad_left(fixed_str(seconds8_e8(l.epoch_interval), 8), 14, ' ') + pad_left(
        dec_str(l.mjd.0 as nat),
        6,
        ' ',
    ) + pad_left(fixed_str(l.mjd.1 as int, 13), 16, ' ')
}

impl Line2 {
    /// Renders line 2 back into its exact sixty columns.
    pub fn format(&self) -> (r: String)
        requires
            line2_wf(*self),
        ensures
            r@ == line2_str(*self),
    {
        let mut out: String = "##".to_owned();
        proof {
            reveal_strlit("##");
            reveal_strlit(" ");
        }
        let week = pad_str(fmt_uint(self.week_counter.0 as u64), 5, false);
        out.append(week.as_str());
        let sow_e8 = self.week_counter.1.integer * 100000000 + self.week_counter.1.fract_e8 as u64;
        let sow = fmt_fixed(sow_e8 as i64, 8, 16);
        out.append(sow.as_str());
        out.append(" ");
        let dt_e8 = self.epoch_interval.integer * 100000000 + self.epoch_interval.fract_e8 as u64;
        let dt = fmt_fixed(dt_e8 as i64, 8, 14);
        out.append(dt.as_str());
        let day = pad_str(fmt_uint(self.mjd.0 as u64), 6, false);
        out.append(day.as_str());
        let fract = fmt_fixed(self.mjd.1 as i64, 13, 16);
        out.append(fract.as_str());
        proof {
            assert(out@ =~= line2_str(*self));
        }
        out
    }
}

/// A well-formed line 2 value renders to text that decodes back to the
/// very same fields: the parse-after-format direction of the
/// round-trip law.
#[verifier::spinoff_prover]
#[verifier::rlimit(100)]
pub proof fn lemma_line2_round_trip(l: Line2)
    requires
        line2_wf(l),
    ensures
        line2_ok(line2_str(l)),
        line2_matches(line2_str(l), l),
{
    let s = line2_str(l);
    let week = l.week_counter.0 as nat;
    let sow = seconds8_e8(l.week_counter.1);
    let dt = seconds8_e8(l.epoch_interval);
    let day = l.mjd.0 as nat;
    let mf = l.mjd.1 as int;
    assert(pow10(5) == 100000 && pow10(6) == 1000000 && pow10(7) == 10000000 && pow10(8)
        == 100000000 && pow10(13) == 10000000000000 && pow10(2) == 100) by {
        reveal_with_fuel(pow10, 15);
    }
    lemma_dec_str(week);
    lemma_dec_str_len(week, 5);
    lemma_dec_str(day);
    lemma_dec_str_len(day, 6);
    let pweek = pad_left(dec_str(week), 5, ' ');
    let psow = pad_left(fixed_str(sow, 8), 16, ' ');
    let pdt = pad_left(fixed_str(dt, 8), 14, ' ');
    let pday = pad_left(dec_str(day), 6, ' ');
    let pmf = pad_left(fixed_str(mf, 13), 16, ' ');
    // widths: the integer digit runs fit their columns
    assert(sow >= 0 && sow / pow10(8) == l.week_counter.1.integer) by (nonlinear_arith)
        requires
            sow == l.week_counter.1.integer * 100000000 + l.week_counter.1.fract_e8,
            0 <= l.week_counter.1.fract_e8 < 100000000,
            l.week_counter.1.integer >= 0,
            pow10(8) == 100000000,
    ;
    assert(dt >= 0 && dt / pow10(8) == l.epoch_interval.integer) by (nonlinear_arith)
        requires
            dt == l.epoch_interval.integer * 100000000 + l.epoch_interval.fract_e8,
            0 <= l.epoch_interval.fract_e8 < 100000000,
            l.epoch_interval.integer >= 0,
            pow10(8) == 100000000,
    ;
    lemma_dec_str((sow / pow10(8)) as nat);
    lemma_dec_str_len((sow / pow10(8)) as nat, 7);
    lemma_dec_str((dt / pow10(8)) as nat);
    lemma_dec_str_len((dt / pow10(8)) as nat, 5);
    assert(mf / pow10(13) <= 99) by (nonlinear_arith)
        requires 0 <= mf < 1000000000000000, pow10(13) == 10000000000000,
    ;
    lemma_dec_str((mf / pow10(13)) as nat);
    lemma_dec_str_len((mf / pow10(13)) as nat, 2);
    lemma_dec_str((sow % pow10(8)) as nat);
    lemma_dec_str_len((sow % pow10(8)) as nat, 8);
    lemma_dec_str((dt % pow10(8)) as nat);
    lemma_dec_str_len((dt % pow10(8)) as nat, 8);
    lemma_dec_str((mf % pow10(13)) as nat);
    lemma_dec_str_len((mf % pow10(13)) as nat, 13);
    assert(fixed_str(sow, 8).len() == dec_str((sow / pow10(8)) as nat).len() + 9);
    assert(fixed_str(dt, 8).len() == dec_str((dt / pow10(8)) as nat).len() + 9);
    assert(fixed_str(mf, 13).len() == dec_str((mf / pow10(13)) as nat).len() + 14);
    assert(pweek.len() == 5 && psow.len() == 16 && pdt.len() == 14 && pday.len() == 6 && pmf.len()
        == 16);
    assert(s.len() == 60);
    assert(s.subrange(2, 7) =~= pweek);
    assert(s.subrange(7, 23) =~= psow);
    assert(s.subrange(24, 38) =~= pdt);
    assert(s.subrange(38, 44) =~= pday);
    assert(s.subrange(44, 60) =~= pmf);
    lemma_uint_round_trip(week, 5, 99999);
    lemma_uint_round_trip(day, 6, 999999);
    lemma_fixed_round_trip(sow, 8, 16, line2_field_max());
    lemma_fixed_round_trip(dt, 8, 14, line2_field_max());
    lemma_fixed_round_trip(mf, 13, 16, line2_field_max());
}

/// The format-after-parse direction: a canonical line 2 re-renders
/// byte-for-byte from whatever the decoder returned for it.
pub proof fn lemma_line2_format_parse(s: Seq<char>, l: Line2, l0: Line2)
    requires
        line2_wf(l0),
        s == line2_str(l0),
        line2_matches(s, l),
    ensures
        line2_str(l) == s,
{
    lemma_line2_round_trip(l0);
    assert(seconds8_e8(l.week_counter.1) == seconds8_e8(l0.week_counter.1));
    assert(seconds8_e8(l.epoch_interval) == seconds8_e8(l0.epoch_interval));
    assert(line2_str(l) =~= line2_str(l0));
}

} // verus!
