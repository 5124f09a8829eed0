//! Header line 1: revision, data type, release date-time, epoch count,
//! data-used tag, coordinate system, orbit type and agency, in fixed
//! columns.
use vstd::prelude::*;

use crate::errors::ParsingError;
use crate::ids::{
    data_type_char, data_type_from_char, data_type_str, orbit_type_from, orbit_type_name,
    orbit_type_str, version_char, version_from_char, version_str, DataType, OrbitType, Version,
};
use crate::num::{
    dec_str, fmt_uint, lemma_dec_str, lemma_dec_str_len, lemma_trim_padded, lemma_uint_round_trip,
    lemma_uint_zero_pad_round_trip, no_edge_blanks, pad_left, pad_str, parse_uint, pow10,
    spec_trim, uint_field_ok, uint_field_val,
};

verus! {

/// Whether a line opens the header: line 1 starts with the marker.
pub fn is_header_line1(content: &str) -> (r: bool)
    ensures
        r == (content@.len() > 0 && content@[0] == '#'),
{
    if content.unicode_len() == 0 {
        return false;
    }
    content.get_char(0) == '#'
}

/// The decoded fields of header line 1.
pub struct Line1 {
    /// Date and time of publication: year, month, day, hour, minute,
    /// second, nanoseconds.
    pub release_datetime: (i32, u8, u8, u8, u8, u32, u64),
    /// Release revision.
    pub version: Version,
    /// Position-only or position-and-velocity file.
    pub data_type: DataType,
    /// How many epochs the file announces.
    pub num_epochs: u64,
    /// The five-column data-used tag.
    pub data_used: String,
    /// Coordinate-system label.
    pub coord_system: String,
    /// Orbit-type label.
    pub orbit_type: OrbitType,
    /// Producing agency.
    pub agency: String,
}

/// Line 1 must reach the agency columns.
pub open spec fn line1_min_len() -> int {
    59
}

/// Every numeric field of line 1 in its column range, readable.
pub open spec fn line1_ok(s: Seq<char>) -> bool {
    &&& s.len() >= line1_min_len()
    &&& uint_field_ok(s.subrange(3, 7), 9999)
    &&& uint_field_ok(s.subrange(8, 10), 99)
    &&& uint_field_ok(s.subrange(11, 13), 99)
    &&& uint_field_ok(s.subrange(14, 16), 99)
    &&& uint_field_ok(s.subrange(17, 19), 99)
    &&& uint_field_ok(s.subrange(20, 22), 99)
    &&& uint_field_ok(s.subrange(23, 31), 99999999)
    &&& uint_field_ok(s.subrange(31, 39), 99999999)
    &&& (exists|v: Version| version_char(v) == s[1])
    &&& (exists|d: DataType| data_type_char(d) == s[2])
    &&& (exists|o: OrbitType| spec_trim(s.subrange(51, 55)) == orbit_type_str(o))
}

/// How a decoded `Line1` relates to the columns it was read from.
pub open spec fn line1_matches(s: Seq<char>, l: Line1) -> bool {
    &&& version_char(l.version) == s[1]
    &&& data_type_char(l.data_type) == s[2]
    &&& l.release_datetime.0 == uint_field_val(s.subrange(3, 7))
    &&& l.release_datetime.1 == uint_field_val(s.subrange(8, 10))
    &&& l.release_datetime.2 == uint_field_val(s.subrange(11, 13))
    &&& l.release_datetime.3 == uint_field_val(s.subrange(14, 16))
    &&& l.release_datetime.4 == uint_field_val(s.subrange(17, 19))
    &&& l.release_datetime.5 == uint_field_val(s.subrange(20, 22))
    &&& l.release_datetime.6 == uint_field_val(s.subrange(23, 31)) * 10
    &&& l.num_epochs == uint_field_val(s.subrange(31, 39))
    &&& l.data_used@ == spec_trim(s.subrange(40, 45))
    &&& l.coord_system@ == spec_trim(s.subrange(45, 51))
    &&& spec_trim(s.subrange(51, 55)) == orbit_type_str(l.orbit_type)
    &&& l.agency@ == spec_trim(s.subrange(55, s.len() as int))
}

/// Whether the release date-time columns all read.
pub open spec fn line1_datetime_ok(s: Seq<char>) -> bool {
    &&& uint_field_ok(s.subrange(3, 7), 9999)
    &&& uint_field_ok(s.subrange(8, 10), 99)
    &&& uint_field_ok(s.subrange(11, 13), 99)
    &&& uint_field_ok(s.subrange(14, 16), 99)
    &&& uint_field_ok(s.subrange(17, 19), 99)
    &&& uint_field_ok(s.subrange(20, 22), 99)
    &&& uint_field_ok(s.subrange(23, 31), 99999999)
}

/// Which failure a rejected line 1 reports: each kind comes exactly on
/// its own inputs, checked in column order.
pub open spec fn line1_error_matches(s: Seq<char>, e: ParsingError) -> bool {
    &&& (e is InvalidH1 <==> s.len() < line1_min_len())
    &&& (e is DateTimeParsing <==> s.len() >= line1_min_len() && !line1_datetime_ok(s))
    &&& (e is EpochCount <==> s.len() >= line1_min_len() && line1_datetime_ok(s)
        && !uint_field_ok(s.subrange(31, 39), 99999999))
    &&& (e is NonSupportedRevision <==> s.len() >= line1_min_len() && line1_datetime_ok(s)
        && uint_field_ok(s.subrange(31, 39), 99999999) && !(exists|v: Version|
        version_char(v) == s[1]))
    &&& (e is UnknownDataType <==> s.len() >= line1_min_len() && line1_datetime_ok(s)
        && uint_field_ok(s.subrange(31, 39), 99999999) && (exists|v: Version|
        version_char(v) == s[1]) && !(exists|d: DataType| data_type_char(d) == s[2]))
    &&& (e is UnknownOrbitType <==> s.len() >= line1_min_len() && line1_datetime_ok(s)
        && uint_field_ok(s.subrange(31, 39), 99999999) && (exists|v: Version|
        version_char(v) == s[1]) && (exists|d: DataType| data_type_char(d) == s[2]) && !(
        exists|o: OrbitType| spec_trim(s.subrange(51, 55)) == orbit_type_str(o)))
}

impl Line1 {
    /// Decodes header line 1; every column failure keeps its own kind.
    #[verifier::spinoff_prover]
    #[verifier::rlimit(100)]
    pub fn parse(line: &str) -> (r: Result<Line1, ParsingError>)
        ensures
            r is Ok <==> line1_ok(line@),
            r matches Ok(l) ==> line1_matches(line@, l) && line1_wf(l),
            r matches Err(e) ==> line1_error_matches(line@, e),
    {
        let n = line.unicode_len();
        if n < 59 {
            return Err(ParsingError::InvalidH1);
        }
        let y = match parse_uint(line.substring_char(3, 7), 9999) {
            Some(v) => v as i32,
            None => {
                return Err(ParsingError::DateTimeParsing(line.substring_char(3, 7).to_owned()));
            },
        };
        let m = match parse_uint(line.substring_char(8, 10), 99) {
            Some(v) => v as u8,
            None => {
                return Err(ParsingError::DateTimeParsing(line.substring_char(8, 10).to_owned()));
            },
        };
        let d = match parse_uint(line.substring_char(11, 13), 99) {
            Some(v) => v as u8,
            None => {
                return Err(ParsingError::DateTimeParsing(line.substring_char(11, 13).to_owned()));
            },
        };
        let hh = match parse_uint(line.substring_char(14, 16), 99) {
            Some(v) => v as u8,
            None => {
                return Err(ParsingError::DateTimeParsing(line.substring_char(14, 16).to_owned()));
            },
        };
        let mm = match parse_uint(line.substring_char(17, 19), 99) {
            Some(v) => v as u8,
            None => {
                return Err(ParsingError::DateTimeParsing(line.substring_char(17, 19).to_owned()));
            },
        };
        let ss = match parse_uint(line.substring_char(20, 22), 99) {
            Some(v) => v as u32,
            None => {
                return Err(ParsingError::DateTimeParsing(line.substring_char(20, 22).to_owned()));
            },
        };
        let fract = match parse_uint(line.substring_char(23, 31), 99999999) {
            Some(v) => v,
            None => {
                return Err(ParsingError::DateTimeParsing(line.substring_char(23, 31).to_owned()));
            },
        };
        let num_epochs = match parse_uint(line.substring_char(31, 39), 99999999) {
            Some(v) => v,
            None => {
                return Err(ParsingError::EpochCount(line.substring_char(31, 39).to_owned()));
            },
        };
        let version = match version_from_char(line.get_char(1)) {
            Some(v) => v,
            None => {
                return Err(ParsingError::NonSupportedRevision);
            },
        };
        let data_type = match data_type_from_char(line.get_char(2)) {
            Some(v) => v,
            None => {
                return Err(ParsingError::UnknownDataType);
            },
        };
        let orbit_type = match orbit_type_from(line.substring_char(51, 55)) {
            Some(v) => v,
            None => {
                return Err(ParsingError::UnknownOrbitType);
            },
        };
        let data_used = str_trimmed(line.substring_char(40, 45));
        let coord_system = str_trimmed(line.substring_char(45, 51));
        let agency = str_trimmed(line.substring_char(55, n));
        proof {
            crate::num::lemma_trim_ends(line@.subrange(40, 45));
            crate::num::lemma_trim_len(line@.subrange(40, 45));
            crate::num::lemma_trim_ends(line@.subrange(45, 51));
            crate::num::lemma_trim_len(line@.subrange(45, 51));
            crate::num::lemma_trim_ends(line@.subrange(55, line@.len() as int));
        }
        Ok(
            Line1 {
                release_datetime: (y, m, d, hh, mm, ss, fract * 10),
                version,
                data_type,
                num_epochs,
                data_used,
                coord_system,
                orbit_type,
                agency,
            },
        )
    }
}

/// The value bounds under which line 1 re-renders into its own columns.
pub open spec fn line1_wf(l: Line1) -> bool {
    &&& 0 <= l.release_datetime.0 <= 9999
    &&& l.release_datetime.1 <= 99
    &&& l.release_datetime.2 <= 99
    &&& l.release_datetime.3 <= 99
    &&& l.release_datetime.4 <= 99
    &&& l.release_datetime.5 <= 99
    &&& l.release_datetime.6 <= 999999990
    &&& l.release_datetime.6 % 10 == 0
    &&& l.num_epochs <= 99999999
    &&& no_edge_blanks(l.data_used@) && l.data_used@.len() <= 5
    &&& no_edge_blanks(l.coord_system@) && l.coord_system@.len() <= 6
    &&& no_edge_blanks(l.agency@)
}

/// The canonical text of line 1.
pub open spec fn line1_str(l: Line1) -> Seq<char> {
    seq!['#', version_char(l.version), data_type_char(l.data_type)] + pad_left(
        dec_str(l.release_datetime.0 as nat),
        4,
        ' ',
    ) + seq![' '] + pad_left(dec_str(l.release_datetime.1 as nat), 2, ' ') + seq![' '] + pad_left(
        dec_str(l.release_datetime.2 as nat),
        2,
        ' ',
    ) + seq![' '] + pad_left(dec_str(l.release_datetime.3 as nat), 2, ' ') + seq![' '] + pad_left(
        dec_str(l.release_datetime.4 as nat),
        2,
        ' ',
    ) + seq![' '] + pad_left(dec_str(l.release_datetime.5 as nat), 2, ' ') + seq!['.'] + pad_left(
        dec_str((l.release_datetime.6 / 10) as nat),
        8,
        '0',
    ) + pad_left(dec_str(l.num_epochs as nat), 8, ' ') + seq![' '] + pad_left(l.data_used@, 5, ' ')
        + pad_left(l.coord_system@, 6, ' ') + pad_left(orbit_type_str(l.orbit_type), 4, ' ')
        + pad_left(l.agency@, 5, ' ')
}

impl Line1 {
    /// Renders line 1 back into its exact column layout.
    pub fn format(&self) -> (r: String)
        requires
            line1_wf(*self),
        ensures
            r@ == line1_str(*self),
    {
        let mut out: String = "#".to_owned();
        proof {
            reveal_strlit("#");
        }
        out.append(version_str(self.version));
        out.append(data_type_str(self.data_type));
        let y = pad_str(fmt_uint(self.release_datetime.0 as u64), 4, false);
        out.append(y.as_str());
        out.append(" ");
        let m = pad_str(fmt_uint(self.release_datetime.1 as u64), 2, false);
        out.append(m.as_str());
        out.append(" ");
        let d = pad_str(fmt_uint(self.release_datetime.2 as u64), 2, false);
        out.append(d.as_str());
        out.append(" ");
        let hh = pad_str(fmt_uint(self.release_datetime.3 as u64), 2, false);
        out.append(hh.as_str());
        out.append(" ");
        let mm = pad_str(fmt_uint(self.release_datetime.4 as u64), 2, false);
        out.append(mm.as_str());
        out.append(" ");
        let ss = pad_str(fmt_uint(self.release_datetime.5 as u64), 2, false);
        out.append(ss.as_str());
        out.append(".");
        let fract = pad_str(fmt_uint(self.release_datetime.6 / 10), 8, true);
        out.append(fract.as_str());
        let ne = pad_str(fmt_uint(self.num_epochs), 8, false);
        out.append(ne.as_str());
        out.append(" ");
        let du = pad_str(self.data_used.clone(), 5, false);
        out.append(du.as_str());
        let cs = pad_str(self.coord_system.clone(), 6, false);
        out.append(cs.as_str());
        let ot = pad_str(orbit_type_name(self.orbit_type).to_owned(), 4, false);
        out.append(ot.as_str());
        let ag = pad_str(self.agency.clone(), 5, false);
        out.append(ag.as_str());
        proof {
            reveal_strlit(" ");
            reveal_strlit(".");
            assert(out@ =~= line1_str(*self));
        }
        out
    }
}

/// A well-formed line 1 value renders to text that decodes back to the
/// very same fields: the parse-after-format direction of the
/// round-trip law.
#[verifier::spinoff_prover]
#[verifier::rlimit(100)]
pub proof fn lemma_line1_round_trip(l: Line1)
    requires
        line1_wf(l),
    ensures
        line1_ok(line1_str(l)),
        line1_matches(line1_str(l), l),
{
    let s = line1_str(l);
    let y = l.release_datetime.0 as nat;
    let mo = l.release_datetime.1 as nat;
    let d = l.release_datetime.2 as nat;
    let hh = l.release_datetime.3 as nat;
    let mm = l.release_datetime.4 as nat;
    let ss = l.release_datetime.5 as nat;
    let fract = (l.release_datetime.6 / 10) as nat;
    let ne = l.num_epochs as nat;
    assert(pow10(4) == 10000 && pow10(2) == 100 && pow10(8) == 100000000) by {
        reveal_with_fuel(pow10, 10);
    }
    lemma_dec_str(y);
    lemma_dec_str_len(y, 4);
    lemma_dec_str(mo);
    lemma_dec_str_len(mo, 2);
    lemma_dec_str(d);
    lemma_dec_str_len(d, 2);
    lemma_dec_str(hh);
    lemma_dec_str_len(hh, 2);
    lemma_dec_str(mm);
    lemma_dec_str_len(mm, 2);
    lemma_dec_str(ss);
    lemma_dec_str_len(ss, 2);
    lemma_dec_str(fract);
    lemma_dec_str_len(fract, 8);
    lemma_dec_str(ne);
    lemma_dec_str_len(ne, 8);
    let py = pad_left(dec_str(y), 4, ' ');
    let pm = pad_left(dec_str(mo), 2, ' ');
    let pd = pad_left(dec_str(d), 2, ' ');
    let ph = pad_left(dec_str(hh), 2, ' ');
    let pmin = pad_left(dec_str(mm), 2, ' ');
    let ps = pad_left(dec_str(ss), 2, ' ');
    let pf = pad_left(dec_str(fract), 8, '0');
    let pn = pad_left(dec_str(ne), 8, ' ');
    let pdu = pad_left(l.data_used@, 5, ' ');
    let pcs = pad_left(l.coord_system@, 6, ' ');
    let pot = pad_left(orbit_type_str(l.orbit_type), 4, ' ');
    let pag = pad_left(l.agency@, 5, ' ');
    assert(py.len() == 4 && pm.len() == 2 && pd.len() == 2 && ph.len() == 2 && pmin.len() == 2
        && ps.len() == 2 && pf.len() == 8 && pn.len() == 8 && pdu.len() == 5 && pcs.len() == 6
        && pot.len() == 4 && pag.len() >= 5);
    assert(s.len() == 55 + pag.len());
    assert(s[1] == version_char(l.version));
    assert(s[2] == data_type_char(l.data_type));
    assert(s.subrange(3, 7) =~= py);
    assert(s.subrange(8, 10) =~= pm);
    assert(s.subrange(11, 13) =~= pd);
    assert(s.subrange(14, 16) =~= ph);
    assert(s.subrange(17, 19) =~= pmin);
    assert(s.subrange(20, 22) =~= ps);
    assert(s.subrange(23, 31) =~= pf);
    assert(s.subrange(31, 39) =~= pn);
    assert(s.subrange(40, 45) =~= pdu);
    assert(s.subrange(45, 51) =~= pcs);
    assert(s.subrange(51, 55) =~= pot);
    assert(s.subrange(55, s.len() as int) =~= pag);
    lemma_uint_round_trip(y, 4, 9999);
    lemma_uint_round_trip(mo, 2, 99);
    lemma_uint_round_trip(d, 2, 99);
    lemma_uint_round_trip(hh, 2, 99);
    lemma_uint_round_trip(mm, 2, 99);
    lemma_uint_round_trip(ss, 2, 99);
    lemma_uint_zero_pad_round_trip(fract, 8, 99999999);
    lemma_uint_round_trip(ne, 8, 99999999);
    lemma_trim_padded(l.data_used@, 5);
    lemma_trim_padded(l.coord_system@, 6);
    lemma_trim_padded(l.agency@, 5);
    assert(no_edge_blanks(orbit_type_str(l.orbit_type))) by {
        match l.orbit_type {
            OrbitType::Fit => {},
            OrbitType::Ext => {},
            OrbitType::Bct => {},
            OrbitType::Hlm => {},
        }
    }
    lemma_trim_padded(orbit_type_str(l.orbit_type), 4);
    assert(l.release_datetime.6 == uint_field_val(s.subrange(23, 31)) * 10);
}

/// The format-after-parse direction: a line that is the canonical text
/// of some well-formed value re-renders byte-for-byte from whatever
/// the decoder returned for it.
pub proof fn lemma_line1_format_parse(s: Seq<char>, l: Line1, l0: Line1)
    requires
        line1_wf(l0),
        s == line1_str(l0),
        line1_matches(s, l),
    ensures
        line1_str(l) == s,
{
    lemma_line1_round_trip(l0);
    assert(version_char(l.version) == version_char(l0.version));
    assert(l.version == l0.version) by {
        match l.version {
            Version::A => {},
            Version::B => {},
            Version::C => {},
            Version::D => {},
        }
    }
    assert(l.data_type == l0.data_type) by {
        match l.data_type {
            DataType::Position => {},
            DataType::PositionVelocity => {},
        }
    }
    assert(l.orbit_type == l0.orbit_type) by {
        match l.orbit_type {
            OrbitType::Fit => {},
            OrbitType::Ext => {},
            OrbitType::Bct => {},
            OrbitType::Hlm => {},
        }
    }
    assert(l.release_datetime.6 == l0.release_datetime.6);
    assert(line1_str(l) =~= line1_str(l0));
}

/// The blank-trimmed copy of a field.
pub fn str_trimmed(s: &str) -> (r: String)
    ensures
        r@ == spec_trim(s@),
{
    let (lo, hi) = crate::num::trim_range(s);
    let t = s.substring_char(lo, hi);
    t.to_owned()
}

} // verus!
