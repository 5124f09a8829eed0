//! Enumerated identifiers of the format: revision, data type, orbit
//! type, constellation, time scale, and the satellite identifier.
use vstd::prelude::*;

use crate::errors::ParsingError;
use crate::num::{
    all_digits, dec_str, digit_val, digits_val, is_digit_char, is_space_char, lemma_dec_str,
    lemma_dec_str_len, lemma_trim_region, lemma_uint_zero_pad_round_trip, lemma_zeros_val,
    pad_left, pow10, spec_trim, trim_range, zeros,
};

verus! {

/// Release revision of the format, `a` through `d`.
#[derive(Debug, Clone, Copy, PartialEq, Eq, Structural)]
pub enum Version {
    A,
    B,
    C,
    D,
}

pub open spec fn version_char(v: Version) -> char {
    match v {
        Version::A => 'a',
        Version::B => 'b',
        Version::C => 'c',
        Version::D => 'd',
    }
}

pub fn version_from_char(c: char) -> (r: Option<Version>)
    ensures
        r matches Some(v) ==> version_char(v) == c,
        r is None ==> forall|v: Version| version_char(v) != c,
{
    if c == 'a' {
        Some(Version::A)
    } else if c == 'b' {
        Some(Version::B)
    } else if c == 'c' {
        Some(Version::C)
    } else if c == 'd' {
        Some(Version::D)
    } else {
        None
    }
}

pub fn version_str(v: Version) -> (r: &'static str)
    ensures
        r@ == seq![version_char(v)],
{
    let r: &'static str = match v {
        Version::A => "a",
        Version::B => "b",
        Version::C => "c",
        Version::D => "d",
    };
    proof {
        reveal_strlit("a");
        reveal_strlit("b");
        reveal_strlit("c");
        reveal_strlit("d");
        assert(r@ =~= seq![version_char(v)]);
    }
    r
}

/// Whether a file carries positions only, or positions and velocities.
#[derive(Debug, Clone, Copy, PartialEq, Eq, Structural)]
pub enum DataType {
    Position,
    PositionVelocity,
}

pub open spec fn data_type_char(d: DataType) -> char {
    match d {
        DataType::Position => 'P',
        DataType::PositionVelocity => 'V',
    }
}

pub fn data_type_from_char(c: char) -> (r: Option<DataType>)
    ensures
        r matches Some(d) ==> data_type_char(d) == c,
        r is None ==> forall|d: DataType| data_type_char(d) != c,
{
    if c == 'P' {
        Some(DataType::Position)
    } else if c == 'V' {
        Some(DataType::PositionVelocity)
    } else {
        None
    }
}

pub fn data_type_str(d: DataType) -> (r: &'static str)
    ensures
        r@ == seq![data_type_char(d)],
{
    let r: &'static str = match d {
        DataType::Position => "P",
        DataType::PositionVelocity => "V",
    };
    proof {
        reveal_strlit("P");
        reveal_strlit("V");
        assert(r@ =~= seq![data_type_char(d)]);
    }
    r
}

/// How the orbits of the file were produced.
#[derive(Debug, Clone, Copy, PartialEq, Eq, Structural)]
pub enum OrbitType {
    /// Fitted arc.
    Fit,
    /// Extrapolated or predicted arc.
    Ext,
    /// Broadcast-based arc.
    Bct,
    /// Helmert-transformed combination.
    Hlm,
}

pub open spec fn orbit_type_str(o: OrbitType) -> Seq<char> {
    match o {
        OrbitType::Fit => seq!['F', 'I', 'T'],
        OrbitType::Ext => seq!['E', 'X', 'T'],
        OrbitType::Bct => seq!['B', 'C', 'T'],
        OrbitType::Hlm => seq!['H', 'L', 'M'],
    }
}

/// Decodes the blank-padded orbit-type label.
#[verifier::spinoff_prover]
#[verifier::rlimit(60)]
pub fn orbit_type_from(s: &str) -> (r: Option<OrbitType>)
    ensures
        r matches Some(o) ==> spec_trim(s@) == orbit_type_str(o),
        r is None ==> forall|o: OrbitType| spec_trim(s@) != orbit_type_str(o),
{
    let (lo, hi) = trim_range(s);
    if hi - lo != 3 {
        proof {
            assert forall|o: OrbitType| spec_trim(s@) != orbit_type_str(o) by {
                assert(orbit_type_str(o).len() == 3) by {
                    match o {
                        OrbitType::Fit => {},
                        OrbitType::Ext => {},
                        OrbitType::Bct => {},
                        OrbitType::Hlm => {},
                    }
                }
            }
        }
        return None;
    }
    let c0 = s.get_char(lo);
    let c1 = s.get_char(lo + 1);
    let c2 = s.get_char(lo + 2);
    proof {
        assert(spec_trim(s@)[0] == s@[lo as int]);
        assert(spec_trim(s@)[1] == s@[lo + 1]);
        assert(spec_trim(s@)[2] == s@[lo + 2]);
    }
    let r = if c0 == 'F' && c1 == 'I' && c2 == 'T' {
        Some(OrbitType::Fit)
    } else if c0 == 'E' && c1 == 'X' && c2 == 'T' {
        Some(OrbitType::Ext)
    } else if c0 == 'B' && c1 == 'C' && c2 == 'T' {
        Some(OrbitType::Bct)
    } else if c0 == 'H' && c1 == 'L' && c2 == 'M' {
        Some(OrbitType::Hlm)
    } else {
        None
    };
    proof {
        if r is Some {
            assert(spec_trim(s@) =~= orbit_type_str(r->Some_0));
        } else {
            assert(forall|o: OrbitType| spec_trim(s@) != orbit_type_str(o)) by {
                assert(spec_trim(s@).len() == 3);
            }
        }
    }
    r
}

pub fn orbit_type_name(o: OrbitType) -> (r: &'static str)
    ensures
        r@ == orbit_type_str(o),
{
    let r: &'static str = match o {
        OrbitType::Fit => "FIT",
        OrbitType::Ext => "EXT",
        OrbitType::Bct => "BCT",
        OrbitType::Hlm => "HLM",
    };
    proof {
        reveal_strlit("FIT");
        reveal_strlit("EXT");
        reveal_strlit("BCT");
        reveal_strlit("HLM");
        assert(r@ =~= orbit_type_str(o));
    }
    r
}

/// The satellite constellations named by the format.
#[derive(Debug, Clone, Copy, PartialEq, Eq, Structural)]
pub enum Constellation {
    Gps,
    Glonass,
    Galileo,
    BeiDou,
    Qzss,
    Irnss,
    Sbas,
    Mixed,
}

pub open spec fn constellation_char(c: Constellation) -> char {
    match c {
        Constellation::Gps => 'G',
        Constellation::Glonass => 'R',
        Constellation::Galileo => 'E',
        Constellation::BeiDou => 'C',
        Constellation::Qzss => 'J',
        Constellation::Irnss => 'I',
        Constellation::Sbas => 'S',
        Constellation::Mixed => 'M',
    }
}

/// The constellation a tag character names, if any.
pub open spec fn char_constellation(c: char) -> Option<Constellation> {
    if c == 'G' {
        Some(Constellation::Gps)
    } else if c == 'R' {
        Some(Constellation::Glonass)
    } else if c == 'E' {
        Some(Constellation::Galileo)
    } else if c == 'C' {
        Some(Constellation::BeiDou)
    } else if c == 'J' {
        Some(Constellation::Qzss)
    } else if c == 'I' {
        Some(Constellation::Irnss)
    } else if c == 'S' {
        Some(Constellation::Sbas)
    } else if c == 'M' {
        Some(Constellation::Mixed)
    } else {
        None
    }
}

pub fn constellation_from_char(c: char) -> (r: Option<Constellation>)
    ensures
        r == char_constellation(c),
        r matches Some(v) ==> constellation_char(v) == c,
{
    if c == 'G' {
        Some(Constellation::Gps)
    } else if c == 'R' {
        Some(Constellation::Glonass)
    } else if c == 'E' {
        Some(Constellation::Galileo)
    } else if c == 'C' {
        Some(Constellation::BeiDou)
    } else if c == 'J' {
        Some(Constellation::Qzss)
    } else if c == 'I' {
        Some(Constellation::Irnss)
    } else if c == 'S' {
        Some(Constellation::Sbas)
    } else if c == 'M' {
        Some(Constellation::Mixed)
    } else {
        None
    }
}

/// The time scales a file may declare.
#[derive(Debug, Clone, Copy, PartialEq, Eq, Structural)]
pub enum TimeScale {
    Gpst,
    Glonasst,
    Gst,
    Bdt,
    Qzsst,
    Irnsst,
    Utc,
    Tai,
}

pub open spec fn timescale_str(t: TimeScale) -> Seq<char> {
    match t {
        TimeScale::Gpst => seq!['G', 'P', 'S'],
        TimeScale::Glonasst => seq!['G', 'L', 'O'],
        TimeScale::Gst => seq!['G', 'A', 'L'],
        TimeScale::Bdt => seq!['B', 'D', 'T'],
        TimeScale::Qzsst => seq!['Q', 'Z', 'S'],
        TimeScale::Irnsst => seq!['I', 'R', 'N'],
        TimeScale::Utc => seq!['U', 'T', 'C'],
        TimeScale::Tai => seq!['T', 'A', 'I'],
    }
}

/// Decodes the blank-padded time-scale label.
#[verifier::spinoff_prover]
#[verifier::rlimit(60)]
pub fn timescale_from(s: &str) -> (r: Option<TimeScale>)
    ensures
        r matches Some(t) ==> spec_trim(s@) == timescale_str(t),
        r is None ==> forall|t: TimeScale| spec_trim(s@) != timescale_str(t),
{
    let (lo, hi) = trim_range(s);
    if hi - lo != 3 {
        proof {
            assert forall|t: TimeScale| spec_trim(s@) != timescale_str(t) by {
                assert(timescale_str(t).len() == 3) by {
                    match t {
                        TimeScale::Gpst => {},
                        TimeScale::Glonasst => {},
                        TimeScale::Gst => {},
                        TimeScale::Bdt => {},
                        TimeScale::Qzsst => {},
                        TimeScale::Irnsst => {},
                        TimeScale::Utc => {},
                        TimeScale::Tai => {},
                    }
                }
            }
        }
        return None;
    }
    let c0 = s.get_char(lo);
    let c1 = s.get_char(lo + 1);
    let c2 = s.get_char(lo + 2);
    proof {
        assert(spec_trim(s@)[0] == s@[lo as int]);
        assert(spec_trim(s@)[1] == s@[lo + 1]);
        assert(spec_trim(s@)[2] == s@[lo + 2]);
    }
    let r = if c0 == 'G' && c1 == 'P' && c2 == 'S' {
        Some(TimeScale::Gpst)
    } else if c0 == 'G' && c1 == 'L' && c2 == 'O' {
        Some(TimeScale::Glonasst)
    } else if c0 == 'G' && c1 == 'A' && c2 == 'L' {
        Some(TimeScale::Gst)
    } else if c0 == 'B' && c1 == 'D' && c2 == 'T' {
        Some(TimeScale::Bdt)
    } else if c0 == 'Q' && c1 == 'Z' && c2 == 'S' {
        Some(TimeScale::Qzsst)
    } else if c0 == 'I' && c1 == 'R' && c2 == 'N' {
        Some(TimeScale::Irnsst)
    } else if c0 == 'U' && c1 == 'T' && c2 == 'C' {
        Some(TimeScale::Utc)
    } else if c0 == 'T' && c1 == 'A' && c2 == 'I' {
        Some(TimeScale::Tai)
    } else {
        None
    };
    proof {
        if r is Some {
            assert(spec_trim(s@) =~= timescale_str(r->Some_0));
        } else {
            assert(forall|t: TimeScale| spec_trim(s@) != timescale_str(t)) by {
                assert(spec_trim(s@).len() == 3);
            }
        }
    }
    r
}

pub fn timescale_name(t: TimeScale) -> (r: &'static str)
    ensures
        r@ == timescale_str(t),
{
    let r: &'static str = match t {
        TimeScale::Gpst => "GPS",
        TimeScale::Glonasst => "GLO",
        TimeScale::Gst => "GAL",
        TimeScale::Bdt => "BDT",
        TimeScale::Qzsst => "QZS",
        TimeScale::Irnsst => "IRN",
        TimeScale::Utc => "UTC",
        TimeScale::Tai => "TAI",
    };
    proof {
        reveal_strlit("GPS");
        reveal_strlit("GLO");
        reveal_strlit("GAL");
        reveal_strlit("BDT");
        reveal_strlit("QZS");
        reveal_strlit("IRN");
        reveal_strlit("UTC");
        reveal_strlit("TAI");
        assert(r@ =~= timescale_str(t));
    }
    r
}

/// The three-character labels name their time scales uniquely.
pub proof fn lemma_timescale_str_inj(a: TimeScale, b: TimeScale)
    requires
        timescale_str(a) == timescale_str(b),
    ensures
        a == b,
{
    if a != b {
        assert(timescale_str(a)[0] == timescale_str(b)[0] && timescale_str(a)[1] == timescale_str(
            b,
        )[1] && timescale_str(a)[2] == timescale_str(b)[2]);
    }
}

/// One satellite: a constellation tag and a per-constellation number.
#[derive(Debug, Clone, Copy, PartialEq, Eq, Structural)]
pub struct SV {
    pub constellation: Constellation,
    pub prn: u8,
}

/// A fixed rank for ordering satellites of different constellations.
pub open spec fn constellation_rank(c: Constellation) -> int {
    match c {
        Constellation::Gps => 0,
        Constellation::Glonass => 1,
        Constellation::Galileo => 2,
        Constellation::BeiDou => 3,
        Constellation::Qzss => 4,
        Constellation::Irnss => 5,
        Constellation::Sbas => 6,
        Constellation::Mixed => 7,
    }
}

/// Strict satellite order: by constellation, then by number.
pub open spec fn sv_lt(a: SV, b: SV) -> bool {
    constellation_rank(a.constellation) < constellation_rank(b.constellation)
        || (a.constellation == b.constellation && a.prn < b.prn)
}

fn constellation_rank_exec(c: Constellation) -> (r: u8)
    ensures
        r as int == constellation_rank(c),
{
    match c {
        Constellation::Gps => 0,
        Constellation::Glonass => 1,
        Constellation::Galileo => 2,
        Constellation::BeiDou => 3,
        Constellation::Qzss => 4,
        Constellation::Irnss => 5,
        Constellation::Sbas => 6,
        Constellation::Mixed => 7,
    }
}

pub fn sv_lt_exec(a: &SV, b: &SV) -> (r: bool)
    ensures
        r == sv_lt(*a, *b),
{
    let ra = constellation_rank_exec(a.constellation);
    let rb = constellation_rank_exec(b.constellation);
    proof {
        if ra == rb {
            assert(a.constellation == b.constellation);
        }
    }
    ra < rb || (ra == rb && a.prn < b.prn)
}

/// What a trimmed satellite field denotes: a tag with a two-digit
/// number, or (tolerated for the oldest revision) a bare number read as
/// a GPS satellite.
pub open spec fn sv_parse(t: Seq<char>) -> Option<SV> {
    if t.len() == 3 && char_constellation(t[0]) is Some && is_digit_char(t[1]) && is_digit_char(
        t[2],
    ) {
        Some(
            SV {
                constellation: char_constellation(t[0])->Some_0,
                prn: (digit_val(t[1]) * 10 + digit_val(t[2])) as u8,
            },
        )
    } else if 1 <= t.len() <= 2 && all_digits(t) {
        Some(SV { constellation: Constellation::Gps, prn: digits_val(t) as u8 })
    } else {
        None
    }
}

/// Canonical rendering: tag character and zero-filled two-digit number.
pub open spec fn sv_str(sv: SV) -> Seq<char> {
    seq![constellation_char(sv.constellation)] + pad_left(dec_str(sv.prn as nat), 2, '0')
}

impl SV {
    /// Decodes a satellite identifier field.
    pub fn from_str(s: &str) -> (r: Result<SV, ParsingError>)
        ensures
            r matches Ok(v) ==> sv_parse(spec_trim(s@)) == Some(v),
            r is Err <==> sv_parse(spec_trim(s@)) is None,
            r matches Err(e) ==> (e matches ParsingError::SV(raw) && raw@ == s@),
    {
        let (lo, hi) = trim_range(s);
        let ghost t = spec_trim(s@);
        let n = hi - lo;
        if n == 3 {
            let c0 = s.get_char(lo);
            let c1 = s.get_char(lo + 1);
            let c2 = s.get_char(lo + 2);
            proof {
                assert(t[0] == s@[lo as int]);
                assert(t[1] == s@[lo + 1]);
                assert(t[2] == s@[lo + 2]);
            }
            let cons = constellation_from_char(c0);
            let d1 = c1 as u32;
            let d2 = c2 as u32;
            match cons {
                Some(constellation) if 48 <= d1 && d1 <= 57 && 48 <= d2 && d2 <= 57 => {
                    let prn = ((d1 - 48) * 10 + (d2 - 48)) as u8;
                    Ok(SV { constellation, prn })
                },
                _ => Err(ParsingError::SV(s.to_owned())),
            }
        } else if n >= 1 && n <= 2 {
            let c0 = s.get_char(lo);
            proof {
                assert(t[0] == s@[lo as int]);
                if n == 2 {
                    assert(t[1] == s@[lo + 1]);
                }
            }
            let d1 = c0 as u32;
            if d1 < 48 || d1 > 57 {
                proof {
                    assert(!all_digits(t));
                }
                return Err(ParsingError::SV(s.to_owned()));
            }
            if n == 2 {
                let c1 = s.get_char(lo + 1);
                let d2 = c1 as u32;
                if d2 < 48 || d2 > 57 {
                    proof {
                        assert(!all_digits(t));
                    }
                    return Err(ParsingError::SV(s.to_owned()));
                }
                let prn = ((d1 - 48) * 10 + (d2 - 48)) as u8;
                proof {
                    reveal_with_fuel(digits_val, 4);
                    assert(t.drop_last() =~= seq![t[0]]);
                    assert(seq![t[0]].drop_last() =~= Seq::<char>::empty());
                    assert(digits_val(t) == digit_val(t[0]) * 10 + digit_val(t[1]));
                }
                Ok(SV { constellation: Constellation::Gps, prn })
            } else {
                let prn = (d1 - 48) as u8;
                proof {
                    reveal_with_fuel(digits_val, 3);
                    assert(t.drop_last() =~= Seq::<char>::empty());
                    assert(digits_val(t) == digit_val(t[0]));
                }
                Ok(SV { constellation: Constellation::Gps, prn })
            }
        } else {
            Err(ParsingError::SV(s.to_owned()))
        }
    }
}

/// Writes a satellite identifier in its canonical three-column form.
pub fn fmt_sv(sv: &SV) -> (r: String)
    ensures
        r@ == sv_str(*sv),
{
    let tag: &'static str = match sv.constellation {
        Constellation::Gps => "G",
        Constellation::Glonass => "R",
        Constellation::Galileo => "E",
        Constellation::BeiDou => "C",
        Constellation::Qzss => "J",
        Constellation::Irnss => "I",
        Constellation::Sbas => "S",
        Constellation::Mixed => "M",
    };
    proof {
        reveal_strlit("G");
        reveal_strlit("R");
        reveal_strlit("E");
        reveal_strlit("C");
        reveal_strlit("J");
        reveal_strlit("I");
        reveal_strlit("S");
        reveal_strlit("M");
        assert(tag@ =~= seq![constellation_char(sv.constellation)]);
    }
    let mut out = tag.to_owned();
    let num = crate::num::pad_str(crate::num::fmt_uint(sv.prn as u64), 2, true);
    out.append(num.as_str());
    proof {
        assert(out@ =~= sv_str(*sv));
    }
    out
}

/// A canonically written satellite identifier reads back unchanged.
pub proof fn lemma_sv_round_trip(sv: SV)
    requires
        sv.prn <= 99,
    ensures
        sv_parse(sv_str(sv)) == Some(sv),
{
    let t = sv_str(sv);
    let dstr = dec_str(sv.prn as nat);
    lemma_dec_str(sv.prn as nat);
    assert(sv.prn < 100 && pow10(2) == 100) by {
        reveal_with_fuel(pow10, 3);
    }
    lemma_dec_str_len(sv.prn as nat, 2);
    let num = pad_left(dstr, 2, '0');
    assert(num.len() == 2);
    assert(all_digits(num)) by {
        if dstr.len() < 2 {
            assert(num =~= zeros(1) + dstr);
            lemma_zeros_val(1);
            assert(forall|i: int|
                0 <= i < num.len() ==> is_digit_char(#[trigger] num[i]) == (if i < 1 {
                    is_digit_char(zeros(1)[i])
                } else {
                    is_digit_char(dstr[i - 1])
                }));
        }
    }
    lemma_uint_zero_pad_round_trip(sv.prn as nat, 2, 255);
    assert(!is_space_char(num[0]) && !is_space_char(num[1]));
    assert(t.len() == 3);
    assert(t[0] == constellation_char(sv.constellation));
    assert(char_constellation(t[0]) == Some(sv.constellation)) by {
        match sv.constellation {
            Constellation::Gps => {},
            Constellation::Glonass => {},
            Constellation::Galileo => {},
            Constellation::BeiDou => {},
            Constellation::Qzss => {},
            Constellation::Irnss => {},
            Constellation::Sbas => {},
            Constellation::Mixed => {},
        }
    }
    assert(t[1] == num[0] && t[2] == num[1]);
    lemma_trim_region(num, 0, 2);
    assert(num.subrange(0, 2) =~= num);
    assert(spec_trim(num) == num);
    assert(digits_val(num) == sv.prn);
    assert(num.drop_last() =~= seq![num[0]]);
    assert(seq![num[0]].drop_last() =~= Seq::<char>::empty());
    assert(digits_val(num) == digit_val(num[0]) * 10 + digit_val(num[1])) by {
        reveal_with_fuel(digits_val, 4);
    }
    assert(sv_parse(t) == Some(sv));
}

} // verus!
