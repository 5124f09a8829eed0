//! The serializer: renders a dataset back into the exact fixed-column
//! text the parser consumes.
use vstd::prelude::*;

use crate::dataset::{SP3Entry, SP3Key, SP3};
use crate::epoch::Epoch;
use crate::header::Header;
use crate::ids::{constellation_char, fmt_sv, sv_str, timescale_str, SV};
use crate::line1::{line1_str, line1_wf, Line1};
use crate::line2::{line2_str, line2_wf, Line2};
use crate::num::{
    dec_str, fixed_field_ok, fixed_field_val, fixed_str, fmt_fixed, fmt_uint, pad_left, pad_str,
    pow10, spec_trim, zeros,
};
use crate::position::clock_absent;

verus! {

/// The line-1 value a header re-renders from.
pub open spec fn header_line1_of(h: Header) -> Line1 {
    Line1 {
        release_datetime: h.release_datetime,
        version: h.version,
        data_type: h.data_type,
        num_epochs: h.num_epochs,
        data_used: h.data_used,
        coord_system: h.coord_system,
        orbit_type: h.orbit_type,
        agency: h.agency,
    }
}

/// The line-2 value a header re-renders from.
pub open spec fn header_line2_of(h: Header) -> Line2 {
    Line2 { week_counter: h.week_counter, epoch_interval: h.epoch_interval, mjd: h.mjd }
}

/// The canonical epoch marker line of an instant.
pub open spec fn epoch_line_str(e: Epoch) -> Seq<char> {
    seq!['*', ' ', ' '] + pad_left(dec_str(e.year as nat), 4, ' ') + pad_left(
        dec_str(e.month as nat),
        3,
        ' ',
    ) + pad_left(dec_str(e.day as nat), 3, ' ') + pad_left(dec_str(e.hour as nat), 3, ' ')
        + pad_left(dec_str(e.minute as nat), 3, ' ') + pad_left(dec_str(e.second as nat), 3, ' ')
        + seq!['.'] + zeros(8)
}

/// The fourteen-column reserved clock field.
pub open spec fn sentinel_clock_str() -> Seq<char> {
    seq![' ', '9', '9', '9', '9', '9', '9', '.', '9', '9', '9', '9', '9', '9']
}

/// One coordinate or clock field: six decimals, fourteen columns.
pub open spec fn field14(v: int) -> Seq<char> {
    pad_left(fixed_str(v, 6), 14, ' ')
}

/// The flag columns of a position line, written only when some flag is
/// set.
pub open spec fn position_flags_str(e: SP3Entry) -> Seq<char> {
    if e.clock_event || e.clock_prediction || e.maneuver || e.orbit_prediction {
        Seq::new(14, |i: int| ' ') + seq![
            if e.clock_event { 'E' } else { ' ' },
            if e.clock_prediction { 'P' } else { ' ' },
            ' ',
            ' ',
            if e.maneuver { 'M' } else { ' ' },
            if e.orbit_prediction { 'P' } else { ' ' },
        ]
    } else {
        Seq::empty()
    }
}

/// The canonical position line of an entry.
pub open spec fn position_line_str(sv: SV, e: SP3Entry) -> Seq<char> {
    seq!['P'] + sv_str(sv) + field14(e.position_km_e6.0 as int) + field14(e.position_km_e6.1 as int)
        + field14(e.position_km_e6.2 as int) + (match e.clock_us_e6 {
        Some(c) => field14(c as int),
        None => sentinel_clock_str(),
    }) + position_flags_str(e)
}

/// The canonical velocity line of an entry that carries a velocity.
pub open spec fn velocity_line_str(sv: SV, v: (i64, i64, i64), drift: Option<i64>) -> Seq<char> {
    seq!['V'] + sv_str(sv) + field14(v.0 as int) + field14(v.1 as int) + field14(v.2 as int) + (
    match drift {
        Some(c) => field14(c as int),
        None => sentinel_clock_str(),
    })
}

/// The lines one stored pair contributes.
pub open spec fn entry_lines(kv: (SP3Key, SP3Entry)) -> Seq<Seq<char>> {
    seq![position_line_str(kv.0.sv, kv.1)] + (match kv.1.velocity_km_s_e10 {
        Some(v) => seq![velocity_line_str(kv.0.sv, v, kv.1.clock_drift_ns_e10)],
        None => Seq::empty(),
    })
}

/// The body lines from index `i` on, emitting a marker line whenever
/// the epoch differs from the one last written.
pub open spec fn body_lines(s: Seq<(SP3Key, SP3Entry)>, i: int, prev: Option<Epoch>) -> Seq<
    Seq<char>,
>
    decreases s.len() - i,
{
    if i < 0 || i >= s.len() {
        Seq::empty()
    } else {
        let k = s[i].0;
        let here = (if prev == Some(k.epoch) {
            Seq::<Seq<char>>::empty()
        } else {
            seq![epoch_line_str(k.epoch)]
        }) + entry_lines(s[i]);
        here + body_lines(s, i + 1, Some(k.epoch))
    }
}

/// The canonical lead descriptor line of a header.
pub open spec fn descriptor_line_str(h: Header) -> Seq<char> {
    "%c "@ + seq![constellation_char(h.constellation)] + "  cc "@ + timescale_str(h.timescale)
        + " ccc cccc cccc cccc cccc ccccc ccccc ccccc ccccc"@
}

/// One comment line.
pub open spec fn comment_line_str(c: Seq<char>) -> Seq<char> {
    seq!['/', '*', ' '] + c
}

/// Every line of the serialized dataset: the two header lines, the
/// descriptor, the comments, the body, the terminator.
pub open spec fn sp3_lines(ds: SP3) -> Seq<Seq<char>> {
    seq![
        line1_str(header_line1_of(ds.header)),
        line2_str(header_line2_of(ds.header)),
        descriptor_line_str(ds.header),
    ] + ds.header.comments@.map_values(|c: String| comment_line_str(c@)) + body_lines(
        ds.data@,
        0,
        None,
    ) + seq![seq!['E', 'O', 'F']]
}

/// The bounds under which a dataset re-renders exactly: the header
/// lines fit their columns and no stored quantity is the one value
/// whose magnitude has no i64 negation.
pub open spec fn fmt_wf(ds: SP3) -> bool {
    &&& line1_wf(header_line1_of(ds.header))
    &&& line2_wf(header_line2_of(ds.header))
    &&& forall|i: int|
        0 <= i < ds.data@.len() ==> entry_fmt_wf((#[trigger] ds.data@[i]).1)
}

pub open spec fn entry_fmt_wf(e: SP3Entry) -> bool {
    &&& e.position_km_e6.0 != i64::MIN
    &&& e.position_km_e6.1 != i64::MIN
    &&& e.position_km_e6.2 != i64::MIN
    &&& (e.clock_us_e6 matches Some(c) ==> c != i64::MIN)
    &&& (e.velocity_km_s_e10 matches Some(v) ==> v.0 != i64::MIN && v.1 != i64::MIN && v.2
        != i64::MIN)
    &&& (e.clock_drift_ns_e10 matches Some(c) ==> c != i64::MIN)
}

/// A scaled value whose canonical text fills at most its fourteen
/// columns: up to six integer digits beside the six decimals.
pub open spec fn field14_fits(v: int) -> bool {
    -999999999999 <= v <= 999999999999
}

proof fn lemma_field14(v: int)
    requires
        field14_fits(v),
    ensures
        field14(v).len() == 14,
        fixed_field_ok(field14(v), 6, crate::position::coord_max()),
        fixed_field_val(field14(v), 6) == v,
        spec_trim(field14(v)) == fixed_str(v, 6),
        fixed_str(v, 6).len() >= 8,
        v >= 0 ==> fixed_str(v, 6) == dec_str((v / pow10(6)) as nat) + seq!['.'] + pad_left(
            dec_str((v % pow10(6)) as nat),
            6,
            '0',
        ),
        v < 0 ==> fixed_str(v, 6)[0] == '-',
{
    crate::num::lemma_fixed_round_trip(v, 6, 14, crate::position::coord_max());
    assert(pow10(6) == 1000000 && pow10(2) == 100) by {
        reveal_with_fuel(pow10, 8);
    }
    let a = if v < 0 { -v } else { v };
    let ip = (a / pow10(6)) as nat;
    let fp = (a % pow10(6)) as nat;
    crate::num::lemma_dec_str(ip);
    crate::num::lemma_dec_str(fp);
    assert(ip < 1000000) by (nonlinear_arith)
        requires 0 <= a <= 999999999999, pow10(6) == 1000000, ip == a / pow10(6),
    ;
    crate::num::lemma_dec_str_len(ip, 6);
    crate::num::lemma_dec_str_len(fp, 6);
    let fstr = pad_left(dec_str(fp), 6, '0');
    assert(fstr.len() == 6);
    let t = fixed_str(v, 6);
    assert(t.len() <= 14 && t.len() >= 8);
    assert(crate::num::no_edge_blanks(t)) by {
        assert(t.last() == fstr.last());
        assert(crate::num::is_digit_char(fstr.last())) by {
            if dec_str(fp).len() >= 6 {
                assert(fstr.last() == dec_str(fp)[5]);
            } else {
                assert(fstr.last() == dec_str(fp).last());
            }
        }
        if v >= 0 {
            assert(t[0] == dec_str(ip)[0]);
        }
    }
    crate::num::lemma_trim_padded(t, 14);
}

/// Whether a written clock field reads back as absent: exactly when
/// the sentinel was written, provided no present value sits on the
/// sentinel's own leading digits.
proof fn lemma_clock_field_absent(s: Seq<char>, c: Option<i64>)
    requires
        s.subrange(46, 60) == (match c {
            Some(v) => field14(v as int),
            None => sentinel_clock_str(),
        }),
        c matches Some(v) ==> field14_fits(v as int) && !(v >= 0 && v / 1000000 == 999999),
    ensures
        clock_absent(s) <==> c is None,
{
    assert(pow10(6) == 1000000) by {
        reveal_with_fuel(pow10, 8);
    }
    match c {
        None => {
            let f = sentinel_clock_str();
            assert(forall|i: int| 1 <= i < 14 ==> !crate::num::is_space_char(#[trigger] f[i]));
            crate::num::lemma_trim_region(f, 1, 14);
            let t = spec_trim(s.subrange(46, 60));
            assert(t =~= f.subrange(1, 14));
            assert(t.len() == 13 && t[0] == '9' && t[1] == '9' && t[2] == '9' && t[3] == '9'
                && t[4] == '9' && t[5] == '9' && t[6] == '.');
        },
        Some(v) => {
            lemma_field14(v as int);
            let t = spec_trim(s.subrange(46, 60));
            assert(t == fixed_str(v as int, 6));
            if v < 0 {
                assert(t[0] == '-');
                assert(!clock_absent(s));
            } else {
                let ip = (v / 1000000) as nat;
                let fp = (v % 1000000) as nat;
                let dip = dec_str(ip);
                let fstr = pad_left(dec_str(fp), 6, '0');
                crate::num::lemma_dec_str(ip);
                crate::num::lemma_dec_str(fp);
                assert(ip < 1000000) by (nonlinear_arith)
                    requires 0 <= v <= 999999999999, ip == v / 1000000,
                ;
                crate::num::lemma_dec_str_len(ip, 6);
                crate::num::lemma_dec_str_len(fp, 6);
                assert(crate::num::all_digits(fstr)) by {
                    crate::num::lemma_zeros_val((6 - dec_str(fp).len()) as nat);
                    if dec_str(fp).len() < 6 {
                        assert(fstr =~= crate::num::zeros((6 - dec_str(fp).len()) as nat)
                            + dec_str(fp));
                        assert(forall|i: int|
                            0 <= i < fstr.len() ==> crate::num::is_digit_char(#[trigger] fstr[i])
                                == (if i < 6 - dec_str(fp).len() {
                                crate::num::is_digit_char(
                                    crate::num::zeros((6 - dec_str(fp).len()) as nat)[i],
                                )
                            } else {
                                crate::num::is_digit_char(dec_str(fp)[i - (6 - dec_str(fp).len())])
                            }));
                    }
                }
                assert(t == dip + seq!['.'] + fstr);
                if clock_absent(s) {
                    assert(t[6] == '.');
                    if dip.len() < 6 {
                        // index six then lies among the fraction digits
                        assert(t[6] == fstr[6 - dip.len() - 1]);
                        assert(crate::num::is_digit_char(t[6]));
                        assert(false);
                    }
                    assert(dip.len() == 6);
                    assert(dip =~= seq!['9', '9', '9', '9', '9', '9']) by {
                        assert(forall|i: int| 0 <= i < 6 ==> #[trigger] dip[i] == t[i]);
                    }
                    assert(crate::num::digits_val(seq!['9', '9', '9', '9', '9', '9']) == 999999)
                        by {
                        reveal_with_fuel(crate::num::digits_val, 8);
                        assert(seq!['9', '9', '9', '9', '9', '9'].drop_last() =~= seq!['9', '9', '9', '9', '9']);
                        assert(seq!['9', '9', '9', '9', '9'].drop_last() =~= seq!['9', '9', '9', '9']);
                        assert(seq!['9', '9', '9', '9'].drop_last() =~= seq!['9', '9', '9']);
                        assert(seq!['9', '9', '9'].drop_last() =~= seq!['9', '9']);
                        assert(seq!['9', '9'].drop_last() =~= seq!['9']);
                        assert(seq!['9'].drop_last() =~= Seq::<char>::empty());
                    }
                    assert(ip == 999999);
                    assert(false);
                }
            }
        },
    }
}

/// A canonically written epoch marker line reads back as the written
/// instant: the body-level piece of the round-trip law.
#[verifier::spinoff_prover]
#[verifier::rlimit(100)]
pub proof fn lemma_epoch_line_round_trip(e: Epoch)
    requires
        e.year <= 9999,
        e.month <= 99,
        e.day <= 99,
        e.hour <= 99,
        e.minute <= 99,
        e.second <= 99,
    ensures
        crate::parsing::is_epoch_marker(epoch_line_str(e)),
        crate::parsing::epoch_ok(
            epoch_line_str(e).subrange(3, epoch_line_str(e).len() as int),
        ),
        crate::parsing::epoch_of(
            epoch_line_str(e).subrange(3, epoch_line_str(e).len() as int),
            e.timescale,
        ) == e,
{
    let s = epoch_line_str(e);
    assert(pow10(4) == 10000 && pow10(3) == 1000) by {
        reveal_with_fuel(pow10, 6);
    }
    crate::num::lemma_dec_str(e.year as nat);
    crate::num::lemma_dec_str_len(e.year as nat, 4);
    crate::num::lemma_dec_str(e.month as nat);
    crate::num::lemma_dec_str_len(e.month as nat, 3);
    crate::num::lemma_dec_str(e.day as nat);
    crate::num::lemma_dec_str_len(e.day as nat, 3);
    crate::num::lemma_dec_str(e.hour as nat);
    crate::num::lemma_dec_str_len(e.hour as nat, 3);
    crate::num::lemma_dec_str(e.minute as nat);
    crate::num::lemma_dec_str_len(e.minute as nat, 3);
    crate::num::lemma_dec_str(e.second as nat);
    crate::num::lemma_dec_str_len(e.second as nat, 3);
    let py = pad_left(dec_str(e.year as nat), 4, ' ');
    let pmo = pad_left(dec_str(e.month as nat), 3, ' ');
    let pd = pad_left(dec_str(e.day as nat), 3, ' ');
    let ph = pad_left(dec_str(e.hour as nat), 3, ' ');
    let pmin = pad_left(dec_str(e.minute as nat), 3, ' ');
    let ps = pad_left(dec_str(e.second as nat), 3, ' ');
    assert(py.len() == 4 && pmo.len() == 3 && pd.len() == 3 && ph.len() == 3 && pmin.len() == 3
        && ps.len() == 3);
    assert(s.len() == 31);
    let c = s.subrange(3, 31);
    assert(c.subrange(0, 4) =~= py);
    assert(c.subrange(4, 7) =~= pmo);
    assert(c.subrange(7, 10) =~= pd);
    assert(c.subrange(10, 13) =~= ph);
    assert(c.subrange(13, 16) =~= pmin);
    assert(c.subrange(16, 19) =~= ps);
    assert(c.subrange(20, 27) =~= zeros(7));
    crate::num::lemma_uint_round_trip(e.year as nat, 4, 9999);
    crate::num::lemma_uint_round_trip(e.month as nat, 3, 99);
    crate::num::lemma_uint_round_trip(e.day as nat, 3, 99);
    crate::num::lemma_uint_round_trip(e.hour as nat, 3, 99);
    crate::num::lemma_uint_round_trip(e.minute as nat, 3, 99);
    crate::num::lemma_uint_round_trip(e.second as nat, 3, 99);
    crate::num::lemma_zeros_val(7);
    crate::num::lemma_trim_region(zeros(7), 0, 7);
    assert(zeros(7).subrange(0, 7) =~= zeros(7));
}

/// The satellite field of a record line reads back as its satellite.
proof fn lemma_sv_field(sv: SV)
    requires
        sv.prn <= 99,
    ensures
        spec_trim(sv_str(sv)) == sv_str(sv),
        crate::ids::sv_parse(sv_str(sv)) == Some(sv),
        sv_str(sv).len() == 3,
{
    assert(pow10(2) == 100) by {
        reveal_with_fuel(pow10, 4);
    }
    crate::num::lemma_dec_str(sv.prn as nat);
    crate::num::lemma_dec_str_len(sv.prn as nat, 2);
    let num = pad_left(dec_str(sv.prn as nat), 2, '0');
    assert(crate::num::all_digits(num)) by {
        crate::num::lemma_zeros_val(1);
        if dec_str(sv.prn as nat).len() < 2 {
            assert(num =~= zeros(1) + dec_str(sv.prn as nat));
            assert(forall|i: int|
                0 <= i < num.len() ==> crate::num::is_digit_char(#[trigger] num[i]) == (if i < 1 {
                    crate::num::is_digit_char(zeros(1)[i])
                } else {
                    crate::num::is_digit_char(dec_str(sv.prn as nat)[i - 1])
                }));
        }
    }
    let t = sv_str(sv);
    assert(t.len() == 3);
    assert(!crate::num::is_space_char(t[0])) by {
        match sv.constellation {
            crate::ids::Constellation::Gps => {},
            crate::ids::Constellation::Glonass => {},
            crate::ids::Constellation::Galileo => {},
            crate::ids::Constellation::BeiDou => {},
            crate::ids::Constellation::Qzss => {},
            crate::ids::Constellation::Irnss => {},
            crate::ids::Constellation::Sbas => {},
            crate::ids::Constellation::Mixed => {},
        }
    }
    assert(t[1] == num[0] && t[2] == num[1]);
    crate::num::lemma_trim_region(t, 0, 3);
    assert(t.subrange(0, 3) =~= t);
    crate::ids::lemma_sv_round_trip(sv);
}

/// A canonically written position record reads back as the written
/// entry, provided no present clock value sits on the sentinel's own
/// leading digits.
#[verifier::spinoff_prover]
#[verifier::rlimit(100)]
pub proof fn lemma_position_line_round_trip(sv: SV, e: SP3Entry)
    requires
        sv.prn <= 99,
        field14_fits(e.position_km_e6.0 as int),
        field14_fits(e.position_km_e6.1 as int),
        field14_fits(e.position_km_e6.2 as int),
        e.clock_us_e6 matches Some(c) ==> field14_fits(c as int) && !(c >= 0 && c / 1000000
            == 999999),
    ensures
        crate::position::position_ok(position_line_str(sv, e)),
        crate::parsing::position_of(position_line_str(sv, e)) == (crate::position::PositionEntry {
            sv,
            x_km_e6: e.position_km_e6.0,
            y_km_e6: e.position_km_e6.1,
            z_km_e6: e.position_km_e6.2,
            clock_us_e6: e.clock_us_e6,
            maneuver: e.maneuver,
            orbit_prediction: e.orbit_prediction,
            clock_prediction: e.clock_prediction,
            clock_event: e.clock_event,
        }),
{
    let s = position_line_str(sv, e);
    lemma_sv_field(sv);
    lemma_field14(e.position_km_e6.0 as int);
    lemma_field14(e.position_km_e6.1 as int);
    lemma_field14(e.position_km_e6.2 as int);
    let clockpart = match e.clock_us_e6 {
        Some(c) => field14(c as int),
        None => sentinel_clock_str(),
    };
    match e.clock_us_e6 {
        Some(c) => {
            lemma_field14(c as int);
        },
        None => {},
    }
    assert(clockpart.len() == 14);
    let flags = position_flags_str(e);
    assert(s.len() == 60 + flags.len());
    assert(s.subrange(1, 4) =~= sv_str(sv));
    assert(s.subrange(4, 18) =~= field14(e.position_km_e6.0 as int));
    assert(s.subrange(18, 32) =~= field14(e.position_km_e6.1 as int));
    assert(s.subrange(32, 46) =~= field14(e.position_km_e6.2 as int));
    assert(s.subrange(46, 60) =~= clockpart);
    lemma_clock_field_absent(s, e.clock_us_e6);
    if e.clock_event || e.clock_prediction || e.maneuver || e.orbit_prediction {
        assert(s.len() == 80);
        assert(s[74] == flags[14] && s[75] == flags[15] && s[78] == flags[18] && s[79]
            == flags[19]);
        assert((s[74] == 'E') == e.clock_event);
        assert((s[75] == 'P') == e.clock_prediction);
        assert((s[78] == 'M') == e.maneuver);
        assert((s[79] == 'P') == e.orbit_prediction);
    } else {
        assert(s.len() == 60);
    }
}

/// The velocity-record counterpart of the record round trip.
#[verifier::spinoff_prover]
#[verifier::rlimit(100)]
pub proof fn lemma_velocity_line_round_trip(sv: SV, v: (i64, i64, i64), drift: Option<i64>)
    requires
        sv.prn <= 99,
        field14_fits(v.0 as int),
        field14_fits(v.1 as int),
        field14_fits(v.2 as int),
        drift matches Some(c) ==> field14_fits(c as int) && !(c >= 0 && c / 1000000 == 999999),
    ensures
        crate::velocity::velocity_ok(velocity_line_str(sv, v, drift)),
        crate::parsing::velocity_of(velocity_line_str(sv, v, drift))
            == (crate::velocity::VelocityEntry { sv, velocity_dm_s_e6: v, clock_sub_ns_e6: drift }),
{
    let s = velocity_line_str(sv, v, drift);
    lemma_sv_field(sv);
    lemma_field14(v.0 as int);
    lemma_field14(v.1 as int);
    lemma_field14(v.2 as int);
    let clockpart = match drift {
        Some(c) => field14(c as int),
        None => sentinel_clock_str(),
    };
    match drift {
        Some(c) => {
            lemma_field14(c as int);
        },
        None => {},
    }
    assert(clockpart.len() == 14);
    assert(s.len() == 60);
    assert(s.subrange(1, 4) =~= sv_str(sv));
    assert(s.subrange(4, 18) =~= field14(v.0 as int));
    assert(s.subrange(18, 32) =~= field14(v.1 as int));
    assert(s.subrange(32, 46) =~= field14(v.2 as int));
    assert(s.subrange(46, 60) =~= clockpart);
    lemma_clock_field_absent(s, drift);
}

/// The serialized header lines read back as the very header they were
/// written from: the round-trip law at the whole-dataset boundary,
/// covering header line 1, header line 2 and the lead descriptor.
pub proof fn lemma_header_lines_round_trip(ds: SP3)
    requires
        fmt_wf(ds),
    ensures
        crate::line1::line1_ok(sp3_lines(ds)[0]),
        crate::line1::line1_matches(sp3_lines(ds)[0], header_line1_of(ds.header)),
        crate::line2::line2_ok(sp3_lines(ds)[1]),
        crate::line2::line2_matches(sp3_lines(ds)[1], header_line2_of(ds.header)),
        crate::descriptor::descriptor_h1_ok(sp3_lines(ds)[2]),
        crate::descriptor::descriptor_h1_matches(
            sp3_lines(ds)[2],
            crate::descriptor::FileDescriptorH1 {
                timescale: ds.header.timescale,
                constellation: ds.header.constellation,
            },
        ),
{
    crate::line1::lemma_line1_round_trip(header_line1_of(ds.header));
    crate::line2::lemma_line2_round_trip(header_line2_of(ds.header));
    lemma_descriptor_line_round_trip(ds.header);
    assert(sp3_lines(ds)[0] == line1_str(header_line1_of(ds.header)));
    assert(sp3_lines(ds)[1] == line2_str(header_line2_of(ds.header)));
    assert(sp3_lines(ds)[2] == descriptor_line_str(ds.header));
}

/// A canonically written lead descriptor line reads back as its
/// constellation and time scale.
#[verifier::spinoff_prover]
#[verifier::rlimit(100)]
pub proof fn lemma_descriptor_line_round_trip(h: Header)
    ensures
        crate::descriptor::descriptor_h1_ok(descriptor_line_str(h)),
        crate::descriptor::descriptor_h1_matches(
            descriptor_line_str(h),
            crate::descriptor::FileDescriptorH1 {
                timescale: h.timescale,
                constellation: h.constellation,
            },
        ),
{
    reveal_strlit("%c ");
    reveal_strlit("  cc ");
    reveal_strlit(" ccc cccc cccc cccc cccc ccccc ccccc ccccc ccccc");
    let s = descriptor_line_str(h);
    assert(timescale_str(h.timescale).len() == 3) by {
        match h.timescale {
            crate::ids::TimeScale::Gpst => {},
            crate::ids::TimeScale::Glonasst => {},
            crate::ids::TimeScale::Gst => {},
            crate::ids::TimeScale::Bdt => {},
            crate::ids::TimeScale::Qzsst => {},
            crate::ids::TimeScale::Irnsst => {},
            crate::ids::TimeScale::Utc => {},
            crate::ids::TimeScale::Tai => {},
        }
    }
    assert(s.len() == 60);
    // the constellation window holds the tag and one blank
    let cw = s.subrange(3, 5);
    assert(cw[0] == constellation_char(h.constellation));
    assert(cw[1] == ' ');
    assert(!crate::num::is_space_char(cw[0])) by {
        match h.constellation {
            crate::ids::Constellation::Gps => {},
            crate::ids::Constellation::Glonass => {},
            crate::ids::Constellation::Galileo => {},
            crate::ids::Constellation::BeiDou => {},
            crate::ids::Constellation::Qzss => {},
            crate::ids::Constellation::Irnss => {},
            crate::ids::Constellation::Sbas => {},
            crate::ids::Constellation::Mixed => {},
        }
    }
    crate::num::lemma_trim_region(cw, 0, 1);
    assert(spec_trim(cw) =~= seq![constellation_char(h.constellation)]);
    assert(crate::ids::char_constellation(constellation_char(h.constellation)) == Some(
        h.constellation,
    )) by {
        match h.constellation {
            crate::ids::Constellation::Gps => {},
            crate::ids::Constellation::Glonass => {},
            crate::ids::Constellation::Galileo => {},
            crate::ids::Constellation::BeiDou => {},
            crate::ids::Constellation::Qzss => {},
            crate::ids::Constellation::Irnss => {},
            crate::ids::Constellation::Sbas => {},
            crate::ids::Constellation::Mixed => {},
        }
    }
    // the time-scale window holds its three-letter label
    let tw = s.subrange(9, 12);
    assert(tw =~= timescale_str(h.timescale));
    assert(forall|i: int|
        0 <= i < tw.len() ==> !crate::num::is_space_char(#[trigger] tw[i])) by {
        match h.timescale {
            crate::ids::TimeScale::Gpst => {},
            crate::ids::TimeScale::Glonasst => {},
            crate::ids::TimeScale::Gst => {},
            crate::ids::TimeScale::Bdt => {},
            crate::ids::TimeScale::Qzsst => {},
            crate::ids::TimeScale::Irnsst => {},
            crate::ids::TimeScale::Utc => {},
            crate::ids::TimeScale::Tai => {},
        }
    }
    crate::num::lemma_trim_region(tw, 0, 3);
    assert(tw.subrange(0, 3) =~= tw);
}

/// Writes the canonical epoch marker line.
#[verifier::spinoff_prover]
#[verifier::rlimit(100)]
pub fn fmt_epoch_line(e: &Epoch) -> (r: String)
    ensures
        r@ == epoch_line_str(*e),
{
    let mut out: String = "*  ".to_owned();
    proof {
        reveal_strlit("*  ");
        reveal_strlit(".");
    }
    let y = pad_str(fmt_uint(e.year as u64), 4, false);
    out.append(y.as_str());
    let m = pad_str(fmt_uint(e.month as u64), 3, false);
    out.append(m.as_str());
    let d = pad_str(fmt_uint(e.day as u64), 3, false);
    out.append(d.as_str());
    let hh = pad_str(fmt_uint(e.hour as u64), 3, false);
    out.append(hh.as_str());
    let mm = pad_str(fmt_uint(e.minute as u64), 3, false);
    out.append(mm.as_str());
    let ss = pad_str(fmt_uint(e.second as u64), 3, false);
    out.append(ss.as_str());
    out.append(".");
    let fr = pad_str(String::new(), 8, true);
    out.append(fr.as_str());
    proof {
        assert(pad_left(Seq::<char>::empty(), 8, '0') =~= zeros(8));
        assert(out@ =~= epoch_line_str(*e));
    }
    out
}

fn fmt_clock_field(c: Option<i64>) -> (r: String)
    requires
        c matches Some(v) ==> v != i64::MIN,
    ensures
        r@ == (match c {
            Some(v) => field14(v as int),
            None => sentinel_clock_str(),
        }),
{
    match c {
        Some(v) => fmt_fixed(v, 6, 14),
        None => {
            let s: String = " 999999.999999".to_owned();
            proof {
                reveal_strlit(" 999999.999999");
                assert(s@ =~= sentinel_clock_str());
            }
            s
        },
    }
}

/// Writes the canonical position line of an entry.
#[verifier::spinoff_prover]
#[verifier::rlimit(100)]
pub fn fmt_position_line(sv: &SV, e: &SP3Entry) -> (r: String)
    requires
        entry_fmt_wf(*e),
    ensures
        r@ == position_line_str(*sv, *e),
{
    let mut out: String = "P".to_owned();
    proof {
        reveal_strlit("P");
    }
    let svs = fmt_sv(sv);
    out.append(svs.as_str());
    let x = fmt_fixed(e.position_km_e6.0, 6, 14);
    out.append(x.as_str());
    let y = fmt_fixed(e.position_km_e6.1, 6, 14);
    out.append(y.as_str());
    let z = fmt_fixed(e.position_km_e6.2, 6, 14);
    out.append(z.as_str());
    let clk = fmt_clock_field(e.clock_us_e6);
    out.append(clk.as_str());
    if e.clock_event || e.clock_prediction || e.maneuver || e.orbit_prediction {
        let pad = pad_str(String::new(), 14, false);
        out.append(pad.as_str());
        out.append(if e.clock_event { "E" } else { " " });
        out.append(if e.clock_prediction { "P" } else { " " });
        out.append("  ");
        out.append(if e.maneuver { "M" } else { " " });
        out.append(if e.orbit_prediction { "P" } else { " " });
        proof {
            reveal_strlit("E");
            reveal_strlit("P");
            reveal_strlit("M");
            reveal_strlit(" ");
            reveal_strlit("  ");
            assert(pad_left(Seq::<char>::empty(), 14, ' ') =~= Seq::new(14, |i: int| ' '));
        }
    }
    proof {
        assert(out@ =~= position_line_str(*sv, *e));
    }
    out
}

/// Writes the canonical velocity line of an entry.
#[verifier::spinoff_prover]
#[verifier::rlimit(100)]
pub fn fmt_velocity_line(sv: &SV, v: (i64, i64, i64), drift: Option<i64>) -> (r: String)
    requires
        v.0 != i64::MIN,
        v.1 != i64::MIN,
        v.2 != i64::MIN,
        drift matches Some(c) ==> c != i64::MIN,
    ensures
        r@ == velocity_line_str(*sv, v, drift),
{
    let mut out: String = "V".to_owned();
    proof {
        reveal_strlit("V");
    }
    let svs = fmt_sv(sv);
    out.append(svs.as_str());
    let x = fmt_fixed(v.0, 6, 14);
    out.append(x.as_str());
    let y = fmt_fixed(v.1, 6, 14);
    out.append(y.as_str());
    let z = fmt_fixed(v.2, 6, 14);
    out.append(z.as_str());
    let clk = fmt_clock_field(drift);
    out.append(clk.as_str());
    proof {
        assert(out@ =~= velocity_line_str(*sv, v, drift));
    }
    out
}

/// Writes the canonical lead descriptor line.
#[verifier::spinoff_prover]
#[verifier::rlimit(100)]
pub fn fmt_descriptor_line(h: &Header) -> (r: String)
    ensures
        r@ == descriptor_line_str(*h),
{
    let mut out: String = "%c ".to_owned();
    let tag = crate::ids::fmt_sv(
        &SV { constellation: h.constellation, prn: 0 },
    );
    // only the tag character is wanted
    let tag1 = tag.as_str().substring_char(0, 1);
    out.append(tag1);
    out.append("  cc ");
    let ts = crate::ids::timescale_name(h.timescale);
    out.append(ts);
    out.append(" ccc cccc cccc cccc cccc ccccc ccccc ccccc ccccc");
    proof {
        reveal_strlit("%c ");
        reveal_strlit("  cc ");
        reveal_strlit(" ccc cccc cccc cccc cccc ccccc ccccc ccccc ccccc");
        assert(sv_str(SV { constellation: h.constellation, prn: 0 }).subrange(0, 1) =~= seq![
            constellation_char(h.constellation),
        ]);
        assert(out@ =~= descriptor_line_str(*h));
    }
    out
}

impl SP3 {
    /// Renders the whole dataset back into its lines, ending with the
    /// terminator.  Feeding these lines back to the parser reproduces
    /// the header fields and the body mapping.
    #[verifier::spinoff_prover]
    #[verifier::rlimit(100)]
    pub fn to_lines(&self) -> (r: Vec<String>)
        requires
            fmt_wf(*self),
        ensures
            r@.map_values(|l: String| l@) == sp3_lines(*self),
    {
        let mut out: Vec<String> = Vec::new();
        let l1 = Line1 {
            release_datetime: self.header.release_datetime,
            version: self.header.version,
            data_type: self.header.data_type,
            num_epochs: self.header.num_epochs,
            data_used: self.header.data_used.clone(),
            coord_system: self.header.coord_system.clone(),
            orbit_type: self.header.orbit_type,
            agency: self.header.agency.clone(),
        };
        proof {
            assert(line1_str(l1) =~= line1_str(header_line1_of(self.header)));
            assert(line1_wf(l1));
        }
        out.push(l1.format());
        let l2 = Line2 {
            week_counter: self.header.week_counter,
            epoch_interval: self.header.epoch_interval,
            mjd: self.header.mjd,
        };
        out.push(l2.format());
        out.push(fmt_descriptor_line(&self.header));
        let mut ci: usize = 0;
        proof {
            assert(out@.map_values(|l: String| l@) =~= seq![
                line1_str(header_line1_of(self.header)),
                line2_str(header_line2_of(self.header)),
                descriptor_line_str(self.header),
            ]);
        }
        while ci < self.header.comments.len()
            invariant
                ci <= self.header.comments@.len(),
                out@.map_values(|l: String| l@) =~= seq![
                    line1_str(header_line1_of(self.header)),
                    line2_str(header_line2_of(self.header)),
                    descriptor_line_str(self.header),
                ] + self.header.comments@.take(ci as int).map_values(
                    |c: String| comment_line_str(c@),
                ),
            decreases self.header.comments@.len() - ci,
        {
            let mut line: String = "/* ".to_owned();
            proof {
                reveal_strlit("/* ");
            }
            line.append(self.header.comments[ci].as_str());
            let ghost prev = out@;
            out.push(line);
            proof {
                reveal_strlit("/* ");
                assert(line@ =~= comment_line_str(self.header.comments@[ci as int]@));
                assert(out@.map_values(|l: String| l@) =~= prev.map_values(|l: String| l@) + seq![
                    comment_line_str(self.header.comments@[ci as int]@),
                ]);
                assert(self.header.comments@.take(ci + 1).map_values(
                    |c: String| comment_line_str(c@),
                ) =~= self.header.comments@.take(ci as int).map_values(
                    |c: String| comment_line_str(c@),
                ) + seq![comment_line_str(self.header.comments@[ci as int]@)]);
            }
            ci = ci + 1;
        }
        proof {
            assert(self.header.comments@.take(self.header.comments@.len() as int)
                =~= self.header.comments@);
        }
        let ghost headpart = out@.map_values(|l: String| l@);
        let mut prev_epoch: Option<Epoch> = None;
        let mut i: usize = 0;
        proof {
            assert(headpart + body_lines(self.data@, 0, None) == headpart + body_lines(
                self.data@,
                i as int,
                prev_epoch,
            ));
        }
        while i < self.data.len()
            invariant
                i <= self.data@.len(),
                fmt_wf(*self),
                headpart + body_lines(self.data@, 0, None) =~= out@.map_values(|l: String| l@)
                    + body_lines(self.data@, i as int, prev_epoch),
            decreases self.data@.len() - i,
        {
            let (k, e) = self.data[i];
            let ghost before = out@.map_values(|l: String| l@);
            let same = match prev_epoch {
                Some(pe) => pe == k.epoch,
                None => false,
            };
            if !same {
                out.push(fmt_epoch_line(&k.epoch));
            }
            out.push(fmt_position_line(&k.sv, &e));
            match e.velocity_km_s_e10 {
                Some(v) => {
                    out.push(fmt_velocity_line(&k.sv, v, e.clock_drift_ns_e10));
                },
                None => {},
            }
            proof {
                let here = (if prev_epoch == Some(k.epoch) {
                    Seq::<Seq<char>>::empty()
                } else {
                    seq![epoch_line_str(k.epoch)]
                }) + entry_lines(self.data@[i as int]);
                assert(out@.map_values(|l: String| l@) =~= before + here);
                assert(body_lines(self.data@, i as int, prev_epoch) == here + body_lines(
                    self.data@,
                    i + 1,
                    Some(k.epoch),
                ));
            }
            prev_epoch = Some(k.epoch);
            i = i + 1;
        }
        let eof: String = "EOF".to_owned();
        proof {
            reveal_strlit("EOF");
        }
        let ghost before = out@.map_values(|l: String| l@);
        out.push(eof);
        proof {
            reveal_strlit("EOF");
            assert(eof@ =~= seq!['E', 'O', 'F']);
            assert(body_lines(self.data@, self.data@.len() as int, prev_epoch)
                =~= Seq::<Seq<char>>::empty());
            assert(out@.map_values(|l: String| l@) =~= before + seq![seq!['E', 'O', 'F']]);
            assert(out@.map_values(|l: String| l@) =~= sp3_lines(*self));
        }
        out
    }
}

} // verus!
