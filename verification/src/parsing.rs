//! The data-assembly engine: body lines in file order fold into the
//! ordered mapping, latching the current epoch at each marker line.
use vstd::prelude::*;

use crate::dataset::{
    find_key, key_lt, kv_map, lemma_key_lt_connected, lemma_kv_map_contains, lemma_kv_map_get,
    lemma_kv_map_insert, lemma_kv_map_update, lemma_sorted_insert, sorted_unique, SP3Entry, SP3Key,
    SP3,
};
use crate::epoch::Epoch;
use crate::errors::ParsingError;
use crate::header::{header_matches, header_ok, line_views, meta_end, spec_descriptor, Header};
use crate::ids::{sv_parse, TimeScale, SV};
use crate::num::{
    parse_uint, spec_trim, trim_range, uint_field_ok, uint_field_val,
};
use crate::position::{clock_absent, position_matches, position_ok, PositionEntry};
use crate::velocity::{velocity_matches, velocity_ok, VelocityEntry};

verus! {

/// The body terminator line.
pub open spec fn is_eof(t: Seq<char>) -> bool {
    t == seq!['E', 'O', 'F']
}

/// Whether a trimmed line terminates the body.
pub fn end_of_file(content: &str) -> (r: bool)
    ensures
        r == is_eof(content@),
{
    let n = content.unicode_len();
    if n != 3 {
        proof {
            assert(content@ != seq!['E', 'O', 'F']);
        }
        return false;
    }
    let r = content.get_char(0) == 'E' && content.get_char(1) == 'O' && content.get_char(2) == 'F';
    proof {
        if r {
            assert(content@ =~= seq!['E', 'O', 'F']);
        } else {
            assert(content@ != seq!['E', 'O', 'F']);
        }
    }
    r
}

/// An epoch marker: the star and exactly two blanks.
pub open spec fn is_epoch_marker(t: Seq<char>) -> bool {
    t.len() >= 3 && t[0] == '*' && t[1] == ' ' && t[2] == ' '
}

/// Whether a line latches a new current epoch.
pub fn new_epoch(content: &str) -> (r: bool)
    ensures
        r == is_epoch_marker(content@),
{
    let n = content.unicode_len();
    n >= 3 && content.get_char(0) == '*' && content.get_char(1) == ' ' && content.get_char(2) == ' '
}

/// The timestamp columns of a marker line, after the marker.
pub open spec fn epoch_ok(s: Seq<char>) -> bool {
    &&& s.len() >= 27
    &&& uint_field_ok(s.subrange(0, 4), 9999)
    &&& uint_field_ok(s.subrange(4, 7), 99)
    &&& uint_field_ok(s.subrange(7, 10), 99)
    &&& uint_field_ok(s.subrange(10, 13), 99)
    &&& uint_field_ok(s.subrange(13, 16), 99)
    &&& uint_field_ok(s.subrange(16, 19), 99)
    &&& uint_field_ok(s.subrange(20, 27), 9999999)
}

pub open spec fn epoch_of(s: Seq<char>, ts: TimeScale) -> Epoch {
    Epoch {
        year: uint_field_val(s.subrange(0, 4)) as u32,
        month: uint_field_val(s.subrange(4, 7)) as u32,
        day: uint_field_val(s.subrange(7, 10)) as u32,
        hour: uint_field_val(s.subrange(10, 13)) as u32,
        minute: uint_field_val(s.subrange(13, 16)) as u32,
        second: uint_field_val(s.subrange(16, 19)) as u32,
        timescale: ts,
    }
}

/// Which failure a rejected marker timestamp reports: each component
/// has its own kind, checked in column order.
pub open spec fn epoch_error_matches(s: Seq<char>, e: ParsingError) -> bool {
    let y = uint_field_ok(s.subrange(0, 4), 9999);
    let mo = uint_field_ok(s.subrange(4, 7), 99);
    let d = uint_field_ok(s.subrange(7, 10), 99);
    let hh = uint_field_ok(s.subrange(10, 13), 99);
    let mm = uint_field_ok(s.subrange(13, 16), 99);
    let ss = uint_field_ok(s.subrange(16, 19), 99);
    &&& (e is Epoch <==> s.len() < 27)
    &&& (e is EpochYear <==> s.len() >= 27 && !y)
    &&& (e is EpochMonth <==> s.len() >= 27 && y && !mo)
    &&& (e is EpochDay <==> s.len() >= 27 && y && mo && !d)
    &&& (e is EpochHours <==> s.len() >= 27 && y && mo && d && !hh)
    &&& (e is EpochMinutes <==> s.len() >= 27 && y && mo && d && hh && !mm)
    &&& (e is EpochSeconds <==> s.len() >= 27 && y && mo && d && hh && mm && !ss)
    &&& (e is EpochMilliSeconds <==> s.len() >= 27 && y && mo && d && hh && mm && ss
        && !uint_field_ok(s.subrange(20, 27), 9999999))
}

/// Decodes the timestamp of an epoch marker line (the text after the
/// marker) in the header's declared time scale.  The fractional-second
/// field is checked and discarded: sampling instants are whole
/// seconds.
pub fn parse_epoch(content: &str, timescale: TimeScale) -> (r: Result<Epoch, ParsingError>)
    ensures
        r is Ok <==> epoch_ok(content@),
        r matches Ok(e) ==> e == epoch_of(content@, timescale),
        r matches Err(e) ==> epoch_error_matches(content@, e),
{
    let n = content.unicode_len();
    if n < 27 {
        return Err(ParsingError::Epoch);
    }
    let y = match parse_uint(content.substring_char(0, 4), 9999) {
        Some(v) => v as u32,
        None => {
            return Err(ParsingError::EpochYear(content.substring_char(0, 4).to_owned()));
        },
    };
    let m = match parse_uint(content.substring_char(4, 7), 99) {
        Some(v) => v as u32,
        None => {
            return Err(ParsingError::EpochMonth(content.substring_char(4, 7).to_owned()));
        },
    };
    let d = match parse_uint(content.substring_char(7, 10), 99) {
        Some(v) => v as u32,
        None => {
            return Err(ParsingError::EpochDay(content.substring_char(7, 10).to_owned()));
        },
    };
    let hh = match parse_uint(content.substring_char(10, 13), 99) {
        Some(v) => v as u32,
        None => {
            return Err(ParsingError::EpochHours(content.substring_char(10, 13).to_owned()));
        },
    };
    let mm = match parse_uint(content.substring_char(13, 16), 99) {
        Some(v) => v as u32,
        None => {
            return Err(ParsingError::EpochMinutes(content.substring_char(13, 16).to_owned()));
        },
    };
    let ss = match parse_uint(content.substring_char(16, 19), 99) {
        Some(v) => v as u32,
        None => {
            return Err(ParsingError::EpochSeconds(content.substring_char(16, 19).to_owned()));
        },
    };
    match parse_uint(content.substring_char(20, 27), 9999999) {
        Some(_) => {},
        None => {
            return Err(ParsingError::EpochMilliSeconds(content.substring_char(20, 27).to_owned()));
        },
    }
    Ok(Epoch { year: y, month: m, day: d, hour: hh, minute: mm, second: ss, timescale })
}

/// The record value a readable position line denotes.
pub open spec fn position_of(s: Seq<char>) -> PositionEntry {
    PositionEntry {
        sv: sv_parse(spec_trim(s.subrange(1, 4)))->Some_0,
        x_km_e6: crate::num::fixed_field_val(s.subrange(4, 18), 6) as i64,
        y_km_e6: crate::num::fixed_field_val(s.subrange(18, 32), 6) as i64,
        z_km_e6: crate::num::fixed_field_val(s.subrange(32, 46), 6) as i64,
        clock_us_e6: if clock_absent(s) {
            None
        } else {
            Some(crate::num::fixed_field_val(s.subrange(46, 60), 6) as i64)
        },
        maneuver: s.len() > 78 && s[78] == 'M',
        orbit_prediction: s.len() > 79 && s[79] == 'P',
        clock_prediction: s.len() > 75 && s[75] == 'P',
        clock_event: s.len() > 74 && s[74] == 'E',
    }
}

/// The record value a readable velocity line denotes.
pub open spec fn velocity_of(s: Seq<char>) -> VelocityEntry {
    VelocityEntry {
        sv: sv_parse(spec_trim(s.subrange(1, 4)))->Some_0,
        velocity_dm_s_e6: (
            crate::num::fixed_field_val(s.subrange(4, 18), 6) as i64,
            crate::num::fixed_field_val(s.subrange(18, 32), 6) as i64,
            crate::num::fixed_field_val(s.subrange(32, 46), 6) as i64,
        ),
        clock_sub_ns_e6: if clock_absent(s) {
            None
        } else {
            Some(crate::num::fixed_field_val(s.subrange(46, 60), 6) as i64)
        },
    }
}

/// The assembly state: the latched epoch, the mapping built so far,
/// and the satellites seen so far in first-seen order.
pub struct AsmState {
    pub epoch: Option<Epoch>,
    pub map: Map<SP3Key, SP3Entry>,
    pub sats: Seq<SV>,
}

/// A satellite id is appended once, on its first decoded record.
pub open spec fn register_sat(sats: Seq<SV>, sv: SV) -> Seq<SV> {
    if sats.contains(sv) {
        sats
    } else {
        sats.push(sv)
    }
}

/// One position record folds into the state: the satellite is
/// registered; an all-zero position is the format's "no valid fix" and
/// touches no entry; a fresh key creates an entry; a known key has its
/// position, maneuver and orbit-prediction fields overwritten, clock
/// and velocity fields untouched.
pub open spec fn apply_position(st: AsmState, ep: Epoch, e: PositionEntry) -> AsmState {
    let sats = register_sat(st.sats, e.sv);
    if e.x_km_e6 == 0 && e.y_km_e6 == 0 && e.z_km_e6 == 0 {
        AsmState { epoch: st.epoch, map: st.map, sats }
    } else {
        let key = SP3Key { epoch: ep, sv: e.sv };
        let entry = if st.map.contains_key(key) {
            let prev = st.map[key];
            SP3Entry {
                position_km_e6: (e.x_km_e6, e.y_km_e6, e.z_km_e6),
                velocity_km_s_e10: prev.velocity_km_s_e10,
                clock_us_e6: prev.clock_us_e6,
                clock_drift_ns_e10: prev.clock_drift_ns_e10,
                maneuver: e.maneuver,
                orbit_prediction: e.orbit_prediction,
                clock_prediction: prev.clock_prediction,
                clock_event: prev.clock_event,
            }
        } else {
            SP3Entry {
                position_km_e6: (e.x_km_e6, e.y_km_e6, e.z_km_e6),
                velocity_km_s_e10: None,
                clock_us_e6: e.clock_us_e6,
                clock_drift_ns_e10: None,
                maneuver: e.maneuver,
                orbit_prediction: e.orbit_prediction,
                clock_prediction: e.clock_us_e6 is Some && e.clock_prediction,
                clock_event: e.clock_event,
            }
        };
        AsmState { epoch: st.epoch, map: st.map.insert(key, entry), sats }
    }
}

/// One velocity record folds into the state: the satellite is
/// registered; an all-zero velocity is discarded; a fresh key creates
/// an entry seeded with the zero position (velocity before position is
/// a tolerated anomaly); a known key has only its velocity and clock
/// drift overwritten.
pub open spec fn apply_velocity(st: AsmState, ep: Epoch, e: VelocityEntry) -> AsmState {
    let sats = register_sat(st.sats, e.sv);
    if e.velocity_dm_s_e6.0 == 0 && e.velocity_dm_s_e6.1 == 0 && e.velocity_dm_s_e6.2 == 0 {
        AsmState { epoch: st.epoch, map: st.map, sats }
    } else {
        let key = SP3Key { epoch: ep, sv: e.sv };
        let entry = if st.map.contains_key(key) {
            let prev = st.map[key];
            SP3Entry {
                position_km_e6: prev.position_km_e6,
                velocity_km_s_e10: Some(e.velocity_dm_s_e6),
                clock_us_e6: prev.clock_us_e6,
                clock_drift_ns_e10: match e.clock_sub_ns_e6 {
                    Some(c) => Some(c),
                    None => prev.clock_drift_ns_e10,
                },
                maneuver: prev.maneuver,
                orbit_prediction: prev.orbit_prediction,
                clock_prediction: prev.clock_prediction,
                clock_event: prev.clock_event,
            }
        } else {
            SP3Entry {
                position_km_e6: (0, 0, 0),
                velocity_km_s_e10: Some(e.velocity_dm_s_e6),
                clock_us_e6: None,
                clock_drift_ns_e10: e.clock_sub_ns_e6,
                maneuver: false,
                orbit_prediction: false,
                clock_prediction: false,
                clock_event: false,
            }
        };
        AsmState { epoch: st.epoch, map: st.map.insert(key, entry), sats }
    }
}

/// The whole body as a fold over the remaining lines: markers latch
/// the epoch, short records are skipped, corrupt ones abort, the
/// terminator stops, anything else is ignored.
pub open spec fn assemble(lines: Seq<Seq<char>>, i: int, st: AsmState, ts: TimeScale) -> Option<
    AsmState,
>
    decreases lines.len() - i,
{
    if i < 0 || i >= lines.len() {
        Some(st)
    } else {
        let t = spec_trim(lines[i]);
        if is_eof(t) {
            Some(st)
        } else if is_epoch_marker(t) {
            if epoch_ok(t.subrange(3, t.len() as int)) {
                assemble(
                    lines,
                    i + 1,
                    AsmState {
                        epoch: Some(epoch_of(t.subrange(3, t.len() as int), ts)),
                        map: st.map,
                        sats: st.sats,
                    },
                    ts,
                )
            } else {
                None
            }
        } else if t.len() > 0 && t[0] == 'P' {
            if t.len() < 60 {
                assemble(lines, i + 1, st, ts)
            } else if !position_ok(t) {
                None
            } else if st.epoch is None {
                None
            } else {
                assemble(lines, i + 1, apply_position(st, st.epoch->0, position_of(t)), ts)
            }
        } else if t.len() > 0 && t[0] == 'V' {
            if t.len() < 60 {
                assemble(lines, i + 1, st, ts)
            } else if !velocity_ok(t) {
                None
            } else if st.epoch is None {
                None
            } else {
                assemble(lines, i + 1, apply_velocity(st, st.epoch->0, velocity_of(t)), ts)
            }
        } else {
            assemble(lines, i + 1, st, ts)
        }
    }
}

/// The empty assembly state a parse starts from.
pub open spec fn init_state() -> AsmState {
    AsmState { epoch: None, map: Map::empty(), sats: Seq::empty() }
}

/// An all-zero position record never creates or changes an entry; at
/// most its satellite id is registered.
pub proof fn lemma_zero_position_discarded(st: AsmState, ep: Epoch, e: PositionEntry)
    requires
        e.x_km_e6 == 0,
        e.y_km_e6 == 0,
        e.z_km_e6 == 0,
    ensures
        apply_position(st, ep, e).map == st.map,
        apply_position(st, ep, e).epoch == st.epoch,
{
}

/// The same discard rule for an all-zero velocity record.
pub proof fn lemma_zero_velocity_discarded(st: AsmState, ep: Epoch, e: VelocityEntry)
    requires
        e.velocity_dm_s_e6.0 == 0,
        e.velocity_dm_s_e6.1 == 0,
        e.velocity_dm_s_e6.2 == 0,
    ensures
        apply_velocity(st, ep, e).map == st.map,
        apply_velocity(st, ep, e).epoch == st.epoch,
{
}

/// The discard rule is an exact-equality test: a record with any
/// non-zero component updates its key.
pub proof fn lemma_nonzero_velocity_kept(st: AsmState, ep: Epoch, e: VelocityEntry)
    requires
        e.velocity_dm_s_e6.0 != 0 || e.velocity_dm_s_e6.1 != 0 || e.velocity_dm_s_e6.2 != 0,
    ensures
        apply_velocity(st, ep, e).map.contains_key(SP3Key { epoch: ep, sv: e.sv }),
        apply_velocity(st, ep, e).map[SP3Key { epoch: ep, sv: e.sv }].velocity_km_s_e10 == Some(
            e.velocity_dm_s_e6,
        ),
{
}

fn vec_contains_sv(sats: &Vec<SV>, sv: &SV) -> (r: bool)
    ensures
        r == sats@.contains(*sv),
{
    let mut i: usize = 0;
    while i < sats.len()
        invariant
            i <= sats@.len(),
            forall|j: int| 0 <= j < i ==> sats@[j] != *sv,
        decreases sats@.len() - i,
    {
        if sats[i] == *sv {
            return true;
        }
        i = i + 1;
    }
    proof {
        assert(!sats@.contains(*sv));
    }
    false
}

/// Folds one decoded position record into the body and satellite list.
fn apply_position_exec(
    data: &mut Vec<(SP3Key, SP3Entry)>,
    sats: &mut Vec<SV>,
    ep: &Epoch,
    e: &PositionEntry,
)
    requires
        sorted_unique(old(data)@),
    ensures
        sorted_unique(final(data)@),
        ({
            let st = AsmState { epoch: Some(*ep), map: kv_map(old(data)@), sats: old(sats)@ };
            let st2 = apply_position(st, *ep, *e);
            kv_map(final(data)@) == st2.map && final(sats)@ == st2.sats
        }),
{
    let ghost st = AsmState { epoch: Some(*ep), map: kv_map(data@), sats: sats@ };
    if !vec_contains_sv(sats, &e.sv) {
        sats.push(e.sv);
    }
    if e.x_km_e6 == 0 && e.y_km_e6 == 0 && e.z_km_e6 == 0 {
        return ;
    }
    let key = SP3Key { epoch: *ep, sv: e.sv };
    let (idx, found) = find_key(data, &key);
    proof {
        lemma_kv_map_contains(data@, key);
    }
    if found {
        proof {
            assert forall|j: int| idx < j < data@.len() implies (#[trigger] data@[j]).0 != key by {
                lemma_key_lt_connected(data@[idx as int].0, data@[j].0);
            }
            lemma_kv_map_get(data@, idx as int);
            assert forall|j: int|
                0 <= j < data@.len() && j != idx implies (#[trigger] data@[j]).0 != key by {
                lemma_key_lt_connected(data@[idx as int].0, data@[j].0);
                if j < idx {
                    lemma_key_lt_connected(data@[j].0, data@[idx as int].0);
                }
            }
            lemma_kv_map_update(data@, idx as int, st.map[key]);
        }
        let prev = data[idx].1;
        let entry = SP3Entry {
            position_km_e6: (e.x_km_e6, e.y_km_e6, e.z_km_e6),
            velocity_km_s_e10: prev.velocity_km_s_e10,
            clock_us_e6: prev.clock_us_e6,
            clock_drift_ns_e10: prev.clock_drift_ns_e10,
            maneuver: e.maneuver,
            orbit_prediction: e.orbit_prediction,
            clock_prediction: prev.clock_prediction,
            clock_event: prev.clock_event,
        };
        let ghost before = data@;
        data[idx] = (key, entry);
        proof {
            assert(data@ =~= before.update(idx as int, (key, entry)));
            lemma_kv_map_update(before, idx as int, entry);
            assert(sorted_unique(data@)) by {
                assert(forall|i: int, j: int|
                    0 <= i < j < data@.len() ==> (#[trigger] data@[i]).0 == before[i].0
                        && (#[trigger] data@[j]).0 == before[j].0);
            }
        }
    } else {
        let entry = SP3Entry {
            position_km_e6: (e.x_km_e6, e.y_km_e6, e.z_km_e6),
            velocity_km_s_e10: None,
            clock_us_e6: e.clock_us_e6,
            clock_drift_ns_e10: None,
            maneuver: e.maneuver,
            orbit_prediction: e.orbit_prediction,
            clock_prediction: e.clock_us_e6.is_some() && e.clock_prediction,
            clock_event: e.clock_event,
        };
        let ghost before = data@;
        data.insert(idx, (key, entry));
        proof {
            lemma_sorted_insert(before, idx as int, key, entry);
            lemma_kv_map_insert(before, idx as int, key, entry);
        }
    }
}

/// Folds one decoded velocity record into the body and satellite list.
fn apply_velocity_exec(
    data: &mut Vec<(SP3Key, SP3Entry)>,
    sats: &mut Vec<SV>,
    ep: &Epoch,
    e: &VelocityEntry,
)
    requires
        sorted_unique(old(data)@),
    ensures
        sorted_unique(final(data)@),
        ({
            let st = AsmState { epoch: Some(*ep), map: kv_map(old(data)@), sats: old(sats)@ };
            let st2 = apply_velocity(st, *ep, *e);
            kv_map(final(data)@) == st2.map && final(sats)@ == st2.sats
        }),
{
    let ghost st = AsmState { epoch: Some(*ep), map: kv_map(data@), sats: sats@ };
    if !vec_contains_sv(sats, &e.sv) {
        sats.push(e.sv);
    }
    if e.velocity_dm_s_e6.0 == 0 && e.velocity_dm_s_e6.1 == 0 && e.velocity_dm_s_e6.2 == 0 {
        return ;
    }
    let key = SP3Key { epoch: *ep, sv: e.sv };
    let (idx, found) = find_key(data, &key);
    proof {
        lemma_kv_map_contains(data@, key);
    }
    if found {
        proof {
            assert forall|j: int| idx < j < data@.len() implies (#[trigger] data@[j]).0 != key by {
                lemma_key_lt_connected(data@[idx as int].0, data@[j].0);
            }
            lemma_kv_map_get(data@, idx as int);
            assert forall|j: int|
                0 <= j < data@.len() && j != idx implies (#[trigger] data@[j]).0 != key by {
                lemma_key_lt_connected(data@[idx as int].0, data@[j].0);
                if j < idx {
                    lemma_key_lt_connected(data@[j].0, data@[idx as int].0);
                }
            }
        }
        let prev = data[idx].1;
        let drift = match e.clock_sub_ns_e6 {
            Some(c) => Some(c),
            None => prev.clock_drift_ns_e10,
        };
        let entry = SP3Entry {
            position_km_e6: prev.position_km_e6,
            velocity_km_s_e10: Some(e.velocity_dm_s_e6),
            clock_us_e6: prev.clock_us_e6,
            clock_drift_ns_e10: drift,
            maneuver: prev.maneuver,
            orbit_prediction: prev.orbit_prediction,
            clock_prediction: prev.clock_prediction,
            clock_event: prev.clock_event,
        };
        let ghost before = data@;
        data[idx] = (key, entry);
        proof {
            assert(data@ =~= before.update(idx as int, (key, entry)));
            lemma_kv_map_update(before, idx as int, entry);
            assert(sorted_unique(data@)) by {
                assert(forall|i: int, j: int|
                    0 <= i < j < data@.len() ==> (#[trigger] data@[i]).0 == before[i].0
                        && (#[trigger] data@[j]).0 == before[j].0);
            }
        }
    } else {
        let entry = SP3Entry {
            position_km_e6: (0, 0, 0),
            velocity_km_s_e10: Some(e.velocity_dm_s_e6),
            clock_us_e6: None,
            clock_drift_ns_e10: e.clock_sub_ns_e6,
            maneuver: false,
            orbit_prediction: false,
            clock_prediction: false,
            clock_event: false,
        };
        let ghost before = data@;
        data.insert(idx, (key, entry));
        proof {
            lemma_sorted_insert(before, idx as int, key, entry);
            lemma_kv_map_insert(before, idx as int, key, entry);
        }
    }
}

impl SP3 {
    /// Parses one file, given as its lines in file order: the header
    /// block first, then epoch markers and records folded into the
    /// ordered body until the terminator or the end of input.
    #[verifier::spinoff_prover]
    #[verifier::rlimit(100)]
    pub fn parse(lines: &Vec<String>) -> (r: Result<SP3, ParsingError>)
        ensures
            ({
                let ls = line_views(lines@);
                let ts = crate::header::header_timescale(ls);
                let fin = assemble(ls, meta_end(ls, 2), init_state(), ts);
                &&& (r is Ok <==> header_ok(ls) && fin is Some)
                &&& (r matches Ok(sp3) ==> {
                    &&& sp3.wf()
                    &&& header_matches(ls, sp3.header, meta_end(ls, 2))
                    &&& kv_map(sp3.data@) == fin->0.map
                    &&& sp3.header.satellites@ == fin->0.sats
                })
            }),
    {
        let ghost ls = line_views(lines@);
        let (mut header, consumed) = match Header::parse(lines) {
            Ok(v) => v,
            Err(e) => {
                return Err(e);
            },
        };
        let timescale = header.timescale;
        proof {
            assert(timescale == crate::header::header_timescale(ls));
        }
        let mut data: Vec<(SP3Key, SP3Entry)> = Vec::new();
        let mut sats: Vec<SV> = Vec::new();
        let mut epoch_opt: Option<Epoch> = None;
        let mut i = consumed;
        let mut done = false;
        proof {
            assert(kv_map(data@) =~= Map::<SP3Key, SP3Entry>::empty());
            assert(sats@ =~= Seq::<SV>::empty());
            assert(AsmState { epoch: epoch_opt, map: kv_map(data@), sats: sats@ } == init_state());
        }
        while i < lines.len() && !done
            invariant
                consumed <= i <= lines@.len(),
                ls == line_views(lines@),
                timescale == crate::header::header_timescale(ls),
                consumed == meta_end(ls, 2),
                sorted_unique(data@),
                ({
                    let cur = AsmState { epoch: epoch_opt, map: kv_map(data@), sats: sats@ };
                    assemble(ls, consumed as int, init_state(), timescale) == (if done {
                        Some(cur)
                    } else {
                        assemble(ls, i as int, cur, timescale)
                    })
                }),
            decreases lines@.len() - i,
        {
            let line_full = lines[i].as_str();
            proof {
                assert(ls[i as int] == line_full@);
            }
            let (lo, hi) = trim_range(line_full);
            let t = line_full.substring_char(lo, hi);
            proof {
                assert(t@ == spec_trim(ls[i as int]));
            }
            let tn = t.unicode_len();
            if end_of_file(t) {
                done = true;
            } else if new_epoch(t) {
                let ep = match parse_epoch(t.substring_char(3, tn), timescale) {
                    Ok(v) => v,
                    Err(e) => {
                        return Err(e);
                    },
                };
                proof {
                    assert(ep == epoch_of(t@.subrange(3, t@.len() as int), timescale));
                }
                epoch_opt = Some(ep);
            } else if tn > 0 && t.get_char(0) == 'P' {
                if tn >= 60 {
                    let e = match PositionEntry::parse(t) {
                        Ok(v) => v,
                        Err(err) => {
                            return Err(err);
                        },
                    };
                    proof {
                        assert(e == position_of(t@));
                    }
                    match epoch_opt {
                        Some(ep) => {
                            apply_position_exec(&mut data, &mut sats, &ep, &e);
                        },
                        None => {
                            return Err(ParsingError::MissingEpoch);
                        },
                    }
                }
            } else if tn > 0 && t.get_char(0) == 'V' {
                if tn >= 60 {
                    let e = match VelocityEntry::parse(t) {
                        Ok(v) => v,
                        Err(err) => {
                            return Err(err);
                        },
                    };
                    proof {
                        assert(e == velocity_of(t@));
                    }
                    match epoch_opt {
                        Some(ep) => {
                            apply_velocity_exec(&mut data, &mut sats, &ep, &e);
                        },
                        None => {
                            return Err(ParsingError::MissingEpoch);
                        },
                    }
                }
            }
            i = i + 1;
        }
        header.satellites = sats;
        Ok(SP3 { header, data })
    }
}

} // verus!
