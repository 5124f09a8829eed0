//! Absolute timestamps in a declared time scale, ordered by instant.
use vstd::prelude::*;

use crate::ids::TimeScale;

verus! {

/// One sampling instant: a calendar date-time in the time scale the
/// header declared.  Sub-second digits of the marker line are checked
/// during decoding but carry no information at the sampling rates the
/// format serves, so the instant stores whole seconds.
#[derive(Debug, Clone, Copy, PartialEq, Eq, Structural)]
pub struct Epoch {
    pub year: u32,
    pub month: u32,
    pub day: u32,
    pub hour: u32,
    pub minute: u32,
    pub second: u32,
    pub timescale: TimeScale,
}

/// A fixed rank so that the label can break ties between otherwise
/// identical calendar instants; instants are never ordered by the
/// label alone.
pub open spec fn timescale_rank(t: TimeScale) -> int {
    match t {
        TimeScale::Gpst => 0,
        TimeScale::Glonasst => 1,
        TimeScale::Gst => 2,
        TimeScale::Bdt => 3,
        TimeScale::Qzsst => 4,
        TimeScale::Irnsst => 5,
        TimeScale::Utc => 6,
        TimeScale::Tai => 7,
    }
}

/// Strict instant order: calendar fields from coarse to fine, the
/// time-scale label last, only as a tiebreaker.
pub open spec fn epoch_lt(a: Epoch, b: Epoch) -> bool {
    if a.year != b.year {
        a.year < b.year
    } else if a.month != b.month {
        a.month < b.month
    } else if a.day != b.day {
        a.day < b.day
    } else if a.hour != b.hour {
        a.hour < b.hour
    } else if a.minute != b.minute {
        a.minute < b.minute
    } else if a.second != b.second {
        a.second < b.second
    } else {
        timescale_rank(a.timescale) < timescale_rank(b.timescale)
    }
}

pub open spec fn epoch_le(a: Epoch, b: Epoch) -> bool {
    epoch_lt(a, b) || a == b
}

fn timescale_rank_exec(t: TimeScale) -> (r: u8)
    ensures
        r as int == timescale_rank(t),
{
    match t {
        TimeScale::Gpst => 0,
        TimeScale::Glonasst => 1,
        TimeScale::Gst => 2,
        TimeScale::Bdt => 3,
        TimeScale::Qzsst => 4,
        TimeScale::Irnsst => 5,
        TimeScale::Utc => 6,
        TimeScale::Tai => 7,
    }
}

pub fn epoch_lt_exec(a: &Epoch, b: &Epoch) -> (r: bool)
    ensures
        r == epoch_lt(*a, *b),
{
    if a.year != b.year {
        a.year < b.year
    } else if a.month != b.month {
        a.month < b.month
    } else if a.day != b.day {
        a.day < b.day
    } else if a.hour != b.hour {
        a.hour < b.hour
    } else if a.minute != b.minute {
        a.minute < b.minute
    } else if a.second != b.second {
        a.second < b.second
    } else {
        timescale_rank_exec(a.timescale) < timescale_rank_exec(b.timescale)
    }
}

/// The instant order is total: of two distinct epochs one is earlier,
/// and never both.
pub proof fn lemma_epoch_lt_connected(a: Epoch, b: Epoch)
    ensures
        !epoch_lt(a, b) && !epoch_lt(b, a) ==> a == b,
        epoch_lt(a, b) ==> !epoch_lt(b, a),
        epoch_lt(a, b) ==> a != b,
{
    if !epoch_lt(a, b) && !epoch_lt(b, a) {
        assert(a.timescale == b.timescale);
    }
}

pub proof fn lemma_epoch_lt_trans(a: Epoch, b: Epoch, c: Epoch)
    requires
        epoch_lt(a, b),
        epoch_lt(b, c),
    ensures
        epoch_lt(a, c),
{
}

} // verus!
