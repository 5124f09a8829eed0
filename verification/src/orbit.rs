//! The read view handed to an astrodynamics consumer: per data point,
//! epoch, satellite, position, zero-filled velocity and the maneuver
//! flag.  Mapping these into orbit or attitude objects is the
//! consumer's work; the core never computes on them.
use vstd::prelude::*;

use crate::dataset::{SP3Entry, SP3Key, SP3};
use crate::epoch::Epoch;
use crate::ids::SV;

verus! {

/// One satellite state sample, as plain scaled values.
#[derive(Debug, Clone, Copy, PartialEq, Eq)]
pub struct SatelliteOrbitalState {
    pub epoch: Epoch,
    pub satellite: SV,
    /// Position in `1e-6` km.
    pub position_km_e6: (i64, i64, i64),
    /// Velocity in `1e-10` km/s, the zero vector where none was seen.
    pub velocity_km_s_e10: (i64, i64, i64),
    /// True while this satellite is in a maneuver.
    pub maneuver: bool,
}

/// The state a stored pair denotes.
pub open spec fn orbital_state_of(kv: (SP3Key, SP3Entry)) -> SatelliteOrbitalState {
    SatelliteOrbitalState {
        epoch: kv.0.epoch,
        satellite: kv.0.sv,
        position_km_e6: kv.1.position_km_e6,
        velocity_km_s_e10: match kv.1.velocity_km_s_e10 {
            Some(v) => v,
            None => (0, 0, 0),
        },
        maneuver: kv.1.maneuver,
    }
}

impl SP3 {
    /// All state samples in stored order: the restartable sequence an
    /// orbital-state consumer walks.
    pub fn satellites_orbit_iter(&self) -> (r: Vec<SatelliteOrbitalState>)
        ensures
            r@.len() == self.data@.len(),
            forall|i: int|
                0 <= i < r@.len() ==> r@[i] == orbital_state_of(#[trigger] self.data@[i]),
    {
        let mut r: Vec<SatelliteOrbitalState> = Vec::new();
        let mut i: usize = 0;
        while i < self.data.len()
            invariant
                i <= self.data@.len(),
                r@.len() == i,
                forall|j: int|
                    0 <= j < i ==> r@[j] == orbital_state_of(#[trigger] self.data@[j]),
            decreases self.data@.len() - i,
        {
            let (k, e) = self.data[i];
            let velocity_km_s_e10 = match e.velocity_km_s_e10 {
                Some(v) => v,
                None => (0, 0, 0),
            };
            r.push(
                SatelliteOrbitalState {
                    epoch: k.epoch,
                    satellite: k.sv,
                    position_km_e6: e.position_km_e6,
                    velocity_km_s_e10,
                    maneuver: e.maneuver,
                },
            );
            i = i + 1;
        }
        r
    }
}

} // verus!
