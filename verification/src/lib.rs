//! Parsing, assembly, merging and re-serialization of SP3 precise
//! ephemeris files: the fixed-column text format used to distribute
//! satellite orbit and clock products for GNSS constellations.
//!
//! All fractional quantities (coordinates, velocities, clock data,
//! durations) are carried as exact scaled integers, so a parsed value
//! re-serializes to the very digits it was read from.
pub mod epoch;
pub mod errors;
pub mod header;
pub mod ids;
pub mod line1;
pub mod line2;
pub mod dataset;
pub mod descriptor;
pub mod num;
pub mod orbit;
pub mod parsing;
pub mod position;
pub mod velocity;
pub mod writer;

pub use crate::dataset::{SP3, SP3Entry, SP3Key};
pub use crate::descriptor::{is_file_descriptor, FileDescriptor, FileDescriptorH1};
pub use crate::epoch::Epoch;
pub use crate::errors::{FormattingError, MergeError, ParsingError};
pub use crate::header::Header;
pub use crate::ids::{Constellation, DataType, OrbitType, TimeScale, Version, SV};
pub use crate::line1::{is_header_line1, Line1};
pub use crate::line2::{is_header_line2, Line2, Seconds8};
pub use crate::orbit::SatelliteOrbitalState;
pub use crate::parsing::{end_of_file, new_epoch, parse_epoch};
pub use crate::position::{position_entry, PositionEntry};
pub use crate::velocity::{velocity_entry, VelocityEntry};
