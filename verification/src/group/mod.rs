//! Racing the candidates of a group: the decisions of one race.
pub mod race;
pub mod diagnostics;
pub mod stats;
