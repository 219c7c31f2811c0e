//! What a presence sensor reports, and the interface of its payload parsers.
use vstd::prelude::*;

verus! {

/// One reading of a presence sensor.
#[derive(Debug, Clone, Copy, PartialEq, Eq, Structural)]
pub struct SensorState {
    pub confidence_cm: i32,
    pub human_present: bool,
}

/// Reads a sensor's raw report into a `SensorState`.
pub trait SensorParser: Send + Sync {
    fn parse_payload(&self, buffer: &[u8]) -> Option<SensorState>;
}

} // verus!
