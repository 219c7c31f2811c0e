//! The ITE8353 human-presence sensor's HID report.
use vstd::prelude::*;

use crate::sensor_parser::{SensorParser, SensorState};

verus! {

/// The reading in an ITE8353 report: a report is at least twelve bytes and
/// starts with the magic byte 0x02; byte 7 holds the confidence and byte 11
/// is 1 when a person is present.
pub open spec fn ite8353_reading(b: Seq<u8>) -> Option<SensorState> {
    if b.len() >= 12 && b[0] == 0x02 {
        Some(SensorState { confidence_cm: b[7] as i32, human_present: b[11] == 1 })
    } else {
        None
    }
}

/// An ITE8353 report is read exactly when it has at least twelve bytes and
/// starts with 0x02; it then reports a person present exactly when byte 11
/// is 1 (any other value, 0 among them, means nobody), with byte 7 as the
/// confidence.
pub proof fn lemma_ite8353_reading(b: Seq<u8>)
    ensures
        ite8353_reading(b) is Some <==> (b.len() >= 12 && b[0] == 0x02),
        ite8353_reading(b) matches Some(st) ==> (st.human_present <==> b[11] == 1) && st.confidence_cm == b[7] as int,
        b.len() >= 12 && b[0] == 0x02 && b[11] == 0 ==> ite8353_reading(b) == Some(
            SensorState { confidence_cm: b[7] as i32, human_present: false },
        ),
{
}

pub struct Ite8353Parser;

impl Ite8353Parser {
    pub const PACKET_SIZE: usize = 12;

    pub const MAGIC_BYTE: u8 = 0x02;

    pub fn new() -> Self {
        Ite8353Parser
    }
}

impl Default for Ite8353Parser {
    fn default() -> Self {
        Ite8353Parser
    }
}

impl SensorParser for Ite8353Parser {
    fn parse_payload(&self, buffer: &[u8]) -> (r: Option<SensorState>)
        ensures
            r == ite8353_reading(buffer@),
    {
        if buffer.len() < 12 {
            return None;
        }
        let magic = buffer[0];
        if magic == 0x02 {
            let confidence = buffer[7];
            let presence = buffer[11];
            Some(SensorState { confidence_cm: confidence as i32, human_present: presence == 1 })
        } else {
            None
        }
    }
}

} // verus!
