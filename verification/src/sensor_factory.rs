//! Picks the payload parser that matches a sensor's hardware id.
use vstd::prelude::*;

use crate::parsers::Ite8353Parser;
use crate::sensor_parser::SensorParser;
use crate::text::{chars_eq, chars_of};

verus! {

/// Makes the parser of a sensor, given the sensor's hardware id.
pub trait ISensorFactory: Send + Sync {
    fn create(&self, hardware_id: &str) -> Option<Box<dyn SensorParser>>;
}

/// The registry of known sensors: each registered id is read with the ITE8353 format.
pub struct SensorFactory {
    registry: Vec<String>,
}

impl SensorFactory {
    /// The ids that have a parser.
    pub closed spec fn known_ids(&self) -> Seq<Seq<char>> {
        self.registry.deep_view()
    }

    /// A factory that knows the ITE8353 sensor.
    pub fn new() -> (r: Self)
        ensures
            r.known_ids() == seq!["ITE8353"@],
    {
        let mut registry: Vec<String> = Vec::new();
        registry.push(crate::text::string_from_str("ITE8353"));
        assert(registry.deep_view() =~= seq!["ITE8353"@]);
        SensorFactory { registry }
    }

    /// Whether `id` has a parser.
    pub fn is_known(&self, id: &str) -> (r: bool)
        ensures
            r == self.known_ids().contains(id@),
    {
        let idc = chars_of(id);
        let mut i: usize = 0;
        while i < self.registry.len()
            invariant
                i <= self.registry.len(),
                idc@ == id@,
                forall|k: int| 0 <= k < i ==> self.registry.deep_view()[k] != id@,
            decreases self.registry.len() - i,
        {
            let kc = chars_of(self.registry[i].as_str());
            if chars_eq(kc.as_slice(), idc.as_slice()) {
                assert(self.registry.deep_view()[i as int] == id@);
                return true;
            }
            i = i + 1;
        }
        false
    }
}

impl Default for SensorFactory {
    fn default() -> (r: Self)
        ensures
            r.known_ids() == seq!["ITE8353"@],
    {
        SensorFactory::new()
    }
}

impl ISensorFactory for SensorFactory {
    fn create(&self, hardware_id: &str) -> (r: Option<Box<dyn SensorParser>>)
        ensures
            r is Some <==> self.known_ids().contains(hardware_id@),
    {
        if self.is_known(hardware_id) {
            let p: Box<dyn SensorParser> = Box::new(Ite8353Parser::new());
            Some(p)
        } else {
            None
        }
    }
}

} // verus!
