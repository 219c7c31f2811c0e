//! Payload parsers of the supported presence sensors.
pub mod ite8353;

pub use ite8353::Ite8353Parser;
