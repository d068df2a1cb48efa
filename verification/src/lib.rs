//! Flight statistics gathered from Tacview ACMI recordings: which whitelisted
//! pilots flew which aircraft, when they entered and left the recording, and
//! which weapons were launched next to them.

pub mod acmi;
pub mod laws;
pub mod models;
pub mod processing;
pub mod text;
