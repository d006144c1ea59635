//! Measurement core for a scheduling-latency diagnostic: a busy-polling gap
//! detector, a correlator that attributes each detected gap to the closest
//! recorded interrupt-class event within a tolerance window, and a reporter
//! that renders the explained fraction and the per-kind timelines.

pub mod cancel;
pub mod clock;
pub mod detector;
pub mod correlate;
pub mod events;
pub mod report;
