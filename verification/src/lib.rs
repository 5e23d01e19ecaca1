//! Verified control core for a temperature-driven fan controller.
//!
//! The library covers the decision logic of the control loop: evaluating a
//! temperature-to-speed curve with hysteresis to pick a target speed, and
//! ramping the commanded speed toward that target in bounded, ordered steps.
//! Device I/O, sensor discovery and UI notification live outside the library
//! and hand it plain values.

pub mod config;
pub mod device;
pub mod evaluator;
pub mod ramp;
pub mod sensor;
