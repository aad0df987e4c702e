//! Core logic of an interrupt-driven greyscale animation for a 5x5 LED
//! matrix: an immutable brightness image, a multiplexed duty-cycled
//! display driver, a periodic animation state machine, and the shared
//! handle registry that ties the two interrupt contexts together.
//!
//! Everything hardware-facing (timer peripherals, GPIO lines, interrupt
//! masking) lives outside this crate; the functions here compute, from
//! plain state, what the hardware layer must do on each timer tick.

pub mod anim;
pub mod display;
pub mod image;
pub mod system;
