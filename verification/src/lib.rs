//! Touchpad motion detection: telling from the events of a touchpad when it is being used
//! intentionally.
//!
//! - [`input`] reads the fields of evdev events.
//! - [`sampler`] turns batches of events into finger contacts and position samples.
//! - [`algorithm`], [`window`], [`streak`] and [`runs`] decide from the samples when the touchpad
//!   is being used intentionally.
//! - [`detector`] goes from events to activation in one step.
//! - [`backend`] tells kanata about activations.
//! - [`episode`], [`keyboard`], [`session`] and [`record`] keep the statistics of a session.
//! - [`detect`] finds the touchpad among the input devices.
//! - [`clock`] holds instants and spans of time.

pub mod algorithm;
pub mod backend;
pub mod clock;
pub mod detect;
pub mod detector;
pub mod episode;
pub mod input;
pub mod keyboard;
pub mod record;
pub mod runs;
pub mod sampler;
pub mod session;
pub mod streak;
pub mod window;
