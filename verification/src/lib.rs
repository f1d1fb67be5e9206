//! A software-driven (bit-banged) half-duplex serial bus.
//!
//! The bus engine owns one clock-output pin and one bidirectional data pin
//! and emulates a synchronous serial link by toggling them with calibrated
//! delays: idle-clock-high, MSB-first byte order, one clock pulse per bit.
//!
//! Every pin operation is recorded in a ghost event trace, and each bus
//! operation's contract states exactly which events it appends, so bit
//! ordering, clock pulsing, and line-direction switching are all verified.

pub mod bidirectional_pin;
pub mod bitbang_spi;
pub mod laws;
pub mod sim;
pub mod wire;

pub use crate::bidirectional_pin::{BidirectionalPin, OutputPin, PinEvent, PinMode};
pub use crate::bitbang_spi::{BitBangError, BitBangSpiBus};
pub use crate::sim::{LoopbackPin, SimBidirectionalPin, SimOutputPin};
pub use crate::wire::BusEvent;
