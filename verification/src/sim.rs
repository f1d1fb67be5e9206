//! Simulated pins: in-memory implementations of the pin capability traits
//! that record every operation in a concrete log, so a harness can observe
//! exactly what the bus engine put on the wire.

use vstd::prelude::*;

use crate::bidirectional_pin::{BidirectionalPin, OutputPin, PinEvent};

verus! {

/// A simulated output-only pin: the clock line of a test harness. It does
/// nothing but record the levels it is driven to.
pub struct SimOutputPin {
    /// Every operation performed on the pin, oldest first.
    pub log: Vec<PinEvent>,
}

impl SimOutputPin {
    /// A fresh pin with an empty log.
    pub fn new() -> (pin: Self)
        ensures
            pin.events() == Seq::<PinEvent>::empty(),
    {
        SimOutputPin { log: Vec::new() }
    }
}

impl OutputPin for SimOutputPin {
    open spec fn events(&self) -> Seq<PinEvent> {
        self.log@
    }

    fn set_high(&mut self) {
        self.log.push(PinEvent::Drive(true));
    }

    fn set_low(&mut self) {
        self.log.push(PinEvent::Drive(false));
    }
}

/// A simulated bidirectional pin: the data line of a test harness. Levels
/// driven onto it are recorded; samples consume a caller-supplied script of
/// input levels, one per sample, and read low once the script runs out.
pub struct SimBidirectionalPin {
    /// Every operation performed on the pin, oldest first.
    pub log: Vec<PinEvent>,
    /// Input levels handed out by successive samples.
    pub inputs: Vec<bool>,
    /// How many samples have been taken.
    pub cursor: usize,
}

impl SimBidirectionalPin {
    /// A fresh pin with an empty log that will hand out the levels of
    /// `inputs`, in order, when sampled.
    pub fn new(inputs: Vec<bool>) -> (pin: Self)
        ensures
            pin.events() == Seq::<PinEvent>::empty(),
    {
        SimBidirectionalPin { log: Vec::new(), inputs, cursor: 0 }
    }
}

impl BidirectionalPin for SimBidirectionalPin {
    open spec fn events(&self) -> Seq<PinEvent> {
        self.log@
    }

    fn set_as_output(&mut self) {
        self.log.push(PinEvent::SetOutput);
    }

    fn set_as_input(&mut self) {
        self.log.push(PinEvent::SetInput);
    }

    fn set_high(&mut self) {
        self.log.push(PinEvent::Drive(true));
    }

    fn set_low(&mut self) {
        self.log.push(PinEvent::Drive(false));
    }

    fn is_high(&mut self) -> (level: bool) {
        let level = if self.cursor < self.inputs.len() {
            let sampled = self.inputs[self.cursor];
            self.cursor = self.cursor + 1;
            sampled
        } else {
            false
        };
        self.log.push(PinEvent::Sample(level));
        level
    }
}

/// A simulated data pin wired back on itself: every level driven while in
/// output mode is queued, and each sample hands the queued levels back in
/// order (low once the queue is exhausted). Feeding each written bit back
/// as the next sampled bit is the loopback harness of the round-trip law.
pub struct LoopbackPin {
    /// Every operation performed on the pin, oldest first.
    pub log: Vec<PinEvent>,
    /// Levels driven so far, awaiting samples.
    pub queue: Vec<bool>,
    /// How many samples have been taken.
    pub cursor: usize,
}

impl LoopbackPin {
    /// A fresh pin with an empty log and an empty queue.
    pub fn new() -> (pin: Self)
        ensures
            pin.events() == Seq::<PinEvent>::empty(),
    {
        LoopbackPin { log: Vec::new(), queue: Vec::new(), cursor: 0 }
    }
}

impl BidirectionalPin for LoopbackPin {
    open spec fn events(&self) -> Seq<PinEvent> {
        self.log@
    }

    fn set_as_output(&mut self) {
        self.log.push(PinEvent::SetOutput);
    }

    fn set_as_input(&mut self) {
        self.log.push(PinEvent::SetInput);
    }

    fn set_high(&mut self) {
        self.queue.push(true);
        self.log.push(PinEvent::Drive(true));
    }

    fn set_low(&mut self) {
        self.queue.push(false);
        self.log.push(PinEvent::Drive(false));
    }

    fn is_high(&mut self) -> (level: bool) {
        let level = if self.cursor < self.queue.len() {
            let sampled = self.queue[self.cursor];
            self.cursor = self.cursor + 1;
            sampled
        } else {
            false
        };
        self.log.push(PinEvent::Sample(level));
        level
    }
}

} // verus!
