//! Capability traits for the GPIO lines the bus engine drives.
//!
//! Each pin is modelled by an abstract trace of the operations performed on
//! it, so that the bus engine's contracts can state exactly what happened on
//! the wire. A platform supplies one implementation per hardware pin type.

use vstd::prelude::*;

verus! {

/// One operation performed on a GPIO pin, as seen at the wire.
#[derive(Clone, Copy, Debug, PartialEq, Eq, Structural)]
pub enum PinEvent {
    /// The pin was switched to output (driving) mode.
    SetOutput,
    /// The pin was switched to input (high-impedance) mode.
    SetInput,
    /// The pin was driven to the given logic level (true = high).
    Drive(bool),
    /// The pin was sampled and read back the given logic level.
    Sample(bool),
}

/// Electrical direction a pin is configured in, as determined by the last
/// mode-switch event in its trace.
#[derive(Clone, Copy, Debug, PartialEq, Eq, Structural)]
pub enum PinMode {
    /// No mode-switch has been performed yet.
    Unconfigured,
    /// The pin drives the line.
    Output,
    /// The pin samples the line.
    Input,
}

/// The direction a pin is in after the events `es`: the last mode-switch
/// event decides, and a pin with no mode-switch yet is `Unconfigured`.
pub open spec fn pin_mode(es: Seq<PinEvent>) -> PinMode
    decreases es.len(),
{
    if es.len() == 0 {
        PinMode::Unconfigured
    } else {
        match es.last() {
            PinEvent::SetOutput => PinMode::Output,
            PinEvent::SetInput => PinMode::Input,
            _ => pin_mode(es.drop_last()),
        }
    }
}

/// Driving or sampling leaves a pin's direction unchanged.
pub proof fn lemma_pin_mode_push_keeps(es: Seq<PinEvent>, e: PinEvent)
    requires
        e is Drive || e is Sample,
    ensures
        pin_mode(es.push(e)) == pin_mode(es),
{
    assert(es.push(e).last() == e);
    assert(es.push(e).drop_last() =~= es);
}

/// A GPIO pin permanently configured as an output: the bus engine's clock
/// line. Implementations append exactly one `Drive` event per call to the
/// pin's trace.
pub trait OutputPin: Sized {
    /// The operations performed on this pin so far, oldest first.
    spec fn events(&self) -> Seq<PinEvent>;

    /// Drive the pin to logic high.
    fn set_high(&mut self)
        ensures
            final(self).events() == old(self).events().push(PinEvent::Drive(true)),
    ;

    /// Drive the pin to logic low.
    fn set_low(&mut self)
        ensures
            final(self).events() == old(self).events().push(PinEvent::Drive(false)),
    ;
}

/// A GPIO pin that can switch electrical direction at runtime: the bus
/// engine's data line.
///
/// Driving is only meaningful in output mode and sampling only in input
/// mode; the hardware gives no protection, so the contracts demand that
/// callers keep this discipline. What a sample returns is decided by the
/// wire, so `is_high` promises only that the returned level is the one
/// recorded in the trace.
pub trait BidirectionalPin: Sized {
    /// The operations performed on this pin so far, oldest first.
    spec fn events(&self) -> Seq<PinEvent>;

    /// Switch the pin to output (driving) mode.
    fn set_as_output(&mut self)
        ensures
            final(self).events() == old(self).events().push(PinEvent::SetOutput),
    ;

    /// Switch the pin to input (high-impedance) mode, no pull resistor.
    fn set_as_input(&mut self)
        ensures
            final(self).events() == old(self).events().push(PinEvent::SetInput),
    ;

    /// Drive the pin to logic high. Valid only in output mode.
    fn set_high(&mut self)
        requires
            pin_mode(old(self).events()) == PinMode::Output,
        ensures
            final(self).events() == old(self).events().push(PinEvent::Drive(true)),
    ;

    /// Drive the pin to logic low. Valid only in output mode.
    fn set_low(&mut self)
        requires
            pin_mode(old(self).events()) == PinMode::Output,
        ensures
            final(self).events() == old(self).events().push(PinEvent::Drive(false)),
    ;

    /// Sample the current logic level. Valid only in input mode.
    fn is_high(&mut self) -> (level: bool)
        requires
            pin_mode(old(self).events()) == PinMode::Input,
        ensures
            final(self).events() == old(self).events().push(PinEvent::Sample(level)),
    ;

    /// Sample the current logic level, negated. Valid only in input mode.
    fn is_low(&mut self) -> (level: bool)
        requires
            pin_mode(old(self).events()) == PinMode::Input,
        ensures
            final(self).events() == old(self).events().push(PinEvent::Sample(!level)),
    {
        let high = self.is_high();
        !high
    }
}

} // verus!
