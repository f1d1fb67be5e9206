//! The bit-bang bus engine: byte-oriented read, write, and combined
//! read/write operations over one clock-output pin and one bidirectional
//! data pin.
//!
//! Every operation's contract states the exact sequence of pin events it
//! appends to the bus's ghost trace (see [`crate::wire`]): the data line is
//! redirected once per byte, bits cross the wire most-significant first, and
//! each bit gets exactly one clock pulse. Operations block the caller for
//! their full duration; there is no suspension point and no partial progress
//! is observable.

use vstd::prelude::*;

use crate::bidirectional_pin::{pin_mode, BidirectionalPin, OutputPin, PinEvent, PinMode};
use crate::bidirectional_pin::lemma_pin_mode_push_keeps;
use crate::wire::{
    byte_read_events, byte_write_events, clock_idle, read_bit_events, read_bits_events, sck_part,
    sdio_part, write_bit_events, write_bits_events, BusEvent,
};
use crate::wire::{bit_of, lemma_clock_idle_push_data, lemma_parts_push, lemma_read_bits_events_agree};
use crate::wire::{
    lemma_read_seq_snoc, lemma_transfer_snoc, lemma_write_seq_snoc, read_seq_events,
    transfer_events, write_seq_events,
};

verus! {

/// Error kind for the bus. The engine never produces it: it exists so the
/// bus satisfies the shape of a generic serial-bus error contract.
#[derive(Clone, Copy, Debug, PartialEq, Eq, Structural)]
pub enum BitBangError {
    /// Opaque bus fault, for interface compatibility.
    Bus,
}

/// Relies on core::hint::spin_loop: a scheduling hint to the processor with
/// no observable effect on program state.
#[verifier::external_body]
fn spin_hint() {
    core::hint::spin_loop();
}

/// A software half-duplex serial bus over two GPIO pins.
///
/// The engine exclusively owns its clock pin and its bidirectional data pin
/// for its whole lifetime. The clock idles high from construction on, and
/// every completed operation leaves it high again.
pub struct BitBangSpiBus<SCK, SDIO> where SCK: OutputPin, SDIO: BidirectionalPin {
    sck: SCK,
    sdio: SDIO,
    trace: Ghost<Seq<BusEvent>>,
}

impl<SCK, SDIO> BitBangSpiBus<SCK, SDIO> where SCK: OutputPin, SDIO: BidirectionalPin {
    /// Everything this bus has done to its two pins, in program order,
    /// starting from construction.
    pub closed spec fn trace(&self) -> Seq<BusEvent> {
        self.trace@
    }

    /// The bus's trace is the authoritative record: each pin's own event
    /// trace is exactly its share of the bus trace.
    pub closed spec fn pins_sync(&self) -> bool {
        &&& sck_part(self.trace@) == self.sck.events()
        &&& sdio_part(self.trace@) == self.sdio.events()
    }

    /// Well-formed between operations: the pins agree with the trace and
    /// the clock rests at its idle-high level.
    pub open spec fn wf(&self) -> bool {
        self.pins_sync() && clock_idle(self.trace())
    }

    /// Create a bus from pin handles on which no operation has been
    /// performed yet, and drive the clock to its idle-high state.
    pub fn new(sck: SCK, sdio: SDIO) -> (bus: Self)
        requires
            sck.events() == Seq::<PinEvent>::empty(),
            sdio.events() == Seq::<PinEvent>::empty(),
        ensures
            bus.wf(),
            bus.trace() == seq![BusEvent::Clock(true)],
    {
        let mut bus = BitBangSpiBus { sck, sdio, trace: Ghost(Seq::empty()) };
        proof {
            assert(sck_part(Seq::<BusEvent>::empty()) =~= Seq::<PinEvent>::empty());
            assert(sdio_part(Seq::<BusEvent>::empty()) =~= Seq::<PinEvent>::empty());
        }
        bus.sck_high();
        bus
    }

    /// Busy-wait for the fixed settle/hold time: the one calibration knob
    /// for the target clock speed. Blocks without suspension.
    #[inline(always)]
    fn spi_delay() {
        let mut k: u8 = 0;
        while k < 32
            invariant
                k <= 32,
            decreases 32 - k,
        {
            spin_hint();
            k = k + 1;
        }
    }

    /// Drive the clock pin low, recording the event.
    fn sck_low(&mut self)
        requires
            old(self).pins_sync(),
        ensures
            final(self).pins_sync(),
            final(self).trace@ == old(self).trace@.push(BusEvent::Clock(false)),
            final(self).sdio.events() == old(self).sdio.events(),
    {
        let ghost t0 = self.trace@;
        self.sck.set_low();
        self.trace = Ghost(self.trace@.push(BusEvent::Clock(false)));
        proof {
            lemma_parts_push(t0, BusEvent::Clock(false));
        }
    }

    /// Drive the clock pin high, recording the event.
    fn sck_high(&mut self)
        requires
            old(self).pins_sync(),
        ensures
            final(self).pins_sync(),
            final(self).trace@ == old(self).trace@.push(BusEvent::Clock(true)),
            final(self).sdio.events() == old(self).sdio.events(),
    {
        let ghost t0 = self.trace@;
        self.sck.set_high();
        self.trace = Ghost(self.trace@.push(BusEvent::Clock(true)));
        proof {
            lemma_parts_push(t0, BusEvent::Clock(true));
        }
    }

    /// Switch the data pin to output mode, recording the event.
    fn data_output(&mut self)
        requires
            old(self).pins_sync(),
        ensures
            final(self).pins_sync(),
            final(self).trace@ == old(self).trace@.push(
                BusEvent::Data(PinEvent::SetOutput),
            ),
            pin_mode(final(self).sdio.events()) == PinMode::Output,
    {
        let ghost t0 = self.trace@;
        self.sdio.set_as_output();
        self.trace = Ghost(self.trace@.push(BusEvent::Data(PinEvent::SetOutput)));
        proof {
            lemma_parts_push(t0, BusEvent::Data(PinEvent::SetOutput));
        }
    }

    /// Switch the data pin to input mode, recording the event.
    fn data_input(&mut self)
        requires
            old(self).pins_sync(),
        ensures
            final(self).pins_sync(),
            final(self).trace@ == old(self).trace@.push(BusEvent::Data(PinEvent::SetInput)),
            pin_mode(final(self).sdio.events()) == PinMode::Input,
    {
        let ghost t0 = self.trace@;
        self.sdio.set_as_input();
        self.trace = Ghost(self.trace@.push(BusEvent::Data(PinEvent::SetInput)));
        proof {
            lemma_parts_push(t0, BusEvent::Data(PinEvent::SetInput));
        }
    }

    /// Drive the data pin to the given level, recording the event. The data
    /// pin must be in output mode.
    fn drive_data(&mut self, level: bool)
        requires
            old(self).pins_sync(),
            pin_mode(old(self).sdio.events()) == PinMode::Output,
        ensures
            final(self).pins_sync(),
            final(self).trace@ == old(self).trace@.push(
                BusEvent::Data(PinEvent::Drive(level)),
            ),
            pin_mode(final(self).sdio.events()) == PinMode::Output,
    {
        let ghost t0 = self.trace@;
        let ghost es0 = self.sdio.events();
        if level {
            self.sdio.set_high();
        } else {
            self.sdio.set_low();
        }
        self.trace = Ghost(self.trace@.push(BusEvent::Data(PinEvent::Drive(level))));
        proof {
            lemma_parts_push(t0, BusEvent::Data(PinEvent::Drive(level)));
            lemma_pin_mode_push_keeps(es0, PinEvent::Drive(level));
        }
    }

    /// Sample the data pin, recording the sampled level. The data pin must
    /// be in input mode.
    fn sample_data(&mut self) -> (level: bool)
        requires
            old(self).pins_sync(),
            pin_mode(old(self).sdio.events()) == PinMode::Input,
        ensures
            final(self).pins_sync(),
            final(self).trace@ == old(self).trace@.push(
                BusEvent::Data(PinEvent::Sample(level)),
            ),
            pin_mode(final(self).sdio.events()) == PinMode::Input,
    {
        let ghost t0 = self.trace@;
        let ghost es0 = self.sdio.events();
        let level = self.sdio.is_high();
        self.trace = Ghost(self.trace@.push(BusEvent::Data(PinEvent::Sample(level))));
        proof {
            lemma_parts_push(t0, BusEvent::Data(PinEvent::Sample(level)));
            lemma_pin_mode_push_keeps(es0, PinEvent::Sample(level));
        }
        level
    }

    /// Write one byte, most significant bit first: switch the data line to
    /// output once, then for each bit drive the data line, hold, pulse the
    /// clock low and back high with holds. Leaves the clock high.
    fn write_byte(&mut self, byte: u8)
        requires
            old(self).pins_sync(),
        ensures
            final(self).pins_sync(),
            final(self).trace@ == old(self).trace@ + byte_write_events(byte),
            clock_idle(final(self).trace@),
    {
        let ghost t0 = self.trace@;
        self.data_output();
        proof {
            assert(self.trace@ =~= t0 + seq![BusEvent::Data(PinEvent::SetOutput)]
                + write_bits_events(byte, 0));
        }
        let mut i: u8 = 8;
        while i > 0
            invariant
                i <= 8,
                self.pins_sync(),
                pin_mode(self.sdio.events()) == PinMode::Output,
                self.trace@ == t0 + seq![BusEvent::Data(PinEvent::SetOutput)]
                    + write_bits_events(byte, 8 - i as int),
                i < 8 ==> clock_idle(self.trace@),
            decreases i,
        {
            i = i - 1;
            let ghost t1 = self.trace@;
            let level = ((byte >> i) & 1) == 1;
            self.drive_data(level);
            Self::spi_delay();
            self.sck_low();
            Self::spi_delay();
            self.sck_high();
            Self::spi_delay();
            proof {
                let k: int = 8 - i as int;
                assert(level == bit_of(byte, i));
                assert(write_bits_events(byte, k) == write_bits_events(byte, k - 1)
                    + write_bit_events(bit_of(byte, i)));
                assert(self.trace@ =~= t1 + write_bit_events(level));
                assert(t1 + write_bit_events(level) =~= t0 + seq![
                    BusEvent::Data(PinEvent::SetOutput),
                ] + write_bits_events(byte, k));
                assert(self.trace@.last() == BusEvent::Clock(true));
            }
        }
        proof {
            assert(t0 + seq![BusEvent::Data(PinEvent::SetOutput)] + write_bits_events(byte, 8)
                =~= t0 + byte_write_events(byte));
        }
    }

    /// Read one byte, most significant bit first: switch the data line to
    /// input once, then for each bit pulse the clock low and back high with
    /// holds and sample the data line at the rising edge. Bits not sampled
    /// high stay zero. Leaves the clock high.
    fn read_byte(&mut self) -> (byte: u8)
        requires
            old(self).pins_sync(),
        ensures
            final(self).pins_sync(),
            final(self).trace@ == old(self).trace@ + byte_read_events(byte),
            clock_idle(final(self).trace@),
    {
        let ghost t0 = self.trace@;
        self.data_input();
        let mut byte: u8 = 0;
        proof {
            assert(self.trace@ =~= t0 + seq![BusEvent::Data(PinEvent::SetInput)]
                + read_bits_events(byte, 0));
            assert forall|j: u8| j < 8 implies bit_of(byte, j) == false by {
                assert((0u8 >> j) & 1 != 1) by (bit_vector);
            }
        }
        let mut i: u8 = 8;
        while i > 0
            invariant
                i <= 8,
                self.pins_sync(),
                pin_mode(self.sdio.events()) == PinMode::Input,
                forall|j: u8| j < i ==> bit_of(byte, j) == false,
                self.trace@ == t0 + seq![BusEvent::Data(PinEvent::SetInput)]
                    + read_bits_events(byte, 8 - i as int),
                i < 8 ==> clock_idle(self.trace@),
            decreases i,
        {
            i = i - 1;
            let ghost t1 = self.trace@;
            let ghost byte0 = byte;
            self.sck_low();
            Self::spi_delay();
            self.sck_high();
            Self::spi_delay();
            let level = self.sample_data();
            if level {
                byte = byte | (1u8 << i);
            }
            proof {
                let k: int = 8 - i as int;
                if level {
                    assert(bit_of(byte, i) == true && (forall|j: u8|
                        j != i ==> bit_of(byte, j) == bit_of(byte0, j))) by (bit_vector)
                        requires
                            byte == byte0 | (1u8 << i),
                            i < 8,
                    ;
                } else {
                    assert(bit_of(byte, i) == false);
                }
                assert forall|j: u8| j < i implies bit_of(byte, j) == false by {
                    assert(bit_of(byte0, j) == false);
                }
                assert forall|j: u8| 8 - (k - 1) <= j < 8 implies bit_of(byte0, j) == bit_of(
                    byte,
                    j,
                ) by {
                    assert(j != i);
                }
                lemma_read_bits_events_agree(byte0, byte, k - 1);
                assert(bit_of(byte, i) == level);
                assert(read_bits_events(byte, k) == read_bits_events(byte, k - 1)
                    + read_bit_events(bit_of(byte, i)));
                assert(self.trace@ =~= t1 + read_bit_events(level));
                assert(t1 + read_bit_events(level) =~= t0 + seq![
                    BusEvent::Data(PinEvent::SetInput),
                ] + read_bits_events(byte, k));
                lemma_clock_idle_push_data(
                    self.trace@.drop_last(),
                    PinEvent::Sample(level),
                );
                assert(self.trace@.drop_last().last() == BusEvent::Clock(true));
            }
        }
        proof {
            assert(t0 + seq![BusEvent::Data(PinEvent::SetInput)] + read_bits_events(byte, 8)
                =~= t0 + byte_read_events(byte));
        }
        byte
    }

    /// Read one byte per element of `words`, filling it in order. A
    /// zero-length buffer performs no pin operation at all. Always succeeds.
    pub fn read(&mut self, words: &mut Vec<u8>) -> (result: Result<(), BitBangError>)
        requires
            old(self).wf(),
        ensures
            result == Ok::<(), BitBangError>(()),
            final(self).wf(),
            final(words)@.len() == old(words)@.len(),
            final(self).trace() == old(self).trace() + read_seq_events(final(words)@),
    {
        let ghost t0 = self.trace@;
        let ghost w0 = words@;
        let n = words.len();
        proof {
            assert(t0 + read_seq_events(words@.take(0)) =~= t0);
        }
        let mut j: usize = 0;
        while j < n
            invariant
                j <= n,
                n == words@.len(),
                words@.len() == w0.len(),
                self.pins_sync(),
                clock_idle(self.trace@),
                self.trace@ == t0 + read_seq_events(words@.take(j as int)),
            decreases n - j,
        {
            let ghost before = words@;
            let byte = self.read_byte();
            words[j] = byte;
            proof {
                assert(words@.take(j as int) =~= before.take(j as int));
                lemma_read_seq_snoc(words@.take(j as int), byte);
                assert(words@.take(j as int + 1) =~= words@.take(j as int).push(byte));
                assert((t0 + read_seq_events(words@.take(j as int))) + byte_read_events(byte)
                    =~= t0 + (read_seq_events(words@.take(j as int)) + byte_read_events(byte)));
            }
            j = j + 1;
        }
        proof {
            assert(words@.take(n as int) =~= words@);
        }
        Ok(())
    }

    /// Write each byte of `words` in order. A zero-length buffer performs
    /// no pin operation at all. Always succeeds.
    pub fn write(&mut self, words: &Vec<u8>) -> (result: Result<(), BitBangError>)
        requires
            old(self).wf(),
        ensures
            result == Ok::<(), BitBangError>(()),
            final(self).wf(),
            final(self).trace() == old(self).trace() + write_seq_events(words@),
    {
        let ghost t0 = self.trace@;
        let n = words.len();
        proof {
            assert(t0 + write_seq_events(words@.take(0)) =~= t0);
        }
        let mut j: usize = 0;
        while j < n
            invariant
                j <= n,
                n == words@.len(),
                self.pins_sync(),
                clock_idle(self.trace@),
                self.trace@ == t0 + write_seq_events(words@.take(j as int)),
            decreases n - j,
        {
            let byte = words[j];
            self.write_byte(byte);
            proof {
                lemma_write_seq_snoc(words@.take(j as int), byte);
                assert(words@.take(j as int + 1) =~= words@.take(j as int).push(byte));
                assert((t0 + write_seq_events(words@.take(j as int))) + byte_write_events(byte)
                    =~= t0 + (write_seq_events(words@.take(j as int)) + byte_write_events(byte)));
            }
            j = j + 1;
        }
        proof {
            assert(words@.take(n as int) =~= words@);
        }
        Ok(())
    }

    /// Half-duplex composite: write all of `write_buf` in order, then read
    /// into all of `read_buf` in order. The whole write phase stands in the
    /// trace strictly before any event of the read phase. Always succeeds.
    pub fn transfer(&mut self, read_buf: &mut Vec<u8>, write_buf: &Vec<u8>) -> (result: Result<
        (),
        BitBangError,
    >)
        requires
            old(self).wf(),
        ensures
            result == Ok::<(), BitBangError>(()),
            final(self).wf(),
            final(read_buf)@.len() == old(read_buf)@.len(),
            final(self).trace() == old(self).trace() + write_seq_events(write_buf@)
                + read_seq_events(final(read_buf)@),
    {
        let _ = self.write(write_buf);
        self.read(read_buf)
    }

    /// Per-element interleaved transfer: for each position, write the byte
    /// that is there, then immediately overwrite it with the byte read back.
    /// The data line's direction is switched once per byte in each
    /// direction. Always succeeds.
    pub fn transfer_in_place(&mut self, words: &mut Vec<u8>) -> (result: Result<
        (),
        BitBangError,
    >)
        requires
            old(self).wf(),
        ensures
            result == Ok::<(), BitBangError>(()),
            final(self).wf(),
            final(words)@.len() == old(words)@.len(),
            final(self).trace() == old(self).trace() + transfer_events(
                old(words)@,
                final(words)@,
            ),
    {
        let ghost t0 = self.trace@;
        let ghost w0 = words@;
        let n = words.len();
        proof {
            assert(t0 + transfer_events(w0.take(0), words@.take(0)) =~= t0);
        }
        let mut j: usize = 0;
        while j < n
            invariant
                j <= n,
                n == words@.len(),
                words@.len() == w0.len(),
                words@.skip(j as int) == w0.skip(j as int),
                self.pins_sync(),
                clock_idle(self.trace@),
                self.trace@ == t0 + transfer_events(w0.take(j as int), words@.take(j as int)),
            decreases n - j,
        {
            let ghost before = words@;
            let outgoing = words[j];
            proof {
                assert(words@[j as int] == words@.skip(j as int)[0]);
                assert(outgoing == w0[j as int]);
            }
            self.write_byte(outgoing);
            let incoming = self.read_byte();
            words[j] = incoming;
            proof {
                assert(words@.take(j as int) =~= before.take(j as int));
                assert(words@.skip(j as int + 1) =~= before.skip(j as int + 1));
                assert forall|x: int|
                    0 <= x < before.skip(j as int + 1).len() implies #[trigger] before.skip(
                    j as int + 1,
                )[x] == w0.skip(j as int + 1)[x] by {
                    assert(before.skip(j as int)[x + 1] == w0.skip(j as int)[x + 1]);
                }
                assert(before.skip(j as int + 1) =~= w0.skip(j as int + 1));
                lemma_transfer_snoc(
                    w0.take(j as int),
                    words@.take(j as int),
                    outgoing,
                    incoming,
                );
                assert(w0.take(j as int + 1) =~= w0.take(j as int).push(outgoing));
                assert(words@.take(j as int + 1) =~= words@.take(j as int).push(incoming));
                assert(((t0 + transfer_events(w0.take(j as int), words@.take(j as int)))
                    + byte_write_events(outgoing)) + byte_read_events(incoming) =~= t0 + (
                transfer_events(w0.take(j as int), words@.take(j as int)) + byte_write_events(
                    outgoing,
                ) + byte_read_events(incoming)));
            }
            j = j + 1;
        }
        proof {
            assert(w0.take(n as int) =~= w0);
            assert(words@.take(n as int) =~= words@);
        }
        Ok(())
    }

    /// No-op: the engine has no internal buffering to drain. Alters no pin
    /// state and always succeeds.
    pub fn flush(&mut self) -> (result: Result<(), BitBangError>)
        ensures
            result == Ok::<(), BitBangError>(()),
            *final(self) == *old(self),
    {
        Ok(())
    }

    /// Give the pin handles back, ending the communication session. Each
    /// pin's own trace is its share of the bus trace.
    pub fn release(self) -> (pins: (SCK, SDIO))
        requires
            self.wf(),
        ensures
            pins.0.events() == sck_part(self.trace()),
            pins.1.events() == sdio_part(self.trace()),
    {
        (self.sck, self.sdio)
    }
}

} // verus!
