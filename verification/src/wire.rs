//! Ghost model of the bus wire: the combined, ordered trace of everything
//! the engine does to its two pins, and the event sequences that each byte
//! operation is specified to append.

use vstd::prelude::*;

use crate::bidirectional_pin::PinEvent;

verus! {

/// One operation the bus engine performed, on either of its two pins, in
/// program order.
#[derive(Clone, Copy, Debug, PartialEq, Eq, Structural)]
pub enum BusEvent {
    /// The clock pin was driven to the given level (true = high).
    Clock(bool),
    /// The given operation was performed on the data pin.
    Data(PinEvent),
}

/// The clock pin's share of a bus trace, as that pin's own trace.
pub open spec fn sck_part(t: Seq<BusEvent>) -> Seq<PinEvent>
    decreases t.len(),
{
    if t.len() == 0 {
        Seq::empty()
    } else {
        sck_part(t.drop_last()) + (match t.last() {
            BusEvent::Clock(level) => seq![PinEvent::Drive(level)],
            BusEvent::Data(_) => seq![],
        })
    }
}

/// The data pin's share of a bus trace, as that pin's own trace.
pub open spec fn sdio_part(t: Seq<BusEvent>) -> Seq<PinEvent>
    decreases t.len(),
{
    if t.len() == 0 {
        Seq::empty()
    } else {
        sdio_part(t.drop_last()) + (match t.last() {
            BusEvent::Clock(_) => seq![],
            BusEvent::Data(e) => seq![e],
        })
    }
}

/// How one more bus event extends each pin's share of the trace.
pub proof fn lemma_parts_push(t: Seq<BusEvent>, e: BusEvent)
    ensures
        sck_part(t.push(e)) == (match e {
            BusEvent::Clock(level) => sck_part(t).push(PinEvent::Drive(level)),
            BusEvent::Data(_) => sck_part(t),
        }),
        sdio_part(t.push(e)) == (match e {
            BusEvent::Clock(_) => sdio_part(t),
            BusEvent::Data(pe) => sdio_part(t).push(pe),
        }),
{
    let tp = t.push(e);
    assert(tp.last() == e);
    assert(tp.drop_last() =~= t);
    match e {
        BusEvent::Clock(level) => {
            assert(sck_part(t) + seq![PinEvent::Drive(level)] =~= sck_part(t).push(
                PinEvent::Drive(level),
            ));
            assert(sdio_part(t) + Seq::<PinEvent>::empty() =~= sdio_part(t));
        }
        BusEvent::Data(pe) => {
            assert(sdio_part(t) + seq![pe] =~= sdio_part(t).push(pe));
            assert(sck_part(t) + Seq::<PinEvent>::empty() =~= sck_part(t));
        }
    }
}

/// True when the most recent clock drive in the trace left the clock high:
/// the bus's idle convention between operations.
pub open spec fn clock_idle(t: Seq<BusEvent>) -> bool
    decreases t.len(),
{
    if t.len() == 0 {
        false
    } else {
        match t.last() {
            BusEvent::Clock(level) => level,
            BusEvent::Data(_) => clock_idle(t.drop_last()),
        }
    }
}

/// A data-pin event leaves the clock's idle state unchanged.
pub proof fn lemma_clock_idle_push_data(t: Seq<BusEvent>, e: PinEvent)
    ensures
        clock_idle(t.push(BusEvent::Data(e))) == clock_idle(t),
{
    assert(t.push(BusEvent::Data(e)).drop_last() =~= t);
}

/// Bit `i` (0 = least significant) of the byte `b`.
pub open spec fn bit_of(b: u8, i: u8) -> bool {
    (b >> i) & 1 == 1
}

/// The 8 bits of `b`, most significant first: the order they cross the wire.
pub open spec fn byte_bits(b: u8) -> Seq<bool> {
    Seq::new(8, |j: int| bit_of(b, (7 - j) as u8))
}

/// Two bytes with the same bits are the same byte.
pub proof fn lemma_byte_bits_injective(a: u8, b: u8)
    requires
        byte_bits(a) == byte_bits(b),
    ensures
        a == b,
{
    assert forall|i: u8| i < 8 implies bit_of(a, i) == bit_of(b, i) by {
        let j = 7 - i as int;
        assert(byte_bits(a)[j] == bit_of(a, i));
        assert(byte_bits(b)[j] == bit_of(b, i));
    }
    assert(a == b) by (bit_vector)
        requires
            bit_of(a, 7) == bit_of(b, 7),
            bit_of(a, 6) == bit_of(b, 6),
            bit_of(a, 5) == bit_of(b, 5),
            bit_of(a, 4) == bit_of(b, 4),
            bit_of(a, 3) == bit_of(b, 3),
            bit_of(a, 2) == bit_of(b, 2),
            bit_of(a, 1) == bit_of(b, 1),
            bit_of(a, 0) == bit_of(b, 0),
    ;
}

/// The events of writing one bit: drive the data line to the bit's value,
/// then pulse the clock low and back high.
pub open spec fn write_bit_events(v: bool) -> Seq<BusEvent> {
    seq![
        BusEvent::Data(PinEvent::Drive(v)),
        BusEvent::Clock(false),
        BusEvent::Clock(true),
    ]
}

/// The events of reading one bit: pulse the clock low and back high, then
/// sample the data line at the clock's rising edge.
pub open spec fn read_bit_events(v: bool) -> Seq<BusEvent> {
    seq![
        BusEvent::Clock(false),
        BusEvent::Clock(true),
        BusEvent::Data(PinEvent::Sample(v)),
    ]
}

/// The events of writing the first `k` bits of `b`, most significant first.
pub open spec fn write_bits_events(b: u8, k: int) -> Seq<BusEvent>
    decreases k,
{
    if k <= 0 {
        Seq::empty()
    } else {
        write_bits_events(b, k - 1) + write_bit_events(bit_of(b, (8 - k) as u8))
    }
}

/// The events of reading the first `k` bits of `b`, most significant first.
pub open spec fn read_bits_events(b: u8, k: int) -> Seq<BusEvent>
    decreases k,
{
    if k <= 0 {
        Seq::empty()
    } else {
        read_bits_events(b, k - 1) + read_bit_events(bit_of(b, (8 - k) as u8))
    }
}

/// Reading the first `k` bits looks only at those bits: two bytes that
/// agree above the remaining positions produce the same events.
pub proof fn lemma_read_bits_events_agree(a: u8, b: u8, k: int)
    requires
        0 <= k <= 8,
        forall|i: u8| 8 - k <= i < 8 ==> bit_of(a, i) == bit_of(b, i),
    ensures
        read_bits_events(a, k) == read_bits_events(b, k),
    decreases k,
{
    if k > 0 {
        lemma_read_bits_events_agree(a, b, k - 1);
        assert(bit_of(a, (8 - k) as u8) == bit_of(b, (8 - k) as u8));
    }
}

/// Everything a write-byte operation puts on the wire: one switch of the
/// data line to output mode, then the byte's 8 bits, most significant first.
pub open spec fn byte_write_events(b: u8) -> Seq<BusEvent> {
    seq![BusEvent::Data(PinEvent::SetOutput)] + write_bits_events(b, 8)
}

/// Everything a read-byte operation puts on the wire: one switch of the
/// data line to input mode, then 8 clock pulses, each followed by a sample;
/// the samples, most significant first, are the bits of the byte returned.
pub open spec fn byte_read_events(b: u8) -> Seq<BusEvent> {
    seq![BusEvent::Data(PinEvent::SetInput)] + read_bits_events(b, 8)
}

/// The events of writing each byte of `bytes` in order.
pub open spec fn write_seq_events(bytes: Seq<u8>) -> Seq<BusEvent>
    decreases bytes.len(),
{
    if bytes.len() == 0 {
        Seq::empty()
    } else {
        byte_write_events(bytes[0]) + write_seq_events(bytes.drop_first())
    }
}

/// The events of reading each byte of `bytes` in order.
pub open spec fn read_seq_events(bytes: Seq<u8>) -> Seq<BusEvent>
    decreases bytes.len(),
{
    if bytes.len() == 0 {
        Seq::empty()
    } else {
        byte_read_events(bytes[0]) + read_seq_events(bytes.drop_first())
    }
}

/// The events of an interleaved transfer: for each position, write the
/// outgoing byte, then immediately read the incoming one.
pub open spec fn transfer_events(written: Seq<u8>, read: Seq<u8>) -> Seq<BusEvent>
    decreases written.len(),
{
    if written.len() == 0 || read.len() == 0 {
        Seq::empty()
    } else {
        byte_write_events(written[0]) + byte_read_events(read[0]) + transfer_events(
            written.drop_first(),
            read.drop_first(),
        )
    }
}

/// Appending one more byte to a written sequence appends its events.
pub proof fn lemma_write_seq_snoc(bytes: Seq<u8>, b: u8)
    ensures
        write_seq_events(bytes.push(b)) == write_seq_events(bytes) + byte_write_events(b),
    decreases bytes.len(),
{
    let snoc = bytes.push(b);
    if bytes.len() == 0 {
        assert(snoc[0] == b);
        assert(snoc.drop_first() =~= Seq::<u8>::empty());
        assert(write_seq_events(snoc) == byte_write_events(b) + write_seq_events(
            Seq::<u8>::empty(),
        ));
        assert(byte_write_events(b) + Seq::<BusEvent>::empty() =~= byte_write_events(b));
        assert(Seq::<BusEvent>::empty() + byte_write_events(b) =~= byte_write_events(b));
    } else {
        assert(snoc[0] == bytes[0]);
        assert(snoc.drop_first() =~= bytes.drop_first().push(b));
        lemma_write_seq_snoc(bytes.drop_first(), b);
        assert(write_seq_events(snoc) == byte_write_events(bytes[0]) + (write_seq_events(
            bytes.drop_first(),
        ) + byte_write_events(b)));
        assert(byte_write_events(bytes[0]) + (write_seq_events(bytes.drop_first())
            + byte_write_events(b)) =~= (byte_write_events(bytes[0]) + write_seq_events(
            bytes.drop_first(),
        )) + byte_write_events(b));
    }
}

/// Appending one more byte to a read sequence appends its events.
pub proof fn lemma_read_seq_snoc(bytes: Seq<u8>, b: u8)
    ensures
        read_seq_events(bytes.push(b)) == read_seq_events(bytes) + byte_read_events(b),
    decreases bytes.len(),
{
    let snoc = bytes.push(b);
    if bytes.len() == 0 {
        assert(snoc[0] == b);
        assert(snoc.drop_first() =~= Seq::<u8>::empty());
        assert(read_seq_events(snoc) == byte_read_events(b) + read_seq_events(Seq::<u8>::empty()));
        assert(byte_read_events(b) + Seq::<BusEvent>::empty() =~= byte_read_events(b));
        assert(Seq::<BusEvent>::empty() + byte_read_events(b) =~= byte_read_events(b));
    } else {
        assert(snoc[0] == bytes[0]);
        assert(snoc.drop_first() =~= bytes.drop_first().push(b));
        lemma_read_seq_snoc(bytes.drop_first(), b);
        assert(read_seq_events(snoc) == byte_read_events(bytes[0]) + (read_seq_events(
            bytes.drop_first(),
        ) + byte_read_events(b)));
        assert(byte_read_events(bytes[0]) + (read_seq_events(bytes.drop_first())
            + byte_read_events(b)) =~= (byte_read_events(bytes[0]) + read_seq_events(
            bytes.drop_first(),
        )) + byte_read_events(b));
    }
}

/// Appending one more write/read pair to a transfer appends its events.
pub proof fn lemma_transfer_snoc(written: Seq<u8>, read: Seq<u8>, w: u8, r: u8)
    requires
        written.len() == read.len(),
    ensures
        transfer_events(written.push(w), read.push(r)) == transfer_events(written, read)
            + byte_write_events(w) + byte_read_events(r),
    decreases written.len(),
{
    let ws = written.push(w);
    let rs = read.push(r);
    if written.len() == 0 {
        assert(ws[0] == w);
        assert(rs[0] == r);
        assert(ws.drop_first() =~= Seq::<u8>::empty());
        assert(rs.drop_first() =~= Seq::<u8>::empty());
        assert(transfer_events(ws, rs) == byte_write_events(w) + byte_read_events(r)
            + transfer_events(Seq::<u8>::empty(), Seq::<u8>::empty()));
        assert(byte_write_events(w) + byte_read_events(r) + Seq::<BusEvent>::empty()
            =~= byte_write_events(w) + byte_read_events(r));
        assert(Seq::<BusEvent>::empty() + byte_write_events(w) + byte_read_events(r)
            =~= byte_write_events(w) + byte_read_events(r));
    } else {
        assert(ws[0] == written[0]);
        assert(rs[0] == read[0]);
        assert(ws.drop_first() =~= written.drop_first().push(w));
        assert(rs.drop_first() =~= read.drop_first().push(r));
        lemma_transfer_snoc(written.drop_first(), read.drop_first(), w, r);
        assert(transfer_events(ws, rs) == byte_write_events(written[0]) + byte_read_events(read[0])
            + (transfer_events(written.drop_first(), read.drop_first()) + byte_write_events(w)
            + byte_read_events(r)));
        assert(byte_write_events(written[0]) + byte_read_events(read[0]) + (transfer_events(
            written.drop_first(),
            read.drop_first(),
        ) + byte_write_events(w) + byte_read_events(r)) =~= (byte_write_events(written[0])
            + byte_read_events(read[0]) + transfer_events(written.drop_first(), read.drop_first()))
            + byte_write_events(w) + byte_read_events(r));
    }
}

} // verus!
