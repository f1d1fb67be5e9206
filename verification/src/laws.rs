//! What the wire protocol guarantees, stated over the event traces of
//! [`crate::wire`]: bits cross most-significant first with one clock pulse
//! each, a write puts exactly the byte's bits on the line, a read returns
//! exactly the byte whose bits were sampled, and a loopback wiring makes an
//! interleaved transfer the identity.

use vstd::prelude::*;

use crate::bidirectional_pin::PinEvent;
use crate::wire::{
    bit_of, byte_bits, byte_read_events, byte_write_events, lemma_byte_bits_injective,
    read_bit_events, read_bits_events, read_seq_events, transfer_events, write_bit_events,
    write_bits_events, write_seq_events, BusEvent,
};

verus! {

/// The levels driven onto the data line, in order.
pub open spec fn data_drives(t: Seq<BusEvent>) -> Seq<bool>
    decreases t.len(),
{
    if t.len() == 0 {
        Seq::empty()
    } else {
        data_drives(t.drop_last()) + (match t.last() {
            BusEvent::Data(PinEvent::Drive(v)) => seq![v],
            _ => seq![],
        })
    }
}

/// The levels sampled from the data line, in order.
pub open spec fn data_samples(t: Seq<BusEvent>) -> Seq<bool>
    decreases t.len(),
{
    if t.len() == 0 {
        Seq::empty()
    } else {
        data_samples(t.drop_last()) + (match t.last() {
            BusEvent::Data(PinEvent::Sample(v)) => seq![v],
            _ => seq![],
        })
    }
}

/// How often the clock was driven high: its low-to-high transitions.
pub open spec fn clock_rises(t: Seq<BusEvent>) -> int
    decreases t.len(),
{
    if t.len() == 0 {
        0
    } else {
        clock_rises(t.drop_last()) + (match t.last() {
            BusEvent::Clock(level) => if level { 1int } else { 0int },
            _ => 0int,
        })
    }
}

/// How often the clock was driven low: its high-to-low transitions.
pub open spec fn clock_falls(t: Seq<BusEvent>) -> int
    decreases t.len(),
{
    if t.len() == 0 {
        0
    } else {
        clock_falls(t.drop_last()) + (match t.last() {
            BusEvent::Clock(level) => if level { 0int } else { 1int },
            _ => 0int,
        })
    }
}

/// How one more event changes each observation of a trace.
pub proof fn lemma_obs_push(t: Seq<BusEvent>, e: BusEvent)
    ensures
        data_drives(t.push(e)) == (match e {
            BusEvent::Data(PinEvent::Drive(v)) => data_drives(t).push(v),
            _ => data_drives(t),
        }),
        data_samples(t.push(e)) == (match e {
            BusEvent::Data(PinEvent::Sample(v)) => data_samples(t).push(v),
            _ => data_samples(t),
        }),
        clock_rises(t.push(e)) == clock_rises(t) + (match e {
            BusEvent::Clock(level) => if level { 1int } else { 0int },
            _ => 0int,
        }),
        clock_falls(t.push(e)) == clock_falls(t) + (match e {
            BusEvent::Clock(level) => if level { 0int } else { 1int },
            _ => 0int,
        }),
{
    let tp = t.push(e);
    assert(tp.last() == e);
    assert(tp.drop_last() =~= t);
    match e {
        BusEvent::Data(PinEvent::Drive(v)) => {
            assert(data_drives(t) + seq![v] =~= data_drives(t).push(v));
            assert(data_samples(t) + Seq::<bool>::empty() =~= data_samples(t));
        }
        BusEvent::Data(PinEvent::Sample(v)) => {
            assert(data_samples(t) + seq![v] =~= data_samples(t).push(v));
            assert(data_drives(t) + Seq::<bool>::empty() =~= data_drives(t));
        }
        _ => {
            assert(data_drives(t) + Seq::<bool>::empty() =~= data_drives(t));
            assert(data_samples(t) + Seq::<bool>::empty() =~= data_samples(t));
        }
    }
}

/// The observations distribute over concatenation of traces.
pub proof fn lemma_obs_add(a: Seq<BusEvent>, b: Seq<BusEvent>)
    ensures
        data_drives(a + b) == data_drives(a) + data_drives(b),
        data_samples(a + b) == data_samples(a) + data_samples(b),
        clock_rises(a + b) == clock_rises(a) + clock_rises(b),
        clock_falls(a + b) == clock_falls(a) + clock_falls(b),
    decreases b.len(),
{
    if b.len() == 0 {
        assert(a + b =~= a);
        assert(data_drives(a) + data_drives(b) =~= data_drives(a));
        assert(data_samples(a) + data_samples(b) =~= data_samples(a));
    } else {
        lemma_obs_add(a, b.drop_last());
        assert((a + b).drop_last() =~= a + b.drop_last());
        assert((a + b).last() == b.last());
        lemma_obs_push(a + b.drop_last(), b.last());
        lemma_obs_push(b.drop_last(), b.last());
        assert(b.drop_last().push(b.last()) =~= b);
        match b.last() {
            BusEvent::Data(PinEvent::Drive(v)) => {
                assert(data_drives(a + b) =~= data_drives(a) + data_drives(b));
                assert(data_samples(a + b) =~= data_samples(a) + data_samples(b));
            }
            BusEvent::Data(PinEvent::Sample(v)) => {
                assert(data_drives(a + b) =~= data_drives(a) + data_drives(b));
                assert(data_samples(a + b) =~= data_samples(a) + data_samples(b));
            }
            _ => {
                assert(data_drives(a + b) =~= data_drives(a) + data_drives(b));
                assert(data_samples(a + b) =~= data_samples(a) + data_samples(b));
            }
        }
    }
}

/// Writing one bit drives exactly that bit and pulses the clock exactly
/// once, sampling nothing.
pub proof fn lemma_obs_write_bit(v: bool)
    ensures
        data_drives(write_bit_events(v)) == seq![v],
        data_samples(write_bit_events(v)) == Seq::<bool>::empty(),
        clock_rises(write_bit_events(v)) == 1,
        clock_falls(write_bit_events(v)) == 1,
{
    let s0 = Seq::<BusEvent>::empty();
    let s1 = s0.push(BusEvent::Data(PinEvent::Drive(v)));
    let s2 = s1.push(BusEvent::Clock(false));
    let s3 = s2.push(BusEvent::Clock(true));
    lemma_obs_push(s0, BusEvent::Data(PinEvent::Drive(v)));
    lemma_obs_push(s1, BusEvent::Clock(false));
    lemma_obs_push(s2, BusEvent::Clock(true));
    assert(write_bit_events(v) =~= s3);
    assert(data_drives(s0).push(v) =~= seq![v]);
}

/// Reading one bit samples exactly that bit and pulses the clock exactly
/// once, driving nothing on the data line.
pub proof fn lemma_obs_read_bit(v: bool)
    ensures
        data_drives(read_bit_events(v)) == Seq::<bool>::empty(),
        data_samples(read_bit_events(v)) == seq![v],
        clock_rises(read_bit_events(v)) == 1,
        clock_falls(read_bit_events(v)) == 1,
{
    let s0 = Seq::<BusEvent>::empty();
    let s1 = s0.push(BusEvent::Clock(false));
    let s2 = s1.push(BusEvent::Clock(true));
    let s3 = s2.push(BusEvent::Data(PinEvent::Sample(v)));
    lemma_obs_push(s0, BusEvent::Clock(false));
    lemma_obs_push(s1, BusEvent::Clock(true));
    lemma_obs_push(s2, BusEvent::Data(PinEvent::Sample(v)));
    assert(read_bit_events(v) =~= s3);
    assert(data_samples(s2).push(v) =~= seq![v]);
}

/// Writing the first `k` bits drives exactly those bits, in order, one
/// clock pulse per bit.
pub proof fn lemma_obs_write_bits(b: u8, k: int)
    requires
        0 <= k <= 8,
    ensures
        data_drives(write_bits_events(b, k)) == byte_bits(b).take(k),
        data_samples(write_bits_events(b, k)) == Seq::<bool>::empty(),
        clock_rises(write_bits_events(b, k)) == k,
        clock_falls(write_bits_events(b, k)) == k,
    decreases k,
{
    if k == 0 {
        assert(byte_bits(b).take(0) =~= Seq::<bool>::empty());
    } else {
        let v = bit_of(b, (8 - k) as u8);
        lemma_obs_write_bits(b, k - 1);
        lemma_obs_write_bit(v);
        lemma_obs_add(write_bits_events(b, k - 1), write_bit_events(v));
        assert(byte_bits(b)[k - 1] == v);
        assert(byte_bits(b).take(k) =~= byte_bits(b).take(k - 1) + seq![v]);
        assert(Seq::<bool>::empty() + Seq::<bool>::empty() =~= Seq::<bool>::empty());
    }
}

/// Reading the first `k` bits samples exactly those bits, in order, one
/// clock pulse per bit.
pub proof fn lemma_obs_read_bits(b: u8, k: int)
    requires
        0 <= k <= 8,
    ensures
        data_drives(read_bits_events(b, k)) == Seq::<bool>::empty(),
        data_samples(read_bits_events(b, k)) == byte_bits(b).take(k),
        clock_rises(read_bits_events(b, k)) == k,
        clock_falls(read_bits_events(b, k)) == k,
    decreases k,
{
    if k == 0 {
        assert(byte_bits(b).take(0) =~= Seq::<bool>::empty());
    } else {
        let v = bit_of(b, (8 - k) as u8);
        lemma_obs_read_bits(b, k - 1);
        lemma_obs_read_bit(v);
        lemma_obs_add(read_bits_events(b, k - 1), read_bit_events(v));
        assert(byte_bits(b)[k - 1] == v);
        assert(byte_bits(b).take(k) =~= byte_bits(b).take(k - 1) + seq![v]);
        assert(Seq::<bool>::empty() + Seq::<bool>::empty() =~= Seq::<bool>::empty());
    }
}

/// Writing a byte puts exactly its 8 bits on the data line, most
/// significant first, with the clock pulsed low-then-high exactly once per
/// bit, and samples nothing.
pub proof fn lemma_write_byte_wire(b: u8)
    ensures
        data_drives(byte_write_events(b)) == byte_bits(b),
        data_samples(byte_write_events(b)) == Seq::<bool>::empty(),
        clock_rises(byte_write_events(b)) == 8,
        clock_falls(byte_write_events(b)) == 8,
{
    let head = seq![BusEvent::Data(PinEvent::SetOutput)];
    lemma_obs_push(Seq::<BusEvent>::empty(), BusEvent::Data(PinEvent::SetOutput));
    assert(Seq::<BusEvent>::empty().push(BusEvent::Data(PinEvent::SetOutput)) =~= head);
    lemma_obs_write_bits(b, 8);
    lemma_obs_add(head, write_bits_events(b, 8));
    assert(byte_bits(b).take(8) =~= byte_bits(b));
    assert(Seq::<bool>::empty() + byte_bits(b) =~= byte_bits(b));
    assert(Seq::<bool>::empty() + Seq::<bool>::empty() =~= Seq::<bool>::empty());
}

/// Reading a byte samples exactly its 8 bits from the data line, most
/// significant first, with the clock pulsed low-then-high exactly once per
/// bit, and drives nothing on the data line.
pub proof fn lemma_read_byte_wire(b: u8)
    ensures
        data_drives(byte_read_events(b)) == Seq::<bool>::empty(),
        data_samples(byte_read_events(b)) == byte_bits(b),
        clock_rises(byte_read_events(b)) == 8,
        clock_falls(byte_read_events(b)) == 8,
{
    let head = seq![BusEvent::Data(PinEvent::SetInput)];
    lemma_obs_push(Seq::<BusEvent>::empty(), BusEvent::Data(PinEvent::SetInput));
    assert(Seq::<BusEvent>::empty().push(BusEvent::Data(PinEvent::SetInput)) =~= head);
    lemma_obs_read_bits(b, 8);
    lemma_obs_add(head, read_bits_events(b, 8));
    assert(byte_bits(b).take(8) =~= byte_bits(b));
    assert(Seq::<bool>::empty() + byte_bits(b) =~= byte_bits(b));
    assert(Seq::<bool>::empty() + Seq::<bool>::empty() =~= Seq::<bool>::empty());
}

/// The bits of each byte of `bytes` in order, most significant first
/// within each byte: everything that crosses the wire for those bytes.
pub open spec fn bytes_bits(bytes: Seq<u8>) -> Seq<bool>
    decreases bytes.len(),
{
    if bytes.len() == 0 {
        Seq::empty()
    } else {
        byte_bits(bytes[0]) + bytes_bits(bytes.drop_first())
    }
}

/// A multi-byte write drives exactly the bytes' bits in order and samples
/// nothing; one clock pulse per bit.
pub proof fn lemma_write_wire(bytes: Seq<u8>)
    ensures
        data_drives(write_seq_events(bytes)) == bytes_bits(bytes),
        data_samples(write_seq_events(bytes)) == Seq::<bool>::empty(),
        clock_rises(write_seq_events(bytes)) == 8 * bytes.len(),
        clock_falls(write_seq_events(bytes)) == 8 * bytes.len(),
    decreases bytes.len(),
{
    if bytes.len() > 0 {
        lemma_write_byte_wire(bytes[0]);
        lemma_write_wire(bytes.drop_first());
        lemma_obs_add(byte_write_events(bytes[0]), write_seq_events(bytes.drop_first()));
        assert(Seq::<bool>::empty() + Seq::<bool>::empty() =~= Seq::<bool>::empty());
    }
}

/// A multi-byte read samples exactly the bytes' bits in order and drives
/// nothing on the data line; one clock pulse per bit.
pub proof fn lemma_read_wire(bytes: Seq<u8>)
    ensures
        data_drives(read_seq_events(bytes)) == Seq::<bool>::empty(),
        data_samples(read_seq_events(bytes)) == bytes_bits(bytes),
        clock_rises(read_seq_events(bytes)) == 8 * bytes.len(),
        clock_falls(read_seq_events(bytes)) == 8 * bytes.len(),
    decreases bytes.len(),
{
    if bytes.len() > 0 {
        lemma_read_byte_wire(bytes[0]);
        lemma_read_wire(bytes.drop_first());
        lemma_obs_add(byte_read_events(bytes[0]), read_seq_events(bytes.drop_first()));
        assert(Seq::<bool>::empty() + Seq::<bool>::empty() =~= Seq::<bool>::empty());
    }
}

/// An interleaved transfer drives exactly the written bytes' bits and
/// samples exactly the read bytes' bits, in order.
pub proof fn lemma_transfer_wire(written: Seq<u8>, read: Seq<u8>)
    requires
        written.len() == read.len(),
    ensures
        data_drives(transfer_events(written, read)) == bytes_bits(written),
        data_samples(transfer_events(written, read)) == bytes_bits(read),
    decreases written.len(),
{
    if written.len() > 0 {
        lemma_write_byte_wire(written[0]);
        lemma_read_byte_wire(read[0]);
        lemma_transfer_wire(written.drop_first(), read.drop_first());
        lemma_obs_add(byte_write_events(written[0]), byte_read_events(read[0]));
        lemma_obs_add(
            byte_write_events(written[0]) + byte_read_events(read[0]),
            transfer_events(written.drop_first(), read.drop_first()),
        );
        assert(transfer_events(written, read) == byte_write_events(written[0]) + byte_read_events(
            read[0],
        ) + transfer_events(written.drop_first(), read.drop_first()));
        assert((byte_bits(written[0]) + Seq::<bool>::empty()) + bytes_bits(written.drop_first())
            =~= byte_bits(written[0]) + bytes_bits(written.drop_first()));
        assert((Seq::<bool>::empty() + byte_bits(read[0])) + bytes_bits(read.drop_first())
            =~= byte_bits(read[0]) + bytes_bits(read.drop_first()));
    }
}

/// Byte sequences of equal length with the same wire bits are the same.
pub proof fn lemma_bytes_bits_injective(a: Seq<u8>, b: Seq<u8>)
    requires
        a.len() == b.len(),
        bytes_bits(a) == bytes_bits(b),
    ensures
        a == b,
    decreases a.len(),
{
    if a.len() == 0 {
        assert(a =~= b);
    } else {
        lemma_bytes_bits_len(a);
        lemma_bytes_bits_len(b);
        lemma_bytes_bits_len(a.drop_first());
        lemma_bytes_bits_len(b.drop_first());
        assert(byte_bits(a[0]) =~= bytes_bits(a).take(8));
        assert(byte_bits(b[0]) =~= bytes_bits(b).take(8));
        lemma_byte_bits_injective(a[0], b[0]);
        assert(bytes_bits(a.drop_first()) =~= bytes_bits(a).skip(8));
        assert(bytes_bits(b.drop_first()) =~= bytes_bits(b).skip(8));
        lemma_bytes_bits_injective(a.drop_first(), b.drop_first());
        assert forall|i: int| 0 <= i < a.len() implies a[i] == #[trigger] b[i] by {
            if i > 0 {
                assert(a.drop_first()[i - 1] == b.drop_first()[i - 1]);
            }
        }
        assert(a =~= b);
    }
}

/// Each byte contributes its 8 bits to the wire.
pub proof fn lemma_bytes_bits_len(bytes: Seq<u8>)
    ensures
        bytes_bits(bytes).len() == 8 * bytes.len(),
    decreases bytes.len(),
{
    if bytes.len() > 0 {
        lemma_bytes_bits_len(bytes.drop_first());
    }
}

/// Loopback round trip: when a harness feeds every bit written to the data
/// line directly back as the bit sampled at the same position, an
/// interleaved transfer reads back exactly the bytes that were written.
pub proof fn lemma_loopback_round_trip(written: Seq<u8>, read: Seq<u8>)
    requires
        written.len() == read.len(),
        data_samples(transfer_events(written, read)) == data_drives(
            transfer_events(written, read),
        ),
    ensures
        read == written,
{
    lemma_transfer_wire(written, read);
    lemma_bytes_bits_injective(written, read);
}

} // verus!
