use bitbang_spi::{
    BidirectionalPin, BitBangSpiBus, LoopbackPin, PinEvent, SimBidirectionalPin, SimOutputPin,
};

fn bit(b: u8, i: u8) -> bool {
    (b >> i) & 1 == 1
}

/// The data-pin events a single write-byte must produce: one switch to
/// output mode, then the byte's bits driven most-significant first.
fn expected_write_data_events(b: u8) -> Vec<PinEvent> {
    let mut events = vec![PinEvent::SetOutput];
    for i in (0..8).rev() {
        events.push(PinEvent::Drive(bit(b, i)));
    }
    events
}

/// The clock-pin events a single byte operation must produce: one
/// low-then-high pulse per bit.
fn expected_clock_pulses(bytes: usize) -> Vec<PinEvent> {
    let mut events = Vec::new();
    for _ in 0..bytes * 8 {
        events.push(PinEvent::Drive(false));
        events.push(PinEvent::Drive(true));
    }
    events
}

#[test]
fn write_byte_drives_msb_first_every_byte() {
    for b in 0..=255u8 {
        let sck = SimOutputPin::new();
        let sdio = SimBidirectionalPin::new(Vec::new());
        let mut bus = BitBangSpiBus::new(sck, sdio);
        let words = vec![b];
        assert!(bus.write(&words).is_ok());
        let (sck, sdio) = bus.release();
        assert_eq!(sdio.log, expected_write_data_events(b));
        let mut clock = vec![PinEvent::Drive(true)];
        clock.extend(expected_clock_pulses(1));
        assert_eq!(sck.log, clock);
    }
}

#[test]
fn read_byte_reconstructs_sampled_bits_every_byte() {
    for b in 0..=255u8 {
        let mut levels = Vec::new();
        for i in (0..8).rev() {
            levels.push(bit(b, i));
        }
        let sck = SimOutputPin::new();
        let sdio = SimBidirectionalPin::new(levels.clone());
        let mut bus = BitBangSpiBus::new(sck, sdio);
        let mut words = vec![0u8];
        assert!(bus.read(&mut words).is_ok());
        assert_eq!(words, vec![b]);
        let (sck, sdio) = bus.release();
        let mut expected = vec![PinEvent::SetInput];
        for level in levels {
            expected.push(PinEvent::Sample(level));
        }
        assert_eq!(sdio.log, expected);
        let mut clock = vec![PinEvent::Drive(true)];
        clock.extend(expected_clock_pulses(1));
        assert_eq!(sck.log, clock);
    }
}

#[test]
fn read_unscripted_line_gives_zero() {
    let sck = SimOutputPin::new();
    let sdio = SimBidirectionalPin::new(Vec::new());
    let mut bus = BitBangSpiBus::new(sck, sdio);
    let mut words = vec![0xFFu8, 0xFFu8];
    assert!(bus.read(&mut words).is_ok());
    assert_eq!(words, vec![0x00, 0x00]);
}

#[test]
fn loopback_transfer_in_place_round_trips() {
    let sck = SimOutputPin::new();
    let sdio = LoopbackPin::new();
    let mut bus = BitBangSpiBus::new(sck, sdio);
    let original = vec![0x12u8, 0x34, 0xAB, 0xFF, 0x00, 0x80, 0x01];
    let mut words = original.clone();
    assert!(bus.transfer_in_place(&mut words).is_ok());
    assert_eq!(words, original);
}

#[test]
fn transfer_in_place_interleaves_directions_per_byte() {
    let sck = SimOutputPin::new();
    let sdio = LoopbackPin::new();
    let mut bus = BitBangSpiBus::new(sck, sdio);
    let mut words = vec![0xC3u8, 0x3C];
    assert!(bus.transfer_in_place(&mut words).is_ok());
    let (_, sdio) = bus.release();
    let mode_switches: Vec<PinEvent> = sdio
        .log
        .iter()
        .filter(|e| matches!(e, PinEvent::SetOutput | PinEvent::SetInput))
        .cloned()
        .collect();
    assert_eq!(
        mode_switches,
        vec![
            PinEvent::SetOutput,
            PinEvent::SetInput,
            PinEvent::SetOutput,
            PinEvent::SetInput,
        ]
    );
}

#[test]
fn transfer_completes_write_phase_before_read_phase() {
    let sck = SimOutputPin::new();
    let sdio = SimBidirectionalPin::new(Vec::new());
    let mut bus = BitBangSpiBus::new(sck, sdio);
    let write_buf = vec![0xAAu8, 0x55];
    let mut read_buf = vec![0u8; 3];
    assert!(bus.transfer(&mut read_buf, &write_buf).is_ok());
    assert_eq!(read_buf, vec![0x00, 0x00, 0x00]);
    let (sck, sdio) = bus.release();

    // The data line switches to output once per written byte, then to input
    // once per read byte; every drive precedes every sample.
    let mut expected = expected_write_data_events(0xAA);
    expected.extend(expected_write_data_events(0x55));
    for _ in 0..3 {
        expected.push(PinEvent::SetInput);
        for _ in 0..8 {
            expected.push(PinEvent::Sample(false));
        }
    }
    assert_eq!(sdio.log, expected);

    // One clock pulse per bit, write phase and read phase alike.
    let mut clock = vec![PinEvent::Drive(true)];
    clock.extend(expected_clock_pulses(5));
    assert_eq!(sck.log, clock);
}

#[test]
fn flush_alters_no_pin_state_and_succeeds() {
    let sck = SimOutputPin::new();
    let sdio = SimBidirectionalPin::new(Vec::new());
    let mut bus = BitBangSpiBus::new(sck, sdio);
    let words = vec![0x5Au8];
    assert!(bus.write(&words).is_ok());
    assert!(bus.flush().is_ok());
    let (sck_after, sdio_after) = bus.release();

    let sck = SimOutputPin::new();
    let sdio = SimBidirectionalPin::new(Vec::new());
    let mut bus = BitBangSpiBus::new(sck, sdio);
    assert!(bus.write(&words).is_ok());
    let (sck_no_flush, sdio_no_flush) = bus.release();

    assert_eq!(sck_after.log, sck_no_flush.log);
    assert_eq!(sdio_after.log, sdio_no_flush.log);
}

#[test]
fn clock_idles_high_after_construction_and_every_operation() {
    let sck = SimOutputPin::new();
    let sdio = LoopbackPin::new();
    let mut bus = BitBangSpiBus::new(sck, sdio);

    let words = vec![0x0Fu8, 0xF0];
    assert!(bus.write(&words).is_ok());
    let mut incoming = vec![0u8; 2];
    assert!(bus.read(&mut incoming).is_ok());
    let mut both = vec![0x77u8];
    assert!(bus.transfer_in_place(&mut both).is_ok());

    let (sck, _) = bus.release();
    assert_eq!(sck.log.first(), Some(&PinEvent::Drive(true)));
    assert_eq!(sck.log.last(), Some(&PinEvent::Drive(true)));
}

#[test]
fn zero_length_buffers_pulse_nothing_and_succeed() {
    let sck = SimOutputPin::new();
    let sdio = SimBidirectionalPin::new(Vec::new());
    let mut bus = BitBangSpiBus::new(sck, sdio);
    let mut empty_read: Vec<u8> = Vec::new();
    let empty_write: Vec<u8> = Vec::new();
    assert!(bus.read(&mut empty_read).is_ok());
    assert!(bus.write(&empty_write).is_ok());
    assert!(bus.transfer(&mut empty_read, &empty_write).is_ok());
    let mut empty_both: Vec<u8> = Vec::new();
    assert!(bus.transfer_in_place(&mut empty_both).is_ok());
    let (sck, sdio) = bus.release();
    // Only the idle-high drive from construction; no clock pulse, no data
    // event.
    assert_eq!(sck.log, vec![PinEvent::Drive(true)]);
    assert_eq!(sdio.log, Vec::<PinEvent>::new());
}

#[test]
fn multi_byte_write_keeps_byte_order() {
    let sck = SimOutputPin::new();
    let sdio = SimBidirectionalPin::new(Vec::new());
    let mut bus = BitBangSpiBus::new(sck, sdio);
    let words = vec![0x01u8, 0x80, 0xFF];
    assert!(bus.write(&words).is_ok());
    let (_, sdio) = bus.release();
    let mut expected = expected_write_data_events(0x01);
    expected.extend(expected_write_data_events(0x80));
    expected.extend(expected_write_data_events(0xFF));
    assert_eq!(sdio.log, expected);
}

#[test]
fn transfer_fills_read_buffer_from_sampled_line() {
    // The write phase samples nothing, so the whole script is consumed by
    // the read phase, byte by byte.
    let mut levels = Vec::new();
    for b in [0x5Au8, 0xC3] {
        for i in (0..8).rev() {
            levels.push(bit(b, i));
        }
    }
    let sck = SimOutputPin::new();
    let sdio = SimBidirectionalPin::new(levels);
    let mut bus = BitBangSpiBus::new(sck, sdio);
    let write_buf = vec![0xFFu8];
    let mut read_buf = vec![0u8; 2];
    assert!(bus.transfer(&mut read_buf, &write_buf).is_ok());
    assert_eq!(read_buf, vec![0x5A, 0xC3]);
}

#[test]
fn transfer_in_place_overwrites_written_byte_with_sampled_byte() {
    let mut levels = Vec::new();
    for i in (0..8).rev() {
        levels.push(bit(0x0F, i));
    }
    let sck = SimOutputPin::new();
    let sdio = SimBidirectionalPin::new(levels);
    let mut bus = BitBangSpiBus::new(sck, sdio);
    let mut words = vec![0xFFu8];
    assert!(bus.transfer_in_place(&mut words).is_ok());
    assert_eq!(words, vec![0x0F]);
    let (_, sdio) = bus.release();
    // The byte written is the one that was there before the overwrite.
    let mut expected = expected_write_data_events(0xFF);
    expected.push(PinEvent::SetInput);
    for i in (0..8).rev() {
        expected.push(PinEvent::Sample(bit(0x0F, i)));
    }
    assert_eq!(sdio.log, expected);
}

#[test]
fn is_low_negates_is_high() {
    let mut pin = SimBidirectionalPin::new(vec![true, false]);
    pin.set_as_input();
    assert!(!pin.is_low());
    assert!(pin.is_low());
}
