use illyria::Checksum;
use illyria::Colour;
use illyria::Error;
use illyria::Illyria;

/// One transmit iteration: tick the engine and, if it offered a byte, record
/// it and confirm the write.
fn tick_tx(e: &mut Illyria, out: &mut Vec<u8>) {
    let (b, _waiting) = e.run_tx();
    if let Some(x) = b {
        out.push(x);
        e.tx_byte_sent();
    }
}

/// Interleaved transmit and receive iterations.
fn run(
    e: &mut Illyria,
    out: &mut Vec<u8>,
    source: &mut Vec<u8>,
    delivered: &mut Vec<Vec<u8>>,
    iters: usize,
) {
    for _ in 0..iters {
        tick_tx(e, out);
        if !source.is_empty() {
            let b = source.remove(0);
            if let Some(p) = e.run_rx(b) {
                delivered.push(p);
            }
        }
    }
}

/// The wire image of a frame body: delimiter, COBS header, stuffed bytes,
/// delimiter.
fn wire(frame: &[u8]) -> Vec<u8> {
    let mut v: Vec<u8> = vec![0];
    let first = frame.iter().position(|&b| b == 0).unwrap_or(frame.len());
    v.push(first as u8 + 1);
    for (i, &b) in frame.iter().enumerate() {
        if b == 0 {
            let next = frame[i + 1..]
                .iter()
                .position(|&b2| b2 == 0)
                .unwrap_or(frame.len() - i - 1);
            v.push(next as u8 + 1);
        } else {
            v.push(b);
        }
    }
    v.push(0);
    v
}

#[test]
fn checksum_known_values() {
    let c = Checksum::generate(&[0x01, 0x01, 0x00]);
    assert_eq!(c.first_byte(), 0x85);
    assert_eq!(c.second_byte(), 0xC8);
    assert!(c.validate(&[0x01, 0x01, 0x00]));
    assert!(!c.validate(&[0x01, 0x01, 0x03]));
    // The canonical supervisory frame checksums.
    let a = Checksum::generate(&[0x02, 0x00]);
    assert_eq!((a.first_byte(), a.second_byte()), (0x3C, 0xF7));
    let n = Checksum::generate(&[0x03, 0x00]);
    assert_eq!((n.first_byte(), n.second_byte()), (0x25, 0x2F));
}

#[test]
fn colour_cycle() {
    assert_eq!(Colour::Red.next(), Colour::Blue);
    assert_eq!(Colour::Blue.next(), Colour::Red);
    assert_eq!(Colour::Purple.next(), Colour::Blue);
    assert!(Colour::Purple.matches(Colour::Red));
    assert!(Colour::Purple.matches(Colour::Blue));
    assert!(Colour::Red.matches(Colour::Purple));
    assert!(Colour::Red.matches(Colour::Red));
    assert!(!Colour::Red.matches(Colour::Blue));
    assert!(!Colour::Blue.matches(Colour::Red));
}

#[test]
fn find_zero() {
    let e = Illyria::new(10, 66);
    assert_eq!(e.cobs_find_zero(&[1, 2, 0, 4]), 2);
    assert_eq!(e.cobs_find_zero(&[1, 2, 3]), 3);
    assert_eq!(e.cobs_find_zero(&[0]), 0);
    assert_eq!(e.cobs_find_zero(&[]), 0);
}

#[test]
fn space_is_capacity_less_overhead() {
    let e = Illyria::new(10, 66);
    assert_eq!(e.space(), 62);
}

#[test]
fn send_while_in_flight() {
    let mut e = Illyria::new(10, 66);
    e.send(&[0x00]).unwrap();
    assert!(matches!(e.send(&[0x01]), Err(Error::PacketInFlight)));
    // Still in flight while the frame is mid-emission and while waiting for
    // the acknowledgement.
    let mut out: Vec<u8> = Vec::new();
    for _ in 0..12 {
        tick_tx(&mut e, &mut out);
    }
    assert!(matches!(e.send(&[0x01]), Err(Error::PacketInFlight)));
}

#[test]
fn message_too_large() {
    let mut e = Illyria::new(10, 66);
    assert!(matches!(e.send(&[0u8; 63]), Err(Error::MessageTooLarge)));
    let mut e2 = Illyria::new(10, 66);
    assert!(e2.send(&[0u8; 62]).is_ok());
}

#[test]
fn reset_restarts_emission() {
    let mut e = Illyria::new(10, 66);
    let mut out: Vec<u8> = Vec::new();
    e.send(&[0x00]).unwrap();
    for _ in 0..4 {
        tick_tx(&mut e, &mut out);
    }
    assert_eq!(out, vec![0, 3, 1]);
    e.reset();
    out.clear();
    for _ in 0..17 {
        tick_tx(&mut e, &mut out);
    }
    // The buffered frame is emitted again from its opening delimiter.
    assert_eq!(out, vec![0, 3, 1, 1, 3, 0x85, 0xC8, 0]);
}

#[test]
fn duplicate_is_acked_but_not_redelivered() {
    let mut e = Illyria::new(50, 66);
    let mut out: Vec<u8> = Vec::new();
    let mut delivered: Vec<Vec<u8>> = Vec::new();
    let blue: [u8; 8] = [0, 3, 0x11, 1, 1, 2, 0x5D, 0];
    let mut source: Vec<u8> = blue.to_vec();
    run(&mut e, &mut out, &mut source, &mut delivered, 20);
    assert_eq!(delivered, vec![vec![0x00]]);
    assert_eq!(out, vec![0, 2, 2, 3, 0x3C, 0xF7, 0]);
    // The identical frame again: no second delivery, but a fresh ACK.
    out.clear();
    let mut source2: Vec<u8> = blue.to_vec();
    run(&mut e, &mut out, &mut source2, &mut delivered, 20);
    assert_eq!(delivered, vec![vec![0x00]]);
    assert_eq!(out, vec![0, 2, 2, 3, 0x3C, 0xF7, 0]);
}

#[test]
fn unknown_frame_type_ignored() {
    let mut e = Illyria::new(50, 66);
    let mut out: Vec<u8> = Vec::new();
    let mut delivered: Vec<Vec<u8>> = Vec::new();
    // A frame with an undefined type byte but a valid checksum.
    let mut f: Vec<u8> = vec![0x07, 0x00];
    let c = Checksum::generate(&f);
    f.push(c.first_byte());
    f.push(c.second_byte());
    let mut source = wire(&f);
    run(&mut e, &mut out, &mut source, &mut delivered, 20);
    assert_eq!(out, Vec::<u8>::new());
    assert_eq!(delivered, Vec::<Vec<u8>>::new());
}

#[test]
fn overlong_frame_dropped() {
    let mut e = Illyria::new(10, 66);
    let mut out: Vec<u8> = Vec::new();
    let mut delivered: Vec<Vec<u8>> = Vec::new();
    // A frame that claims 255 payload bytes: the receive buffer fills, the
    // frame is dropped on the floor, and the receiver recovers.
    let mut source: Vec<u8> = vec![0, 0xFF, 0x01, 0xFF];
    source.extend_from_slice(&[0x42; 100]);
    run(&mut e, &mut out, &mut source, &mut delivered, 110);
    assert_eq!(out, Vec::<u8>::new());
    assert_eq!(delivered, Vec::<Vec<u8>>::new());
    // A good frame afterwards is received normally.
    let mut source2: Vec<u8> = vec![0, 3, 1, 1, 3, 0x85, 0xC8, 0];
    run(&mut e, &mut out, &mut source2, &mut delivered, 20);
    assert_eq!(delivered, vec![vec![0x00]]);
}

#[test]
fn payload_with_zeros_round_trips() {
    // Stuffing a payload full of zeros and feeding the emitted bytes to a
    // second engine delivers the payload unchanged.
    let mut tx = Illyria::new(100, 66);
    let mut rx = Illyria::new(100, 66);
    let mut emitted: Vec<u8> = Vec::new();
    let payload: [u8; 7] = [0x00, 0x10, 0x00, 0x00, 0x20, 0x00, 0x30];
    tx.send(&payload).unwrap();
    for _ in 0..20 {
        tick_tx(&mut tx, &mut emitted);
    }
    // No delimiter appears between the two framing delimiters.
    assert_eq!(emitted[0], 0);
    assert_eq!(*emitted.last().unwrap(), 0);
    for &b in &emitted[1..emitted.len() - 1] {
        assert_ne!(b, 0);
    }
    let mut delivered: Vec<Vec<u8>> = Vec::new();
    for b in emitted {
        if let Some(p) = rx.run_rx(b) {
            delivered.push(p);
        }
    }
    assert_eq!(delivered, vec![payload.to_vec()]);
}
