use illyria::Illyria;

/// One transmit iteration: tick the engine and, if it offered a byte, record
/// it and confirm the write.
fn tick_tx(e: &mut Illyria, out: &mut Vec<u8>) {
    let (b, _waiting) = e.run_tx();
    if let Some(x) = b {
        out.push(x);
        e.tx_byte_sent();
    }
}

/// Interleaved transmit and receive iterations: each iteration performs one
/// transmit tick and feeds one byte from `source` (if any) to the receiver,
/// collecting delivered payloads.
fn run(
    e: &mut Illyria,
    out: &mut Vec<u8>,
    source: &mut Vec<u8>,
    delivered: &mut Vec<Vec<u8>>,
    iters: usize,
) {
    for _ in 0..iters {
        tick_tx(e, out);
        if !source.is_empty() {
            let b = source.remove(0);
            if let Some(p) = e.run_rx(b) {
                delivered.push(p);
            }
        }
    }
}

#[test]
fn timeout_message() {
    let mut e = Illyria::new(10, 66);
    let mut out: Vec<u8> = Vec::new();
    e.send(&[0x00]).unwrap();
    for _ in 0..17 {
        tick_tx(&mut e, &mut out);
    }
    assert_eq!(
        out,
        vec![
            0,    // COBS delimiter
            3,    // Gap to next zero
            1,    // Frame type
            1,    // Length
            3,    // Payload 0 (a stuffed zero)
            0x85, // Checksum 0
            0xC8, // Checksum 1
            0,    // COBS delimiter
        ]
    );
    out.clear();
    // This should cause a retry
    for _ in 0..11 {
        tick_tx(&mut e, &mut out);
    }
    assert_eq!(out, vec![0, 3, 1, 1, 3, 0x85, 0xC8, 0]);
}

#[test]
fn rx_message() {
    let mut e = Illyria::new(10, 66);
    let mut out: Vec<u8> = Vec::new();
    let mut delivered: Vec<Vec<u8>> = Vec::new();
    let mut source: Vec<u8> = vec![
        0,    // COBS delimiter
        3,    // Gap to next zero
        1,    // Frame type
        1,    // Length
        3,    // Payload 0 (a stuffed zero)
        0x85, // Checksum 0
        0xC8, // Checksum 1
        0,    // COBS delimiter
    ];
    run(&mut e, &mut out, &mut source, &mut delivered, 20);
    // Should be a COBS-encoded ACK frame
    assert_eq!(
        out,
        vec![
            0,    // COBS delimiter
            2,    // Gap to next zero
            2,    // Frame type
            3,    // Length (zero, replaced with gap to next zero)
            0x3C, // Checksum 0
            0xF7, // Checksum 1
            0,    // COBS delimiter
        ]
    );
    // Exactly one delivery, carrying the frame's payload.
    assert_eq!(delivered, vec![vec![0x00]]);
}

#[test]
fn rx_bad_message() {
    let mut e = Illyria::new(10, 66);
    let mut out: Vec<u8> = Vec::new();
    let mut delivered: Vec<Vec<u8>> = Vec::new();
    let mut source: Vec<u8> = vec![
        0,    // COBS delimiter
        3,    // Gap to next zero
        1,    // Frame type
        1,    // Length
        3,    // Payload 0
        0xFF, // Checksum 0 (bad)
        0xC8, // Checksum 1
        0,    // COBS delimiter
    ];
    run(&mut e, &mut out, &mut source, &mut delivered, 20);
    // Should be a COBS-encoded NACK frame, with its canonically computed
    // checksum.
    assert_eq!(
        out,
        vec![
            0,    // COBS delimiter
            2,    // Gap to next zero
            3,    // Frame type
            3,    // Length (zero, replaced with gap to next zero)
            0x25, // Checksum 0
            0x2F, // Checksum 1
            0,    // COBS delimiter
        ]
    );
    assert_eq!(delivered, Vec::<Vec<u8>>::new());
}

#[test]
fn ack_message() {
    let mut e = Illyria::new(50, 66);
    let mut out: Vec<u8> = Vec::new();
    let mut delivered: Vec<Vec<u8>> = Vec::new();
    let mut source: Vec<u8> = Vec::new();
    e.send(&[0x00]).unwrap();
    run(&mut e, &mut out, &mut source, &mut delivered, 17);
    assert_eq!(out, vec![0, 3, 1, 1, 3, 0x85, 0xC8, 0]);
    // Send an ACK
    source.extend_from_slice(&[0, 2, 2, 3, 0x3C, 0xF7]);
    out.clear();
    // This should not cause a retry because it's been acked
    run(&mut e, &mut out, &mut source, &mut delivered, 50);
    assert_eq!(out, Vec::<u8>::new());
}

#[test]
fn duplicates() {
    let mut e = Illyria::new(50, 66);
    let mut out: Vec<u8> = Vec::new();
    let mut delivered: Vec<Vec<u8>> = Vec::new();
    let mut source: Vec<u8> = Vec::new();
    // purple = 01, blue = 11, red = 21
    let expected_frames: [[u8; 8]; 4] = [
        [0, 3, 0x01, 1, 3, 0x85, 0xC8, 0],
        [0, 3, 0x11, 1, 1, 2, 0x5D, 0],
        [0, 3, 0x21, 1, 3, 0x86, 0xF3, 0],
        [0, 3, 0x11, 1, 1, 2, 0x5D, 0],
    ];
    for expected_frame in expected_frames.iter() {
        out.clear();
        e.send(&[0x00]).unwrap();
        run(&mut e, &mut out, &mut source, &mut delivered, 17);
        assert_eq!(out, expected_frame.to_vec());
        // Send an ACK
        source.extend_from_slice(&[0, 2, 2, 3, 0x3C, 0xF7]);
        out.clear();
        // This should not cause a retry because it's been acked
        run(&mut e, &mut out, &mut source, &mut delivered, 50);
        assert_eq!(out, Vec::<u8>::new());
    }
}

#[test]
fn nack_message() {
    let mut e = Illyria::new(50, 66);
    let mut out: Vec<u8> = Vec::new();
    let mut delivered: Vec<Vec<u8>> = Vec::new();
    let mut source: Vec<u8> = Vec::new();
    e.send(&[0x00]).unwrap();
    run(&mut e, &mut out, &mut source, &mut delivered, 17);
    assert_eq!(out, vec![0, 3, 1, 1, 3, 0x85, 0xC8, 0]);
    // Send a NACK
    source.extend_from_slice(&[0, 2, 3, 3, 0x25, 0x2F]);
    out.clear();
    // This should cause a retry because it's been nacked
    run(&mut e, &mut out, &mut source, &mut delivered, 50);
    assert_eq!(out, vec![0, 3, 1, 1, 3, 0x85, 0xC8, 0]);
}

#[test]
fn encode_a() {
    let mut e = Illyria::new(100, 66);
    let mut out: Vec<u8> = Vec::new();
    e.send(&[0x00]).unwrap();
    for _ in 0..50 {
        tick_tx(&mut e, &mut out);
    }
    assert_eq!(
        out,
        vec![
            0,    // COBS delimiter
            3,    // Gap to next zero
            1,    // Frame type
            1,    // Length
            3,    // Payload 0 (a stuffed zero)
            0x85, // Checksum 0
            0xC8, // Checksum 1
            0,    // COBS delimiter
        ]
    );
}

#[test]
fn encode_b() {
    let mut e = Illyria::new(100, 66);
    let mut out: Vec<u8> = Vec::new();
    e.send(&[0x01, 0x09, 0x08, 0x07, 0x06]).unwrap();
    for _ in 0..50 {
        tick_tx(&mut e, &mut out);
    }
    assert_eq!(
        out,
        vec![
            0,    // COBS delimiter
            10,   // Gap to next zero
            1,    // Frame type
            5,    // Length
            1,    // Payload 0
            9,    // Payload 1
            8,    // Payload 2
            7,    // Payload 3
            6,    // Payload 4
            0x1B, // Checksum 0
            0xF9, // Checksum 1
            0,    // COBS delimiter
        ]
    );
}

#[test]
fn encode_c() {
    let mut e = Illyria::new(100, 66);
    let mut out: Vec<u8> = Vec::new();
    e.send(&[0x02, 0x01]).unwrap();
    for _ in 0..50 {
        tick_tx(&mut e, &mut out);
    }
    assert_eq!(
        out,
        vec![
            0,    // COBS delimiter
            7,    // Gap to next zero
            1,    // Frame type
            2,    // Length
            2,    // Payload 0
            1,    // Payload 1
            0x77, // Checksum 0
            0xE4, // Checksum 1
            0,    // COBS delimiter
        ]
    );
}

#[test]
fn encode_full() {
    let mut e = Illyria::new(100, 66);
    let mut out: Vec<u8> = Vec::new();
    // A payload that exactly fills the buffer's payload region minus one:
    // a tag byte and fifteen 32-bit zeros.
    let mut payload: Vec<u8> = vec![0x04];
    payload.extend_from_slice(&[0u8; 60]);
    e.send(&payload).unwrap();
    for _ in 0..50 {
        tick_tx(&mut e, &mut out);
    }
    // Don't care what this looks like, just that it fits OK
}

#[test]
fn encode_too_big() {
    let mut e = Illyria::new(10, 66);
    // A tag byte and sixteen 32-bit zeros: one more than fits.
    let mut payload: Vec<u8> = vec![0x04];
    payload.extend_from_slice(&[0u8; 64]);
    assert!(e.send(&payload).is_err());
}
