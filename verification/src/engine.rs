//! The protocol engine: one instance per serial link, holding the transmit
//! and receive state machines, the fixed-capacity frame buffers, and the
//! colour bookkeeping for stop-and-wait duplicate rejection.
//!
//! The engine performs no I/O itself. `run_tx` reports the byte that should
//! be written next (the host calls `tx_byte_sent` once the transport accepted
//! it, so a transport that would block simply retries the same byte), and
//! `run_rx` consumes one received byte, returning a payload when a valid,
//! expected I-frame completes.
//!
//! Every public operation's contract states that its effect on the engine
//! equals a specification-level transition function (`spec_tick`,
//! `spec_byte_sent`, `spec_rx`, `spec_send`) over the engine's abstract
//! `Model`; the laws about retransmission, acknowledgement and duplicate
//! rejection are proved over those transition functions.

use vstd::prelude::*;

use crate::checksum::Checksum;
use crate::checksum::crc16_x25_of;
use crate::cobs::cobs_encode;
use crate::cobs::destuff_step;
use crate::cobs::find_zero_from;
use crate::cobs::next_zero;
use crate::cobs::stuffed;
use crate::frame::Colour;
use crate::frame::SframeKind;
use crate::frame::build_sframe;
use crate::frame::colour_header;
use crate::frame::colour_matches;
use crate::frame::colour_next;
use crate::frame::iframe_img;
use crate::frame::sframe_img;
use crate::frame::HEADER_ACK;
use crate::frame::HEADER_BLUE_IFRAME;
use crate::frame::HEADER_NACK;
use crate::frame::HEADER_PURPLE_IFRAME;
use crate::frame::HEADER_RED_IFRAME;

verus! {

/// What `run_tx` reports: whether the engine is sitting in the
/// wait-for-acknowledgement state (so the host may back off before ticking
/// again).
#[derive(Clone, Copy, Debug, PartialEq, Eq, Structural)]
pub enum WaitingForAckNack {
    Yes,
    No,
}

/// The errors `send` can return.
#[derive(Clone, Copy, Debug, PartialEq, Eq, Structural)]
pub enum Error {
    /// An I-frame is already buffered, mid-transmission, or awaiting its
    /// acknowledgement.
    PacketInFlight,
    /// The payload does not fit the frame buffer's payload region.
    MessageTooLarge,
}

/// Which frame the transmitter is emitting: the buffered I-frame, or one of
/// the two supervisory frames.
#[derive(Clone, Copy, Debug, PartialEq, Eq, Structural)]
pub enum Payload {
    IFrame,
    SFrame(SframeKind),
}

/// The transmit state machine.
#[derive(Clone, Copy, Debug, PartialEq, Eq, Structural)]
pub enum TxState {
    Idle,
    SendingDelimiterStart { payload: Payload },
    SendingCobsHeader { payload: Payload },
    SendingPayload { payload: Payload, sent: usize },
    SendingDelimiterEnd { payload: Payload },
    WaitingForAckNack { num_polls: u32 },
}

/// The receive state machine. The `cobs` fields carry the in-line destuffing
/// counter; `frame` is the destuffed frame type byte.
#[derive(Clone, Copy, Debug, PartialEq, Eq, Structural)]
pub enum RxState {
    WantFrameDelimiter,
    WantCobsHeader,
    WantFrameType { cobs: u8 },
    WantLength { cobs: u8, frame: u8 },
    WantPayload { cobs: u8, frame: u8, length: usize },
    WantChecksumFirst { cobs: u8, frame: u8 },
    WantChecksumSecond { cobs: u8, frame: u8, csum_first: u8 },
}

/// The abstract state of an engine: every field of the machine, with the
/// buffers as byte sequences. The two supervisory frame images are part of
/// the state; a freshly constructed engine renders them canonically.
#[verifier::ext_equal]
pub ghost struct Model {
    pub poll_limit: u32,
    pub cap: usize,
    pub tx: Seq<u8>,
    pub sframe_pending: Option<SframeKind>,
    pub rx: Seq<u8>,
    pub tx_state: TxState,
    pub next_tx_colour: Colour,
    pub rx_state: RxState,
    pub rx_colour: Colour,
    pub ack_frame: Seq<u8>,
    pub nack_frame: Seq<u8>,
}

/// The frame image a transmit state refers to.
pub open spec fn payload_img(m: Model, p: Payload) -> Seq<u8> {
    match p {
        Payload::IFrame => m.tx,
        Payload::SFrame(SframeKind::Ack) => m.ack_frame,
        Payload::SFrame(SframeKind::Nack) => m.nack_frame,
    }
}

/// Transmit-side well-formedness: a frame being emitted is nonempty, the
/// position within it is in range, and while an acknowledgement is awaited
/// the unacknowledged I-frame is still buffered.
pub open spec fn tx_state_wf(m: Model) -> bool {
    match m.tx_state {
        TxState::Idle => true,
        TxState::SendingDelimiterStart { payload } => payload_img(m, payload).len() > 0,
        TxState::SendingCobsHeader { payload } => payload_img(m, payload).len() > 0,
        TxState::SendingPayload { payload, sent } => sent < payload_img(m, payload).len(),
        TxState::SendingDelimiterEnd { payload } => payload_img(m, payload).len() > 0,
        TxState::WaitingForAckNack { num_polls } => num_polls <= m.poll_limit && m.tx.len() > 0,
    }
}

/// Receive-side well-formedness: destuffing counters are positive (a counter
/// of one reloads rather than decrements), and the accumulated bytes agree
/// with the state.
pub open spec fn rx_state_wf(m: Model) -> bool {
    match m.rx_state {
        RxState::WantFrameDelimiter => true,
        RxState::WantCobsHeader => m.rx.len() == 0,
        RxState::WantFrameType { cobs } => cobs >= 1 && m.rx.len() == 0,
        RxState::WantLength { cobs, .. } => cobs >= 1 && m.rx.len() == 1,
        RxState::WantPayload { cobs, length, .. } => cobs >= 1 && 1 <= length <= 255 && 2
            <= m.rx.len() < length + 2,
        RxState::WantChecksumFirst { cobs, .. } => cobs >= 1 && 2 <= m.rx.len(),
        RxState::WantChecksumSecond { cobs, .. } => cobs >= 1 && 2 <= m.rx.len(),
    }
}

/// The engine's invariant, true between any two ticks.
pub open spec fn model_wf(m: Model) -> bool {
    &&& 4 <= m.cap <= 254
    &&& m.tx.len() <= m.cap
    &&& m.rx.len() <= m.cap
    &&& m.ack_frame.len() == 4
    &&& m.nack_frame.len() == 4
    &&& tx_state_wf(m)
    &&& rx_state_wf(m)
}

/// The states in which `send` may overwrite the transmit buffer: idle, or
/// mid-emission of a supervisory frame (which does not use the buffer).
pub open spec fn send_allowed_state(s: TxState) -> bool {
    match s {
        TxState::Idle => true,
        TxState::SendingDelimiterStart { payload } => payload is SFrame,
        TxState::SendingCobsHeader { payload } => payload is SFrame,
        TxState::SendingPayload { payload, .. } => payload is SFrame,
        TxState::SendingDelimiterEnd { payload } => payload is SFrame,
        TxState::WaitingForAckNack { .. } => false,
    }
}

/// Exactly when `send` succeeds, and which error it returns otherwise.
pub open spec fn spec_send_result(m: Model, p: Seq<u8>) -> Result<(), Error> {
    if m.tx.len() != 0 {
        Err(Error::PacketInFlight)
    } else if !send_allowed_state(m.tx_state) {
        Err(Error::PacketInFlight)
    } else if p.len() > m.cap - 4 {
        Err(Error::MessageTooLarge)
    } else {
        Ok(())
    }
}

/// The effect of `send`: on success the transmit buffer holds the complete
/// I-frame for payload `p`, coloured with the current transmit colour;
/// nothing else changes, and on failure nothing changes at all.
pub open spec fn spec_send(m: Model, p: Seq<u8>) -> Model {
    if spec_send_result(m, p) is Ok {
        Model { tx: iframe_img(m.next_tx_colour, p), ..m }
    } else {
        m
    }
}

/// The state change of one `run_tx` call. States that emit a byte do not
/// advance here (they advance in `spec_byte_sent`, once the transport took
/// the byte): in `Idle` a buffered I-frame, else a pending supervisory frame,
/// begins emission; in the wait state the poll counter advances until the
/// limit forces a retransmission.
pub open spec fn spec_tick(m: Model) -> Model {
    match m.tx_state {
        TxState::Idle => {
            if m.tx.len() != 0 {
                Model { tx_state: TxState::SendingDelimiterStart { payload: Payload::IFrame }, ..m }
            } else {
                match m.sframe_pending {
                    Some(k) => Model {
                        tx_state: TxState::SendingDelimiterStart { payload: Payload::SFrame(k) },
                        sframe_pending: None,
                        ..m
                    },
                    None => m,
                }
            }
        },
        TxState::WaitingForAckNack { num_polls } => {
            if num_polls >= m.poll_limit {
                Model { tx_state: TxState::SendingDelimiterStart { payload: Payload::IFrame }, ..m }
            } else {
                Model {
                    tx_state: TxState::WaitingForAckNack { num_polls: (num_polls + 1) as u32 },
                    ..m
                }
            }
        },
        _ => m,
    }
}

/// The byte `run_tx` asks the transport to write, if any: the delimiters, the
/// COBS header, or the next stuffed frame byte.
pub open spec fn spec_tx_byte(m: Model) -> Option<u8> {
    match m.tx_state {
        TxState::SendingDelimiterStart { .. } => Some(0u8),
        TxState::SendingCobsHeader { payload } => Some(cobs_encode(payload_img(m, payload))[0]),
        TxState::SendingPayload { payload, sent } => Some(
            stuffed(payload_img(m, payload))[sent as int],
        ),
        TxState::SendingDelimiterEnd { .. } => Some(0u8),
        _ => None,
    }
}

/// Whether `run_tx` reports that it is waiting for an acknowledgement.
pub open spec fn spec_tx_waiting(m: Model) -> WaitingForAckNack {
    match m.tx_state {
        TxState::WaitingForAckNack { num_polls } => if num_polls >= m.poll_limit {
            WaitingForAckNack::No
        } else {
            WaitingForAckNack::Yes
        },
        _ => WaitingForAckNack::No,
    }
}

/// The state change of `tx_byte_sent`: advance past the byte the transport
/// just accepted. After an I-frame's closing delimiter the engine waits for
/// an acknowledgement; after a supervisory frame's it is idle again.
pub open spec fn spec_byte_sent(m: Model) -> Model {
    match m.tx_state {
        TxState::SendingDelimiterStart { payload } => Model {
            tx_state: TxState::SendingCobsHeader { payload },
            ..m
        },
        TxState::SendingCobsHeader { payload } => Model {
            tx_state: TxState::SendingPayload { payload, sent: 0 },
            ..m
        },
        TxState::SendingPayload { payload, sent } => {
            if sent + 1 == payload_img(m, payload).len() {
                Model { tx_state: TxState::SendingDelimiterEnd { payload }, ..m }
            } else {
                Model {
                    tx_state: TxState::SendingPayload { payload, sent: (sent + 1) as usize },
                    ..m
                }
            }
        },
        TxState::SendingDelimiterEnd { payload } => {
            match payload {
                Payload::IFrame => Model {
                    tx_state: TxState::WaitingForAckNack { num_polls: 0 },
                    ..m
                },
                Payload::SFrame(_) => Model { tx_state: TxState::Idle, ..m },
            }
        },
        _ => m,
    }
}

/// The colour carried by an I-frame type byte, if it is one.
pub open spec fn header_colour(b: u8) -> Option<Colour> {
    if b == HEADER_RED_IFRAME {
        Some(Colour::Red)
    } else if b == HEADER_BLUE_IFRAME {
        Some(Colour::Blue)
    } else if b == HEADER_PURPLE_IFRAME {
        Some(Colour::Purple)
    } else {
        None
    }
}

/// Dispatch of a checksum-valid I-frame of colour `c`: an acknowledgement is
/// scheduled even for duplicates, and on a colour match the expected colour
/// advances (delivery is the caller's concern).
pub open spec fn spec_dispatch_iframe(m: Model, c: Colour) -> Model {
    let m1 = Model { sframe_pending: Some(SframeKind::Ack), ..m };
    if colour_matches(m.rx_colour, c) {
        Model { rx_colour: colour_next(c), ..m1 }
    } else {
        m1
    }
}

/// Dispatch of a completed frame whose type byte is `frame` and received
/// checksum is `csum`, while the accumulated body still sits in `m.rx`. On a
/// bad checksum a negative acknowledgement is scheduled; an acknowledgement
/// clears the buffered I-frame and advances the transmit colour; a negative
/// acknowledgement returns the transmitter to idle with the buffer intact, so
/// it retransmits; unknown types are ignored.
pub open spec fn spec_dispatch(m: Model, frame: u8, csum: u16) -> Model {
    if csum == crc16_x25_of(m.rx) {
        match header_colour(frame) {
            Some(c) => spec_dispatch_iframe(m, c),
            None => {
                if frame == HEADER_ACK {
                    if m.tx_state is WaitingForAckNack {
                        Model {
                            next_tx_colour: colour_next(m.next_tx_colour),
                            tx_state: TxState::Idle,
                            tx: Seq::empty(),
                            ..m
                        }
                    } else {
                        m
                    }
                } else if frame == HEADER_NACK {
                    if m.tx_state is WaitingForAckNack {
                        Model { tx_state: TxState::Idle, ..m }
                    } else {
                        m
                    }
                } else {
                    m
                }
            },
        }
    } else {
        Model { sframe_pending: Some(SframeKind::Nack), ..m }
    }
}

/// The state change of one `run_rx` call on byte `b`. A zero byte resyncs in
/// every state, discarding any partial frame; nonzero bytes drive the
/// destuffing counter and accumulate the frame body; the byte that completes
/// the checksum triggers validation and dispatch.
pub open spec fn spec_rx(m: Model, b: u8) -> Model {
    if b == 0 {
        Model { rx: Seq::empty(), rx_state: RxState::WantCobsHeader, ..m }
    } else {
        match m.rx_state {
            RxState::WantFrameDelimiter => m,
            RxState::WantCobsHeader => Model { rx_state: RxState::WantFrameType { cobs: b }, ..m },
            RxState::WantFrameType { cobs } => {
                let c2 = destuff_step(cobs, b).0;
                let v = destuff_step(cobs, b).1;
                Model {
                    rx: m.rx.push(v),
                    rx_state: RxState::WantLength { cobs: c2, frame: v },
                    ..m
                }
            },
            RxState::WantLength { cobs, frame } => {
                let c2 = destuff_step(cobs, b).0;
                let v = destuff_step(cobs, b).1;
                if v == 0 {
                    Model {
                        rx: m.rx.push(v),
                        rx_state: RxState::WantChecksumFirst { cobs: c2, frame },
                        ..m
                    }
                } else {
                    Model {
                        rx: m.rx.push(v),
                        rx_state: RxState::WantPayload { cobs: c2, frame, length: v as usize },
                        ..m
                    }
                }
            },
            RxState::WantPayload { cobs, frame, length } => {
                if m.rx.len() == m.cap {
                    Model { rx_state: RxState::WantFrameDelimiter, ..m }
                } else {
                    let c2 = destuff_step(cobs, b).0;
                    let v = destuff_step(cobs, b).1;
                    if m.rx.len() + 1 == length + 2 {
                        Model {
                            rx: m.rx.push(v),
                            rx_state: RxState::WantChecksumFirst { cobs: c2, frame },
                            ..m
                        }
                    } else {
                        Model {
                            rx: m.rx.push(v),
                            rx_state: RxState::WantPayload { cobs: c2, frame, length },
                            ..m
                        }
                    }
                }
            },
            RxState::WantChecksumFirst { cobs, frame } => {
                let c2 = destuff_step(cobs, b).0;
                let v = destuff_step(cobs, b).1;
                Model {
                    rx_state: RxState::WantChecksumSecond { cobs: c2, frame, csum_first: v },
                    ..m
                }
            },
            RxState::WantChecksumSecond { cobs, frame, csum_first } => {
                let v = destuff_step(cobs, b).1;
                let csum = ((csum_first as u16) << 8) | (v as u16);
                Model {
                    rx: Seq::empty(),
                    rx_state: RxState::WantFrameDelimiter,
                    ..spec_dispatch(m, frame, csum)
                }
            },
        }
    }
}

/// The payload `run_rx` delivers on byte `b`, if any: the body of a
/// checksum-valid I-frame whose colour matches the expected one.
pub open spec fn spec_rx_out(m: Model, b: u8) -> Option<Seq<u8>> {
    if b == 0 {
        None
    } else {
        match m.rx_state {
            RxState::WantChecksumSecond { cobs, frame, csum_first } => {
                let v = destuff_step(cobs, b).1;
                let csum = ((csum_first as u16) << 8) | (v as u16);
                if csum == crc16_x25_of(m.rx) {
                    match header_colour(frame) {
                        Some(c) => if colour_matches(m.rx_colour, c) {
                            Some(m.rx.skip(2))
                        } else {
                            None
                        },
                        None => None,
                    }
                } else {
                    None
                }
            },
            _ => None,
        }
    }
}

/// Protocol state for one serial link.
pub struct Illyria {
    poll_limit: u32,
    cap: usize,
    tx_buffer: Vec<u8>,
    sframe_pending: Option<SframeKind>,
    rx_buffer: Vec<u8>,
    tx_state: TxState,
    next_tx_colour: Colour,
    rx_state: RxState,
    rx_colour: Colour,
    sframe_ack: Vec<u8>,
    sframe_nack: Vec<u8>,
}

impl View for Illyria {
    type V = Model;

    closed spec fn view(&self) -> Model {
        Model {
            poll_limit: self.poll_limit,
            cap: self.cap,
            tx: self.tx_buffer@,
            sframe_pending: self.sframe_pending,
            rx: self.rx_buffer@,
            tx_state: self.tx_state,
            next_tx_colour: self.next_tx_colour,
            rx_state: self.rx_state,
            rx_colour: self.rx_colour,
            ack_frame: self.sframe_ack@,
            nack_frame: self.sframe_nack@,
        }
    }
}

impl Illyria {
    /// The engine's invariant; established by `new` and preserved by every
    /// operation.
    pub open spec fn wf(&self) -> bool {
        model_wf(self@)
    }

    /// A fresh engine: idle, empty buffers, both colours at the post-reset
    /// wildcard, supervisory frames rendered with canonically computed
    /// checksums. `cap` is the frame buffer capacity; frames are COBS blocks,
    /// so it is capped at 254.
    pub fn new(poll_limit: u32, cap: usize) -> (r: Illyria)
        requires
            4 <= cap <= 254,
        ensures
            r.wf(),
            r@ == (Model {
                poll_limit,
                cap,
                tx: Seq::empty(),
                sframe_pending: None,
                rx: Seq::empty(),
                tx_state: TxState::Idle,
                next_tx_colour: Colour::Purple,
                rx_state: RxState::WantFrameDelimiter,
                rx_colour: Colour::Purple,
                ack_frame: sframe_img(SframeKind::Ack),
                nack_frame: sframe_img(SframeKind::Nack),
            }),
    {
        let r = Illyria {
            poll_limit,
            cap,
            tx_buffer: Vec::new(),
            sframe_pending: None,
            rx_buffer: Vec::new(),
            tx_state: TxState::Idle,
            next_tx_colour: Colour::Purple,
            rx_state: RxState::WantFrameDelimiter,
            rx_colour: Colour::Purple,
            sframe_ack: build_sframe(SframeKind::Ack),
            sframe_nack: build_sframe(SframeKind::Nack),
        };
        proof {
            assert(sframe_img(SframeKind::Ack).len() == 4);
            assert(sframe_img(SframeKind::Nack).len() == 4);
        }
        r
    }

    /// The payload budget: the capacity less the four bytes of frame
    /// overhead.
    pub fn space(&self) -> (r: usize)
        requires
            self.wf(),
        ensures
            r == self@.cap - 4,
    {
        self.cap - 4
    }

    /// Buffers the I-frame for `payload`: type byte carrying the current
    /// transmit colour, length, payload, canonical checksum. Fails with
    /// `PacketInFlight` while an I-frame is outstanding (a supervisory frame
    /// in flight does not block), and with `MessageTooLarge` when the payload
    /// exceeds `space()`. Emission begins on the following `run_tx` ticks.
    pub fn send(&mut self, payload: &[u8]) -> (r: Result<(), Error>)
        requires
            old(self).wf(),
        ensures
            final(self).wf(),
            final(self)@ == spec_send(old(self)@, payload@),
            r == spec_send_result(old(self)@, payload@),
    {
        if self.tx_buffer.len() != 0 {
            return Err(Error::PacketInFlight);
        }
        let allowed = match self.tx_state {
            TxState::Idle => true,
            TxState::SendingDelimiterStart { payload: Payload::SFrame(_) } => true,
            TxState::SendingCobsHeader { payload: Payload::SFrame(_) } => true,
            TxState::SendingPayload { payload: Payload::SFrame(_), .. } => true,
            TxState::SendingDelimiterEnd { payload: Payload::SFrame(_) } => true,
            _ => false,
        };
        if !allowed {
            return Err(Error::PacketInFlight);
        }
        if payload.len() > self.cap - 4 {
            return Err(Error::MessageTooLarge);
        }
        let hdr: u8 = match self.next_tx_colour {
            Colour::Red => HEADER_RED_IFRAME,
            Colour::Blue => HEADER_BLUE_IFRAME,
            Colour::Purple => HEADER_PURPLE_IFRAME,
        };
        let ghost body = seq![colour_header(old(self)@.next_tx_colour), payload@.len() as u8]
            + payload@;
        let mut buf: Vec<u8> = Vec::new();
        buf.push(hdr);
        buf.push(payload.len() as u8);
        let mut i: usize = 0;
        while i < payload.len()
            invariant
                i <= payload@.len(),
                payload@.len() <= 250,
                buf@ == seq![hdr, payload@.len() as u8] + payload@.take(i as int),
            decreases payload@.len() - i,
        {
            let b = payload[i];
            buf.push(b);
            i += 1;
        }
        proof {
            assert(buf@ =~= body);
        }
        let cs = Checksum::generate(buf.as_slice());
        buf.push(cs.first_byte());
        buf.push(cs.second_byte());
        proof {
            assert(buf@ =~= iframe_img(old(self)@.next_tx_colour, payload@));
        }
        self.tx_buffer = buf;
        proof {
            assert(self@ =~= spec_send(old(self)@, payload@));
        }
        Ok(())
    }

    /// Forces the transmitter back to idle. The buffers are left alone: a
    /// buffered I-frame will be retransmitted, and colour resynchronises on
    /// its own through the purple wildcard.
    pub fn reset(&mut self)
        requires
            old(self).wf(),
        ensures
            final(self).wf(),
            final(self)@ == (Model { tx_state: TxState::Idle, ..old(self)@ }),
    {
        self.tx_state = TxState::Idle;
        proof {
            assert(self@ =~= (Model { tx_state: TxState::Idle, ..old(self)@ }));
        }
    }

    /// The index of the first zero byte of `source`, or its length if there
    /// is none: the distances the COBS header and stuffed bytes carry.
    pub fn cobs_find_zero(&self, source: &[u8]) -> (r: usize)
        requires
            source@.len() <= 254,
        ensures
            r == next_zero(source@, 0),
    {
        find_zero_from(source, 0)
    }

    /// One step of in-line COBS destuffing: the new counter and the destuffed
    /// byte.
    fn check_cobs(cobs: u8, next_byte: u8) -> (r: (u8, u8))
        requires
            cobs >= 1,
        ensures
            r == destuff_step(cobs, next_byte),
    {
        if cobs == 1 {
            (next_byte, 0)
        } else {
            (cobs - 1, next_byte)
        }
    }

    /// The bytes of the frame image `p` refers to.
    fn payload_slice(&self, p: Payload) -> (r: &[u8])
        ensures
            r@ == payload_img(self@, p),
    {
        match p {
            Payload::IFrame => self.tx_buffer.as_slice(),
            Payload::SFrame(SframeKind::Ack) => self.sframe_ack.as_slice(),
            Payload::SFrame(SframeKind::Nack) => self.sframe_nack.as_slice(),
        }
    }

    /// One transmit tick. Returns the byte the transport should write now (if
    /// any) and whether the engine is waiting for an acknowledgement. The
    /// engine does not advance past a byte until the host confirms it with
    /// `tx_byte_sent`, so a transport that would block retries the same byte
    /// on the next tick.
    pub fn run_tx(&mut self) -> (r: (Option<u8>, WaitingForAckNack))
        requires
            old(self).wf(),
        ensures
            final(self).wf(),
            final(self)@ == spec_tick(old(self)@),
            r.0 == spec_tx_byte(old(self)@),
            r.1 == spec_tx_waiting(old(self)@),
    {
        match self.tx_state {
            TxState::Idle => {
                if self.tx_buffer.len() != 0 {
                    self.tx_state = TxState::SendingDelimiterStart { payload: Payload::IFrame };
                } else {
                    match self.sframe_pending {
                        Some(k) => {
                            self.sframe_pending = None;
                            self.tx_state = TxState::SendingDelimiterStart {
                                payload: Payload::SFrame(k),
                            };
                        },
                        None => {},
                    }
                }
                (None, WaitingForAckNack::No)
            },
            TxState::SendingDelimiterStart { .. } => (Some(0), WaitingForAckNack::No),
            TxState::SendingCobsHeader { payload } => {
                let src = self.payload_slice(payload);
                let num = find_zero_from(src, 0);
                (Some(num as u8 + 1), WaitingForAckNack::No)
            },
            TxState::SendingPayload { payload, sent } => {
                let src = self.payload_slice(payload);
                let b = src[sent];
                let out: u8 = if b == 0 {
                    let nz = find_zero_from(src, sent + 1);
                    (nz - sent) as u8
                } else {
                    b
                };
                (Some(out), WaitingForAckNack::No)
            },
            TxState::SendingDelimiterEnd { .. } => (Some(0), WaitingForAckNack::No),
            TxState::WaitingForAckNack { num_polls } => {
                if num_polls >= self.poll_limit {
                    self.tx_state = TxState::SendingDelimiterStart { payload: Payload::IFrame };
                    (None, WaitingForAckNack::No)
                } else {
                    self.tx_state = TxState::WaitingForAckNack { num_polls: num_polls + 1 };
                    (None, WaitingForAckNack::Yes)
                }
            },
        }
    }

    /// Confirms that the transport accepted the byte `run_tx` returned: the
    /// transmitter advances past it.
    pub fn tx_byte_sent(&mut self)
        requires
            old(self).wf(),
        ensures
            final(self).wf(),
            final(self)@ == spec_byte_sent(old(self)@),
    {
        match self.tx_state {
            TxState::SendingDelimiterStart { payload } => {
                self.tx_state = TxState::SendingCobsHeader { payload };
            },
            TxState::SendingCobsHeader { payload } => {
                self.tx_state = TxState::SendingPayload { payload, sent: 0 };
            },
            TxState::SendingPayload { payload, sent } => {
                let len = self.payload_slice(payload).len();
                if sent + 1 == len {
                    self.tx_state = TxState::SendingDelimiterEnd { payload };
                } else {
                    self.tx_state = TxState::SendingPayload { payload, sent: sent + 1 };
                }
            },
            TxState::SendingDelimiterEnd { payload } => {
                self.tx_state = match payload {
                    Payload::IFrame => TxState::WaitingForAckNack { num_polls: 0 },
                    Payload::SFrame(_) => TxState::Idle,
                };
            },
            _ => {},
        }
    }

    /// Accepts a checksum-valid I-frame of colour `c` whose body sits in the
    /// receive buffer: schedules the acknowledgement, and on a colour match
    /// advances the expected colour and returns the payload for delivery.
    fn accept_iframe(&mut self, c: Colour) -> (r: Option<Vec<u8>>)
        requires
            old(self).wf(),
            old(self)@.rx.len() >= 2,
        ensures
            final(self).wf(),
            final(self)@ == spec_dispatch_iframe(old(self)@, c),
            r matches Some(v) ==> colour_matches(old(self)@.rx_colour, c) && v@ == old(
                self,
            )@.rx.skip(2),
            r is None ==> !colour_matches(old(self)@.rx_colour, c),
    {
        self.sframe_pending = Some(SframeKind::Ack);
        if self.rx_colour.matches(c) {
            self.rx_colour = c.next();
            let mut out: Vec<u8> = Vec::new();
            let mut i: usize = 2;
            while i < self.rx_buffer.len()
                invariant
                    2 <= i <= self.rx_buffer@.len(),
                    out@ == self.rx_buffer@.subrange(2, i as int),
                decreases self.rx_buffer@.len() - i,
            {
                let b = self.rx_buffer[i];
                out.push(b);
                i += 1;
            }
            proof {
                assert(out@ =~= self.rx_buffer@.skip(2));
            }
            Some(out)
        } else {
            None
        }
    }

    /// One receive tick, consuming `byte` from the transport. Returns the
    /// payload of a newly completed, checksum-valid I-frame whose colour was
    /// expected — the delivery to the application — and `None` otherwise.
    /// Acknowledgements and negative acknowledgements act on the transmitter
    /// here; duplicates and malformed frames are dropped, never panicking.
    pub fn run_rx(&mut self, byte: u8) -> (r: Option<Vec<u8>>)
        requires
            old(self).wf(),
        ensures
            final(self).wf(),
            final(self)@ == spec_rx(old(self)@, byte),
            r matches Some(v) ==> spec_rx_out(old(self)@, byte) == Some(v@),
            r is None ==> spec_rx_out(old(self)@, byte) is None,
    {
        if byte == 0 {
            self.rx_buffer.clear();
            self.rx_state = RxState::WantCobsHeader;
            proof {
                assert(self@ =~= spec_rx(old(self)@, byte));
            }
            return None;
        }
        match self.rx_state {
            RxState::WantFrameDelimiter => None,
            RxState::WantCobsHeader => {
                self.rx_state = RxState::WantFrameType { cobs: byte };
                None
            },
            RxState::WantFrameType { cobs } => {
                let (c2, v) = Self::check_cobs(cobs, byte);
                self.rx_buffer.push(v);
                self.rx_state = RxState::WantLength { cobs: c2, frame: v };
                None
            },
            RxState::WantLength { cobs, frame } => {
                let (c2, v) = Self::check_cobs(cobs, byte);
                self.rx_buffer.push(v);
                if v == 0 {
                    self.rx_state = RxState::WantChecksumFirst { cobs: c2, frame };
                } else {
                    self.rx_state = RxState::WantPayload { cobs: c2, frame, length: v as usize };
                }
                None
            },
            RxState::WantPayload { cobs, frame, length } => {
                if self.rx_buffer.len() == self.cap {
                    self.rx_state = RxState::WantFrameDelimiter;
                } else {
                    let (c2, v) = Self::check_cobs(cobs, byte);
                    self.rx_buffer.push(v);
                    if self.rx_buffer.len() == length + 2 {
                        self.rx_state = RxState::WantChecksumFirst { cobs: c2, frame };
                    } else {
                        self.rx_state = RxState::WantPayload { cobs: c2, frame, length };
                    }
                }
                None
            },
            RxState::WantChecksumFirst { cobs, frame } => {
                let (c2, v) = Self::check_cobs(cobs, byte);
                self.rx_state = RxState::WantChecksumSecond { cobs: c2, frame, csum_first: v };
                None
            },
            RxState::WantChecksumSecond { cobs, frame, csum_first } => {
                let (_c2, v) = Self::check_cobs(cobs, byte);
                let csum = Checksum(((csum_first as u16) << 8) | (v as u16));
                let mut delivered: Option<Vec<u8>> = None;
                if csum.validate(self.rx_buffer.as_slice()) {
                    if frame == HEADER_RED_IFRAME {
                        delivered = self.accept_iframe(Colour::Red);
                    } else if frame == HEADER_BLUE_IFRAME {
                        delivered = self.accept_iframe(Colour::Blue);
                    } else if frame == HEADER_PURPLE_IFRAME {
                        delivered = self.accept_iframe(Colour::Purple);
                    } else if frame == HEADER_ACK {
                        if let TxState::WaitingForAckNack { .. } = self.tx_state {
                            self.next_tx_colour = self.next_tx_colour.next();
                            self.tx_state = TxState::Idle;
                            self.tx_buffer.clear();
                        }
                    } else if frame == HEADER_NACK {
                        if let TxState::WaitingForAckNack { .. } = self.tx_state {
                            self.tx_state = TxState::Idle;
                        }
                    }
                } else {
                    self.sframe_pending = Some(SframeKind::Nack);
                }
                self.rx_buffer.clear();
                self.rx_state = RxState::WantFrameDelimiter;
                proof {
                    assert(self@ =~= spec_rx(old(self)@, byte));
                }
                delivered
            },
        }
    }
}

} // verus!
