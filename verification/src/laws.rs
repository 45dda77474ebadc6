//! The protocol's laws, proved over the specification-level transitions that
//! the engine's contracts are tied to: what a submit emits on the wire, that
//! byte stuffing round-trips, that duplicates are re-acknowledged but not
//! re-delivered, and that acknowledgement, its absence, and negative
//! acknowledgement clear, retry and retransmit as stop-and-wait requires.

use vstd::prelude::*;

use crate::checksum::crc16_x25_of;
use crate::cobs::cobs_destuff;
use crate::cobs::cobs_encode;
use crate::cobs::gap;
use crate::cobs::lemma_cobs_round_trip;
use crate::cobs::lemma_cobs_step;
use crate::cobs::lemma_next_zero;
use crate::cobs::stuffed;
use crate::engine::model_wf;
use crate::engine::payload_img;
use crate::engine::spec_byte_sent;
use crate::engine::spec_dispatch;
use crate::engine::spec_rx;
use crate::engine::spec_rx_out;
use crate::engine::spec_send;
use crate::engine::spec_send_result;
use crate::engine::spec_tick;
use crate::engine::spec_tx_byte;
use crate::engine::header_colour;
use crate::engine::Model;
use crate::engine::Payload;
use crate::engine::RxState;
use crate::engine::TxState;
use crate::frame::colour_header;
use crate::frame::colour_matches;
use crate::frame::colour_next;
use crate::frame::crc_bytes;
use crate::frame::iframe_img;
use crate::frame::sframe_img;
use crate::frame::Colour;
use crate::frame::SframeKind;

verus! {

/// The wire image of a frame body: opening delimiter, COBS encoding, closing
/// delimiter.
pub open spec fn wire_img(f: Seq<u8>) -> Seq<u8> {
    seq![0u8] + cobs_encode(f) + seq![0u8]
}

/// One host transmit iteration: a `run_tx` tick and, if a byte was offered
/// and the transport accepted it, the matching `tx_byte_sent`.
pub open spec fn tx_drive(m: Model) -> Model {
    if spec_tx_byte(m) is Some {
        spec_byte_sent(m)
    } else {
        spec_tick(m)
    }
}

/// The engine after `n` transmit iterations with a transport that accepts
/// every byte and a receiver that stays silent.
pub open spec fn tx_after(m: Model, n: nat) -> Model
    decreases n,
{
    if n == 0 {
        m
    } else {
        tx_after(tx_drive(m), (n - 1) as nat)
    }
}

/// The bytes emitted during `n` such transmit iterations.
pub open spec fn tx_emitted(m: Model, n: nat) -> Seq<u8>
    decreases n,
{
    if n == 0 {
        Seq::empty()
    } else {
        (match spec_tx_byte(m) {
            Some(b) => seq![b],
            None => Seq::empty(),
        }) + tx_emitted(tx_drive(m), (n - 1) as nat)
    }
}

/// The engine after the receiver has consumed the byte sequence `s`.
pub open spec fn rx_after(m: Model, s: Seq<u8>) -> Model
    decreases s.len(),
{
    if s.len() == 0 {
        m
    } else {
        rx_after(spec_rx(m, s[0]), s.skip(1))
    }
}

/// The payloads delivered to the application while the receiver consumes
/// `s`, in order.
pub open spec fn rx_deliveries(m: Model, s: Seq<u8>) -> Seq<Seq<u8>>
    decreases s.len(),
{
    if s.len() == 0 {
        Seq::empty()
    } else {
        (match spec_rx_out(m, s[0]) {
            Some(p) => seq![p],
            None => Seq::empty(),
        }) + rx_deliveries(spec_rx(m, s[0]), s.skip(1))
    }
}

/// Consuming `a + b` is consuming `a`, then `b`; deliveries concatenate.
pub proof fn lemma_rx_append(m: Model, a: Seq<u8>, b: Seq<u8>)
    ensures
        rx_after(m, a + b) == rx_after(rx_after(m, a), b),
        rx_deliveries(m, a + b) == rx_deliveries(m, a) + rx_deliveries(rx_after(m, a), b),
    decreases a.len(),
{
    if a.len() == 0 {
        assert(a + b =~= b);
        assert(rx_deliveries(m, a) + rx_deliveries(rx_after(m, a), b) =~= rx_deliveries(m, b));
    } else {
        assert((a + b)[0] == a[0]);
        assert((a + b).skip(1) =~= a.skip(1) + b);
        lemma_rx_append(spec_rx(m, a[0]), a.skip(1), b);
        assert(rx_deliveries(m, a + b) =~= rx_deliveries(m, a) + rx_deliveries(
            rx_after(m, a),
            b,
        ));
    }
}

/// Where the transmitter lands after a frame's closing delimiter: waiting
/// for the acknowledgement of an I-frame, idle after a supervisory frame.
pub open spec fn end_state(p: Payload) -> TxState {
    match p {
        Payload::IFrame => TxState::WaitingForAckNack { num_polls: 0 },
        Payload::SFrame(_) => TxState::Idle,
    }
}

/// From position `sent` of the frame image, the remaining iterations emit
/// the remaining stuffed bytes and the closing delimiter.
proof fn lemma_tx_emit_payload(m: Model, p: Payload, sent: usize)
    requires
        model_wf(m),
        m.tx_state == (TxState::SendingPayload { payload: p, sent }),
    ensures
        tx_emitted(m, (payload_img(m, p).len() - sent + 1) as nat) == stuffed(
            payload_img(m, p),
        ).skip(sent as int) + seq![0u8],
        tx_after(m, (payload_img(m, p).len() - sent + 1) as nat) == (Model {
            tx_state: end_state(p),
            ..m
        }),
    decreases payload_img(m, p).len() - sent,
{
    let img = payload_img(m, p);
    let n = (img.len() - sent + 1) as nat;
    assert(spec_tx_byte(m) == Some(stuffed(img)[sent as int]));
    let m1 = spec_byte_sent(m);
    assert(tx_drive(m) == m1);
    assert(tx_emitted(m, n) == seq![stuffed(img)[sent as int]] + tx_emitted(m1, (n - 1) as nat));
    assert(tx_after(m, n) == tx_after(m1, (n - 1) as nat));
    if sent + 1 == img.len() {
        assert(m1 == (Model { tx_state: TxState::SendingDelimiterEnd { payload: p }, ..m }));
        assert(payload_img(m1, p) == img);
        assert(spec_tx_byte(m1) == Some(0u8));
        let m2 = spec_byte_sent(m1);
        assert(tx_drive(m1) == m2);
        assert(m2 =~= (Model { tx_state: end_state(p), ..m }));
        assert(tx_emitted(m1, 1) == seq![0u8] + tx_emitted(m2, 0));
        assert(tx_after(m1, 1) == tx_after(m2, 0));
        assert(tx_after(m2, 0) == m2);
        assert(tx_emitted(m2, 0) == Seq::<u8>::empty());
        assert(tx_emitted(m1, 1) =~= seq![0u8]);
        assert(tx_emitted(m, n) =~= seq![stuffed(img)[sent as int]] + seq![0u8]);
        assert(stuffed(img).skip(sent as int) =~= seq![stuffed(img)[sent as int]]);
        assert(tx_emitted(m, n) =~= stuffed(img).skip(sent as int) + seq![0u8]);
    } else {
        assert(m1 == (Model {
            tx_state: TxState::SendingPayload { payload: p, sent: (sent + 1) as usize },
            ..m
        }));
        assert(payload_img(m1, p) == img);
        assert(model_wf(m1));
        lemma_tx_emit_payload(m1, p, (sent + 1) as usize);
        assert(stuffed(img).skip(sent as int) =~= seq![stuffed(img)[sent as int]] + stuffed(
            img,
        ).skip(sent + 1));
        assert(tx_emitted(m, n) =~= stuffed(img).skip(sent as int) + seq![0u8]);
        assert(tx_after(m1, (n - 1) as nat) =~= (Model { tx_state: end_state(p), ..m }));
    }
}

/// A frame emission from its opening delimiter: the engine emits exactly the
/// wire image of the frame, then waits for acknowledgement (I-frame) or goes
/// idle (supervisory frame). Nothing else about the engine changes.
pub proof fn lemma_tx_emission(m: Model, p: Payload)
    requires
        model_wf(m),
        m.tx_state == (TxState::SendingDelimiterStart { payload: p }),
    ensures
        tx_emitted(m, payload_img(m, p).len() + 3) == wire_img(payload_img(m, p)),
        tx_after(m, payload_img(m, p).len() + 3) == (Model { tx_state: end_state(p), ..m }),
{
    let img = payload_img(m, p);
    let n = (img.len() + 3) as nat;
    assert(spec_tx_byte(m) == Some(0u8));
    let m1 = spec_byte_sent(m);
    assert(tx_drive(m) == m1);
    assert(tx_emitted(m, n) == seq![0u8] + tx_emitted(m1, (n - 1) as nat));
    assert(tx_after(m, n) == tx_after(m1, (n - 1) as nat));
    assert(m1 == (Model { tx_state: TxState::SendingCobsHeader { payload: p }, ..m }));
    assert(payload_img(m1, p) == img);
    assert(spec_tx_byte(m1) == Some(cobs_encode(img)[0]));
    let m2 = spec_byte_sent(m1);
    assert(tx_drive(m1) == m2);
    assert(tx_emitted(m1, (n - 1) as nat) == seq![cobs_encode(img)[0]] + tx_emitted(
        m2,
        (n - 2) as nat,
    ));
    assert(tx_after(m1, (n - 1) as nat) == tx_after(m2, (n - 2) as nat));
    assert(m2 == (Model { tx_state: TxState::SendingPayload { payload: p, sent: 0 }, ..m }));
    assert(payload_img(m2, p) == img);
    assert(model_wf(m2));
    lemma_tx_emit_payload(m2, p, 0);
    assert(stuffed(img).skip(0) =~= stuffed(img));
    assert(tx_emitted(m2, (img.len() + 1) as nat) == stuffed(img) + seq![0u8]);
    assert(tx_emitted(m, n) =~= seq![0u8] + (seq![cobs_encode(img)[0]] + (stuffed(img)
        + seq![0u8])));
    assert(cobs_encode(img) =~= seq![cobs_encode(img)[0]] + stuffed(img));
    assert(tx_emitted(m, n) =~= wire_img(img));
    assert(tx_after(m2, (img.len() + 1) as nat) =~= (Model { tx_state: end_state(p), ..m }));
}

/// An idle engine with an empty transmit buffer and no pending supervisory
/// frame emits nothing, however long it is ticked.
pub proof fn lemma_tx_quiescent(m: Model, n: nat)
    requires
        m.tx_state == TxState::Idle,
        m.tx.len() == 0,
        m.sframe_pending is None,
    ensures
        tx_emitted(m, n) == Seq::<u8>::empty(),
        tx_after(m, n) == m,
    decreases n,
{
    if n > 0 {
        assert(spec_tx_byte(m) is None);
        assert(tx_drive(m) == m);
        lemma_tx_quiescent(m, (n - 1) as nat);
        assert(tx_emitted(m, n) =~= Seq::<u8>::empty());
    }
}

/// Retry on silence: while the engine waits for an acknowledgement that
/// never comes, the poll counter runs to its limit and the engine then
/// re-emits the buffered I-frame byte for byte, returning to the wait state.
pub proof fn lemma_wait_then_retransmit(m: Model, num_polls: u32)
    requires
        model_wf(m),
        m.tx_state == (TxState::WaitingForAckNack { num_polls }),
    ensures
        tx_emitted(m, (m.poll_limit - num_polls + 1) as nat + m.tx.len() + 3) == wire_img(m.tx),
        tx_after(m, (m.poll_limit - num_polls + 1) as nat + m.tx.len() + 3) == (Model {
            tx_state: TxState::WaitingForAckNack { num_polls: 0 },
            ..m
        }),
    decreases m.poll_limit - num_polls,
{
    let total = (m.poll_limit - num_polls + 1) as nat + m.tx.len() + 3;
    assert(spec_tx_byte(m) is None);
    let m1 = spec_tick(m);
    assert(tx_drive(m) == m1);
    assert(tx_emitted(m, total) == Seq::<u8>::empty() + tx_emitted(m1, (total - 1) as nat));
    assert(tx_after(m, total) == tx_after(m1, (total - 1) as nat));
    if num_polls >= m.poll_limit {
        assert(m1 == (Model {
            tx_state: TxState::SendingDelimiterStart { payload: Payload::IFrame },
            ..m
        }));
        assert(payload_img(m1, Payload::IFrame) == m.tx);
        assert(model_wf(m1));
        lemma_tx_emission(m1, Payload::IFrame);
        assert(end_state(Payload::IFrame) == (TxState::WaitingForAckNack { num_polls: 0u32 }));
        assert(tx_emitted(m, total) =~= wire_img(m.tx));
        assert(tx_after(m1, m.tx.len() + 3) =~= (Model {
            tx_state: TxState::WaitingForAckNack { num_polls: 0 },
            ..m
        }));
    } else {
        assert(m1 == (Model {
            tx_state: TxState::WaitingForAckNack { num_polls: (num_polls + 1) as u32 },
            ..m
        }));
        assert(model_wf(m1));
        lemma_wait_then_retransmit(m1, (num_polls + 1) as u32);
        assert(tx_emitted(m, total) =~= wire_img(m.tx));
        assert(tx_after(m1, (total - 1) as nat) =~= (Model {
            tx_state: TxState::WaitingForAckNack { num_polls: 0 },
            ..m
        }));
    }
}

/// The engine after one whole well-formed frame body `f` has arrived on the
/// wire: `f`'s body is dispatched — checksum checked, colour compared,
/// transmitter acted on — the receive buffer is cleared, and the trailing
/// delimiter leaves the receiver ready for the next frame's header.
pub open spec fn rx_frame_result(m: Model, f: Seq<u8>) -> Model {
    let body = f.take(f.len() - 2);
    let csum = ((f[f.len() - 2] as u16) << 8) | (f[f.len() - 1] as u16);
    Model {
        rx: Seq::empty(),
        rx_state: RxState::WantCobsHeader,
        ..spec_dispatch(Model { rx: body, ..m }, f[0], csum)
    }
}

/// What is delivered while frame body `f` arrives: its payload, exactly when
/// the checksum validates, the type byte is an I-frame, and the colour was
/// the expected one.
pub open spec fn rx_frame_out(m: Model, f: Seq<u8>) -> Seq<Seq<u8>> {
    let body = f.take(f.len() - 2);
    let csum = ((f[f.len() - 2] as u16) << 8) | (f[f.len() - 1] as u16);
    if csum == crc16_x25_of(body) {
        match header_colour(f[0]) {
            Some(c) => if colour_matches(m.rx_colour, c) {
                seq![body.skip(2)]
            } else {
                Seq::empty()
            },
            None => Seq::empty(),
        }
    } else {
        Seq::empty()
    }
}

/// Dispatch ignores the receive state it was entered from: it only reads the
/// accumulated body and the transmit side.
proof fn lemma_dispatch_rx_state(m1: Model, m2: Model, frame: u8, csum: u16)
    requires
        m1 == (Model { rx_state: m1.rx_state, ..m2 }),
    ensures
        spec_dispatch(m1, frame, csum) == (Model {
            rx_state: m1.rx_state,
            ..spec_dispatch(m2, frame, csum)
        }),
{
    assert(spec_dispatch(m1, frame, csum) =~= (Model {
        rx_state: m1.rx_state,
        ..spec_dispatch(m2, frame, csum)
    }));
}

/// Consuming the stuffed payload bytes of `f` from position `k` onward
/// accumulates the frame body and arrives at the first checksum byte,
/// delivering nothing on the way.
proof fn lemma_rx_payload_walk(m: Model, f: Seq<u8>, k: int)
    requires
        5 <= f.len() <= m.cap,
        m.cap <= 254,
        f[1] as int + 4 == f.len(),
        2 <= k <= f.len() - 3,
        m.rx == f.take(k),
        m.rx_state == (RxState::WantPayload {
            cobs: gap(f, k),
            frame: f[0],
            length: f[1] as usize,
        }),
    ensures
        rx_after(m, stuffed(f).subrange(k, f.len() - 2)) == (Model {
            rx: f.take(f.len() - 2),
            rx_state: RxState::WantChecksumFirst { cobs: gap(f, f.len() - 2), frame: f[0] },
            ..m
        }),
        rx_deliveries(m, stuffed(f).subrange(k, f.len() - 2)) == Seq::<Seq<u8>>::empty(),
    decreases f.len() - k,
{
    let len = f.len() as int;
    let s = stuffed(f).subrange(k, len - 2);
    lemma_cobs_round_trip(f);
    assert(cobs_encode(f)[k + 1] == stuffed(f)[k]);
    let b = stuffed(f)[k];
    assert(b != 0);
    assert(s[0] == b);
    lemma_cobs_step(f, k);
    assert(m.rx.len() == k);
    let m1 = spec_rx(m, b);
    assert(spec_rx_out(m, b) is None);
    assert(f.take(k).push(f[k]) =~= f.take(k + 1));
    assert(rx_after(m, s) == rx_after(m1, s.skip(1)));
    assert(rx_deliveries(m, s) == Seq::<Seq<u8>>::empty() + rx_deliveries(m1, s.skip(1)));
    if k == len - 3 {
        assert(m1 == (Model {
            rx: f.take(k + 1),
            rx_state: RxState::WantChecksumFirst { cobs: gap(f, k + 1), frame: f[0] },
            ..m
        }));
        assert(s.skip(1).len() == 0);
        assert(rx_after(m1, s.skip(1)) == m1);
        assert(rx_deliveries(m1, s.skip(1)) == Seq::<Seq<u8>>::empty());
        assert(rx_deliveries(m, s) =~= Seq::<Seq<u8>>::empty());
    } else {
        assert(m.rx.len() + 1 != f[1] as int + 2);
        assert(m1 == (Model {
            rx: f.take(k + 1),
            rx_state: RxState::WantPayload {
                cobs: gap(f, k + 1),
                frame: f[0],
                length: f[1] as usize,
            },
            ..m
        }));
        lemma_rx_payload_walk(m1, f, k + 1);
        assert(s.skip(1) =~= stuffed(f).subrange(k + 1, len - 2));
        assert(rx_after(m, s) =~= (Model {
            rx: f.take(len - 2),
            rx_state: RxState::WantChecksumFirst { cobs: gap(f, len - 2), frame: f[0] },
            ..m
        }));
        assert(rx_deliveries(m, s) =~= Seq::<Seq<u8>>::empty());
    }
}

/// Reception of one whole frame. Feeding the wire image of any well-formed
/// frame body `f` — from any receive state, since the opening delimiter
/// resyncs — dispatches exactly `f`'s body and delivers exactly
/// `rx_frame_out(m, f)`.
#[verifier::rlimit(80)]
pub proof fn lemma_rx_frame(m: Model, f: Seq<u8>)
    requires
        model_wf(m),
        4 <= f.len() <= m.cap,
        f[1] as int + 4 == f.len(),
    ensures
        rx_after(m, wire_img(f)) == rx_frame_result(m, f),
        rx_deliveries(m, wire_img(f)) == rx_frame_out(m, f),
        model_wf(rx_frame_result(m, f)),
{
    let len = f.len() as int;
    let w = wire_img(f);
    let st = stuffed(f);
    let h = cobs_encode(f)[0];
    lemma_cobs_round_trip(f);
    lemma_next_zero(f, 0);
    assert(h == gap(f, 0));
    assert(h != 0);
    assert(cobs_encode(f)[1] == st[0]);
    assert(cobs_encode(f)[2] == st[1]);
    assert(cobs_encode(f)[len - 1] == st[len - 2]);
    assert(cobs_encode(f)[len] == st[len - 1]);
    let a1 = seq![0u8, h, st[0], st[1]];
    let a2 = st.subrange(2, len - 2);
    let a3 = seq![st[len - 2], st[len - 1], 0u8];
    assert(w =~= a1 + (a2 + a3));
    // The first four bytes: resync, header, frame type, length.
    let m0 = spec_rx(m, 0);
    assert(m0 == (Model { rx: Seq::empty(), rx_state: RxState::WantCobsHeader, ..m }));
    let m1 = spec_rx(m0, h);
    assert(m1 == (Model {
        rx: Seq::empty(),
        rx_state: RxState::WantFrameType { cobs: gap(f, 0) },
        ..m
    }));
    lemma_cobs_step(f, 0);
    let m2 = spec_rx(m1, st[0]);
    assert(Seq::<u8>::empty().push(f[0]) =~= f.take(1));
    assert(m2 == (Model {
        rx: f.take(1),
        rx_state: RxState::WantLength { cobs: gap(f, 1), frame: f[0] },
        ..m
    }));
    lemma_cobs_step(f, 1);
    let m3 = spec_rx(m2, st[1]);
    assert(f.take(1).push(f[1]) =~= f.take(2));
    let mc = Model {
        rx: f.take(len - 2),
        rx_state: RxState::WantChecksumFirst { cobs: gap(f, len - 2), frame: f[0] },
        ..m
    };
    if f[1] == 0 {
        assert(len == 4);
        assert(m3 == (Model {
            rx: f.take(2),
            rx_state: RxState::WantChecksumFirst { cobs: gap(f, 2), frame: f[0] },
            ..m
        }));
        assert(a2.len() == 0);
        assert(m3 =~= mc);
        assert(rx_after(m3, a2) == mc);
        assert(rx_deliveries(m3, a2) == Seq::<Seq<u8>>::empty());
    } else {
        assert(m3 == (Model {
            rx: f.take(2),
            rx_state: RxState::WantPayload {
                cobs: gap(f, 2),
                frame: f[0],
                length: f[1] as usize,
            },
            ..m
        }));
        assert(5 <= len);
        lemma_rx_payload_walk(m3, f, 2);
        assert(rx_after(m3, a2) =~= mc);
        assert(rx_deliveries(m3, a2) == Seq::<Seq<u8>>::empty());
    }
    // Fold the first four bytes.
    let t1 = seq![h, st[0], st[1]];
    let t2 = seq![st[0], st[1]];
    let t3 = seq![st[1]];
    assert(st[0] != 0);
    assert(st[1] != 0);
    assert(a1[0] == 0);
    assert(a1.skip(1) =~= t1);
    assert(t1[0] == h);
    assert(t1.skip(1) =~= t2);
    assert(t2[0] == st[0]);
    assert(t2.skip(1) =~= t3);
    assert(t3[0] == st[1]);
    assert(t3.skip(1).len() == 0);
    assert(rx_after(m, a1) == rx_after(m0, t1));
    assert(rx_after(m0, t1) == rx_after(m1, t2));
    assert(rx_after(m1, t2) == rx_after(m2, t3));
    assert(rx_after(m2, t3) == rx_after(m3, t3.skip(1)));
    assert(rx_after(m3, t3.skip(1)) == m3);
    assert(spec_rx_out(m, 0) is None);
    assert(spec_rx_out(m0, h) is None);
    assert(spec_rx_out(m1, st[0]) is None);
    assert(spec_rx_out(m2, st[1]) is None);
    assert(rx_deliveries(m, a1) == Seq::<Seq<u8>>::empty() + rx_deliveries(m0, t1));
    assert(rx_deliveries(m0, t1) == Seq::<Seq<u8>>::empty() + rx_deliveries(m1, t2));
    assert(rx_deliveries(m1, t2) == Seq::<Seq<u8>>::empty() + rx_deliveries(m2, t3));
    assert(rx_deliveries(m2, t3) == Seq::<Seq<u8>>::empty() + rx_deliveries(m3, t3.skip(1)));
    assert(rx_deliveries(m3, t3.skip(1)) == Seq::<Seq<u8>>::empty());
    assert(rx_deliveries(m, a1) =~= Seq::<Seq<u8>>::empty());
    // The last three bytes: the two checksum bytes, then the delimiter.
    let body = f.take(len - 2);
    let csum = ((f[len - 2] as u16) << 8) | (f[len - 1] as u16);
    lemma_cobs_step(f, len - 2);
    let m4 = spec_rx(mc, st[len - 2]);
    assert(m4 == (Model {
        rx: body,
        rx_state: RxState::WantChecksumSecond {
            cobs: gap(f, len - 1),
            frame: f[0],
            csum_first: f[len - 2],
        },
        ..m
    }));
    lemma_cobs_step(f, len - 1);
    let m5 = spec_rx(m4, st[len - 1]);
    let dispatched = spec_dispatch(Model { rx: body, ..m }, f[0], csum);
    lemma_dispatch_rx_state(m4, Model { rx: body, ..m }, f[0], csum);
    assert(m5 == (Model { rx: Seq::empty(), rx_state: RxState::WantFrameDelimiter, ..dispatched }));
    assert(spec_rx_out(m4, st[len - 1]) == (if csum == crc16_x25_of(body) {
        match header_colour(f[0]) {
            Some(c) => if colour_matches(m.rx_colour, c) {
                Some(body.skip(2))
            } else {
                None
            },
            None => None,
        }
    } else {
        None
    })) by {
        assert(m4.rx.skip(2) == body.skip(2));
    }
    let m6 = spec_rx(m5, 0);
    assert(m6 =~= rx_frame_result(m, f));
    let u1 = seq![st[len - 1], 0u8];
    let u2 = seq![0u8];
    assert(st[len - 2] != 0);
    assert(st[len - 1] != 0);
    assert(a3[0] == st[len - 2]);
    assert(a3.skip(1) =~= u1);
    assert(u1[0] == st[len - 1]);
    assert(u1.skip(1) =~= u2);
    assert(u2[0] == 0);
    assert(u2.skip(1).len() == 0);
    assert(rx_after(mc, a3) == rx_after(m4, u1));
    assert(rx_after(m4, u1) == rx_after(m5, u2));
    assert(rx_after(m5, u2) == rx_after(m6, u2.skip(1)));
    assert(rx_after(m6, u2.skip(1)) == m6);
    assert(spec_rx_out(mc, st[len - 2]) is None);
    assert(spec_rx_out(m5, 0) is None);
    assert(rx_deliveries(mc, a3) == Seq::<Seq<u8>>::empty() + rx_deliveries(m4, u1));
    assert(rx_deliveries(m4, u1) == (match spec_rx_out(m4, st[len - 1]) {
        Some(p) => seq![p],
        None => Seq::empty(),
    }) + rx_deliveries(m5, u2));
    assert(rx_deliveries(m5, u2) == Seq::<Seq<u8>>::empty() + rx_deliveries(m6, u2.skip(1)));
    assert(rx_deliveries(m6, u2.skip(1)) == Seq::<Seq<u8>>::empty());
    assert(rx_deliveries(mc, a3) =~= rx_frame_out(m, f));
    // Stitch the three segments together.
    lemma_rx_append(m, a1, a2 + a3);
    lemma_rx_append(m3, a2, a3);
    assert(rx_after(m, w) == m6);
    assert(rx_deliveries(m, w) =~= rx_frame_out(m, f));
    assert(model_wf(rx_frame_result(m, f)));
}

/// Splitting a 16-bit word into its two wire bytes and reassembling them
/// gives the word back.
proof fn lemma_crc_reassemble(c: u16)
    ensures
        (((c >> 8) as u8 as u16) << 8) | (c as u8 as u16) == c,
{
    assert((((c >> 8) as u8 as u16) << 8) | (c as u8 as u16) == c) by (bit_vector);
}

/// The shape of an I-frame body: its header fields, that its checksum field
/// reassembles to the checksum of what precedes it, and that its payload
/// region is the payload.
proof fn lemma_iframe_shape(c: Colour, p: Seq<u8>)
    requires
        p.len() <= 250,
    ensures
        iframe_img(c, p).len() == p.len() + 4,
        iframe_img(c, p)[0] == colour_header(c),
        iframe_img(c, p)[1] == p.len() as u8,
        iframe_img(c, p).take(p.len() as int + 2) == seq![colour_header(c), p.len() as u8] + p,
        ((iframe_img(c, p)[p.len() as int + 2] as u16) << 8) | (iframe_img(c, p)[p.len() as int + 3] as u16)
            == crc16_x25_of(iframe_img(c, p).take(p.len() as int + 2)),
        iframe_img(c, p).take(p.len() as int + 2).skip(2) == p,
        header_colour(colour_header(c)) == Some(c),
{
    let body = seq![colour_header(c), p.len() as u8] + p;
    let crc = crc16_x25_of(body);
    let f = iframe_img(c, p);
    assert(f =~= body + crc_bytes(crc));
    assert(f.take(p.len() as int + 2) =~= body);
    assert(f[p.len() as int + 2] == (crc >> 8) as u8);
    assert(f[p.len() as int + 3] == crc as u8);
    lemma_crc_reassemble(crc);
    assert(body.skip(2) =~= p);
}

/// The shape of a supervisory frame body: four bytes, zero length, checksum
/// computed canonically over its two header bytes.
proof fn lemma_sframe_shape(k: SframeKind)
    ensures
        sframe_img(k).len() == 4,
        sframe_img(k)[0] == crate::frame::sframe_header(k),
        sframe_img(k)[1] == 0,
        sframe_img(k).take(2) == seq![crate::frame::sframe_header(k), 0u8],
        ((sframe_img(k)[2] as u16) << 8) | (sframe_img(k)[3] as u16) == crc16_x25_of(
            sframe_img(k).take(2),
        ),
        header_colour(sframe_img(k)[0]) is None,
{
    let body = seq![crate::frame::sframe_header(k), 0u8];
    let crc = crc16_x25_of(body);
    let f = sframe_img(k);
    assert(f =~= body + crc_bytes(crc));
    assert(f.take(2) =~= body);
    assert(f[2] == (crc >> 8) as u8);
    assert(f[3] == crc as u8);
    lemma_crc_reassemble(crc);
}

/// Round trip (submit to wire): after a successful submit of payload `p`,
/// the next iterations emit exactly the wire image of the I-frame for `p` —
/// zero-free between its delimiters, destuffing back to
/// `[type, length, payload, crc_hi, crc_lo]` with a checksum field that
/// validates — and the engine then waits for the acknowledgement with the
/// frame still buffered.
pub proof fn lemma_round_trip(m: Model, p: Seq<u8>)
    requires
        model_wf(m),
        m.tx_state == TxState::Idle,
        m.tx.len() == 0,
        p.len() <= m.cap - 4,
    ensures
        spec_send_result(m, p) is Ok,
        ({
            let f = iframe_img(m.next_tx_colour, p);
            let m1 = spec_send(m, p);
            &&& tx_emitted(m1, p.len() + 8) == wire_img(f)
            &&& tx_after(m1, p.len() + 8) == (Model {
                tx: f,
                tx_state: TxState::WaitingForAckNack { num_polls: 0 },
                ..m
            })
            &&& cobs_destuff(cobs_encode(f)) == f
            &&& forall|i: int|
                0 <= i < cobs_encode(f).len() ==> #[trigger] cobs_encode(f)[i] != 0
            &&& f.take(p.len() as int + 2) == seq![colour_header(m.next_tx_colour), p.len() as u8] + p
            &&& ((f[p.len() as int + 2] as u16) << 8) | (f[p.len() as int + 3] as u16) == crc16_x25_of(
                f.take(p.len() as int + 2),
            )
        }),
{
    let f = iframe_img(m.next_tx_colour, p);
    lemma_iframe_shape(m.next_tx_colour, p);
    assert(f.len() == p.len() + 4);
    let m1 = spec_send(m, p);
    assert(m1 == (Model { tx: f, ..m }));
    assert(model_wf(m1));
    assert(spec_tx_byte(m1) is None);
    let m2 = spec_tick(m1);
    assert(tx_drive(m1) == m2);
    assert(m2 == (Model {
        tx: f,
        tx_state: TxState::SendingDelimiterStart { payload: Payload::IFrame },
        ..m
    }));
    assert(model_wf(m2));
    assert(payload_img(m2, Payload::IFrame) == f);
    lemma_tx_emission(m2, Payload::IFrame);
    assert(tx_emitted(m1, p.len() + 8) == Seq::<u8>::empty() + tx_emitted(
        m2,
        (p.len() + 7) as nat,
    ));
    assert(tx_after(m1, p.len() + 8) == tx_after(m2, (p.len() + 7) as nat));
    assert((p.len() + 7) as nat == f.len() + 3);
    assert(tx_emitted(m1, p.len() + 8) =~= wire_img(f));
    assert(tx_after(m2, f.len() + 3) =~= (Model {
        tx: f,
        tx_state: TxState::WaitingForAckNack { num_polls: 0 },
        ..m
    }));
    lemma_cobs_round_trip(f);
}

/// Idempotent acknowledgement: feeding the same I-frame twice delivers its
/// payload to the application exactly once, and each reception — the
/// duplicate included — schedules an acknowledgement. The transmit side is
/// untouched. Purple wildcard frames are excluded: a repeat of the one
/// post-reset purple frame is re-accepted, by design of the wildcard.
pub proof fn lemma_idempotent_ack(m: Model, c: Colour, p: Seq<u8>)
    requires
        model_wf(m),
        p.len() + 4 <= m.cap,
        colour_matches(m.rx_colour, c),
        c != Colour::Purple,
    ensures
        ({
            let w = wire_img(iframe_img(c, p));
            &&& rx_deliveries(m, w + w) == seq![p]
            &&& rx_after(m, w).sframe_pending == Some(SframeKind::Ack)
            &&& rx_after(m, w + w).sframe_pending == Some(SframeKind::Ack)
            &&& rx_after(m, w).rx_colour == colour_next(c)
            &&& rx_after(m, w + w).rx_colour == colour_next(c)
            &&& rx_after(m, w + w).tx == m.tx
            &&& rx_after(m, w + w).tx_state == m.tx_state
        }),
{
    let f = iframe_img(c, p);
    let w = wire_img(f);
    assert(p.len() <= 250);
    lemma_iframe_shape(c, p);
    lemma_rx_frame(m, f);
    let m1 = rx_frame_result(m, f);
    assert(rx_frame_out(m, f) == seq![p]);
    assert(m1.sframe_pending == Some(SframeKind::Ack));
    assert(m1.rx_colour == colour_next(c));
    assert(m1.tx == m.tx);
    assert(m1.tx_state == m.tx_state);
    assert(m1.cap == m.cap);
    lemma_rx_frame(m1, f);
    assert(!colour_matches(m1.rx_colour, c));
    let m2 = rx_frame_result(m1, f);
    assert(rx_frame_out(m1, f) == Seq::<Seq<u8>>::empty());
    assert(m2.sframe_pending == Some(SframeKind::Ack));
    assert(m2.rx_colour == colour_next(c));
    assert(m2.tx == m.tx);
    assert(m2.tx_state == m.tx_state);
    lemma_rx_append(m, w, w);
    assert(rx_deliveries(m, w + w) =~= seq![p]);
}

/// Duplicate rejection: once an I-frame of colour `c` has been accepted (the
/// receiver now expects the colour after `c`), an identically coloured
/// repeat is dropped without delivery — but is still acknowledged, so a peer
/// whose acknowledgement was lost still gets one. Purple wildcard frames are
/// excluded: the wildcard is always accepted, by design.
pub proof fn lemma_duplicate_rejection(m: Model, c: Colour, p: Seq<u8>)
    requires
        model_wf(m),
        p.len() + 4 <= m.cap,
        m.rx_colour == colour_next(c),
        c != Colour::Purple,
    ensures
        ({
            let w = wire_img(iframe_img(c, p));
            &&& rx_deliveries(m, w) == Seq::<Seq<u8>>::empty()
            &&& rx_after(m, w).sframe_pending == Some(SframeKind::Ack)
            &&& rx_after(m, w).rx_colour == m.rx_colour
        }),
{
    let f = iframe_img(c, p);
    assert(p.len() <= 250);
    lemma_iframe_shape(c, p);
    lemma_rx_frame(m, f);
    assert(!colour_matches(m.rx_colour, c));
}

/// A valid acknowledgement received while waiting clears the buffered
/// I-frame, advances the transmit colour, and stops retransmission: with no
/// supervisory frame pending, not one further byte is emitted, however long
/// the engine is ticked.
pub proof fn lemma_ack_stops_retransmission(m: Model, num_polls: u32, n: nat)
    requires
        model_wf(m),
        m.tx_state == (TxState::WaitingForAckNack { num_polls }),
        m.sframe_pending is None,
    ensures
        ({
            let m1 = rx_after(m, wire_img(sframe_img(SframeKind::Ack)));
            &&& rx_deliveries(m, wire_img(sframe_img(SframeKind::Ack))) == Seq::<Seq<u8>>::empty()
            &&& m1.tx_state == TxState::Idle
            &&& m1.tx.len() == 0
            &&& m1.next_tx_colour == colour_next(m.next_tx_colour)
            &&& tx_emitted(m1, n) == Seq::<u8>::empty()
            &&& tx_after(m1, n) == m1
        }),
{
    let f = sframe_img(SframeKind::Ack);
    lemma_sframe_shape(SframeKind::Ack);
    lemma_rx_frame(m, f);
    let m1 = rx_frame_result(m, f);
    assert(m1.tx_state == TxState::Idle);
    assert(m1.tx.len() == 0);
    assert(m1.sframe_pending is None);
    lemma_tx_quiescent(m1, n);
}

/// A negative acknowledgement received while waiting drives an immediate
/// retransmission: the transmitter returns to idle with the I-frame still
/// buffered, and the following iterations re-emit it byte for byte before
/// waiting again.
pub proof fn lemma_nack_retry(m: Model, num_polls: u32)
    requires
        model_wf(m),
        m.tx_state == (TxState::WaitingForAckNack { num_polls }),
    ensures
        ({
            let m1 = rx_after(m, wire_img(sframe_img(SframeKind::Nack)));
            &&& rx_deliveries(m, wire_img(sframe_img(SframeKind::Nack))) == Seq::<Seq<u8>>::empty()
            &&& m1.tx == m.tx
            &&& m1.tx_state == TxState::Idle
            &&& tx_emitted(m1, 1 + m.tx.len() + 3) == wire_img(m.tx)
            &&& tx_after(m1, 1 + m.tx.len() + 3) == (Model {
                tx_state: TxState::WaitingForAckNack { num_polls: 0 },
                ..m1
            })
        }),
{
    let f = sframe_img(SframeKind::Nack);
    lemma_sframe_shape(SframeKind::Nack);
    lemma_rx_frame(m, f);
    let m1 = rx_frame_result(m, f);
    assert(m1.tx == m.tx);
    assert(m1.tx_state == TxState::Idle);
    assert(model_wf(m1));
    assert(spec_tx_byte(m1) is None);
    let m2 = spec_tick(m1);
    assert(tx_drive(m1) == m2);
    assert(m2 == (Model {
        tx_state: TxState::SendingDelimiterStart { payload: Payload::IFrame },
        ..m1
    }));
    assert(model_wf(m2));
    assert(payload_img(m2, Payload::IFrame) == m.tx);
    lemma_tx_emission(m2, Payload::IFrame);
    assert(tx_emitted(m1, 1 + m.tx.len() + 3) == Seq::<u8>::empty() + tx_emitted(
        m2,
        m.tx.len() + 3,
    ));
    assert(tx_after(m1, 1 + m.tx.len() + 3) == tx_after(m2, m.tx.len() + 3));
    assert(tx_emitted(m1, 1 + m.tx.len() + 3) =~= wire_img(m.tx));
    assert(tx_after(m2, m.tx.len() + 3) =~= (Model {
        tx_state: TxState::WaitingForAckNack { num_polls: 0 },
        ..m1
    }));
}

} // verus!
