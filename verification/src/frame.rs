//! Frame layout. A frame body, before byte stuffing, is
//! `[frame_type, payload_length, payload bytes, crc_hi, crc_lo]`, where the
//! CRC-16/X.25 is computed over everything before it. I-frames carry a colour
//! tag in the type byte; ACK and NACK carry no payload.

use vstd::prelude::*;

use crate::checksum::Checksum;
use crate::checksum::crc16_x25_of;

verus! {

pub const HEADER_RED_IFRAME: u8 = 0x21;

pub const HEADER_BLUE_IFRAME: u8 = 0x11;

pub const HEADER_PURPLE_IFRAME: u8 = 0x01;

pub const HEADER_ACK: u8 = 0x02;

pub const HEADER_NACK: u8 = 0x03;

/// Packets are coloured to detect duplicates: red and blue alternate, and a
/// receiver tracks the colour it expects next. `Purple` is the post-reset
/// wildcard: a purple receiver accepts either colour, and a purple packet is
/// accepted by any receiver.
#[derive(Clone, Copy, Debug, PartialEq, Eq, Structural)]
pub enum Colour {
    Red,
    Blue,
    Purple,
}

/// The colour that follows `c` in the alternation. Purple is left by way of
/// blue, a fixed tie-break.
pub open spec fn colour_next(c: Colour) -> Colour {
    match c {
        Colour::Red => Colour::Blue,
        Colour::Blue => Colour::Red,
        Colour::Purple => Colour::Blue,
    }
}

/// True when either side is the wildcard or the colours agree.
pub open spec fn colour_matches(a: Colour, b: Colour) -> bool {
    a == Colour::Purple || b == Colour::Purple || a == b
}

impl Colour {
    pub fn next(self) -> (r: Colour)
        ensures
            r == colour_next(self),
    {
        match self {
            Colour::Red => Colour::Blue,
            Colour::Blue => Colour::Red,
            Colour::Purple => Colour::Blue,
        }
    }

    pub fn matches(self, incoming: Colour) -> (r: bool)
        ensures
            r == colour_matches(self, incoming),
    {
        (self == Colour::Purple) || (incoming == Colour::Purple) || (self == incoming)
    }
}

/// The two supervisory frames.
#[derive(Clone, Copy, Debug, PartialEq, Eq, Structural)]
pub enum SframeKind {
    Ack,
    Nack,
}

/// The frame type byte that carries colour `c`.
pub open spec fn colour_header(c: Colour) -> u8 {
    match c {
        Colour::Red => HEADER_RED_IFRAME,
        Colour::Blue => HEADER_BLUE_IFRAME,
        Colour::Purple => HEADER_PURPLE_IFRAME,
    }
}

/// The frame type byte of a supervisory frame.
pub open spec fn sframe_header(k: SframeKind) -> u8 {
    match k {
        SframeKind::Ack => HEADER_ACK,
        SframeKind::Nack => HEADER_NACK,
    }
}

/// A 16-bit checksum as it stands on the wire: high byte first.
pub open spec fn crc_bytes(c: u16) -> Seq<u8> {
    seq![(c >> 8) as u8, c as u8]
}

/// The frame body of an I-frame of colour `c` carrying payload `p`.
pub open spec fn iframe_img(c: Colour, p: Seq<u8>) -> Seq<u8> {
    let body = seq![colour_header(c), p.len() as u8] + p;
    body + crc_bytes(crc16_x25_of(body))
}

/// The frame body of a supervisory frame: zero payload length, checksum
/// computed canonically over the two header bytes.
pub open spec fn sframe_img(k: SframeKind) -> Seq<u8> {
    let body = seq![sframe_header(k), 0u8];
    body + crc_bytes(crc16_x25_of(body))
}

/// Renders a supervisory frame, computing its checksum canonically.
pub fn build_sframe(k: SframeKind) -> (r: Vec<u8>)
    ensures
        r@ == sframe_img(k),
{
    let mut v: Vec<u8> = Vec::new();
    let hdr: u8 = match k {
        SframeKind::Ack => HEADER_ACK,
        SframeKind::Nack => HEADER_NACK,
    };
    v.push(hdr);
    v.push(0u8);
    proof {
        assert(v@ =~= seq![sframe_header(k), 0u8]);
    }
    let c = Checksum::generate(v.as_slice());
    v.push(c.first_byte());
    v.push(c.second_byte());
    proof {
        assert(v@ =~= sframe_img(k));
    }
    v
}

} // verus!
