//! Frame integrity: CRC-16/X.25 (polynomial 0x1021, reflected, initial and
//! final XOR 0xFFFF), transmitted high byte first.

use vstd::prelude::*;

verus! {

/// The CRC-16/X.25 checksum of a byte sequence. The algorithm itself is
/// supplied by an outside crate; this name stands for its result, which is a
/// function of the input bytes alone.
pub uninterp spec fn crc16_x25_of(data: Seq<u8>) -> u16;

/// Relies on `crc::crc16::checksum_x25`: a table-driven CRC-16/X.25 whose
/// result depends on the input bytes alone, and which never panics.
#[verifier::external_body]
fn checksum_x25(data: &[u8]) -> (r: u16)
    ensures
        r == crc16_x25_of(data@),
{
    crc::crc16::checksum_x25(data)
}

/// A 16-bit frame checksum.
#[derive(Clone, Copy)]
pub struct Checksum(pub u16);

impl Checksum {
    /// Computes the checksum of `data`.
    pub fn generate(data: &[u8]) -> (r: Checksum)
        ensures
            r.0 == crc16_x25_of(data@),
    {
        Checksum(checksum_x25(data))
    }

    /// True exactly when `data` checksums to this value.
    pub fn validate(self, data: &[u8]) -> (r: bool)
        ensures
            r == (crc16_x25_of(data@) == self.0),
    {
        checksum_x25(data) == self.0
    }

    /// The byte transmitted first: the high byte.
    pub fn first_byte(self) -> (r: u8)
        ensures
            r == (self.0 >> 8) as u8,
    {
        (self.0 >> 8) as u8
    }

    /// The byte transmitted second: the low byte.
    pub fn second_byte(self) -> (r: u8)
        ensures
            r == self.0 as u8,
    {
        #[verifier::truncate]
        (self.0 as u8)
    }
}

} // verus!
