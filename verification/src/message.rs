//! The fixed 19-byte BGP message header: a 16-byte all-ones marker, a
//! big-endian total length and a type byte.

use vstd::prelude::*;

use crate::wire::{be16, byte_at, read_u16_at, u16_hi, u16_lo};

verus! {

/// Message type byte: OPEN.
pub const TYPE_OPEN: u8 = 1;

/// Message type byte: UPDATE.
pub const TYPE_UPDATE: u8 = 2;

/// Message type byte: NOTIFICATION.
pub const TYPE_NOTIFICATION: u8 = 3;

/// Message type byte: KEEPALIVE.
pub const TYPE_KEEPALIVE: u8 = 4;

/// Fewer than 19 bytes were available where a header was expected.
#[derive(Debug, PartialEq, Eq, Structural, Clone, Copy)]
pub struct MalformedHeader;

/// The 16-byte authentication marker, all ones and unused.
pub open spec fn spec_marker() -> Seq<u8> {
    Seq::new(16, |i: int| 0xffu8)
}

/// A complete header: marker, big-endian total length, type byte.
pub open spec fn spec_header_bytes(typ: u8, len: u16) -> Seq<u8> {
    spec_marker() + seq![u16_hi(len), u16_lo(len), typ]
}

/// The header codec carries no state of its own.
pub struct MessageHeader {}

impl MessageHeader {
    /// The marker bytes alone, as the incremental header writer emits
    /// them before the length and type are known.
    pub fn to_bytes(self) -> (r: Vec<u8>)
        ensures
            r@ == spec_marker(),
    {
        let mut v: Vec<u8> = Vec::new();
        let mut i: usize = 0;
        while i < 16
            invariant
                i <= 16,
                v@.len() == i,
                forall|j: int| 0 <= j < i ==> v@[j] == 0xffu8,
            decreases 16 - i,
        {
            v.push(0xffu8);
            i = i + 1;
        }
        proof {
            assert(v@ =~= spec_marker());
        }
        v
    }
}

/// Read a header's type byte and declared total length; at least 19
/// bytes must be available, else the header is malformed.
pub fn decode_header(buf: &[u8]) -> (r: Result<(u8, u16), MalformedHeader>)
    ensures
        buf@.len() < 19 ==> r matches Err(_),
        buf@.len() >= 19 ==> r == Ok::<(u8, u16), MalformedHeader>(
            (buf@[18], be16(buf@[16], buf@[17])),
        ),
{
    if buf.len() < 19 {
        Err(MalformedHeader)
    } else {
        let len: u16 = read_u16_at(buf, 16);
        let typ: u8 = byte_at(buf, 18);
        Ok((typ, len))
    }
}

/// Append a complete header: the marker, then the big-endian total
/// length, then the type byte.
pub fn encode_header(typ: u8, total_length: u16, out: &mut Vec<u8>)
    ensures
        final(out)@ == old(out)@ + spec_header_bytes(typ, total_length),
{
    let mut i: usize = 0;
    while i < 16
        invariant
            i <= 16,
            out@.len() == old(out)@.len() + i,
            out@ =~= old(out)@ + Seq::new(i as nat, |j: int| 0xffu8),
        decreases 16 - i,
    {
        let ghost pre = out@;
        out.push(0xffu8);
        proof {
            assert(out@ =~= old(out)@ + Seq::new((i + 1) as nat, |j: int| 0xffu8));
        }
        i = i + 1;
    }
    out.push((total_length / 0x100) as u8);
    out.push((total_length % 0x100) as u8);
    out.push(typ);
    proof {
        assert(out@ =~= old(out)@ + spec_header_bytes(typ, total_length));
    }
}

} // verus!
