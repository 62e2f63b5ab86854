//! The muxer-bridge envelope: a fixed binary header of four little-endian
//! 32-bit words — total size including the 16-byte header, protocol version,
//! message type, tag — followed by the property-list payload bytes. This
//! exact layout is what the secondary multiplexer reads off the wire.

use vstd::prelude::*;

use vstd::bytes::{spec_u32_to_le_bytes, u32_to_le_bytes};

verus! {

/// One framed message for the muxer bridge.
pub struct RawPacket {
    pub size: u32,
    pub version: u32,
    pub message: u32,
    pub tag: u32,
    pub payload: Vec<u8>,
}

/// The wire form: the four header words, little-endian, then the payload.
pub open spec fn packet_bytes(p: RawPacket) -> Seq<u8> {
    spec_u32_to_le_bytes(p.size) + spec_u32_to_le_bytes(p.version) + spec_u32_to_le_bytes(p.message)
        + spec_u32_to_le_bytes(p.tag) + p.payload@
}

impl RawPacket {
    /// Frames a payload: the size field counts the payload plus the 16-byte
    /// header.
    pub fn new(payload: Vec<u8>, version: u32, message: u32, tag: u32) -> (p: RawPacket)
        requires
            payload@.len() + 16 <= u32::MAX,
        ensures
            p.size == payload@.len() + 16,
            p.version == version,
            p.message == message,
            p.tag == tag,
            p.payload == payload,
    {
        let size = (payload.len() as u32) + 16;
        RawPacket { size, version, message, tag, payload }
    }

    /// The packet on the wire.
    pub fn to_bytes(&self) -> (r: Vec<u8>)
        ensures
            r@ == packet_bytes(*self),
            r@.len() == 16 + self.payload@.len(),
    {
        let mut out = u32_to_le_bytes(self.size);
        let mut word = u32_to_le_bytes(self.version);
        out.append(&mut word);
        let mut word = u32_to_le_bytes(self.message);
        out.append(&mut word);
        let mut word = u32_to_le_bytes(self.tag);
        out.append(&mut word);
        let mut body = self.payload.clone();
        out.append(&mut body);
        proof {
            vstd::bytes::lemma_auto_spec_u32_to_from_le_bytes();
        }
        out
    }
}

} // verus!
