//! The overlay's wire header.
//!
//! Every datagram of the overlay starts with a fixed prefix: one byte
//! of protocol version and identifier-width code, the packet type, a
//! hop budget, a flag byte, then the sender's and the destination's
//! node identifiers. The two identifiers always share one width, and
//! the flag bits beyond the two assigned ones must be zero on the
//! wire. A destination of all zeros addresses the receiving node
//! itself.

use vstd::prelude::*;

use crate::node::NodeID;

verus! {

broadcast use vstd::array::group_array_axioms;

/// The protocol version this library speaks.
pub const PROTOCOL_VERSION: u8 = 1;

/// Flag bit: an extended header follows.
pub const FLAG_EXTENDED: u8 = 1;

/// Flag bit: broadcast scope within the overlay.
pub const FLAG_BROADCAST: u8 = 2;

/// What a packet carries; codes 10 to 255 are not assigned (values
/// of 128 and above are reserved).
#[derive(Debug, Clone, Copy, PartialEq, Eq, Structural)]
pub enum ProtocolType {
    UserData,
    Heartbeat,
    HeartbeatReply,
    IDQuery,
    IDQueryReply,
    PunchRequest,
    PunchReply,
    TimestampRequest,
    TimestampReply,
    ExtendedTxt,
}

/// The wire code of each packet type.
pub open spec fn spec_type_code(t: ProtocolType) -> u8 {
    match t {
        ProtocolType::UserData => 0,
        ProtocolType::Heartbeat => 1,
        ProtocolType::HeartbeatReply => 2,
        ProtocolType::IDQuery => 3,
        ProtocolType::IDQueryReply => 4,
        ProtocolType::PunchRequest => 5,
        ProtocolType::PunchReply => 6,
        ProtocolType::TimestampRequest => 7,
        ProtocolType::TimestampReply => 8,
        ProtocolType::ExtendedTxt => 9,
    }
}

/// The packet type a wire code names, if any.
pub open spec fn spec_type_from_code(c: u8) -> Option<ProtocolType> {
    if c == 0 {
        Some(ProtocolType::UserData)
    } else if c == 1 {
        Some(ProtocolType::Heartbeat)
    } else if c == 2 {
        Some(ProtocolType::HeartbeatReply)
    } else if c == 3 {
        Some(ProtocolType::IDQuery)
    } else if c == 4 {
        Some(ProtocolType::IDQueryReply)
    } else if c == 5 {
        Some(ProtocolType::PunchRequest)
    } else if c == 6 {
        Some(ProtocolType::PunchReply)
    } else if c == 7 {
        Some(ProtocolType::TimestampRequest)
    } else if c == 8 {
        Some(ProtocolType::TimestampReply)
    } else if c == 9 {
        Some(ProtocolType::ExtendedTxt)
    } else {
        None
    }
}

impl ProtocolType {
    pub fn code(&self) -> (r: u8)
        ensures
            r == spec_type_code(*self),
    {
        match self {
            ProtocolType::UserData => 0,
            ProtocolType::Heartbeat => 1,
            ProtocolType::HeartbeatReply => 2,
            ProtocolType::IDQuery => 3,
            ProtocolType::IDQueryReply => 4,
            ProtocolType::PunchRequest => 5,
            ProtocolType::PunchReply => 6,
            ProtocolType::TimestampRequest => 7,
            ProtocolType::TimestampReply => 8,
            ProtocolType::ExtendedTxt => 9,
        }
    }

    pub fn from_code(c: u8) -> (r: Option<ProtocolType>)
        ensures
            r == spec_type_from_code(c),
    {
        if c == 0 {
            Some(ProtocolType::UserData)
        } else if c == 1 {
            Some(ProtocolType::Heartbeat)
        } else if c == 2 {
            Some(ProtocolType::HeartbeatReply)
        } else if c == 3 {
            Some(ProtocolType::IDQuery)
        } else if c == 4 {
            Some(ProtocolType::IDQueryReply)
        } else if c == 5 {
            Some(ProtocolType::PunchRequest)
        } else if c == 6 {
            Some(ProtocolType::PunchReply)
        } else if c == 7 {
            Some(ProtocolType::TimestampRequest)
        } else if c == 8 {
            Some(ProtocolType::TimestampReply)
        } else if c == 9 {
            Some(ProtocolType::ExtendedTxt)
        } else {
            None
        }
    }
}

/// Decoding failure: the bytes are not a packet of this protocol.
#[derive(Debug, Clone, Copy, PartialEq, Eq, Structural)]
pub enum PacketError {
    MalformedPacket,
}

/// The decoded fixed prefix of a packet.
#[derive(Debug, Clone, Copy, PartialEq)]
pub struct PacketHeader {
    pub protocol: ProtocolType,
    /// Hop budget: set by the sender, counted down on each relay.
    pub ttl: u8,
    pub flags: u8,
    pub src_id: NodeID,
    pub dst_id: NodeID,
}

impl PacketHeader {
    /// A header the wire can carry: both identifiers of one width and
    /// no reserved flag bit set.
    pub open spec fn well_formed(self) -> bool {
        &&& self.src_id@.len() == self.dst_id@.len()
        &&& self.flags < 4
    }

    /// The width code of the identifiers: 0 for 4-byte, 1 for 16-byte.
    pub open spec fn spec_width_code(self) -> u8 {
        if self.src_id@.len() == 4 {
            0
        } else {
            1
        }
    }

    /// Bytes of the encoded header.
    pub open spec fn spec_len(self) -> int {
        4 + 2 * (self.src_id@.len() as int)
    }
}

/// The encoding of a header: version and width code packed in the
/// first byte, then type, hop budget, flags, and the two identifiers.
pub open spec fn header_bytes(h: PacketHeader) -> Seq<u8> {
    seq![
        (16 + h.spec_width_code()) as u8,
        spec_type_code(h.protocol),
        h.ttl,
        h.flags,
    ] + h.src_id@ + h.dst_id@
}

/// The identifier width a stream announces.
pub open spec fn announced_width(s: Seq<u8>) -> int
    recommends
        s.len() >= 1,
{
    if s[0] % 16 == 0 {
        4
    } else {
        16
    }
}

/// Whether a byte string starts with a well-formed packet header:
/// the version matches, the width code and type code are assigned,
/// the reserved flag bits are clear and both identifiers are present.
pub open spec fn valid_packet(s: Seq<u8>) -> bool {
    &&& s.len() >= 4
    &&& s[0] / 16 == PROTOCOL_VERSION
    &&& (s[0] % 16 == 0 || s[0] % 16 == 1)
    &&& s.len() >= 4 + 2 * announced_width(s)
    &&& spec_type_from_code(s[1]) is Some
    &&& s[3] < 4
}

/// Read a 4-byte identifier at an offset.
fn read_id4(s: &[u8], off: usize) -> (r: NodeID)
    requires
        off + 4 <= s@.len(),
    ensures
        r@ == s@.subrange(off as int, off + 4),
{
    let id = NodeID::Short([s[off], s[off + 1], s[off + 2], s[off + 3]]);
    assert(id@ =~= s@.subrange(off as int, off + 4));
    id
}

/// Read a 16-byte identifier at an offset.
fn read_id16(s: &[u8], off: usize) -> (r: NodeID)
    requires
        off + 16 <= s@.len(),
    ensures
        r@ == s@.subrange(off as int, off + 16),
{
    let id = NodeID::Extended(
        [
            s[off],
            s[off + 1],
            s[off + 2],
            s[off + 3],
            s[off + 4],
            s[off + 5],
            s[off + 6],
            s[off + 7],
            s[off + 8],
            s[off + 9],
            s[off + 10],
            s[off + 11],
            s[off + 12],
            s[off + 13],
            s[off + 14],
            s[off + 15],
        ],
    );
    assert(id@ =~= s@.subrange(off as int, off + 16));
    id
}

/// Encode a packet: the header, then the payload, in one buffer. A
/// header the wire cannot carry is refused before anything is
/// produced.
pub fn encode_packet(h: &PacketHeader, payload: &[u8]) -> (r: Result<Vec<u8>, PacketError>)
    ensures
        h.well_formed() ==> (r matches Ok(v) && v@ == header_bytes(*h) + payload@),
        !h.well_formed() ==> r == Err::<Vec<u8>, PacketError>(PacketError::MalformedPacket),
{
    if h.src_id.width() != h.dst_id.width() || h.flags >= 4 {
        return Err(PacketError::MalformedPacket);
    }
    let width_code: u8 = if h.src_id.width() == 4 {
        0
    } else {
        1
    };
    let mut out: Vec<u8> = Vec::new();
    out.push(16 + width_code);
    out.push(h.protocol.code());
    out.push(h.ttl);
    out.push(h.flags);
    match &h.src_id {
        NodeID::Short(b) => out.extend_from_slice(b.as_slice()),
        NodeID::Extended(b) => out.extend_from_slice(b.as_slice()),
    }
    match &h.dst_id {
        NodeID::Short(b) => out.extend_from_slice(b.as_slice()),
        NodeID::Extended(b) => out.extend_from_slice(b.as_slice()),
    }
    out.extend_from_slice(payload);
    assert(out@ =~= header_bytes(*h) + payload@);
    Ok(out)
}

/// Decode a packet: the bytes yield a well-formed header whose
/// encoding is exactly the consumed prefix, and the payload is
/// everything after it; anything else is malformed.
pub fn decode_packet(data: &[u8]) -> (r: Result<(PacketHeader, Vec<u8>), PacketError>)
    ensures
        valid_packet(data@) ==> (r matches Ok(hp) && {
            &&& hp.0.well_formed()
            &&& header_bytes(hp.0) == data@.subrange(0, 4 + 2 * announced_width(data@))
            &&& hp.1@ == data@.skip(4 + 2 * announced_width(data@))
        }),
        !valid_packet(data@) ==> r == Err::<(PacketHeader, Vec<u8>), PacketError>(
            PacketError::MalformedPacket,
        ),
{
    if data.len() < 4 {
        return Err(PacketError::MalformedPacket);
    }
    let b0 = data[0];
    if b0 / 16 != PROTOCOL_VERSION {
        return Err(PacketError::MalformedPacket);
    }
    let width_code = b0 % 16;
    if width_code > 1 {
        return Err(PacketError::MalformedPacket);
    }
    let w: usize = if width_code == 0 {
        4
    } else {
        16
    };
    if data.len() < 4 + 2 * w {
        return Err(PacketError::MalformedPacket);
    }
    let protocol = match ProtocolType::from_code(data[1]) {
        Some(t) => t,
        None => {
            return Err(PacketError::MalformedPacket);
        },
    };
    let flags = data[3];
    if flags >= 4 {
        return Err(PacketError::MalformedPacket);
    }
    let (src_id, dst_id) = if width_code == 0 {
        (read_id4(data, 4), read_id4(data, 8))
    } else {
        (read_id16(data, 4), read_id16(data, 20))
    };
    let header = PacketHeader { protocol, ttl: data[2], flags, src_id, dst_id };
    let hdr_len = 4 + 2 * w;
    let payload_slice = vstd::slice::slice_subrange(data, hdr_len, data.len());
    let mut payload: Vec<u8> = Vec::new();
    payload.extend_from_slice(payload_slice);
    assert(header_bytes(header) =~= data@.subrange(0, 4 + 2 * announced_width(data@)));
    assert(payload@ =~= data@.skip(4 + 2 * announced_width(data@)));
    Ok((header, payload))
}

/// Round trip: what `encode_packet` produces from a well-formed
/// header and any payload starts with a valid packet, and decoding
/// it recovers exactly that header's bytes and that payload.
pub proof fn lemma_packet_roundtrip(h: PacketHeader, payload: Seq<u8>)
    requires
        h.well_formed(),
    ensures
        valid_packet(header_bytes(h) + payload),
        (header_bytes(h) + payload).subrange(
            0,
            4 + 2 * announced_width(header_bytes(h) + payload),
        ) == header_bytes(h),
        (header_bytes(h) + payload).skip(
            4 + 2 * announced_width(header_bytes(h) + payload),
        ) == payload,
{
    let s = header_bytes(h) + payload;
    assert(h.src_id@.len() == 4 || h.src_id@.len() == 16);
    assert(s[0] == (16 + h.spec_width_code()) as u8);
    assert(announced_width(s) == h.src_id@.len());
    assert(s[1] == spec_type_code(h.protocol));
    assert(spec_type_from_code(spec_type_code(h.protocol)) == Some(h.protocol));
    assert(s.subrange(0, 4 + 2 * announced_width(s)) =~= header_bytes(h));
    assert(s.skip(4 + 2 * announced_width(s)) =~= payload);
}

/// Two well-formed headers with one encoding are the same header:
/// together with the round trip this pins `decode ∘ encode` down to
/// the identity.
pub proof fn lemma_header_bytes_injective(h1: PacketHeader, h2: PacketHeader)
    requires
        h1.well_formed(),
        h2.well_formed(),
        header_bytes(h1) == header_bytes(h2),
    ensures
        h1 == h2,
{
    let s1 = header_bytes(h1);
    let s2 = header_bytes(h2);
    assert(h1.src_id@.len() == 4 || h1.src_id@.len() == 16);
    assert(h2.src_id@.len() == 4 || h2.src_id@.len() == 16);
    assert(s1[0] == s2[0]);
    assert(h1.src_id@.len() == h2.src_id@.len());
    assert(s1[1] == s2[1]);
    assert(h1.protocol == h2.protocol);
    assert(s1[2] == h1.ttl && s1[3] == h1.flags);
    assert(s2[2] == h2.ttl && s2[3] == h2.flags);
    assert(h1.ttl == h2.ttl && h1.flags == h2.flags);
    let w = h1.src_id@.len() as int;
    assert forall|i: int| 0 <= i < w implies h1.src_id@[i] == h2.src_id@[i] by {
        assert(s1[4 + i] == s2[4 + i]);
    }
    assert forall|i: int| 0 <= i < w implies h1.dst_id@[i] == h2.dst_id@[i] by {
        assert(s1[4 + w + i] == s2[4 + w + i]);
    }
    assert(h1.src_id@ =~= h2.src_id@);
    assert(h1.dst_id@ =~= h2.dst_id@);
    lemma_id_view_injective(h1.src_id, h2.src_id);
    lemma_id_view_injective(h1.dst_id, h2.dst_id);
}

/// Node identifiers are their bytes: equal views, equal identifiers.
pub proof fn lemma_id_view_injective(a: NodeID, b: NodeID)
    requires
        a@ == b@,
    ensures
        a == b,
{
    match (a, b) {
        (NodeID::Short(x), NodeID::Short(y)) => {
            assert(x =~= y);
        },
        (NodeID::Extended(x), NodeID::Extended(y)) => {
            assert(x =~= y);
        },
        (NodeID::Short(x), NodeID::Extended(y)) => {
            assert(x@.len() == 4 && y@.len() == 16);
        },
        (NodeID::Extended(x), NodeID::Short(y)) => {
            assert(x@.len() == 16 && y@.len() == 4);
        },
    }
}

} // verus!
