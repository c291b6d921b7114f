//! Frames: the eight header bytes that go in front of every payload.
//!
//! A frame is one type tag byte, the payload length as seven bytes with the
//! most significant first, and the payload. The length is below 2^48.

use crate::messages::{message_of_tag, tag_of, Messages};
use vstd::prelude::*;

verus! {

/// The number of header bytes in front of a payload.
pub const HEADER_SIZE: usize = 8;

/// Payload lengths are below this bound.
pub const PAYLOAD_LIMIT: u64 = 0x1_0000_0000_0000;

/// What a frame header says: the message type and the payload length.
#[derive(Copy, Clone, PartialEq, Eq, Debug, Structural)]
pub struct Header {
    pub msg_type: Messages,
    pub size: usize,
}

/// Why header bytes were refused.
#[derive(Copy, Clone, PartialEq, Eq, Debug, Structural)]
pub enum FrameError {
    /// The tag byte names no message type.
    InvalidMessageType(u8),
    /// The length is 2^48 or more, or more than this machine can address.
    LengthTooLarge(u64),
}

/// The eight header bytes for a tag and a payload length.
#[verifier::opaque]
pub open spec fn header_bytes(tag: u8, len: nat) -> Seq<u8> {
    seq![
        tag,
        (len / 0x1_0000_0000_0000 % 256) as u8,
        (len / 0x100_0000_0000 % 256) as u8,
        (len / 0x1_0000_0000 % 256) as u8,
        (len / 0x100_0000 % 256) as u8,
        (len / 0x1_0000 % 256) as u8,
        (len / 0x100 % 256) as u8,
        (len % 256) as u8,
    ]
}

/// The payload length that eight header bytes announce.
#[verifier::opaque]
pub open spec fn header_length(h: Seq<u8>) -> nat {
    (h[1] * 0x1_0000_0000_0000 + h[2] * 0x100_0000_0000 + h[3] * 0x1_0000_0000 + h[4] * 0x100_0000
        + h[5] * 0x1_0000 + h[6] * 0x100 + h[7]) as nat
}

/// A frame: header, then payload.
pub open spec fn frame_bytes(kind: Messages, payload: Seq<u8>) -> Seq<u8> {
    header_bytes(tag_of(kind), payload.len()) + payload
}

/// A payload length that a header can announce and this machine can hold.
pub open spec fn length_ok(len: nat) -> bool {
    len < PAYLOAD_LIMIT && len <= usize::MAX
}

/// What `Header::decode` returns for eight header bytes: the tag is looked at
/// first, the length second.
pub open spec fn spec_decode_header(h: Seq<u8>) -> Result<Header, FrameError> {
    match message_of_tag(h[0]) {
        None => Err(FrameError::InvalidMessageType(h[0])),
        Some(kind) => if length_ok(header_length(h)) {
            Ok(Header { msg_type: kind, size: header_length(h) as usize })
        } else {
            Err(FrameError::LengthTooLarge(header_length(h) as u64))
        },
    }
}

proof fn lemma_length_split(x: u64)
    by (bit_vector)
    requires
        x < 0x100_0000_0000_0000,
    ensures
        x == (x / 0x1_0000_0000_0000 % 256) * 0x1_0000_0000_0000 + (x / 0x100_0000_0000 % 256)
            * 0x100_0000_0000 + (x / 0x1_0000_0000 % 256) * 0x1_0000_0000 + (x / 0x100_0000 % 256)
            * 0x100_0000 + (x / 0x1_0000 % 256) * 0x1_0000 + (x / 0x100 % 256) * 0x100 + (x
            % 256),
{
}

proof fn lemma_length_join(b1: u8, b2: u8, b3: u8, b4: u8, b5: u8, b6: u8, b7: u8)
    ensures
        ({
            let v = b1 * 0x1_0000_0000_0000 + b2 * 0x100_0000_0000 + b3 * 0x1_0000_0000 + b4
                * 0x100_0000 + b5 * 0x1_0000 + b6 * 0x100 + b7;
            &&& 0 <= v < 0x100_0000_0000_0000
            &&& v / 0x1_0000_0000_0000 % 256 == b1
            &&& v / 0x100_0000_0000 % 256 == b2
            &&& v / 0x1_0000_0000 % 256 == b3
            &&& v / 0x100_0000 % 256 == b4
            &&& v / 0x1_0000 % 256 == b5
            &&& v / 0x100 % 256 == b6
            &&& v % 256 == b7
        }),
{
    let v = b1 * 0x1_0000_0000_0000 + b2 * 0x100_0000_0000 + b3 * 0x1_0000_0000 + b4 * 0x100_0000
        + b5 * 0x1_0000 + b6 * 0x100 + b7;
    let q1: int = b1 as int;
    let q2: int = q1 * 256 + b2;
    let q3: int = q2 * 256 + b3;
    let q4: int = q3 * 256 + b4;
    let q5: int = q4 * 256 + b5;
    let q6: int = q5 * 256 + b6;
    assert(v == q6 * 0x100 + b7);
    assert(v / 0x100 == q6);
    assert(v / 0x1_0000 == q5) by {
        assert(v == q5 * 0x1_0000 + (b6 * 0x100 + b7));
    }
    assert(v / 0x100_0000 == q4) by {
        assert(v == q4 * 0x100_0000 + (b5 * 0x1_0000 + b6 * 0x100 + b7));
    }
    assert(v / 0x1_0000_0000 == q3) by {
        assert(v == q3 * 0x1_0000_0000 + (b4 * 0x100_0000 + b5 * 0x1_0000 + b6 * 0x100 + b7));
    }
    assert(v / 0x100_0000_0000 == q2) by {
        assert(v == q2 * 0x100_0000_0000 + (b3 * 0x1_0000_0000 + b4 * 0x100_0000 + b5 * 0x1_0000
            + b6 * 0x100 + b7));
    }
    assert(v / 0x1_0000_0000_0000 == q1) by {
        assert(v == q1 * 0x1_0000_0000_0000 + (b2 * 0x100_0000_0000 + b3 * 0x1_0000_0000 + b4
            * 0x100_0000 + b5 * 0x1_0000 + b6 * 0x100 + b7));
    }
}

/// A header has eight bytes, opens with the tag, and announces the length it
/// was made for.
pub proof fn lemma_header_bytes(tag: u8, len: nat)
    requires
        len < 0x100_0000_0000_0000,
    ensures
        header_bytes(tag, len).len() == 8,
        header_bytes(tag, len)[0] == tag,
        header_length(header_bytes(tag, len)) == len,
{
    reveal(header_bytes);
    reveal(header_length);
    lemma_length_split(len as u64);
}

/// Eight bytes are the header of their own tag and length, and of no other.
pub proof fn lemma_header_unique(h: Seq<u8>)
    requires
        h.len() == 8,
    ensures
        header_length(h) < 0x100_0000_0000_0000,
        header_bytes(h[0], header_length(h)) == h,
{
    reveal(header_bytes);
    reveal(header_length);
    lemma_length_join(h[1], h[2], h[3], h[4], h[5], h[6], h[7]);
    assert(header_bytes(h[0], header_length(h)) =~= h);
}

/// A frame that opens another frame is that frame: no frame is a proper
/// prefix of another, and a frame determines its type and payload.
pub proof fn lemma_frame_prefix_free(ka: Messages, pa: Seq<u8>, kb: Messages, pb: Seq<u8>)
    requires
        pa.len() < PAYLOAD_LIMIT,
        pb.len() < PAYLOAD_LIMIT,
        frame_bytes(ka, pa).is_prefix_of(frame_bytes(kb, pb)),
    ensures
        ka == kb,
        pa == pb,
{
    let fa = frame_bytes(ka, pa);
    let fb = frame_bytes(kb, pb);
    lemma_header_bytes(tag_of(ka), pa.len());
    lemma_header_bytes(tag_of(kb), pb.len());
    let ha = header_bytes(tag_of(ka), pa.len());
    let hb = header_bytes(tag_of(kb), pb.len());
    assert(fa.len() <= fb.len());
    assert forall|i: int| 0 <= i < fa.len() implies fa[i] == fb[i] by {
        assert(fa == fb.subrange(0, fa.len() as int));
    }
    assert(ha =~= hb) by {
        assert forall|i: int| 0 <= i < 8 implies ha[i] == hb[i] by {
            assert(fa[i] == ha[i]);
            assert(fb[i] == hb[i]);
        }
    }
    assert(tag_of(ka) == tag_of(kb));
    crate::messages::lemma_tag_round_trip(ka);
    crate::messages::lemma_tag_round_trip(kb);
    assert(pa.len() == pb.len());
    assert(pa =~= pb) by {
        assert forall|i: int| 0 <= i < pa.len() implies pa[i] == pb[i] by {
            assert(fa[i + 8] == pa[i]);
            assert(fb[i + 8] == pb[i]);
        }
    }
}

impl Header {
    /// The eight header bytes; refused when the size is 2^48 or more.
    pub fn encode(&self) -> (r: Result<[u8; 8], FrameError>)
        ensures
            match r {
                Ok(h) => self.size < PAYLOAD_LIMIT && h@ == header_bytes(
                    tag_of(self.msg_type),
                    self.size as nat,
                ),
                Err(e) => self.size >= PAYLOAD_LIMIT && e == FrameError::LengthTooLarge(
                    self.size as u64,
                ),
            },
    {
        let len: u64 = self.size as u64;
        if len >= PAYLOAD_LIMIT {
            return Err(FrameError::LengthTooLarge(len));
        }
        let h: [u8; 8] = [
            self.msg_type.to_u8(),
            (len / 0x1_0000_0000_0000 % 256) as u8,
            (len / 0x100_0000_0000 % 256) as u8,
            (len / 0x1_0000_0000 % 256) as u8,
            (len / 0x100_0000 % 256) as u8,
            (len / 0x1_0000 % 256) as u8,
            (len / 0x100 % 256) as u8,
            (len % 256) as u8,
        ];
        proof {
            reveal(header_bytes);
            assert(h@ =~= header_bytes(tag_of(self.msg_type), self.size as nat));
        }
        Ok(h)
    }

    /// Reads eight header bytes. The tag must name a message type and the
    /// length must be below 2^48 and within what this machine can address.
    pub fn decode(h: &[u8; 8]) -> (r: Result<Header, FrameError>)
        ensures
            r == spec_decode_header(h@),
    {
        let kind = match Messages::from_u8(h[0]) {
            Ok(k) => k,
            Err(_) => {
                return Err(FrameError::InvalidMessageType(h[0]));
            },
        };
        proof {
            reveal(header_length);
        }
        let len: u64 = (h[1] as u64) * 0x1_0000_0000_0000 + (h[2] as u64) * 0x100_0000_0000 + (
        h[3] as u64) * 0x1_0000_0000 + (h[4] as u64) * 0x100_0000 + (h[5] as u64) * 0x1_0000 + (
        h[6] as u64) * 0x100 + (h[7] as u64);
        if len >= PAYLOAD_LIMIT || len > usize::MAX as u64 {
            return Err(FrameError::LengthTooLarge(len));
        }
        Ok(Header { msg_type: kind, size: len as usize })
    }
}

} // verus!
