//! Framing shared by both ends of the stream: a 5-byte header (one type byte,
//! a big-endian 32-bit payload length) followed by the payload bytes.
use vstd::prelude::*;

verus! {

/// Size in bytes of an encoded header.
pub const HEADER_LEN: usize = 5;

/// Largest payload length that the header's length field can carry.
pub const MAX_PAYLOAD_LEN: u64 = 0xffff_ffff;

#[derive(Debug, Clone, Copy, PartialEq, Eq, Structural)]
pub enum MessageType {
    Log,
    FileTransfer,
}

/// Ways in which a received byte stream fails to decode.
#[derive(Debug, Clone, Copy, PartialEq, Eq, Structural)]
pub enum ProtocolError {
    /// The stream closed after between one and four header bytes.
    IncompleteHeader,
    /// The type byte names no known message type.
    UnknownMessageType,
}

impl MessageType {
    /// The tag byte of this message type on the wire.
    pub open spec fn spec_code(self) -> u8 {
        match self {
            MessageType::Log => 1,
            MessageType::FileTransfer => 2,
        }
    }

    pub fn code(&self) -> (r: u8)
        ensures
            r == self.spec_code(),
    {
        match self {
            MessageType::Log => 1,
            MessageType::FileTransfer => 2,
        }
    }

    pub fn from_code(code: u8) -> (r: Option<MessageType>)
        ensures
            r == type_of_code(code),
    {
        if code == 1 {
            Some(MessageType::Log)
        } else if code == 2 {
            Some(MessageType::FileTransfer)
        } else {
            None
        }
    }
}

/// The message type that a tag byte stands for, if any.
pub open spec fn type_of_code(code: u8) -> Option<MessageType> {
    if code == 1 {
        Some(MessageType::Log)
    } else if code == 2 {
        Some(MessageType::FileTransfer)
    } else {
        None
    }
}

/// The four bytes of `n`, most significant first.
pub open spec fn be_bytes(n: u32) -> Seq<u8> {
    seq![(n >> 24u32) as u8, (n >> 16u32) as u8, (n >> 8u32) as u8, n as u8]
}

/// The number whose big-endian bytes are `b0 b1 b2 b3`.
pub open spec fn be_value(b0: u8, b1: u8, b2: u8, b3: u8) -> u32 {
    ((b0 as u32) << 24u32) | ((b1 as u32) << 16u32) | ((b2 as u32) << 8u32) | (b3 as u32)
}

proof fn lemma_be_round_trip(n: u32)
    ensures
        be_value(be_bytes(n)[0], be_bytes(n)[1], be_bytes(n)[2], be_bytes(n)[3]) == n,
{
    let b = be_bytes(n);
    assert(((((n >> 24u32) as u8) as u32) << 24u32) | ((((n >> 16u32) as u8) as u32) << 16u32)
        | ((((n >> 8u32) as u8) as u32) << 8u32) | ((n as u8) as u32) == n) by (bit_vector);
}

/// The header bytes for a tag byte and a payload length.
pub open spec fn header_bytes(msg_type: u8, payload_size: u32) -> Seq<u8> {
    seq![msg_type] + be_bytes(payload_size)
}

/// The complete frame of a message: header, then payload.
pub open spec fn frame_bytes(msg_type: MessageType, payload: Seq<u8>) -> Seq<u8> {
    header_bytes(msg_type.spec_code(), payload.len() as u32) + payload
}

pub struct ProtocolHeader {
    pub msg_type: u8,
    pub payload_size: u32,
}

/// What the bytes read where a header was expected decode to: nothing read is
/// the end of the stream, one to four bytes an incomplete header.
pub open spec fn decode_header(b: Seq<u8>) -> Result<Option<ProtocolHeader>, ProtocolError> {
    if b.len() == 0 {
        Ok(None)
    } else if b.len() < HEADER_LEN {
        Err(ProtocolError::IncompleteHeader)
    } else {
        Ok(Some(ProtocolHeader { msg_type: b[0], payload_size: be_value(b[1], b[2], b[3], b[4]) }))
    }
}

/// What a stream decodes to when read from its start: the header, then up to
/// `payload_size` payload bytes (fewer where the stream ends early), then the
/// type byte is checked.
pub open spec fn decode_message(s: Seq<u8>) -> Result<Option<(MessageType, Seq<u8>)>, ProtocolError> {
    let head = if s.len() < HEADER_LEN {
        s
    } else {
        s.take(HEADER_LEN as int)
    };
    match decode_header(head) {
        Err(e) => Err(e),
        Ok(None) => Ok(None),
        Ok(Some(h)) => match type_of_code(h.msg_type) {
            None => Err(ProtocolError::UnknownMessageType),
            Some(t) => {
                let end = if s.len() < HEADER_LEN + h.payload_size {
                    s.len() as int
                } else {
                    HEADER_LEN + h.payload_size
                };
                Ok(Some((t, s.subrange(HEADER_LEN as int, end))))
            },
        },
    }
}

/// The spec value of a decoded message.
pub open spec fn message_view(r: Result<Option<(MessageType, Vec<u8>)>, ProtocolError>) -> Result<
    Option<(MessageType, Seq<u8>)>,
    ProtocolError,
> {
    match r {
        Ok(Some((t, p))) => Ok(Some((t, p@))),
        Ok(None) => Ok(None),
        Err(e) => Err(e),
    }
}

impl ProtocolHeader {
    pub fn new(msg_type: MessageType, payload_size: u32) -> (r: Self)
        ensures
            r.msg_type == msg_type.spec_code(),
            r.payload_size == payload_size,
    {
        ProtocolHeader { msg_type: msg_type.code(), payload_size }
    }

    pub fn to_vec(&self) -> (r: Vec<u8>)
        ensures
            r@ == header_bytes(self.msg_type, self.payload_size),
    {
        let mut buffer: Vec<u8> = Vec::with_capacity(HEADER_LEN);
        buffer.push(self.msg_type);
        let n = self.payload_size;
        buffer.push((n >> 24u32) as u8);
        buffer.push((n >> 16u32) as u8);
        buffer.push((n >> 8u32) as u8);
        buffer.push(n as u8);
        assert(buffer@ =~= header_bytes(self.msg_type, self.payload_size));
        buffer
    }

    /// Decodes the bytes that one read returned where a header was expected.
    pub fn from_bytes(buf: &[u8]) -> (r: Result<Option<ProtocolHeader>, ProtocolError>)
        ensures
            r == decode_header(buf@),
    {
        if buf.len() == 0 {
            Ok(None)
        } else if buf.len() < HEADER_LEN {
            Err(ProtocolError::IncompleteHeader)
        } else {
            let payload_size = ((buf[1] as u32) << 24u32) | ((buf[2] as u32) << 16u32) | ((
            buf[3] as u32) << 8u32) | (buf[4] as u32);
            Ok(Some(ProtocolHeader { msg_type: buf[0], payload_size }))
        }
    }

    /// The message type that this header's tag byte names.
    pub fn message_type(&self) -> (r: Result<MessageType, ProtocolError>)
        ensures
            r == (match type_of_code(self.msg_type) {
                Some(t) => Ok(t),
                None => Err(ProtocolError::UnknownMessageType),
            }),
    {
        match MessageType::from_code(self.msg_type) {
            Some(t) => Ok(t),
            None => Err(ProtocolError::UnknownMessageType),
        }
    }
}

/// Encodes one frame: header followed by the payload.
pub fn encode_frame(msg_type: MessageType, payload: &[u8]) -> (r: Vec<u8>)
    requires
        payload@.len() <= MAX_PAYLOAD_LEN,
    ensures
        r@ == frame_bytes(msg_type, payload@),
{
    let header = ProtocolHeader::new(msg_type, payload.len() as u32);
    let mut data = header.to_vec();
    data.extend_from_slice(payload);
    data
}

/// Finishes decoding a message once its header and the payload bytes that
/// arrived (all of them, or fewer where the stream closed early) are read:
/// the result is what the stream made of those bytes decodes to.
pub fn decode_payload(header: &ProtocolHeader, payload: &[u8]) -> (r: Result<
    (MessageType, Vec<u8>),
    ProtocolError,
>)
    requires
        payload@.len() <= header.payload_size,
    ensures
        decode_message(header_bytes(header.msg_type, header.payload_size) + payload@) == match r {
            Ok((t, p)) => Ok(Some((t, p@))),
            Err(e) => Err(e),
        },
{
    let ghost s = header_bytes(header.msg_type, header.payload_size) + payload@;
    proof {
        lemma_be_round_trip(header.payload_size);
        assert(s.take(HEADER_LEN as int) =~= header_bytes(header.msg_type, header.payload_size));
        assert(s.subrange(HEADER_LEN as int, s.len() as int) =~= payload@);
        let head = s.take(HEADER_LEN as int);
        assert(head[0] == header.msg_type);
        assert(be_value(head[1], head[2], head[3], head[4]) == header.payload_size);
        assert(s.len() <= HEADER_LEN + header.payload_size);
    }
    match header.message_type() {
        Err(e) => Err(e),
        Ok(t) => {
            let p = copy_range(payload, 0, payload.len());
            assert(p@ =~= payload@);
            Ok((t, p))
        },
    }
}

/// Copies `s[start..end]` into a new vector.
pub(crate) fn copy_range(s: &[u8], start: usize, end: usize) -> (r: Vec<u8>)
    requires
        start <= end <= s@.len(),
    ensures
        r@ == s@.subrange(start as int, end as int),
{
    let mut r: Vec<u8> = Vec::with_capacity(end - start);
    let mut i: usize = start;
    while i < end
        invariant
            start <= i <= end <= s@.len(),
            r@ == s@.subrange(start as int, i as int),
        decreases end - i,
    {
        r.push(s[i]);
        i = i + 1;
        assert(r@ =~= s@.subrange(start as int, i as int));
    }
    r
}

/// Decodes the message at the start of `stream`, a stream's bytes up to where
/// it closed.
pub fn read_message(stream: &[u8]) -> (r: Result<Option<(MessageType, Vec<u8>)>, ProtocolError>)
    ensures
        message_view(r) == decode_message(stream@),
{
    let head_len: usize = if stream.len() < HEADER_LEN {
        stream.len()
    } else {
        HEADER_LEN
    };
    let head = copy_range(stream, 0, head_len);
    assert(head@ =~= stream@ || head@ =~= stream@.take(HEADER_LEN as int));
    match ProtocolHeader::from_bytes(head.as_slice()) {
        Err(e) => Err(e),
        Ok(None) => Ok(None),
        Ok(Some(header)) => {
            let avail: usize = stream.len() - HEADER_LEN;
            let end: usize = if avail < header.payload_size as usize {
                stream.len()
            } else {
                HEADER_LEN + header.payload_size as usize
            };
            let payload = copy_range(stream, HEADER_LEN, end);
            match header.message_type() {
                Err(e) => Err(e),
                Ok(t) => Ok(Some((t, payload))),
            }
        },
    }
}

/// Every frame decodes back to the message type and payload it was built from.
pub proof fn lemma_round_trip(msg_type: MessageType, payload: Seq<u8>)
    requires
        payload.len() <= MAX_PAYLOAD_LEN,
    ensures
        decode_message(frame_bytes(msg_type, payload)) == Ok::<
            Option<(MessageType, Seq<u8>)>,
            ProtocolError,
        >(Some((msg_type, payload))),
{
    let n = payload.len() as u32;
    let f = frame_bytes(msg_type, payload);
    lemma_be_round_trip(n);
    assert(f.take(HEADER_LEN as int) =~= header_bytes(msg_type.spec_code(), n));
    assert(f.subrange(HEADER_LEN as int, HEADER_LEN + n) =~= payload);
}

} // verus!
