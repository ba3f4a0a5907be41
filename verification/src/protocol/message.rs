//! Messages and their encoding.
//!
//! A message is a one-byte type, a four-byte big-endian id, a channel of 32 bytes and a payload
//! that takes the rest of the frame.

use crate::bytes::{be32, be32_round_trip, from_be32, push_be32, read_array, read_be32};
use vstd::prelude::*;
use vstd::slice::slice_subrange;
use vstd::slice::slice_to_vec;
use vstd::utf8::encode_utf8;

verus! {

/// The length of a channel identifier.
pub const CHANNEL_SIZE: usize = 32;

/// The length of everything in front of the payload.
pub const MIN_HEADER: usize = 37;

/// An opaque channel identifier.
pub type Channel = [u8; CHANNEL_SIZE];

/// What a message asks for or answers.
#[derive(Debug, Clone, Copy, PartialEq, Eq, Structural)]
pub enum MessageType {
    Publish,
    Subscribe,
    Unsubscribe,
    Retrieve,
    UploadBundle,
    FetchBundle,
    Ack,
    Nack,
    Data,
    BundleData,
}

/// Why a frame is not a message.
#[derive(Debug, Clone, Copy, PartialEq, Eq, Structural)]
pub enum ProtocolError {
    /// The frame ends before the header does.
    TooShort { need: usize, got: usize },
    /// No message type has this code.
    InvalidMessageType(u8),
    /// The payload is longer than the receiver takes.
    PayloadTooLarge { size: usize, max: usize },
}

impl MessageType {
    /// The code of the type on the wire.
    pub open spec fn code(self) -> u8 {
        match self {
            MessageType::Publish => 0x01,
            MessageType::Subscribe => 0x02,
            MessageType::Unsubscribe => 0x03,
            MessageType::Retrieve => 0x04,
            MessageType::UploadBundle => 0x05,
            MessageType::FetchBundle => 0x06,
            MessageType::Ack => 0x10,
            MessageType::Nack => 0x11,
            MessageType::Data => 0x20,
            MessageType::BundleData => 0x21,
        }
    }

    /// The type that a code stands for.
    pub open spec fn of_code(b: u8) -> Option<MessageType> {
        match b {
            0x01 => Some(MessageType::Publish),
            0x02 => Some(MessageType::Subscribe),
            0x03 => Some(MessageType::Unsubscribe),
            0x04 => Some(MessageType::Retrieve),
            0x05 => Some(MessageType::UploadBundle),
            0x06 => Some(MessageType::FetchBundle),
            0x10 => Some(MessageType::Ack),
            0x11 => Some(MessageType::Nack),
            0x20 => Some(MessageType::Data),
            0x21 => Some(MessageType::BundleData),
            _ => None,
        }
    }

    /// The tokens that a request of this type costs.
    pub open spec fn cost(self) -> u32 {
        match self {
            MessageType::Publish | MessageType::UploadBundle => 3,
            MessageType::Subscribe | MessageType::Retrieve | MessageType::FetchBundle => 2,
            _ => 1,
        }
    }

    /// The type with code `b`.
    pub fn from_byte(b: u8) -> (r: Result<Self, ProtocolError>)
        ensures
            r == (match MessageType::of_code(b) {
                Some(t) => Ok(t),
                None => Err(ProtocolError::InvalidMessageType(b)),
            }),
    {
        match b {
            0x01 => Ok(MessageType::Publish),
            0x02 => Ok(MessageType::Subscribe),
            0x03 => Ok(MessageType::Unsubscribe),
            0x04 => Ok(MessageType::Retrieve),
            0x05 => Ok(MessageType::UploadBundle),
            0x06 => Ok(MessageType::FetchBundle),
            0x10 => Ok(MessageType::Ack),
            0x11 => Ok(MessageType::Nack),
            0x20 => Ok(MessageType::Data),
            0x21 => Ok(MessageType::BundleData),
            _ => Err(ProtocolError::InvalidMessageType(b)),
        }
    }

    /// The code of the type on the wire.
    pub fn to_byte(self) -> (b: u8)
        ensures
            b == self.code(),
    {
        match self {
            MessageType::Publish => 0x01,
            MessageType::Subscribe => 0x02,
            MessageType::Unsubscribe => 0x03,
            MessageType::Retrieve => 0x04,
            MessageType::UploadBundle => 0x05,
            MessageType::FetchBundle => 0x06,
            MessageType::Ack => 0x10,
            MessageType::Nack => 0x11,
            MessageType::Data => 0x20,
            MessageType::BundleData => 0x21,
        }
    }

    /// The tokens that a request of this type costs.
    pub fn token_cost(&self) -> (cost: u32)
        ensures
            cost == self.cost(),
    {
        match self {
            MessageType::Publish => 3,
            MessageType::UploadBundle => 3,
            MessageType::Subscribe => 2,
            MessageType::Retrieve => 2,
            MessageType::FetchBundle => 2,
            MessageType::Unsubscribe => 1,
            _ => 1,
        }
    }
}

/// A message.
#[derive(Debug, Clone)]
pub struct Message {
    pub msg_type: MessageType,
    pub id: u32,
    pub channel: Channel,
    pub payload: Vec<u8>,
}

/// What a message says.
#[verifier::ext_equal]
pub struct MessageView {
    pub msg_type: MessageType,
    pub id: u32,
    pub channel: Seq<u8>,
    pub payload: Seq<u8>,
}

impl View for Message {
    type V = MessageView;

    open spec fn view(&self) -> MessageView {
        MessageView {
            msg_type: self.msg_type,
            id: self.id,
            channel: self.channel@,
            payload: self.payload@,
        }
    }
}

/// The channel of messages that concern none: all zeros.
pub open spec fn no_channel() -> Seq<u8> {
    Seq::new(CHANNEL_SIZE as nat, |i: int| 0u8)
}

/// The positive answer to request `id`.
pub open spec fn ack_of(id: u32) -> MessageView {
    MessageView {
        msg_type: MessageType::Ack,
        id,
        channel: no_channel(),
        payload: Seq::empty(),
    }
}

/// The negative answer to request `id`: its payload is the reason in UTF-8.
pub open spec fn nack_of(id: u32, reason: Seq<char>) -> MessageView {
    MessageView {
        msg_type: MessageType::Nack,
        id,
        channel: no_channel(),
        payload: encode_utf8(reason),
    }
}

/// The message that carries `payload` to the subscribers of `channel`.
pub open spec fn data_of(id: u32, channel: Seq<u8>, payload: Seq<u8>) -> MessageView {
    MessageView { msg_type: MessageType::Data, id, channel, payload }
}

/// The frame of a message.
pub open spec fn encode(m: MessageView) -> Seq<u8> {
    seq![m.msg_type.code()] + be32(m.id) + m.channel + m.payload
}

/// The message that a frame holds.
pub open spec fn decode(frame: Seq<u8>) -> Result<MessageView, ProtocolError> {
    if frame.len() < MIN_HEADER {
        Err(ProtocolError::TooShort { need: MIN_HEADER, got: frame.len() as usize })
    } else {
        match MessageType::of_code(frame[0]) {
            None => Err(ProtocolError::InvalidMessageType(frame[0])),
            Some(msg_type) => Ok(
                MessageView {
                    msg_type,
                    id: from_be32(frame.subrange(1, 5)),
                    channel: frame.subrange(5, 37),
                    payload: frame.skip(37),
                },
            ),
        }
    }
}

/// The message that a frame holds, where payloads longer than `max` are refused.
pub open spec fn decode_bounded(frame: Seq<u8>, max: Option<usize>) -> Result<
    MessageView,
    ProtocolError,
> {
    match (decode(frame), max) {
        (Ok(m), Some(max)) if m.payload.len() > max => Err(
            ProtocolError::PayloadTooLarge { size: m.payload.len() as usize, max },
        ),
        (r, _) => r,
    }
}

/// Every type is the one that its code stands for, and a code stands for no type but the one
/// that has it.
pub proof fn codes_name_types(t: MessageType, b: u8)
    ensures
        MessageType::of_code(t.code()) == Some(t),
        MessageType::of_code(b) matches Some(of_b) ==> of_b.code() == b,
{
}

/// A message that is encoded and decoded comes back as it was.
pub proof fn decode_encode(m: MessageView)
    requires
        m.channel.len() == CHANNEL_SIZE,
    ensures
        decode(encode(m)) == Ok::<MessageView, ProtocolError>(m),
{
    let frame = encode(m);
    codes_name_types(m.msg_type, frame[0]);
    assert(frame.subrange(1, 5) =~= be32(m.id));
    be32_round_trip(m.id, be32(m.id));
    assert(frame.subrange(5, 37) =~= m.channel);
    assert(frame.skip(37) =~= m.payload);
}

/// A frame that decodes is the encoding of the message that it holds.
pub proof fn encode_decode(frame: Seq<u8>)
    requires
        decode(frame) is Ok,
    ensures
        encode(decode(frame)->Ok_0) == frame,
{
    be32_round_trip(0, frame.subrange(1, 5));
    codes_name_types(MessageType::Ack, frame[0]);
    assert(encode(decode(frame)->Ok_0) =~= frame);
}

/// The header takes the same room in front of every payload.
pub proof fn header_is_fixed(m: MessageView)
    requires
        m.channel.len() == CHANNEL_SIZE,
    ensures
        encode(m).len() == MIN_HEADER + m.payload.len(),
{
}

impl Message {
    /// The positive answer to request `id`.
    pub fn ack(id: u32) -> (m: Self)
        ensures
            m@ == ack_of(id),
    {
        let m = Message {
            msg_type: MessageType::Ack,
            id,
            channel: [0u8; CHANNEL_SIZE],
            payload: Vec::new(),
        };
        assert(m@ =~= ack_of(id));
        m
    }

    /// The negative answer to request `id`.
    pub fn nack(id: u32, reason: &str) -> (m: Self)
        ensures
            m@ == nack_of(id, reason@),
    {
        let m = Message {
            msg_type: MessageType::Nack,
            id,
            channel: [0u8; CHANNEL_SIZE],
            payload: slice_to_vec(reason.as_bytes()),
        };
        assert(m@ =~= nack_of(id, reason@));
        m
    }

    /// The message that carries `payload` to the subscribers of `channel`.
    pub fn data(id: u32, channel: Channel, payload: Vec<u8>) -> (m: Self)
        ensures
            m@ == data_of(id, channel@, payload@),
    {
        Message { msg_type: MessageType::Data, id, channel, payload }
    }

    /// The frame of the message.
    pub fn serialize(&self) -> (frame: Vec<u8>)
        ensures
            frame@ == encode(self@),
    {
        let mut buf: Vec<u8> = Vec::with_capacity(MIN_HEADER);
        buf.push(self.msg_type.to_byte());
        push_be32(&mut buf, self.id);
        buf.extend_from_slice(&self.channel);
        buf.extend_from_slice(&self.payload);
        assert(buf@ =~= encode(self@));
        buf
    }

    /// The message that a frame holds.
    pub fn deserialize(data: &[u8]) -> (r: Result<Self, ProtocolError>)
        ensures
            match r {
                Ok(m) => decode(data@) == Ok::<MessageView, ProtocolError>(m@),
                Err(e) => decode(data@) == Err::<MessageView, ProtocolError>(e),
            },
    {
        if data.len() < MIN_HEADER {
            return Err(ProtocolError::TooShort { need: MIN_HEADER, got: data.len() });
        }
        let msg_type = match MessageType::from_byte(data[0]) {
            Ok(t) => t,
            Err(e) => return Err(e),
        };
        let id: u32 = read_be32(data, 1);
        let channel: Channel = read_array(data, 5);
        let payload = slice_to_vec(slice_subrange(data, MIN_HEADER, data.len()));
        proof {
            assert(payload@ =~= data@.skip(37));
        }
        Ok(Message { msg_type, id, channel, payload })
    }

    /// The message that a frame holds, where payloads longer than `max_payload` are refused.
    pub fn deserialize_bounded(data: &[u8], max_payload: Option<usize>) -> (r: Result<
        Self,
        ProtocolError,
    >)
        ensures
            match r {
                Ok(m) => decode_bounded(data@, max_payload) == Ok::<MessageView, ProtocolError>(m@),
                Err(e) => decode_bounded(data@, max_payload) == Err::<MessageView, ProtocolError>(
                    e,
                ),
            },
    {
        let msg = Message::deserialize(data)?;
        if let Some(max) = max_payload {
            let size: usize = msg.payload.len();
            if size > max {
                return Err(ProtocolError::PayloadTooLarge { size, max });
            }
        }
        Ok(msg)
    }
}

} // verus!
