//! What a frame looks like, byte by byte.

use super::message::{
    ack_of, data_of, decode, decode_bounded, encode, nack_of, Message, MessageType, MessageView,
    ProtocolError,
};
use crate::bytes::{be16, be32, be64, from_be16, from_be32, from_be64};
use vstd::prelude::*;
use vstd::utf8::encode_utf8;

verus! {

/// A frame is the code of its message's type, the number in four bytes with the most significant
/// first, the 32 bytes of the channel and the whole payload, each in its own order, and nothing
/// else.
pub proof fn frames_lay_out_their_message(m: MessageView)
    requires
        m.channel.len() == 32,
    ensures
        ({
            let f = encode(m);
            &&& f.len() == 37 + m.payload.len()
            &&& f[0] == match m.msg_type {
                MessageType::Publish => 0x01u8,
                MessageType::Subscribe => 0x02u8,
                MessageType::Unsubscribe => 0x03u8,
                MessageType::Retrieve => 0x04u8,
                MessageType::UploadBundle => 0x05u8,
                MessageType::FetchBundle => 0x06u8,
                MessageType::Ack => 0x10u8,
                MessageType::Nack => 0x11u8,
                MessageType::Data => 0x20u8,
                MessageType::BundleData => 0x21u8,
            }
            &&& f[1] * 0x100_0000 + f[2] * 0x1_0000 + f[3] * 0x100 + f[4] == m.id
            &&& forall|i: int| 0 <= i < 32 ==> #[trigger] m.channel[i] == f[5 + i]
            &&& forall|i: int| 0 <= i < m.payload.len() ==> #[trigger] m.payload[i] == f[37 + i]
        }),
{
    let f = encode(m);
    let x = m.id;
    assert(f[1] == be32(x)[0] && f[2] == be32(x)[1] && f[3] == be32(x)[2] && f[4] == be32(x)[3]);
    numbers_are_big_endian(0, x, 0);
}

/// A frame of at least 37 bytes that begins with the code of a type is the message of that type
/// whose number, channel and payload are the bytes behind it; any other frame is none.
pub proof fn frames_are_read_as_laid_out(f: Seq<u8>)
    ensures
        f.len() < 37 ==> (decode(f) matches Err(ProtocolError::TooShort { need, got }) && need == 37
            && got == f.len()),
        f.len() >= 37 && !(f[0] == 0x01 || f[0] == 0x02 || f[0] == 0x03 || f[0] == 0x04 || f[0]
            == 0x05 || f[0] == 0x06 || f[0] == 0x10 || f[0] == 0x11 || f[0] == 0x20 || f[0] == 0x21)
            ==> decode(f) == Err::<MessageView, ProtocolError>(
            ProtocolError::InvalidMessageType(f[0]),
        ),
        f.len() >= 37 && (f[0] == 0x01 || f[0] == 0x02 || f[0] == 0x03 || f[0] == 0x04 || f[0]
            == 0x05 || f[0] == 0x06 || f[0] == 0x10 || f[0] == 0x11 || f[0] == 0x20 || f[0] == 0x21)
            ==> decode(f) is Ok,
        decode(f) matches Ok(m) ==> {
            &&& f[0] == 0x01 <==> m.msg_type is Publish
            &&& f[0] == 0x02 <==> m.msg_type is Subscribe
            &&& f[0] == 0x03 <==> m.msg_type is Unsubscribe
            &&& f[0] == 0x04 <==> m.msg_type is Retrieve
            &&& f[0] == 0x05 <==> m.msg_type is UploadBundle
            &&& f[0] == 0x06 <==> m.msg_type is FetchBundle
            &&& f[0] == 0x10 <==> m.msg_type is Ack
            &&& f[0] == 0x11 <==> m.msg_type is Nack
            &&& f[0] == 0x20 <==> m.msg_type is Data
            &&& f[0] == 0x21 <==> m.msg_type is BundleData
            &&& f[1] * 0x100_0000 + f[2] * 0x1_0000 + f[3] * 0x100 + f[4] == m.id
            &&& m.channel.len() == 32
            &&& forall|i: int| 0 <= i < 32 ==> #[trigger] m.channel[i] == f[5 + i]
            &&& m.payload.len() == f.len() - 37
            &&& forall|i: int| 0 <= i < m.payload.len() ==> #[trigger] m.payload[i] == f[37 + i]
        },
{
    if f.len() >= 37 {
        let s = f.subrange(1, 5);
        assert(s[0] == f[1] && s[1] == f[2] && s[2] == f[3] && s[3] == f[4]);
        bytes_are_big_endian(f.subrange(0, 2), s, f.subrange(0, 8));
    }
}

/// A limit refuses exactly the messages whose payload is longer than it, and changes no other.
pub proof fn limits_refuse_long_payloads_only(f: Seq<u8>, max: usize)
    requires
        f.len() <= usize::MAX,
    ensures
        decode_bounded(f, None) == decode(f),
        decode(f) is Ok && f.len() - 37 > max ==> (decode_bounded(f, Some(max)) matches Err(
            ProtocolError::PayloadTooLarge { size, max: limit },
        ) && size == f.len() - 37 && limit == max),
        !(decode(f) is Ok && f.len() - 37 > max) ==> decode_bounded(f, Some(max)) == decode(f),
{
}

/// Acks and nacks carry the number of the request, no channel, and nothing or the reason; data
/// messages carry what they are given.
pub proof fn answers_say_what_they_are_made_of(
    id: u32,
    reason: Seq<char>,
    channel: Seq<u8>,
    payload: Seq<u8>,
)
    ensures
        ack_of(id).msg_type is Ack,
        ack_of(id).id == id,
        ack_of(id).payload.len() == 0,
        ack_of(id).channel.len() == 32,
        forall|i: int| 0 <= i < 32 ==> #[trigger] ack_of(id).channel[i] == 0,
        nack_of(id, reason).msg_type is Nack,
        nack_of(id, reason).id == id,
        nack_of(id, reason).payload == encode_utf8(reason),
        nack_of(id, reason).channel.len() == 32,
        forall|i: int| 0 <= i < 32 ==> #[trigger] nack_of(id, reason).channel[i] == 0,
        data_of(id, channel, payload).msg_type is Data,
        data_of(id, channel, payload).id == id,
        data_of(id, channel, payload).channel == channel,
        data_of(id, channel, payload).payload == payload,
{
}

/// Publishing and uploading cost three tokens, subscribing, retrieving and fetching two, and
/// everything else one.
pub proof fn costs_go_by_type(t: MessageType)
    ensures
        t is Publish || t is UploadBundle <==> t.cost() == 3,
        t is Subscribe || t is Retrieve || t is FetchBundle <==> t.cost() == 2,
        t.cost() == 1 || t.cost() == 2 || t.cost() == 3,
{
}

/// What is said of a message is said of its fields.
pub proof fn messages_are_seen_whole(m: Message)
    ensures
        m@.msg_type == m.msg_type,
        m@.id == m.id,
        m@.channel == m.channel@,
        m@.payload == m.payload@,
{
}

/// The bytes of a number are its digits to the base of 256, the most significant first.
pub proof fn numbers_are_big_endian(x: u16, y: u32, z: u64)
    ensures
        be16(x).len() == 2,
        be16(x)[0] * 0x100 + be16(x)[1] == x,
        be32(y).len() == 4,
        be32(y)[0] * 0x100_0000 + be32(y)[1] * 0x1_0000 + be32(y)[2] * 0x100 + be32(y)[3] == y,
        be64(z).len() == 8,
        (be64(z)[0] * 0x100_0000 + be64(z)[1] * 0x1_0000 + be64(z)[2] * 0x100 + be64(z)[3])
            * 0x1_0000_0000 + be64(z)[4] * 0x100_0000 + be64(z)[5] * 0x1_0000 + be64(z)[6] * 0x100
            + be64(z)[7] == z,
{
    four_digits(y);
    let hi = (z / 0x1_0000_0000) as u32;
    let lo = (z % 0x1_0000_0000) as u32;
    four_digits(hi);
    four_digits(lo);
    let s = be64(z);
    assert(s[0] == be32(hi)[0] && s[1] == be32(hi)[1] && s[2] == be32(hi)[2] && s[3] == be32(
        hi,
    )[3]);
    assert(s[4] == be32(lo)[0] && s[5] == be32(lo)[1] && s[6] == be32(lo)[2] && s[7] == be32(
        lo,
    )[3]);
    assert(z == hi * 0x1_0000_0000 + lo);
}

proof fn four_digits(y: u32)
    ensures
        be32(y)[0] * 0x100_0000 + be32(y)[1] * 0x1_0000 + be32(y)[2] * 0x100 + be32(y)[3] == y,
{
    assert(y == y / 0x100_0000 * 0x100_0000 + y / 0x1_0000 % 0x100 * 0x1_0000 + y / 0x100 % 0x100
        * 0x100 + y % 0x100);
}

/// The number that bytes stand for is the one that has them as digits.
pub proof fn bytes_are_big_endian(a: Seq<u8>, b: Seq<u8>, c: Seq<u8>)
    requires
        a.len() == 2,
        b.len() == 4,
        c.len() == 8,
    ensures
        from_be16(a) == a[0] * 0x100 + a[1],
        from_be32(b) == b[0] * 0x100_0000 + b[1] * 0x1_0000 + b[2] * 0x100 + b[3],
        from_be64(c) == (c[0] * 0x100_0000 + c[1] * 0x1_0000 + c[2] * 0x100 + c[3]) * 0x1_0000_0000
            + c[4] * 0x100_0000 + c[5] * 0x1_0000 + c[6] * 0x100 + c[7],
{
    let (s, t) = (c.subrange(0, 4), c.subrange(4, 8));
    assert(s[0] == c[0] && s[1] == c[1] && s[2] == c[2] && s[3] == c[3]);
    assert(t[0] == c[4] && t[1] == c[5] && t[2] == c[6] && t[3] == c[7]);
    assert(from_be32(s) == s[0] * 0x100_0000 + s[1] * 0x1_0000 + s[2] * 0x100 + s[3]);
    assert(from_be32(t) == t[0] * 0x100_0000 + t[1] * 0x1_0000 + t[2] * 0x100 + t[3]);
}

} // verus!
