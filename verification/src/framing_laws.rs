//! What the layers around a message promise, said from the side of the server:
//! what it reads in a packet, and what it writes in one.

use vstd::prelude::*;

use crate::fields::{big_at, numbers_are_read, numbers_are_written};
use crate::framing::{
    channel_length, channel_message, channel_request, control_type, demands_active,
    demands_active_within, message_length, packet, sent, user_offset,
};
use crate::wire::be16;

verus! {

// ---- Sending ----------------------------------------------------------------

/// Whether `s` is a whole transport packet: its version, its own length, high
/// byte first, and the three bytes that mark data.
pub open spec fn whole_packet(s: Seq<u8>) -> bool {
    &&& s.len() >= 7
    &&& s[0] == 3
    &&& s[1] == 0
    &&& big_at(s, 2) == s.len()
    &&& s[4] == 2
    &&& s[5] == 0xF0
    &&& s[6] == 0x80
}

/// Transport packets tell their length, and end with the data.
pub proof fn packets_are_whole(data: Seq<u8>)
    requires
        7 + data.len() <= 0xFFFF,
    ensures
        whole_packet(packet(data)),
        packet(data).len() == 7 + data.len(),
        packet(data).skip(7) == data,
{
    let s = packet(data);
    let size = ((7 + data.len()) % 0x1_0000) as u16;
    numbers_are_written(size, 0, 0);
    assert(s[2] == be16(size)[0] && s[3] == be16(size)[1]);
    assert(s.skip(7) =~= data);
}

/// Where the data of a message to a channel begins: its length takes one byte
/// below 128 and two from there on, the first of which says so.
pub open spec fn data_start(n: nat) -> int {
    if n < 128 {
        14
    } else {
        15
    }
}

/// Whether `s` is a packet of `user` to `channel` that ends with `data`.
pub open spec fn carries(s: Seq<u8>, user: int, channel: int, data: Seq<u8>) -> bool {
    &&& whole_packet(s)
    &&& s[7] == 0x64
    &&& big_at(s, 8) + 1001 == user
    &&& big_at(s, 10) == channel
    &&& s[12] == 0x70
    &&& if data.len() < 128 {
        s[13] == data.len()
    } else {
        big_at(s, 13) == 0x8000 + data.len()
    }
    &&& s.len() == data_start(data.len()) + data.len()
    &&& s.skip(data_start(data.len())) == data
}

/// A message to a channel is sent whole: it names the user and the channel, says
/// how long it is, and ends with the data. Lengths from 16384 on do not fit.
pub proof fn messages_are_sent_whole(user: u16, channel: u16, data: Seq<u8>)
    requires
        1001 <= user,
        data.len() < 0x4000,
    ensures
        carries(sent(user, channel, data), user as int, channel as int, data),
{
    let request = channel_request(user, channel, data);
    let s = sent(user, channel, data);
    let length = channel_length(data.len());
    packets_are_whole(request);
    let body = s.skip(7);
    numbers_are_written(user_offset(user), 0, 0);
    numbers_are_written(channel, 0, 0);
    assert(s[7] == body[0]);
    assert(s[8] == body[1] && body[1] == be16(user_offset(user))[0]);
    assert(s[9] == body[2] && body[2] == be16(user_offset(user))[1]);
    assert(s[10] == body[3] && body[3] == be16(channel)[0]);
    assert(s[11] == body[4] && body[4] == be16(channel)[1]);
    assert(s[12] == body[5]);
    assert(s[13] == body[6] && body[6] == length[0]);
    if data.len() >= 128 {
        assert(s[14] == body[7] && body[7] == length[1]);
    }
    assert(s.skip(data_start(data.len())) =~= data);
}

// ---- Receiving --------------------------------------------------------------

/// A stream that begins with the header of a short message is cut where the
/// header says.
pub proof fn short_messages_are_cut(action: u8, n: int, rest: Seq<u8>)
    requires
        action != 3,
    ensures
        2 <= n < 128 ==> message_length(seq![action, n as u8] + rest) == Some(n as nat),
        3 <= n < 0x8000 ==> message_length(
            seq![action, (128 + n / 256) as u8, (n % 256) as u8] + rest,
        ) == Some(n as nat),
{
    if 3 <= n < 0x8000 {
        let s = seq![action, (128 + n / 256) as u8, (n % 256) as u8] + rest;
        assert(s[1] == 128 + n / 256);
        assert(s[2] == n % 256);
    }
}

/// Nothing is cut from a stream before the length of its message has come; what
/// comes behind it does not change that length.
pub proof fn lengths_are_awaited(s: Seq<u8>, rest: Seq<u8>)
    ensures
        message_length(s) is None ==> s.len() < 4,
        message_length(s) is Some ==> message_length(s + rest) == message_length(s),
        message_length(s) matches Some(n) ==> n > 0,
        s.len() > 0 && s[0] == 3 && s.len() < 4 ==> message_length(s) is None,
        s.len() >= 4 && s[0] == 3 && big_at(s, 2) < 4 ==> message_length(s) == Some(1nat),
        s.len() >= 2 && s[0] != 3 && s[1] < 2 ==> message_length(s) == Some(2nat),
        s.len() >= 3 && s[0] != 3 && s[1] == 128 && s[2] < 3 ==> message_length(s) == Some(3nat),
{
    let t = s + rest;
    if s.len() > 0 {
        assert(t[0] == s[0]);
    }
    if s.len() > 1 {
        assert(t[1] == s[1]);
    }
    if s.len() > 2 {
        assert(t[2] == s[2]);
    }
    if s.len() > 3 {
        assert(t[3] == s[3]);
    }
}

/// Whether `s` begins with a packet of the server to `channel` that ends with
/// `data`.
pub open spec fn brings(s: Seq<u8>, channel: int, data: Seq<u8>) -> bool {
    let end = data_start(data.len()) + data.len();
    &&& s.len() >= end
    &&& s[0] == 3
    &&& big_at(s, 2) == end
    &&& s[5] == 0xF0
    &&& s[7] == 0x68
    &&& big_at(s, 10) == channel
    &&& if data.len() < 128 {
        s[13] == data.len()
    } else {
        big_at(s, 13) == 0x8000 + data.len()
    }
    &&& s.subrange(data_start(data.len()), end) == data
}

/// A message of the server is taken out of its packet as it was put in.
pub proof fn messages_are_taken_out(s: Seq<u8>, channel: u16, data: Seq<u8>)
    requires
        data.len() < 0x4000,
        brings(s, channel as int, data),
    ensures
        channel_message(s) == Some((channel, data)),
        s.len() >= 18 && data.len() >= 6 ==> control_type(s) == Some((data[2] % 16) as u16),
        s.len() >= 18 && data.len() >= 6 ==> demands_active(s) == (data[2] % 16 == 1),
{
    let start = data_start(data.len());
    numbers_are_read(s, 2);
    numbers_are_read(s, 10);
    if data.len() >= 6 {
        assert(data[2] == s[start + 2]);
    }
}

/// What is taken out of a packet lies in it, within the length that it states,
/// and only messages of the server are taken.
pub proof fn only_whole_messages_are_taken(s: Seq<u8>)
    ensures
        channel_message(s) matches Some((channel, data)) ==> s[0] == 3 && s[7] == 0x68 && big_at(
            s,
            2,
        ) <= s.len() && big_at(s, 10) == channel && (if s[13] < 128 {
            data.len() == s[13] && 14 + data.len() <= big_at(s, 2) && data == s.subrange(
                14,
                14 + data.len() as int,
            )
        } else {
            data.len() + 0x8000 == big_at(s, 13) && 15 + data.len() <= big_at(s, 2) && data
                == s.subrange(15, 15 + data.len() as int)
        }),
        control_type(s) is Some ==> s[0] == 3 && s[5] == 0xF0 && s[7] == 0x68 && big_at(s, 2)
            <= s.len(),
{
    numbers_are_read(s, 2);
    numbers_are_read(s, 10);
}

/// A demand for activation is found among the messages that came together, in
/// whatever place.
pub proof fn demands_are_found(message: Seq<u8>, rest: Seq<u8>)
    requires
        message_length(message) == Some(message.len()),
    ensures
        demands_active_within(message + rest) == (demands_active(message)
            || demands_active_within(rest)),
        !demands_active_within(Seq::empty()),
{
    lengths_are_awaited(message, rest);
    let s = message + rest;
    assert(s.take(message.len() as int) =~= message);
    assert(s.skip(message.len() as int) =~= rest);
}

} // verus!
