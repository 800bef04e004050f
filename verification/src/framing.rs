//! The layers around every message: transport packets, channel headers, and
//! how a stream of bytes is cut into messages.

use vstd::prelude::*;

use crate::wire::{be16, be16_at, put_bytes, put_u16_be, put_u8};

verus! {

broadcast use crate::wire::lemma_empty_add;

/// The channel of the picture and of the input.
pub const IO_CHANNEL: u16 = 1003;

/// The number of the first user channel.
pub const FIRST_USER: u16 = 1001;

// ---- Sending ----------------------------------------------------------------

/// `data` as a transport packet.
pub open spec fn packet(data: Seq<u8>) -> Seq<u8> {
    seq![3u8, 0] + be16(((7 + data.len()) % 0x1_0000) as u16) + seq![2u8, 0xF0, 0x80] + data
}

/// How the header of a channel message writes the length of what follows.
pub open spec fn channel_length(n: nat) -> Seq<u8> {
    if n < 128 {
        seq![n as u8]
    } else {
        seq![(0x80 + n / 256 % 64) as u8, (n % 256) as u8]
    }
}

/// How messages write the number of a user channel.
pub open spec fn user_offset(user_id: u16) -> u16 {
    ((user_id - FIRST_USER) % 0x1_0000) as u16
}

/// `data` as a message to a channel.
pub open spec fn channel_request(user_id: u16, channel_id: u16, data: Seq<u8>) -> Seq<u8> {
    seq![0x64u8] + be16(user_offset(user_id)) + be16(channel_id) + seq![0x70u8] + channel_length(
        data.len(),
    ) + data
}

/// The transport packet that carries `data` to a channel.
pub open spec fn sent(user_id: u16, channel_id: u16, data: Seq<u8>) -> Seq<u8> {
    packet(channel_request(user_id, channel_id, data))
}

/// How messages write the number of a user channel.
pub fn relative_user(user_id: u16) -> (res: u16)
    ensures
        res == user_offset(user_id),
{
    if user_id >= FIRST_USER {
        user_id - FIRST_USER
    } else {
        u16::MAX - (FIRST_USER - user_id) + 1
    }
}

/// The low 16 bits of `n + extra`.
pub fn low_sum(n: usize, extra: u16) -> (sum: u16)
    ensures
        sum == (extra + n) % 0x1_0000,
{
    (((n % 0x1_0000) as u32 + extra as u32) % 0x1_0000) as u16
}

/// `data` as a transport packet.
pub fn wrap_tpkt_x224_data(data: &[u8]) -> (pdu: Vec<u8>)
    ensures
        pdu@ == packet(data@),
{
    let total = low_sum(data.len(), 7);
    let mut pdu: Vec<u8> = Vec::new();
    put_bytes(&mut pdu, &[3, 0]);
    put_u16_be(&mut pdu, total);
    put_bytes(&mut pdu, &[2, 0xF0, 0x80]);
    put_bytes(&mut pdu, data);
    pdu
}

/// The transport packet that carries `data` to a channel.
pub fn wrap_mcs_send_data(user_id: u16, channel_id: u16, data: &[u8]) -> (pdu: Vec<u8>)
    ensures
        pdu@ == sent(user_id, channel_id, data@),
{
    let mut mcs: Vec<u8> = Vec::new();
    put_u8(&mut mcs, 0x64);
    put_u16_be(&mut mcs, relative_user(user_id));
    put_u16_be(&mut mcs, channel_id);
    put_u8(&mut mcs, 0x70);
    let len = data.len();
    if len < 128 {
        put_u8(&mut mcs, len as u8);
    } else {
        put_bytes(&mut mcs, &[(0x80 + len / 256 % 64) as u8, (len % 256) as u8]);
    }
    put_bytes(&mut mcs, data);
    wrap_tpkt_x224_data(mcs.as_slice())
}

// ---- Receiving --------------------------------------------------------------

/// The length of the message that a stream begins with; none where too little
/// of it has come to tell. A length too small for its own header is replaced by
/// one that skips what cannot be understood.
pub open spec fn message_length(s: Seq<u8>) -> Option<nat> {
    if s.len() == 0 {
        None
    } else if s[0] == 3 {
        if s.len() < 4 {
            None
        } else if be16_at(s, 2) < 4 {
            Some(1)
        } else {
            Some(be16_at(s, 2) as nat)
        }
    } else if s.len() < 2 {
        None
    } else if s[1] < 128 {
        Some(if s[1] < 2 {
            2nat
        } else {
            s[1] as nat
        })
    } else if s.len() < 3 {
        None
    } else {
        let n = (256 * (s[1] - 128) + s[2]) as nat;
        Some(if n < 3 {
            3
        } else {
            n
        })
    }
}

/// The length of the message that a stream begins with.
pub fn get_pdu_length(buf: &[u8]) -> (res: Option<usize>)
    ensures
        match res {
            Some(n) => message_length(buf@) == Some(n as nat) && 0 < n <= 0xFFFF,
            None => message_length(buf@) is None,
        },
{
    if buf.len() == 0 {
        return None;
    }
    if buf[0] == 3 {
        if buf.len() < 4 {
            return None;
        }
        let n = 256 * buf[2] as usize + buf[3] as usize;
        if n < 4 {
            return Some(1);
        }
        return Some(n);
    }
    if buf.len() < 2 {
        return None;
    }
    if buf[1] < 128 {
        if buf[1] < 2 {
            return Some(2);
        }
        return Some(buf[1] as usize);
    }
    if buf.len() < 3 {
        return None;
    }
    let n = 256 * (buf[1] - 128) as usize + buf[2] as usize;
    if n < 3 {
        Some(3)
    } else {
        Some(n)
    }
}

/// A transport packet is cut from a stream as it was made, whatever follows.
pub proof fn packet_is_one_message(data: Seq<u8>, rest: Seq<u8>)
    requires
        7 + data.len() <= 0xFFFF,
    ensures
        message_length(packet(data) + rest) == Some(packet(data).len()),
{
    let s = packet(data) + rest;
    let size = ((7 + data.len()) % 0x1_0000) as u16;
    assert(s[0] == 3);
    assert(s[2] == be16(size)[0] && s[3] == be16(size)[1]);
}

/// The length in the header of a channel message, and where the message begins.
pub open spec fn payload_bounds(s: Seq<u8>) -> (int, int) {
    if s[13] < 128 {
        (14, s[13] as int)
    } else {
        (15, 256 * (s[13] - 128) + s[14])
    }
}

/// The channel of a packet from the server, and the message that it carries;
/// none where it is no whole message to a channel.
pub open spec fn channel_message(s: Seq<u8>) -> Option<(u16, Seq<u8>)> {
    if s.len() < 14 || s[0] != 3 || s[5] != 0xF0 || be16_at(s, 2) > s.len() || s[7] != 0x68 {
        None
    } else {
        let (start, length) = payload_bounds(s);
        if (s[13] >= 128 && s.len() < 15) || start + length > be16_at(s, 2) {
            None
        } else {
            Some((be16_at(s, 10), s.subrange(start, start + length)))
        }
    }
}

/// The channel of a packet from the server, and the message that it carries.
pub fn server_mcs_payload<'a>(data: &'a [u8]) -> (res: Option<(u16, &'a [u8])>)
    ensures
        match res {
            Some((channel, payload)) => channel_message(data@) == Some((channel, payload@)),
            None => channel_message(data@) is None,
        },
{
    if data.len() < 14 || data[0] != 3 || data[5] != 0xF0 {
        return None;
    }
    let packet_len = 256 * data[2] as usize + data[3] as usize;
    if packet_len > data.len() || data[7] != 0x68 {
        return None;
    }
    let channel_id = 256 * data[10] as u16 + data[11] as u16;
    let first = data[13];
    if first >= 128 && data.len() < 15 {
        return None;
    }
    let (start, length): (usize, usize) = if first < 128 {
        (14, first as usize)
    } else {
        (15, 256 * (first - 128) as usize + data[14] as usize)
    };
    if start + length > packet_len {
        return None;
    }
    Some((channel_id, vstd::slice::slice_subrange(data, start, start + length)))
}

/// The channel of a packet from the server.
pub fn server_mcs_channel_id(data: &[u8]) -> (res: Option<u16>)
    ensures
        res == (match channel_message(data@) {
            Some((channel, _)) => Some(channel),
            None => None,
        }),
{
    match server_mcs_payload(data) {
        Some((channel, _)) => Some(channel),
        None => None,
    }
}

/// A message from the server as a packet.
pub open spec fn server_packet(initiator: u16, channel_id: u16, data: Seq<u8>) -> Seq<u8> {
    packet(
        seq![0x68u8] + be16(initiator) + be16(channel_id) + seq![0x70u8] + channel_length(
            data.len(),
        ) + data,
    )
}

/// A message that the server sends to a channel arrives there as it was sent.
/// Lengths from 16384 on do not fit the header.
pub proof fn server_message_arrives(initiator: u16, channel_id: u16, data: Seq<u8>)
    requires
        data.len() < 0x4000,
    ensures
        channel_message(server_packet(initiator, channel_id, data)) == Some((channel_id, data)),
{
    let length = channel_length(data.len());
    let body = seq![0x68u8] + be16(initiator) + be16(channel_id) + seq![0x70u8] + length + data;
    let s = server_packet(initiator, channel_id, data);
    let size = ((7 + body.len()) % 0x1_0000) as u16;
    assert(s[2] == be16(size)[0] && s[3] == be16(size)[1]);
    assert(s.len() == size);
    assert(s[10] == body[3] && s[11] == body[4]);
    assert(body[3] == be16(channel_id)[0] && body[4] == be16(channel_id)[1]);
    assert(s[13] == body[6] && body[6] == length[0]);
    if data.len() >= 128 {
        assert(s[14] == body[7] && body[7] == length[1]);
        assert(s.subrange(15, 15int + data.len()) =~= data);
    } else {
        assert(s.subrange(14, 14int + data.len()) =~= data);
    }
}

// ---- Sharing control --------------------------------------------------------

/// The type of the control message that a packet from the server carries.
pub open spec fn control_type(s: Seq<u8>) -> Option<u16> {
    if s.len() < 18 || s[0] != 3 || be16_at(s, 2) > s.len() || s[5] != 0xF0 || s[7] != 0x68 {
        None
    } else {
        let start = payload_bounds(s).0;
        if start + 6 > be16_at(s, 2) {
            None
        } else {
            Some((s[start + 2] % 16) as u16)
        }
    }
}

/// The type of the control message that a packet from the server carries. Only
/// the header tells: the bytes of a picture may look like any type.
pub fn share_control_pdu_type(data: &[u8]) -> (res: Option<u16>)
    ensures
        res == control_type(data@),
{
    if data.len() < 18 || data[0] != 3 {
        return None;
    }
    let packet_len = 256 * data[2] as usize + data[3] as usize;
    if packet_len > data.len() || data[5] != 0xF0 {
        return None;
    }
    if data[7] != 0x68 {
        return None;
    }
    let start: usize = if data[13] >= 128 {
        15
    } else {
        14
    };
    if start + 6 > packet_len {
        return None;
    }
    Some((data[start + 2] % 16) as u16)
}

/// Whether a packet demands that the session be activated.
pub open spec fn demands_active(s: Seq<u8>) -> bool {
    control_type(s) == Some(1u16)
}

/// Whether a packet demands that the session be activated.
pub fn is_demand_active_pdu(data: &[u8]) -> (res: bool)
    ensures
        res == demands_active(data@),
{
    match share_control_pdu_type(data) {
        Some(kind) => kind == 1,
        None => false,
    }
}

/// Whether one of the whole messages that `s` begins with demands activation.
pub open spec fn demands_active_within(s: Seq<u8>) -> bool
    decreases s.len(),
{
    match message_length(s) {
        Some(n) => if n == 0 || n > s.len() {
            false
        } else {
            demands_active(s.take(n as int)) || demands_active_within(s.skip(n as int))
        },
        None => false,
    }
}

/// Whether one of the whole messages that `data` begins with demands activation.
pub fn contains_demand_active(data: &[u8]) -> (res: bool)
    ensures
        res == demands_active_within(data@),
{
    let size = data.len();
    let mut offset: usize = 0;
    assert(data@.skip(0) =~= data@);
    while offset < size
        invariant
            size == data@.len(),
            offset <= size,
            demands_active_within(data@) == demands_active_within(data@.skip(offset as int)),
        decreases size - offset,
    {
        let rest = vstd::slice::slice_subrange(data, offset, size);
        assert(rest@ =~= data@.skip(offset as int));
        let length = match get_pdu_length(rest) {
            Some(length) => length,
            None => return false,
        };
        if length > size - offset {
            return false;
        }
        let message = vstd::slice::slice_subrange(data, offset, offset + length);
        assert(message@ =~= rest@.take(length as int));
        assert(rest@.skip(length as int) =~= data@.skip(offset + length));
        if is_demand_active_pdu(message) {
            return true;
        }
        offset += length;
    }
    false
}

} // verus!
