//! The messages that open a connection.

use vstd::prelude::*;
use vstd::utf8::encode_utf8;

use crate::encoding::{encode_utf16_bytes, unit_bytes_round_trip, utf16, utf16_bytes};
use crate::errors::RdpError;
use crate::framing::{
    low_sum, packet, relative_user, sent, user_offset, wrap_mcs_send_data, wrap_tpkt_x224_data,
    FIRST_USER, IO_CHANNEL,
};
use crate::profile::{ProfileView, RdpProfile};
use crate::settings::{lookup, lookup_either};
use crate::text::{chars_of, push_chars};
use crate::wire::{
    be16, be16_at, le16, le16_at, le32, le32_at, put_bytes, put_u16, put_u16_be, put_u32, put_u8,
    put_zeros, zeros,
};

verus! {

broadcast use crate::wire::lemma_empty_add;

// ---- Negotiation ------------------------------------------------------------

/// The line that tells the server who connects.
pub open spec fn cookie(username: Seq<char>) -> Seq<u8> {
    encode_utf8("Cookie: mstshash="@ + username + "\r\n"@)
}

/// A connection request: the cookie, and what else is asked for.
pub open spec fn connection_request(username: Seq<char>, wishes: Seq<u8>) -> Seq<u8> {
    let length = 6 + cookie(username).len() + wishes.len();
    seq![3u8, 0] + be16(((5 + length) % 0x1_0000) as u16) + seq![
        (length % 256) as u8,
        0xE0,
        0,
        0,
        0,
        0,
        0,
    ] + cookie(username) + wishes
}

/// Asks for an encrypted connection.
pub open spec fn encryption_wish() -> Seq<u8> {
    seq![1u8, 0, 8, 0, 1, 0, 0, 0]
}

/// What is added to a number shows in its low bytes as it does when only its
/// low half is kept.
proof fn lemma_low_remainders(n: int, extra: int)
    requires
        0 <= n,
        0 <= extra,
    ensures
        (n % 0x1_0000 + extra) % 0x1_0000 == (n + extra) % 0x1_0000,
        (n % 0x1_0000 + extra) % 256 == (n + extra) % 256,
{
    let q = n / 0x1_0000;
    let low = n % 0x1_0000 + extra;
    assert(n + extra == 0x1_0000 * q + low);
    assert((0x1_0000 * q + low) % 0x1_0000 == low % 0x1_0000);
    assert((256 * (256 * q) + low) % 256 == low % 256);
}

/// The two lengths of a connection request.
fn request_lengths(cookie: usize, wishes: usize) -> (res: (u16, u8))
    requires
        wishes <= 8,
    ensures
        res.0 == (5 + (6 + cookie + wishes)) % 0x1_0000,
        res.1 == (6 + cookie + wishes) % 256,
{
    let length = (cookie % 0x1_0000) as u32 + 6 + wishes as u32;
    proof {
        lemma_low_remainders(cookie as int, length - (cookie % 0x1_0000));
        lemma_low_remainders(cookie as int, length - (cookie % 0x1_0000) + 5);
    }
    (((length + 5) % 0x1_0000) as u16, (length % 256) as u8)
}

fn build_request(username: &str, wishes: &[u8]) -> (pdu: Vec<u8>)
    requires
        wishes@.len() <= 8,
    ensures
        pdu@ == connection_request(username@, wishes@),
{
    let mut text = String::new();
    let label = chars_of("Cookie: mstshash=");
    push_chars(&mut text, label.as_slice());
    let name = chars_of(username);
    push_chars(&mut text, name.as_slice());
    let end = chars_of("\r\n");
    push_chars(&mut text, end.as_slice());
    assert(text@ =~= "Cookie: mstshash="@ + username@ + "\r\n"@);
    let bytes = text.as_str().as_bytes();
    let (outer, inner) = request_lengths(bytes.len(), wishes.len());
    let mut pdu: Vec<u8> = Vec::new();
    put_bytes(&mut pdu, &[3, 0]);
    put_u16_be(&mut pdu, outer);
    put_bytes(&mut pdu, &[inner, 0xE0, 0, 0, 0, 0, 0]);
    put_bytes(&mut pdu, bytes);
    put_bytes(&mut pdu, wishes);
    pdu
}

/// The request for an encrypted connection.
pub fn build_x224_connection_request(profile: &RdpProfile) -> (pdu: Vec<u8>)
    ensures
        pdu@ == connection_request(profile.username@, encryption_wish()),
{
    build_request(profile.username.as_str(), &[1, 0, 8, 0, 1, 0, 0, 0])
}

/// The request for servers that cannot encrypt.
pub fn build_x224_connection_request_plain(profile: &RdpProfile) -> (pdu: Vec<u8>)
    ensures
        pdu@ == connection_request(profile.username@, Seq::empty()),
{
    build_request(profile.username.as_str(), &[])
}

/// The protocol that the answer to a connection request selects, or why the
/// connection cannot go on.
pub open spec fn confirmed(s: Seq<u8>) -> Result<u8, RdpError> {
    if s.len() < 7 {
        Err(RdpError::ConfirmTooShort(s.len() as usize))
    } else if s[0] != 3 {
        Err(RdpError::ConfirmVersion(s[0]))
    } else if s[5] != 0xD0 {
        Err(RdpError::NegotiationFailed(s[5]))
    } else {
        let size = be16_at(s, 2) as int;
        if 15 <= size <= s.len() && s[size - 8] == 2 {
            if s[size - 4] == 2 || s[size - 4] == 8 {
                Err(RdpError::AuthenticationRequired)
            } else {
                Ok(s[size - 4])
            }
        } else {
            Ok(0)
        }
    }
}

/// The protocol that the answer to a connection request selects.
pub fn parse_x224_confirm(data: &[u8]) -> (res: Result<u8, RdpError>)
    ensures
        res == confirmed(data@),
{
    if data.len() < 7 {
        return Err(RdpError::ConfirmTooShort(data.len()));
    }
    if data[0] != 3 {
        return Err(RdpError::ConfirmVersion(data[0]));
    }
    if data[5] != 0xD0 {
        return Err(RdpError::NegotiationFailed(data[5]));
    }
    let size = 256 * data[2] as usize + data[3] as usize;
    if size >= 15 && size <= data.len() && data[size - 8] == 2 {
        let protocol = data[size - 4];
        if protocol == 2 || protocol == 8 {
            return Err(RdpError::AuthenticationRequired);
        }
        return Ok(protocol);
    }
    Ok(0)
}

// ---- Conference -------------------------------------------------------------

/// Name of the clipboard channel.
pub open spec fn clipboard_channel_name() -> Seq<u8> {
    seq![0x63u8, 0x6C, 0x69, 0x70, 0x72, 0x64, 0x72, 0]
}

/// Name of the channel of mapped folders.
pub open spec fn drive_channel_name() -> Seq<u8> {
    seq![0x72u8, 0x64, 0x70, 0x64, 0x72, 0, 0, 0]
}

/// What the client says of itself.
pub open spec fn core_data(width: u16, height: u16, selected_protocol: u8) -> Seq<u8> {
    le16(0xC001) + le16(234) + le32(0x0008_0004) + le16(width) + le16(height) + le16(0xCA01)
        + le16(0xAA03) + le32(0x409) + le32(2600) + utf16_bytes("Portix"@) + zeros(20) + le32(4)
        + le32(0) + le32(12) + zeros(64) + le16(0xCA01) + le16(1) + le32(0) + le16(24) + le16(0xF)
        + le16(1) + zeros(64) + seq![0u8, 0] + le32(selected_protocol as u32) + le32(1000) + le32(
        1000,
    ) + le16(0) + le32(100) + le32(100)
}

/// Which sessions the client can be sent to.
pub open spec fn cluster_data() -> Seq<u8> {
    le16(0xC004) + le16(12) + le32(0xD) + le32(0)
}

/// Which encryptions the client knows.
pub open spec fn security_data() -> Seq<u8> {
    le16(0xC002) + le16(12) + le32(0x1B) + le32(0)
}

/// Which channels the client asks for.
pub open spec fn network_data(drive_enabled: bool) -> Seq<u8> {
    if drive_enabled {
        le16(0xC003) + le16(32) + le32(2) + clipboard_channel_name() + le32(0xC0A0_0000)
            + drive_channel_name() + le32(0xC080_0000)
    } else {
        le16(0xC003) + le16(20) + le32(1) + clipboard_channel_name() + le32(0xC0A0_0000)
    }
}

/// A length as conference messages write it.
pub open spec fn per_length(n: nat) -> Seq<u8> {
    seq![(0x80 + n / 256 % 128) as u8, (n % 256) as u8]
}

/// `user_data` as the request to create a conference.
pub open spec fn conference_request(user_data: Seq<u8>) -> Seq<u8> {
    seq![0u8, 5, 0, 0x14, 0x7C, 0, 1] + per_length(user_data.len() + 14) + seq![
        0u8,
        8,
        0,
        0x10,
        0,
        1,
        0xC0,
        0,
    ] + seq![0x44u8, 0x75, 0x63, 0x61] + per_length(user_data.len()) + user_data
}

/// A length in basic encoding.
pub open spec fn ber_length(n: nat) -> Seq<u8> {
    if n < 128 {
        seq![n as u8]
    } else if n < 256 {
        seq![0x81u8, n as u8]
    } else {
        seq![0x82u8, (n / 256 % 256) as u8, (n % 256) as u8]
    }
}

/// An integer in basic encoding, in as many bytes as it needs.
pub open spec fn ber_int(value: u32) -> Seq<u8> {
    if value <= 0x7F {
        seq![2u8, 1, value as u8]
    } else if value <= 0x7FFF {
        seq![2u8, 2, (value / 0x100) as u8, (value % 0x100) as u8]
    } else if value <= 0x7F_FFFF {
        seq![
            2u8,
            3,
            (value / 0x1_0000) as u8,
            (value / 0x100 % 0x100) as u8,
            (value % 0x100) as u8,
        ]
    } else {
        seq![
            2u8,
            4,
            (value / 0x100_0000) as u8,
            (value / 0x1_0000 % 0x100) as u8,
            (value / 0x100 % 0x100) as u8,
            (value % 0x100) as u8,
        ]
    }
}

/// Integers in basic encoding, one after the other.
pub open spec fn ber_ints(values: Seq<u32>) -> Seq<u8>
    decreases values.len(),
{
    if values.len() == 0 {
        Seq::empty()
    } else {
        ber_ints(values.drop_last()) + ber_int(values.last())
    }
}

/// A set of limits of a connection.
pub open spec fn domain_params(values: Seq<u32>) -> Seq<u8> {
    seq![0x30u8] + ber_length(ber_ints(values).len()) + ber_ints(values)
}

/// What the request to connect holds.
pub open spec fn connect_content(conference: Seq<u8>) -> Seq<u8> {
    seq![4u8, 1, 1, 4, 1, 1, 1, 1, 0xFF] + domain_params(
        seq![34u32, 2, 0, 1, 0, 1, 0xFFFF, 2],
    ) + domain_params(seq![1u32, 1, 1, 1, 0, 1, 0x420, 2]) + domain_params(
        seq![0xFFFFu32, 0xFC17, 0xFFFF, 1, 0, 1, 0xFFFF, 2],
    ) + seq![4u8] + ber_length(conference.len()) + conference
}

/// The request to connect that carries `conference`.
pub open spec fn connect_packet(conference: Seq<u8>) -> Seq<u8> {
    packet(
        seq![0x7Fu8, 0x65] + ber_length(connect_content(conference).len()) + connect_content(
            conference,
        ),
    )
}

/// The request to connect.
pub open spec fn connect_initial(
    width: u16,
    height: u16,
    selected_protocol: u8,
    drive_enabled: bool,
) -> Seq<u8> {
    connect_packet(
        conference_request(
            core_data(width, height, selected_protocol) + cluster_data() + security_data()
                + network_data(drive_enabled),
        ),
    )
}

fn build_core_data(width: u16, height: u16, selected_protocol: u8) -> (core: Vec<u8>)
    ensures
        core@ == core_data(width, height, selected_protocol),
{
    let mut core: Vec<u8> = Vec::new();
    put_u16(&mut core, 0xC001);
    put_u16(&mut core, 234);
    put_u32(&mut core, 0x0008_0004);
    put_u16(&mut core, width);
    put_u16(&mut core, height);
    put_u16(&mut core, 0xCA01);
    put_u16(&mut core, 0xAA03);
    put_u32(&mut core, 0x409);
    put_u32(&mut core, 2600);
    let name = encode_utf16_bytes("Portix");
    put_bytes(&mut core, name.as_slice());
    put_zeros(&mut core, 20);
    put_u32(&mut core, 4);
    put_u32(&mut core, 0);
    put_u32(&mut core, 12);
    put_zeros(&mut core, 64);
    put_u16(&mut core, 0xCA01);
    put_u16(&mut core, 1);
    put_u32(&mut core, 0);
    put_u16(&mut core, 24);
    put_u16(&mut core, 0xF);
    put_u16(&mut core, 1);
    put_zeros(&mut core, 64);
    put_bytes(&mut core, &[0, 0]);
    put_u32(&mut core, selected_protocol as u32);
    put_u32(&mut core, 1000);
    put_u32(&mut core, 1000);
    put_u16(&mut core, 0);
    put_u32(&mut core, 100);
    put_u32(&mut core, 100);
    core
}

fn put_fixed_data(out: &mut Vec<u8>)
    ensures
        final(out)@ == old(out)@ + cluster_data() + security_data(),
{
    let mut cluster: Vec<u8> = Vec::new();
    put_u16(&mut cluster, 0xC004);
    put_u16(&mut cluster, 12);
    put_u32(&mut cluster, 0xD);
    put_u32(&mut cluster, 0);
    let mut security: Vec<u8> = Vec::new();
    put_u16(&mut security, 0xC002);
    put_u16(&mut security, 12);
    put_u32(&mut security, 0x1B);
    put_u32(&mut security, 0);
    put_bytes(out, cluster.as_slice());
    put_bytes(out, security.as_slice());
}

fn build_network_data(drive_enabled: bool) -> (net: Vec<u8>)
    ensures
        net@ == network_data(drive_enabled),
{
    let mut net: Vec<u8> = Vec::new();
    put_u16(&mut net, 0xC003);
    if drive_enabled {
        put_u16(&mut net, 32);
        put_u32(&mut net, 2);
    } else {
        put_u16(&mut net, 20);
        put_u32(&mut net, 1);
    }
    put_bytes(&mut net, &[0x63, 0x6C, 0x69, 0x70, 0x72, 0x64, 0x72, 0]);
    put_u32(&mut net, 0xC0A0_0000);
    if drive_enabled {
        put_bytes(&mut net, &[0x72, 0x64, 0x70, 0x64, 0x72, 0, 0, 0]);
        put_u32(&mut net, 0xC080_0000);
    }
    net
}

/// The request to connect with the desktop size of `profile`.
pub fn build_mcs_connect_initial(
    profile: &RdpProfile,
    selected_protocol: u8,
    drive_enabled: bool,
) -> (pdu: Vec<u8>)
    ensures
        pdu@ == connect_initial(profile.width, profile.height, selected_protocol, drive_enabled),
{
    let mut user_data = build_core_data(profile.width, profile.height, selected_protocol);
    put_fixed_data(&mut user_data);
    let net = build_network_data(drive_enabled);
    put_bytes(&mut user_data, net.as_slice());
    let conference = build_gcc_wrapper(user_data.as_slice());
    build_mcs_ci_pdu(conference.as_slice())
}

/// The two lowest bytes of a number are those of its low half.
proof fn lemma_low_bytes(n: int)
    requires
        0 <= n,
    ensures
        n % 0x1_0000 / 256 % 128 == n / 256 % 128,
        n % 0x1_0000 % 256 == n % 256,
{
    let q = n / 0x1_0000;
    let r = n % 0x1_0000;
    assert(n == 0x1_0000 * q + r);
    assert(n / 256 == 256 * q + r / 256);
    assert((256 * q + r / 256) % 128 == r / 256 % 128);
}

/// Appends the length `n + extra` as conference messages write it.
fn put_per_length(out: &mut Vec<u8>, n: usize, extra: u16)
    ensures
        final(out)@ == old(out)@ + per_length(n as nat + extra as nat),
{
    let length = low_sum(n, extra);
    let high = (0x80 + length / 256 % 128) as u8;
    let low = (length % 256) as u8;
    proof {
        lemma_low_bytes(n + extra);
    }
    put_bytes(out, &[high, low]);
}

/// `user_data` as the request to create a conference.
pub fn build_gcc_wrapper(user_data: &[u8]) -> (gcc: Vec<u8>)
    ensures
        gcc@ == conference_request(user_data@),
{
    let size = user_data.len();
    let mut gcc: Vec<u8> = Vec::new();
    put_bytes(&mut gcc, &[0, 5, 0, 0x14, 0x7C, 0, 1]);
    put_per_length(&mut gcc, size, 14);
    put_bytes(&mut gcc, &[0, 8, 0, 0x10, 0, 1, 0xC0, 0]);
    put_bytes(&mut gcc, &[0x44, 0x75, 0x63, 0x61]);
    put_per_length(&mut gcc, size, 0);
    put_bytes(&mut gcc, user_data);
    gcc
}

/// Appends a length in basic encoding.
pub fn ber_write_length(buf: &mut Vec<u8>, len: usize)
    ensures
        final(buf)@ == old(buf)@ + ber_length(len as nat),
{
    if len < 128 {
        put_u8(buf, len as u8);
    } else if len < 256 {
        put_bytes(buf, &[0x81, len as u8]);
    } else {
        put_bytes(buf, &[0x82, (len / 256 % 256) as u8, (len % 256) as u8]);
    }
}

/// Appends an integer in basic encoding.
pub fn ber_write_int(buf: &mut Vec<u8>, value: u32)
    ensures
        final(buf)@ == old(buf)@ + ber_int(value),
{
    if value <= 0x7F {
        put_bytes(buf, &[2, 1, value as u8]);
    } else if value <= 0x7FFF {
        put_bytes(buf, &[2, 2, (value / 0x100) as u8, (value % 0x100) as u8]);
    } else if value <= 0x7F_FFFF {
        put_bytes(
            buf,
            &[
                2,
                3,
                (value / 0x1_0000) as u8,
                (value / 0x100 % 0x100) as u8,
                (value % 0x100) as u8,
            ],
        );
    } else {
        put_bytes(
            buf,
            &[
                2,
                4,
                (value / 0x100_0000) as u8,
                (value / 0x1_0000 % 0x100) as u8,
                (value / 0x100 % 0x100) as u8,
                (value % 0x100) as u8,
            ],
        );
    }
}

/// A set of limits of a connection.
pub fn build_domain_params(values: [u32; 8]) -> (params: Vec<u8>)
    ensures
        params@ == domain_params(values@),
{
    let mut content: Vec<u8> = Vec::new();
    let mut i: usize = 0;
    assert(values@.take(0) =~= Seq::<u32>::empty());
    while i < 8
        invariant
            i <= 8,
            values@.len() == 8,
            content@ == ber_ints(values@.take(i as int)),
        decreases 8 - i,
    {
        assert(values@.take(i + 1).drop_last() =~= values@.take(i as int));
        ber_write_int(&mut content, values[i]);
        i += 1;
    }
    assert(values@.take(i as int) =~= values@);
    let mut params: Vec<u8> = Vec::new();
    put_u8(&mut params, 0x30);
    ber_write_length(&mut params, content.len());
    put_bytes(&mut params, content.as_slice());
    params
}

/// The request to connect that carries `gcc_data`.
pub fn build_mcs_ci_pdu(gcc_data: &[u8]) -> (pdu: Vec<u8>)
    ensures
        pdu@ == connect_packet(gcc_data@),
{
    let mut mcs: Vec<u8> = Vec::new();
    put_bytes(&mut mcs, &[4, 1, 1, 4, 1, 1, 1, 1, 0xFF]);
    let target = build_domain_params([34, 2, 0, 1, 0, 1, 0xFFFF, 2]);
    put_bytes(&mut mcs, target.as_slice());
    let minimum = build_domain_params([1, 1, 1, 1, 0, 1, 0x420, 2]);
    put_bytes(&mut mcs, minimum.as_slice());
    let maximum = build_domain_params([0xFFFF, 0xFC17, 0xFFFF, 1, 0, 1, 0xFFFF, 2]);
    put_bytes(&mut mcs, maximum.as_slice());
    put_u8(&mut mcs, 4);
    ber_write_length(&mut mcs, gcc_data.len());
    put_bytes(&mut mcs, gcc_data);
    let mut pdu: Vec<u8> = Vec::new();
    put_bytes(&mut pdu, &[0x7F, 0x65]);
    ber_write_length(&mut pdu, mcs.len());
    put_bytes(&mut pdu, mcs.as_slice());
    wrap_tpkt_x224_data(pdu.as_slice())
}

/// The length that the core data states is its length.
pub proof fn core_data_length(width: u16, height: u16, selected_protocol: u8)
    ensures
        core_data(width, height, selected_protocol).len() == 234,
        le16_at(core_data(width, height, selected_protocol), 2) == 234,
{
    reveal_strlit("Portix");
    lemma_ascii_units("Portix"@);
    unit_bytes_round_trip(utf16("Portix"@));
    let core = core_data(width, height, selected_protocol);
    assert(core[2] == le16(234)[0] && core[3] == le16(234)[1]);
}

/// Text of ASCII characters has one code unit for each.
pub proof fn lemma_ascii_units(s: Seq<char>)
    requires
        crate::text::ascii(s),
    ensures
        utf16(s).len() == s.len(),
    decreases s.len(),
{
    if s.len() > 0 {
        assert((s[0] as u32) < 128);
        assert forall|i: int| 0 <= i < s.skip(1).len() implies (#[trigger] s.skip(1)[i] as u32)
            < 128 by {
            assert((s[i + 1] as u32) < 128);
        }
        lemma_ascii_units(s.skip(1));
    }
}

/// The length that the network data states is its length.
pub proof fn network_data_length(drive_enabled: bool)
    ensures
        le16_at(network_data(drive_enabled), 2) == network_data(drive_enabled).len(),
{
    let net = network_data(drive_enabled);
    let stated: u16 = if drive_enabled { 32 } else { 20 };
    assert(net[2] == le16(stated)[0] && net[3] == le16(stated)[1]);
}

// ---- Joining channels -------------------------------------------------------

/// Tells the server that the domain stands.
pub open spec fn erect_request() -> Seq<u8> {
    packet(seq![4u8, 1, 0, 1, 0])
}

/// Asks for a user channel.
pub open spec fn attach_request() -> Seq<u8> {
    packet(seq![0x28u8])
}

/// Tells the server that the domain stands.
pub fn build_mcs_erect_domain() -> (pdu: Vec<u8>)
    ensures
        pdu@ == erect_request(),
{
    wrap_tpkt_x224_data(&[4, 1, 0, 1, 0])
}

/// Asks for a user channel.
pub fn build_mcs_attach_user() -> (pdu: Vec<u8>)
    ensures
        pdu@ == attach_request(),
{
    wrap_tpkt_x224_data(&[0x28])
}

/// The user channel that the server gives, or why it gives none.
pub open spec fn attached(s: Seq<u8>) -> Result<u16, RdpError> {
    if s.len() < 11 {
        Err(RdpError::AttachTooShort)
    } else if s[7] != 0x2E {
        Err(RdpError::AttachUnexpected(s[7]))
    } else if s[8] != 0 {
        Err(RdpError::AttachRefused)
    } else {
        Ok(((be16_at(s, 9) + FIRST_USER) % 0x1_0000) as u16)
    }
}

/// The user channel that the server gives.
pub fn parse_attach_user_confirm(data: &[u8]) -> (res: Result<u16, RdpError>)
    ensures
        res == attached(data@),
{
    if data.len() < 11 {
        return Err(RdpError::AttachTooShort);
    }
    if data[7] != 0x2E {
        return Err(RdpError::AttachUnexpected(data[7]));
    }
    if data[8] != 0 {
        return Err(RdpError::AttachRefused);
    }
    let offset = 256 * data[9] as u32 + data[10] as u32;
    Ok(((offset + FIRST_USER as u32) % 0x1_0000) as u16)
}

/// A user channel is written with the number that the server gave it.
pub proof fn user_channel_round_trip(s: Seq<u8>)
    requires
        attached(s) is Ok,
    ensures
        user_offset(attached(s)->Ok_0) == be16_at(s, 9),
{
}

/// The request to join a channel.
pub open spec fn join_request(user_id: u16, channel_id: u16) -> Seq<u8> {
    packet(seq![0x38u8] + be16(user_offset(user_id)) + be16(channel_id))
}

/// The request to join a channel.
pub fn build_mcs_channel_join(user_id: u16, channel_id: u16) -> (pdu: Vec<u8>)
    ensures
        pdu@ == join_request(user_id, channel_id),
{
    let mut data: Vec<u8> = Vec::new();
    put_u8(&mut data, 0x38);
    put_u16_be(&mut data, relative_user(user_id));
    put_u16_be(&mut data, channel_id);
    wrap_tpkt_x224_data(data.as_slice())
}

// ---- The server's answer to connecting --------------------------------------

/// Whether a whole security block begins at `offset`.
pub open spec fn security_block_at(s: Seq<u8>, offset: int) -> bool {
    le16_at(s, offset) == 0x0C02 && le16_at(s, offset + 2) >= 12 && offset + le16_at(s, offset + 2)
        <= s.len()
}

/// The encryption level in the first security block from `offset` on; zero
/// where there is none.
pub open spec fn encryption_from(s: Seq<u8>, offset: int) -> u32
    decreases s.len() - offset,
{
    if offset < 0 || offset + 12 > s.len() {
        0
    } else if security_block_at(s, offset) {
        le32_at(s, offset + 8)
    } else {
        encryption_from(s, offset + 1)
    }
}

/// The encryption level that the server asks for.
pub fn parse_server_encryption_level(data: &[u8]) -> (level: u32)
    ensures
        level == encryption_from(data@, 0),
{
    let size = data.len();
    if size < 12 {
        return 0;
    }
    let mut offset: usize = 0;
    while offset <= size - 12
        invariant
            size == data@.len(),
            12 <= size,
            offset <= size - 12 + 1,
            encryption_from(data@, 0) == encryption_from(data@, offset as int),
        decreases size - offset,
    {
        let kind = data[offset] as u16 + 256 * data[offset + 1] as u16;
        let length = data[offset + 2] as usize + 256 * data[offset + 3] as usize;
        if kind == 0x0C02 && length >= 12 && length <= size - offset {
            let at = offset + 8;
            return data[at] as u32 + 0x100 * data[at + 1] as u32 + 0x1_0000 * data[at + 2] as u32
                + 0x100_0000 * data[at + 3] as u32;
        }
        offset += 1;
    }
    0
}

/// Whether a whole network block with a channel `index` begins at `offset`.
pub open spec fn network_block_at(s: Seq<u8>, offset: int, index: int) -> bool {
    let length = le16_at(s, offset + 2);
    let count = le16_at(s, offset + 6);
    le16_at(s, offset) == 0x0C03 && length >= 8 && offset + length <= s.len() && index < count && 8
        + count * 2 <= length
}

/// The number of channel `index` in the first network block from `offset` on.
pub open spec fn channel_from(s: Seq<u8>, offset: int, index: int) -> Option<u16>
    decreases s.len() - offset,
{
    if offset < 0 || offset + 8 >= s.len() {
        None
    } else if network_block_at(s, offset, index) {
        Some(le16_at(s, offset + 8 + index * 2))
    } else {
        channel_from(s, offset + 1, index)
    }
}

/// The number that the server gives to the channel that was asked for as the
/// one with index `channel_index`.
pub fn parse_server_static_channel_id(data: &[u8], channel_index: usize) -> (res: Option<u16>)
    ensures
        res == channel_from(data@, 0, channel_index as int),
{
    let size = data.len();
    if size <= 8 {
        return None;
    }
    let mut offset: usize = 0;
    while offset < size - 8
        invariant
            size == data@.len(),
            8 < size,
            offset <= size - 8,
            channel_from(data@, 0, channel_index as int) == channel_from(
                data@,
                offset as int,
                channel_index as int,
            ),
        decreases size - offset,
    {
        let kind = data[offset] as u16 + 256 * data[offset + 1] as u16;
        let length = data[offset + 2] as usize + 256 * data[offset + 3] as usize;
        let count = data[offset + 6] as usize + 256 * data[offset + 7] as usize;
        if kind == 0x0C03 && length >= 8 && length <= size - offset && channel_index < count && 8
            + count * 2 <= length {
            let at = offset + 8 + channel_index * 2;
            return Some(data[at] as u16 + 256 * data[at + 1] as u16);
        }
        offset += 1;
    }
    None
}

// ---- Signing in -------------------------------------------------------------

/// Flags of the sign-in: what always is asked for, the full size for a shell of
/// its own, and signing in at once where user and password are known.
pub open spec fn info_flags(profile: ProfileView) -> u32 {
    let shell = lookup(profile.extra, "alternate shell"@) is Some || lookup(
        profile.extra,
        "alternate_shell"@,
    ) is Some;
    let known = profile.username.len() > 0 && (profile.password matches Some(password)
        && password.len() > 0);
    (0x1_0153 + (if shell { 0x20int } else { 0 }) + (if known { 8int } else { 0 })) as u32
}

/// Flags of the sign-in.
pub fn client_info_flags(profile: &RdpProfile) -> (flags: u32)
    ensures
        flags == info_flags(profile@),
{
    let mut flags: u32 = 0x1_0153;
    if profile.extra.contains_key("alternate shell") || profile.extra.contains_key(
        "alternate_shell",
    ) {
        flags += 0x20;
    }
    if !profile.username.as_str().is_empty() {
        if let Some(password) = &profile.password {
            if !password.as_str().is_empty() {
                flags += 8;
            }
        }
    }
    flags
}

pub open spec fn text_or_empty(text: Option<Seq<char>>) -> Seq<char> {
    match text {
        Some(s) => s,
        None => Seq::empty(),
    }
}

/// A length in bytes as the sign-in writes it.
pub open spec fn info_length(data: Seq<u8>) -> Seq<u8> {
    le16((data.len() % 0x1_0000) as u16)
}

/// What the sign-in says of the user.
pub open spec fn info_packet(profile: ProfileView) -> Seq<u8> {
    let domain = utf16_bytes(text_or_empty(profile.domain));
    let username = utf16_bytes(profile.username);
    let password = utf16_bytes(text_or_empty(profile.password));
    let shell = utf16_bytes(
        text_or_empty(lookup_either(profile.extra, "alternate shell"@, "alternate_shell"@)),
    );
    le32(0) + le32(info_flags(profile)) + info_length(domain) + info_length(username) + info_length(
        password,
    ) + info_length(shell) + le16(0) + domain + zeros(2) + username + zeros(2) + password + zeros(2)
        + shell + zeros(2) + zeros(2) + le16(2) + le16(20) + utf16_bytes("localhost"@) + zeros(2)
        + le16(2) + zeros(2) + zeros(172) + le32(0) + le32(0)
}

/// The sign-in. Only where the connection itself is encrypted does a security
/// header stand before it.
pub open spec fn client_info(
    user_channel_id: u16,
    profile: ProfileView,
    encryption_level: u32,
) -> Seq<u8> {
    sent(
        user_channel_id,
        IO_CHANNEL,
        if encryption_level > 0 {
            le32(0x40) + info_packet(profile)
        } else {
            info_packet(profile)
        },
    )
}

fn optional_bytes(text: Option<&String>) -> (data: Vec<u8>)
    ensures
        data@ == utf16_bytes(
            match text {
                Some(s) => s@,
                None => Seq::empty(),
            },
        ),
{
    match text {
        Some(s) => encode_utf16_bytes(s.as_str()),
        None => {
            let data: Vec<u8> = Vec::new();
            assert(data@ =~= utf16_bytes(Seq::empty()));
            data
        },
    }
}

fn put_length(out: &mut Vec<u8>, data: &Vec<u8>)
    ensures
        final(out)@ == old(out)@ + info_length(data@),
{
    put_u16(out, (data.len() % 0x1_0000) as u16);
}

fn build_info_packet(profile: &RdpProfile) -> (info: Vec<u8>)
    ensures
        info@ == info_packet(profile@),
{
    let domain = optional_bytes(profile.domain.as_ref());
    let username = encode_utf16_bytes(profile.username.as_str());
    let password = optional_bytes(profile.password.as_ref());
    let shell = optional_bytes(profile.extra.get_either("alternate shell", "alternate_shell"));
    let address = encode_utf16_bytes("localhost");
    let mut info: Vec<u8> = Vec::new();
    put_u32(&mut info, 0);
    put_u32(&mut info, client_info_flags(profile));
    put_length(&mut info, &domain);
    put_length(&mut info, &username);
    put_length(&mut info, &password);
    put_length(&mut info, &shell);
    put_u16(&mut info, 0);
    put_bytes(&mut info, domain.as_slice());
    put_zeros(&mut info, 2);
    put_bytes(&mut info, username.as_slice());
    put_zeros(&mut info, 2);
    put_bytes(&mut info, password.as_slice());
    put_zeros(&mut info, 2);
    put_bytes(&mut info, shell.as_slice());
    put_zeros(&mut info, 2);
    put_zeros(&mut info, 2);
    put_u16(&mut info, 2);
    put_u16(&mut info, 20);
    put_bytes(&mut info, address.as_slice());
    put_zeros(&mut info, 2);
    put_u16(&mut info, 2);
    put_zeros(&mut info, 2);
    put_zeros(&mut info, 172);
    put_u32(&mut info, 0);
    put_u32(&mut info, 0);
    info
}

/// The sign-in.
pub fn build_client_info_pdu(
    user_channel_id: u16,
    profile: &RdpProfile,
    encryption_level: u32,
) -> (pdu: Vec<u8>)
    ensures
        pdu@ == client_info(user_channel_id, profile@, encryption_level),
{
    let packet = build_info_packet(profile);
    let mut info: Vec<u8> = Vec::new();
    if encryption_level > 0 {
        put_u32(&mut info, 0x40);
    }
    put_bytes(&mut info, packet.as_slice());
    wrap_mcs_send_data(user_channel_id, IO_CHANNEL, info.as_slice())
}

/// The length that the sign-in states for the client's address is its length
/// with the zero that ends it.
pub proof fn client_address_length()
    ensures
        utf16_bytes("localhost"@).len() + 2 == 20,
{
    reveal_strlit("localhost");
    lemma_ascii_units("localhost"@);
    unit_bytes_round_trip(utf16("localhost"@));
}

} // verus!
