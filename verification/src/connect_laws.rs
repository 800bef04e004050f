//! What the messages that open a connection promise, said from the side of the
//! server: what it reads in them, and what it answers.

use vstd::prelude::*;
use vstd::utf8::encode_utf8;

use crate::connect::{
    attach_request, attached, ber_int, ber_ints, ber_length, channel_from, client_info,
    cluster_data, conference_request, confirmed, connect_content, connect_initial, connect_packet,
    connection_request, cookie, core_data, core_data_length, domain_params, encryption_from,
    encryption_wish, erect_request, info_flags, info_length, info_packet, join_request,
    network_data, per_length, security_data, text_or_empty,
};
use crate::encoding::{unit_bytes_round_trip, utf16, utf16_bytes};
use crate::errors::RdpError;
use crate::fields::{
    big_at, four_bytes, lemma_four_at, lemma_two_at, lemma_written, numbers_are_read,
    numbers_are_written, two_bytes, u16_at, u32_at,
};
use crate::framing::{packet, user_offset, IO_CHANNEL};
use crate::framing_laws::{carries, messages_are_sent_whole, packets_are_whole, whole_packet};
use crate::profile::ProfileView;
use crate::settings::{lookup, lookup_either};
use crate::wire::{be16, le16, le32, zeros};

verus! {

// ---- Signing in -------------------------------------------------------------

/// The text that begins at `i` of a sign-in and takes `n` bytes, where a zero
/// ends it.
pub open spec fn field_at(s: Seq<u8>, i: int, n: int) -> Option<Seq<u8>> {
    if i + n + 2 <= s.len() && s[i + n] == 0 && s[i + n + 1] == 0 {
        Some(s.subrange(i, i + n))
    } else {
        None
    }
}

/// What a server reads in a sign-in: the domain, the user, the password and the
/// shell, each with its length in front and a zero behind.
pub open spec fn sign_in_fields(s: Seq<u8>) -> (
    Option<Seq<u8>>,
    Option<Seq<u8>>,
    Option<Seq<u8>>,
    Option<Seq<u8>>,
) {
    let domain = 18int;
    let user = domain + u16_at(s, 8) + 2;
    let password = user + u16_at(s, 10) + 2;
    let shell = password + u16_at(s, 12) + 2;
    (
        field_at(s, domain, u16_at(s, 8)),
        field_at(s, user, u16_at(s, 10)),
        field_at(s, password, u16_at(s, 12)),
        field_at(s, shell, u16_at(s, 14)),
    )
}

/// Texts that fit the lengths of a sign-in.
pub open spec fn short_text(text: Seq<char>) -> bool {
    utf16(text).len() < 0x8000
}

proof fn lemma_text_bytes(text: Seq<char>)
    ensures
        utf16_bytes(text).len() == 2 * utf16(text).len(),
{
    unit_bytes_round_trip(utf16(text));
}

proof fn lemma_sign_in_layout(
    flags: u32,
    domain: Seq<u8>,
    user: Seq<u8>,
    password: Seq<u8>,
    shell: Seq<u8>,
    rest: Seq<u8>,
)
    requires
        domain.len() < 0x1_0000,
        user.len() < 0x1_0000,
        password.len() < 0x1_0000,
        shell.len() < 0x1_0000,
    ensures
        ({
            let s = le32(0) + le32(flags) + info_length(domain) + info_length(user) + info_length(
                password,
            ) + info_length(shell) + le16(0) + domain + zeros(2) + user + zeros(2) + password
                + zeros(2) + shell + zeros(2) + rest;
            &&& u32_at(s, 0) == 0
            &&& u32_at(s, 4) == flags
            &&& u16_at(s, 16) == 0
            &&& sign_in_fields(s) == (Some(domain), Some(user), Some(password), Some(shell))
            &&& s.len() == 26 + domain.len() + user.len() + password.len() + shell.len()
                + rest.len()
            &&& s.skip(26int + domain.len() + user.len() + password.len() + shell.len()) == rest
        }),
{
    let a = domain.len() as u16;
    let b = user.len() as u16;
    let c = password.len() as u16;
    let d = shell.len() as u16;
    let head = le32(0) + le32(flags) + info_length(domain) + info_length(user) + info_length(
        password,
    ) + info_length(shell) + le16(0);
    lemma_written(a, 0, 0);
    lemma_written(b, flags, 0);
    lemma_written(c, 0, 0);
    lemma_written(d, 0, 0);
    lemma_written(0, 0, 0);
    assert(head.subrange(0, 4) =~= four_bytes(0));
    lemma_four_at(head, 0, 0);
    assert(head.subrange(4, 8) =~= four_bytes(flags));
    lemma_four_at(head, 4, flags);
    assert(head.subrange(8, 10) =~= two_bytes(a));
    lemma_two_at(head, 8, a);
    assert(head.subrange(10, 12) =~= two_bytes(b));
    lemma_two_at(head, 10, b);
    assert(head.subrange(12, 14) =~= two_bytes(c));
    lemma_two_at(head, 12, c);
    assert(head.subrange(14, 16) =~= two_bytes(d));
    lemma_two_at(head, 14, d);
    assert(head.subrange(16, 18) =~= two_bytes(0));
    lemma_two_at(head, 16, 0);
    let s = head + domain + zeros(2) + user + zeros(2) + password + zeros(2) + shell + zeros(2)
        + rest;
    lemma_sign_in_body(head, domain, user, password, shell, rest);
}

proof fn lemma_sign_in_body(
    head: Seq<u8>,
    domain: Seq<u8>,
    user: Seq<u8>,
    password: Seq<u8>,
    shell: Seq<u8>,
    rest: Seq<u8>,
)
    requires
        head.len() == 18,
        u16_at(head, 8) == domain.len(),
        u16_at(head, 10) == user.len(),
        u16_at(head, 12) == password.len(),
        u16_at(head, 14) == shell.len(),
    ensures
        ({
            let s = head + domain + zeros(2) + user + zeros(2) + password + zeros(2) + shell
                + zeros(2) + rest;
            &&& s.take(18) == head
            &&& u32_at(s, 0) == u32_at(head, 0)
            &&& u32_at(s, 4) == u32_at(head, 4)
            &&& u16_at(s, 16) == u16_at(head, 16)
            &&& sign_in_fields(s) == (Some(domain), Some(user), Some(password), Some(shell))
            &&& s.len() == 26 + domain.len() + user.len() + password.len() + shell.len()
                + rest.len()
            &&& s.skip(26int + domain.len() + user.len() + password.len() + shell.len()) == rest
        }),
{
    let s = head + domain + zeros(2) + user + zeros(2) + password + zeros(2) + shell + zeros(2)
        + rest;
    assert(s.take(18) =~= head);
    assert(forall|k: int| 0 <= k < 18 ==> s[k] == #[trigger] head[k]);
    let p = 18 + domain.len() as int;
    let q = p + 2 + user.len() as int;
    let r = q + 2 + password.len() as int;
    let t = r + 2 + shell.len() as int;
    assert(s.subrange(18, p) =~= domain);
    assert(s[p] == 0 && s[p + 1] == 0);
    assert(s.subrange(p + 2, q) =~= user);
    assert(s[q] == 0 && s[q + 1] == 0);
    assert(s.subrange(q + 2, r) =~= password);
    assert(s[r] == 0 && s[r + 1] == 0);
    assert(s.subrange(r + 2, t) =~= shell);
    assert(s[t] == 0 && s[t + 1] == 0);
    assert(s.skip(t + 2) =~= rest);
}

/// A server that reads a sign-in finds the domain, the user, the password and the
/// shell of the profile, each in its field.
pub proof fn sign_in_is_read_back(profile: ProfileView)
    requires
        short_text(text_or_empty(profile.domain)),
        short_text(profile.username),
        short_text(text_or_empty(profile.password)),
        short_text(
            text_or_empty(lookup_either(profile.extra, "alternate shell"@, "alternate_shell"@)),
        ),
    ensures
        ({
            let domain = match profile.domain {
                Some(text) => utf16_bytes(text),
                None => Seq::empty(),
            };
            let password = match profile.password {
                Some(text) => utf16_bytes(text),
                None => Seq::empty(),
            };
            let shell = match lookup(profile.extra, "alternate shell"@) {
                Some(text) => utf16_bytes(text),
                None => match lookup(profile.extra, "alternate_shell"@) {
                    Some(text) => utf16_bytes(text),
                    None => Seq::empty(),
                },
            };
            sign_in_fields(info_packet(profile)) == (
                Some(domain),
                Some(utf16_bytes(profile.username)),
                Some(password),
                Some(shell),
            )
        }),
        u32_at(info_packet(profile), 0) == 0,
        u32_at(info_packet(profile), 4) == info_flags(profile),
        u16_at(info_packet(profile), 16) == 0,
{
    assert(utf16_bytes(Seq::<char>::empty()) =~= Seq::<u8>::empty());
    let domain = utf16_bytes(text_or_empty(profile.domain));
    let username = utf16_bytes(profile.username);
    let password = utf16_bytes(text_or_empty(profile.password));
    let shell = utf16_bytes(
        text_or_empty(lookup_either(profile.extra, "alternate shell"@, "alternate_shell"@)),
    );
    lemma_text_bytes(text_or_empty(profile.domain));
    lemma_text_bytes(profile.username);
    lemma_text_bytes(text_or_empty(profile.password));
    lemma_text_bytes(
        text_or_empty(lookup_either(profile.extra, "alternate shell"@, "alternate_shell"@)),
    );
    let rest = zeros(2) + le16(2) + le16(20) + utf16_bytes("localhost"@) + zeros(2) + le16(2)
        + zeros(2) + zeros(172) + le32(0) + le32(0);
    lemma_sign_in_layout(info_flags(profile), domain, username, password, shell, rest);
    lemma_sign_in_tail(profile);
}

proof fn lemma_sign_in_tail(profile: ProfileView)
    ensures
        ({
            let domain = utf16_bytes(text_or_empty(profile.domain));
            let username = utf16_bytes(profile.username);
            let password = utf16_bytes(text_or_empty(profile.password));
            let shell = utf16_bytes(
                text_or_empty(
                    lookup_either(profile.extra, "alternate shell"@, "alternate_shell"@),
                ),
            );
            info_packet(profile) == le32(0) + le32(info_flags(profile)) + info_length(domain)
                + info_length(username) + info_length(password) + info_length(shell) + le16(0)
                + domain + zeros(2) + username + zeros(2) + password + zeros(2) + shell + zeros(2)
                + (zeros(2) + le16(2) + le16(20) + utf16_bytes("localhost"@) + zeros(2) + le16(2)
                + zeros(2) + zeros(172) + le32(0) + le32(0))
        }),
{
    let domain = utf16_bytes(text_or_empty(profile.domain));
    let username = utf16_bytes(profile.username);
    let password = utf16_bytes(text_or_empty(profile.password));
    let shell = utf16_bytes(
        text_or_empty(lookup_either(profile.extra, "alternate shell"@, "alternate_shell"@)),
    );
    let head = le32(0) + le32(info_flags(profile)) + info_length(domain) + info_length(username)
        + info_length(password) + info_length(shell) + le16(0) + domain + zeros(2) + username
        + zeros(2) + password + zeros(2) + shell + zeros(2);
    lemma_ten(
        head,
        zeros(2),
        le16(2),
        le16(20),
        utf16_bytes("localhost"@),
        zeros(2),
        le16(2),
        zeros(2),
        zeros(172),
        le32(0),
        le32(0),
    );
}

proof fn lemma_ten(
    head: Seq<u8>,
    a: Seq<u8>,
    b: Seq<u8>,
    c: Seq<u8>,
    d: Seq<u8>,
    e: Seq<u8>,
    f: Seq<u8>,
    g: Seq<u8>,
    h: Seq<u8>,
    i: Seq<u8>,
    j: Seq<u8>,
)
    ensures
        head + a + b + c + d + e + f + g + h + i + j == head + (a + b + c + d + e + f + g + h + i
            + j),
{
    assert(head + a + b + c + d + e + f + g + h + i + j =~= head + (a + b + c + d + e + f + g + h
        + i + j));
}

/// The server is asked to sign the user in at once exactly where both a user and
/// a password are known; it is asked for the full size exactly where a shell is
/// named.
pub proof fn signed_in_where_known(profile: ProfileView)
    ensures
        ({
            let flags = info_flags(profile) as int;
            let known = profile.username.len() > 0 && (profile.password matches Some(text)
                && text.len() > 0);
            let shell = lookup(profile.extra, "alternate shell"@) is Some || lookup(
                profile.extra,
                "alternate_shell"@,
            ) is Some;
            &&& (flags / 8 % 2 == 1) == known
            &&& (flags / 32 % 2 == 1) == shell
            &&& flags - (if known { 8int } else { 0 }) - (if shell { 32int } else { 0 }) == 0x1_0153
        }),
{
}

/// The sign-in goes to the channel of the picture and the input. A security header
/// of four bytes, with the flag of sign-ins, stands before it only where the
/// connection itself is encrypted.
pub proof fn sign_in_is_sent(user: u16, profile: ProfileView, encryption_level: u32)
    requires
        1001 <= user,
        info_packet(profile).len() + 4 < 0x4000,
    ensures
        encryption_level == 0 ==> carries(
            client_info(user, profile, encryption_level),
            user as int,
            1003,
            info_packet(profile),
        ),
        encryption_level > 0 ==> carries(
            client_info(user, profile, encryption_level),
            user as int,
            1003,
            four_bytes(0x40) + info_packet(profile),
        ),
{
    lemma_written(0, 0x40, 0);
    messages_are_sent_whole(user, IO_CHANNEL, info_packet(profile));
    messages_are_sent_whole(user, IO_CHANNEL, le32(0x40) + info_packet(profile));
}

// ---- Negotiation ------------------------------------------------------------

/// A connection request tells its length twice, and holds the name of the user
/// behind a fixed label, and then what is asked for.
pub proof fn connection_is_requested(username: Seq<char>, wishes: Seq<u8>)
    requires
        cookie(username).len() + wishes.len() <= 245,
    ensures
        ({
            let s = connection_request(username, wishes);
            let line = encode_utf8("Cookie: mstshash="@ + username + "\r\n"@);
            &&& s.len() == 11 + line.len() + wishes.len()
            &&& s[0] == 3
            &&& s[1] == 0
            &&& big_at(s, 2) == s.len()
            &&& s[4] == s.len() - 5
            &&& s[5] == 0xE0
            &&& s[6] == 0 && s[7] == 0 && s[8] == 0 && s[9] == 0 && s[10] == 0
            &&& s.subrange(11, 11 + line.len() as int) == line
            &&& s.skip(11 + line.len() as int) == wishes
        }),
        encryption_wish() == seq![1u8, 0, 8, 0, 1, 0, 0, 0],
{
    let s = connection_request(username, wishes);
    let line = cookie(username);
    let length = 6 + line.len() + wishes.len();
    let size = ((5 + length) % 0x1_0000) as u16;
    numbers_are_written(size, 0, 0);
    assert(s[2] == be16(size)[0] && s[3] == be16(size)[1]);
    assert(s.subrange(11, 11 + line.len() as int) =~= line);
    assert(s.skip(11 + line.len() as int) =~= wishes);
}

/// The server's choice is read from the last eight bytes of its confirmation;
/// those that need an authentication of their own are refused. Without such bytes
/// nothing was chosen.
pub proof fn choices_are_read(head: Seq<u8>, flags: u8, protocol: u8, high: Seq<u8>)
    requires
        head.len() == 11,
        head[0] == 3,
        head[5] == 0xD0,
        high.len() == 3,
    ensures
        big_at(head, 2) == 19 ==> (confirmed(
            head + seq![2u8, flags, 8, 0, protocol] + high,
        ) == (if protocol == 2 || protocol == 8 {
            Err::<u8, RdpError>(RdpError::AuthenticationRequired)
        } else {
            Ok::<u8, RdpError>(protocol)
        })),
        big_at(head, 2) == 11 ==> confirmed(head) == Ok::<u8, RdpError>(0),
{
    let s = head + seq![2u8, flags, 8, 0, protocol] + high;
    numbers_are_read(head, 2);
    numbers_are_read(s, 2);
    assert(s[0] == head[0] && s[2] == head[2] && s[3] == head[3] && s[5] == head[5]);
    assert(s[11] == 2 && s[15] == protocol);
}

/// What is no confirmation is refused for what it is.
pub proof fn other_answers_are_refused(s: Seq<u8>)
    requires
        s.len() <= usize::MAX,
    ensures
        s.len() < 7 ==> confirmed(s) == Err::<u8, RdpError>(
            RdpError::ConfirmTooShort(s.len() as usize),
        ),
        s.len() >= 7 && s[0] != 3 ==> confirmed(s) == Err::<u8, RdpError>(
            RdpError::ConfirmVersion(s[0]),
        ),
        s.len() >= 7 && s[0] == 3 && s[5] != 0xD0 ==> confirmed(s) == Err::<u8, RdpError>(
            RdpError::NegotiationFailed(s[5]),
        ),
        s.len() >= 7 && s[0] == 3 && s[5] == 0xD0 ==> (confirmed(s) is Ok || confirmed(s)
            == Err::<u8, RdpError>(RdpError::AuthenticationRequired)),
{
}

// ---- Conference -------------------------------------------------------------

/// The client tells its version, the size of the desktop, the keyboard, its name,
/// the depth of colours and the protocol that was chosen.
pub proof fn client_is_described(width: u16, height: u16, protocol: u8)
    ensures
        ({
            let s = core_data(width, height, protocol);
            &&& s.len() == 234
            &&& u16_at(s, 0) == 0xC001
            &&& u16_at(s, 2) == 234
            &&& u32_at(s, 4) == 0x0008_0004
            &&& u16_at(s, 8) == width
            &&& u16_at(s, 10) == height
            &&& u32_at(s, 16) == 0x409
            &&& s.subrange(24, 36) == utf16_bytes("Portix"@)
            &&& u32_at(s, 56) == 4
            &&& u32_at(s, 64) == 12
            &&& u16_at(s, 140) == 24
            &&& u32_at(s, 212) == protocol
        }),
{
    core_data_length(width, height, protocol);
    let s = core_data(width, height, protocol);
    reveal_strlit("Portix");
    crate::connect::lemma_ascii_units("Portix"@);
    unit_bytes_round_trip(utf16("Portix"@));
    let chosen = protocol as u32;
    lemma_written(0xC001, 0x0008_0004, 0);
    lemma_written(234, 0x409, 0);
    lemma_written(width, 4, 0);
    lemma_written(height, 12, 0);
    lemma_written(24, chosen, 0);
    assert(s.subrange(0, 2) =~= two_bytes(0xC001));
    lemma_two_at(s, 0, 0xC001);
    assert(s.subrange(2, 4) =~= two_bytes(234));
    lemma_two_at(s, 2, 234);
    assert(s.subrange(4, 8) =~= four_bytes(0x0008_0004));
    lemma_four_at(s, 4, 0x0008_0004);
    assert(s.subrange(8, 10) =~= two_bytes(width));
    lemma_two_at(s, 8, width);
    assert(s.subrange(10, 12) =~= two_bytes(height));
    lemma_two_at(s, 10, height);
    assert(s.subrange(16, 20) =~= four_bytes(0x409));
    lemma_four_at(s, 16, 0x409);
    assert(s.subrange(56, 60) =~= four_bytes(4));
    lemma_four_at(s, 56, 4);
    assert(s.subrange(64, 68) =~= four_bytes(12));
    lemma_four_at(s, 64, 12);
    assert(s.subrange(140, 142) =~= two_bytes(24));
    lemma_two_at(s, 140, 24);
    assert(s.subrange(212, 216) =~= four_bytes(chosen));
    lemma_four_at(s, 212, chosen);
    assert(s.subrange(24, 36) =~= utf16_bytes("Portix"@));
}

/// The channels that are asked for are named, first the clipboard and then, only
/// with a mapped folder, that of mapped folders.
pub proof fn channels_are_asked_for(drive_enabled: bool)
    ensures
        ({
            let s = network_data(drive_enabled);
            &&& u16_at(s, 0) == 0xC003
            &&& u16_at(s, 2) == s.len()
            &&& s.len() == 8 + 12 * u32_at(s, 4)
            &&& u32_at(s, 4) == (if drive_enabled { 2int } else { 1 })
            &&& s.subrange(8, 16) == encode_utf8("cliprdr\0"@)
            &&& u32_at(s, 16) == 0xC0A0_0000
            &&& drive_enabled ==> s.subrange(20, 28) == encode_utf8("rdpdr\0\0\0"@) && u32_at(
                s,
                28,
            ) == 0xC080_0000
        }),
        ({
            let s = cluster_data();
            u16_at(s, 0) == 0xC004 && u16_at(s, 2) == s.len() && u32_at(s, 4) == 0xD && u32_at(s, 8)
                == 0
        }),
        ({
            let s = security_data();
            u16_at(s, 0) == 0xC002 && u16_at(s, 2) == s.len() && u32_at(s, 4) == 0x1B && u32_at(
                s,
                8,
            ) == 0
        }),
{
    let s = network_data(drive_enabled);
    let (size, count): (u16, u32) = if drive_enabled { (32, 2) } else { (20, 1) };
    lemma_written(0xC003, count, 0);
    lemma_written(size, 0xC0A0_0000, 0);
    lemma_written(0, 0xC080_0000, 0);
    assert(s.subrange(0, 2) =~= two_bytes(0xC003));
    lemma_two_at(s, 0, 0xC003);
    assert(s.subrange(2, 4) =~= two_bytes(size));
    lemma_two_at(s, 2, size);
    assert(s.subrange(4, 8) =~= four_bytes(count));
    lemma_four_at(s, 4, count);
    assert(s.subrange(16, 20) =~= four_bytes(0xC0A0_0000));
    lemma_four_at(s, 16, 0xC0A0_0000);
    lemma_channel_names();
    assert(s.subrange(8, 16) =~= seq![0x63u8, 0x6C, 0x69, 0x70, 0x72, 0x64, 0x72, 0]);
    if drive_enabled {
        assert(s.subrange(28, 32) =~= four_bytes(0xC080_0000));
        lemma_four_at(s, 28, 0xC080_0000);
        assert(s.subrange(20, 28) =~= seq![0x72u8, 0x64, 0x70, 0x64, 0x72, 0, 0, 0]);
    }
    let c = cluster_data();
    lemma_written(0xC004, 0xD, 0);
    lemma_written(12, 0, 0);
    assert(c.subrange(0, 2) =~= two_bytes(0xC004));
    lemma_two_at(c, 0, 0xC004);
    assert(c.subrange(2, 4) =~= two_bytes(12));
    lemma_two_at(c, 2, 12);
    assert(c.subrange(4, 8) =~= four_bytes(0xD));
    lemma_four_at(c, 4, 0xD);
    assert(c.subrange(8, 12) =~= four_bytes(0));
    lemma_four_at(c, 8, 0);
    let d = security_data();
    lemma_written(0xC002, 0x1B, 0);
    assert(d.subrange(0, 2) =~= two_bytes(0xC002));
    lemma_two_at(d, 0, 0xC002);
    assert(d.subrange(2, 4) =~= two_bytes(12));
    lemma_two_at(d, 2, 12);
    assert(d.subrange(4, 8) =~= four_bytes(0x1B));
    lemma_four_at(d, 4, 0x1B);
    assert(d.subrange(8, 12) =~= four_bytes(0));
    lemma_four_at(d, 8, 0);
}

proof fn lemma_ascii_bytes(s: Seq<char>)
    requires
        vstd::utf8::is_ascii_chars(s),
    ensures
        encode_utf8(s).len() == s.len(),
        forall|i: int| 0 <= i < s.len() ==> s[i] as u8 == #[trigger] encode_utf8(s)[i],
{
    vstd::utf8::is_ascii_chars_encode_utf8(s);
}

proof fn lemma_channel_names()
    ensures
        encode_utf8("cliprdr\0"@) == seq![0x63u8, 0x6C, 0x69, 0x70, 0x72, 0x64, 0x72, 0],
        encode_utf8("rdpdr\0\0\0"@) == seq![0x72u8, 0x64, 0x70, 0x64, 0x72, 0, 0, 0],
{
    reveal_strlit("cliprdr\0");
    reveal_strlit("rdpdr\0\0\0");
    lemma_ascii_bytes("cliprdr\0"@);
    lemma_ascii_bytes("rdpdr\0\0\0"@);
    let a = encode_utf8("cliprdr\0"@);
    let b = encode_utf8("rdpdr\0\0\0"@);
    assert(a =~= seq![0x63u8, 0x6C, 0x69, 0x70, 0x72, 0x64, 0x72, 0]);
    assert(b =~= seq![0x72u8, 0x64, 0x70, 0x64, 0x72, 0, 0, 0]);
}

/// Lengths are read as they are written: in conference messages in two bytes
/// whose first bit is set, in basic encoding in as many as are needed.
pub proof fn lengths_are_read(n: nat)
    ensures
        n < 0x8000 ==> per_length(n).len() == 2 && big_at(per_length(n), 0) == 0x8000 + n,
        n < 128 ==> ber_length(n) == seq![n as u8],
        128 <= n < 256 ==> ber_length(n) == seq![0x81u8, n as u8],
        256 <= n < 0x1_0000 ==> ber_length(n).len() == 3 && ber_length(n)[0] == 0x82 && big_at(
            ber_length(n),
            1,
        ) == n,
{
}

/// The bytes of a number, the highest first.
pub open spec fn big_endian(s: Seq<u8>) -> int
    decreases s.len(),
{
    if s.len() == 0 {
        0
    } else {
        256 * big_endian(s.drop_last()) + s.last()
    }
}

/// An integer in basic encoding is marked as one, tells how many bytes it takes,
/// the fewest that leave its sign clear, and is read as it was written.
pub proof fn integers_are_read(value: u32)
    ensures
        ({
            let s = ber_int(value);
            &&& s[0] == 2
            &&& s.len() == 2 + s[1]
            &&& big_endian(s.skip(2)) == value
            &&& s.len() == 6 || s[2] < 128
            &&& s.len() > 3 ==> s[2] > 0 || s[3] >= 128
        }),
{
    let s = ber_int(value);
    reveal_with_fuel(big_endian, 5);
    let t = s.skip(2);
    if t.len() >= 1 {
        assert(t.drop_last().len() == t.len() - 1);
    }
    if t.len() == 4 {
        let u = t.drop_last();
        let v = u.drop_last();
        let w = v.drop_last();
        assert(t.last() == s[5] && u.last() == s[4] && v.last() == s[3] && w.last() == s[2]);
    } else if t.len() == 3 {
        let u = t.drop_last();
        let v = u.drop_last();
        assert(t.last() == s[4] && u.last() == s[3] && v.last() == s[2]);
    } else if t.len() == 2 {
        let u = t.drop_last();
        assert(t.last() == s[3] && u.last() == s[2]);
    } else {
        assert(t.last() == s[2]);
    }
}

/// Integers come one after another; a set of them is marked and tells its length.
pub proof fn integers_come_in_order(values: Seq<u32>, value: u32)
    ensures
        ber_ints(values.push(value)) == ber_ints(values) + ber_int(value),
        ber_ints(Seq::empty()) == Seq::<u8>::empty(),
        domain_params(values) == seq![0x30u8] + ber_length(ber_ints(values).len()) + ber_ints(
            values,
        ),
{
    assert(values.push(value).drop_last() =~= values);
}

/// The request to connect is a whole packet of its kind. It holds the limits of
/// the connection that are wanted, the least and the most, and ends with the
/// conference behind its length.
pub proof fn connecting_is_requested(conference: Seq<u8>)
    requires
        conference.len() < 0x4000,
    ensures
        ({
            let s = connect_packet(conference);
            let content = connect_content(conference);
            &&& whole_packet(s)
            &&& s[7] == 0x7F
            &&& s[8] == 0x65
            &&& s.skip(9) == ber_length(content.len()) + content
            &&& content == seq![4u8, 1, 1, 4, 1, 1, 1, 1, 0xFF] + domain_params(
                seq![34u32, 2, 0, 1, 0, 1, 0xFFFF, 2],
            ) + domain_params(seq![1u32, 1, 1, 1, 0, 1, 0x420, 2]) + domain_params(
                seq![0xFFFFu32, 0xFC17, 0xFFFF, 1, 0, 1, 0xFFFF, 2],
            ) + (seq![4u8] + ber_length(conference.len()) + conference)
            &&& content.skip(content.len() - conference.len()) == conference
        }),
{
    let content = connect_content(conference);
    lemma_params_short(seq![34u32, 2, 0, 1, 0, 1, 0xFFFF, 2]);
    lemma_params_short(seq![1u32, 1, 1, 1, 0, 1, 0x420, 2]);
    lemma_params_short(seq![0xFFFFu32, 0xFC17, 0xFFFF, 1, 0, 1, 0xFFFF, 2]);
    let body = seq![0x7Fu8, 0x65] + ber_length(content.len()) + content;
    packets_are_whole(body);
    let s = connect_packet(conference);
    assert(s.skip(7) == body);
    assert(s[7] == s.skip(7)[0] && s[8] == s.skip(7)[1]);
    assert(s.skip(9) =~= body.skip(2));
    assert(body.skip(2) =~= ber_length(content.len()) + content);
    assert(content.skip(content.len() - conference.len()) =~= conference);
    let front = seq![4u8, 1, 1, 4, 1, 1, 1, 1, 0xFF] + domain_params(
        seq![34u32, 2, 0, 1, 0, 1, 0xFFFF, 2],
    ) + domain_params(seq![1u32, 1, 1, 1, 0, 1, 0x420, 2]) + domain_params(
        seq![0xFFFFu32, 0xFC17, 0xFFFF, 1, 0, 1, 0xFFFF, 2],
    );
    assert(front + seq![4u8] + ber_length(conference.len()) + conference =~= front + (seq![4u8]
        + ber_length(conference.len()) + conference));
}

proof fn lemma_params_short(values: Seq<u32>)
    requires
        values.len() <= 8,
    ensures
        domain_params(values).len() <= 52,
{
    lemma_ints_short(values);
}

proof fn lemma_ints_short(values: Seq<u32>)
    ensures
        ber_ints(values).len() <= 6 * values.len(),
    decreases values.len(),
{
    if values.len() > 0 {
        lemma_ints_short(values.drop_last());
    }
}

/// The request for a conference ends with the user's data behind its length, and
/// tells in front how much is left from there.
pub proof fn conference_is_requested(data: Seq<u8>)
    requires
        data.len() < 0x4000,
    ensures
        ({
            let s = conference_request(data);
            &&& s.len() == 23 + data.len()
            &&& s.take(7) == seq![0u8, 5, 0, 0x14, 0x7C, 0, 1]
            &&& big_at(s, 7) == 0x8000 + data.len() + 14
            &&& s.subrange(9, 17) == seq![0u8, 8, 0, 0x10, 0, 1, 0xC0, 0]
            &&& s.subrange(17, 21) == encode_utf8("Duca"@)
            &&& big_at(s, 21) == 0x8000 + data.len()
            &&& s.skip(23) == data
        }),
{
    let s = conference_request(data);
    lengths_are_read(data.len());
    lengths_are_read(data.len() + 14);
    assert(s.take(7) =~= seq![0u8, 5, 0, 0x14, 0x7C, 0, 1]);
    let outer = per_length(data.len() + 14);
    assert(s[7] == outer[0] && s[8] == outer[1]);
    assert(s.subrange(9, 17) =~= seq![0u8, 8, 0, 0x10, 0, 1, 0xC0, 0]);
    reveal_strlit("Duca");
    lemma_ascii_bytes("Duca"@);
    assert(encode_utf8("Duca"@) =~= seq![0x44u8, 0x75, 0x63, 0x61]);
    assert(s.subrange(17, 21) =~= seq![0x44u8, 0x75, 0x63, 0x61]);
    let inner = per_length(data.len());
    assert(s[21] == inner[0] && s[22] == inner[1]);
    assert(s.skip(23) =~= data);
}

/// The user's data tells of the client, its sessions, its encryptions and its
/// channels, in this order.
pub proof fn user_data_is_complete(width: u16, height: u16, protocol: u8, drive_enabled: bool)
    ensures
        ({
            let data = core_data(width, height, protocol) + cluster_data() + security_data()
                + network_data(drive_enabled);
            &&& connect_initial(width, height, protocol, drive_enabled) == connect_packet(
                conference_request(data),
            )
            &&& data.take(234) == core_data(width, height, protocol)
            &&& data.subrange(234, 246) == cluster_data()
            &&& data.subrange(246, 258) == security_data()
            &&& data.skip(258) == network_data(drive_enabled)
        }),
{
    let data = core_data(width, height, protocol) + cluster_data() + security_data() + network_data(
        drive_enabled,
    );
    core_data_length(width, height, protocol);
    channels_are_asked_for(drive_enabled);
    assert(data.take(234) =~= core_data(width, height, protocol));
    assert(data.subrange(234, 246) =~= cluster_data());
    assert(data.subrange(246, 258) =~= security_data());
    assert(data.skip(258) =~= network_data(drive_enabled));
}

// ---- Joining channels -------------------------------------------------------

/// The user channel that the server gives is read from its answer; a refusal and
/// other answers are told apart.
pub proof fn user_channels_are_read(head: Seq<u8>, kind: u8, result: u8, user: u16, rest: Seq<u8>)
    requires
        head.len() == 7,
        1001 <= user,
    ensures
        ({
            let s = head + seq![
                kind,
                result,
                ((user - 1001) / 256) as u8,
                ((user - 1001) % 256) as u8,
            ] + rest;
            &&& kind == 0x2E && result == 0 ==> attached(s) == Ok::<u16, RdpError>(user)
            &&& kind == 0x2E && result != 0 ==> attached(s) == Err::<u16, RdpError>(
                RdpError::AttachRefused,
            )
            &&& kind != 0x2E ==> attached(s) == Err::<u16, RdpError>(
                RdpError::AttachUnexpected(kind),
            )
        }),
        attached(head) == Err::<u16, RdpError>(RdpError::AttachTooShort),
{
    let s = head + seq![kind, result, ((user - 1001) / 256) as u8, ((user - 1001) % 256) as u8]
        + rest;
    assert(s[7] == kind && s[8] == result);
    assert(s[9] == (user - 1001) / 256 && s[10] == (user - 1001) % 256);
    numbers_are_read(s, 9);
}

/// A channel is joined by its number and that of the user; the domain and the
/// user are asked for before.
pub proof fn joining_is_requested(user: u16, channel: u16)
    requires
        1001 <= user,
    ensures
        ({
            let s = join_request(user, channel);
            &&& whole_packet(s)
            &&& s.len() == 12
            &&& s[7] == 0x38
            &&& big_at(s, 8) + 1001 == user
            &&& big_at(s, 10) == channel
        }),
        whole_packet(erect_request()),
        erect_request().skip(7) == seq![4u8, 1, 0, 1, 0],
        whole_packet(attach_request()),
        attach_request().skip(7) == seq![0x28u8],
{
    let offset = user_offset(user);
    let data = seq![0x38u8] + be16(offset) + be16(channel);
    packets_are_whole(data);
    packets_are_whole(seq![4u8, 1, 0, 1, 0]);
    packets_are_whole(seq![0x28u8]);
    numbers_are_written(offset, 0, 0);
    numbers_are_written(channel, 0, 0);
    let s = join_request(user, channel);
    let body = s.skip(7);
    assert(s[7] == body[0]);
    assert(s[8] == body[1] && body[1] == be16(offset)[0]);
    assert(s[9] == body[2] && body[2] == be16(offset)[1]);
    assert(s[10] == body[3] && body[3] == be16(channel)[0]);
    assert(s[11] == body[4] && body[4] == be16(channel)[1]);
}

// ---- The server's answer to connecting --------------------------------------

/// Whether a block of the server, of a kind and with a length, begins at `i`.
pub open spec fn block_at(s: Seq<u8>, i: int, kind: int, least: int) -> bool {
    u16_at(s, i) == kind && u16_at(s, i + 2) >= least && i + u16_at(s, i + 2) <= s.len()
}

/// The encryption level is that of the first security block, in the four bytes
/// behind its kind, its length and its method; without a block it is zero.
pub proof fn first_level_is_read(s: Seq<u8>, at: int)
    requires
        0 <= at,
        at + 12 <= s.len(),
        block_at(s, at, 0x0C02, 12),
        forall|i: int| 0 <= i < at ==> !#[trigger] block_at(s, i, 0x0C02, 12),
    ensures
        encryption_from(s, 0) == u32_at(s, at + 8),
{
    lemma_level_from(s, 0, at);
}

proof fn lemma_level_from(s: Seq<u8>, from: int, at: int)
    requires
        0 <= from <= at,
        at + 12 <= s.len(),
        block_at(s, at, 0x0C02, 12),
        forall|i: int| from <= i < at ==> !#[trigger] block_at(s, i, 0x0C02, 12),
    ensures
        encryption_from(s, from) == u32_at(s, at + 8),
    decreases at - from,
{
    numbers_are_read(s, from);
    numbers_are_read(s, from + 2);
    numbers_are_read(s, from + 8);
    if from < at {
        assert(!block_at(s, from, 0x0C02, 12));
        lemma_level_from(s, from + 1, at);
    }
}

/// Without a security block the encryption level is zero.
pub proof fn no_block_is_no_encryption(s: Seq<u8>, from: int)
    requires
        0 <= from,
        forall|i: int| from <= i <= s.len() - 12 ==> !#[trigger] block_at(s, i, 0x0C02, 12),
    ensures
        encryption_from(s, from) == 0,
    decreases s.len() - from,
{
    if from + 12 <= s.len() {
        numbers_are_read(s, from);
        numbers_are_read(s, from + 2);
        assert(!block_at(s, from, 0x0C02, 12));
        no_block_is_no_encryption(s, from + 1);
    }
}

/// Whether a network block that holds the number of channel `index` begins at `i`.
pub open spec fn channels_at(s: Seq<u8>, i: int, index: int) -> bool {
    block_at(s, i, 0x0C03, 8) && index < u16_at(s, i + 6) && 8 + 2 * u16_at(s, i + 6) <= u16_at(
        s,
        i + 2,
    )
}

/// The numbers of the channels stand in the first network block that has them, in
/// the order in which they were asked for.
pub proof fn channel_numbers_are_read(s: Seq<u8>, from: int, at: int, index: int)
    requires
        0 <= from <= at,
        0 <= index,
        channels_at(s, at, index),
        forall|i: int| from <= i < at ==> !#[trigger] channels_at(s, i, index),
    ensures
        channel_from(s, from, index) matches Some(channel) && channel == u16_at(
            s,
            at + 8 + 2 * index,
        ),
    decreases at - from,
{
    numbers_are_read(s, from);
    numbers_are_read(s, from + 2);
    numbers_are_read(s, from + 6);
    numbers_are_read(s, from + 8 + index * 2);
    if from < at {
        assert(!channels_at(s, from, index));
        channel_numbers_are_read(s, from + 1, at, index);
    }
}

/// A channel that no network block has gets no number.
pub proof fn missing_channels_have_no_number(s: Seq<u8>, from: int, index: int)
    requires
        0 <= from,
        forall|i: int| from <= i ==> !#[trigger] channels_at(s, i, index),
    ensures
        channel_from(s, from, index) is None,
    decreases s.len() - from,
{
    if from + 8 < s.len() {
        numbers_are_read(s, from);
        numbers_are_read(s, from + 2);
        numbers_are_read(s, from + 6);
        assert(!channels_at(s, from, index));
        missing_channels_have_no_number(s, from + 1, index);
    }
}

} // verus!
