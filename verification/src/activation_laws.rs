//! What activation and the exchange about licences promise, said from the side of
//! the server.

use vstd::prelude::*;
use vstd::utf8::encode_utf8;

use crate::activation::{
    bitmap_capability, capabilities, confirm_active_data, control_data, data_header, font_list_data,
    general_capability, input_capability, order_capability, shutdown_data, synchronize_data,
    synchronize_sequence, SHARE_ID,
};
use crate::errors::RdpError;
use crate::fields::{
    four_bytes, lemma_four_at, lemma_two_at, lemma_written, numbers_are_read, two_bytes, u16_at,
    u32_at,
};
use crate::framing::{demands_active_within, sent, IO_CHANNEL};
use crate::framing_laws::{brings, carries, data_start, messages_are_sent_whole};
use crate::input_laws::{data_headed, data_messages_are_headed};
use crate::licensing::{
    challenge_response_body, ends_licensing, license_answer, license_message, license_packet,
    license_request_body, ActivationWait, WaitEvent,
};
use crate::wire::{le16, le32, zeros};

verus! {

// ---- Activation -------------------------------------------------------------

/// The demand to activate is confirmed for the shared session, by the user, with
/// four capabilities, each after the other and each with its length.
#[verifier::rlimit(40)]
pub proof fn activation_is_confirmed(user: u16, width: u16, height: u16)
    ensures
        ({
            let s = confirm_active_data(user, width, height);
            &&& s.len() == 252
            &&& u16_at(s, 0) == 252
            &&& u16_at(s, 2) == 0x13
            &&& u16_at(s, 4) == user
            &&& u32_at(s, 6) == 0x3EA01
            &&& u16_at(s, 10) == 0x3EA
            &&& u16_at(s, 12) == 4
            &&& u16_at(s, 14) == 252 - 20
            &&& s.subrange(16, 20) == encode_utf8("RDP\0"@)
            &&& u16_at(s, 20) == 4
            &&& s.subrange(24, 48) == general_capability()
            &&& s.subrange(48, 76) == bitmap_capability(width, height)
            &&& s.subrange(76, 164) == order_capability()
            &&& s.subrange(164, 252) == input_capability()
        }),
{
    let s = confirm_active_data(user, width, height);
    crate::activation::confirm_active_lengths(user, width, height);
    lemma_written(252, SHARE_ID, 0);
    lemma_written(0x13, 0, 0);
    lemma_written(user, 0, 0);
    lemma_written(0x3EA, 0, 0);
    lemma_written(4, 0, 0);
    lemma_written(232, 0, 0);
    let head = le16(252) + le16(0x13) + le16(user) + le32(SHARE_ID) + le16(0x3EA) + le16(4) + le16(
        232,
    ) + seq![0x52u8, 0x44, 0x50, 0] + le16(4) + le16(0);
    let caps = capabilities(width, height);
    assert(s == head + caps);
    assert(head.len() == 24);
    assert(head.subrange(0, 2) =~= two_bytes(252));
    lemma_two_at(head, 0, 252);
    assert(head.subrange(2, 4) =~= two_bytes(0x13));
    lemma_two_at(head, 2, 0x13);
    assert(head.subrange(4, 6) =~= two_bytes(user));
    lemma_two_at(head, 4, user);
    assert(head.subrange(6, 10) =~= four_bytes(SHARE_ID));
    lemma_four_at(head, 6, SHARE_ID);
    assert(head.subrange(10, 12) =~= two_bytes(0x3EA));
    lemma_two_at(head, 10, 0x3EA);
    assert(head.subrange(12, 14) =~= two_bytes(4));
    lemma_two_at(head, 12, 4);
    assert(head.subrange(14, 16) =~= two_bytes(232));
    lemma_two_at(head, 14, 232);
    assert(head.subrange(20, 22) =~= two_bytes(4));
    lemma_two_at(head, 20, 4);
    assert(forall|k: int| 0 <= k < 24 ==> s[k] == #[trigger] head[k]);
    reveal_strlit("RDP\0");
    vstd::utf8::is_ascii_chars_encode_utf8("RDP\0"@);
    assert(encode_utf8("RDP\0"@) =~= seq![0x52u8, 0x44, 0x50, 0]);
    assert(s.subrange(16, 20) =~= seq![0x52u8, 0x44, 0x50, 0]);
    lemma_capabilities(head, width, height);
}

proof fn lemma_capabilities(head: Seq<u8>, width: u16, height: u16)
    requires
        head.len() == 24,
    ensures
        ({
            let s = head + capabilities(width, height);
            &&& s.subrange(24, 48) == general_capability()
            &&& s.subrange(48, 76) == bitmap_capability(width, height)
            &&& s.subrange(76, 164) == order_capability()
            &&& s.subrange(164, 252) == input_capability()
        }),
{
    crate::activation::confirm_active_lengths(0, width, height);
    let s = head + capabilities(width, height);
    assert(s.subrange(24, 48) =~= general_capability());
    assert(s.subrange(48, 76) =~= bitmap_capability(width, height));
    assert(s.subrange(76, 164) =~= order_capability());
    assert(s.subrange(164, 252) =~= input_capability());
}

/// Of bitmaps, the client tells the depth that it prefers, the depths that it can
/// draw, and the size of its desktop, which may change.
pub proof fn bitmaps_are_agreed(width: u16, height: u16)
    ensures
        ({
            let s = bitmap_capability(width, height);
            &&& u16_at(s, 0) == 2
            &&& u16_at(s, 2) == s.len()
            &&& u16_at(s, 4) == 24
            &&& u16_at(s, 6) == 1 && u16_at(s, 8) == 1 && u16_at(s, 10) == 1
            &&& u16_at(s, 12) == width
            &&& u16_at(s, 14) == height
            &&& u16_at(s, 18) == 1
            &&& u16_at(s, 24) == 1
        }),
{
    let s = bitmap_capability(width, height);
    lemma_written(2, 0, 0);
    lemma_written(28, 0, 0);
    lemma_written(24, 0, 0);
    lemma_written(1, 0, 0);
    lemma_written(width, 0, 0);
    lemma_written(height, 0, 0);
    assert(s.subrange(0, 2) =~= two_bytes(2));
    lemma_two_at(s, 0, 2);
    assert(s.subrange(2, 4) =~= two_bytes(28));
    lemma_two_at(s, 2, 28);
    assert(s.subrange(4, 6) =~= two_bytes(24));
    lemma_two_at(s, 4, 24);
    assert(s.subrange(6, 8) =~= two_bytes(1));
    lemma_two_at(s, 6, 1);
    assert(s.subrange(8, 10) =~= two_bytes(1));
    lemma_two_at(s, 8, 1);
    assert(s.subrange(10, 12) =~= two_bytes(1));
    lemma_two_at(s, 10, 1);
    assert(s.subrange(12, 14) =~= two_bytes(width));
    lemma_two_at(s, 12, width);
    assert(s.subrange(14, 16) =~= two_bytes(height));
    lemma_two_at(s, 14, height);
    assert(s.subrange(18, 20) =~= two_bytes(1));
    lemma_two_at(s, 18, 1);
    assert(s.subrange(24, 26) =~= two_bytes(1));
    lemma_two_at(s, 24, 1);
}

/// The client tells what it is, that it knows no drawing orders, and that it sends
/// scan codes of a keyboard of the United States with twelve function keys.
#[verifier::rlimit(40)]
pub proof fn client_abilities_are_told()
    ensures
        ({
            let s = general_capability();
            &&& u16_at(s, 0) == 1
            &&& u16_at(s, 2) == s.len()
            &&& u16_at(s, 4) == 1
            &&& u16_at(s, 6) == 3
            &&& u16_at(s, 8) == 0x200
            &&& u16_at(s, 14) == 0x1D
        }),
        ({
            let s = order_capability();
            &&& u16_at(s, 0) == 3
            &&& u16_at(s, 2) == s.len()
            &&& u16_at(s, 34) == 0x22
            &&& s.subrange(36, 68) == zeros(32)
        }),
        ({
            let s = input_capability();
            &&& u16_at(s, 0) == 13
            &&& u16_at(s, 2) == s.len()
            &&& u16_at(s, 4) == 1
            &&& u32_at(s, 8) == 0x409
            &&& u32_at(s, 12) == 4
            &&& u32_at(s, 16) == 0
            &&& u32_at(s, 20) == 12
        }),
{
    crate::activation::confirm_active_lengths(0, 0, 0);
    lemma_written(1, 0, 0);
    lemma_written(24, 0, 0);
    lemma_written(3, 0, 0);
    lemma_written(0x200, 0, 0);
    lemma_written(0x1D, 0, 0);
    let a = general_capability();
    assert(a.subrange(0, 2) =~= two_bytes(1));
    lemma_two_at(a, 0, 1);
    assert(a.subrange(2, 4) =~= two_bytes(24));
    lemma_two_at(a, 2, 24);
    assert(a.subrange(4, 6) =~= two_bytes(1));
    lemma_two_at(a, 4, 1);
    assert(a.subrange(6, 8) =~= two_bytes(3));
    lemma_two_at(a, 6, 3);
    assert(a.subrange(8, 10) =~= two_bytes(0x200));
    lemma_two_at(a, 8, 0x200);
    assert(a.subrange(14, 16) =~= two_bytes(0x1D));
    lemma_two_at(a, 14, 0x1D);
    lemma_written(88, 0, 0);
    lemma_written(0x22, 0, 0);
    let b = order_capability();
    assert(b.subrange(0, 2) =~= two_bytes(3));
    lemma_two_at(b, 0, 3);
    assert(b.subrange(2, 4) =~= two_bytes(88));
    lemma_two_at(b, 2, 88);
    assert(b.subrange(34, 36) =~= two_bytes(0x22));
    lemma_two_at(b, 34, 0x22);
    assert(b.subrange(36, 68) =~= zeros(32));
    lemma_written(13, 0x409, 0);
    lemma_written(0, 4, 0);
    lemma_written(0, 12, 0);
    lemma_written(0, 0, 0);
    let c = input_capability();
    assert(c.subrange(0, 2) =~= two_bytes(13));
    lemma_two_at(c, 0, 13);
    assert(c.subrange(2, 4) =~= two_bytes(88));
    lemma_two_at(c, 2, 88);
    assert(c.subrange(4, 6) =~= two_bytes(1));
    lemma_two_at(c, 4, 1);
    assert(c.subrange(8, 12) =~= four_bytes(0x409));
    lemma_four_at(c, 8, 0x409);
    assert(c.subrange(12, 16) =~= four_bytes(4));
    lemma_four_at(c, 12, 4);
    assert(c.subrange(16, 20) =~= four_bytes(0));
    lemma_four_at(c, 16, 0);
    assert(c.subrange(20, 24) =~= four_bytes(12));
    lemma_four_at(c, 20, 12);
}

/// The messages that follow tell their length, their sender and their kind, and
/// what they ask for: to synchronise with the user, an action of control, an empty
/// list of fonts, and to end.
pub proof fn session_messages_are_told(user: u16, action: u16)
    ensures
        ({
            let s = synchronize_data(user);
            &&& s.len() == 22
            &&& data_headed(s, 22, user as int, 6, 31)
            &&& u16_at(s, 18) == 1
            &&& u16_at(s, 20) == user
        }),
        ({
            let s = control_data(user, action);
            &&& s.len() == 26
            &&& data_headed(s, 26, user as int, 8, 20)
            &&& u16_at(s, 18) == action
            &&& u16_at(s, 20) == 0
            &&& u32_at(s, 22) == 0
        }),
        ({
            let s = font_list_data(user);
            &&& s.len() == 26
            &&& data_headed(s, 26, user as int, 8, 39)
            &&& u16_at(s, 18) == 0
            &&& u16_at(s, 20) == 0
            &&& u16_at(s, 22) == 3
            &&& u16_at(s, 24) == 0x32
        }),
        shutdown_data(user).len() == 18,
        data_headed(shutdown_data(user), 18, user as int, 0, 36),
{
    lemma_written(1, 0, 0);
    lemma_written(user, 0, 0);
    lemma_written(action, 0, 0);
    lemma_written(0, 0, 0);
    lemma_written(3, 0, 0);
    lemma_written(0x32, 0, 0);
    let a = synchronize_data(user);
    data_messages_are_headed(22, user, 6, 31, le16(1) + le16(user));
    assert(a =~= data_header(22, user, 6, 31) + (le16(1) + le16(user)));
    assert(a.subrange(18, 20) =~= two_bytes(1));
    lemma_two_at(a, 18, 1);
    assert(a.subrange(20, 22) =~= two_bytes(user));
    lemma_two_at(a, 20, user);
    let b = control_data(user, action);
    data_messages_are_headed(26, user, 8, 20, le16(action) + le16(0) + le32(0));
    assert(b =~= data_header(26, user, 8, 20) + (le16(action) + le16(0) + le32(0)));
    assert(b.subrange(18, 20) =~= two_bytes(action));
    lemma_two_at(b, 18, action);
    assert(b.subrange(20, 22) =~= two_bytes(0));
    lemma_two_at(b, 20, 0);
    assert(b.subrange(22, 26) =~= four_bytes(0));
    lemma_four_at(b, 22, 0);
    let c = font_list_data(user);
    data_messages_are_headed(26, user, 8, 39, le16(0) + le16(0) + le16(3) + le16(0x32));
    assert(c =~= data_header(26, user, 8, 39) + (le16(0) + le16(0) + le16(3) + le16(0x32)));
    assert(c.subrange(18, 20) =~= two_bytes(0));
    lemma_two_at(c, 18, 0);
    assert(c.subrange(20, 22) =~= two_bytes(0));
    lemma_two_at(c, 20, 0);
    assert(c.subrange(22, 24) =~= two_bytes(3));
    lemma_two_at(c, 22, 3);
    assert(c.subrange(24, 26) =~= two_bytes(0x32));
    lemma_two_at(c, 24, 0x32);
    data_messages_are_headed(18, user, 0, 36, Seq::empty());
    assert(shutdown_data(user) =~= data_header(18, user, 0, 36) + Seq::<u8>::empty());
}

/// Four packets follow the confirmation: the session is synchronised, control is
/// shared and then taken, and fonts are listed.
pub proof fn session_is_synchronised(user: u16)
    requires
        1001 <= user,
    ensures
        ({
            let s = synchronize_sequence(user);
            &&& s.len() == 36 + 40 + 40 + 40
            &&& carries(s.take(36), user as int, 1003, synchronize_data(user))
            &&& carries(s.subrange(36, 76), user as int, 1003, control_data(user, 4))
            &&& carries(s.subrange(76, 116), user as int, 1003, control_data(user, 1))
            &&& carries(s.skip(116), user as int, 1003, font_list_data(user))
        }),
{
    let s = synchronize_sequence(user);
    session_messages_are_told(user, 4);
    session_messages_are_told(user, 1);
    messages_are_sent_whole(user, IO_CHANNEL, synchronize_data(user));
    messages_are_sent_whole(user, IO_CHANNEL, control_data(user, 4));
    messages_are_sent_whole(user, IO_CHANNEL, control_data(user, 1));
    messages_are_sent_whole(user, IO_CHANNEL, font_list_data(user));
    let a = sent(user, IO_CHANNEL, synchronize_data(user));
    let b = sent(user, IO_CHANNEL, control_data(user, 4));
    let c = sent(user, IO_CHANNEL, control_data(user, 1));
    let d = sent(user, IO_CHANNEL, font_list_data(user));
    lemma_four(a, b, c, d);
}

proof fn lemma_four(a: Seq<u8>, b: Seq<u8>, c: Seq<u8>, d: Seq<u8>)
    requires
        a.len() == 36,
        b.len() == 40,
        c.len() == 40,
    ensures
        (a + b + c + d).take(36) == a,
        (a + b + c + d).subrange(36, 76) == b,
        (a + b + c + d).subrange(76, 116) == c,
        (a + b + c + d).skip(116) == d,
{
    let s = a + b + c + d;
    assert(s.take(36) =~= a);
    assert(s.subrange(36, 76) =~= b);
    assert(s.subrange(76, 116) =~= c);
    assert(s.skip(116) =~= d);
}

// ---- Licences ---------------------------------------------------------------

/// A licence message goes to the channel of the picture and the input, behind a
/// security header with the flag of licences.
pub proof fn licence_messages_are_sent(user: u16, body: Seq<u8>)
    requires
        1001 <= user,
        body.len() + 4 < 0x4000,
    ensures
        carries(license_packet(user, body), user as int, 1003, seq![0x80u8, 0, 0, 0] + body),
{
    let data = le16(0x80) + le16(0) + body;
    assert(data =~= seq![0x80u8, 0, 0, 0] + body);
    messages_are_sent_whole(user, IO_CHANNEL, data);
}

/// The answer to a request for a licence tells its kind and length, and the names
/// of the user and the machine, each with its length and ended by a zero; the
/// answer to a challenge tells its kind and length and nothing else.
pub proof fn licence_answers_are_told()
    ensures
        ({
            let s = license_request_body();
            &&& s.len() == 66
            &&& s[0] == 0x13
            &&& s[1] == 0
            &&& u16_at(s, 2) == 66
            &&& s.subrange(4, 36) == zeros(32)
            &&& u16_at(s, 48) == 7
            &&& s.subrange(50, 57) == encode_utf8("portix\0"@)
            &&& u16_at(s, 57) == 7
            &&& s.subrange(59, 66) == encode_utf8("PORTIX\0"@)
        }),
        ({
            let s = challenge_response_body();
            &&& s.len() == 28
            &&& s[0] == 0x15
            &&& s[1] == 0
            &&& u16_at(s, 2) == 28
            &&& s.skip(4) == zeros(24)
        }),
{
    let s = license_request_body();
    lemma_written(66, 0, 0);
    lemma_written(7, 0, 0);
    lemma_written(28, 0, 0);
    assert(s.subrange(2, 4) =~= two_bytes(66));
    lemma_two_at(s, 2, 66);
    assert(s.subrange(48, 50) =~= two_bytes(7));
    lemma_two_at(s, 48, 7);
    assert(s.subrange(57, 59) =~= two_bytes(7));
    lemma_two_at(s, 57, 7);
    assert(s.subrange(4, 36) =~= zeros(32));
    reveal_strlit("portix\0");
    reveal_strlit("PORTIX\0");
    vstd::utf8::is_ascii_chars_encode_utf8("portix\0"@);
    vstd::utf8::is_ascii_chars_encode_utf8("PORTIX\0"@);
    assert(encode_utf8("portix\0"@) =~= seq![0x70u8, 0x6F, 0x72, 0x74, 0x69, 0x78, 0]);
    assert(encode_utf8("PORTIX\0"@) =~= seq![0x50u8, 0x4F, 0x52, 0x54, 0x49, 0x58, 0]);
    assert(s.subrange(50, 57) =~= seq![0x70u8, 0x6F, 0x72, 0x74, 0x69, 0x78, 0]);
    assert(s.subrange(59, 66) =~= seq![0x50u8, 0x4F, 0x52, 0x54, 0x49, 0x58, 0]);
    let t = challenge_response_body();
    assert(t.subrange(2, 4) =~= two_bytes(28));
    lemma_two_at(t, 2, 28);
    assert(t.skip(4) =~= zeros(24));
}

/// A packet of the server is a licence packet where its security header has the
/// flag of licences; the message follows that header.
pub proof fn licence_packets_are_recognised(s: Seq<u8>, channel: u16, data: Seq<u8>)
    requires
        4 <= data.len() < 0x4000,
        brings(s, channel as int, data),
        s.len() == data_start(data.len()) + data.len(),
    ensures
        match license_message(s) {
            Some((flags, message)) => {
                &&& data[0] >= 128
                &&& flags == u16_at(data, 0)
                &&& message == data.skip(4)
            },
            None => data[0] < 128,
        },
{
    let start = data_start(data.len());
    numbers_are_read(s, 2);
    numbers_are_read(s, start);
    assert(data[0] == s[start] && data[1] == s[start + 1]);
    assert(data.skip(4) =~= s.subrange(start + 4, s.len() as int));
}

/// While activation is awaited, a request for a licence is answered with one for a
/// new licence, and a challenge with an empty response; other licence messages,
/// and other packets, are not answered.
pub proof fn licences_are_answered(user: u16, s: Seq<u8>)
    ensures
        match license_message(s) {
            Some((_, message)) => if message.len() > 0 && message[0] == 1 {
                license_answer(user, s) == Some(license_packet(user, license_request_body()))
            } else if message.len() > 0 && message[0] == 0x12 {
                license_answer(user, s) == Some(license_packet(user, challenge_response_body()))
            } else {
                license_answer(user, s) is None
            },
            None => license_answer(user, s) is None,
        },
{
}

/// A report ends the exchange unless the state that it tells is that more is to
/// come.
pub proof fn reports_end_the_exchange(message: Seq<u8>)
    ensures
        ends_licensing(message) == !(message.len() >= 12 && u32_at(message, 8) == 1),
{
    numbers_are_read(message, 8);
}

/// The wait ends as soon as the demand comes, and in vain when the server hangs up
/// or is silent, and with the sixtieth packet. Till then each packet is counted,
/// and licences are answered.
pub proof fn waits_end(wait: ActivationWait, data: &[u8])
    requires
        wait.packets < 60,
    ensures
        wait.outcome(WaitEvent::TimedOut).verdict == Some(Ok::<bool, RdpError>(false)),
        wait.outcome(WaitEvent::TimedOut).reply is None,
        wait.waited(WaitEvent::TimedOut) == wait,
        ({
            let event = WaitEvent::Received(data);
            let outcome = wait.outcome(event);
            let next = wait.waited(event);
            &&& next.user_channel_id == wait.user_channel_id
            &&& if data@.len() == 0 {
                &&& outcome.verdict == Some(Ok::<bool, RdpError>(false))
                &&& outcome.reply is None
                &&& next == wait
            } else if demands_active_within(data@) {
                &&& outcome.verdict == Some(Ok::<bool, RdpError>(true))
                &&& outcome.reply is None
                &&& next == wait
            } else {
                &&& outcome.reply == license_answer(wait.user_channel_id, data@)
                &&& next.packets == wait.packets + 1
                &&& next.packets == 60 ==> outcome.verdict == Some(Ok::<bool, RdpError>(false))
                &&& next.packets < 60 ==> outcome.verdict is None
            }
        }),
{
}

} // verus!
