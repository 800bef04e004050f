//! The exchange about licences, and the wait for the demand to activate.

use vstd::prelude::*;

use crate::errors::RdpError;
use crate::framing::{
    contains_demand_active, demands_active_within, payload_bounds, sent, wrap_mcs_send_data,
    IO_CHANNEL,
};
use crate::wire::{
    be16_at, le16, le16_at, le32, le32_at, put_bytes, put_u16, put_u32, put_zeros, zeros,
};

verus! {

broadcast use crate::wire::lemma_empty_add;

/// Security flag of licence packets.
pub const SEC_LICENSE_PKT: u16 = 0x0080;

/// The server asks for a licence.
pub const LICENSE_REQUEST: u8 = 0x01;

/// The server challenges the platform.
pub const PLATFORM_CHALLENGE: u8 = 0x12;

/// The server grants a licence.
pub const NEW_LICENSE: u8 = 0x03;

/// The server renews a licence.
pub const UPGRADE_LICENSE: u8 = 0x04;

/// The server reports a state, often that no licence is needed.
pub const LICENSE_ERROR_ALERT: u8 = 0xFF;

/// Most packets that are read while activation is awaited.
pub const MAX_WAITS: u32 = 60;

// ---- Reading ----------------------------------------------------------------

/// Whether a packet has the headers of a licence packet, inside the length that
/// it states.
pub open spec fn has_license_headers(s: Seq<u8>) -> bool {
    &&& s.len() >= 18
    &&& s[0] == 3
    &&& be16_at(s, 2) <= s.len()
    &&& s[5] == 0xF0
    &&& s[7] == 0x68
    &&& payload_bounds(s).0 + 4 <= be16_at(s, 2)
    &&& le16_at(s, payload_bounds(s).0) / 0x80 % 2 == 1
}

/// The security flags and the message of a licence packet; none where the
/// packet is no such packet, or too short for its headers.
pub open spec fn license_message(s: Seq<u8>) -> Option<(u16, Seq<u8>)> {
    if has_license_headers(s) {
        let start = payload_bounds(s).0;
        Some((le16_at(s, start), s.subrange(start + 4, be16_at(s, 2) as int)))
    } else {
        None
    }
}

/// Where the security header of a licence packet begins.
fn license_start(data: &[u8]) -> (res: Option<usize>)
    ensures
        match res {
            Some(start) => has_license_headers(data@) && start == payload_bounds(data@).0,
            None => !has_license_headers(data@),
        },
{
    if data.len() < 18 || data[0] != 3 {
        return None;
    }
    let packet_len = 256 * data[2] as usize + data[3] as usize;
    if packet_len > data.len() || data[5] != 0xF0 || data[7] != 0x68 {
        return None;
    }
    let start: usize = if data[13] >= 128 {
        15
    } else {
        14
    };
    if start + 4 > packet_len {
        return None;
    }
    let flags = data[start] as u16 + 256 * data[start + 1] as u16;
    if flags / 0x80 % 2 == 0 {
        return None;
    }
    Some(start)
}

/// The security flags and the message of a licence packet.
pub fn extract_license_payload<'a>(data: &'a [u8]) -> (res: Option<(u16, &'a [u8])>)
    ensures
        match res {
            Some((flags, payload)) => license_message(data@) == Some((flags, payload@)),
            None => license_message(data@) is None,
        },
{
    match license_start(data) {
        Some(start) => {
            let flags = data[start] as u16 + 256 * data[start + 1] as u16;
            let end = 256 * data[2] as usize + data[3] as usize;
            Some((flags, vstd::slice::slice_subrange(data, start + 4, end)))
        },
        None => None,
    }
}

/// The type of a licence message.
pub fn license_msg_type(payload: &[u8]) -> (res: Option<u8>)
    ensures
        res == (if payload@.len() == 0 {
            None
        } else {
            Some(payload@[0])
        }),
{
    if payload.len() == 0 {
        None
    } else {
        Some(payload[0])
    }
}

/// Whether a report ends the exchange: it does unless it announces more.
pub open spec fn ends_licensing(payload: Seq<u8>) -> bool {
    payload.len() < 12 || le32_at(payload, 8) != 1
}

/// Whether a report ends the exchange.
pub fn is_license_error_terminal(payload: &[u8]) -> (res: bool)
    ensures
        res == ends_licensing(payload@),
{
    if payload.len() < 12 {
        return true;
    }
    payload[8] != 1 || payload[9] != 0 || payload[10] != 0 || payload[11] != 0
}

// ---- Answering --------------------------------------------------------------

/// A licence message as it is sent.
pub open spec fn license_packet(user_channel_id: u16, body: Seq<u8>) -> Seq<u8> {
    sent(user_channel_id, IO_CHANNEL, le16(0x80) + le16(0) + body)
}

/// The answer to a request for a licence: no key, and the names of user and
/// machine.
pub open spec fn license_request_body() -> Seq<u8> {
    seq![0x13u8, 0] + le16(66) + zeros(32) + le32(0) + le32(0) + le16(0) + le16(0) + le16(7) + seq![
        0x70u8,
        0x6F,
        0x72,
        0x74,
        0x69,
        0x78,
        0,
    ] + le16(7) + seq![0x50u8, 0x4F, 0x52, 0x54, 0x49, 0x58, 0]
}

/// The answer to a challenge: everything in it is empty.
pub open spec fn challenge_response_body() -> Seq<u8> {
    seq![0x15u8, 0] + le16(28) + le16(0) + le16(0) + le16(0) + le16(0) + zeros(16)
}

/// The lengths that the answers state are their lengths.
pub proof fn license_body_lengths()
    ensures
        license_request_body().len() == 66,
        le16_at(license_request_body(), 2) == 66,
        challenge_response_body().len() == 28,
        le16_at(challenge_response_body(), 2) == 28,
{
    assert(license_request_body()[2] == le16(66)[0] && license_request_body()[3] == le16(66)[1]);
    assert(challenge_response_body()[2] == le16(28)[0]);
    assert(challenge_response_body()[3] == le16(28)[1]);
}

/// A licence message as it is sent.
pub fn build_license_pdu(user_channel_id: u16, body: &[u8]) -> (pdu: Vec<u8>)
    ensures
        pdu@ == license_packet(user_channel_id, body@),
{
    let mut payload: Vec<u8> = Vec::new();
    put_u16(&mut payload, 0x80);
    put_u16(&mut payload, 0);
    put_bytes(&mut payload, body);
    wrap_mcs_send_data(user_channel_id, IO_CHANNEL, payload.as_slice())
}

/// The answer to a request for a licence.
pub fn build_client_new_license_request(user_channel_id: u16) -> (pdu: Vec<u8>)
    ensures
        pdu@ == license_packet(user_channel_id, license_request_body()),
{
    let mut body: Vec<u8> = Vec::new();
    put_bytes(&mut body, &[0x13, 0]);
    put_u16(&mut body, 66);
    put_zeros(&mut body, 32);
    put_u32(&mut body, 0);
    put_u32(&mut body, 0);
    put_u16(&mut body, 0);
    put_u16(&mut body, 0);
    put_u16(&mut body, 7);
    put_bytes(&mut body, &[0x70, 0x6F, 0x72, 0x74, 0x69, 0x78, 0]);
    put_u16(&mut body, 7);
    put_bytes(&mut body, &[0x50, 0x4F, 0x52, 0x54, 0x49, 0x58, 0]);
    build_license_pdu(user_channel_id, body.as_slice())
}

/// The answer to a challenge.
pub fn build_client_platform_challenge_response(user_channel_id: u16) -> (pdu: Vec<u8>)
    ensures
        pdu@ == license_packet(user_channel_id, challenge_response_body()),
{
    let mut body: Vec<u8> = Vec::new();
    put_bytes(&mut body, &[0x15, 0]);
    put_u16(&mut body, 28);
    put_u16(&mut body, 0);
    put_u16(&mut body, 0);
    put_u16(&mut body, 0);
    put_u16(&mut body, 0);
    put_zeros(&mut body, 16);
    build_license_pdu(user_channel_id, body.as_slice())
}

// ---- Waiting for activation -------------------------------------------------

/// What came while activation is awaited.
pub enum WaitEvent<'a> {
    /// Bytes, at least one unless the server hung up.
    Received(&'a [u8]),
    /// Nothing, for too long.
    TimedOut,
}

/// What follows from it.
pub struct WaitStep {
    /// An answer that is to be sent.
    pub reply: Option<Vec<u8>>,
    /// Whether activation was demanded, or why the wait failed; none while the
    /// wait goes on.
    pub verdict: Option<Result<bool, RdpError>>,
}

/// What a [`WaitStep`] says.
#[verifier::ext_equal]
pub struct WaitView {
    pub reply: Option<Seq<u8>>,
    pub verdict: Option<Result<bool, RdpError>>,
}

impl View for WaitStep {
    type V = WaitView;

    open spec fn view(&self) -> WaitView {
        WaitView {
            reply: match self.reply {
                Some(pdu) => Some(pdu@),
                None => None,
            },
            verdict: self.verdict,
        }
    }
}

/// The wait for activation: how many packets have been read.
#[derive(Clone, Copy, Debug)]
pub struct ActivationWait {
    pub user_channel_id: u16,
    pub packets: u32,
}

/// The answer that a packet calls for while activation is awaited.
pub open spec fn license_answer(user_channel_id: u16, s: Seq<u8>) -> Option<Seq<u8>> {
    match license_message(s) {
        Some((_, payload)) if payload.len() > 0 => if payload[0] == LICENSE_REQUEST {
            Some(license_packet(user_channel_id, license_request_body()))
        } else if payload[0] == PLATFORM_CHALLENGE {
            Some(license_packet(user_channel_id, challenge_response_body()))
        } else {
            None
        },
        _ => None,
    }
}

impl ActivationWait {
    /// What follows from what came. The wait ends with the demand, when the
    /// server hangs up, when nothing comes, or after too many packets.
    pub open spec fn outcome(self, event: WaitEvent<'_>) -> WaitView {
        match event {
            WaitEvent::TimedOut => WaitView { reply: None, verdict: Some(Ok(false)) },
            WaitEvent::Received(data) => if data@.len() == 0 {
                WaitView { reply: None, verdict: Some(Ok(false)) }
            } else if demands_active_within(data@) {
                WaitView { reply: None, verdict: Some(Ok(true)) }
            } else {
                WaitView {
                    reply: license_answer(self.user_channel_id, data@),
                    verdict: if self.packets + 1 >= MAX_WAITS {
                        Some(Ok(false))
                    } else {
                        None
                    },
                }
            },
        }
    }

    /// The wait after what came: a packet that does not end it is counted.
    pub open spec fn waited(self, event: WaitEvent<'_>) -> ActivationWait {
        match event {
            WaitEvent::Received(data) if data@.len() > 0 && !demands_active_within(data@) =>
                ActivationWait { packets: (self.packets + 1) as u32, ..self },
            _ => self,
        }
    }

    /// Begins to wait.
    pub fn new(user_channel_id: u16) -> (wait: Self)
        ensures
            wait.user_channel_id == user_channel_id,
            wait.packets == 0,
    {
        ActivationWait { user_channel_id, packets: 0 }
    }

    /// Takes in what came, and tells what follows from it.
    pub fn step(&mut self, event: WaitEvent<'_>) -> (step: WaitStep)
        requires
            old(self).packets < MAX_WAITS,
        ensures
            step@ == old(self).outcome(event),
            *final(self) == old(self).waited(event),
    {
        match event {
            WaitEvent::TimedOut => WaitStep { reply: None, verdict: Some(Ok(false)) },
            WaitEvent::Received(data) => {
                if data.len() == 0 {
                    return WaitStep { reply: None, verdict: Some(Ok(false)) };
                }
                if contains_demand_active(data) {
                    return WaitStep { reply: None, verdict: Some(Ok(true)) };
                }
                let mut reply: Option<Vec<u8>> = None;
                if let Some((_, payload)) = extract_license_payload(data) {
                    match license_msg_type(payload) {
                        Some(kind) => {
                            if kind == LICENSE_REQUEST {
                                reply =
                                Some(build_client_new_license_request(self.user_channel_id));
                            } else if kind == PLATFORM_CHALLENGE {
                                reply =
                                Some(
                                    build_client_platform_challenge_response(
                                        self.user_channel_id,
                                    ),
                                );
                            }
                        },
                        None => {},
                    }
                }
                self.packets += 1;
                let verdict = if self.packets >= MAX_WAITS {
                    Some(Ok(false))
                } else {
                    None
                };
                WaitStep { reply, verdict }
            },
        }
    }
}

/// The wait reads on only while fewer packets than the limit have been read.
pub proof fn wait_is_bounded(wait: ActivationWait, event: WaitEvent<'_>)
    requires
        wait.outcome(event).verdict is None,
    ensures
        wait.packets + 1 < MAX_WAITS,
{
}

} // verus!
