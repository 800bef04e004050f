//! Why a request is refused, and why a connection ends.

use vstd::prelude::*;

use crate::text::{chars_of, decimal, extend, push_decimal, text_of};

verus! {

/// Why a request is refused.
#[derive(Clone, Debug)]
pub enum PortixError {
    /// The profile, or another argument, cannot be used; the text says why.
    InvalidProfile(String),
    /// No session has this name.
    SessionNotFound(String),
    ConnectionTimeout,
    AuthenticationTimeout,
    AuthenticationFailed,
}

/// A step of connecting at which the server may hang up.
#[derive(Clone, Copy, Debug, PartialEq, Eq, Structural)]
pub enum ConnectStage {
    Negotiation,
    PlainNegotiation,
    Connect,
    AttachUser,
    ChannelJoin,
}

/// Why a connection to a remote desktop ends.
#[derive(Clone, Copy, Debug, PartialEq, Eq, Structural)]
pub enum RdpError {
    /// The answer to the connection request has only so many bytes.
    ConfirmTooShort(usize),
    /// The answer begins with a wrong version.
    ConfirmVersion(u8),
    /// The server asks for an authentication that is not supported.
    AuthenticationRequired,
    /// The answer is not a confirmation but of this type.
    NegotiationFailed(u8),
    AttachTooShort,
    /// The answer to attaching is not a confirmation but of this type.
    AttachUnexpected(u8),
    AttachRefused,
    /// The server hung up.
    Closed(ConnectStage),
    /// No demand for activation came.
    NotActivated,
    TooManyAttempts,
}

/// The hexadecimal digit of value `d`.
pub open spec fn hex_digit(d: nat) -> char {
    if d < 10 {
        (('0' as u32 + d) as u32) as char
    } else {
        (('A' as u32 + d - 10) as u32) as char
    }
}

/// `b` in two hexadecimal digits.
pub open spec fn hex_byte(b: u8) -> Seq<char> {
    seq![hex_digit((b / 16) as nat), hex_digit((b % 16) as nat)]
}

fn push_hex(out: &mut Vec<char>, b: u8)
    ensures
        final(out)@ == old(out)@ + hex_byte(b),
{
    let high = b / 16;
    let low = b % 16;
    out.push(hex_char(high));
    out.push(hex_char(low));
    assert(out@ =~= old(out)@ + hex_byte(b));
}

fn hex_char(d: u8) -> (c: char)
    requires
        d < 16,
    ensures
        c == hex_digit(d as nat),
{
    if d < 10 {
        ('0' as u8 + d) as char
    } else {
        ('A' as u8 + (d - 10)) as char
    }
}

impl RdpError {
    /// The error in words.
    pub open spec fn text(self) -> Seq<char> {
        match self {
            RdpError::ConfirmTooShort(n) => "X.224 confirm too short ("@ + decimal(n as nat)
                + " bytes)"@,
            RdpError::ConfirmVersion(b) => "Invalid TPKT version: 0x"@ + hex_byte(b) + ""@,
            RdpError::AuthenticationRequired =>
                "RDP server requires NLA/CredSSP authentication, which is not supported. Disable NLA on the server, or in xrdp.ini set security_layer=tls under [Globals]."@,
            RdpError::NegotiationFailed(b) => "X.224 negotiation failed (got 0x"@ + hex_byte(b)
                + "). Retrying without TLS negotiation."@,
            RdpError::AttachTooShort => "Attach User Confirm too short"@,
            RdpError::AttachUnexpected(b) => "Expected Attach User Confirm (0x2E), got 0x"@
                + hex_byte(b) + ""@,
            RdpError::AttachRefused => "Attach User failed"@,
            RdpError::Closed(ConnectStage::Negotiation) =>
                "RDP server closed connection during X.224 negotiation"@,
            RdpError::Closed(ConnectStage::PlainNegotiation) =>
                "Server closed connection during plain X.224 negotiation"@,
            RdpError::Closed(ConnectStage::Connect) => "Server closed during MCS Connect"@,
            RdpError::Closed(ConnectStage::AttachUser) => "Server closed during Attach User"@,
            RdpError::Closed(ConnectStage::ChannelJoin) => "Server closed during channel join"@,
            RdpError::NotActivated =>
                "Failed to receive Demand Active PDU. Ensure NLA is disabled on the RDP server."@,
            RdpError::TooManyAttempts => "RDP: max reconnection attempts exceeded"@,
        }
    }

    /// The error in words.
    pub fn message(&self) -> (text: String)
        ensures
            text@ == self.text(),
    {
        match *self {
            RdpError::ConfirmTooShort(n) => with_number(
                "X.224 confirm too short (",
                n as u64,
                " bytes)",
            ),
            RdpError::ConfirmVersion(b) => with_hex("Invalid TPKT version: 0x", b, ""),
            RdpError::AuthenticationRequired =>
                "RDP server requires NLA/CredSSP authentication, which is not supported. Disable NLA on the server, or in xrdp.ini set security_layer=tls under [Globals].".to_owned(),
            RdpError::NegotiationFailed(b) => with_hex(
                "X.224 negotiation failed (got 0x",
                b,
                "). Retrying without TLS negotiation.",
            ),
            RdpError::AttachTooShort => "Attach User Confirm too short".to_owned(),
            RdpError::AttachUnexpected(b) => with_hex(
                "Expected Attach User Confirm (0x2E), got 0x",
                b,
                "",
            ),
            RdpError::AttachRefused => "Attach User failed".to_owned(),
            RdpError::Closed(ConnectStage::Negotiation) =>
                "RDP server closed connection during X.224 negotiation".to_owned(),
            RdpError::Closed(ConnectStage::PlainNegotiation) =>
                "Server closed connection during plain X.224 negotiation".to_owned(),
            RdpError::Closed(ConnectStage::Connect) =>
                "Server closed during MCS Connect".to_owned(),
            RdpError::Closed(ConnectStage::AttachUser) =>
                "Server closed during Attach User".to_owned(),
            RdpError::Closed(ConnectStage::ChannelJoin) =>
                "Server closed during channel join".to_owned(),
            RdpError::NotActivated =>
                "Failed to receive Demand Active PDU. Ensure NLA is disabled on the RDP server.".to_owned(),
            RdpError::TooManyAttempts => "RDP: max reconnection attempts exceeded".to_owned(),
        }
    }
}

fn with_number(before: &str, n: u64, after: &str) -> (text: String)
    ensures
        text@ == before@ + decimal(n as nat) + after@,
{
    let mut out = chars_of(before);
    push_decimal(&mut out, n);
    let rest = chars_of(after);
    extend(&mut out, rest.as_slice());
    text_of(out.as_slice())
}

fn with_hex(before: &str, b: u8, after: &str) -> (text: String)
    ensures
        text@ == before@ + hex_byte(b) + after@,
{
    let mut out = chars_of(before);
    push_hex(&mut out, b);
    let rest = chars_of(after);
    extend(&mut out, rest.as_slice());
    text_of(out.as_slice())
}

} // verus!
