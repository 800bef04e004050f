//! Connecting to a remote desktop, up to the moment when it is active.

use vstd::prelude::*;

use crate::activation::{
    build_confirm_active_pdu, build_synchronize_sequence, confirm_active_data, synchronize_sequence,
};
use crate::connect::{
    attach_request, attached, build_client_info_pdu, build_mcs_attach_user, build_mcs_channel_join,
    build_mcs_connect_initial, build_mcs_erect_domain, build_x224_connection_request,
    build_x224_connection_request_plain, channel_from, client_info, confirmed, connect_initial,
    connection_request, encryption_from, encryption_wish, erect_request, join_request,
    parse_attach_user_confirm, parse_server_encryption_level, parse_server_static_channel_id,
    parse_x224_confirm,
};
use crate::errors::{ConnectStage, RdpError};
use crate::framing::{demands_active_within, packet, sent, IO_CHANNEL};
use crate::licensing::{ActivationWait, WaitEvent, MAX_WAITS};
use crate::profile::{ProfileView, RdpProfile};
use crate::wire::all_bytes;

verus! {

/// Most times that a connection is tried in one session.
pub const MAX_ATTEMPTS: u32 = 3;

// ---- Attempts ---------------------------------------------------------------

/// An attempt to connect.
#[derive(Clone, Copy, Debug, PartialEq, Eq, Structural)]
pub struct Attempt {
    /// Its number, from one on.
    pub number: u32,
    /// Whether the connection is announced once it stands, with a first
    /// picture; else the picture begins anew.
    pub announce: bool,
    /// Milliseconds to wait before it.
    pub pause_millis: u64,
}

/// The attempt with this number: only the first is announced, and the others
/// wait half a second.
pub open spec fn attempt(number: u32) -> Attempt {
    Attempt {
        number,
        announce: number == 1,
        pause_millis: if number == 1 {
            0
        } else {
            500
        },
    }
}

/// How often a connection has been tried.
pub struct Attempts {
    pub made: u32,
}

impl Attempts {
    /// The attempts that are left, where each connection is lost again.
    pub open spec fn left(self) -> Seq<Attempt> {
        Seq::new(
            if self.made < MAX_ATTEMPTS {
                (MAX_ATTEMPTS - self.made) as nat
            } else {
                0
            },
            |i: int| attempt((self.made + 1 + i) as u32),
        )
    }

    /// None has been made.
    pub fn new() -> (attempts: Self)
        ensures
            attempts.made == 0,
    {
        Attempts { made: 0 }
    }

    /// Begins another attempt, where one is left.
    pub fn begin_attempt(&mut self) -> (res: Result<Attempt, RdpError>)
        ensures
            old(self).made < MAX_ATTEMPTS ==> (res matches Ok(a) && a.number == old(self).made + 1
                && a.announce == (a.number == 1) && a.pause_millis == (if a.number == 1 {
                0u64
            } else {
                500u64
            }) && final(self).made == a.number),
            old(self).made >= MAX_ATTEMPTS ==> res == Err::<Attempt, RdpError>(
                RdpError::TooManyAttempts,
            ) && final(self).made == old(self).made,
            match res {
                Ok(a) => old(self).left() == seq![a] + final(self).left(),
                Err(_) => old(self).left() == Seq::<Attempt>::empty(),
            },
    {
        if self.made >= MAX_ATTEMPTS {
            assert(self.left() =~= Seq::<Attempt>::empty());
            return Err(RdpError::TooManyAttempts);
        }
        self.made += 1;
        let first = self.made == 1;
        let begun = Attempt {
            number: self.made,
            announce: first,
            pause_millis: if first {
                0
            } else {
                500
            },
        };
        assert(old(self).left() =~= seq![begun] + self.left());
        Ok(begun)
    }
}

/// A session whose connections are all lost makes three attempts, of which the
/// first is announced and no other.
pub proof fn first_attempt_is_announced(attempts: Attempts)
    requires
        attempts.made == 0,
    ensures
        attempts.left().len() == 3,
        forall|i: int|
            0 <= i < 3 ==> (#[trigger] attempts.left()[i]).announce == (i == 0)
                && attempts.left()[i].number == i + 1,
{
}

// ---- Phases -----------------------------------------------------------------

/// The channels beside the user's own and the common one.
#[derive(Clone, Copy, Debug, PartialEq, Eq, Structural)]
pub struct StaticChannels {
    pub clipboard: Option<u16>,
    pub drive: Option<u16>,
}

/// How far connecting has come.
#[derive(Clone, Copy, Debug)]
pub enum Phase {
    /// A connection was asked for, with a choice of protocols.
    Negotiating,
    /// A connection was asked for without that choice.
    NegotiatingPlain,
    /// The server has chosen a protocol, and the conference was asked for.
    Connecting { protocol: u8, encrypted: bool },
    /// A user channel was asked for.
    Attaching { channels: StaticChannels, encryption_level: u32 },
    /// Of the channels, the one with index `joining` was asked for.
    Joining { channels: StaticChannels, encryption_level: u32, user: u16, joining: usize },
    /// The sign-in was sent.
    Waiting { channels: StaticChannels, encryption_level: u32, wait: ActivationWait },
    /// The remote desktop is active.
    Active { channels: StaticChannels, user: u16 },
    /// Connecting failed.
    Failed(RdpError),
}

/// What is to be done next.
pub enum HandshakeStep {
    /// Connect anew, send this, and read the answer.
    Reconnect(Vec<u8>),
    /// Encrypt the connection where that is asked for, send this, and read the
    /// answer.
    Proceed { encrypted: bool, pdu: Vec<u8> },
    /// Send these, and read the answer.
    Exchange(Vec<Vec<u8>>),
    /// Send these, and wait for a packet, but not for ever.
    Await(Vec<Vec<u8>>),
    /// Send these; then the remote desktop is active.
    Activate(Vec<Vec<u8>>),
    /// Send these, and give up.
    Fail { pdus: Vec<Vec<u8>>, error: RdpError },
}

/// What a [`HandshakeStep`] says.
#[verifier::ext_equal]
pub enum HandshakeView {
    Reconnect(Seq<u8>),
    Proceed { encrypted: bool, pdu: Seq<u8> },
    Exchange(Seq<Seq<u8>>),
    Await(Seq<Seq<u8>>),
    Activate(Seq<Seq<u8>>),
    Fail { pdus: Seq<Seq<u8>>, error: RdpError },
}

impl View for HandshakeStep {
    type V = HandshakeView;

    open spec fn view(&self) -> HandshakeView {
        match *self {
            HandshakeStep::Reconnect(pdu) => HandshakeView::Reconnect(pdu@),
            HandshakeStep::Proceed { encrypted, pdu } => HandshakeView::Proceed {
                encrypted,
                pdu: pdu@,
            },
            HandshakeStep::Exchange(pdus) => HandshakeView::Exchange(all_bytes(pdus@)),
            HandshakeStep::Await(pdus) => HandshakeView::Await(all_bytes(pdus@)),
            HandshakeStep::Activate(pdus) => HandshakeView::Activate(all_bytes(pdus@)),
            HandshakeStep::Fail { pdus, error } => HandshakeView::Fail {
                pdus: all_bytes(pdus@),
                error,
            },
        }
    }
}

/// The channels that are joined, in order: the user's own, the common one, and
/// those that the server has given.
pub open spec fn joined_channels(user: u16, channels: StaticChannels) -> Seq<u16> {
    let common = seq![user, IO_CHANNEL];
    let with_clipboard = match channels.clipboard {
        Some(id) => common.push(id),
        None => common,
    };
    match channels.drive {
        Some(id) => with_clipboard.push(id),
        None => with_clipboard,
    }
}

/// The channels that the server gives in its answer. One for mapped folders is
/// only looked for where a folder is mapped.
pub open spec fn given_channels(answer: Seq<u8>, drive_enabled: bool) -> StaticChannels {
    StaticChannels {
        clipboard: channel_from(answer, 0, 0),
        drive: if drive_enabled {
            channel_from(answer, 0, 1)
        } else {
            None
        },
    }
}

/// Activation is confirmed, and the start is asked for.
pub open spec fn activation_packets(user: u16, width: u16, height: u16) -> Seq<Seq<u8>> {
    seq![
        sent(user, IO_CHANNEL, confirm_active_data(user, width, height)),
        synchronize_sequence(user),
    ]
}

impl Phase {
    /// How far connecting has come once `answer` has come; an empty answer says
    /// that the server hung up.
    pub open spec fn after(self, drive_enabled: bool, answer: Seq<u8>) -> Phase {
        let closed = answer.len() == 0;
        match self {
            Phase::Negotiating => if closed {
                Phase::Failed(RdpError::Closed(ConnectStage::Negotiation))
            } else {
                match confirmed(answer) {
                    Ok(protocol) => Phase::Connecting { protocol, encrypted: protocol >= 1 },
                    Err(_) => Phase::NegotiatingPlain,
                }
            },
            Phase::NegotiatingPlain => if closed {
                Phase::Failed(RdpError::Closed(ConnectStage::PlainNegotiation))
            } else {
                match confirmed(answer) {
                    Ok(protocol) => Phase::Connecting { protocol, encrypted: false },
                    Err(error) => Phase::Failed(error),
                }
            },
            Phase::Connecting { .. } => if closed {
                Phase::Failed(RdpError::Closed(ConnectStage::Connect))
            } else {
                Phase::Attaching {
                    channels: given_channels(answer, drive_enabled),
                    encryption_level: encryption_from(answer, 0),
                }
            },
            Phase::Attaching { channels, encryption_level } => if closed {
                Phase::Failed(RdpError::Closed(ConnectStage::AttachUser))
            } else {
                match attached(answer) {
                    Ok(user) => Phase::Joining { channels, encryption_level, user, joining: 0 },
                    Err(error) => Phase::Failed(error),
                }
            },
            Phase::Joining { channels, encryption_level, user, joining } => if closed {
                Phase::Failed(RdpError::Closed(ConnectStage::ChannelJoin))
            } else if joining + 1 < joined_channels(user, channels).len() {
                Phase::Joining {
                    channels,
                    encryption_level,
                    user,
                    joining: (joining + 1) as usize,
                }
            } else {
                Phase::Waiting {
                    channels,
                    encryption_level,
                    wait: ActivationWait { user_channel_id: user, packets: 0 },
                }
            },
            _ => Phase::Failed(RdpError::NotActivated),
        }
    }

    /// What is to be done on coming to this phase.
    pub open spec fn entered(self, profile: ProfileView, drive_enabled: bool) -> HandshakeView {
        match self {
            Phase::Negotiating => HandshakeView::Exchange(
                seq![connection_request(profile.username, encryption_wish())],
            ),
            Phase::NegotiatingPlain => HandshakeView::Reconnect(
                connection_request(profile.username, Seq::empty()),
            ),
            Phase::Connecting { protocol, encrypted } => HandshakeView::Proceed {
                encrypted,
                pdu: connect_initial(profile.width, profile.height, protocol, drive_enabled),
            },
            Phase::Attaching { .. } => HandshakeView::Exchange(
                seq![erect_request(), attach_request()],
            ),
            Phase::Joining { channels, user, joining, .. } => HandshakeView::Exchange(
                seq![join_request(user, joined_channels(user, channels)[joining as int])],
            ),
            Phase::Waiting { encryption_level, wait, .. } => HandshakeView::Await(
                seq![client_info(wait.user_channel_id, profile, encryption_level)],
            ),
            Phase::Active { user, .. } => HandshakeView::Activate(
                activation_packets(user, profile.width, profile.height),
            ),
            Phase::Failed(error) => HandshakeView::Fail { pdus: Seq::empty(), error },
        }
    }

    /// How far connecting has come once something came while activation is
    /// awaited.
    pub open spec fn after_wait(self, event: WaitEvent<'_>) -> Phase {
        match self {
            Phase::Waiting { channels, encryption_level, wait } => match wait.outcome(
                event,
            ).verdict {
                None => Phase::Waiting {
                    channels,
                    encryption_level,
                    wait: ActivationWait { packets: (wait.packets + 1) as u32, ..wait },
                },
                Some(Ok(true)) => Phase::Active { channels, user: wait.user_channel_id },
                Some(Ok(false)) => Phase::Failed(RdpError::NotActivated),
                Some(Err(error)) => Phase::Failed(error),
            },
            _ => Phase::Failed(RdpError::NotActivated),
        }
    }

    /// What is then to be done: an answer that is called for is sent in any
    /// case.
    pub open spec fn waited(self, profile: ProfileView, event: WaitEvent<'_>) -> HandshakeView {
        let replies = match self {
            Phase::Waiting { wait, .. } => optional(wait.outcome(event).reply),
            _ => Seq::empty(),
        };
        match self.after_wait(event) {
            Phase::Failed(error) => HandshakeView::Fail { pdus: replies, error },
            Phase::Active { user, .. } => HandshakeView::Activate(
                activation_packets(user, profile.width, profile.height),
            ),
            _ => HandshakeView::Await(replies),
        }
    }
}

/// A packet, where there is one.
pub open spec fn optional(pdu: Option<Seq<u8>>) -> Seq<Seq<u8>> {
    match pdu {
        Some(bytes) => seq![bytes],
        None => Seq::empty(),
    }
}

// ---- Laws -------------------------------------------------------------------

impl Phase {
    /// Only channels that there are have been asked for, and the wait is not
    /// over.
    pub open spec fn wf(self) -> bool {
        match self {
            Phase::Joining { channels, user, joining, .. } => joining < joined_channels(
                user,
                channels,
            ).len(),
            Phase::Waiting { wait, .. } => wait.packets < MAX_WAITS,
            _ => true,
        }
    }

    /// Bound on the answers that can still come.
    pub open spec fn remaining(self) -> nat {
        match self {
            Phase::Negotiating => 69,
            Phase::NegotiatingPlain => 68,
            Phase::Connecting { .. } => 67,
            Phase::Attaching { .. } => 66,
            Phase::Joining { joining, .. } => if joining < 5 {
                (65 - joining) as nat
            } else {
                60
            },
            Phase::Waiting { wait, .. } => if wait.packets < MAX_WAITS {
                (MAX_WAITS - wait.packets) as nat
            } else {
                0
            },
            _ => 0,
        }
    }

    /// The channels beside the user's own and the common one, once known.
    pub open spec fn channels(self) -> Option<StaticChannels> {
        match self {
            Phase::Attaching { channels, .. } => Some(channels),
            Phase::Joining { channels, .. } => Some(channels),
            Phase::Waiting { channels, .. } => Some(channels),
            Phase::Active { channels, .. } => Some(channels),
            _ => None,
        }
    }
}

/// Connecting ends: with each answer fewer are left, and from the start there
/// are at most 69.
pub proof fn answers_run_out(phase: Phase, drive_enabled: bool, answer: Seq<u8>)
    requires
        phase.wf(),
    ensures
        phase.after(drive_enabled, answer).wf(),
        phase.remaining() > 0 ==> phase.after(drive_enabled, answer).remaining()
            < phase.remaining(),
        phase.remaining() <= 69,
{
}

/// The wait for activation ends: with each packet fewer are left.
pub proof fn waits_run_out(phase: Phase, event: WaitEvent<'_>)
    requires
        phase.wf(),
    ensures
        phase.after_wait(event).wf(),
        phase.remaining() > 0 ==> phase.after_wait(event).remaining() < phase.remaining(),
{
}

/// The connection is encrypted only where the server has chosen that, in answer
/// to the request that offers it.
pub proof fn encrypted_where_agreed(phase: Phase, drive_enabled: bool, answer: Seq<u8>)
    ensures
        phase.after(drive_enabled, answer) matches Phase::Connecting { encrypted, .. } ==> (
        encrypted <==> phase is Negotiating && confirmed(answer)->Ok_0 >= 1),
{
}

/// The channel of mapped folders is used only where a folder is mapped.
pub proof fn drive_channel_where_mapped(phase: Phase, answer: Seq<u8>, event: WaitEvent<'_>)
    requires
        phase.channels() matches Some(channels) ==> channels.drive is None,
    ensures
        phase.after(false, answer).channels() matches Some(channels) ==> channels.drive is None,
        phase.after_wait(event).channels() matches Some(channels) ==> channels.drive is None,
{
}

/// The remote desktop becomes active only when the server demands it.
pub proof fn active_on_demand(phase: Phase, drive_enabled: bool, answer: Seq<u8>, event: WaitEvent<
    '_,
>)
    ensures
        !(phase.after(drive_enabled, answer) is Active),
        phase.after_wait(event) is Active ==> event is Received && demands_active_within(
            event->Received_0@,
        ),
{
}

// ---- Running ----------------------------------------------------------------

/// A connection that is being made.
pub struct Handshake {
    pub phase: Phase,
    pub drive_enabled: bool,
}

fn no_packets() -> (pdus: Vec<Vec<u8>>)
    ensures
        all_bytes(pdus@) == Seq::<Seq<u8>>::empty(),
{
    let pdus: Vec<Vec<u8>> = Vec::new();
    assert(all_bytes(pdus@) =~= Seq::<Seq<u8>>::empty());
    pdus
}

fn one_packet(pdu: Vec<u8>) -> (pdus: Vec<Vec<u8>>)
    ensures
        all_bytes(pdus@) == seq![pdu@],
{
    let mut pdus: Vec<Vec<u8>> = Vec::new();
    let ghost bytes = pdu@;
    pdus.push(pdu);
    assert(all_bytes(pdus@) =~= seq![bytes]);
    pdus
}

fn two_packets(first: Vec<u8>, second: Vec<u8>) -> (pdus: Vec<Vec<u8>>)
    ensures
        all_bytes(pdus@) == seq![first@, second@],
{
    let mut pdus: Vec<Vec<u8>> = Vec::new();
    let ghost bytes = seq![first@, second@];
    pdus.push(first);
    pdus.push(second);
    assert(all_bytes(pdus@) =~= bytes);
    pdus
}

/// Activation is confirmed, and the start is asked for.
pub fn build_activation(user: u16, width: u16, height: u16) -> (pdus: Vec<Vec<u8>>)
    ensures
        all_bytes(pdus@) == activation_packets(user, width, height),
{
    two_packets(build_confirm_active_pdu(user, width, height), build_synchronize_sequence(user))
}

/// The channels that are joined, in order.
pub fn channels_to_join(user: u16, channels: StaticChannels) -> (wanted: Vec<u16>)
    ensures
        wanted@ == joined_channels(user, channels),
{
    let mut wanted: Vec<u16> = Vec::new();
    wanted.push(user);
    wanted.push(IO_CHANNEL);
    assert(wanted@ =~= seq![user, IO_CHANNEL]);
    if let Some(id) = channels.clipboard {
        wanted.push(id);
    }
    if let Some(id) = channels.drive {
        wanted.push(id);
    }
    wanted
}

impl Handshake {
    /// Begins to connect: the first request, which is to be sent and whose
    /// answer is to be read.
    pub fn begin(profile: &RdpProfile, drive_enabled: bool) -> (res: (Self, HandshakeStep))
        ensures
            res.0.phase is Negotiating,
            res.0.drive_enabled == drive_enabled,
            res.1@ == Phase::Negotiating.entered(profile@, drive_enabled),
    {
        let handshake = Handshake { phase: Phase::Negotiating, drive_enabled };
        let step = handshake.enter(profile);
        (handshake, step)
    }

    /// How far connecting has come with an answer.
    fn follow(&self, answer: &[u8]) -> (next: Phase)
        requires
            self.phase.wf(),
        ensures
            next == self.phase.after(self.drive_enabled, answer@),
    {
        let closed = answer.len() == 0;
        match self.phase {
            Phase::Negotiating => {
                if closed {
                    return Phase::Failed(RdpError::Closed(ConnectStage::Negotiation));
                }
                match parse_x224_confirm(answer) {
                    Ok(protocol) => Phase::Connecting { protocol, encrypted: protocol >= 1 },
                    Err(_) => Phase::NegotiatingPlain,
                }
            },
            Phase::NegotiatingPlain => {
                if closed {
                    return Phase::Failed(RdpError::Closed(ConnectStage::PlainNegotiation));
                }
                match parse_x224_confirm(answer) {
                    Ok(protocol) => Phase::Connecting { protocol, encrypted: false },
                    Err(error) => Phase::Failed(error),
                }
            },
            Phase::Connecting { .. } => {
                if closed {
                    return Phase::Failed(RdpError::Closed(ConnectStage::Connect));
                }
                let clipboard = parse_server_static_channel_id(answer, 0);
                let drive = if self.drive_enabled {
                    parse_server_static_channel_id(answer, 1)
                } else {
                    None
                };
                let encryption_level = parse_server_encryption_level(answer);
                Phase::Attaching { channels: StaticChannels { clipboard, drive }, encryption_level }
            },
            Phase::Attaching { channels, encryption_level } => {
                if closed {
                    return Phase::Failed(RdpError::Closed(ConnectStage::AttachUser));
                }
                match parse_attach_user_confirm(answer) {
                    Ok(user) => Phase::Joining { channels, encryption_level, user, joining: 0 },
                    Err(error) => Phase::Failed(error),
                }
            },
            Phase::Joining { channels, encryption_level, user, joining } => {
                if closed {
                    return Phase::Failed(RdpError::Closed(ConnectStage::ChannelJoin));
                }
                let wanted = channels_to_join(user, channels);
                if wanted.len() - joining > 1 {
                    Phase::Joining { channels, encryption_level, user, joining: joining + 1 }
                } else {
                    Phase::Waiting { channels, encryption_level, wait: ActivationWait::new(user) }
                }
            },
            _ => Phase::Failed(RdpError::NotActivated),
        }
    }

    /// What is to be done on coming to the present phase.
    fn enter(&self, profile: &RdpProfile) -> (step: HandshakeStep)
        requires
            self.phase.wf(),
        ensures
            step@ == self.phase.entered(profile@, self.drive_enabled),
    {
        match self.phase {
            Phase::Negotiating => HandshakeStep::Exchange(
                one_packet(build_x224_connection_request(profile)),
            ),
            Phase::NegotiatingPlain => HandshakeStep::Reconnect(
                build_x224_connection_request_plain(profile),
            ),
            Phase::Connecting { protocol, encrypted } => HandshakeStep::Proceed {
                encrypted,
                pdu: build_mcs_connect_initial(profile, protocol, self.drive_enabled),
            },
            Phase::Attaching { .. } => HandshakeStep::Exchange(
                two_packets(build_mcs_erect_domain(), build_mcs_attach_user()),
            ),
            Phase::Joining { channels, user, joining, .. } => {
                let wanted = channels_to_join(user, channels);
                HandshakeStep::Exchange(one_packet(build_mcs_channel_join(user, wanted[joining])))
            },
            Phase::Waiting { encryption_level, wait, .. } => HandshakeStep::Await(
                one_packet(
                    build_client_info_pdu(wait.user_channel_id, profile, encryption_level),
                ),
            ),
            Phase::Active { user, .. } => HandshakeStep::Activate(
                build_activation(user, profile.width, profile.height),
            ),
            Phase::Failed(error) => HandshakeStep::Fail { pdus: no_packets(), error },
        }
    }

    /// Takes in the server's answer, which is empty where it hung up, and tells
    /// what is to be done.
    pub fn answered(&mut self, profile: &RdpProfile, answer: &[u8]) -> (step: HandshakeStep)
        requires
            old(self).phase.wf(),
        ensures
            final(self).phase == old(self).phase.after(old(self).drive_enabled, answer@),
            final(self).phase.wf(),
            final(self).drive_enabled == old(self).drive_enabled,
            step@ == final(self).phase.entered(profile@, old(self).drive_enabled),
    {
        let next = self.follow(answer);
        proof {
            answers_run_out(self.phase, self.drive_enabled, answer@);
        }
        self.phase = next;
        self.enter(profile)
    }

    /// Takes in what came while activation is awaited, and tells what is to be
    /// done.
    pub fn awaited(&mut self, profile: &RdpProfile, event: WaitEvent<'_>) -> (step: HandshakeStep)
        requires
            old(self).phase.wf(),
        ensures
            final(self).phase == old(self).phase.after_wait(event),
            final(self).phase.wf(),
            final(self).drive_enabled == old(self).drive_enabled,
            step@ == old(self).phase.waited(profile@, event),
    {
        match self.phase {
            Phase::Waiting { channels, encryption_level, wait } => {
                let mut wait = wait;
                let user = wait.user_channel_id;
                let outcome = wait.step(event);
                let pdus = match outcome.reply {
                    Some(pdu) => one_packet(pdu),
                    None => no_packets(),
                };
                match outcome.verdict {
                    None => {
                        self.phase = Phase::Waiting { channels, encryption_level, wait };
                        HandshakeStep::Await(pdus)
                    },
                    Some(Ok(true)) => {
                        self.phase = Phase::Active { channels, user };
                        HandshakeStep::Activate(
                            build_activation(user, profile.width, profile.height),
                        )
                    },
                    Some(Ok(false)) => {
                        self.phase = Phase::Failed(RdpError::NotActivated);
                        HandshakeStep::Fail { pdus, error: RdpError::NotActivated }
                    },
                    Some(Err(error)) => {
                        self.phase = Phase::Failed(error);
                        HandshakeStep::Fail { pdus, error }
                    },
                }
            },
            _ => {
                let error = RdpError::NotActivated;
                self.phase = Phase::Failed(error);
                HandshakeStep::Fail { pdus: no_packets(), error }
            },
        }
    }
}

} // verus!
