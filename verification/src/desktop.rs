//! An active session with a remote desktop: what follows from what the server
//! sends, from what the user does, and from the time that passes.

use std::sync::Arc;
use vstd::prelude::*;

use crate::activation::{build_shutdown_pdu, shutdown_data};
use crate::bitmap::{
    addressable, lemma_rectangles_addressable, packet_rectangles, process_incoming_pdu,
    some_updates, updates_view, BitmapUpdate, BitmapView,
};
use crate::channel::{build_static_channel_message_pdus, channel_packets};
use crate::clipboard::{
    build_cliprdr_format_list, clip_packets, offered_formats, process_cliprdr_packet,
    ClipboardChannelState, ClipboardView, CB_FORMAT_LIST,
};
use crate::drive::{DriveStep, DriveView, RdpdrState, StepView};
use crate::fastpath::{
    fastpath_outcome, lemma_fragments_addressable, process_fastpath_output, FastPathFragmentState,
    FragmentView,
};
use crate::framing::{
    channel_message, demands_active, is_demand_active_pdu, sent, server_mcs_channel_id,
    server_mcs_payload, IO_CHANNEL,
};
use crate::handshake::{activation_packets, build_activation, StaticChannels};
use crate::inbox::{behind_first, first_message, has_message, Inbox, MAX_KEPT};
use crate::input::{
    build_keyboard_pdu, build_mouse_button_pdu, build_mouse_move_pdu, build_shift_pulse,
    build_text_input_pdus, button_event, key_event, key_stroke, move_event, typed_line, MouseButton,
    SHIFT_KEY,
};
use crate::policy::{AutoUnlockPolicy, FramePacer};
use crate::profile::text_view;
use crate::screen::{Screen, ScreenView};
use crate::stats::{bump, bumped, raise, raised, DebugCounters};
use crate::wire::{all_bytes, append_messages, le16_at};

verus! {

// ---- State ------------------------------------------------------------------

/// How far unlocking has come. Times are in nanoseconds.
#[derive(Clone, Copy, Debug, PartialEq, Eq, Structural)]
pub enum AutoUnlockState {
    Disabled,
    /// From `deadline` on, look whether the desktop is dark.
    CheckBlank { deadline: u64 },
    /// The desktop was woken; from `deadline` on, type the password.
    WakeSent { deadline: u64 },
    Done,
}

/// An active session with a remote desktop.
pub struct Desktop {
    pub user: u16,
    pub channels: StaticChannels,
    pub inbox: Inbox,
    pub fragments: FastPathFragmentState,
    pub clipboard: ClipboardChannelState,
    pub drive: Option<RdpdrState>,
    pub unlock: AutoUnlockState,
}

/// What a [`Desktop`] holds.
#[verifier::ext_equal]
pub struct DesktopView {
    pub user: u16,
    pub channels: StaticChannels,
    pub inbox: Seq<u8>,
    pub fragments: FragmentView,
    pub clipboard: ClipboardView,
    pub drive: Option<DriveView>,
    pub unlock: AutoUnlockState,
}

/// What is known of a mapped folder, where one is.
pub open spec fn drive_view(drive: Option<RdpdrState>) -> Option<DriveView> {
    match drive {
        Some(state) => Some(state@),
        None => None,
    }
}

impl View for Desktop {
    type V = DesktopView;

    open spec fn view(&self) -> DesktopView {
        DesktopView {
            user: self.user,
            channels: self.channels,
            inbox: self.inbox@,
            fragments: self.fragments@,
            clipboard: self.clipboard@,
            drive: drive_view(self.drive),
            unlock: self.unlock,
        }
    }
}

/// What follows from a message of the server.
pub enum Reaction {
    Nothing,
    /// Send these, whether or not that succeeds.
    Reactivate(Vec<Vec<u8>>),
    /// Send these; then tell of the text, where there is one.
    Clipboard { pdus: Vec<Vec<u8>>, text: Option<String> },
    /// Take this step on the mapped folder.
    Drive(DriveStep),
}

/// What a [`Reaction`] says.
#[verifier::ext_equal]
pub enum ReactionView {
    Nothing,
    Reactivate(Seq<Seq<u8>>),
    Clipboard { pdus: Seq<Seq<u8>>, text: Option<Seq<char>> },
    Drive(StepView),
}

impl View for Reaction {
    type V = ReactionView;

    open spec fn view(&self) -> ReactionView {
        match *self {
            Reaction::Nothing => ReactionView::Nothing,
            Reaction::Reactivate(pdus) => ReactionView::Reactivate(all_bytes(pdus@)),
            Reaction::Clipboard { pdus, text } => ReactionView::Clipboard {
                pdus: all_bytes(pdus@),
                text: text_view(text),
            },
            Reaction::Drive(step) => ReactionView::Drive(step@),
        }
    }
}

/// The session, the screen, and what is to be done.
#[verifier::ext_equal]
pub struct Outcome {
    pub desktop: DesktopView,
    pub screen: ScreenView,
    pub reaction: ReactionView,
}

/// Whether a message came on the channel `id`, where there is such a channel.
pub open spec fn came_on(message: Seq<u8>, id: Option<u16>) -> bool {
    match (id, channel_message(message)) {
        (Some(id), Some((channel, _))) => channel == id,
        _ => false,
    }
}

impl ScreenView {
    /// With one more message counted.
    pub open spec fn with_message(self) -> ScreenView {
        self.counting(
            DebugCounters { pdus: bumped(self.stats.counters.pdus), ..self.stats.counters },
        )
    }
}

impl DesktopView {
    /// What follows from a message of the server.
    pub open spec fn handled(self, screen: ScreenView, message: Seq<u8>) -> Outcome {
        let counted = screen.with_message();
        let quiet = Outcome { desktop: self, screen: counted, reaction: ReactionView::Nothing };
        if message[0] != 3 {
            let output = fastpath_outcome(
                message,
                self.fragments,
                screen.stats.counters.fastpath_orders,
            );
            Outcome {
                desktop: DesktopView { fragments: output.fragments, ..self },
                screen: counted.counting(
                    DebugCounters {
                        fastpath_orders: output.orders,
                        ..counted.stats.counters
                    },
                ).received(output.updates),
                reaction: ReactionView::Nothing,
            }
        } else if demands_active(message) {
            Outcome {
                reaction: ReactionView::Reactivate(
                    activation_packets(
                        self.user,
                        screen.picture.width as u16,
                        screen.picture.height as u16,
                    ),
                ),
                ..quiet
            }
        } else if came_on(message, self.channels.clipboard) {
            let outcome = self.clipboard.packet_handled(
                self.user,
                self.channels.clipboard->0,
                message,
            );
            Outcome {
                desktop: DesktopView { clipboard: outcome.state, ..self },
                reaction: ReactionView::Clipboard {
                    pdus: outcome.responses,
                    text: outcome.remote_text,
                },
                ..quiet
            }
        } else if came_on(message, self.channels.drive) {
            match self.drive {
                Some(drive) => {
                    let (next, step) = drive.payload_outcome((channel_message(message)->0).1);
                    Outcome {
                        desktop: DesktopView { drive: Some(next), ..self },
                        reaction: ReactionView::Drive(step),
                        ..quiet
                    }
                },
                None => quiet,
            }
        } else {
            Outcome { screen: counted.received(packet_rectangles(message)), ..quiet }
        }
    }

    /// What follows from the first message that has come.
    pub open spec fn first_handled(self, screen: ScreenView) -> Outcome {
        DesktopView { inbox: behind_first(self.inbox), ..self }.handled(
            screen,
            first_message(self.inbox),
        )
    }

    /// What is kept once every complete message has been dealt with.
    pub open spec fn settled(self) -> DesktopView {
        DesktopView {
            inbox: if self.inbox.len() > MAX_KEPT {
                Seq::empty()
            } else {
                self.inbox
            },
            ..self
        }
    }
}

impl Desktop {
    /// A session that has just become active at `now`.
    pub fn new(
        user: u16,
        channels: StaticChannels,
        drive: Option<RdpdrState>,
        unlock: AutoUnlockPolicy,
        debug: bool,
        now: u64,
    ) -> (desktop: Self)
        requires
            now + unlock.initial_delay <= u64::MAX,
        ensures
            desktop@.user == user,
            desktop@.channels == channels,
            desktop@.inbox == Seq::<u8>::empty(),
            desktop@.fragments == (FragmentView { code: 0, data: Seq::empty(), active: false }),
            desktop@.clipboard == (ClipboardView {
                local_text: Seq::empty(),
                chunks: crate::channel::ChunksView::none(),
                pending_remote_format: None,
                debug,
            }),
            desktop@.drive == drive_view(drive),
            desktop@.unlock == (if unlock.enabled {
                AutoUnlockState::CheckBlank { deadline: (now + unlock.initial_delay) as u64 }
            } else {
                AutoUnlockState::Disabled
            }),
    {
        let mut clipboard = ClipboardChannelState::default();
        clipboard.debug = debug;
        let unlock = if unlock.enabled {
            AutoUnlockState::CheckBlank { deadline: now + unlock.initial_delay }
        } else {
            AutoUnlockState::Disabled
        };
        Desktop {
            user,
            channels,
            inbox: Inbox::new(),
            fragments: FastPathFragmentState::default(),
            clipboard,
            drive,
            unlock,
        }
    }

    /// Takes in what the server sent.
    pub fn receive(&mut self, screen: &mut Screen, data: &[u8])
        requires
            old(self)@.inbox.len() + data@.len() <= usize::MAX / 8,
            old(screen).wf(),
        ensures
            final(self)@ == (DesktopView { inbox: old(self)@.inbox + data@, ..old(self)@ }),
            final(screen)@ == old(screen)@.counting(
                DebugCounters {
                    read_bytes: raised(
                        old(screen)@.stats.counters.read_bytes,
                        data@.len() as usize,
                    ),
                    ..old(screen)@.stats.counters
                },
            ),
            final(screen).wf(),
    {
        screen.stats.counters.read_bytes = raise(screen.stats.counters.read_bytes, data.len());
        self.inbox.receive(data);
    }

    /// Deals with the first message, where it is complete, and tells what is to
    /// be done; none once no complete message is left.
    #[verifier::rlimit(50)]
    pub fn next(&mut self, screen: &mut Screen) -> (res: Option<Reaction>)
        requires
            old(screen).wf(),
        ensures
            final(screen).wf(),
            match res {
                Some(reaction) => has_message(old(self)@.inbox) && (Outcome {
                    desktop: final(self)@,
                    screen: final(screen)@,
                    reaction: reaction@,
                }) == old(self)@.first_handled(old(screen)@),
                None => {
                    &&& !has_message(old(self)@.inbox)
                    &&& final(self)@ == old(self)@.settled()
                    &&& final(screen)@ == old(screen)@
                },
            },
    {
        let message = match self.inbox.first() {
            Some(message) => message,
            None => {
                self.inbox.trim();
                return None;
            },
        };
        let n = message.len();
        let mut reaction = Reaction::Nothing;
        if message[0] != 3 {
            let found = process_fastpath_output(message, &mut self.fragments, &mut screen.stats);
            proof {
                lemma_output_addressable(
                    message@,
                    old(self)@.fragments,
                    old(screen)@.stats.counters.fastpath_orders,
                );
            }
            screen.stats.counters.pdus = bump(screen.stats.counters.pdus);
            draw_found(screen, found);
        } else {
            screen.stats.counters.pdus = bump(screen.stats.counters.pdus);
            if is_demand_active_pdu(message) {
                reaction =
                Reaction::Reactivate(
                    build_activation(
                        self.user,
                        screen.picture.width as u16,
                        screen.picture.height as u16,
                    ),
                );
            } else if on_channel(message, self.channels.clipboard) {
                if let Some(id) = self.channels.clipboard {
                    let result = process_cliprdr_packet(
                        message,
                        self.user,
                        id,
                        &mut self.clipboard,
                    );
                    reaction =
                    Reaction::Clipboard { pdus: result.responses, text: result.remote_text };
                }
            } else if on_channel(message, self.channels.drive) {
                if let Some((_, payload)) = server_mcs_payload(message) {
                    if let Some(drive) = &mut self.drive {
                        reaction = Reaction::Drive(drive.process_channel_payload(payload));
                    }
                }
            } else {
                proof {
                    lemma_packet_addressable(message@);
                }
                let found = process_incoming_pdu(message);
                draw_found(screen, found);
            }
        }
        self.inbox.skip(n);
        Some(reaction)
    }
}

/// Every rectangle that was received can be addressed.
proof fn lemma_output_addressable(s: Seq<u8>, fragments: FragmentView, orders: usize)
    ensures
        forall|i: int|
            0 <= i < fastpath_outcome(s, fragments, orders).updates.len() ==> addressable(
                #[trigger] fastpath_outcome(s, fragments, orders).updates[i],
            ),
{
    lemma_fragments_addressable(
        s,
        if s[1] >= 128 {
            3
        } else {
            2
        },
        fragments,
        orders,
    );
}

/// Every rectangle that was received can be addressed.
proof fn lemma_packet_addressable(s: Seq<u8>)
    ensures
        forall|i: int|
            0 <= i < packet_rectangles(s).len() ==> addressable(#[trigger] packet_rectangles(s)[i]),
{
    if s.len() >= 15 {
        let share = if s[13] >= 128 {
            15int
        } else {
            14int
        };
        if share + 20 <= s.len() {
            let update = s.skip(share + 18).skip(2);
            lemma_rectangles_addressable(update.skip(2), le16_at(update, 0) as nat);
        }
    }
}

/// Takes in bitmaps, where there are any.
fn draw_found(screen: &mut Screen, found: Option<Vec<BitmapUpdate<'_>>>)
    requires
        old(screen).wf(),
        found matches Some(updates) ==> forall|i: int|
            0 <= i < updates@.len() ==> addressable(#[trigger] updates_view(updates@)[i]),
    ensures
        final(screen).wf(),
        forall|all: Seq<BitmapView>|
            some_updates(found, all) ==> final(screen)@ == #[trigger] old(screen)@.received(all),
{
    match found {
        Some(updates) => screen.receive(&updates),
        None => {
            assert forall|all: Seq<BitmapView>| some_updates(found, all) implies screen@
                == #[trigger] screen@.received(all) by {
                assert(all =~= Seq::empty());
            }
        },
    }
}

/// Whether a message came on the channel `id`, where there is such a channel.
fn on_channel(message: &[u8], id: Option<u16>) -> (on: bool)
    ensures
        on == came_on(message@, id),
{
    match (id, server_mcs_channel_id(message)) {
        (Some(id), Some(channel)) => channel == id,
        _ => false,
    }
}

/// What came on a channel of its own changes nothing of the picture.
pub proof fn channels_do_not_draw(desktop: DesktopView, screen: ScreenView, message: Seq<u8>)
    requires
        message[0] == 3,
        came_on(message, desktop.channels.clipboard) || came_on(message, desktop.channels.drive),
    ensures
        desktop.handled(screen, message).screen.picture == screen.picture,
{
}

// ---- The mapped folder ------------------------------------------------------

/// The packets that carry messages on a channel, one message after the other.
pub open spec fn carried(user: u16, channel: u16, messages: Seq<Seq<u8>>) -> Seq<Seq<u8>>
    decreases messages.len(),
{
    if messages.len() == 0 {
        Seq::empty()
    } else {
        carried(user, channel, messages.drop_last()) + channel_packets(
            user,
            channel,
            messages.last(),
        )
    }
}

impl Desktop {
    /// The packets that carry messages about the mapped folder; none without a
    /// channel for them.
    pub fn drive_packets(&self, messages: &Vec<Vec<u8>>) -> (pdus: Vec<Vec<u8>>)
        ensures
            all_bytes(pdus@) == (match self.channels.drive {
                Some(channel) => carried(self.user, channel, all_bytes(messages@)),
                None => Seq::empty(),
            }),
    {
        let mut pdus: Vec<Vec<u8>> = Vec::new();
        assert(all_bytes(pdus@) =~= Seq::<Seq<u8>>::empty());
        let channel = match self.channels.drive {
            Some(channel) => channel,
            None => return pdus,
        };
        let ghost all = all_bytes(messages@);
        let mut i: usize = 0;
        assert(all.take(0) =~= Seq::<Seq<u8>>::empty());
        while i < messages.len()
            invariant
                i <= messages@.len(),
                all == all_bytes(messages@),
                all_bytes(pdus@) == carried(self.user, channel, all.take(i as int)),
            decreases messages@.len() - i,
        {
            append_messages(
                &mut pdus,
                build_static_channel_message_pdus(self.user, channel, messages[i].as_slice()),
            );
            assert(all.take(i + 1).drop_last() =~= all.take(i as int));
            i += 1;
        }
        assert(all.take(i as int) =~= all);
        pdus
    }
}

// ---- Time -------------------------------------------------------------------

/// What is done to unlock a dark desktop.
pub enum UnlockStep {
    Wait,
    /// Send this, and tell when that is done.
    Wake(Vec<u8>),
    /// Send this, which types the password.
    Submit(Vec<u8>),
    /// The password has characters without a key.
    Unsupported,
    /// Nothing is left to do.
    Finish,
}

/// What an [`UnlockStep`] says.
#[verifier::ext_equal]
pub enum UnlockView {
    Wait,
    Wake(Seq<u8>),
    Submit(Seq<u8>),
    Unsupported,
    Finish,
}

impl View for UnlockStep {
    type V = UnlockView;

    open spec fn view(&self) -> UnlockView {
        match *self {
            UnlockStep::Wait => UnlockView::Wait,
            UnlockStep::Wake(pdus) => UnlockView::Wake(pdus@),
            UnlockStep::Submit(pdus) => UnlockView::Submit(pdus@),
            UnlockStep::Unsupported => UnlockView::Unsupported,
            UnlockStep::Finish => UnlockView::Finish,
        }
    }
}

impl AutoUnlockState {
    /// Whether there is still something to wait for.
    pub open spec fn pending(self) -> bool {
        self is CheckBlank || self is WakeSent
    }

    /// How unlocking goes on at `now`, and what is done: a desktop that is dark
    /// is woken, and the password typed once it was.
    pub open spec fn ticked(
        self,
        user: u16,
        dark: bool,
        password: Option<Seq<char>>,
        now: u64,
    ) -> (AutoUnlockState, UnlockView) {
        match self {
            AutoUnlockState::CheckBlank { deadline } if now >= deadline => if dark {
                (self, UnlockView::Wake(key_stroke(user, SHIFT_KEY)))
            } else {
                (AutoUnlockState::Done, UnlockView::Finish)
            },
            AutoUnlockState::WakeSent { deadline } if now >= deadline => (
                AutoUnlockState::Done,
                match password {
                    None => UnlockView::Finish,
                    Some(text) => match typed_line(user, text, true) {
                        Some(pdus) => UnlockView::Submit(pdus),
                        None => UnlockView::Unsupported,
                    },
                },
            ),
            _ => (self, UnlockView::Wait),
        }
    }

    /// Whether there is still something to wait for.
    pub fn is_pending(&self) -> (pending: bool)
        ensures
            pending == self.pending(),
    {
        match self {
            AutoUnlockState::CheckBlank { .. } => true,
            AutoUnlockState::WakeSent { .. } => true,
            _ => false,
        }
    }
}

/// The password is typed at most once, and only after the desktop was woken.
pub proof fn typed_once_after_waking(
    state: AutoUnlockState,
    user: u16,
    dark: bool,
    password: Option<Seq<char>>,
    now: u64,
)
    ensures
        state.ticked(user, dark, password, now).1 is Submit ==> state is WakeSent
            && state.ticked(user, dark, password, now).0 is Done,
        !state.pending() ==> state.ticked(user, dark, password, now) == (state, UnlockView::Wait),
{
}

impl Desktop {
    /// Tells that it is `now`, and what is done to unlock the desktop.
    pub fn tick_unlock(&mut self, screen: &Screen, password: Option<&str>, now: u64) -> (step:
        UnlockStep)
        ensures
            ({
                let (next, done) = old(self).unlock.ticked(
                    old(self).user,
                    screen@.picture.mostly_black(),
                    match password {
                        Some(text) => Some(text@),
                        None => None,
                    },
                    now,
                );
                &&& final(self)@ == (DesktopView { unlock: next, ..old(self)@ })
                &&& step@ == done
            }),
    {
        match self.unlock {
            AutoUnlockState::CheckBlank { deadline } => {
                if now < deadline {
                    return UnlockStep::Wait;
                }
                if screen.picture.is_mostly_black() {
                    UnlockStep::Wake(build_shift_pulse(self.user))
                } else {
                    self.unlock = AutoUnlockState::Done;
                    UnlockStep::Finish
                }
            },
            AutoUnlockState::WakeSent { deadline } => {
                if now < deadline {
                    return UnlockStep::Wait;
                }
                self.unlock = AutoUnlockState::Done;
                match password {
                    None => UnlockStep::Finish,
                    Some(text) => match build_text_input_pdus(self.user, text, true) {
                        Some(pdus) => UnlockStep::Submit(pdus),
                        None => UnlockStep::Unsupported,
                    },
                }
            },
            _ => UnlockStep::Wait,
        }
    }

    /// The desktop was woken at `now`.
    pub fn woken(&mut self, policy: AutoUnlockPolicy, now: u64)
        requires
            now + policy.wake_delay <= u64::MAX,
        ensures
            final(self)@ == (DesktopView {
                unlock: AutoUnlockState::WakeSent { deadline: (now + policy.wake_delay) as u64 },
                ..old(self)@
            }),
    {
        self.unlock = AutoUnlockState::WakeSent { deadline: now + policy.wake_delay };
    }

    /// The packets that keep the desktop awake, which are counted.
    pub fn keep_awake(&self, screen: &mut Screen) -> (pdus: Vec<u8>)
        requires
            old(screen).wf(),
        ensures
            pdus@ == key_stroke(self.user, SHIFT_KEY),
            final(screen).wf(),
            final(screen)@ == old(screen)@.counting(
                DebugCounters {
                    keep_awake_events: bumped(old(screen)@.stats.counters.keep_awake_events),
                    ..old(screen)@.stats.counters
                },
            ),
    {
        screen.stats.counters.keep_awake_events = bump(screen.stats.counters.keep_awake_events);
        build_shift_pulse(self.user)
    }
}

// ---- Failures ---------------------------------------------------------------

/// How reading from the server fails.
#[derive(Clone, Copy, Debug, PartialEq, Eq, Structural)]
pub enum ReadFailure {
    /// The server hung up.
    Closed,
    ConnectionReset,
    BrokenPipe,
    UnexpectedEof,
    Other,
}

impl ReadFailure {
    /// Whether another connection is tried: it is where the server is gone.
    pub fn reconnects(self) -> (again: bool)
        ensures
            again == (self != ReadFailure::Other),
    {
        match self {
            ReadFailure::Other => false,
            _ => true,
        }
    }
}

// ---- Commands ---------------------------------------------------------------

/// What the user, or the program on their behalf, asks of a session. A frame
/// is handed to `response_tx`.
#[derive(Debug)]
pub enum RdpCommand<T> {
    KeyboardInput { scancode: u16, is_pressed: bool },
    MouseInput { x: u16, y: u16, button: MouseButton, is_pressed: bool },
    MouseMove { x: u16, y: u16 },
    SetClipboardText { text: String },
    RequestFrame { response_tx: T },
    Disconnect,
}

/// What is done for it.
pub enum CommandStep<T> {
    /// Send this, whether or not that succeeds.
    Offer(Vec<u8>),
    /// Send these.
    Announce(Vec<Vec<u8>>),
    /// Hand out the picture.
    Answer { response_tx: T, picture: Arc<Vec<u8>> },
    /// Send this, whether or not that succeeds, and end the session.
    Finish(Vec<u8>),
}

/// What a [`CommandStep`] says.
#[verifier::ext_equal]
pub enum CommandView<T> {
    Offer(Seq<u8>),
    Announce(Seq<Seq<u8>>),
    Answer { response_tx: T, picture: Seq<u8> },
    Finish(Seq<u8>),
}

impl<T> View for CommandStep<T> {
    type V = CommandView<T>;

    open spec fn view(&self) -> CommandView<T> {
        match *self {
            CommandStep::Offer(pdu) => CommandView::Offer(pdu@),
            CommandStep::Announce(pdus) => CommandView::Announce(all_bytes(pdus@)),
            CommandStep::Answer { response_tx, picture } => CommandView::Answer {
                response_tx,
                picture: picture@,
            },
            CommandStep::Finish(pdu) => CommandView::Finish(pdu@),
        }
    }
}

/// The screen after there was input at `now`.
pub open spec fn touched(screen: ScreenView, now: u64) -> ScreenView {
    ScreenView { pacer: FramePacer { last_input: now, ..screen.pacer }, ..screen }
}

impl DesktopView {
    /// What is done for a command.
    pub open spec fn asked<T>(self, screen: ScreenView, command: RdpCommand<T>) -> CommandView<T> {
        match command {
            RdpCommand::KeyboardInput { scancode, is_pressed } => CommandView::Offer(
                key_event(self.user, scancode, is_pressed),
            ),
            RdpCommand::MouseInput { x, y, button, is_pressed } => CommandView::Offer(
                button_event(self.user, x, y, button, is_pressed),
            ),
            RdpCommand::MouseMove { x, y } => CommandView::Offer(
                move_event(self.user, x, y),
            ),
            RdpCommand::SetClipboardText { .. } => CommandView::Announce(
                match self.channels.clipboard {
                    Some(id) => clip_packets(self.user, id, CB_FORMAT_LIST, 0, offered_formats()),
                    None => Seq::empty(),
                },
            ),
            RdpCommand::RequestFrame { response_tx } => CommandView::Answer {
                response_tx,
                picture: screen.answer(),
            },
            RdpCommand::Disconnect => CommandView::Finish(
                sent(self.user, IO_CHANNEL, shutdown_data(self.user)),
            ),
        }
    }
}

impl Desktop {
    /// Carries out a command that came at `now`.
    pub fn command<T>(&mut self, screen: &mut Screen, command: RdpCommand<T>, now: u64) -> (step:
        CommandStep<T>)
        requires
            old(screen).wf(),
        ensures
            final(screen).wf(),
            step@ == old(self)@.asked(old(screen)@, command),
            final(self)@ == (match command {
                RdpCommand::SetClipboardText { text } => DesktopView {
                    clipboard: ClipboardView { local_text: text@, ..old(self)@.clipboard },
                    ..old(self)@
                },
                _ => old(self)@,
            }),
            final(screen)@ == (match command {
                RdpCommand::KeyboardInput { .. } => touched(old(screen)@, now),
                RdpCommand::MouseInput { .. } => touched(old(screen)@, now),
                RdpCommand::MouseMove { .. } => touched(old(screen)@, now),
                RdpCommand::RequestFrame { .. } => old(screen)@.requested(),
                _ => old(screen)@,
            }),
    {
        match command {
            RdpCommand::KeyboardInput { scancode, is_pressed } => {
                screen.pacer.record_input(now);
                CommandStep::Offer(build_keyboard_pdu(self.user, scancode, is_pressed))
            },
            RdpCommand::MouseInput { x, y, button, is_pressed } => {
                screen.pacer.record_input(now);
                CommandStep::Offer(build_mouse_button_pdu(self.user, x, y, button, is_pressed))
            },
            RdpCommand::MouseMove { x, y } => {
                screen.pacer.record_input(now);
                CommandStep::Offer(build_mouse_move_pdu(self.user, x, y))
            },
            RdpCommand::SetClipboardText { text } => {
                self.clipboard.local_text = text;
                let pdus = match self.channels.clipboard {
                    Some(id) => build_cliprdr_format_list(self.user, id),
                    None => Vec::new(),
                };
                assert(self.channels.clipboard is None ==> all_bytes(pdus@) =~= Seq::empty());
                CommandStep::Announce(pdus)
            },
            RdpCommand::RequestFrame { response_tx } => {
                let picture = screen.answer();
                CommandStep::Answer { response_tx, picture }
            },
            RdpCommand::Disconnect => CommandStep::Finish(build_shutdown_pdu(self.user)),
        }
    }
}

/// Where the mouse goes, while moves that wait are taken together.
pub struct MoveRun {
    pub x: u16,
    pub y: u16,
}

/// What follows from the next command that waits.
pub enum MoveStep<T> {
    /// Look for another.
    More(MoveRun),
    /// Carry out the move; then the command that is not part of it.
    Done { run: MoveRun, pending: Option<RdpCommand<T>> },
}

impl MoveRun {
    /// Takes in the next command that waits, where there is one: a move
    /// replaces the one before, anything else ends the run.
    pub fn follow<T>(self, waiting: Option<RdpCommand<T>>) -> (step: MoveStep<T>)
        ensures
            step == (match waiting {
                Some(RdpCommand::MouseMove { x, y }) => MoveStep::More(MoveRun { x, y }),
                _ => MoveStep::Done { run: self, pending: waiting },
            }),
    {
        match waiting {
            Some(RdpCommand::MouseMove { x, y }) => MoveStep::More(MoveRun { x, y }),
            other => MoveStep::Done { run: self, pending: other },
        }
    }
}

} // verus!
