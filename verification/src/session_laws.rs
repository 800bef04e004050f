//! What a session promises: how it is set up, what its messages, its time and its
//! commands lead to, and what its settings mean.

use vstd::prelude::*;

use crate::activation::{confirm_active_data, shutdown_data, synchronize_sequence};
use crate::bitmap::{decode_status, decoded_pixels, drawing, BitmapView};
use crate::channel::channel_packets;
use crate::clipboard::{clip_packets, offered_formats};
use crate::connect::{
    attach_request, attached, channel_from, client_info, confirmed, connect_initial,
    connection_request, encryption_from, encryption_wish, erect_request, join_request,
};
use crate::desktop::{
    came_on, carried, touched, AutoUnlockState, CommandView, DesktopView, RdpCommand, ReactionView,
    UnlockView,
};
use crate::errors::{ConnectStage, RdpError};
use crate::framebuffer::{total_area, DirtyRect, FrameEventView, PictureView};
use crate::framing::{demands_active, packet, sent};
use crate::framing_laws::{brings, carries, messages_are_sent_whole, messages_are_taken_out};
use crate::handshake::{
    activation_packets, attempt, joined_channels, Attempts, HandshakeView, Phase, StaticChannels,
};
use crate::inbox::{behind_first, first_message, has_message};
use crate::input::{button_event, key_event, key_stroke, move_event, typed_line, MouseButton};
use crate::licensing::{ActivationWait, WaitEvent};
use crate::policy::{
    clamped_setting, drive_char, drive_chars, drive_name, named_folder, switched_off, switched_on,
    AutoUnlockPolicy, FramePacer, FramePolicy, KeepAwakePolicy,
};
use crate::profile::ProfileView;
use crate::rle::RleDecodeStatus;
use crate::screen::{rectangle_counts, told_counts, undecoded_counts, ScreenView};
use crate::settings::{lookup, lookup_either, Entries};
use crate::stats::{bumped, raised, DebugCounters};
use crate::text::{parsed, trimmed};

verus! {

// ---- Setting up -------------------------------------------------------------

/// A connection is tried three times: at once and announced, and then twice after
/// half a second and silently.
pub proof fn connections_are_tried_three_times(made: u32)
    ensures
        ({
            let left = (Attempts { made }).left();
            &&& made < 3 ==> left.len() == 3 - made && left[0].number == made + 1
            &&& made >= 3 ==> left.len() == 0
        }),
        attempt(1).announce && attempt(1).pause_millis == 0,
        made != 1 ==> !attempt(made).announce && attempt(made).pause_millis == 500,
{
}

/// The server is first asked for encryption. Where it refuses, it is asked again
/// without; where it refuses that too, or hangs up, the connection fails.
pub proof fn encryption_is_asked_for_first(
    profile: ProfileView,
    drive_enabled: bool,
    answer: Seq<u8>,
)
    ensures
        Phase::Negotiating.entered(profile, drive_enabled) == HandshakeView::Exchange(
            seq![connection_request(profile.username, seq![1u8, 0, 8, 0, 1, 0, 0, 0])],
        ),
        Phase::NegotiatingPlain.entered(profile, drive_enabled) == HandshakeView::Reconnect(
            connection_request(profile.username, Seq::empty()),
        ),
        answer.len() > 0 ==> match confirmed(answer) {
            Ok(protocol) => {
                &&& Phase::Negotiating.after(drive_enabled, answer) == (Phase::Connecting {
                    protocol,
                    encrypted: protocol > 0,
                })
                &&& Phase::NegotiatingPlain.after(drive_enabled, answer) == (Phase::Connecting {
                    protocol,
                    encrypted: false,
                })
            },
            Err(error) => {
                &&& Phase::Negotiating.after(drive_enabled, answer) is NegotiatingPlain
                &&& Phase::NegotiatingPlain.after(drive_enabled, answer) == Phase::Failed(error)
            },
        },
{
    assert(encryption_wish() =~= seq![1u8, 0, 8, 0, 1, 0, 0, 0]);
}

/// A server that hangs up is told of with the step that it hung up at.
pub proof fn hanging_up_is_told(
    protocol: u8,
    encrypted: bool,
    channels: StaticChannels,
    level: u32,
    user: u16,
    joining: usize,
    drive_enabled: bool,
)
    ensures
        Phase::Negotiating.after(drive_enabled, Seq::empty()) == Phase::Failed(
            RdpError::Closed(ConnectStage::Negotiation),
        ),
        Phase::NegotiatingPlain.after(drive_enabled, Seq::empty()) == Phase::Failed(
            RdpError::Closed(ConnectStage::PlainNegotiation),
        ),
        (Phase::Connecting { protocol, encrypted }).after(drive_enabled, Seq::empty())
            == Phase::Failed(RdpError::Closed(ConnectStage::Connect)),
        (Phase::Attaching { channels, encryption_level: level }).after(
            drive_enabled,
            Seq::empty(),
        ) == Phase::Failed(RdpError::Closed(ConnectStage::AttachUser)),
        (Phase::Joining { channels, encryption_level: level, user, joining }).after(
            drive_enabled,
            Seq::empty(),
        ) == Phase::Failed(RdpError::Closed(ConnectStage::ChannelJoin)),
{
}

/// Connecting asks for the size of the desktop with the protocol that was chosen;
/// the answer gives the numbers of the channels, first the clipboard and then, with
/// a mapped folder, its channel, and the encryption level.
pub proof fn connecting_gives_the_channels(
    profile: ProfileView,
    protocol: u8,
    encrypted: bool,
    drive_enabled: bool,
    answer: Seq<u8>,
)
    requires
        answer.len() > 0,
    ensures
        ({
            let phase = Phase::Connecting { protocol, encrypted };
            &&& phase.entered(profile, drive_enabled) == (HandshakeView::Proceed {
                encrypted,
                pdu: connect_initial(profile.width, profile.height, protocol, drive_enabled),
            })
            &&& phase.after(drive_enabled, answer) matches Phase::Attaching {
                channels,
                encryption_level,
            } && channels.clipboard == channel_from(answer, 0, 0) && channels.drive == (
            if drive_enabled {
                channel_from(answer, 0, 1)
            } else {
                None
            }) && encryption_level == encryption_from(answer, 0)
        }),
{
}

/// The user is attached, and then joins one channel after another: its own, that
/// of the picture and the input, the clipboard and the mapped folder, as far as
/// the server gave them numbers. Then it signs in, with the level that was agreed.
pub proof fn channels_are_joined_in_order(
    profile: ProfileView,
    channels: StaticChannels,
    level: u32,
    user: u16,
    joining: usize,
    drive_enabled: bool,
    answer: Seq<u8>,
)
    requires
        answer.len() > 0,
    ensures
        ({
            let attaching = Phase::Attaching { channels, encryption_level: level };
            &&& attaching.entered(profile, drive_enabled) == HandshakeView::Exchange(
                seq![erect_request(), attach_request()],
            )
            &&& match attached(answer) {
                Ok(given) => attaching.after(drive_enabled, answer) == (Phase::Joining {
                    channels,
                    encryption_level: level,
                    user: given,
                    joining: 0,
                }),
                Err(error) => attaching.after(drive_enabled, answer) == Phase::Failed(error),
            }
        }),
        ({
            let all = joined_channels(user, channels);
            let phase = Phase::Joining { channels, encryption_level: level, user, joining };
            &&& all.len() == 2 + (if channels.clipboard is Some { 1int } else { 0 }) + (
            if channels.drive is Some { 1int } else { 0 })
            &&& all[0] == user
            &&& all[1] == 1003
            &&& channels.clipboard matches Some(id) ==> all[2] == id
            &&& channels.drive matches Some(id) ==> all.last() == id
            &&& joining < all.len() ==> phase.entered(profile, drive_enabled)
                == HandshakeView::Exchange(seq![join_request(user, all[joining as int])])
            &&& joining + 1 < all.len() ==> phase.after(drive_enabled, answer) == (Phase::Joining {
                channels,
                encryption_level: level,
                user,
                joining: (joining + 1) as usize,
            })
            &&& joining + 1 == all.len() ==> phase.after(drive_enabled, answer) == (
            Phase::Waiting {
                channels,
                encryption_level: level,
                wait: ActivationWait { user_channel_id: user, packets: 0 },
            })
        }),
        (Phase::Waiting {
            channels,
            encryption_level: level,
            wait: ActivationWait { user_channel_id: user, packets: 0 },
        }).entered(profile, drive_enabled) == HandshakeView::Await(
            seq![client_info(user, profile, level)],
        ),
{
}

/// Activation is answered for the size of the desktop; the session then has the
/// user and the channels that it was set up with.
pub proof fn activation_is_answered(
    profile: ProfileView,
    channels: StaticChannels,
    level: u32,
    wait: ActivationWait,
    event: WaitEvent<'_>,
)
    requires
        wait.packets < 60,
    ensures
        ({
            let phase = Phase::Waiting { channels, encryption_level: level, wait };
            let outcome = wait.outcome(event);
            &&& outcome.verdict == Some(Ok::<bool, RdpError>(true)) ==> phase.after_wait(event) == (
            Phase::Active { channels, user: wait.user_channel_id }) && phase.waited(profile, event)
                == HandshakeView::Activate(
                seq![
                    sent(
                        wait.user_channel_id,
                        1003,
                        confirm_active_data(wait.user_channel_id, profile.width, profile.height),
                    ),
                    synchronize_sequence(wait.user_channel_id),
                ],
            )
            &&& outcome.verdict == Some(Ok::<bool, RdpError>(false)) ==> phase.after_wait(event)
                == Phase::Failed(RdpError::NotActivated)
            &&& outcome.verdict is None ==> (phase.after_wait(event) matches Phase::Waiting {
                channels: c,
                encryption_level: l,
                wait: w,
            } && c == channels && l == level && w.packets == wait.packets + 1
                && w.user_channel_id == wait.user_channel_id) && phase.waited(profile, event)
                == HandshakeView::Await(
                match outcome.reply {
                    Some(reply) => seq![reply],
                    None => Seq::empty(),
                },
            )
        }),
{
}

// ---- Messages ---------------------------------------------------------------

/// Packets are taken from the stream one by one, whatever comes behind them.
pub proof fn packets_are_taken_one_by_one(data: Seq<u8>, rest: Seq<u8>)
    requires
        7 + data.len() <= 0xFFFF,
    ensures
        has_message(packet(data) + rest),
        first_message(packet(data) + rest) == packet(data),
        behind_first(packet(data) + rest) == rest,
        !has_message(packet(data).drop_last()),
        !has_message(Seq::empty()),
{
    crate::framing::packet_is_one_message(data, rest);
    crate::framing_laws::packets_are_whole(data);
    let s = packet(data) + rest;
    assert(first_message(s) =~= packet(data));
    assert(behind_first(s) =~= rest);
    let short = packet(data).drop_last();
    assert(short.len() >= 6);
    assert(short[0] == packet(data)[0] && short[2] == packet(data)[2] && short[3] == packet(
        data,
    )[3]);
    crate::fields::numbers_are_read(short, 2);
}

/// What waits for the rest of its message is kept up to half a megabyte.
pub proof fn too_much_is_dropped(desktop: DesktopView)
    ensures
        desktop.inbox.len() > 524_288 ==> desktop.settled().inbox.len() == 0,
        desktop.inbox.len() <= 524_288 ==> desktop.settled() == desktop,
        desktop.settled() == (DesktopView { inbox: desktop.settled().inbox, ..desktop }),
{
}

/// A message came on a channel where its header says so.
pub proof fn channels_are_told_apart(
    message: Seq<u8>,
    channel: u16,
    data: Seq<u8>,
    id: Option<u16>,
)
    requires
        data.len() < 0x4000,
        brings(message, channel as int, data),
    ensures
        came_on(message, id) == (id == Some(channel)),
{
    messages_are_taken_out(message, channel, data);
}

/// What comes on the channel of mapped folders is handed to the folder, and
/// nothing else is touched but the count of messages.
pub proof fn folder_messages_reach_the_folder(
    desktop: DesktopView,
    screen: ScreenView,
    message: Seq<u8>,
    channel: u16,
    data: Seq<u8>,
)
    requires
        data.len() < 0x4000,
        brings(message, channel as int, data),
        !demands_active(message),
        desktop.channels.drive == Some(channel),
        desktop.channels.clipboard != Some(channel),
        desktop.drive is Some,
    ensures
        ({
            let outcome = desktop.handled(screen, message);
            let (folder, step) = desktop.drive->0.payload_outcome(data);
            &&& outcome.reaction == ReactionView::Drive(step)
            &&& outcome.desktop == (DesktopView { drive: Some(folder), ..desktop })
            &&& outcome.screen.picture == screen.picture
            &&& outcome.screen.pacer == screen.pacer
        }),
{
    messages_are_taken_out(message, channel, data);
}

/// What comes on the channel of the clipboard is handed to the clipboard, and
/// nothing else is touched but the count of messages.
pub proof fn clipboard_messages_reach_the_clipboard(
    desktop: DesktopView,
    screen: ScreenView,
    message: Seq<u8>,
    channel: u16,
    data: Seq<u8>,
)
    requires
        data.len() < 0x4000,
        brings(message, channel as int, data),
        !demands_active(message),
        desktop.channels.clipboard == Some(channel),
    ensures
        ({
            let outcome = desktop.handled(screen, message);
            let result = desktop.clipboard.packet_handled(desktop.user, channel, message);
            &&& outcome.reaction == (ReactionView::Clipboard {
                pdus: result.responses,
                text: result.remote_text,
            })
            &&& outcome.desktop == (DesktopView { clipboard: result.state, ..desktop })
            &&& outcome.screen.picture == screen.picture
            &&& outcome.screen.pacer == screen.pacer
        }),
{
    messages_are_taken_out(message, channel, data);
}

/// A demand for activation during a session is answered for the size that the
/// picture has; nothing is drawn.
pub proof fn activation_is_answered_again(
    desktop: DesktopView,
    screen: ScreenView,
    message: Seq<u8>,
)
    requires
        demands_active(message),
    ensures
        ({
            let outcome = desktop.handled(screen, message);
            &&& outcome.reaction == ReactionView::Reactivate(
                activation_packets(
                    desktop.user,
                    screen.picture.width as u16,
                    screen.picture.height as u16,
                ),
            )
            &&& outcome.desktop == desktop
            &&& outcome.screen.picture == screen.picture
        }),
{
    crate::framing_laws::only_whole_messages_are_taken(message);
}

/// Every message is counted, once; a counter that is full begins again.
pub proof fn messages_are_counted(screen: ScreenView)
    ensures
        ({
            let next = screen.with_message();
            &&& next.stats.counters.pdus == bumped(screen.stats.counters.pdus)
            &&& next.stats.counters == (DebugCounters {
                pdus: next.stats.counters.pdus,
                ..screen.stats.counters
            })
            &&& next.picture == screen.picture
            &&& next.pacer == screen.pacer
        }),
        screen.stats.counters.pdus < usize::MAX ==> bumped(screen.stats.counters.pdus)
            == screen.stats.counters.pdus + 1,
        bumped(usize::MAX) == 0,
{
}

// ---- Drawing ----------------------------------------------------------------

/// A rectangle that can be decoded and lies in the picture is drawn, and what it
/// covers is marked as changed; any other leaves the picture as it is.
pub proof fn rectangles_are_drawn_and_marked(screen: ScreenView, update: BitmapView)
    ensures
        ({
            let next = screen.updated(update);
            let width = screen.picture.width as u16;
            let height = screen.picture.height as u16;
            &&& next.pacer == screen.pacer
            &&& match decoded_pixels(update) {
                Some((pixels, top_down, stride)) => match drawing(
                    screen.picture.pixels.len(),
                    width,
                    height,
                    update,
                    pixels,
                    top_down,
                    stride,
                ) {
                    Some(plan) => next.picture == (PictureView {
                        pixels: plan.drawn(width, screen.picture.pixels),
                        ..screen.picture
                    }).marked(
                        DirtyRect {
                            x: update.x,
                            y: update.y,
                            width: plan.draw_width as u16,
                            height: plan.draw_height as u16,
                        },
                    ) && next.stats.counters.applied_rects == bumped(
                        screen.stats.counters.applied_rects,
                    ) && next.stats.counters.skipped_rects == screen.stats.counters.skipped_rects,
                    None => next.picture == screen.picture && next.stats.counters.skipped_rects
                        == bumped(screen.stats.counters.skipped_rects)
                        && next.stats.counters.applied_rects
                        == screen.stats.counters.applied_rects,
                },
                None => next.picture == screen.picture && next.stats.counters.skipped_rects
                    == bumped(screen.stats.counters.skipped_rects)
                    && next.stats.counters.applied_rects == screen.stats.counters.applied_rects,
            }
        }),
{
}

/// Rectangles are drawn one after another.
pub proof fn rectangles_are_drawn_in_order(
    screen: ScreenView,
    updates: Seq<BitmapView>,
    update: BitmapView,
)
    ensures
        screen.updated_all(updates.push(update)) == screen.updated_all(updates).updated(update),
        screen.updated_all(Seq::empty()) == screen,
{
    assert(updates.push(update).drop_last() =~= updates);
}

/// A rectangle whose bitmap has another size is noted; nothing else but the counts
/// changes with it.
pub proof fn other_sizes_are_noted(screen: ScreenView, update: BitmapView)
    ensures
        ({
            let next = screen.counted(update);
            let seen = rectangle_counts(screen.stats.counters, update);
            let same = update.bmp_width == update.width && update.bmp_height == update.height;
            &&& next.picture == screen.picture
            &&& next.pacer == screen.pacer
            &&& same ==> next.stats.counters == seen && next.stats.samples == screen.stats.samples
            &&& !same ==> next.stats.counters == (DebugCounters {
                size_mismatch: bumped(seen.size_mismatch),
                ..seen
            })
            &&& !same && screen.stats.enabled && screen.stats.samples.len() < 8
                ==> next.stats.samples.len() == screen.stats.samples.len() + 1
        }),
{
}

/// The messages of a channel are cut into packets one after the other.
pub proof fn messages_are_carried_in_order(
    user: u16,
    channel: u16,
    messages: Seq<Seq<u8>>,
    message: Seq<u8>,
)
    ensures
        carried(user, channel, Seq::empty()) == Seq::<Seq<u8>>::empty(),
        carried(user, channel, messages.push(message)) == carried(user, channel, messages)
            + channel_packets(user, channel, message),
{
    assert(messages.push(message).drop_last() =~= messages);
}

/// Each event that is told adds one to the events and its bytes to the bytes.
pub proof fn told_events_are_counted(
    counts: DebugCounters,
    events: Seq<FrameEventView>,
    event: FrameEventView,
)
    ensures
        told_counts(counts, Seq::empty()) == counts,
        ({
            let before = told_counts(counts, events);
            told_counts(counts, events.push(event)) == (DebugCounters {
                emitted_events: bumped(before.emitted_events),
                emitted_bytes: raised(before.emitted_bytes, event.data.len() as usize),
                ..before
            })
        }),
{
    assert(events.push(event).drop_last() =~= events);
}

/// Each rectangle is counted by whether it is compressed and by its depth, and
/// where it cannot be decoded by how that failed.
pub proof fn rectangles_are_counted(counts: DebugCounters, update: BitmapView)
    ensures
        ({
            let next = rectangle_counts(counts, update);
            &&& next.compressed_rects == (if update.compressed {
                bumped(counts.compressed_rects)
            } else {
                counts.compressed_rects
            })
            &&& next.uncompressed_rects == (if update.compressed {
                counts.uncompressed_rects
            } else {
                bumped(counts.uncompressed_rects)
            })
            &&& next.bpp15_rects == (if update.bpp == 15 {
                bumped(counts.bpp15_rects)
            } else {
                counts.bpp15_rects
            })
            &&& next.bpp16_rects == (if update.bpp == 16 {
                bumped(counts.bpp16_rects)
            } else {
                counts.bpp16_rects
            })
            &&& next.bpp24_rects == (if update.bpp == 24 {
                bumped(counts.bpp24_rects)
            } else {
                counts.bpp24_rects
            })
            &&& next.bpp32_rects == (if update.bpp == 32 {
                bumped(counts.bpp32_rects)
            } else {
                counts.bpp32_rects
            })
        }),
        ({
            let next = undecoded_counts(counts, update);
            let status = decode_status(update);
            &&& next.skipped_rects == bumped(counts.skipped_rects)
            &&& next.rle_partial == (if status == RleDecodeStatus::Partial {
                bumped(counts.rle_partial)
            } else {
                counts.rle_partial
            })
            &&& next.rle_invalid == (if status == RleDecodeStatus::Invalid {
                bumped(counts.rle_invalid)
            } else {
                counts.rle_invalid
            })
        }),
{
}

// ---- Telling of changes -----------------------------------------------------

/// Changes are told when the time has come, and then none is left; else they wait.
pub proof fn changes_are_told_in_time(screen: ScreenView, session: Seq<char>, now: u64)
    ensures
        ({
            let area = total_area(screen.picture.rects);
            let next = screen.ticked(session, now);
            let events = screen.due_events(session, now);
            let saving = screen.pacer.policy.bandwidth_saving;
            if screen.pacer.due(area, now) {
                &&& events == screen.picture.events(
                    session,
                    (if saving { 16 } else { 8 }),
                    saving,
                    screen.pacer.policy.stream_pixels,
                )
                &&& next.picture == screen.picture.drained()
                &&& next.pacer.last_emit == now
                &&& next.pacer.last_input == screen.pacer.last_input
                &&& next.pacer.policy == screen.pacer.policy
            } else {
                &&& events.len() == 0
                &&& next.picture == screen.picture
                &&& next.pacer == screen.pacer
            }
        }),
{
}

/// With the first picture all of it is told, as one change.
pub proof fn first_picture_is_told_whole(screen: ScreenView, session: Seq<char>)
    requires
        screen.picture.wf(),
        screen.picture.rects.len() == 0,
        0 < screen.picture.width <= u16::MAX,
        0 < screen.picture.height <= u16::MAX,
    ensures
        ({
            let events = screen.first_events(session);
            let next = screen.first_shown(session);
            &&& events.len() == 1
            &&& events[0].full_frame
            &&& events[0].rect.x == 0 && events[0].rect.y == 0
            &&& events[0].rect.width == screen.picture.width
            &&& events[0].rect.height == screen.picture.height
            &&& next.picture.rects.len() == 0
            &&& next.picture.pixels == screen.picture.pixels
        }),
{
    let marked = screen.renewed().picture;
    assert(marked.rects.len() == 1);
}

/// A request for the picture is answered with it, or with nothing where it has not
/// changed, and counted as one or the other.
pub proof fn requests_for_the_picture_are_answered(screen: ScreenView)
    ensures
        ({
            let next = screen.requested();
            let (picture, pixels) = screen.picture.requested();
            let before = screen.stats.counters;
            let after = next.stats.counters;
            &&& next.picture == picture
            &&& screen.answer() == (match pixels {
                Some(copy) => copy,
                None => Seq::empty(),
            })
            &&& after.frame_requests == bumped(before.frame_requests)
            &&& screen.answer().len() == 0 ==> after.frame_empty == bumped(before.frame_empty)
                && after.frame_hits == before.frame_hits
            &&& screen.answer().len() > 0 ==> after.frame_hits == bumped(before.frame_hits)
                && after.frame_empty == before.frame_empty
        }),
{
}

/// Pictures are shown 15 times a second to save bandwidth; else 60 times in the
/// quarter of a second after input, where that is wanted; else 30 times, or fewer
/// where that is wanted.
pub proof fn input_speeds_pictures_up(pacer: FramePacer, now: u64)
    requires
        pacer.policy.max_fps > 0,
    ensures
        ({
            let recent = now < pacer.last_input || now - pacer.last_input < 250_000_000;
            &&& pacer.policy.bandwidth_saving ==> pacer.rate(now) == 15
            &&& !pacer.policy.bandwidth_saving && recent && pacer.policy.max_fps >= 60
                ==> pacer.rate(now) == 60
            &&& !pacer.policy.bandwidth_saving && !(recent && pacer.policy.max_fps >= 60)
                ==> pacer.rate(now) == (if pacer.policy.max_fps < 30 {
                pacer.policy.max_fps as int
            } else {
                30
            })
        }),
{
}

/// So many pictures a second leave so much time between two, in whole
/// microseconds; a change is told once that time has passed.
pub proof fn pictures_share_a_second(pacer: FramePacer, area: nat, now: u64)
    requires
        pacer.rate(now) > 0,
    ensures
        pacer.interval(now) * pacer.rate(now) <= 1_000_000_000 < (pacer.interval(now) + 1000)
            * pacer.rate(now),
        pacer.interval(now) % 1000 == 0,
        now >= pacer.last_emit ==> pacer.due(area, now) == (area > 0 && now - pacer.last_emit
            >= pacer.interval(now)),
{
    let rate = pacer.rate(now) as int;
    let n = 1_000_000int / rate;
    assert(pacer.interval(now) == n * 1000);
    vstd::arithmetic::div_mod::lemma_fundamental_div_mod(1_000_000, rate);
    vstd::arithmetic::div_mod::lemma_mod_bound(1_000_000, rate);
    assert(n * 1000 * rate == rate * n * 1000) by (nonlinear_arith);
    assert((n * 1000 + 1000) * rate == (rate * n + rate) * 1000) by (nonlinear_arith);
}

// ---- Unlocking and commands -------------------------------------------------

/// A desktop that is dark when the time has come is woken by a stroke of shift;
/// one that is not is left alone.
pub proof fn dark_desktops_are_woken(
    deadline: u64,
    user: u16,
    dark: bool,
    password: Option<Seq<char>>,
    now: u64,
)
    ensures
        ({
            let state = AutoUnlockState::CheckBlank { deadline };
            let (next, step) = state.ticked(user, dark, password, now);
            if now < deadline {
                next == state && step is Wait
            } else if dark {
                next == state && step == UnlockView::Wake(key_stroke(user, 0x2A))
            } else {
                next is Done && step is Finish
            }
        }),
{
}

/// Once it was woken and the time has come, the password and enter are typed;
/// where there is none, or no keys for it, nothing is.
pub proof fn passwords_are_typed_with_enter(
    deadline: u64,
    user: u16,
    dark: bool,
    password: Option<Seq<char>>,
    now: u64,
)
    ensures
        ({
            let state = AutoUnlockState::WakeSent { deadline };
            let (next, step) = state.ticked(user, dark, password, now);
            if now < deadline {
                next == state && step is Wait
            } else {
                &&& next is Done
                &&& password is None ==> step is Finish
                &&& password matches Some(text) ==> step == (match typed_line(user, text, true) {
                    Some(strokes) => UnlockView::Submit(strokes),
                    None => UnlockView::Unsupported,
                })
            }
        }),
{
}

/// Keys, buttons and moves that are asked for are told to the server as they are.
pub proof fn input_is_told_as_asked(
    desktop: DesktopView,
    screen: ScreenView,
    scancode: u16,
    x: u16,
    y: u16,
    button: MouseButton,
    is_pressed: bool,
)
    ensures
        desktop.asked(screen, RdpCommand::<int>::KeyboardInput { scancode, is_pressed })
            == CommandView::<int>::Offer(key_event(desktop.user, scancode, is_pressed)),
        desktop.asked(screen, RdpCommand::<int>::MouseInput { x, y, button, is_pressed })
            == CommandView::<int>::Offer(button_event(desktop.user, x, y, button, is_pressed)),
        desktop.asked(screen, RdpCommand::<int>::MouseMove { x, y })
            == CommandView::<int>::Offer(move_event(desktop.user, x, y)),
{
}

/// Text that is copied is offered where there is a channel for it, the picture is
/// handed to who asks, and the end is asked of the server.
pub proof fn other_commands_are_obeyed(
    desktop: DesktopView,
    screen: ScreenView,
    text: String,
    receiver: int,
)
    requires
        1001 <= desktop.user,
    ensures
        desktop.asked(
            screen,
            RdpCommand::<int>::SetClipboardText { text },
        ) == CommandView::<int>::Announce(
            match desktop.channels.clipboard {
                Some(id) => clip_packets(desktop.user, id, 2, 0, offered_formats()),
                None => Seq::empty(),
            },
        ),
        desktop.asked(screen, RdpCommand::RequestFrame { response_tx: receiver }) == (
        CommandView::Answer { response_tx: receiver, picture: screen.answer() }),
        desktop.asked(screen, RdpCommand::<int>::Disconnect) matches CommandView::Finish(s)
            && carries(s, desktop.user as int, 1003, shutdown_data(desktop.user)),
{
    crate::activation_laws::session_messages_are_told(desktop.user, 0);
    messages_are_sent_whole(desktop.user, 1003, shutdown_data(desktop.user));
}

/// Input is remembered with its time, and changes nothing else.
pub proof fn input_is_remembered(screen: ScreenView, now: u64)
    ensures
        touched(screen, now).pacer.last_input == now,
        touched(screen, now).pacer.last_emit == screen.pacer.last_emit,
        touched(screen, now).pacer.policy == screen.pacer.policy,
        touched(screen, now).picture == screen.picture,
        touched(screen, now).stats == screen.stats,
{
}

// ---- Settings ---------------------------------------------------------------

/// Four words switch a setting on and four switch it off; no word does both.
pub proof fn switches_have_words(value: Seq<char>)
    ensures
        switched_on("1"@) && switched_on("true"@) && switched_on("yes"@) && switched_on("on"@),
        switched_off("0"@) && switched_off("false"@) && switched_off("no"@) && switched_off(
            "off"@,
        ),
        !(switched_on(value) && switched_off(value)),
        value.len() == 0 || value.len() > 5 ==> !switched_on(value) && !switched_off(value),
{
    reveal_strlit("1");
    reveal_strlit("true");
    reveal_strlit("yes");
    reveal_strlit("on");
    reveal_strlit("0");
    reveal_strlit("false");
    reveal_strlit("no");
    reveal_strlit("off");
    assert("1"@.len() == 1 && "true"@.len() == 4 && "yes"@.len() == 3 && "on"@.len() == 2);
    assert("0"@.len() == 1 && "false"@.len() == 5 && "no"@.len() == 2 && "off"@.len() == 3);
    assert("on"@[0] == 'o' && "no"@[0] == 'n');
    assert("1"@[0] == '1' && "0"@[0] == '0');
    assert("yes"@[0] == 'y' && "off"@[0] == 'o');
}

/// A number that is set is taken as it is between its bounds, and as the nearer
/// bound outside them; what is no number, or not set, is the default.
pub proof fn numbers_are_kept_in_bounds(
    value: Option<Seq<char>>,
    max: nat,
    low: nat,
    high: nat,
    default: nat,
)
    requires
        low <= high,
    ensures
        ({
            let n = clamped_setting(value, max, low, high, default);
            match value {
                Some(text) => match parsed(text, max) {
                    Some(m) => {
                        &&& low <= n <= high
                        &&& low <= m <= high ==> n == m
                        &&& m < low ==> n == low
                        &&& m > high ==> n == high
                    },
                    None => n == default,
                },
                None => n == default,
            }
        }),
{
}

/// A desktop is kept awake unless that is switched off, every half minute unless
/// another time from two seconds to five minutes is set.
pub proof fn desktops_are_kept_awake(extra: Entries)
    ensures
        ({
            let policy = KeepAwakePolicy::asked(extra);
            let switch = lookup_either(extra, "portix_keep_awake"@, "keep_awake"@);
            let time = lookup_either(
                extra,
                "portix_keep_awake_interval_seconds"@,
                "keep_awake_interval_seconds"@,
            );
            &&& policy.enabled == !(switch matches Some(value) && switched_off(value))
            &&& time is None ==> policy.interval_seconds == 30
            &&& time matches Some(text) ==> (parsed(text, u64::MAX as nat) is None
                ==> policy.interval_seconds == 30)
            &&& time matches Some(text) ==> (parsed(text, u64::MAX as nat) matches Some(n)
                ==> policy.interval_seconds == (if n < 2 {
                2
            } else if n > 300 {
                300
            } else {
                n as int
            }))
        }),
{
}

/// A desktop is unlocked only where that is switched on: two seconds after it came
/// it is looked at, and nine tenths of a second after it was woken it is unlocked.
pub proof fn unlocking_is_opt_in(extra: Entries)
    ensures
        ({
            let policy = AutoUnlockPolicy::asked(extra);
            let switch = lookup_either(extra, "portix_auto_unlock"@, "auto_unlock"@);
            &&& policy.enabled == (switch matches Some(value) && switched_on(value))
            &&& policy.initial_delay == 2_000_000_000
            &&& policy.wake_delay == 900_000_000
        }),
{
}

/// Pictures come 60 times a second unless another number from 15 to 60 is set;
/// bandwidth is saved, and pixels are sent along, where that is switched on, the
/// latter also from outside.
pub proof fn picture_settings_are_read(extra: Entries, environment: Option<Seq<char>>)
    ensures
        ({
            let policy = FramePolicy::asked(extra, environment);
            let rate = lookup_either(extra, "portix_fps"@, "fps"@);
            let saving = lookup_either(extra, "bandwidth_saving"@, "portix_bandwidth_saving"@);
            let stream = lookup_either(extra, "stream_pixels"@, "portix_stream_pixels"@);
            &&& rate is None ==> policy.max_fps == 60
            &&& rate matches Some(text) ==> (parsed(text, u16::MAX as nat) matches Some(n)
                ==> policy.max_fps == (if n < 15 {
                15
            } else if n > 60 {
                60
            } else {
                n as int
            }))
            &&& policy.bandwidth_saving == (saving matches Some(value) && switched_on(value))
            &&& stream matches Some(value) ==> policy.stream_pixels == switched_on(value)
            &&& stream is None ==> policy.stream_pixels == (environment matches Some(value)
                && switched_on(value))
        }),
{
}

/// The name of a mapped folder keeps digits, letters and underscores, in order,
/// and nothing else.
pub proof fn folder_names_keep_plain_characters(s: Seq<char>, c: char)
    ensures
        drive_char(c) ==> drive_chars(s.push(c)) == drive_chars(s).push(c),
        !drive_char(c) ==> drive_chars(s.push(c)) == drive_chars(s),
        drive_chars(Seq::empty()) == Seq::<char>::empty(),
        drive_char(c) == (('0' <= c && c <= '9') || ('A' <= c && c <= 'Z') || ('a' <= c && c <= 'z')
            || c == '_'),
{
    assert(s.push(c).drop_last() =~= s);
}

proof fn lemma_plain(s: Seq<char>)
    requires
        forall|i: int| 0 <= i < s.len() ==> drive_char(#[trigger] s[i]),
    ensures
        drive_chars(s) == s,
    decreases s.len(),
{
    if s.len() > 0 {
        let front = s.drop_last();
        assert forall|i: int| 0 <= i < front.len() implies drive_char(#[trigger] front[i]) by {
            assert(drive_char(s[i]));
        }
        lemma_plain(front);
        assert(drive_char(s[s.len() - 1]));
        assert(front.push(s.last()) =~= s);
    }
}

/// A plain name of at most seven characters is the name of the folder, and of a
/// longer one its first seven; without a name it is called PORTIX.
pub proof fn folders_are_named(extra: Entries, name: Seq<char>)
    requires
        lookup_either(extra, "portix_drive_name"@, "drive_name"@) == Some(name),
        trimmed(name) == name,
        name.len() > 0,
        forall|i: int| 0 <= i < name.len() ==> drive_char(#[trigger] name[i]),
    ensures
        name.len() <= 7 ==> drive_name(extra) == name,
        name.len() > 7 ==> drive_name(extra) == name.take(7),
{
    lemma_plain(name);
}

/// Without a name, or with one of other characters alone, a mapped folder is
/// called PORTIX.
pub proof fn unnamed_folders_have_a_name(extra: Entries)
    ensures
        ({
            let asked = lookup_either(extra, "portix_drive_name"@, "drive_name"@);
            &&& asked is None ==> drive_name(extra) == "PORTIX"@
            &&& asked matches Some(name) ==> (trimmed(name).len() > 0 && drive_chars(
                trimmed(name),
            ).len() == 0 ==> drive_name(extra) == "PORTIX"@)
        }),
        ({
            let asked = lookup_either(extra, "portix_drive_path"@, "drive_path"@);
            &&& asked is None ==> named_folder(extra) is None
            &&& asked matches Some(path) ==> (if trimmed(path).len() > 0 {
                named_folder(extra) == Some(trimmed(path))
            } else {
                named_folder(extra) is None
            })
        }),
{
    reveal_strlit("PORTIX");
    lemma_plain("PORTIX"@);
}

/// A setting is looked up under its first name, and only without one there under
/// its second.
pub proof fn first_names_come_first(extra: Entries, key: Seq<char>, other: Seq<char>)
    ensures
        lookup(extra, key) is Some ==> lookup_either(extra, key, other) == lookup(extra, key),
        lookup(extra, key) is None ==> lookup_either(extra, key, other) == lookup(extra, other),
{
}

} // verus!
