use std::sync::Arc;

use portix_serv::activation::{
    build_confirm_active_pdu, build_shutdown_pdu, build_synchronize_sequence,
};
use portix_serv::channel::build_static_channel_message_pdus;
use portix_serv::clipboard::{build_cliprdr_format_list, build_cliprdr_message_pdus, CF_UNICODETEXT};
use portix_serv::connect::{
    build_client_info_pdu, build_mcs_attach_user, build_mcs_channel_join,
    build_mcs_connect_initial, build_mcs_erect_domain, build_x224_connection_request,
    build_x224_connection_request_plain, parse_attach_user_confirm, parse_server_encryption_level,
    parse_x224_confirm,
};
use portix_serv::desktop::{
    AutoUnlockState, CommandStep, Desktop, MoveRun, MoveStep, RdpCommand, Reaction, ReadFailure,
    UnlockStep,
};
use portix_serv::drive::RdpdrState;
use portix_serv::errors::{ConnectStage, PortixError, RdpError};
use portix_serv::framing::{get_pdu_length, server_mcs_payload, wrap_mcs_send_data};
use portix_serv::handshake::{
    channels_to_join, Attempts, Handshake, HandshakeStep, Phase, StaticChannels,
};
use portix_serv::inbox::Inbox;
use portix_serv::input::{
    ascii_scancode, build_keyboard_pdu, build_mouse_button_pdu, build_mouse_move_pdu,
    build_shift_pulse, build_text_input_pdus, MouseButton,
};
use portix_serv::licensing::{
    build_client_new_license_request, build_client_platform_challenge_response,
    extract_license_payload, ActivationWait, WaitEvent,
};
use portix_serv::policy::{AutoUnlockPolicy, FramePolicy};
use portix_serv::profile::RdpProfile;
use portix_serv::screen::Screen;
use portix_serv::session::{
    begin_rdp_session, begin_shell_session, rdp_session_ended, shell_session_ended, status_event,
    ConnectionStatus, Sessions,
};
use portix_serv::settings::Settings;
use portix_serv::stats::RdpDebugStats;

fn profile() -> RdpProfile {
    RdpProfile {
        id: "p".to_owned(),
        name: "n".to_owned(),
        host: "h".to_owned(),
        port: 3389,
        username: "u".to_owned(),
        password: Some("secret".to_owned()),
        domain: None,
        width: 4,
        height: 4,
        screen_mode: 1,
        extra: Settings::new(),
    }
}

/// A packet from the server on a channel.
fn from_server(channel: u16, payload: &[u8]) -> Vec<u8> {
    let mut mcs = vec![0x68, 0, 3];
    mcs.extend_from_slice(&channel.to_be_bytes());
    mcs.push(0x70);
    mcs.extend_from_slice(&(0x8000 | payload.len() as u16).to_be_bytes());
    mcs.extend_from_slice(payload);
    let mut packet = vec![3, 0];
    packet.extend_from_slice(&(7 + mcs.len() as u16).to_be_bytes());
    packet.extend_from_slice(&[2, 0xF0, 0x80]);
    packet.extend_from_slice(&mcs);
    packet
}

fn share_control(kind: u16) -> Vec<u8> {
    let mut share = 6u16.to_le_bytes().to_vec();
    share.extend_from_slice(&kind.to_le_bytes());
    share.extend_from_slice(&1004u16.to_le_bytes());
    from_server(1003, &share)
}

fn confirm(protocol: u8) -> Vec<u8> {
    vec![3, 0, 0, 19, 14, 0xD0, 0, 0, 0, 0, 0, 2, 0, 8, 0, protocol, 0, 0, 0]
}

fn attached(offset: u16) -> Vec<u8> {
    let mut answer = vec![3, 0, 0, 11, 2, 0xF0, 0x80, 0x2E, 0];
    answer.extend_from_slice(&offset.to_be_bytes());
    answer
}

fn connect_answer(channels: &[u16]) -> Vec<u8> {
    let mut answer = vec![0x7F, 0x66, 0, 0];
    answer.extend_from_slice(&0x0C02u16.to_le_bytes());
    answer.extend_from_slice(&12u16.to_le_bytes());
    answer.extend_from_slice(&[0; 4]);
    answer.extend_from_slice(&1u32.to_le_bytes());
    answer.extend_from_slice(&0x0C03u16.to_le_bytes());
    answer.extend_from_slice(&(8 + 2 * channels.len() as u16).to_le_bytes());
    answer.extend_from_slice(&1003u16.to_le_bytes());
    answer.extend_from_slice(&(channels.len() as u16).to_le_bytes());
    for channel in channels {
        answer.extend_from_slice(&channel.to_le_bytes());
    }
    answer.push(0);
    answer
}

fn exchanged(step: HandshakeStep) -> Vec<Vec<u8>> {
    match step {
        HandshakeStep::Exchange(pdus) => pdus,
        _ => panic!("no exchange"),
    }
}

fn failure(step: HandshakeStep) -> RdpError {
    match step {
        HandshakeStep::Fail { pdus, error } => {
            assert!(pdus.is_empty());
            error
        }
        _ => panic!("no failure"),
    }
}

#[test]
fn a_connection_is_made_step_by_step() {
    let profile = profile();
    let (mut handshake, step) = Handshake::begin(&profile, true);
    assert_eq!(exchanged(step), [build_x224_connection_request(&profile)]);
    match handshake.answered(&profile, &confirm(1)) {
        HandshakeStep::Proceed { encrypted: true, pdu } => {
            assert_eq!(pdu, build_mcs_connect_initial(&profile, 1, true))
        }
        _ => panic!("not encrypted"),
    }
    let step = handshake.answered(&profile, &connect_answer(&[1005, 1006]));
    assert_eq!(
        exchanged(step),
        [build_mcs_erect_domain(), build_mcs_attach_user()]
    );
    let mut step = handshake.answered(&profile, &attached(6));
    for channel in [1007, 1003, 1005, 1006] {
        assert_eq!(exchanged(step), [build_mcs_channel_join(1007, channel)]);
        step = handshake.answered(&profile, &[1]);
    }
    match step {
        HandshakeStep::Await(pdus) => {
            assert_eq!(pdus, [build_client_info_pdu(1007, &profile, 1)])
        }
        _ => panic!("no wait"),
    }
    let demand = share_control(0x11);
    match handshake.awaited(&profile, WaitEvent::Received(&demand)) {
        HandshakeStep::Activate(pdus) => assert_eq!(
            pdus,
            [
                build_confirm_active_pdu(1007, 4, 4),
                build_synchronize_sequence(1007)
            ]
        ),
        _ => panic!("not active"),
    }
    assert!(matches!(
        handshake.phase,
        Phase::Active {
            user: 1007,
            channels: StaticChannels {
                clipboard: Some(1005),
                drive: Some(1006)
            }
        }
    ));
}

#[test]
fn a_server_that_refuses_is_asked_again_without_a_choice() {
    let profile = profile();
    let (mut handshake, _) = Handshake::begin(&profile, false);
    match handshake.answered(&profile, &confirm(2)) {
        HandshakeStep::Reconnect(pdu) => {
            assert_eq!(pdu, build_x224_connection_request_plain(&profile))
        }
        _ => panic!("no second try"),
    }
    match handshake.answered(&profile, &confirm(1)) {
        HandshakeStep::Proceed { encrypted: false, pdu } => {
            assert_eq!(pdu, build_mcs_connect_initial(&profile, 1, false))
        }
        _ => panic!("encrypted"),
    }
    handshake.answered(&profile, &connect_answer(&[1005, 1006]));
    assert!(matches!(
        handshake.phase,
        Phase::Attaching {
            encryption_level: 1,
            channels: StaticChannels {
                clipboard: Some(1005),
                drive: None
            }
        }
    ));
}

#[test]
fn every_step_tells_when_the_server_hangs_up() {
    let profile = profile();
    let (mut handshake, _) = Handshake::begin(&profile, false);
    assert_eq!(
        failure(handshake.answered(&profile, &[])),
        RdpError::Closed(ConnectStage::Negotiation)
    );
    let (mut handshake, _) = Handshake::begin(&profile, false);
    handshake.answered(&profile, &[9]);
    assert_eq!(
        failure(handshake.answered(&profile, &[])),
        RdpError::Closed(ConnectStage::PlainNegotiation)
    );
    let (mut handshake, _) = Handshake::begin(&profile, false);
    handshake.answered(&profile, &[9]);
    assert_eq!(
        failure(handshake.answered(&profile, &[9])),
        RdpError::ConfirmTooShort(1)
    );
    let (mut handshake, _) = Handshake::begin(&profile, false);
    handshake.answered(&profile, &confirm(0));
    assert_eq!(
        failure(handshake.answered(&profile, &[])),
        RdpError::Closed(ConnectStage::Connect)
    );
    let (mut handshake, _) = Handshake::begin(&profile, false);
    handshake.answered(&profile, &confirm(0));
    handshake.answered(&profile, &[0]);
    assert_eq!(
        failure(handshake.answered(&profile, &[])),
        RdpError::Closed(ConnectStage::AttachUser)
    );
    let (mut handshake, _) = Handshake::begin(&profile, false);
    handshake.answered(&profile, &confirm(0));
    handshake.answered(&profile, &[0]);
    handshake.answered(&profile, &attached(0));
    assert_eq!(
        failure(handshake.answered(&profile, &[])),
        RdpError::Closed(ConnectStage::ChannelJoin)
    );
    assert_eq!(
        failure(handshake.answered(&profile, &[1])),
        RdpError::NotActivated
    );
}

#[test]
fn answers_are_understood_or_refused() {
    assert_eq!(parse_x224_confirm(&confirm(1)), Ok(1));
    assert_eq!(parse_x224_confirm(&[3, 0, 0, 7, 2, 0xD0, 0]), Ok(0));
    assert_eq!(parse_x224_confirm(&[3; 6]), Err(RdpError::ConfirmTooShort(6)));
    assert_eq!(parse_x224_confirm(&[2; 7]), Err(RdpError::ConfirmVersion(2)));
    assert_eq!(parse_x224_confirm(&[3; 7]), Err(RdpError::NegotiationFailed(3)));
    assert_eq!(
        parse_x224_confirm(&confirm(8)),
        Err(RdpError::AuthenticationRequired)
    );
    assert_eq!(parse_attach_user_confirm(&attached(6)), Ok(1007));
    assert_eq!(parse_attach_user_confirm(&[0; 10]), Err(RdpError::AttachTooShort));
    assert_eq!(parse_attach_user_confirm(&[7; 11]), Err(RdpError::AttachUnexpected(7)));
    let mut refused = attached(6);
    refused[8] = 1;
    assert_eq!(parse_attach_user_confirm(&refused), Err(RdpError::AttachRefused));
    assert_eq!(parse_server_encryption_level(&connect_answer(&[])), 1);
    assert_eq!(parse_server_encryption_level(&[0; 40]), 0);
}

#[test]
fn errors_are_put_in_words() {
    assert_eq!(
        RdpError::ConfirmTooShort(6).message(),
        "X.224 confirm too short (6 bytes)"
    );
    assert_eq!(
        RdpError::ConfirmVersion(0x2B).message(),
        "Invalid TPKT version: 0x2B"
    );
    assert_eq!(
        RdpError::AttachUnexpected(7).message(),
        "Expected Attach User Confirm (0x2E), got 0x07"
    );
    assert_eq!(
        RdpError::TooManyAttempts.message(),
        "RDP: max reconnection attempts exceeded"
    );
    assert_eq!(
        RdpError::Closed(ConnectStage::Connect).message(),
        "Server closed during MCS Connect"
    );
}

#[test]
fn licences_are_answered_while_activation_is_awaited() {
    let request = from_server(1003, &[0x80, 0, 0, 0, 1, 0, 4, 0]);
    let mut wait = ActivationWait::new(1007);
    let step = wait.step(WaitEvent::Received(&request));
    assert_eq!(step.reply, Some(build_client_new_license_request(1007)));
    assert!(step.verdict.is_none());
    let challenge = from_server(1003, &[0x80, 0, 0, 0, 0x12, 0, 4, 0]);
    let step = wait.step(WaitEvent::Received(&challenge));
    assert_eq!(
        step.reply,
        Some(build_client_platform_challenge_response(1007))
    );
    let step = wait.step(WaitEvent::TimedOut);
    assert!(step.reply.is_none());
    assert!(matches!(step.verdict, Some(Ok(false))));
    assert_eq!(wait.packets, 2);
    let step = wait.step(WaitEvent::Received(&[]));
    assert!(matches!(step.verdict, Some(Ok(false))));
}

#[test]
fn a_wait_that_times_out_fails_as_one_without_a_demand() {
    let mut handshake = Handshake {
        phase: Phase::Waiting {
            channels: StaticChannels {
                clipboard: None,
                drive: None,
            },
            encryption_level: 0,
            wait: ActivationWait::new(1007),
        },
        drive_enabled: false,
    };
    let step = handshake.awaited(&profile(), WaitEvent::TimedOut);
    assert_eq!(failure(step), RdpError::NotActivated);
}

#[test]
fn a_licence_packet_shorter_than_its_headers_is_none() {
    let mut packet = from_server(1003, &[0x80, 0, 0, 0, 1, 0, 4, 0]);
    assert_eq!(extract_license_payload(&packet).map(|(_, body)| body.len()), Some(4));
    packet[3] = 18;
    assert!(extract_license_payload(&packet).is_none());
    packet[3] = 19;
    assert_eq!(extract_license_payload(&packet).map(|(_, body)| body.len()), Some(0));
    packet[3] = 2;
    let mut wait = ActivationWait::new(1007);
    let step = wait.step(WaitEvent::Received(&packet));
    assert!(step.reply.is_none());
    assert!(step.verdict.is_none());
}

#[test]
fn the_encryption_level_is_read_from_a_block_that_ends_the_answer() {
    let block = [0x02, 0x0C, 0x0C, 0x00, 0x01, 0, 0, 0, 0x02, 0, 0, 0];
    assert_eq!(parse_server_encryption_level(&block), 2);
    let mut longer = vec![9];
    longer.extend_from_slice(&block);
    assert_eq!(parse_server_encryption_level(&longer), 2);
    longer.push(7);
    assert_eq!(parse_server_encryption_level(&longer), 2);
    assert_eq!(parse_server_encryption_level(&block[..11]), 0);
    assert_eq!(parse_server_encryption_level(&[]), 0);
}

#[test]
fn only_the_first_connection_is_announced() {
    let mut attempts = Attempts::new();
    let mut screen = screen();
    let first = attempts.begin_attempt().unwrap();
    let (status, events) = screen.activate("s", &first);
    let status = status.unwrap();
    assert_eq!(status.session_id, "s");
    assert_eq!(status.status, ConnectionStatus::Connected);
    assert_eq!(status.message.as_deref(), Some("connected"));
    assert_eq!(events.len(), 1);
    screen.picture.write_buf[0] = 9;
    let second = attempts.begin_attempt().unwrap();
    let (status, events) = screen.activate("s", &second);
    assert!(status.is_none());
    assert!(events.is_empty());
    assert_eq!(screen.picture.write_buf[0], 0);
}

#[test]
fn the_wait_for_activation_ends_after_sixty_packets() {
    let request = from_server(1003, &[0x80, 0, 0, 0, 1, 0, 4, 0]);
    let channels = StaticChannels {
        clipboard: None,
        drive: None,
    };
    let mut handshake = Handshake {
        phase: Phase::Waiting {
            channels,
            encryption_level: 0,
            wait: ActivationWait::new(1007),
        },
        drive_enabled: false,
    };
    for _ in 0..59 {
        match handshake.awaited(&profile(), WaitEvent::Received(&request)) {
            HandshakeStep::Await(pdus) => assert_eq!(pdus.len(), 1),
            _ => panic!("the wait ended"),
        }
    }
    match handshake.awaited(&profile(), WaitEvent::Received(&request)) {
        HandshakeStep::Fail { pdus, error } => {
            assert_eq!(pdus, [build_client_new_license_request(1007)]);
            assert_eq!(error, RdpError::NotActivated);
        }
        _ => panic!("the wait goes on"),
    }
}

#[test]
fn a_connection_is_tried_three_times() {
    let mut attempts = Attempts::new();
    for number in 1..=3 {
        let attempt = attempts.begin_attempt().unwrap();
        assert_eq!(attempt.number, number);
        assert_eq!(attempt.announce, number == 1);
        assert_eq!(attempt.pause_millis, if number == 1 { 0 } else { 500 });
    }
    assert_eq!(attempts.begin_attempt(), Err(RdpError::TooManyAttempts));
    assert_eq!(attempts.begin_attempt(), Err(RdpError::TooManyAttempts));
    assert_eq!(
        channels_to_join(
            1007,
            StaticChannels {
                clipboard: None,
                drive: Some(9)
            }
        ),
        [1007, 1003, 9]
    );
}

#[test]
fn messages_do_not_depend_on_the_pieces_they_come_in() {
    let first = share_control(0x17);
    let second = vec![0x00, 5, 1, 2, 3];
    let mut stream = first.clone();
    stream.extend_from_slice(&second);
    stream.push(0x00);
    for cut in 0..=stream.len() {
        let mut inbox = Inbox::new();
        let mut seen: Vec<Vec<u8>> = Vec::new();
        for piece in [&stream[..cut], &stream[cut..]] {
            inbox.receive(piece);
            loop {
                let message = match inbox.first() {
                    Some(message) => message.to_vec(),
                    None => break,
                };
                inbox.skip(message.len());
                seen.push(message);
            }
            inbox.trim();
        }
        assert_eq!(seen, [first.clone(), second.clone()]);
        inbox.receive(&[2]);
        assert_eq!(inbox.first(), Some(&[0u8, 2][..]));
    }
}

#[test]
fn too_much_is_dropped() {
    let mut inbox = Inbox::new();
    inbox.receive(&vec![3; 600_000]);
    inbox.trim();
    assert_eq!(inbox.first(), None);
    inbox.receive(&[0, 2]);
    assert_eq!(inbox.first(), Some(&[0u8, 2][..]));
    inbox.trim();
    assert!(inbox.first().is_some());
}

#[test]
fn lengths_of_messages_are_told() {
    assert_eq!(get_pdu_length(&[]), None);
    assert_eq!(get_pdu_length(&[3, 0, 1]), None);
    assert_eq!(get_pdu_length(&[3, 0, 1, 2]), Some(258));
    assert_eq!(get_pdu_length(&[3, 0, 0, 2]), Some(1));
    assert_eq!(get_pdu_length(&[0, 1]), Some(2));
    assert_eq!(get_pdu_length(&[0, 0x7F]), Some(127));
    assert_eq!(get_pdu_length(&[0, 0x81]), None);
    assert_eq!(get_pdu_length(&[0, 0x81, 2]), Some(258));
    assert_eq!(get_pdu_length(&[0, 0x80, 2]), Some(3));
}

const SECOND: u64 = 1_000_000_000;

fn screen() -> Screen {
    let policy = FramePolicy {
        max_fps: 60,
        bandwidth_saving: false,
        stream_pixels: false,
    };
    Screen::new(4, 4, policy, RdpDebugStats::default(), 10 * SECOND)
}

fn desktop(unlock: bool) -> Desktop {
    let policy = AutoUnlockPolicy {
        enabled: unlock,
        initial_delay: 2 * SECOND,
        wake_delay: 900_000_000,
    };
    let channels = StaticChannels {
        clipboard: Some(1005),
        drive: Some(1006),
    };
    let drive = RdpdrState::new("PORTIX".to_owned(), false);
    Desktop::new(1007, channels, Some(drive), policy, false, 10 * SECOND)
}

/// What follows from one message.
fn reaction(desktop: &mut Desktop, screen: &mut Screen, message: &[u8]) -> Reaction {
    desktop.receive(screen, message);
    let reaction = desktop.next(screen).expect("a complete message");
    assert!(desktop.next(screen).is_none());
    reaction
}

#[test]
fn a_demand_for_activation_is_answered_again() {
    let (mut desktop, mut screen) = (desktop(false), screen());
    match reaction(&mut desktop, &mut screen, &share_control(0x11)) {
        Reaction::Reactivate(pdus) => assert_eq!(
            pdus,
            [
                build_confirm_active_pdu(1007, 4, 4),
                build_synchronize_sequence(1007)
            ]
        ),
        _ => panic!("not answered"),
    }
    assert_eq!(screen.stats.counters.pdus, 1);
    assert_eq!(screen.stats.counters.read_bytes, share_control(0x11).len());
}

/// The chunk of a channel packet.
fn chunk(pdu: &[u8]) -> Vec<u8> {
    pdu[15..].to_vec()
}

#[test]
fn text_copied_on_the_desktop_arrives() {
    let (mut desktop, mut screen) = (desktop(false), screen());
    let offer = &build_cliprdr_format_list(1, 1)[0];
    let length = offer[13];
    assert!(length < 128);
    let packet = from_server(1005, &offer[14..]);
    match reaction(&mut desktop, &mut screen, &packet) {
        Reaction::Clipboard { pdus, text } => {
            assert_eq!(pdus.len(), 2);
            assert!(text.is_none());
        }
        _ => panic!("no clipboard"),
    }
    let data: Vec<u8> = "hé\0".encode_utf16().flat_map(|unit| unit.to_le_bytes()).collect();
    let answer = &build_cliprdr_message_pdus(1, 1, 5, 1, &data)[0];
    let packet = from_server(1005, &answer[14..]);
    match reaction(&mut desktop, &mut screen, &packet) {
        Reaction::Clipboard { pdus, text } => {
            assert!(pdus.is_empty());
            assert_eq!(text.as_deref(), Some("hé"));
        }
        _ => panic!("no clipboard"),
    }
}

#[test]
fn long_text_copied_on_the_desktop_arrives_in_several_packets() {
    let (mut desktop, mut screen) = (desktop(false), screen());
    let offer = &build_cliprdr_format_list(1, 1)[0];
    reaction(&mut desktop, &mut screen, &from_server(1005, &offer[14..]));
    let copied = "ab\u{1F980}".repeat(700);
    let mut data: Vec<u8> = copied.encode_utf16().flat_map(|unit| unit.to_le_bytes()).collect();
    data.extend_from_slice(&[0, 0]);
    let pdus = build_cliprdr_message_pdus(1, 1, 5, 1, &data);
    assert_eq!(pdus.len(), 4);
    for (i, pdu) in pdus.iter().enumerate() {
        let packet = from_server(1005, &chunk(pdu));
        match reaction(&mut desktop, &mut screen, &packet) {
            Reaction::Clipboard { pdus: answers, text } => {
                assert!(answers.is_empty());
                if i + 1 < pdus.len() {
                    assert!(text.is_none());
                } else {
                    assert_eq!(text.as_deref(), Some(copied.as_str()));
                }
            }
            _ => panic!("no clipboard"),
        }
    }
}

#[test]
fn text_copied_here_is_offered_and_handed_out() {
    let (mut desktop, mut screen) = (desktop(false), screen());
    let command = RdpCommand::<()>::SetClipboardText {
        text: "hi".to_owned(),
    };
    match desktop.command(&mut screen, command, 0) {
        CommandStep::Announce(pdus) => assert_eq!(pdus, build_cliprdr_format_list(1007, 1005)),
        _ => panic!("not announced"),
    }
    let request = &build_cliprdr_message_pdus(1, 1, 4, 0, &CF_UNICODETEXT.to_le_bytes())[0];
    let packet = from_server(1005, &request[14..]);
    match reaction(&mut desktop, &mut screen, &packet) {
        Reaction::Clipboard { pdus, text: None } => assert_eq!(
            pdus,
            build_cliprdr_message_pdus(1007, 1005, 5, 1, &[b'h', 0, b'i', 0, 0, 0])
        ),
        _ => panic!("no answer"),
    }
}

#[test]
fn requests_for_the_mapped_folder_are_answered_on_its_channel() {
    let (mut desktop, mut screen) = (desktop(false), screen());
    let mut payload = 4u32.to_le_bytes().to_vec();
    payload.extend_from_slice(&3u32.to_le_bytes());
    payload.extend_from_slice(&[0x72, 0x44, 0x4C, 0x55]);
    let packet = from_server(1006, &payload);
    let messages = match reaction(&mut desktop, &mut screen, &packet) {
        Reaction::Drive(portix_serv::drive::DriveStep::Respond(messages)) => messages,
        _ => panic!("no answer"),
    };
    assert_eq!(messages.len(), 1);
    assert_eq!(
        desktop.drive_packets(&messages),
        build_static_channel_message_pdus(1007, 1006, &messages[0])
    );
    desktop.drive = None;
    assert!(matches!(
        reaction(&mut desktop, &mut screen, &packet),
        Reaction::Nothing
    ));
}

#[test]
fn bitmaps_are_drawn_as_they_come() {
    let (mut desktop, mut screen) = (desktop(false), screen());
    let mut update = vec![1, 0];
    for field in [0u16, 0, 0, 0, 1, 1, 24, 0, 4] {
        update.extend_from_slice(&field.to_le_bytes());
    }
    update.extend_from_slice(&[1, 2, 3, 0]);
    let mut packet = vec![0, (5 + update.len()) as u8, 1];
    packet.extend_from_slice(&(update.len() as u16).to_le_bytes());
    packet.extend_from_slice(&update);
    assert!(matches!(
        reaction(&mut desktop, &mut screen, &packet),
        Reaction::Nothing
    ));
    assert_eq!(&screen.picture.write_buf[..4], &[3, 2, 1, 255]);
    assert_eq!(screen.stats.counters.applied_rects, 1);

    let mut share = vec![0, 0, 0x17, 0, 0, 0];
    share.extend_from_slice(&[0; 8]);
    share.extend_from_slice(&[2, 0, 0, 0, 1, 0]);
    let at = update.len() - 4;
    update[at..at + 3].copy_from_slice(&[7, 8, 9]);
    share.extend_from_slice(&update);
    let packet = from_server(1003, &share);
    assert!(matches!(
        reaction(&mut desktop, &mut screen, &packet),
        Reaction::Nothing
    ));
    assert_eq!(&screen.picture.write_buf[..4], &[9, 8, 7, 255]);
    assert_eq!(screen.stats.counters.pdus, 2);
}

#[test]
fn commands_become_packets() {
    let (mut desktop, mut screen) = (desktop(false), screen());
    let now = 11 * SECOND;
    let key = RdpCommand::<()>::KeyboardInput {
        scancode: 0x1E,
        is_pressed: true,
    };
    match desktop.command(&mut screen, key, now) {
        CommandStep::Offer(pdu) => assert_eq!(pdu, build_keyboard_pdu(1007, 0x1E, true)),
        _ => panic!("not sent"),
    }
    assert_eq!(screen.pacer.last_input, now);
    let click = RdpCommand::<()>::MouseInput {
        x: 1,
        y: 2,
        button: MouseButton::Right,
        is_pressed: false,
    };
    match desktop.command(&mut screen, click, now) {
        CommandStep::Offer(pdu) => assert_eq!(
            pdu,
            build_mouse_button_pdu(1007, 1, 2, MouseButton::Right, false)
        ),
        _ => panic!("not sent"),
    }
    let movement = RdpCommand::<()>::MouseMove { x: 3, y: 4 };
    match desktop.command(&mut screen, movement, now) {
        CommandStep::Offer(pdu) => assert_eq!(pdu, build_mouse_move_pdu(1007, 3, 4)),
        _ => panic!("not sent"),
    }
    match desktop.command(&mut screen, RdpCommand::RequestFrame { response_tx: 5 }, now) {
        CommandStep::Answer {
            response_tx: 5,
            picture,
        } => assert_eq!(picture, Arc::new(Vec::new())),
        _ => panic!("not answered"),
    }
    match desktop.command(&mut screen, RdpCommand::<()>::Disconnect, now) {
        CommandStep::Finish(pdu) => assert_eq!(pdu, build_shutdown_pdu(1007)),
        _ => panic!("not finished"),
    }
    assert_eq!(desktop.keep_awake(&mut screen), build_shift_pulse(1007));
    assert_eq!(screen.stats.counters.keep_awake_events, 1);
}

#[test]
fn moves_that_wait_are_taken_together() {
    let run = MoveRun { x: 1, y: 1 };
    let run = match run.follow(Some(RdpCommand::<()>::MouseMove { x: 2, y: 3 })) {
        MoveStep::More(run) => run,
        MoveStep::Done { .. } => panic!("the run ended"),
    };
    match run.follow(Some(RdpCommand::<()>::Disconnect)) {
        MoveStep::Done {
            run: MoveRun { x: 2, y: 3 },
            pending: Some(RdpCommand::Disconnect),
        } => {}
        _ => panic!("the run goes on"),
    }
    assert!(matches!(
        MoveRun { x: 1, y: 1 }.follow::<()>(None),
        MoveStep::Done { run: MoveRun { x: 1, y: 1 }, pending: None }
    ));
}

#[test]
fn a_dark_desktop_is_woken_and_then_unlocked() {
    let policy = AutoUnlockPolicy {
        enabled: true,
        initial_delay: 2 * SECOND,
        wake_delay: 900_000_000,
    };
    let (mut desktop, mut screen) = (desktop(true), screen());
    screen.show_first("s");
    assert!(matches!(
        desktop.tick_unlock(&screen, Some("pw"), 11 * SECOND),
        UnlockStep::Wait
    ));
    match desktop.tick_unlock(&screen, Some("pw"), 12 * SECOND) {
        UnlockStep::Wake(pdus) => assert_eq!(pdus, build_shift_pulse(1007)),
        _ => panic!("not woken"),
    }
    desktop.woken(policy, 12 * SECOND);
    assert!(desktop.unlock.is_pending());
    assert!(matches!(
        desktop.tick_unlock(&screen, Some("pw"), 12 * SECOND),
        UnlockStep::Wait
    ));
    match desktop.tick_unlock(&screen, Some("pw"), 13 * SECOND) {
        UnlockStep::Submit(pdus) => {
            assert_eq!(Some(pdus), build_text_input_pdus(1007, "pw", true))
        }
        _ => panic!("not typed"),
    }
    assert_eq!(desktop.unlock, AutoUnlockState::Done);
    assert!(matches!(
        desktop.tick_unlock(&screen, Some("pw"), 14 * SECOND),
        UnlockStep::Wait
    ));
}

#[test]
fn a_desktop_is_not_unlocked_without_need_or_means() {
    let (mut bright, mut screen) = (desktop(true), screen());
    screen.show_first("s");
    screen.picture.write_buf.fill(200);
    assert!(matches!(
        bright.tick_unlock(&screen, Some("pw"), 12 * SECOND),
        UnlockStep::Finish
    ));
    let mut locked = desktop(true);
    locked.unlock = AutoUnlockState::WakeSent { deadline: 0 };
    assert!(matches!(
        locked.tick_unlock(&screen, Some("p🔒"), 1),
        UnlockStep::Unsupported
    ));
    locked.unlock = AutoUnlockState::WakeSent { deadline: 0 };
    assert!(matches!(locked.tick_unlock(&screen, None, 1), UnlockStep::Finish));
    assert!(!desktop(false).unlock.is_pending());
}

#[test]
fn a_lost_server_is_looked_for_again() {
    assert!(ReadFailure::Closed.reconnects());
    assert!(ReadFailure::ConnectionReset.reconnects());
    assert!(ReadFailure::BrokenPipe.reconnects());
    assert!(ReadFailure::UnexpectedEof.reconnects());
    assert!(!ReadFailure::Other.reconnects());
}

#[test]
fn long_messages_are_cut_into_chunks() {
    let message = vec![7u8; 1601];
    let pdus = build_static_channel_message_pdus(1007, 1005, &message);
    assert_eq!(pdus.len(), 2);
    let first = chunk(&pdus[0]);
    assert_eq!(&first[..8], &[0x41, 6, 0, 0, 1, 0, 0, 0]);
    assert_eq!(first.len(), 1608);
    let last = pdus[1][14..].to_vec();
    assert_eq!(&last[..8], &[0x41, 6, 0, 0, 2, 0, 0, 0]);
    assert_eq!(last.len(), 9);
    assert!(build_static_channel_message_pdus(1007, 1005, &[]).is_empty());
}

#[test]
fn packets_are_wrapped_for_their_channel() {
    assert_eq!(
        wrap_mcs_send_data(1007, 1003, &[9]),
        [3, 0, 0, 15, 2, 0xF0, 0x80, 0x64, 0, 6, 3, 0xEB, 0x70, 1, 9]
    );
    let packet = from_server(1005, &[1, 2]);
    assert_eq!(server_mcs_payload(&packet), Some((1005, &[1u8, 2][..])));
}

#[test]
fn keys_are_found_for_characters() {
    assert_eq!(ascii_scancode('a'), Some((0x1E, false)));
    assert_eq!(ascii_scancode('A'), Some((0x1E, true)));
    assert_eq!(ascii_scancode('1'), Some((0x02, false)));
    assert_eq!(ascii_scancode('!'), Some((0x02, true)));
    assert_eq!(ascii_scancode(' '), Some((0x39, false)));
    assert_eq!(ascii_scancode('é'), None);
    assert!(matches!(MouseButton::from_number(0), MouseButton::Left));
    assert!(matches!(MouseButton::from_number(1), MouseButton::Right));
    assert!(matches!(MouseButton::from_number(2), MouseButton::Middle));
    assert!(matches!(MouseButton::from_number(9), MouseButton::Left));
}

#[test]
fn sessions_begin_with_names_of_their_own() {
    let first = begin_rdp_session(&profile()).unwrap();
    let second = begin_rdp_session(&profile()).unwrap();
    assert_ne!(first.id, second.id);
    assert_eq!(first.profile_id, "p");
    assert_eq!((first.width, first.height), (4, 4));
    assert_eq!(first.id.len(), 36);
    for (i, c) in first.id.chars().enumerate() {
        match i {
            8 | 13 | 18 | 23 => assert_eq!(c, '-'),
            14 => assert_eq!(c, '4'),
            19 => assert!(matches!(c, '8' | '9' | 'a' | 'b')),
            _ => assert!(c.is_ascii_digit() || ('a'..='f').contains(&c)),
        }
    }
    let mut bad = profile();
    bad.host = String::new();
    assert!(matches!(
        begin_rdp_session(&bad),
        Err(PortixError::InvalidProfile(text)) if text == "host is required"
    ));
    let shell = begin_shell_session("q");
    assert_eq!(shell.profile_id, "q");
    assert_eq!(shell.status, ConnectionStatus::Connecting);
    assert_eq!(shell.id.len(), 36);
}

#[test]
fn running_sessions_are_found_by_name() {
    let mut sessions = Sessions::new();
    assert!(sessions.session("a").is_err());
    sessions.insert("a".to_owned(), 1);
    sessions.insert("b".to_owned(), 2);
    assert_eq!(sessions.session("a").ok(), Some(&1));
    assert_eq!(sessions.session("b").ok(), Some(&2));
    sessions.insert("a".to_owned(), 3);
    assert_eq!(sessions.session("a").ok(), Some(&3));
    assert_eq!(sessions.remove("a"), Some(3));
    assert_eq!(sessions.remove("a"), None);
    assert_eq!(sessions.session("b").ok(), Some(&2));
    match sessions.session("a") {
        Err(PortixError::SessionNotFound(id)) => assert_eq!(id, "a"),
        _ => panic!("a session was found"),
    }
}

#[test]
fn ends_of_sessions_are_told() {
    let (error, status) = rdp_session_ended("s", None);
    assert!(error.is_none());
    assert_eq!(status.status, ConnectionStatus::Disconnected);
    assert_eq!(status.message.as_deref(), Some("disconnected"));
    let (error, status) = rdp_session_ended("s", Some("broken"));
    let error = error.unwrap();
    assert_eq!(error.session_id.as_deref(), Some("s"));
    assert_eq!(error.message, "broken");
    assert_eq!(status.status, ConnectionStatus::Error);
    assert_eq!(status.message.as_deref(), Some("broken"));
    let (error, status) = shell_session_ended("s", None);
    assert!(error.is_none());
    assert_eq!(status.status, ConnectionStatus::Disconnected);
    assert!(status.message.is_none());
    let (error, status) = shell_session_ended("s", Some("broken"));
    assert!(error.is_some());
    assert_eq!(status.status, ConnectionStatus::Error);
    let event = status_event("s", ConnectionStatus::Connecting, Some("connecting"));
    assert_eq!(event.session_id, "s");
    assert_eq!(event.message.as_deref(), Some("connecting"));
}
