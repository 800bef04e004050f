use std::borrow::Cow;
use std::time::Duration;

use portix_serv::bitmap::{apply_bitmap_to_buffer, BitmapUpdate, DecodedBitmap};
use portix_serv::clipboard::{
    decode_remote_clipboard, encode_local_clipboard, preferred_clipboard_format, CF_TEXT,
    CF_UNICODETEXT,
};
use portix_serv::connect::{
    build_mcs_connect_initial, client_info_flags, parse_server_static_channel_id,
};
use portix_serv::fastpath::{process_fastpath_output, FastPathFragmentState};
use portix_serv::framebuffer::{DirtyRect, Framebuffer};
use portix_serv::framing::{contains_demand_active, is_demand_active_pdu};
use portix_serv::input::build_text_input_pdus;
use portix_serv::licensing::{
    extract_license_payload, is_license_error_terminal, license_msg_type, ActivationWait,
    WaitEvent, LICENSE_ERROR_ALERT, SEC_LICENSE_PKT,
};
use portix_serv::policy::{AutoUnlockPolicy, DriveRedirectionPolicy, KeepAwakePolicy};
use portix_serv::profile::RdpProfile;
use portix_serv::settings::Settings;
use portix_serv::stats::RdpDebugStats;

const CLIPRDR_CHANNEL_NAME: &[u8; 8] = b"cliprdr\0";
const RDPDR_CHANNEL_NAME: &[u8; 8] = b"rdpdr\0\0\0";

fn test_profile(password: Option<&str>) -> RdpProfile {
    RdpProfile {
        id: "test-profile".to_owned(),
        name: "Test profile".to_owned(),
        host: "testhost".to_owned(),
        port: 3389,
        username: "testuser".to_owned(),
        password: password.map(str::to_owned),
        domain: None,
        width: 1280,
        height: 720,
        screen_mode: 1,
        extra: Settings::new(),
    }
}

fn server_share_control_pdu(pdu_type: u16, payload: &[u8]) -> Vec<u8> {
    let share_len = 6 + payload.len();
    let mut share = Vec::with_capacity(share_len);
    share.extend_from_slice(&(share_len as u16).to_le_bytes());
    share.extend_from_slice(&pdu_type.to_le_bytes());
    share.extend_from_slice(&1004u16.to_le_bytes());
    share.extend_from_slice(payload);

    let mut mcs = Vec::new();
    mcs.push(0x68);
    mcs.extend_from_slice(&3u16.to_be_bytes());
    mcs.extend_from_slice(&1003u16.to_be_bytes());
    mcs.push(0x70);
    mcs.push(share.len() as u8);
    mcs.extend_from_slice(&share);

    let packet_len = 4 + 3 + mcs.len();
    let mut packet = vec![0x03, 0x00];
    packet.extend_from_slice(&(packet_len as u16).to_be_bytes());
    packet.extend_from_slice(&[0x02, 0xF0, 0x80]);
    packet.extend_from_slice(&mcs);
    packet
}

#[test]
fn demand_active_detection_reads_the_share_control_header() {
    let demand_active = server_share_control_pdu(0x0011, &[]);
    assert!(is_demand_active_pdu(&demand_active));
    assert!(contains_demand_active(&demand_active));
}

#[test]
fn bitmap_payload_marker_is_not_mistaken_for_demand_active() {
    let bitmap = server_share_control_pdu(0x0017, &[0xAA, 0x11, 0x00, 0xBB]);
    assert!(!is_demand_active_pdu(&bitmap));
    assert!(!contains_demand_active(&bitmap));
}

/// A licence packet of the server.
fn server_license_pdu(msg_type: u8, extra_payload: &[u8]) -> Vec<u8> {
    let body_size = 4 + extra_payload.len();
    let mut body = Vec::with_capacity(body_size);
    body.push(msg_type);
    body.push(0x00);
    body.extend_from_slice(&(body_size as u16).to_le_bytes());
    body.extend_from_slice(extra_payload);

    let mut payload = Vec::new();
    payload.extend_from_slice(&0x0080u16.to_le_bytes());
    payload.extend_from_slice(&0x0000u16.to_le_bytes());
    payload.extend_from_slice(&body);

    let mut mcs = Vec::new();
    mcs.push(0x68);
    mcs.extend_from_slice(&3u16.to_be_bytes());
    mcs.extend_from_slice(&1003u16.to_be_bytes());
    mcs.push(0x70);
    mcs.push(payload.len() as u8);
    mcs.extend_from_slice(&payload);

    let packet_len = 4 + 3 + mcs.len();
    let mut packet = vec![0x03, 0x00];
    packet.extend_from_slice(&(packet_len as u16).to_be_bytes());
    packet.extend_from_slice(&[0x02, 0xF0, 0x80]);
    packet.extend_from_slice(&mcs);
    packet
}

#[test]
fn license_pdu_is_detected_as_sec_license_pkt() {
    let pkt = server_license_pdu(LICENSE_ERROR_ALERT, &[0u8; 12]);
    let result = extract_license_payload(&pkt);
    assert!(result.is_some(), "should detect SEC_LICENSE_PKT");
    let (sec_flags, body) = result.unwrap();
    assert_eq!(sec_flags & SEC_LICENSE_PKT, SEC_LICENSE_PKT);
    assert_eq!(license_msg_type(body), Some(LICENSE_ERROR_ALERT));
}

#[test]
fn license_error_alert_with_st_total_abort_is_terminal() {
    let mut extra = vec![0u8; 12];
    extra[8..12].copy_from_slice(&0x00000004u32.to_le_bytes());
    let pkt = server_license_pdu(LICENSE_ERROR_ALERT, &extra);
    let (_, body) = extract_license_payload(&pkt).unwrap();
    assert!(is_license_error_terminal(&body[4..]));
}

#[test]
fn license_error_alert_with_st_push_license_is_not_terminal() {
    let mut extra = vec![0u8; 12];
    extra[8..12].copy_from_slice(&0x00000001u32.to_le_bytes());
    let pkt = server_license_pdu(LICENSE_ERROR_ALERT, &extra);
    let (_, body) = extract_license_payload(&pkt).unwrap();
    assert!(!is_license_error_terminal(&body[4..]));
}

#[test]
fn demand_active_is_not_misidentified_as_license_pdu() {
    let demand = server_share_control_pdu(0x0011, &[]);
    assert!(extract_license_payload(&demand).is_none());
}

#[test]
fn wait_for_demand_active_handles_xrdp_license_then_demand() {
    let license_pkt = server_license_pdu(LICENSE_ERROR_ALERT, &{
        let mut e = vec![0u8; 12];
        e[8..12].copy_from_slice(&0x00000004u32.to_le_bytes());
        e
    });
    let demand_active = server_share_control_pdu(0x0011, &[]);
    let combined = [license_pkt.as_slice(), demand_active.as_slice()].concat();
    let mut wait = ActivationWait::new(1007);
    let step = wait.step(WaitEvent::Received(&combined));
    assert!(
        matches!(step.verdict, Some(Ok(true))),
        "should find demand active after license PDU"
    );

    let mut wait = ActivationWait::new(1007);
    let step = wait.step(WaitEvent::Received(&license_pkt));
    assert!(step.verdict.is_none());
    assert!(step.reply.is_none());
    let step = wait.step(WaitEvent::Received(&demand_active));
    assert!(matches!(step.verdict, Some(Ok(true))));
}

#[test]
fn client_network_data_requests_cliprdr_channel() {
    let packet = build_mcs_connect_initial(&test_profile(Some("secret")), 1, false);
    assert!(packet
        .windows(CLIPRDR_CHANNEL_NAME.len())
        .any(|window| window == CLIPRDR_CHANNEL_NAME));
}

#[test]
fn client_network_data_requests_rdpdr_only_with_a_mapped_folder() {
    let mut profile = test_profile(Some("secret"));
    assert!(DriveRedirectionPolicy::wanted_root(&profile).is_none());
    let policy = DriveRedirectionPolicy::from_profile(&profile, true);
    let without_drive = build_mcs_connect_initial(&profile, 1, policy.enabled());
    assert!(!without_drive
        .windows(RDPDR_CHANNEL_NAME.len())
        .any(|window| window == RDPDR_CHANNEL_NAME));

    profile
        .extra
        .insert("portix_drive_path".to_owned(), "/srv/shared".to_owned());
    assert_eq!(
        DriveRedirectionPolicy::wanted_root(&profile).as_deref(),
        Some("/srv/shared")
    );
    let policy = DriveRedirectionPolicy::from_profile(&profile, true);
    let with_drive = build_mcs_connect_initial(&profile, 1, policy.enabled());
    assert!(with_drive
        .windows(RDPDR_CHANNEL_NAME.len())
        .any(|window| window == RDPDR_CHANNEL_NAME));

    let missing = DriveRedirectionPolicy::from_profile(&profile, false);
    assert!(!missing.enabled());
}

#[test]
fn parses_server_static_virtual_channel_id() {
    let mut response = vec![0xAA, 0xBB];
    response.extend_from_slice(&0x0C03u16.to_le_bytes());
    response.extend_from_slice(&10u16.to_le_bytes());
    response.extend_from_slice(&1003u16.to_le_bytes());
    response.extend_from_slice(&1u16.to_le_bytes());
    response.extend_from_slice(&1005u16.to_le_bytes());
    assert_eq!(parse_server_static_channel_id(&response, 0), Some(1005));
}

#[test]
fn clipboard_unicode_roundtrip_preserves_non_ascii_text() {
    let source = "Portix clipboard: halo dunia";
    let encoded = encode_local_clipboard(source, CF_UNICODETEXT).unwrap();
    assert_eq!(
        decode_remote_clipboard(&encoded, CF_UNICODETEXT).as_deref(),
        Some(source)
    );
}

#[test]
fn clipboard_prefers_unicode_format() {
    let mut formats = Vec::new();
    formats.extend_from_slice(&CF_TEXT.to_le_bytes());
    formats.extend_from_slice(&0u16.to_le_bytes());
    formats.extend_from_slice(&CF_UNICODETEXT.to_le_bytes());
    formats.extend_from_slice(&0u16.to_le_bytes());
    assert_eq!(preferred_clipboard_format(&formats), Some(CF_UNICODETEXT));
}

#[test]
fn client_info_requests_autologon_only_with_a_password() {
    const INFO_AUTOLOGON: u32 = 0x0000_0008;
    const INFO_LOGONERRORS: u32 = 0x0001_0000;

    let with_password = client_info_flags(&test_profile(Some("secret")));
    assert_ne!(with_password & INFO_AUTOLOGON, 0);
    assert_ne!(with_password & INFO_LOGONERRORS, 0);

    let without_password = client_info_flags(&test_profile(None));
    assert_eq!(without_password & INFO_AUTOLOGON, 0);
}

#[test]
fn keep_awake_is_enabled_by_default_and_can_be_disabled() {
    let default_policy = KeepAwakePolicy::from_profile(&test_profile(Some("secret")));
    assert!(default_policy.enabled);
    assert_eq!(
        Duration::from_secs(default_policy.interval_seconds),
        Duration::from_secs(30)
    );

    let mut disabled = test_profile(Some("secret"));
    disabled
        .extra
        .insert("portix_keep_awake".to_owned(), "false".to_owned());
    let disabled_policy = KeepAwakePolicy::from_profile(&disabled);
    assert!(!disabled_policy.enabled);
}

#[test]
fn auto_unlock_is_opt_in_and_supports_the_local_password_charset() {
    let default_policy = AutoUnlockPolicy::from_profile(&test_profile(Some("secret")));
    assert!(!default_policy.enabled);

    let mut enabled = test_profile(Some("test"));
    enabled
        .extra
        .insert("portix_auto_unlock".to_owned(), "1".to_owned());
    assert!(AutoUnlockPolicy::from_profile(&enabled).enabled);
    assert!(build_text_input_pdus(1004, "test", true).is_some());
    assert!(build_text_input_pdus(1004, "password-123", true).is_some());
    assert!(build_text_input_pdus(1004, "sandi🔒", true).is_none());
}

fn fastpath_packet(fragmentation: u8, chunk: &[u8]) -> Vec<u8> {
    let mut payload = Vec::new();
    payload.push(0x01 | (fragmentation << 4));
    payload.extend_from_slice(&(chunk.len() as u16).to_le_bytes());
    payload.extend_from_slice(chunk);

    let total_len = payload.len() + 2;
    let mut packet = Vec::new();
    packet.push(0x00);
    packet.push(total_len as u8);
    packet.extend_from_slice(&payload);
    packet
}

fn bitmap_update_payload() -> Vec<u8> {
    let mut payload = Vec::new();
    payload.extend_from_slice(&1u16.to_le_bytes());
    payload.extend_from_slice(&0u16.to_le_bytes());
    payload.extend_from_slice(&0u16.to_le_bytes());
    payload.extend_from_slice(&1u16.to_le_bytes());
    payload.extend_from_slice(&0u16.to_le_bytes());
    payload.extend_from_slice(&2u16.to_le_bytes());
    payload.extend_from_slice(&1u16.to_le_bytes());
    payload.extend_from_slice(&24u16.to_le_bytes());
    payload.extend_from_slice(&0u16.to_le_bytes());
    payload.extend_from_slice(&8u16.to_le_bytes());
    payload.extend_from_slice(&[0, 0, 255, 0, 255, 0, 0, 0]);
    payload
}

#[test]
fn fastpath_bitmap_fragments_are_assembled_across_packets() {
    let payload = bitmap_update_payload();
    let split_at = payload.len() / 2;
    let first = fastpath_packet(2, &payload[..split_at]);
    let last = fastpath_packet(1, &payload[split_at..]);
    let mut fragments = FastPathFragmentState::default();
    let mut stats = RdpDebugStats::default();

    assert!(process_fastpath_output(&first, &mut fragments, &mut stats).is_none());
    let updates =
        process_fastpath_output(&last, &mut fragments, &mut stats).expect("assembled bitmap");

    assert_eq!(updates.len(), 1);
    assert_eq!(updates[0].x, 0);
    assert_eq!(updates[0].y, 0);
    assert_eq!(updates[0].width, 2);
    assert_eq!(updates[0].height, 1);
    assert!(!updates[0].compressed);
    assert_eq!(updates[0].data.len(), 8);
}

#[test]
fn apply_bitmap_uses_decoded_stride_independent_of_orientation() {
    let update = BitmapUpdate {
        x: 0,
        y: 0,
        width: 2,
        height: 2,
        bpp: 24,
        bmp_width: 2,
        bmp_height: 2,
        compressed: true,
        data: Cow::Borrowed(&[]),
    };
    let pixels = [0, 0, 255, 0, 255, 0, 255, 0, 0, 255, 255, 255];
    let decoded = DecodedBitmap {
        data: &pixels,
        top_down: false,
        stride: 6,
    };
    let mut frame = vec![0u8; 2 * 2 * 4];

    let dirty = apply_bitmap_to_buffer(&mut frame, 2, 2, &update, decoded).expect("bitmap applied");

    assert_eq!(dirty.width, 2);
    assert_eq!(dirty.height, 2);
    assert_eq!(&frame[0..4], &[0, 0, 255, 255]);
    assert_eq!(&frame[4..8], &[255, 255, 255, 255]);
    assert_eq!(&frame[8..12], &[255, 0, 0, 255]);
    assert_eq!(&frame[12..16], &[0, 255, 0, 255]);
}

#[test]
fn apply_bitmap_scales_when_source_and_destination_sizes_differ() {
    let update = BitmapUpdate {
        x: 0,
        y: 0,
        width: 4,
        height: 2,
        bpp: 24,
        bmp_width: 2,
        bmp_height: 1,
        compressed: true,
        data: Cow::Borrowed(&[]),
    };
    let pixels = [0, 0, 255, 0, 255, 0];
    let decoded = DecodedBitmap {
        data: &pixels,
        top_down: true,
        stride: 6,
    };
    let mut frame = vec![0u8; 4 * 2 * 4];

    let dirty = apply_bitmap_to_buffer(&mut frame, 4, 2, &update, decoded).expect("bitmap applied");

    assert_eq!(dirty.width, 4);
    assert_eq!(dirty.height, 2);
    assert_eq!(&frame[0..4], &[255, 0, 0, 255]);
    assert_eq!(&frame[4..8], &[255, 0, 0, 255]);
    assert_eq!(&frame[8..12], &[0, 255, 0, 255]);
    assert_eq!(&frame[12..16], &[0, 255, 0, 255]);
    assert_eq!(&frame[16..20], &[255, 0, 0, 255]);
    assert_eq!(&frame[24..28], &[0, 255, 0, 255]);
}

#[test]
fn apply_bitmap_crops_alignment_padding_instead_of_scaling() {
    let update = BitmapUpdate {
        x: 0,
        y: 0,
        width: 2,
        height: 1,
        bpp: 24,
        bmp_width: 4,
        bmp_height: 1,
        compressed: true,
        data: Cow::Borrowed(&[]),
    };
    let pixels = [
        0, 0, 255, // red
        0, 255, 0, // green
        255, 0, 0, // blue padding/content outside destination
        255, 255, 255, // white padding/content outside destination
    ];
    let decoded = DecodedBitmap {
        data: &pixels,
        top_down: true,
        stride: 12,
    };
    let mut frame = vec![0u8; 2 * 4];

    let dirty = apply_bitmap_to_buffer(&mut frame, 2, 1, &update, decoded).expect("bitmap applied");

    assert_eq!(dirty.width, 2);
    assert_eq!(dirty.height, 1);
    assert_eq!(&frame[0..4], &[255, 0, 0, 255]);
    assert_eq!(&frame[4..8], &[0, 255, 0, 255]);
}

#[test]
fn framebuffer_signal_mode_emits_empty_event_without_losing_snapshot() {
    let mut framebuffer = Framebuffer::new(2, 2);
    framebuffer.write_buf.fill(7);
    framebuffer.mark_dirty(DirtyRect {
        x: 0,
        y: 0,
        width: 2,
        height: 2,
    });

    let events = framebuffer.drain_dirty_events("session", 1, false, false);
    assert_eq!(events.len(), 1);
    assert!(events[0].data.is_empty());

    let snapshot = framebuffer
        .snapshot_for_request()
        .expect("snapshot remains available");
    assert_eq!(snapshot.len(), 16);
    assert!(snapshot.iter().all(|value| *value == 7));
}
