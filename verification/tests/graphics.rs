use std::borrow::Cow;

use portix_serv::bitmap::{
    apply_bitmap_to_buffer, decode_bitmap_data, extract_bitmap_updates, extract_compressed_data,
    map_bitmap_coordinate, parse_bitmap_rectangles, parse_update_pdu, uncompressed_bitmap_stride,
    BitmapUpdate, DecodeScratch, DecodedBitmap,
};
use portix_serv::framebuffer::{DirtyRect, Framebuffer};
use portix_serv::policy::{FramePacer, FramePolicy};
use portix_serv::profile::RdpProfile;
use portix_serv::rle::{
    read_pixel_value, rle_decompress_into, write_pixel_value, RleDecodeStatus,
};
use portix_serv::screen::Screen;
use portix_serv::settings::Settings;
use portix_serv::stats::{DebugCounters, RdpDebugStats};

fn decode(src: &[u8], width: usize, height: usize, depth: usize) -> (RleDecodeStatus, Vec<u8>) {
    let mut work = Vec::new();
    let mut flipped = Vec::new();
    let status = rle_decompress_into(src, width, height, depth, &mut work, &mut flipped);
    (status, if status == RleDecodeStatus::Complete { flipped } else { work })
}

#[test]
fn runs_fill_the_picture() {
    assert_eq!(decode(&[0x62, 7], 2, 1, 1), (RleDecodeStatus::Complete, vec![7, 7]));
    assert_eq!(decode(&[0x22], 2, 1, 1), (RleDecodeStatus::Complete, vec![0xFF, 0xFF]));
    assert_eq!(decode(&[0x02], 2, 1, 1), (RleDecodeStatus::Complete, vec![0, 0]));
    assert_eq!(decode(&[0x82, 1, 2], 2, 1, 1), (RleDecodeStatus::Complete, vec![1, 2]));
    assert_eq!(
        decode(&[0xFD, 0xFE], 2, 1, 2),
        (RleDecodeStatus::Complete, vec![0xFF, 0xFF, 0, 0])
    );
    assert_eq!(
        decode(&[0xE2, 1, 2], 4, 1, 1),
        (RleDecodeStatus::Complete, vec![1, 2, 1, 2])
    );
}

#[test]
fn rows_are_stored_from_the_bottom() {
    assert_eq!(
        decode(&[0x84, 1, 2, 3, 4], 2, 2, 1),
        (RleDecodeStatus::Complete, vec![3, 4, 1, 2])
    );
}

#[test]
fn every_row_changes_places_with_the_one_as_far_from_the_other_end() {
    assert_eq!(
        decode(&[0x86, 1, 2, 3, 4, 5, 6], 2, 3, 1),
        (RleDecodeStatus::Complete, vec![5, 6, 3, 4, 1, 2])
    );
}

#[test]
fn pixels_keep_their_value() {
    for (pixel, depth) in [(0x7F, 1), (0xBEEF, 2), (0x12_3456, 3), (0xFEDC_BA98, 4)] {
        let mut out = vec![9];
        write_pixel_value(&mut out, pixel, depth);
        assert_eq!(out.len(), 1 + depth);
        assert_eq!(read_pixel_value(&out, 1, depth), pixel);
    }
}

#[test]
fn later_rows_build_on_the_row_before() {
    assert_eq!(
        decode(&[0x82, 1, 2, 0x02], 2, 2, 1),
        (RleDecodeStatus::Complete, vec![1, 2, 1, 2])
    );
    assert_eq!(
        decode(&[0x82, 1, 2, 0x22], 2, 2, 1),
        (RleDecodeStatus::Complete, vec![0xFE, 0xFD, 1, 2])
    );
}

#[test]
fn two_background_runs_are_joined_by_a_foreground_pixel() {
    assert_eq!(
        decode(&[0x02, 0x02], 4, 1, 1),
        (RleDecodeStatus::Complete, vec![0, 0, 0xFF, 0])
    );
}

#[test]
fn masks_choose_between_foreground_and_background() {
    assert_eq!(
        decode(&[0xF9], 8, 1, 1),
        (RleDecodeStatus::Complete, vec![0xFF, 0xFF, 0, 0, 0, 0, 0, 0])
    );
    assert_eq!(
        decode(&[0xFA], 8, 1, 1),
        (RleDecodeStatus::Complete, vec![0xFF, 0, 0xFF, 0, 0, 0, 0, 0])
    );
    assert_eq!(
        decode(&[0x41, 0x80], 8, 1, 1),
        (RleDecodeStatus::Complete, vec![0, 0, 0, 0, 0, 0, 0, 0xFF])
    );
}

#[test]
fn streams_that_end_early_are_told_apart() {
    assert_eq!(decode(&[0x61, 7], 2, 1, 1).0, RleDecodeStatus::Partial);
    assert_eq!(decode(&[0x60], 2, 1, 1).0, RleDecodeStatus::Invalid);
    assert_eq!(decode(&[0xFF], 2, 1, 1).0, RleDecodeStatus::Invalid);
    assert_eq!(decode(&[], 2, 1, 1).0, RleDecodeStatus::Invalid);
}

fn rectangle(flags: u16, data: &[u8]) -> Vec<u8> {
    let mut bytes = Vec::new();
    for field in [5u16, 6, 6, 6, 2, 1, 24, flags, data.len() as u16] {
        bytes.extend_from_slice(&field.to_le_bytes());
    }
    bytes.extend_from_slice(data);
    bytes
}

#[test]
fn rectangles_are_read_until_one_is_broken() {
    let mut update = vec![3, 0];
    update.extend_from_slice(&rectangle(0, &[1, 2, 3, 4, 5, 6, 0, 0]));
    update.extend_from_slice(&rectangle(1, &[0; 10]));
    update.extend_from_slice(&rectangle(0, &[])[..10]);
    let found = parse_bitmap_rectangles(&update).unwrap();
    assert_eq!(found.len(), 2);
    assert_eq!((found[0].x, found[0].y), (5, 6));
    assert_eq!((found[0].width, found[0].height), (2, 1));
    assert!(!found[0].compressed);
    assert!(found[1].compressed);
    assert_eq!(found[1].data.len(), 2);

    let mut typed = vec![1, 0];
    typed.extend_from_slice(&update);
    assert_eq!(parse_update_pdu(&typed).unwrap().len(), 2);
    typed[0] = 2;
    assert!(parse_update_pdu(&typed).is_none());
    assert!(parse_bitmap_rectangles(&[1, 1]).is_none());
    assert!(parse_bitmap_rectangles(&[0, 0]).is_none());
    assert!(extract_bitmap_updates(&update).is_none());
}

#[test]
fn a_compression_header_is_skipped_unless_it_is_absent() {
    let data = [0u8, 1, 2, 3, 4, 5, 6, 7, 8, 9];
    assert_eq!(&*extract_compressed_data(&data, 1, 9, true, 1), &[9]);
    assert_eq!(extract_compressed_data(&data, 1, 9, true, 0x401).len(), 9);
    assert_eq!(extract_compressed_data(&data, 1, 9, false, 0).len(), 9);
    assert_eq!(extract_compressed_data(&data, 1, 8, true, 1).len(), 8);
}

#[test]
fn rows_of_raw_bitmaps_are_padded() {
    assert_eq!(uncompressed_bitmap_stride(1, 3), 4);
    assert_eq!(uncompressed_bitmap_stride(4, 3), 12);
    assert_eq!(uncompressed_bitmap_stride(3, 2), 8);
}

#[test]
fn coordinates_are_stretched_or_cropped() {
    assert_eq!(map_bitmap_coordinate(3, 4, 2), 1);
    assert_eq!(map_bitmap_coordinate(3, 4, 9), 3);
    assert_eq!(map_bitmap_coordinate(5, 4, 4), 3);
    assert_eq!(map_bitmap_coordinate(5, 4, 0), 0);
}

fn bitmap(bpp: u16, compressed: bool, data: &[u8]) -> BitmapUpdate<'_> {
    BitmapUpdate {
        x: 0,
        y: 0,
        width: 1,
        height: 1,
        bpp,
        bmp_width: 1,
        bmp_height: 1,
        compressed,
        data: Cow::Borrowed(data),
    }
}

fn shown(bpp: u16, data: &[u8]) -> Vec<u8> {
    let update = bitmap(bpp, false, data);
    let mut scratch = DecodeScratch::default();
    let decoded = decode_bitmap_data(&update, &mut scratch).unwrap();
    let mut frame = vec![0u8; 4];
    apply_bitmap_to_buffer(&mut frame, 1, 1, &update, decoded).unwrap();
    frame
}

#[test]
fn every_depth_has_its_colours() {
    assert_eq!(shown(15, &[0xFF, 0x7F, 0, 0]), [248, 248, 248, 255]);
    assert_eq!(shown(16, &[0x00, 0xF8, 0, 0]), [248, 0, 0, 255]);
    assert_eq!(shown(16, &[0xE0, 0x07, 0, 0]), [0, 252, 0, 255]);
    assert_eq!(shown(24, &[1, 2, 3, 0]), [3, 2, 1, 255]);
    assert_eq!(shown(32, &[1, 2, 3, 4]), [3, 2, 1, 255]);
}

#[test]
fn bitmaps_that_cannot_be_decoded_are_refused() {
    let mut scratch = DecodeScratch::default();
    assert!(decode_bitmap_data(&bitmap(8, false, &[0; 4]), &mut scratch).is_none());
    assert!(decode_bitmap_data(&bitmap(24, false, &[0; 3]), &mut scratch).is_none());
    assert!(decode_bitmap_data(&bitmap(24, true, &[0xFF]), &mut scratch).is_none());
    assert_eq!(scratch.last_rle_status, RleDecodeStatus::Invalid);
    let decoded = DecodedBitmap {
        data: &[0; 4],
        top_down: true,
        stride: 4,
    };
    let mut update = bitmap(24, false, &[]);
    update.x = 9;
    assert!(apply_bitmap_to_buffer(&mut [0; 4], 1, 1, &update, decoded).is_none());
}

fn rect(x: u16, y: u16, width: u16, height: u16) -> DirtyRect {
    DirtyRect { x, y, width, height }
}

#[test]
fn rectangles_are_joined() {
    let both = rect(1, 2, 3, 4).union(rect(0, 5, 2, 2));
    assert_eq!((both.x, both.y, both.width, both.height), (0, 2, 4, 5));
    assert_eq!(rect(1, 2, 3, 4).area(), 12);
    assert_eq!(rect(0xFFF0, 0, 0x20, 1).right(), 0xFFFF);
    assert_eq!(rect(0, 3, 1, 4).bottom(), 7);
}

#[test]
fn many_changes_become_one() {
    let mut picture = Framebuffer::new(100, 100);
    for i in 0..65u16 {
        picture.mark_dirty(rect(i, i, 1, 1));
    }
    assert_eq!(picture.dirty_rects.len(), 1);
    assert_eq!(picture.dirty_area(), 65 * 65);
    assert_eq!(picture.version, 66);
    picture.mark_dirty(rect(100, 0, 1, 1));
    assert_eq!(picture.version, 66);
    picture.mark_dirty(rect(99, 99, 9, 9));
    let last = picture.dirty_rects[1];
    assert_eq!((last.width, last.height), (1, 1));
}

#[test]
fn changes_are_sent_apart_or_together() {
    let mut picture = Framebuffer::new(10, 10);
    picture.mark_dirty(rect(0, 0, 1, 1));
    picture.mark_dirty(rect(4, 4, 1, 1));
    assert_eq!(picture.take_flush_rects(8, false).len(), 2);
    picture.mark_dirty(rect(0, 0, 1, 1));
    picture.mark_dirty(rect(4, 4, 1, 1));
    let joined = picture.take_flush_rects(1, true);
    assert_eq!(joined.len(), 1);
    assert_eq!((joined[0].width, joined[0].height), (5, 5));
    picture.mark_dirty(rect(0, 0, 10, 6));
    picture.mark_dirty(rect(0, 0, 1, 1));
    assert_eq!(picture.take_flush_rects(8, true).len(), 1);
}

#[test]
fn an_event_carries_the_pixels_of_its_rectangle() {
    let mut picture = Framebuffer::new(3, 2);
    for (i, byte) in picture.write_buf.iter_mut().enumerate() {
        *byte = i as u8;
    }
    picture.mark_dirty(rect(1, 0, 1, 2));
    let events = picture.drain_dirty_events("s", 8, false, true);
    assert_eq!(events.len(), 1);
    assert_eq!(events[0].data, [4, 5, 6, 7, 16, 17, 18, 19]);
    assert_eq!((events[0].desktop_width, events[0].desktop_height), (3, 2));
    assert!(!events[0].full_frame);
    assert_eq!(events[0].sequence, 2);
    assert!(picture.drain_dirty_events("s", 8, false, true).is_empty());
}

#[test]
fn a_picture_is_handed_out_once_for_each_change() {
    let mut picture = Framebuffer::new(1, 1);
    assert!(picture.snapshot_for_request().is_none());
    picture.write_buf[0] = 9;
    picture.mark_dirty(rect(0, 0, 1, 1));
    assert_eq!(*picture.snapshot_for_request().unwrap(), [9, 0, 0, 0]);
    assert!(picture.snapshot_for_request().is_none());
    picture.clear();
    assert_eq!(*picture.snapshot_for_request().unwrap(), [0, 0, 0, 0]);
}

#[test]
fn a_dark_picture_is_recognised() {
    let mut picture = Framebuffer::new(64, 100);
    assert!(!picture.is_mostly_black());
    picture.mark_dirty(rect(0, 0, 1, 1));
    assert!(picture.is_mostly_black());
    for row in 0..3 {
        picture.write_buf[row * 256] = 8;
    }
    assert!(!picture.is_mostly_black());
}

fn policy() -> FramePolicy {
    FramePolicy {
        max_fps: 60,
        bandwidth_saving: false,
        stream_pixels: true,
    }
}

const MILLISECOND: u64 = 1_000_000;

#[test]
fn pictures_are_shown_faster_while_there_is_input() {
    let start = 10_000 * MILLISECOND;
    let mut pacer = FramePacer::new(policy(), start);
    assert!(!pacer.should_flush(0, start));
    assert!(pacer.should_flush(1, start));
    assert!(!pacer.should_flush(1, start + 16 * MILLISECOND));
    assert!(pacer.should_flush(1, start + 17 * MILLISECOND));
    let idle = start + 1000 * MILLISECOND;
    assert!(pacer.should_flush(1, idle));
    assert!(!pacer.should_flush(1, idle + 33 * MILLISECOND));
    assert!(pacer.should_flush(1, idle + 34 * MILLISECOND));
    pacer.record_input(idle + 40 * MILLISECOND);
    assert!(pacer.should_flush(1, idle + 51 * MILLISECOND));
}

#[test]
fn a_screen_draws_counts_and_tells() {
    let now = 5_000 * MILLISECOND;
    let mut screen = Screen::new(4, 4, policy(), RdpDebugStats::default(), now);
    let raw = BitmapUpdate {
        x: 1,
        y: 1,
        width: 1,
        height: 1,
        bpp: 24,
        bmp_width: 1,
        bmp_height: 1,
        compressed: false,
        data: Cow::Borrowed(&[1, 2, 3, 0]),
    };
    let broken = BitmapUpdate {
        x: 0,
        y: 0,
        width: 2,
        height: 1,
        bpp: 16,
        bmp_width: 1,
        bmp_height: 1,
        compressed: true,
        data: Cow::Borrowed(&[0xFF]),
    };
    screen.receive(&vec![raw, broken]);
    let counts: DebugCounters = screen.stats.counters;
    assert_eq!(counts.bitmap_rects, 2);
    assert_eq!((counts.compressed_rects, counts.uncompressed_rects), (1, 1));
    assert_eq!((counts.bpp16_rects, counts.bpp24_rects), (1, 1));
    assert_eq!((counts.applied_rects, counts.skipped_rects), (1, 1));
    assert_eq!((counts.rle_invalid, counts.size_mismatch), (1, 1));
    let (events, report) = screen.tick("s", now);
    assert_eq!(events.len(), 1);
    assert_eq!(events[0].data, [3, 2, 1, 255]);
    assert!(report.is_none());
    assert_eq!(screen.stats.counters.emitted_events, 1);
    assert_eq!(screen.stats.counters.emitted_bytes, 4);
    assert!(screen.tick("s", now).0.is_empty());
    assert_eq!(screen.answer().len(), 64);
    assert_eq!(screen.answer().len(), 0);
    assert_eq!(screen.stats.counters.frame_requests, 2);
    assert_eq!(screen.stats.counters.frame_hits, 1);
    assert_eq!(screen.stats.counters.frame_empty, 1);
}

#[test]
fn the_first_picture_is_told_as_a_whole() {
    let mut screen = Screen::new(2, 2, policy(), RdpDebugStats::default(), 0);
    let events = screen.show_first("s");
    assert_eq!(events.len(), 1);
    assert!(events[0].full_frame);
    assert_eq!(events[0].data, [0; 16]);
    screen.picture.write_buf.fill(7);
    screen.restart();
    assert_eq!(screen.picture.write_buf, [0; 16]);
    assert_eq!(screen.picture.dirty_rects.len(), 1);
}

fn debugging_profile() -> RdpProfile {
    let mut extra = Settings::new();
    extra.insert("portix_debug".to_owned(), "yes".to_owned());
    RdpProfile {
        id: "p".into(),
        name: "n".into(),
        host: "h".into(),
        port: 1,
        username: String::new(),
        password: None,
        domain: None,
        width: 1,
        height: 1,
        screen_mode: 1,
        extra,
    }
}

#[test]
fn counts_are_reported_once_a_second() {
    let mut stats = RdpDebugStats::new(&debugging_profile(), None);
    assert!(stats.enabled);
    assert!(stats.tick(1_000 * MILLISECOND).is_none());
    stats.counters.pdus = 3;
    let update = BitmapUpdate {
        x: 1,
        y: 2,
        width: 3,
        height: 4,
        bpp: 16,
        bmp_width: 5,
        bmp_height: 6,
        compressed: true,
        data: Cow::Borrowed(&[0; 7]),
    };
    stats.record_size_mismatch(&update);
    assert!(stats.tick(1_999 * MILLISECOND).is_none());
    let report = stats.tick(2_500 * MILLISECOND).unwrap();
    assert_eq!(report.elapsed, 1_500 * MILLISECOND);
    assert_eq!(report.counters.pdus, 3);
    assert_eq!(report.mismatch_samples, ["@1,2 dst=3x4 bmp=5x6 bpp=16 comp=true len=7"]);
    assert_eq!(stats.counters.pdus, 0);
    assert!(stats.mismatch_samples.is_empty());
    assert!(!RdpDebugStats::new(
        &RdpProfile {
            extra: Settings::new(),
            ..debugging_profile()
        },
        Some("0")
    )
    .enabled);
}
