//! What is seen of the remote desktop: its picture, when changes are shown, and
//! the counts that are kept of both.

use std::sync::Arc;

use vstd::prelude::*;

use crate::bitmap::{
    addressable, apply_bitmap_to_buffer, decode_bitmap_data, decode_status, decoded_pixels,
    drawing, lemma_rows_addressable, updates_view, BitmapUpdate, BitmapView, DecodeScratch,
};
use crate::framebuffer::{
    events_view, lemma_total_area_bound, total_area, DirtyRect, FrameEventView, Framebuffer,
    PictureView, RdpFrameEvent, MAX_DIRTY_RECTS,
};
use crate::handshake::Attempt;
use crate::policy::{FramePacer, FramePolicy};
use crate::profile::text_view;
use crate::rle::RleDecodeStatus;
use crate::session::{status_event, ConnectionStatus, ConnectionStatusEvent};
use crate::stats::{
    bump, bumped, raise, raised, DebugCounters, DebugReport, RdpDebugStats, StatsView,
};
use crate::text::texts;

verus! {

/// What is seen of the remote desktop.
pub struct Screen {
    pub picture: Framebuffer,
    pub pacer: FramePacer,
    pub stats: RdpDebugStats,
    pub scratch: DecodeScratch,
}

/// What a [`Screen`] holds.
#[verifier::ext_equal]
pub struct ScreenView {
    pub picture: PictureView,
    pub pacer: FramePacer,
    pub stats: StatsView,
}

impl View for Screen {
    type V = ScreenView;

    open spec fn view(&self) -> ScreenView {
        ScreenView { picture: self.picture@, pacer: self.pacer, stats: self.stats@ }
    }
}

/// The counts after a bitmap has come.
pub open spec fn rectangle_counts(counts: DebugCounters, update: BitmapView) -> DebugCounters {
    let by_form = if update.compressed {
        DebugCounters { compressed_rects: bumped(counts.compressed_rects), ..counts }
    } else {
        DebugCounters { uncompressed_rects: bumped(counts.uncompressed_rects), ..counts }
    };
    if update.bpp == 15 {
        DebugCounters { bpp15_rects: bumped(by_form.bpp15_rects), ..by_form }
    } else if update.bpp == 16 {
        DebugCounters { bpp16_rects: bumped(by_form.bpp16_rects), ..by_form }
    } else if update.bpp == 24 {
        DebugCounters { bpp24_rects: bumped(by_form.bpp24_rects), ..by_form }
    } else if update.bpp == 32 {
        DebugCounters { bpp32_rects: bumped(by_form.bpp32_rects), ..by_form }
    } else {
        by_form
    }
}

/// The counts after a bitmap that could not be decoded.
pub open spec fn undecoded_counts(counts: DebugCounters, update: BitmapView) -> DebugCounters {
    let by_cause = match decode_status(update) {
        RleDecodeStatus::Partial => DebugCounters {
            rle_partial: bumped(counts.rle_partial),
            ..counts
        },
        RleDecodeStatus::Invalid => DebugCounters {
            rle_invalid: bumped(counts.rle_invalid),
            ..counts
        },
        RleDecodeStatus::Complete => counts,
    };
    DebugCounters { skipped_rects: bumped(by_cause.skipped_rects), ..by_cause }
}

/// The counts after events have been told.
pub open spec fn told_counts(counts: DebugCounters, events: Seq<FrameEventView>) -> DebugCounters
    decreases events.len(),
{
    if events.len() == 0 {
        counts
    } else {
        let before = told_counts(counts, events.drop_last());
        DebugCounters {
            emitted_events: bumped(before.emitted_events),
            emitted_bytes: raised(before.emitted_bytes, events.last().data.len() as usize),
            ..before
        }
    }
}

impl ScreenView {
    /// With other counts.
    pub open spec fn counting(self, counters: DebugCounters) -> ScreenView {
        ScreenView { stats: StatsView { counters, ..self.stats }, ..self }
    }

    /// The counts of a bitmap, whether or not it is drawn.
    pub open spec fn counted(self, update: BitmapView) -> ScreenView {
        let seen = self.counting(rectangle_counts(self.stats.counters, update));
        if update.bmp_width != update.width || update.bmp_height != update.height {
            ScreenView { stats: seen.stats.mismatched(update), ..seen }
        } else {
            seen
        }
    }

    /// When a bitmap has come: it is drawn and reported as changed, or skipped.
    pub open spec fn updated(self, update: BitmapView) -> ScreenView {
        let seen = self.counted(update);
        let counts = seen.stats.counters;
        match decoded_pixels(update) {
            None => seen.counting(undecoded_counts(counts, update)),
            Some((pixels, top_down, stride)) => match drawing(
                self.picture.pixels.len(),
                self.picture.width as u16,
                self.picture.height as u16,
                update,
                pixels,
                top_down,
                stride,
            ) {
                None => seen.counting(
                    DebugCounters { skipped_rects: bumped(counts.skipped_rects), ..counts },
                ),
                Some(plan) => ScreenView {
                    picture: PictureView {
                        pixels: plan.drawn(self.picture.width as u16, self.picture.pixels),
                        ..self.picture
                    }.marked(
                        DirtyRect {
                            x: update.x,
                            y: update.y,
                            width: plan.draw_width as u16,
                            height: plan.draw_height as u16,
                        },
                    ),
                    ..seen.counting(
                        DebugCounters { applied_rects: bumped(counts.applied_rects), ..counts },
                    )
                },
            },
        }
    }

    /// When bitmaps have come, one after the other.
    pub open spec fn updated_all(self, updates: Seq<BitmapView>) -> ScreenView
        decreases updates.len(),
    {
        if updates.len() == 0 {
            self
        } else {
            self.updated_all(updates.drop_last()).updated(updates.last())
        }
    }

    /// When the bitmaps of a packet have come.
    pub open spec fn received(self, updates: Seq<BitmapView>) -> ScreenView {
        let counts = self.stats.counters;
        self.counting(
            DebugCounters {
                bitmap_rects: raised(counts.bitmap_rects, updates.len() as usize),
                ..counts
            },
        ).updated_all(updates)
    }

    /// The events that are told at `now`, if it is time for any.
    pub open spec fn due_events(self, session_id: Seq<char>, now: u64) -> Seq<FrameEventView> {
        let saving = self.pacer.policy.bandwidth_saving;
        if self.pacer.due(total_area(self.picture.rects), now) {
            self.picture.events(
                session_id,
                if saving {
                    16
                } else {
                    8
                },
                saving,
                self.pacer.policy.stream_pixels,
            )
        } else {
            Seq::empty()
        }
    }

    /// When it is `now`, and what is due has been told.
    pub open spec fn ticked(self, session_id: Seq<char>, now: u64) -> ScreenView {
        let due = self.pacer.due(total_area(self.picture.rects), now);
        let told = StatsView {
            counters: told_counts(self.stats.counters, self.due_events(session_id, now)),
            ..self.stats
        };
        ScreenView {
            picture: if due {
                self.picture.drained()
            } else {
                self.picture
            },
            pacer: if due {
                FramePacer { last_emit: now, ..self.pacer }
            } else {
                self.pacer
            },
            stats: told.ticked(now),
        }
    }

    /// The picture is new as a whole.
    pub open spec fn renewed(self) -> ScreenView {
        ScreenView { picture: self.picture.marked(self.picture.everything()), ..self }
    }

    /// The events that are told when the remote desktop is first active.
    pub open spec fn first_events(self, session_id: Seq<char>) -> Seq<FrameEventView> {
        self.renewed().picture.events(session_id, 1, false, self.pacer.policy.stream_pixels)
    }

    /// When these have been told.
    pub open spec fn first_shown(self, session_id: Seq<char>) -> ScreenView {
        ScreenView {
            picture: self.renewed().picture.drained(),
            ..self.counting(
                told_counts(self.stats.counters, self.first_events(session_id)),
            )
        }
    }

    /// When the picture was asked for.
    pub open spec fn requested(self) -> ScreenView {
        let counts = DebugCounters {
            frame_requests: bumped(self.stats.counters.frame_requests),
            ..self.stats.counters
        };
        ScreenView {
            picture: self.picture.requested().0,
            ..self.counting(
                if self.answer().len() == 0 {
                    DebugCounters { frame_empty: bumped(counts.frame_empty), ..counts }
                } else {
                    DebugCounters { frame_hits: bumped(counts.frame_hits), ..counts }
                },
            )
        }
    }

    /// What the request is answered: the picture where it has changed, nothing
    /// else.
    pub open spec fn answer(self) -> Seq<u8> {
        match self.picture.requested().1 {
            Some(picture) => picture,
            None => Seq::empty(),
        }
    }
}

/// Whatever bitmaps come, the picture keeps its size.
pub proof fn picture_keeps_its_size(screen: ScreenView, updates: Seq<BitmapView>)
    ensures
        screen.updated_all(updates).picture.pixels.len() == screen.picture.pixels.len(),
        screen.updated_all(updates).picture.width == screen.picture.width,
        screen.updated_all(updates).picture.height == screen.picture.height,
    decreases updates.len(),
{
    if updates.len() > 0 {
        picture_keeps_its_size(screen, updates.drop_last());
    }
}

impl Screen {
    /// The picture is whole and not too large, and there is a rate at which it
    /// is shown.
    pub open spec fn wf(self) -> bool {
        &&& self.picture.wf()
        &&& self.picture.width <= 0xFFFF
        &&& self.picture.height <= 0xFFFF
        &&& self.picture.width * self.picture.height * MAX_DIRTY_RECTS <= usize::MAX
        &&& self.pacer.policy.bandwidth_saving || self.pacer.policy.max_fps > 0
    }

    /// A black screen at `now`.
    pub fn new(width: u16, height: u16, policy: FramePolicy, stats: RdpDebugStats, now: u64) -> (
        screen: Self)
        requires
            width * height * MAX_DIRTY_RECTS <= usize::MAX,
            policy.bandwidth_saving || policy.max_fps > 0,
        ensures
            screen.wf(),
            screen@.picture == PictureView::blank(width as nat, height as nat),
            screen@.pacer.policy == policy,
            screen@.pacer.last_input == now,
            screen@.pacer.last_emit == (if now >= 1_000_000_000 {
                (now - 1_000_000_000) as u64
            } else {
                now
            }),
            screen@.stats == stats@,
    {
        proof {
            assert(0 <= width * height && width * height * 4 <= usize::MAX) by (nonlinear_arith)
                requires
                    0 <= width,
                    0 <= height,
                    width * height * 64 <= usize::MAX,
            ;
        }
        Screen {
            picture: Framebuffer::new(width as usize, height as usize),
            pacer: FramePacer::new(policy, now),
            stats,
            scratch: DecodeScratch::default(),
        }
    }

    /// Counts a bitmap.
    fn count(&mut self, update: &BitmapUpdate<'_>)
        ensures
            final(self)@ == old(self)@.counted(update@),
            final(self).picture == old(self).picture,
            final(self).pacer == old(self).pacer,
    {
        if update.compressed {
            self.stats.counters.compressed_rects = bump(self.stats.counters.compressed_rects);
        } else {
            self.stats.counters.uncompressed_rects = bump(self.stats.counters.uncompressed_rects);
        }
        match update.bpp {
            15 => self.stats.counters.bpp15_rects = bump(self.stats.counters.bpp15_rects),
            16 => self.stats.counters.bpp16_rects = bump(self.stats.counters.bpp16_rects),
            24 => self.stats.counters.bpp24_rects = bump(self.stats.counters.bpp24_rects),
            32 => self.stats.counters.bpp32_rects = bump(self.stats.counters.bpp32_rects),
            _ => {},
        }
        if update.bmp_width != update.width || update.bmp_height != update.height {
            self.stats.record_size_mismatch(update);
        }
    }

    /// Draws a bitmap, or skips it.
    pub fn draw(&mut self, update: &BitmapUpdate<'_>)
        requires
            old(self).wf(),
            addressable(update@),
        ensures
            final(self).wf(),
            final(self)@ == old(self)@.updated(update@),
    {
        self.count(update);
        let width = self.picture.width as u16;
        let height = self.picture.height as u16;
        match decode_bitmap_data(update, &mut self.scratch) {
            Some(decoded) => {
                proof {
                    lemma_rows_addressable(update@);
                }
                match apply_bitmap_to_buffer(
                    self.picture.write_buf.as_mut_slice(),
                    width,
                    height,
                    update,
                    decoded,
                ) {
                    Some(rect) => {
                        self.picture.mark_dirty(rect);
                        self.stats.counters.applied_rects =
                        bump(self.stats.counters.applied_rects);
                    },
                    None => {
                        self.stats.counters.skipped_rects =
                        bump(self.stats.counters.skipped_rects);
                    },
                }
            },
            None => {
                if update.compressed {
                    match self.scratch.last_rle_status {
                        RleDecodeStatus::Partial => {
                            self.stats.counters.rle_partial =
                            bump(self.stats.counters.rle_partial);
                        },
                        RleDecodeStatus::Invalid => {
                            self.stats.counters.rle_invalid =
                            bump(self.stats.counters.rle_invalid);
                        },
                        RleDecodeStatus::Complete => {},
                    }
                }
                self.stats.counters.skipped_rects = bump(self.stats.counters.skipped_rects);
            },
        }
    }

    /// Takes in the bitmaps of a packet.
    pub fn receive(&mut self, updates: &Vec<BitmapUpdate<'_>>)
        requires
            old(self).wf(),
            forall|i: int|
                0 <= i < updates@.len() ==> addressable(#[trigger] updates_view(updates@)[i]),
        ensures
            final(self).wf(),
            final(self)@ == old(self)@.received(updates_view(updates@)),
    {
        let ghost all = updates_view(updates@);
        self.stats.counters.bitmap_rects = raise(
            self.stats.counters.bitmap_rects,
            updates.len(),
        );
        let ghost start = self@;
        let mut i: usize = 0;
        assert(all.take(0) =~= Seq::<BitmapView>::empty());
        while i < updates.len()
            invariant
                self.wf(),
                i <= updates@.len(),
                all == updates_view(updates@),
                forall|j: int| 0 <= j < updates@.len() ==> addressable(#[trigger] all[j]),
                self@ == start.updated_all(all.take(i as int)),
            decreases updates@.len() - i,
        {
            assert(addressable(all[i as int]));
            self.draw(&updates[i]);
            assert(all.take(i + 1).drop_last() =~= all.take(i as int));
            i += 1;
        }
        assert(all.take(i as int) =~= all);
    }

    /// Counts events that are told.
    fn count_events(&mut self, events: &Vec<RdpFrameEvent>)
        ensures
            final(self)@ == old(self)@.counting(
                told_counts(old(self)@.stats.counters, events_view(events@)),
            ),
            final(self).picture == old(self).picture,
            final(self).pacer == old(self).pacer,
    {
        let ghost all = events_view(events@);
        let ghost start = self@;
        let mut i: usize = 0;
        assert(all.take(0) =~= Seq::<FrameEventView>::empty());
        while i < events.len()
            invariant
                i <= events@.len(),
                all == events_view(events@),
                start == old(self)@,
                self@ == start.counting(told_counts(start.stats.counters, all.take(i as int))),
                self.picture == old(self).picture,
                self.pacer == old(self).pacer,
            decreases events@.len() - i,
        {
            let size = events[i].data.len();
            self.stats.counters.emitted_events = bump(self.stats.counters.emitted_events);
            self.stats.counters.emitted_bytes = raise(self.stats.counters.emitted_bytes, size);
            assert(all.take(i + 1).drop_last() =~= all.take(i as int));
            assert(all.take(i + 1).last() == events@[i as int]@);
            i += 1;
        }
        assert(all.take(i as int) =~= all);
    }

    /// Tells that it is `now`: the events and the report that are due.
    pub fn tick(&mut self, session_id: &str, now: u64) -> (due: (
        Vec<RdpFrameEvent>,
        Option<DebugReport>,
    ))
        requires
            old(self).wf(),
        ensures
            final(self).wf(),
            final(self)@ == old(self)@.ticked(session_id@, now),
            events_view(due.0@) == old(self)@.due_events(session_id@, now),
            match due.1 {
                Some(report) => {
                    &&& old(self)@.stats.due(now)
                    &&& report.elapsed == now - old(self)@.stats.last_log->0
                    &&& report.counters == told_counts(
                        old(self)@.stats.counters,
                        events_view(due.0@),
                    )
                    &&& texts(report.mismatch_samples@) == old(self)@.stats.samples
                },
                None => !old(self)@.stats.due(now),
            },
    {
        proof {
            self.lemma_dirty_area();
        }
        let mut events: Vec<RdpFrameEvent> = Vec::new();
        assert(events_view(events@) =~= Seq::<FrameEventView>::empty());
        let dirty_area = self.picture.dirty_area();
        if self.pacer.should_flush(dirty_area, now) {
            let saving = self.pacer.policy.bandwidth_saving;
            let regions: usize = if saving {
                16
            } else {
                8
            };
            let pixels = self.pacer.policy.stream_pixels;
            events = self.picture.drain_dirty_events(session_id, regions, saving, pixels);
        }
        self.count_events(&events);
        let report = self.stats.tick(now);
        (events, report)
    }

    /// What has changed can be counted.
    proof fn lemma_dirty_area(&self)
        requires
            self.wf(),
        ensures
            total_area(self.picture.dirty_rects@) <= usize::MAX,
    {
        let rects = self.picture.dirty_rects@;
        let area = self@.picture.width * self@.picture.height;
        lemma_total_area_bound(rects, self@.picture.width, self@.picture.height);
        assert(rects.len() * area <= area * MAX_DIRTY_RECTS) by (nonlinear_arith)
            requires
                0 <= rects.len() <= MAX_DIRTY_RECTS,
                0 <= area,
        ;
    }

    /// The remote desktop is active for the first time: the events that tell of
    /// it.
    pub fn show_first(&mut self, session_id: &str) -> (events: Vec<RdpFrameEvent>)
        requires
            old(self).wf(),
        ensures
            final(self).wf(),
            final(self)@ == old(self)@.first_shown(session_id@),
            events_view(events@) == old(self)@.first_events(session_id@),
    {
        let width = self.picture.width as u16;
        let height = self.picture.height as u16;
        self.picture.mark_dirty(DirtyRect { x: 0, y: 0, width, height });
        proof {
            self.lemma_dirty_area();
        }
        let pixels = self.pacer.policy.stream_pixels;
        let events = self.picture.drain_dirty_events(session_id, 1, false, pixels);
        self.count_events(&events);
        events
    }

    /// The remote desktop is active again: the picture begins anew.
    pub fn restart(&mut self)
        requires
            old(self).wf(),
        ensures
            final(self).wf(),
            final(self)@ == (ScreenView { picture: old(self)@.picture.cleared(), ..old(self)@ }),
    {
        self.picture.clear();
    }

    /// The remote desktop is active, at the end of an attempt: how the
    /// connection stands, where that is announced, and the events that tell of
    /// the first picture. Else the picture begins anew.
    pub fn activate(&mut self, session_id: &str, attempt: &Attempt) -> (told: (
        Option<ConnectionStatusEvent>,
        Vec<RdpFrameEvent>,
    ))
        requires
            old(self).wf(),
        ensures
            final(self).wf(),
            if attempt.announce {
                &&& final(self)@ == old(self)@.first_shown(session_id@)
                &&& told.0 matches Some(event)
                &&& event.session_id@ == session_id@
                &&& event.status == ConnectionStatus::Connected
                &&& text_view(event.message) == Some("connected"@)
                &&& events_view(told.1@) == old(self)@.first_events(session_id@)
            } else {
                &&& final(self)@ == (ScreenView {
                    picture: old(self)@.picture.cleared(),
                    ..old(self)@
                })
                &&& told.0 is None
                &&& told.1@.len() == 0
            },
    {
        if attempt.announce {
            let status = status_event(session_id, ConnectionStatus::Connected, Some("connected"));
            (Some(status), self.show_first(session_id))
        } else {
            self.restart();
            (None, Vec::new())
        }
    }

    /// Answers a request for the picture.
    pub fn answer(&mut self) -> (picture: Arc<Vec<u8>>)
        requires
            old(self).wf(),
        ensures
            final(self).wf(),
            final(self)@ == old(self)@.requested(),
            picture@ == old(self)@.answer(),
    {
        self.stats.counters.frame_requests = bump(self.stats.counters.frame_requests);
        let picture = match self.picture.snapshot_for_request() {
            Some(picture) => picture,
            None => Arc::new(Vec::new()),
        };
        if picture.len() == 0 {
            self.stats.counters.frame_empty = bump(self.stats.counters.frame_empty);
        } else {
            self.stats.counters.frame_hits = bump(self.stats.counters.frame_hits);
        }
        picture
    }
}

} // verus!
