//! Counters for diagnosis, and when they are reported.

use vstd::prelude::*;

use crate::bitmap::{cow_bytes, BitmapUpdate, BitmapView};
use crate::policy::{is_on, switched_on};
use crate::profile::RdpProfile;
use crate::settings::lookup_either;
use crate::text::{chars_of, decimal, extend, push_decimal, text_of, texts};

verus! {

/// Nanoseconds between two reports.
pub const REPORT_INTERVAL: u64 = 1_000_000_000;

/// Most bitmaps of unexpected size that one report describes.
pub const MAX_SAMPLES: usize = 8;

/// What has happened since the last report.
#[derive(Clone, Copy, Debug)]
pub struct DebugCounters {
    pub read_bytes: usize,
    pub pdus: usize,
    pub bitmap_rects: usize,
    pub compressed_rects: usize,
    pub uncompressed_rects: usize,
    pub bpp15_rects: usize,
    pub bpp16_rects: usize,
    pub bpp24_rects: usize,
    pub bpp32_rects: usize,
    pub applied_rects: usize,
    pub skipped_rects: usize,
    pub emitted_events: usize,
    pub emitted_bytes: usize,
    pub frame_requests: usize,
    pub frame_hits: usize,
    pub frame_empty: usize,
    pub keep_awake_events: usize,
    pub rle_partial: usize,
    pub rle_invalid: usize,
    pub size_mismatch: usize,
    pub fastpath_orders: usize,
}

/// Counters that stand at zero.
pub open spec fn no_counts() -> DebugCounters {
    DebugCounters {
        read_bytes: 0,
        pdus: 0,
        bitmap_rects: 0,
        compressed_rects: 0,
        uncompressed_rects: 0,
        bpp15_rects: 0,
        bpp16_rects: 0,
        bpp24_rects: 0,
        bpp32_rects: 0,
        applied_rects: 0,
        skipped_rects: 0,
        emitted_events: 0,
        emitted_bytes: 0,
        frame_requests: 0,
        frame_hits: 0,
        frame_empty: 0,
        keep_awake_events: 0,
        rle_partial: 0,
        rle_invalid: 0,
        size_mismatch: 0,
        fastpath_orders: 0,
    }
}

impl Default for DebugCounters {
    fn default() -> (counters: Self)
        ensures
            counters == no_counts(),
    {
        DebugCounters {
            read_bytes: 0,
            pdus: 0,
            bitmap_rects: 0,
            compressed_rects: 0,
            uncompressed_rects: 0,
            bpp15_rects: 0,
            bpp16_rects: 0,
            bpp24_rects: 0,
            bpp32_rects: 0,
            applied_rects: 0,
            skipped_rects: 0,
            emitted_events: 0,
            emitted_bytes: 0,
            frame_requests: 0,
            frame_hits: 0,
            frame_empty: 0,
            keep_awake_events: 0,
            rle_partial: 0,
            rle_invalid: 0,
            size_mismatch: 0,
            fastpath_orders: 0,
        }
    }
}

/// One more than `count`; a counter that is full begins again at zero.
pub open spec fn bumped(count: usize) -> usize {
    if count == usize::MAX {
        0
    } else {
        (count + 1) as usize
    }
}

/// `count` raised by `by`, modulo the range of the counter.
pub open spec fn raised(count: usize, by: usize) -> usize {
    if count + by > usize::MAX {
        (count + by - usize::MAX - 1) as usize
    } else {
        (count + by) as usize
    }
}

/// One more than `count`.
pub fn bump(count: usize) -> (next: usize)
    ensures
        next == bumped(count),
{
    if count == usize::MAX {
        0
    } else {
        count + 1
    }
}

/// `count` raised by `by`.
pub fn raise(count: usize, by: usize) -> (next: usize)
    ensures
        next == raised(count, by),
{
    if by > usize::MAX - count {
        by - (usize::MAX - count) - 1
    } else {
        count + by
    }
}

/// What is reported of the time since the last report.
#[derive(Clone, Debug)]
pub struct DebugReport {
    /// Nanoseconds since the last report.
    pub elapsed: u64,
    pub counters: DebugCounters,
    pub mismatch_samples: Vec<String>,
}

/// Counters, and when they were reported last.
#[derive(Clone, Debug)]
pub struct RdpDebugStats {
    pub enabled: bool,
    /// When the last report was made, in nanoseconds.
    pub last_log: Option<u64>,
    pub counters: DebugCounters,
    pub mismatch_samples: Vec<String>,
}

/// What an [`RdpDebugStats`] holds.
#[verifier::ext_equal]
pub struct StatsView {
    pub enabled: bool,
    pub last_log: Option<u64>,
    pub counters: DebugCounters,
    pub samples: Seq<Seq<char>>,
}

impl View for RdpDebugStats {
    type V = StatsView;

    open spec fn view(&self) -> StatsView {
        StatsView {
            enabled: self.enabled,
            last_log: self.last_log,
            counters: self.counters,
            samples: texts(self.mismatch_samples@),
        }
    }
}

impl StatsView {
    /// Before anything has happened.
    pub open spec fn fresh(enabled: bool) -> StatsView {
        StatsView { enabled, last_log: None, counters: no_counts(), samples: Seq::empty() }
    }

    /// Whether a report is made at `now`: reports are enabled, and the last, or
    /// the first time that one was thought of, lies at least a second back.
    pub open spec fn due(self, now: u64) -> bool {
        &&& self.enabled
        &&& self.last_log matches Some(last)
        &&& now >= last + REPORT_INTERVAL
    }

    /// When it was told that it is `now`.
    pub open spec fn ticked(self, now: u64) -> StatsView {
        if self.due(now) {
            StatsView { last_log: Some(now), ..StatsView::fresh(true) }
        } else if self.enabled && self.last_log is None {
            StatsView { last_log: Some(now), ..self }
        } else {
            self
        }
    }

    /// When a bitmap was counted whose size is not that of its rectangle.
    pub open spec fn mismatched(self, update: BitmapView) -> StatsView {
        StatsView {
            counters: DebugCounters {
                size_mismatch: bumped(self.counters.size_mismatch),
                ..self.counters
            },
            samples: if self.enabled && self.samples.len() < MAX_SAMPLES {
                self.samples.push(sample_text(update))
            } else {
                self.samples
            },
            ..self
        }
    }
}

impl Default for RdpDebugStats {
    fn default() -> (stats: Self)
        ensures
            stats@ == StatsView::fresh(false),
    {
        RdpDebugStats {
            enabled: false,
            last_log: None,
            counters: DebugCounters::default(),
            mismatch_samples: Vec::new(),
        }
    }
}

pub open spec fn flag_text(flag: bool) -> Seq<char> {
    if flag {
        "true"@
    } else {
        "false"@
    }
}

/// How a report describes a bitmap.
pub open spec fn sample_text(update: BitmapView) -> Seq<char> {
    "@"@ + decimal(update.x as nat) + ","@ + decimal(update.y as nat) + " dst="@ + decimal(
        update.width as nat,
    ) + "x"@ + decimal(update.height as nat) + " bmp="@ + decimal(update.bmp_width as nat) + "x"@
        + decimal(update.bmp_height as nat) + " bpp="@ + decimal(update.bpp as nat) + " comp="@
        + flag_text(update.compressed) + " len="@ + decimal(update.data.len())
}

/// Appends `label` and then `n` in decimal digits.
fn push_field(out: &mut Vec<char>, label: &str, n: u64)
    ensures
        final(out)@ == old(out)@ + label@ + decimal(n as nat),
{
    let chars = chars_of(label);
    extend(out, chars.as_slice());
    push_decimal(out, n);
}

/// How a report describes a bitmap.
fn describe(update: &BitmapUpdate<'_>) -> (text: String)
    ensures
        text@ == sample_text(update@),
{
    let mut out: Vec<char> = Vec::new();
    let at = chars_of("@");
    extend(&mut out, at.as_slice());
    assert(out@ =~= "@"@);
    push_decimal(&mut out, update.x as u64);
    push_field(&mut out, ",", update.y as u64);
    push_field(&mut out, " dst=", update.width as u64);
    push_field(&mut out, "x", update.height as u64);
    push_field(&mut out, " bmp=", update.bmp_width as u64);
    push_field(&mut out, "x", update.bmp_height as u64);
    push_field(&mut out, " bpp=", update.bpp as u64);
    let label = chars_of(" comp=");
    extend(&mut out, label.as_slice());
    let flag = chars_of(
        if update.compressed {
            "true"
        } else {
            "false"
        },
    );
    extend(&mut out, flag.as_slice());
    push_field(&mut out, " len=", cow_bytes(&update.data).len() as u64);
    text_of(out.as_slice())
}

impl RdpDebugStats {
    /// Counters of a session: they are reported where the environment's
    /// setting, or one of the profile, asks for it.
    pub fn new(profile: &RdpProfile, environment: Option<&str>) -> (stats: Self)
        ensures
            stats.enabled == ((environment matches Some(value) && switched_on(value@)) || (
            lookup_either(profile.extra@, "portix_debug"@, "debug"@) matches Some(value)
                && switched_on(value))),
            stats@ == StatsView::fresh(stats.enabled),
    {
        let mut enabled = false;
        if let Some(value) = environment {
            enabled = is_on(value);
        }
        if let Some(value) = profile.extra.get_either("portix_debug", "debug") {
            enabled = enabled || is_on(value.as_str());
        }
        RdpDebugStats {
            enabled,
            last_log: None,
            counters: DebugCounters::default(),
            mismatch_samples: Vec::new(),
        }
    }

    /// Tells that it is `now`, and takes the counts where a report is due.
    pub fn tick(&mut self, now: u64) -> (report: Option<DebugReport>)
        ensures
            final(self)@ == old(self)@.ticked(now),
            match report {
                Some(r) => old(self)@.due(now) && r.elapsed == now - old(self)@.last_log->0
                    && r.counters == old(self)@.counters && texts(r.mismatch_samples@) == old(
                    self,
                )@.samples,
                None => !old(self)@.due(now),
            },
    {
        if !self.enabled {
            return None;
        }
        match self.last_log {
            None => {
                self.last_log = Some(now);
                None
            },
            Some(last) => {
                if now < last || now - last < REPORT_INTERVAL {
                    return None;
                }
                let mut samples: Vec<String> = Vec::new();
                std::mem::swap(&mut samples, &mut self.mismatch_samples);
                let report = DebugReport {
                    elapsed: now - last,
                    counters: self.counters,
                    mismatch_samples: samples,
                };
                self.last_log = Some(now);
                self.counters = DebugCounters::default();
                Some(report)
            },
        }
    }

    /// Counts a bitmap whose size is not that of the rectangle it is drawn in.
    pub fn record_size_mismatch(&mut self, update: &BitmapUpdate<'_>)
        ensures
            final(self)@ == old(self)@.mismatched(update@),
    {
        self.counters.size_mismatch = bump(self.counters.size_mismatch);
        if self.enabled && self.mismatch_samples.len() < MAX_SAMPLES {
            let text = describe(update);
            self.mismatch_samples.push(text);
        }
    }
}

} // verus!
