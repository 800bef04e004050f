//! The picture of the remote desktop, and which parts of it have changed.

use std::sync::Arc;

use vstd::prelude::*;

use crate::wire::{put_bytes, put_zeros, zeros};

verus! {

/// Most rectangles that are kept apart before they are merged into one.
pub const MAX_DIRTY_RECTS: usize = 64;

/// A rectangle of the picture.
#[derive(Clone, Copy, Debug)]
pub struct DirtyRect {
    pub x: u16,
    pub y: u16,
    pub width: u16,
    pub height: u16,
}

impl Default for DirtyRect {
    fn default() -> (rect: Self)
        ensures
            rect == (DirtyRect { x: 0, y: 0, width: 0, height: 0 }),
    {
        DirtyRect { x: 0, y: 0, width: 0, height: 0 }
    }
}

/// `low + length`, or the largest `u16` where that is exceeded.
pub open spec fn far_edge(low: u16, length: u16) -> u16 {
    if low + length > u16::MAX {
        u16::MAX
    } else {
        (low + length) as u16
    }
}

pub open spec fn smaller(a: u16, b: u16) -> u16 {
    if a <= b {
        a
    } else {
        b
    }
}

pub open spec fn larger(a: u16, b: u16) -> u16 {
    if a >= b {
        a
    } else {
        b
    }
}

impl DirtyRect {
    /// Number of pixels.
    pub open spec fn spec_area(self) -> nat {
        (self.width * self.height) as nat
    }

    /// The smallest rectangle that holds both.
    pub open spec fn joined(self, other: DirtyRect) -> DirtyRect {
        let x = smaller(self.x, other.x);
        let y = smaller(self.y, other.y);
        let right = larger(far_edge(self.x, self.width), far_edge(other.x, other.width));
        let bottom = larger(far_edge(self.y, self.height), far_edge(other.y, other.height));
        DirtyRect { x, y, width: (right - x) as u16, height: (bottom - y) as u16 }
    }

    /// Whether all of it lies in a picture of `width` columns and `height` rows.
    pub open spec fn inside(self, width: nat, height: nat) -> bool {
        self.x + self.width <= width && self.y + self.height <= height
    }

    /// Number of pixels.
    pub fn area(self) -> (area: usize)
        ensures
            area == self.spec_area(),
    {
        proof {
            lemma_area(self);
        }
        self.width as usize * self.height as usize
    }

    /// The column behind the last.
    pub fn right(self) -> (right: u16)
        ensures
            right == far_edge(self.x, self.width),
    {
        self.x.saturating_add(self.width)
    }

    /// The row below the last.
    pub fn bottom(self) -> (bottom: u16)
        ensures
            bottom == far_edge(self.y, self.height),
    {
        self.y.saturating_add(self.height)
    }

    /// The smallest rectangle that holds both.
    pub fn union(self, other: Self) -> (both: Self)
        ensures
            both == self.joined(other),
    {
        let left = if self.x <= other.x {
            self.x
        } else {
            other.x
        };
        let top = if self.y <= other.y {
            self.y
        } else {
            other.y
        };
        let right = if self.right() >= other.right() {
            self.right()
        } else {
            other.right()
        };
        let bottom = if self.bottom() >= other.bottom() {
            self.bottom()
        } else {
            other.bottom()
        };
        DirtyRect { x: left, y: top, width: right - left, height: bottom - top }
    }
}

proof fn lemma_area(rect: DirtyRect)
    ensures
        0 <= rect.width * rect.height <= 0xFFFF * 0xFFFF,
{
    assert(0 <= rect.width * rect.height <= 0xFFFF * 0xFFFF) by (nonlinear_arith)
        requires
            0 <= rect.width <= 0xFFFF,
            0 <= rect.height <= 0xFFFF,
    ;
}

/// A joined rectangle holds both that it was made of.
pub proof fn joined_holds_both(a: DirtyRect, b: DirtyRect)
    requires
        a.inside(0xFFFF, 0xFFFF),
        b.inside(0xFFFF, 0xFFFF),
    ensures
        ({
            let both = a.joined(b);
            &&& both.x <= a.x && a.x + a.width <= both.x + both.width
            &&& both.y <= a.y && a.y + a.height <= both.y + both.height
            &&& both.x <= b.x && b.x + b.width <= both.x + both.width
            &&& both.y <= b.y && b.y + b.height <= both.y + both.height
        }),
{
}

/// `first` joined with each of `rest`.
pub open spec fn joined_all(first: DirtyRect, rest: Seq<DirtyRect>) -> DirtyRect
    decreases rest.len(),
{
    if rest.len() == 0 {
        first
    } else {
        joined_all(first, rest.drop_last()).joined(rest.last())
    }
}

/// Number of pixels in `rects`, counting each as often as it is covered.
pub open spec fn total_area(rects: Seq<DirtyRect>) -> nat
    decreases rects.len(),
{
    if rects.len() == 0 {
        0
    } else {
        total_area(rects.drop_last()) + rects.last().spec_area()
    }
}

/// Joining rectangles of a picture does not lead outside it.
pub proof fn joined_all_inside(first: DirtyRect, rest: Seq<DirtyRect>, width: nat, height: nat)
    requires
        first.inside(width, height),
        forall|i: int| 0 <= i < rest.len() ==> (#[trigger] rest[i]).inside(width, height),
    ensures
        joined_all(first, rest).inside(width, height),
    decreases rest.len(),
{
    if rest.len() > 0 {
        joined_all_inside(first, rest.drop_last(), width, height);
        assert(rest[rest.len() - 1].inside(width, height));
    }
}

proof fn lemma_total_area_prefix(rects: Seq<DirtyRect>, n: int)
    requires
        0 <= n <= rects.len(),
    ensures
        total_area(rects.take(n)) <= total_area(rects),
    decreases rects.len() - n,
{
    if n < rects.len() {
        lemma_total_area_prefix(rects, n + 1);
        assert(rects.take(n + 1).drop_last() =~= rects.take(n));
    } else {
        assert(rects.take(n) =~= rects);
    }
}

/// `rects` joined to one, beginning with `first`.
fn join(first: DirtyRect, rects: &Vec<DirtyRect>, from: usize) -> (both: DirtyRect)
    requires
        from <= rects@.len(),
    ensures
        both == joined_all(first, rects@.skip(from as int)),
{
    let mut both = first;
    let mut i = from;
    assert(rects@.subrange(from as int, from as int) =~= Seq::<DirtyRect>::empty());
    while i < rects.len()
        invariant
            from <= i <= rects@.len(),
            both == joined_all(first, rects@.subrange(from as int, i as int)),
        decreases rects@.len() - i,
    {
        both = both.union(rects[i]);
        proof {
            let next = rects@.subrange(from as int, i + 1);
            assert(next.drop_last() =~= rects@.subrange(from as int, i as int));
        }
        i += 1;
    }
    assert(rects@.skip(from as int) =~= rects@.subrange(from as int, i as int));
    both
}

// ---- Events -----------------------------------------------------------------

/// Tells that the picture has changed.
#[derive(Clone, Debug)]
pub struct RdpFrameEvent {
    pub session_id: String,
    pub x: u16,
    pub y: u16,
    pub width: u16,
    pub height: u16,
    pub desktop_width: u16,
    pub desktop_height: u16,
    pub sequence: u64,
    pub full_frame: bool,
    /// The pixels of the rectangle, four bytes each; empty in an event that
    /// only signals the change.
    pub data: Vec<u8>,
}

/// What an [`RdpFrameEvent`] says.
#[verifier::ext_equal]
pub struct FrameEventView {
    pub session_id: Seq<char>,
    pub rect: DirtyRect,
    pub desktop_width: u16,
    pub desktop_height: u16,
    pub sequence: u64,
    pub full_frame: bool,
    pub data: Seq<u8>,
}

impl View for RdpFrameEvent {
    type V = FrameEventView;

    open spec fn view(&self) -> FrameEventView {
        FrameEventView {
            session_id: self.session_id@,
            rect: DirtyRect { x: self.x, y: self.y, width: self.width, height: self.height },
            desktop_width: self.desktop_width,
            desktop_height: self.desktop_height,
            sequence: self.sequence,
            full_frame: self.full_frame,
            data: self.data@,
        }
    }
}

/// Which rectangles are sent when `rects` have changed: as they are, or joined
/// to one where they are too many or cover more than half of the picture.
pub open spec fn flushed(
    rects: Seq<DirtyRect>,
    max_regions: nat,
    bandwidth_saving: bool,
    picture_area: nat,
) -> Seq<DirtyRect> {
    let area = total_area(rects);
    if rects.len() <= 1 {
        rects
    } else if bandwidth_saving && area < picture_area / 2 && rects.len() <= max_regions {
        rects
    } else if rects.len() > max_regions || area > picture_area / 2 {
        seq![joined_all(rects[0], rects.skip(1))]
    } else {
        rects
    }
}

/// The bytes of the first `n` rows of `rect` in a picture.
pub open spec fn region_rows(picture: Seq<u8>, stride: int, rect: DirtyRect, n: nat) -> Seq<u8>
    decreases n,
{
    if n == 0 {
        Seq::empty()
    } else {
        let start = (rect.y + n - 1) * stride + rect.x * 4;
        region_rows(picture, stride, rect, (n - 1) as nat) + picture.subrange(
            start,
            start + rect.width * 4,
        )
    }
}

// ---- The picture ------------------------------------------------------------

/// The picture that is drawn on, the last copy that was handed out, and what
/// has changed.
pub struct Framebuffer {
    /// The picture, row by row, four bytes per pixel.
    pub write_buf: Vec<u8>,
    /// The copy handed out last.
    pub read_snapshot: Arc<Vec<u8>>,
    /// Whether the picture has changed since that copy was made.
    pub dirty: bool,
    pub dirty_rects: Vec<DirtyRect>,
    pub version: u64,
    pub snapshot_version: u64,
    pub last_request_version: u64,
    pub has_content: bool,
    pub width: usize,
    pub height: usize,
    /// Bytes of one row.
    pub stride: usize,
}

/// What a [`Framebuffer`] holds.
#[verifier::ext_equal]
pub struct PictureView {
    pub pixels: Seq<u8>,
    pub copy: Seq<u8>,
    pub dirty: bool,
    pub rects: Seq<DirtyRect>,
    pub version: u64,
    pub snapshot_version: u64,
    pub last_request_version: u64,
    pub has_content: bool,
    pub width: nat,
    pub height: nat,
}

impl View for Framebuffer {
    type V = PictureView;

    open spec fn view(&self) -> PictureView {
        PictureView {
            pixels: self.write_buf@,
            copy: self.read_snapshot@,
            dirty: self.dirty,
            rects: self.dirty_rects@,
            version: self.version,
            snapshot_version: self.snapshot_version,
            last_request_version: self.last_request_version,
            has_content: self.has_content,
            width: self.width as nat,
            height: self.height as nat,
        }
    }
}

/// How many of the first `n` sampled pixels, of which every 64th is one, are
/// nearly black.
pub open spec fn black_samples(picture: Seq<u8>, n: nat) -> nat
    decreases n,
{
    if n == 0 {
        0
    } else {
        let i = 256 * (n - 1);
        black_samples(picture, (n - 1) as nat) + (if picture[i] < 8 && picture[i + 1] < 8
            && picture[i + 2] < 8 {
            1nat
        } else {
            0nat
        })
    }
}

/// How many pixels of a picture of `size` bytes are sampled.
pub open spec fn sample_count(size: nat) -> nat {
    (size / 4 + 63) / 64
}

/// What the events of a list say.
pub open spec fn events_view(events: Seq<RdpFrameEvent>) -> Seq<FrameEventView> {
    events.map_values(|e: RdpFrameEvent| e@)
}

impl PictureView {
    /// The picture has the size that its width and height call for, and every
    /// rectangle that changed lies inside it.
    pub open spec fn wf(self) -> bool {
        &&& self.pixels.len() == self.width * self.height * 4
        &&& self.copy.len() == self.width * self.height * 4
        &&& self.rects.len() <= MAX_DIRTY_RECTS
        &&& forall|i: int|
            0 <= i < self.rects.len() ==> (#[trigger] self.rects[i]).inside(
                self.width,
                self.height,
            )
    }

    /// A black picture of which nothing has been shown yet.
    pub open spec fn blank(width: nat, height: nat) -> PictureView {
        PictureView {
            pixels: zeros(width * height * 4),
            copy: zeros(width * height * 4),
            dirty: false,
            rects: Seq::empty(),
            version: 1,
            snapshot_version: 1,
            last_request_version: 0,
            has_content: false,
            width,
            height,
        }
    }

    /// The part of `rect` that lies in the picture; none where no part does.
    pub open spec fn clamped(self, rect: DirtyRect) -> Option<DirtyRect> {
        if rect.x >= self.width || rect.y >= self.height || rect.width == 0 || rect.height == 0 {
            None
        } else {
            Some(
                DirtyRect {
                    x: rect.x,
                    y: rect.y,
                    width: if rect.x + rect.width <= self.width {
                        rect.width
                    } else {
                        (self.width - rect.x) as u16
                    },
                    height: if rect.y + rect.height <= self.height {
                        rect.height
                    } else {
                        (self.height - rect.y) as u16
                    },
                },
            )
        }
    }

    /// When `rect` has been reported as changed.
    pub open spec fn marked(self, rect: DirtyRect) -> PictureView {
        match self.clamped(rect) {
            None => self,
            Some(part) => PictureView {
                has_content: true,
                dirty: true,
                version: if self.version == u64::MAX {
                    1
                } else {
                    (self.version + 1) as u64
                },
                rects: if self.rects.len() >= MAX_DIRTY_RECTS {
                    seq![joined_all(part, self.rects)]
                } else {
                    self.rects.push(part)
                },
                ..self
            },
        }
    }

    /// All of the picture; sides are kept modulo 2^16.
    pub open spec fn everything(self) -> DirtyRect {
        DirtyRect {
            x: 0,
            y: 0,
            width: (self.width % 0x1_0000) as u16,
            height: (self.height % 0x1_0000) as u16,
        }
    }

    /// When it has been made black.
    pub open spec fn cleared(self) -> PictureView {
        PictureView { pixels: zeros(self.pixels.len()), ..self }.marked(self.everything())
    }

    /// What a request leaves, and what it is answered: the picture, where it
    /// has changed since the last request.
    pub open spec fn requested(self) -> (PictureView, Option<Seq<u8>>) {
        if self.has_content && self.last_request_version != self.version {
            let copy = if self.dirty {
                self.pixels
            } else {
                self.copy
            };
            (
                PictureView {
                    copy,
                    dirty: false,
                    snapshot_version: if self.dirty {
                        self.version
                    } else {
                        self.snapshot_version
                    },
                    last_request_version: self.version,
                    ..self
                },
                Some(copy),
            )
        } else {
            (self, None)
        }
    }

    /// Whether at least 98 of 100 sampled pixels are nearly black.
    pub open spec fn mostly_black(self) -> bool {
        let sampled = sample_count(self.pixels.len());
        self.has_content && sampled > 0 && black_samples(self.pixels, sampled) * 100 / sampled >= 98
    }

    /// Whether `rects` is one rectangle, the whole picture.
    pub open spec fn is_full(self, rects: Seq<DirtyRect>) -> bool {
        rects.len() == 1 && rects[0].x == 0 && rects[0].y == 0 && rects[0].width == self.width
            && rects[0].height == self.height
    }

    /// The event for the rectangle at `i` of those that are sent.
    pub open spec fn event(
        self,
        session_id: Seq<char>,
        rects: Seq<DirtyRect>,
        i: int,
        include_data: bool,
    ) -> FrameEventView {
        FrameEventView {
            session_id,
            rect: rects[i],
            desktop_width: (self.width % 0x1_0000) as u16,
            desktop_height: (self.height % 0x1_0000) as u16,
            sequence: self.version,
            full_frame: self.is_full(rects),
            data: if include_data {
                region_rows(
                    self.pixels,
                    self.width as int * 4,
                    rects[i],
                    rects[i].height as nat,
                )
            } else {
                Seq::empty()
            },
        }
    }

    /// The events that tell of everything that has changed.
    pub open spec fn events(
        self,
        session_id: Seq<char>,
        max_regions: nat,
        bandwidth_saving: bool,
        include_data: bool,
    ) -> Seq<FrameEventView> {
        let rects = flushed(
            self.rects,
            max_regions,
            bandwidth_saving,
            self.width * self.height,
        );
        Seq::new(rects.len(), |i: int| self.event(session_id, rects, i, include_data))
    }

    /// When what has changed has been told.
    pub open spec fn drained(self) -> PictureView {
        PictureView { rects: Seq::empty(), ..self }
    }
}

/// A change is seen by the next request, until the count of changes begins
/// again at one.
pub proof fn change_is_served(picture: PictureView, rect: DirtyRect)
    requires
        picture.clamped(rect) is Some,
        picture.marked(rect).version != picture.last_request_version,
    ensures
        picture.marked(rect).requested().1 == Some(picture.pixels),
{
}

/// A picture is handed out once.
pub proof fn picture_is_served_once(picture: PictureView)
    ensures
        picture.requested().0.requested().1 is None,
{
}

/// Telling of changes takes nothing from a request.
pub proof fn telling_keeps_requests(picture: PictureView)
    ensures
        picture.drained().requested().1 == picture.requested().1,
{
}

/// Whether all of `part` lies in `whole`.
pub open spec fn holds(whole: DirtyRect, part: DirtyRect) -> bool {
    &&& whole.x <= part.x && part.x + part.width <= whole.x + whole.width
    &&& whole.y <= part.y && part.y + part.height <= whole.y + whole.height
}

/// Joined rectangles hold each that they were made of.
pub proof fn joined_all_holds(first: DirtyRect, rest: Seq<DirtyRect>, width: nat, height: nat)
    requires
        width <= 0xFFFF,
        height <= 0xFFFF,
        first.inside(width, height),
        forall|i: int| 0 <= i < rest.len() ==> (#[trigger] rest[i]).inside(width, height),
    ensures
        holds(joined_all(first, rest), first),
        forall|i: int| 0 <= i < rest.len() ==> holds(joined_all(first, rest), #[trigger] rest[i]),
    decreases rest.len(),
{
    if rest.len() > 0 {
        let fewer = rest.drop_last();
        joined_all_holds(first, fewer, width, height);
        joined_all_inside(first, fewer, width, height);
        assert(rest.last().inside(width, height));
        joined_holds_both(joined_all(first, fewer), rest.last());
        assert forall|i: int| 0 <= i < rest.len() implies holds(
            joined_all(first, rest),
            #[trigger] rest[i],
        ) by {
            if i < fewer.len() {
                assert(holds(joined_all(first, fewer), fewer[i]));
            }
        }
    }
}

/// Everything that has changed is told: each rectangle that changed lies in
/// that of an event.
pub proof fn changes_are_told(
    picture: PictureView,
    session_id: Seq<char>,
    max_regions: nat,
    bandwidth_saving: bool,
    include_data: bool,
    i: int,
)
    requires
        picture.wf(),
        picture.width <= 0xFFFF,
        picture.height <= 0xFFFF,
        0 <= i < picture.rects.len(),
    ensures
        exists|j: int|
            0 <= j < picture.events(
                session_id,
                max_regions,
                bandwidth_saving,
                include_data,
            ).len() && holds(
                #[trigger] picture.events(
                    session_id,
                    max_regions,
                    bandwidth_saving,
                    include_data,
                )[j].rect,
                picture.rects[i],
            ),
{
    let rects = picture.rects;
    let sent = flushed(rects, max_regions, bandwidth_saving, picture.width * picture.height);
    let events = picture.events(session_id, max_regions, bandwidth_saving, include_data);
    assert(rects[0].inside(picture.width, picture.height));
    assert forall|k: int| 0 <= k < rects.skip(1).len() implies (#[trigger] rects.skip(1)[k]).inside(
        picture.width,
        picture.height,
    ) by {
        assert(rects[k + 1].inside(picture.width, picture.height));
    }
    joined_all_holds(rects[0], rects.skip(1), picture.width, picture.height);
    if sent == rects {
        assert(holds(events[i].rect, rects[i]));
    } else {
        if i > 0 {
            assert(rects.skip(1)[i - 1] == rects[i]);
        }
        assert(holds(events[0].rect, rects[i]));
    }
}

/// Calls `Arc::clone`, which makes another pointer to the same value.
#[verifier::external_body]
fn share(snapshot: &Arc<Vec<u8>>) -> (copy: Arc<Vec<u8>>)
    ensures
        copy == *snapshot,
{
    Arc::clone(snapshot)
}

/// Rectangles of a picture cover at most so many pixels together.
pub proof fn lemma_total_area_bound(rects: Seq<DirtyRect>, width: nat, height: nat)
    requires
        forall|i: int| 0 <= i < rects.len() ==> (#[trigger] rects[i]).inside(width, height),
    ensures
        total_area(rects) <= rects.len() * (width * height),
    decreases rects.len(),
{
    if rects.len() > 0 {
        let last = rects.last();
        lemma_total_area_bound(rects.drop_last(), width, height);
        assert(last.inside(width, height));
        assert(last.width * last.height <= width * height) by (nonlinear_arith)
            requires
                0 <= last.width <= width,
                0 <= last.height <= height,
        ;
        assert((rects.len() - 1) * (width * height) + width * height == rects.len() * (width
            * height)) by (nonlinear_arith);
    }
}

impl Framebuffer {
    /// The picture has the size that its width and height call for, and every
    /// rectangle that changed lies inside it.
    pub open spec fn wf(self) -> bool {
        self@.wf() && self.stride == self.width * 4
    }

    /// A black picture of `width` columns and `height` rows, of which nothing
    /// has been shown yet.
    pub fn new(width: usize, height: usize) -> (picture: Self)
        requires
            width * height * 4 <= usize::MAX,
            width * 4 <= usize::MAX,
        ensures
            picture.wf(),
            picture@ == PictureView::blank(width as nat, height as nat),
    {
        proof {
            assert(0 <= width * height <= usize::MAX) by (nonlinear_arith)
                requires
                    width * height * 4 <= usize::MAX,
                    0 <= width,
                    0 <= height,
            ;
        }
        let size = width * height * 4;
        let mut write_buf: Vec<u8> = Vec::new();
        put_zeros(&mut write_buf, size);
        let mut snapshot: Vec<u8> = Vec::new();
        put_zeros(&mut snapshot, size);
        Framebuffer {
            write_buf,
            read_snapshot: Arc::new(snapshot),
            dirty: false,
            dirty_rects: Vec::new(),
            version: 1,
            snapshot_version: 1,
            last_request_version: 0,
            has_content: false,
            width,
            height,
            stride: width * 4,
        }
    }

    /// A copy of the picture, where it has changed since the last request.
    pub fn snapshot_for_request(&mut self) -> (res: Option<Arc<Vec<u8>>>)
        requires
            old(self).wf(),
        ensures
            final(self).wf(),
            final(self)@ == old(self)@.requested().0,
            match res {
                Some(copy) => old(self)@.requested().1 == Some(copy@),
                None => old(self)@.requested().1 is None,
            },
    {
        if !self.has_content {
            return None;
        }
        if self.last_request_version == self.version {
            return None;
        }
        if self.dirty {
            self.read_snapshot = Arc::new(vstd::slice::slice_to_vec(self.write_buf.as_slice()));
            self.snapshot_version = self.version;
            self.dirty = false;
        }
        self.last_request_version = self.version;
        Some(share(&self.read_snapshot))
    }

    /// The part of `rect` that lies in the picture.
    pub fn clamp_rect(&self, rect: DirtyRect) -> (res: Option<DirtyRect>)
        ensures
            res == self@.clamped(rect),
    {
        if rect.x as usize >= self.width || rect.y as usize >= self.height || rect.width == 0
            || rect.height == 0 {
            return None;
        }
        let across = self.width - rect.x as usize;
        let down = self.height - rect.y as usize;
        Some(
            DirtyRect {
                x: rect.x,
                y: rect.y,
                width: if rect.width as usize <= across {
                    rect.width
                } else {
                    across as u16
                },
                height: if rect.height as usize <= down {
                    rect.height
                } else {
                    down as u16
                },
            },
        )
    }

    /// Reports that `rect` of the picture has changed.
    pub fn mark_dirty(&mut self, rect: DirtyRect)
        requires
            old(self).wf(),
        ensures
            final(self).wf(),
            final(self)@ == old(self)@.marked(rect),
    {
        let part = match self.clamp_rect(rect) {
            Some(part) => part,
            None => return ,
        };
        self.has_content = true;
        self.dirty = true;
        self.version = if self.version == u64::MAX {
            1
        } else {
            self.version + 1
        };
        if self.dirty_rects.len() >= MAX_DIRTY_RECTS {
            let merged = join(part, &self.dirty_rects, 0);
            proof {
                assert(self.dirty_rects@.skip(0) =~= self.dirty_rects@);
                joined_all_inside(
                    part,
                    self.dirty_rects@,
                    self.width as nat,
                    self.height as nat,
                );
            }
            self.dirty_rects.clear();
            self.dirty_rects.push(merged);
            assert(self.dirty_rects@ =~= seq![merged]);
            return ;
        }
        self.dirty_rects.push(part);
    }

    /// Makes the picture black.
    pub fn clear(&mut self)
        requires
            old(self).wf(),
        ensures
            final(self).wf(),
            final(self)@ == old(self)@.cleared(),
    {
        let size = self.write_buf.len();
        let mut black: Vec<u8> = Vec::new();
        put_zeros(&mut black, size);
        self.write_buf = black;
        let rect = DirtyRect {
            x: 0,
            y: 0,
            width: (self.width % 0x1_0000) as u16,
            height: (self.height % 0x1_0000) as u16,
        };
        self.mark_dirty(rect);
    }

    /// Whether at least 98 of 100 sampled pixels are nearly black.
    pub fn is_mostly_black(&self) -> (black: bool)
        ensures
            black == self@.mostly_black(),
    {
        if !self.has_content || self.write_buf.len() == 0 {
            return false;
        }
        let size = self.write_buf.len();
        let count: usize = size / 4 / 64 + if size / 4 % 64 == 0 {
            0
        } else {
            1
        };
        let mut sampled: usize = 0;
        let mut black: usize = 0;
        while sampled < count
            invariant
                size == self.write_buf@.len(),
                count == sample_count(size as nat),
                sampled <= count,
                black <= sampled,
                black == black_samples(self.write_buf@, sampled as nat),
            decreases count - sampled,
        {
            let i = 256 * sampled;
            if self.write_buf[i] < 8 && self.write_buf[i + 1] < 8 && self.write_buf[i + 2] < 8 {
                black += 1;
            }
            sampled += 1;
        }
        if sampled == 0 {
            return false;
        }
        black * 100 / sampled >= 98
    }

    /// Number of changed pixels, counting each as often as it is covered.
    pub fn dirty_area(&self) -> (area: usize)
        requires
            total_area(self.dirty_rects@) <= usize::MAX,
        ensures
            area == total_area(self.dirty_rects@),
    {
        let mut area: usize = 0;
        let mut i: usize = 0;
        assert(self.dirty_rects@.take(0) =~= Seq::<DirtyRect>::empty());
        while i < self.dirty_rects.len()
            invariant
                i <= self.dirty_rects@.len(),
                area == total_area(self.dirty_rects@.take(i as int)),
                total_area(self.dirty_rects@) <= usize::MAX,
            decreases self.dirty_rects@.len() - i,
        {
            proof {
                let rects = self.dirty_rects@;
                assert(rects.take(i + 1).drop_last() =~= rects.take(i as int));
                lemma_total_area_prefix(rects, i + 1);
            }
            area += self.dirty_rects[i].area();
            i += 1;
        }
        assert(self.dirty_rects@.take(i as int) =~= self.dirty_rects@);
        area
    }

    /// Takes the rectangles that are to be sent, and forgets what has changed.
    pub fn take_flush_rects(&mut self, max_regions: usize, bandwidth_saving: bool) -> (rects: Vec<
        DirtyRect,
    >)
        requires
            old(self).wf(),
            total_area(old(self).dirty_rects@) <= usize::MAX,
        ensures
            final(self).wf(),
            rects@ == flushed(
                old(self).dirty_rects@,
                max_regions as nat,
                bandwidth_saving,
                old(self)@.width * old(self)@.height,
            ),
            forall|i: int|
                0 <= i < rects@.len() ==> (#[trigger] rects@[i]).inside(
                    old(self).width as nat,
                    old(self).height as nat,
                ),
            final(self)@ == old(self)@.drained(),
    {
        proof {
            let size = self.write_buf.len();
            assert(0 <= self.width * self.height <= usize::MAX) by (nonlinear_arith)
                requires
                    self.width * self.height * 4 == size,
                    0 <= self.width,
                    0 <= self.height,
            ;
        }
        let half = self.width * self.height / 2;
        let mut rects: Vec<DirtyRect> = Vec::new();
        if self.dirty_rects.len() <= 1 {
            std::mem::swap(&mut rects, &mut self.dirty_rects);
            return rects;
        }
        let dirty_area = self.dirty_area();
        if bandwidth_saving && dirty_area < half && self.dirty_rects.len() <= max_regions {
            std::mem::swap(&mut rects, &mut self.dirty_rects);
            return rects;
        }
        if self.dirty_rects.len() > max_regions || dirty_area > half {
            let merged = join(self.dirty_rects[0], &self.dirty_rects, 1);
            proof {
                let all = self.dirty_rects@;
                assert forall|i: int| 0 <= i < all.skip(1).len() implies (
                #[trigger] all.skip(1)[i]).inside(self.width as nat, self.height as nat) by {
                    assert(all[i + 1].inside(self.width as nat, self.height as nat));
                }
                joined_all_inside(all[0], all.skip(1), self.width as nat, self.height as nat);
            }
            rects.push(merged);
            self.dirty_rects.clear();
            assert(rects@ =~= seq![merged]);
            return rects;
        }
        std::mem::swap(&mut rects, &mut self.dirty_rects);
        rects
    }

    /// The bytes of `rect`, row by row.
    pub fn copy_region(&self, rect: DirtyRect) -> (data: Vec<u8>)
        requires
            self.wf(),
            rect.inside(self.width as nat, self.height as nat),
        ensures
            data@ == region_rows(self.write_buf@, self.stride as int, rect, rect.height as nat),
    {
        let row_bytes = rect.width as usize * 4;
        let mut data: Vec<u8> = Vec::new();
        let mut row: usize = 0;
        let size = self.write_buf.len();
        while row < rect.height as usize
            invariant
                self.wf(),
                size == self.write_buf@.len(),
                rect.inside(self.width as nat, self.height as nat),
                row_bytes == rect.width * 4,
                row <= rect.height,
                data@ == region_rows(self.write_buf@, self.stride as int, rect, row as nat),
            decreases rect.height - row,
        {
            proof {
                lemma_row(
                    rect.y + row,
                    rect.x as int,
                    rect.width as int,
                    self.width as int,
                    self.height as int,
                );
            }
            let start = (rect.y as usize + row) * self.stride + rect.x as usize * 4;
            put_bytes(
                &mut data,
                vstd::slice::slice_subrange(self.write_buf.as_slice(), start, start + row_bytes),
            );
            row += 1;
        }
        data
    }

    /// The events that tell of everything that has changed, which is then
    /// forgotten; the copy of the picture that requests are served from stays.
    pub fn drain_dirty_events(
        &mut self,
        session_id: &str,
        max_regions: usize,
        bandwidth_saving: bool,
        include_data: bool,
    ) -> (events: Vec<RdpFrameEvent>)
        requires
            old(self).wf(),
            total_area(old(self).dirty_rects@) <= usize::MAX,
        ensures
            final(self).wf(),
            final(self)@ == old(self)@.drained(),
            events_view(events@) == old(self)@.events(
                session_id@,
                max_regions as nat,
                bandwidth_saving,
                include_data,
            ),
    {
        let mut events: Vec<RdpFrameEvent> = Vec::new();
        if self.dirty_rects.len() == 0 {
            return events;
        }
        let sequence = self.version;
        let rects = self.take_flush_rects(max_regions, bandwidth_saving);
        let full_frame = rects.len() == 1 && rects[0].x == 0 && rects[0].y == 0
            && rects[0].width as usize == self.width && rects[0].height as usize == self.height;
        let mut i: usize = 0;
        while i < rects.len()
            invariant
                self.wf(),
                self@ == old(self)@.drained(),
                sequence == old(self).version,
                full_frame == old(self)@.is_full(rects@),
                i <= rects@.len(),
                forall|j: int|
                    0 <= j < rects@.len() ==> (#[trigger] rects@[j]).inside(
                        self.width as nat,
                        self.height as nat,
                    ),
                events@.len() == i,
                forall|j: int|
                    0 <= j < i ==> (#[trigger] events@[j])@ == old(self)@.event(
                        session_id@,
                        rects@,
                        j,
                        include_data,
                    ),
            decreases rects@.len() - i,
        {
            let rect = rects[i];
            let data: Vec<u8> = if include_data {
                self.copy_region(rect)
            } else {
                Vec::new()
            };
            events.push(
                RdpFrameEvent {
                    session_id: session_id.to_owned(),
                    x: rect.x,
                    y: rect.y,
                    width: rect.width,
                    height: rect.height,
                    desktop_width: (self.width % 0x1_0000) as u16,
                    desktop_height: (self.height % 0x1_0000) as u16,
                    sequence,
                    full_frame,
                    data,
                },
            );
            assert(events@[i as int]@ == old(self)@.event(
                session_id@,
                rects@,
                i as int,
                include_data,
            ));
            i += 1;
        }
        events
    }
}

/// A row of a rectangle lies inside the picture.
proof fn lemma_row(row: int, x: int, rect_width: int, width: int, height: int)
    by (nonlinear_arith)
    requires
        0 <= row < height,
        0 <= x,
        0 <= rect_width,
        x + rect_width <= width,
    ensures
        0 <= row * (width * 4),
        row * (width * 4) + x * 4 + rect_width * 4 <= width * height * 4,
{
    assert(row * width + width <= height * width);
    assert(row * (width * 4) == row * width * 4);
}

} // verus!
