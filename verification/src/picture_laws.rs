//! What the picture and the updates that draw on it promise.

use vstd::prelude::*;

use crate::bitmap::counted_rectangles;
use crate::fastpath::{
    complete_orders, complete_rectangles, fastpath_outcome, fragments_from, size_field,
    FragmentView,
};
use crate::fields::{lemma_two_at, two_bytes};
use crate::framebuffer::{
    black_samples, flushed, holds, joined_all, region_rows, sample_count, total_area, DirtyRect,
    PictureView,
};
use crate::stats::bumped;
use crate::wire::le16_at;

verus! {

// ---- Updates in parts -------------------------------------------------------

/// A fragment as the server writes it: its update code and which part of an
/// update it is, compression flags where it has them, and its bytes behind their
/// number.
pub open spec fn fragment(code: u8, kind: u8, flags: Option<u8>, data: Seq<u8>) -> Seq<u8> {
    (match flags {
        Some(byte) => seq![(code + 16 * kind + 128) as u8, byte],
        None => seq![(code + 16 * kind) as u8],
    }) + two_bytes(data.len() as u16) + data
}

proof fn lemma_fragment(
    before: Seq<u8>,
    code: u8,
    kind: u8,
    flags: Option<u8>,
    data: Seq<u8>,
    rest: Seq<u8>,
)
    requires
        code < 16,
        kind < 4,
        data.len() <= 0xFFFF,
    ensures
        ({
            let f = fragment(code, kind, flags, data);
            let s = before + f + rest;
            let at = before.len() as int;
            let start = size_field(s, at) + 2;
            &&& s[at] % 16 == code
            &&& s[at] / 16 % 4 == kind
            &&& le16_at(s, start - 2) == data.len()
            &&& at < s.len()
            &&& start + data.len() == at + f.len() <= s.len()
            &&& s.subrange(start, start + data.len()) == data
        }),
{
    let f = fragment(code, kind, flags, data);
    let s = before + f + rest;
    let at = before.len() as int;
    let size = data.len() as u16;
    let head: int = if flags is Some { 2 } else { 1 };
    assert(s[at] == f[0]);
    assert(f.len() == head + 2 + data.len());
    assert(s.subrange(at + head, at + head + 2) =~= two_bytes(size));
    lemma_two_at(s, at + head, size);
    assert(s.subrange(at + head + 2, at + head + 2 + data.len()) =~= data);
}

/// A whole fragment is taken with its code, its part and its bytes, and reading
/// goes on behind it.
pub proof fn fragments_are_read(
    before: Seq<u8>,
    code: u8,
    kind: u8,
    flags: Option<u8>,
    data: Seq<u8>,
    rest: Seq<u8>,
    state: FragmentView,
    orders: usize,
)
    requires
        code < 16,
        kind < 4,
        data.len() <= 0xFFFF,
    ensures
        ({
            let s = before + fragment(code, kind, flags, data) + rest;
            let end = before.len() + fragment(code, kind, flags, data).len();
            let (next, complete) = state.received(code, kind, data);
            let read = fragments_from(s, before.len() as int, state, orders);
            let later = fragments_from(s, end as int, next, complete_orders(complete, orders));
            &&& read.updates == complete_rectangles(complete) + later.updates
            &&& read.fragments == later.fragments
            &&& read.orders == later.orders
        }),
{
    lemma_fragment(before, code, kind, flags, data, rest);
}

/// Reading ends with the bytes, and at a fragment that is not whole.
pub proof fn broken_fragments_end_reading(
    before: Seq<u8>,
    code: u8,
    kind: u8,
    flags: Option<u8>,
    data: Seq<u8>,
    cut: int,
    state: FragmentView,
    orders: usize,
)
    requires
        code < 16,
        kind < 4,
        data.len() <= 0xFFFF,
        0 <= cut < fragment(code, kind, flags, data).len(),
    ensures
        ({
            let s = before + fragment(code, kind, flags, data).take(cut);
            let read = fragments_from(s, before.len() as int, state, orders);
            read.updates.len() == 0 && read.fragments == state && read.orders == orders
        }),
{
    let f = fragment(code, kind, flags, data);
    let s = before + f.take(cut);
    let at = before.len() as int;
    let size = data.len() as u16;
    let head: int = if flags is Some { 2 } else { 1 };
    if cut > 0 {
        assert(s[at] == f[0]);
    }
    if cut >= head + 2 {
        assert(s.subrange(at + head, at + head + 2) =~= two_bytes(size));
        lemma_two_at(s, at + head, size);
    }
}

/// The fragments of a packet follow its header of two bytes, or of three where its
/// length takes two. Packets of another kind, and encrypted ones, hold none.
pub proof fn fragments_follow_the_header(
    kind: u8,
    length: Seq<u8>,
    body: Seq<u8>,
    state: FragmentView,
    orders: usize,
)
    requires
        (length.len() == 1 && length[0] < 128) || (length.len() == 2 && length[0] >= 128),
        body.len() >= 3,
    ensures
        ({
            let s = seq![kind] + length + body;
            if kind / 4 % 4 == 0 {
                fastpath_outcome(s, state, orders) == fragments_from(
                    s,
                    1 + length.len() as int,
                    state,
                    orders,
                )
            } else {
                fastpath_outcome(s, state, orders).updates.len() == 0 && fastpath_outcome(
                    s,
                    state,
                    orders,
                ).fragments == state && fastpath_outcome(s, state, orders).orders == orders
            }
        }),
{
    let s = seq![kind] + length + body;
    assert(s[0] == kind);
    assert(s[1] == length[0]);
}

/// A whole update is complete at once, and ends one that was begun; a last part
/// without a beginning, or of another update, completes nothing and ends what was
/// begun; a further part of another update is passed over.
pub proof fn parts_of_other_updates_are_dropped(
    state: FragmentView,
    code: u8,
    data: Seq<u8>,
)
    ensures
        state.received(code, 0, data).1 == Some((code, data)),
        !state.received(code, 0, data).0.active,
        state.received(code, 2, data).1 is None,
        state.received(code, 3, data).1 is None,
        !state.active || state.code != code ==> {
            &&& state.received(code, 1, data).1 is None
            &&& !state.received(code, 1, data).0.active
            &&& state.received(code, 3, data).0 == state
        },
        !state.received(code, 1, data).0.active,
{
}

/// Of complete updates, those with code 1 are bitmaps and are drawn; those with
/// code 0 are counted; others are passed over.
pub proof fn updates_are_told_by_code(code: u8, data: Seq<u8>, orders: usize)
    ensures
        code == 1 ==> complete_rectangles(Some((code, data))) == counted_rectangles(data),
        code != 1 ==> complete_rectangles(Some((code, data))).len() == 0,
        complete_rectangles(None).len() == 0,
        code == 0 ==> complete_orders(Some((code, data)), orders) == bumped(orders),
        code != 0 ==> complete_orders(Some((code, data)), orders) == orders,
        complete_orders(None, orders) == orders,
{
}

// ---- Rectangles -------------------------------------------------------------

/// Whether a place lies in a rectangle.
pub open spec fn covers(rect: DirtyRect, x: int, y: int) -> bool {
    rect.x <= x < rect.x + rect.width && rect.y <= y < rect.y + rect.height
}

/// Of all rectangles that hold two others, their join is the smallest.
pub proof fn joins_are_smallest(a: DirtyRect, b: DirtyRect, other: DirtyRect)
    requires
        a.x + a.width <= u16::MAX,
        a.y + a.height <= u16::MAX,
        b.x + b.width <= u16::MAX,
        b.y + b.height <= u16::MAX,
        holds(other, a),
        holds(other, b),
    ensures
        holds(other, a.joined(b)),
        holds(a.joined(b), a),
        holds(a.joined(b), b),
        a.joined(a) == a,
{
}

/// A rectangle is cut to the picture: what is left are exactly the places of it
/// that lie in the picture.
pub proof fn rectangles_are_cut_to_the_picture(
    picture: PictureView,
    rect: DirtyRect,
    x: int,
    y: int,
)
    ensures
        match picture.clamped(rect) {
            Some(part) => part.inside(picture.width, picture.height) && covers(part, x, y) == (
            covers(rect, x, y) && x < picture.width && y < picture.height),
            None => !(covers(rect, x, y) && x < picture.width && y < picture.height),
        },
{
}

/// Once a change is marked, the picture is newer, has content and is to be copied,
/// and every place of the change inside it is covered by what is to be told; so is
/// what was before. The pixels are not touched.
pub proof fn changes_are_marked(picture: PictureView, rect: DirtyRect, x: int, y: int)
    requires
        picture.wf(),
        picture.width <= u16::MAX,
        picture.height <= u16::MAX,
        0 <= x < picture.width,
        0 <= y < picture.height,
    ensures
        ({
            let next = picture.marked(rect);
            &&& next.pixels == picture.pixels
            &&& next.copy == picture.copy
            &&& next.width == picture.width && next.height == picture.height
            &&& next.snapshot_version == picture.snapshot_version
            &&& next.last_request_version == picture.last_request_version
            &&& covers(rect, x, y) ==> next.has_content && next.dirty && next.version
                != picture.version && exists|i: int|
                0 <= i < next.rects.len() && covers(#[trigger] next.rects[i], x, y)
            &&& (exists|i: int| 0 <= i < picture.rects.len() && covers(picture.rects[i], x, y))
                ==> exists|i: int|
                0 <= i < next.rects.len() && covers(#[trigger] next.rects[i], x, y)
            &&& picture.version < u64::MAX && next != picture ==> next.version == picture.version
                + 1
        }),
{
    let next = picture.marked(rect);
    if let Some(part) = picture.clamped(rect) {
        rectangles_are_cut_to_the_picture(picture, rect, x, y);
        if picture.rects.len() >= 64 {
            crate::framebuffer::joined_all_holds(
                part,
                picture.rects,
                picture.width,
                picture.height,
            );
            let whole = joined_all(part, picture.rects);
            assert(next.rects[0] == whole);
            if exists|i: int| 0 <= i < picture.rects.len() && covers(picture.rects[i], x, y) {
                let i = choose|i: int|
                    0 <= i < picture.rects.len() && covers(picture.rects[i], x, y);
                assert(holds(whole, picture.rects[i]));
                assert(covers(next.rects[0], x, y));
            }
            if covers(rect, x, y) {
                assert(covers(next.rects[0], x, y));
            }
        } else {
            assert(next.rects[picture.rects.len() as int] == part);
            if exists|i: int| 0 <= i < picture.rects.len() && covers(picture.rects[i], x, y) {
                let i = choose|i: int|
                    0 <= i < picture.rects.len() && covers(picture.rects[i], x, y);
                assert(covers(next.rects[i], x, y));
            }
            if covers(rect, x, y) {
                assert(covers(next.rects[picture.rects.len() as int], x, y));
            }
        }
    } else {
        rectangles_are_cut_to_the_picture(picture, rect, x, y);
    }
}

/// A picture that is cleared is black all over, and all of it has changed.
pub proof fn cleared_pictures_are_black(picture: PictureView, i: int)
    requires
        picture.wf(),
        0 < picture.width <= u16::MAX,
        0 < picture.height <= u16::MAX,
        picture.rects.len() == 0,
    ensures
        ({
            let next = picture.cleared();
            &&& next.pixels.len() == picture.pixels.len()
            &&& 0 <= i < next.pixels.len() ==> next.pixels[i] == 0
            &&& next.has_content && next.dirty
            &&& next.rects.len() == 1
            &&& next.is_full(next.rects)
        }),
{
}

/// The area of several rectangles is the sum of their areas, width times height.
pub proof fn areas_add_up(rects: Seq<DirtyRect>, rect: DirtyRect)
    ensures
        total_area(rects.push(rect)) == total_area(rects) + rect.width * rect.height,
        total_area(Seq::empty()) == 0,
{
    assert(rects.push(rect).drop_last() =~= rects);
}

/// Changes are told apart where they are few and small: at most as many as are
/// wanted, and at most half of the picture together. Else they are told as one.
pub proof fn few_changes_are_told_apart(
    rects: Seq<DirtyRect>,
    most: nat,
    saving: bool,
    area: nat,
)
    ensures
        ({
            let told = flushed(rects, most, saving, area);
            &&& rects.len() <= 1 ==> told == rects
            &&& rects.len() <= most && total_area(rects) <= area / 2 ==> told == rects
            &&& rects.len() > 1 && (rects.len() > most || total_area(rects) > area / 2)
                ==> told.len() == 1 && told[0] == joined_all(rects[0], rects.skip(1))
        }),
{
}

// ---- Pixels -----------------------------------------------------------------

/// The bytes of a part of the picture are its rows one after another, each from
/// the left edge of the part on.
pub proof fn regions_are_cut_out(
    picture: Seq<u8>,
    width: int,
    rect: DirtyRect,
    n: nat,
    row: int,
    k: int,
)
    requires
        rect.x + rect.width <= width,
        picture.len() >= (rect.y + n) * width * 4,
        0 <= row < n,
        0 <= k < rect.width * 4,
    ensures
        ({
            let data = region_rows(picture, width * 4, rect, n);
            &&& data.len() == n * (rect.width * 4)
            &&& data[row * (rect.width * 4) + k] == picture[((rect.y + row) * width + rect.x) * 4
                + k]
        }),
    decreases n,
{
    let line = rect.width * 4;
    let last = (n - 1) as nat;
    let stride = width * 4;
    assert((rect.y + last) * width * 4 <= (rect.y + n) * width * 4) by (nonlinear_arith)
        requires
            n == last + 1,
            0 <= width,
    ;
    lemma_region_length(picture, width, rect, last);
    let start = (rect.y + n - 1) * stride + rect.x * 4;
    assert(start >= 0 && start + line <= picture.len()) by (nonlinear_arith)
        requires
            start == (rect.y + n - 1) * stride + rect.x * 4,
            stride == width * 4,
            line == rect.width * 4,
            rect.x + rect.width <= width,
            picture.len() >= (rect.y + n) * width * 4,
            n >= 1,
            0 <= rect.x,
            0 <= rect.y,
            0 <= width,
    ;
    let inner = region_rows(picture, stride, rect, last);
    let tail = picture.subrange(start, start + line);
    let data = region_rows(picture, stride, rect, n);
    assert(data == inner + tail);
    assert(n * line == last * line + line) by (nonlinear_arith)
        requires
            n == last + 1,
    ;
    if row == last {
        assert(data[row * line + k] == tail[k]);
        assert(start + k == ((rect.y + row) * width + rect.x) * 4 + k) by (nonlinear_arith)
            requires
                start == (rect.y + n - 1) * stride + rect.x * 4,
                stride == width * 4,
                row == n - 1,
        ;
    } else {
        regions_are_cut_out(picture, width, rect, last, row, k);
        assert(row * line + k < last * line) by (nonlinear_arith)
            requires
                row + 1 <= last,
                0 <= k < line,
        ;
        assert(0 <= row * line + k) by (nonlinear_arith)
            requires
                0 <= row,
                0 <= line,
                0 <= k,
        ;
        assert(data[row * line + k] == inner[row * line + k]);
    }
}

proof fn lemma_region_length(picture: Seq<u8>, width: int, rect: DirtyRect, n: nat)
    requires
        rect.x + rect.width <= width,
        picture.len() >= (rect.y + n) * width * 4,
    ensures
        region_rows(picture, width * 4, rect, n).len() == n * (rect.width * 4),
    decreases n,
{
    let line = rect.width * 4;
    if n > 0 {
        let last = (n - 1) as nat;
        assert((rect.y + last) * width * 4 <= (rect.y + n) * width * 4) by (nonlinear_arith)
            requires
                n == last + 1,
                0 <= width,
        ;
        lemma_region_length(picture, width, rect, last);
        let start = (rect.y + n - 1) * (width * 4) + rect.x * 4;
        assert(start >= 0 && start + line <= picture.len()) by (nonlinear_arith)
            requires
                start == (rect.y + n - 1) * (width * 4) + rect.x * 4,
                line == rect.width * 4,
                rect.x + rect.width <= width,
                picture.len() >= (rect.y + n) * width * 4,
                n >= 1,
                0 <= rect.x,
                0 <= rect.y,
                0 <= width,
        ;
        assert(n * line == last * line + line) by (nonlinear_arith)
            requires
                n == last + 1,
        ;
    } else {
        assert(n * line == 0) by (nonlinear_arith)
            requires
                n == 0,
        ;
    }
}

/// Events tell of the rectangles in order, each with the size of the desktop, the
/// version of the picture, whether it is all of it, and its pixels where they are
/// wanted.
pub proof fn events_describe_the_changes(
    picture: PictureView,
    session: Seq<char>,
    most: nat,
    saving: bool,
    with_pixels: bool,
    i: int,
)
    requires
        picture.width <= u16::MAX,
        picture.height <= u16::MAX,
    ensures
        ({
            let rects = flushed(picture.rects, most, saving, picture.width * picture.height);
            let events = picture.events(session, most, saving, with_pixels);
            &&& events.len() == rects.len()
            &&& 0 <= i < rects.len() ==> {
                let event = events[i];
                &&& event.session_id == session
                &&& event.rect == rects[i]
                &&& event.desktop_width == picture.width
                &&& event.desktop_height == picture.height
                &&& event.sequence == picture.version
                &&& event.full_frame == (rects.len() == 1 && rects[0].x == 0 && rects[0].y == 0
                    && rects[0].width == picture.width && rects[0].height == picture.height)
                &&& !with_pixels ==> event.data.len() == 0
                &&& with_pixels ==> event.data == region_rows(
                    picture.pixels,
                    picture.width * 4int,
                    rects[i],
                    rects[i].height as nat,
                )
            }
            &&& picture.drained().rects.len() == 0
            &&& picture.drained() == (PictureView { rects: Seq::empty(), ..picture })
        }),
{
}

/// A picture is handed out where it has content that was not handed out before,
/// with its latest pixels; asking changes nothing that is shown.
pub proof fn latest_pixels_are_handed_out(picture: PictureView)
    ensures
        ({
            let (next, pixels) = picture.requested();
            &&& (pixels is Some) == (picture.has_content && picture.last_request_version
                != picture.version)
            &&& picture.dirty ==> (pixels matches Some(copy) ==> copy == picture.pixels)
            &&& !picture.dirty ==> (pixels matches Some(copy) ==> copy == picture.copy)
            &&& pixels is Some ==> next.copy == pixels->0 && !next.dirty
                && next.last_request_version == picture.version
            &&& pixels is None ==> next == picture
            &&& next.pixels == picture.pixels && next.rects == picture.rects && next.version
                == picture.version
        }),
{
}

// ---- Darkness ---------------------------------------------------------------

/// Whether the pixel at byte `256 * i`, one of every 64, is dark: each of its
/// three colours is below 8.
pub open spec fn dark(picture: Seq<u8>, i: int) -> bool {
    picture[256 * i] < 8 && picture[256 * i + 1] < 8 && picture[256 * i + 2] < 8
}

/// The dark pixels among the first `n` that are looked at.
pub open spec fn dark_ones(picture: Seq<u8>, n: nat) -> Set<int> {
    Set::new(|i: int| 0 <= i < n && dark(picture, i))
}

/// The dark pixels are counted.
pub proof fn dark_pixels_are_counted(picture: Seq<u8>, n: nat)
    ensures
        dark_ones(picture, n).finite(),
        black_samples(picture, n) == dark_ones(picture, n).len(),
    decreases n,
{
    if n == 0 {
        assert(dark_ones(picture, n) =~= Set::empty());
    } else {
        let last = (n - 1) as nat;
        dark_pixels_are_counted(picture, last);
        if dark(picture, last as int) {
            assert(dark_ones(picture, n) =~= dark_ones(picture, last).insert(last as int));
        } else {
            assert(dark_ones(picture, n) =~= dark_ones(picture, last));
        }
    }
}

/// One pixel of every 64 is looked at, from the first on, as far as there are any.
pub proof fn one_pixel_of_64_is_looked_at(size: nat, i: int)
    requires
        size % 4 == 0,
    ensures
        (0 <= i < sample_count(size)) == (0 <= i && 256 * i < size),
{
}

/// A picture counts as black where it has content and at least 98 of 100 pixels
/// that are looked at are dark.
pub proof fn dark_pictures_are_recognised(picture: PictureView, n: nat)
    requires
        n == sample_count(picture.pixels.len()),
    ensures
        picture.mostly_black() == (picture.has_content && n > 0 && 100 * dark_ones(
            picture.pixels,
            n,
        ).len() >= 98 * n),
{
    dark_pixels_are_counted(picture.pixels, n);
    let black = black_samples(picture.pixels, n);
    if n > 0 {
        assert((black * 100 / n >= 98) == (black * 100 >= 98 * n)) by (nonlinear_arith)
            requires
                n > 0,
        ;
    }
}

} // verus!
