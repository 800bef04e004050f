//! Bitmap updates: how the server sends them, and how they are drawn.

use std::borrow::Cow;

use vstd::prelude::*;

use crate::rle::{
    rle_decompress_into, rle_start, rle_status, rows_flipped, RleDecodeStatus, RleGeometry,
};
use crate::framebuffer::DirtyRect;
use crate::wire::{le16_at, read_u16, zeros};

verus! {

/// Most rectangles that one update may hold.
pub const MAX_RECTANGLES: usize = 256;

/// Largest width and height of a bitmap.
pub const MAX_BITMAP_SIDE: u16 = 4096;

/// One rectangle of a bitmap update.
pub struct BitmapUpdate<'a> {
    pub x: u16,
    pub y: u16,
    pub width: u16,
    pub height: u16,
    pub bpp: u16,
    /// Width of the bitmap itself, which may differ from that of the rectangle.
    pub bmp_width: u16,
    /// Height of the bitmap itself.
    pub bmp_height: u16,
    pub compressed: bool,
    pub data: Cow<'a, [u8]>,
}

/// What a [`BitmapUpdate`] says.
#[verifier::ext_equal]
pub struct BitmapView {
    pub x: u16,
    pub y: u16,
    pub width: u16,
    pub height: u16,
    pub bpp: u16,
    pub bmp_width: u16,
    pub bmp_height: u16,
    pub compressed: bool,
    pub data: Seq<u8>,
}

impl<'a> View for BitmapUpdate<'a> {
    type V = BitmapView;

    open spec fn view(&self) -> BitmapView {
        BitmapView {
            x: self.x,
            y: self.y,
            width: self.width,
            height: self.height,
            bpp: self.bpp,
            bmp_width: self.bmp_width,
            bmp_height: self.bmp_height,
            compressed: self.compressed,
            data: self.data@,
        }
    }
}

/// What the updates of a list say.
pub open spec fn updates_view(updates: Seq<BitmapUpdate<'_>>) -> Seq<BitmapView> {
    updates.map_values(|u: BitmapUpdate<'_>| u@)
}

/// The bytes that `data` holds.
pub fn cow_bytes<'b>(data: &'b Cow<'_, [u8]>) -> (bytes: &'b [u8])
    ensures
        bytes@ == data@,
{
    match data {
        Cow::Borrowed(borrowed) => borrowed,
        Cow::Owned(owned) => owned.as_slice(),
    }
}

impl<'a> BitmapUpdate<'a> {
    /// The same update with pixel data of its own.
    pub fn into_owned(self) -> (owned: BitmapUpdate<'static>)
        ensures
            owned@ == self@,
    {
        let data = match self.data {
            Cow::Borrowed(borrowed) => vstd::slice::slice_to_vec(borrowed),
            Cow::Owned(owned) => owned,
        };
        BitmapUpdate {
            x: self.x,
            y: self.y,
            width: self.width,
            height: self.height,
            bpp: self.bpp,
            bmp_width: self.bmp_width,
            bmp_height: self.bmp_height,
            compressed: self.compressed,
            data: Cow::Owned(data),
        }
    }
}

// ---- Parsing ----------------------------------------------------------------

/// The pixel data of a bitmap that takes `raw` on the wire: compressed data
/// may begin with a header of eight bytes, which flag `0400` says is absent.
pub open spec fn bitmap_payload(raw: Seq<u8>, compressed: bool, flags: u16) -> Seq<u8> {
    if compressed && flags / 0x400 % 2 == 0 && raw.len() > 8 {
        raw.skip(8)
    } else {
        raw
    }
}

/// One more than the span from `low` to `high`, modulo 2^16.
pub open spec fn span(low: u16, high: u16) -> u16 {
    (((if high > low { high - low } else { 0 }) + 1) % 0x1_0000) as u16
}

/// The rectangle whose header of 18 bytes begins `s`, and its bytes on the
/// wire; none where it is truncated, empty or out of range.
pub open spec fn rectangle(s: Seq<u8>) -> Option<(BitmapView, nat)> {
    if s.len() < 18 {
        None
    } else {
        let bmp_width = le16_at(s, 8);
        let bmp_height = le16_at(s, 10);
        let bpp = le16_at(s, 12);
        let flags = le16_at(s, 14);
        let length = le16_at(s, 16) as int;
        if bmp_width == 0 || bmp_height == 0 || bpp == 0 || length == 0 {
            None
        } else if bmp_width > MAX_BITMAP_SIDE || bmp_height > MAX_BITMAP_SIDE || bpp > 32 {
            None
        } else if 18 + length > s.len() {
            None
        } else {
            Some(
                (
                    BitmapView {
                        x: le16_at(s, 0),
                        y: le16_at(s, 2),
                        width: span(le16_at(s, 0), le16_at(s, 4)),
                        height: span(le16_at(s, 2), le16_at(s, 6)),
                        bpp,
                        bmp_width,
                        bmp_height,
                        compressed: flags % 2 == 1,
                        data: bitmap_payload(
                            s.subrange(18, 18 + length),
                            flags % 2 == 1,
                            flags,
                        ),
                    },
                    (18 + length) as nat,
                ),
            )
        }
    }
}

/// The first at most `n` rectangles of `s`, up to the first that is none.
pub open spec fn rectangles(s: Seq<u8>, n: nat) -> Seq<BitmapView>
    decreases n,
{
    if n == 0 {
        Seq::empty()
    } else {
        match rectangle(s) {
            None => Seq::empty(),
            Some((first, length)) => seq![first] + rectangles(
                s.skip(length as int),
                (n - 1) as nat,
            ),
        }
    }
}

/// The rectangles of a bitmap update that begins with their number.
pub open spec fn counted_rectangles(s: Seq<u8>) -> Seq<BitmapView> {
    if s.len() < 2 || le16_at(s, 0) > MAX_RECTANGLES {
        Seq::empty()
    } else {
        rectangles(s.skip(2), le16_at(s, 0) as nat)
    }
}

/// The rectangles of an update; none of an update of another type than bitmap.
pub open spec fn update_rectangles(s: Seq<u8>) -> Seq<BitmapView> {
    if s.len() < 4 || le16_at(s, 0) != 1 {
        Seq::empty()
    } else {
        counted_rectangles(s.skip(2))
    }
}

/// `found` as a result: none where nothing was found.
pub open spec fn some_updates(res: Option<Vec<BitmapUpdate<'_>>>, found: Seq<BitmapView>) -> bool {
    match res {
        Some(updates) => found.len() > 0 && updates_view(updates@) == found,
        None => found.len() == 0,
    }
}

/// The pixel data of the bitmap of `bmp_length` bytes at `offset`.
pub fn extract_compressed_data<'a>(
    data: &'a [u8],
    offset: usize,
    bmp_length: usize,
    compressed: bool,
    flags: u16,
) -> (res: Cow<'a, [u8]>)
    requires
        offset + bmp_length <= data@.len(),
    ensures
        res@ == bitmap_payload(
            data@.subrange(offset as int, offset + bmp_length),
            compressed,
            flags,
        ),
{
    let ghost length = data.len();
    let raw = vstd::slice::slice_subrange(data, offset, offset + bmp_length);
    if compressed && flags / 0x400 % 2 == 0 && bmp_length > 8 {
        Cow::Borrowed(vstd::slice::slice_subrange(raw, 8, bmp_length))
    } else {
        Cow::Borrowed(raw)
    }
}

fn inclusive_span(low: u16, high: u16) -> (res: u16)
    ensures
        res == span(low, high),
{
    let difference = high.saturating_sub(low);
    if difference == u16::MAX {
        0
    } else {
        difference + 1
    }
}

/// The rectangle at `offset`, and where it ends.
fn parse_rectangle<'a>(data: &'a [u8], offset: usize) -> (res: Option<(BitmapUpdate<'a>, usize)>)
    requires
        offset <= data@.len(),
    ensures
        match res {
            Some((update, end)) => rectangle(data@.skip(offset as int)) == Some(
                (update@, (end - offset) as nat),
            ) && offset <= end <= data@.len(),
            None => rectangle(data@.skip(offset as int)) is None,
        },
{
    if data.len() - offset < 18 {
        return None;
    }
    let header = vstd::slice::slice_subrange(data, offset, data.len());
    assert(header@ =~= data@.skip(offset as int));
    let left = header[0] as u16 + 256 * header[1] as u16;
    let top = header[2] as u16 + 256 * header[3] as u16;
    let right = header[4] as u16 + 256 * header[5] as u16;
    let bottom = header[6] as u16 + 256 * header[7] as u16;
    let bmp_width = header[8] as u16 + 256 * header[9] as u16;
    let bmp_height = header[10] as u16 + 256 * header[11] as u16;
    let bpp = header[12] as u16 + 256 * header[13] as u16;
    let flags = header[14] as u16 + 256 * header[15] as u16;
    let length = header[16] as usize + 256 * header[17] as usize;
    if bmp_width == 0 || bmp_height == 0 || bpp == 0 || length == 0 {
        return None;
    }
    if bmp_width > MAX_BITMAP_SIDE || bmp_height > MAX_BITMAP_SIDE || bpp > 32 {
        return None;
    }
    if data.len() - offset - 18 < length {
        return None;
    }
    let update = BitmapUpdate {
        x: left,
        y: top,
        width: inclusive_span(left, right),
        height: inclusive_span(top, bottom),
        bpp,
        bmp_width,
        bmp_height,
        compressed: flags % 2 == 1,
        data: extract_compressed_data(data, offset + 18, length, flags % 2 == 1, flags),
    };
    assert(data@.subrange(offset + 18, offset + 18 + length) =~= header@.subrange(18, 18 + length));
    Some((update, offset + 18 + length))
}

/// The first at most `num_rects` rectangles of `data`.
pub fn parse_bitmap_rectangles_at<'a>(data: &'a [u8], num_rects: usize) -> (res: Option<
    Vec<BitmapUpdate<'a>>,
>)
    ensures
        some_updates(res, rectangles(data@, num_rects as nat)),
{
    let mut updates: Vec<BitmapUpdate<'a>> = Vec::new();
    let mut offset: usize = 0;
    let mut left = num_rects;
    let mut more = true;
    assert(data@.skip(0) =~= data@);
    assert(updates_view(updates@) =~= Seq::empty());
    assert(Seq::<BitmapView>::empty() + rectangles(data@, num_rects as nat) =~= rectangles(
        data@,
        num_rects as nat,
    ));
    while more && left > 0
        invariant
            offset <= data@.len(),
            more ==> updates_view(updates@) + rectangles(data@.skip(offset as int), left as nat)
                == rectangles(data@, num_rects as nat),
            !more ==> updates_view(updates@) == rectangles(data@, num_rects as nat),
        decreases (if more { left + 1 } else { 0 }),
    {
        match parse_rectangle(data, offset) {
            None => {
                more = false;
                assert(updates_view(updates@) + Seq::<BitmapView>::empty() =~= updates_view(
                    updates@,
                ));
            },
            Some((update, end)) => {
                let ghost before = updates@;
                proof {
                    let rest = data@.skip(offset as int);
                    assert(rest.skip(end - offset) =~= data@.skip(end as int));
                    let tail = rectangles(data@.skip(end as int), (left - 1) as nat);
                    assert(updates_view(before.push(update)) =~= updates_view(before) + seq![
                        update@,
                    ]);
                    assert(updates_view(before) + (seq![update@] + tail) =~= updates_view(before)
                        + seq![update@] + tail);
                }
                updates.push(update);
                offset = end;
                left -= 1;
            },
        }
    }
    if more {
        assert(updates_view(updates@) + Seq::<BitmapView>::empty() =~= updates_view(updates@));
    }
    if updates.len() == 0 {
        None
    } else {
        Some(updates)
    }
}

/// The rectangles of a bitmap update that begins with their number.
pub fn parse_bitmap_rectangles<'a>(data: &'a [u8]) -> (res: Option<Vec<BitmapUpdate<'a>>>)
    ensures
        some_updates(res, counted_rectangles(data@)),
{
    match read_u16(data, 0) {
        None => None,
        Some(count) => {
            if count as usize > MAX_RECTANGLES {
                return None;
            }
            let rest = vstd::slice::slice_subrange(data, 2, data.len());
            assert(rest@ =~= data@.skip(2));
            parse_bitmap_rectangles_at(rest, count as usize)
        },
    }
}

/// The bitmap rectangles of an update.
pub fn parse_update_pdu<'a>(data: &'a [u8]) -> (res: Option<Vec<BitmapUpdate<'a>>>)
    ensures
        some_updates(res, update_rectangles(data@)),
{
    if data.len() < 4 {
        return None;
    }
    if data[0] != 1 || data[1] != 0 {
        return None;
    }
    let rest = vstd::slice::slice_subrange(data, 2, data.len());
    assert(rest@ =~= data@.skip(2));
    parse_bitmap_rectangles(rest)
}

/// The bitmap rectangles of a fast-path bitmap update, which has no type field.
pub fn parse_update_pdu_bitmap_only<'a>(data: &'a [u8]) -> (res: Option<Vec<BitmapUpdate<'a>>>)
    ensures
        some_updates(res, counted_rectangles(data@)),
{
    parse_bitmap_rectangles(data)
}

/// The rectangles of a slow-path packet: behind the transport headers and the
/// channel header stands a data unit of type 7, whose second type 2 marks an
/// update. Any other packet has none.
pub open spec fn packet_rectangles(s: Seq<u8>) -> Seq<BitmapView> {
    if s.len() < 15 || s[0] != 3 || s[5] != 0xF0 || s[7] != 0x68 {
        Seq::empty()
    } else {
        let share = if s[13] >= 128 { 15int } else { 14int };
        if share + 18 > s.len() || s[share + 2] % 16 != 7 || s[share + 14] != 2 {
            Seq::empty()
        } else {
            update_rectangles(s.skip(share + 18))
        }
    }
}

/// The bitmap rectangles of a slow-path packet.
pub fn process_incoming_pdu<'a>(data: &'a [u8]) -> (res: Option<Vec<BitmapUpdate<'a>>>)
    ensures
        some_updates(res, packet_rectangles(data@)),
{
    if data.len() < 15 {
        return None;
    }
    if data[0] != 3 || data[5] != 0xF0 || data[7] != 0x68 {
        return None;
    }
    let share: usize = if data[13] >= 128 {
        15
    } else {
        14
    };
    if data.len() < share + 18 {
        return None;
    }
    if data[share + 2] % 16 != 7 || data[share + 14] != 2 {
        return None;
    }
    let rest = vstd::slice::slice_subrange(data, share + 18, data.len());
    assert(rest@ =~= data@.skip(share + 18));
    parse_update_pdu(rest)
}

/// The bitmap rectangles of a slow-path packet.
pub fn extract_bitmap_updates<'a>(data: &'a [u8]) -> (res: Option<Vec<BitmapUpdate<'a>>>)
    ensures
        some_updates(res, packet_rectangles(data@)),
{
    process_incoming_pdu(data)
}

// ---- Decoding ---------------------------------------------------------------

/// Buffers that decoding reuses.
pub struct DecodeScratch {
    pub rle_work: Vec<u8>,
    pub rle_flipped: Vec<u8>,
    pub last_rle_status: RleDecodeStatus,
}

impl Default for DecodeScratch {
    fn default() -> (scratch: Self)
        ensures
            scratch.rle_work@ == Seq::<u8>::empty(),
            scratch.rle_flipped@ == Seq::<u8>::empty(),
            scratch.last_rle_status == RleDecodeStatus::Complete,
    {
        DecodeScratch {
            rle_work: Vec::new(),
            rle_flipped: Vec::new(),
            last_rle_status: RleDecodeStatus::Complete,
        }
    }
}

/// The pixels of a bitmap, row by row.
pub struct DecodedBitmap<'a> {
    pub data: &'a [u8],
    /// Whether the first row is the topmost.
    pub top_down: bool,
    /// Bytes from one row to the next.
    pub stride: usize,
}

/// Bytes of one pixel at a colour depth; none of a depth that is not known.
pub open spec fn depth_bytes(bpp: u16) -> Option<nat> {
    if bpp == 15 || bpp == 16 {
        Some(2)
    } else if bpp == 24 {
        Some(3)
    } else if bpp == 32 {
        Some(4)
    } else {
        None
    }
}

fn depth(bpp: u16) -> (res: Option<usize>)
    ensures
        match res {
            Some(n) => depth_bytes(bpp) == Some(n as nat) && 2 <= n <= 4,
            None => depth_bytes(bpp) is None,
        },
{
    if bpp == 15 || bpp == 16 {
        Some(2)
    } else if bpp == 24 {
        Some(3)
    } else if bpp == 32 {
        Some(4)
    } else {
        None
    }
}

/// Rows of an uncompressed bitmap are padded to a multiple of four bytes.
pub open spec fn padded_row(width: nat, bytes_per_pixel: nat) -> nat {
    (width * bytes_per_pixel + 3) / 4 * 4
}

/// Bytes from one row to the next in an uncompressed bitmap.
pub fn uncompressed_bitmap_stride(width: usize, bytes_per_pixel: usize) -> (stride: usize)
    requires
        width * bytes_per_pixel + 3 <= usize::MAX,
    ensures
        stride == padded_row(width as nat, bytes_per_pixel as nat),
{
    (width * bytes_per_pixel + 3) / 4 * 4
}

/// What run-length decoding makes of a compressed bitmap.
pub open spec fn rle_outcome(update: BitmapView, bytes_per_pixel: nat) -> (bool, Seq<u8>) {
    let row = update.bmp_width * bytes_per_pixel;
    RleGeometry {
        row: row as usize,
        size: (row * update.bmp_height) as usize,
        bytes_per_pixel: bytes_per_pixel as usize,
    }.decoded(update.data, rle_start(bytes_per_pixel))
}

/// How run-length decoding of `update` ends; without any, it is complete.
pub open spec fn decode_status(update: BitmapView) -> RleDecodeStatus {
    match depth_bytes(update.bpp) {
        Some(n) if update.compressed => {
            let (complete, out) = rle_outcome(update, n);
            rle_status(complete, out, (update.bmp_width * n * update.bmp_height) as nat)
        },
        _ => RleDecodeStatus::Complete,
    }
}

/// The pixels of `update`, whether the first row is the topmost, and the bytes
/// from one row to the next; none where the data is too short or malformed.
pub open spec fn decoded_pixels(update: BitmapView) -> Option<(Seq<u8>, bool, nat)> {
    match depth_bytes(update.bpp) {
        None => None,
        Some(n) => if update.compressed {
            if decode_status(update) == RleDecodeStatus::Complete {
                let row = (update.bmp_width * n) as nat;
                Some((rows_flipped(rle_outcome(update, n).1, row), true, row))
            } else {
                None
            }
        } else {
            let stride = padded_row(update.bmp_width as nat, n);
            if update.data.len() < stride * update.bmp_height {
                None
            } else {
                Some((update.data, false, stride))
            }
        },
    }
}

/// Whether the pixels of `update` can be addressed.
pub open spec fn addressable(update: BitmapView) -> bool {
    update.bmp_width * 4 * update.bmp_height + 3 <= usize::MAX
}

proof fn lemma_addressable(width: int, height: int, n: int)
    by (nonlinear_arith)
    requires
        0 <= width <= 0xFFFF,
        0 <= height,
        2 <= n <= 4,
        width * 4 * height + 3 <= usize::MAX,
    ensures
        width * n * height <= usize::MAX,
        0 <= width * n <= width * 4,
        width * n + 3 <= usize::MAX,
        (width * n + 3) / 4 * 4 * height <= usize::MAX,
{
    assert((width * n + 3) / 4 <= width);
    assert(width * n * height <= width * 4 * height);
}

/// The rows of the pixels of `update` can be addressed.
pub proof fn lemma_rows_addressable(update: BitmapView)
    requires
        addressable(update),
    ensures
        decoded_pixels(update) matches Some((_, _, stride)) ==> stride * update.bmp_height
            <= usize::MAX,
{
    if let Some(n) = depth_bytes(update.bpp) {
        lemma_addressable(update.bmp_width as int, update.bmp_height as int, n as int);
    }
}

/// Every rectangle that was received can be addressed.
pub proof fn lemma_rectangles_addressable(s: Seq<u8>, n: nat)
    ensures
        forall|i: int|
            0 <= i < rectangles(s, n).len() ==> addressable(#[trigger] rectangles(s, n)[i]),
        rectangles(s, n).len() <= n,
    decreases n,
{
    if n > 0 {
        if let Some((first, length)) = rectangle(s) {
            let rest = rectangles(s.skip(length as int), (n - 1) as nat);
            lemma_rectangles_addressable(s.skip(length as int), (n - 1) as nat);
            assert(first.bmp_width * 4 * first.bmp_height <= 0x1000 * 4 * 0x1000)
                by (nonlinear_arith)
                requires
                    0 <= first.bmp_width <= 0x1000,
                    0 <= first.bmp_height <= 0x1000,
            ;
            assert forall|i: int| 0 <= i < rectangles(s, n).len() implies addressable(
                #[trigger] rectangles(s, n)[i],
            ) by {
                if i > 0 {
                    assert(addressable(rest[i - 1]));
                }
            }
        }
    }
}

/// The pixels of `update`.
pub fn decode_bitmap_data<'a>(
    update: &'a BitmapUpdate<'a>,
    scratch: &'a mut DecodeScratch,
) -> (res: Option<DecodedBitmap<'a>>)
    requires
        addressable(update@),
    ensures
        match res {
            Some(decoded) => decoded_pixels(update@) == Some(
                (decoded.data@, decoded.top_down, decoded.stride as nat),
            ),
            None => decoded_pixels(update@) is None,
        },
        final(scratch).last_rle_status == decode_status(update@),
        match depth_bytes(update.bpp) {
            Some(n) if update.compressed => {
                let out = rle_outcome(update@, n).1;
                let size = update.bmp_width * n * update.bmp_height;
                &&& final(scratch).rle_work@ == out + zeros((size - out.len()) as nat)
                &&& final(scratch).rle_flipped@ == (if decode_status(update@)
                    == RleDecodeStatus::Complete {
                    rows_flipped(out, (update.bmp_width * n) as nat)
                } else {
                    old(scratch).rle_flipped@
                })
            },
            _ => final(scratch).rle_work@ == old(scratch).rle_work@
                && final(scratch).rle_flipped@ == old(scratch).rle_flipped@,
        },
{
    scratch.last_rle_status = RleDecodeStatus::Complete;
    let bytes_per_pixel = match depth(update.bpp) {
        Some(n) => n,
        None => return None,
    };
    let width = update.bmp_width as usize;
    let height = update.bmp_height as usize;
    proof {
        lemma_addressable(width as int, height as int, bytes_per_pixel as int);
    }
    let data = cow_bytes(&update.data);
    if !update.compressed {
        let stride = uncompressed_bitmap_stride(width, bytes_per_pixel);
        if data.len() < stride * height {
            return None;
        }
        return Some(DecodedBitmap { data, top_down: false, stride });
    }
    let status = rle_decompress_into(
        data,
        width,
        height,
        bytes_per_pixel,
        &mut scratch.rle_work,
        &mut scratch.rle_flipped,
    );
    match status {
        RleDecodeStatus::Complete => Some(
            DecodedBitmap {
                data: scratch.rle_flipped.as_slice(),
                top_down: true,
                stride: width * bytes_per_pixel,
            },
        ),
        _ => {
            scratch.last_rle_status = status;
            None
        },
    }
}

// ---- Drawing ----------------------------------------------------------------

/// The index in a bitmap of `bmp_len` rows or columns that is shown at
/// `dst_index` of `dst_len`: a bitmap that is too small is stretched, one that
/// is too large is cropped.
pub open spec fn mapped(dst_index: int, dst_len: int, bmp_len: int) -> int {
    let index = if bmp_len >= dst_len { dst_index } else { dst_index * bmp_len / dst_len };
    if index < bmp_len {
        index
    } else if bmp_len > 0 {
        bmp_len - 1
    } else {
        0
    }
}

/// The index in a bitmap that is shown at `dst_index`.
pub fn map_bitmap_coordinate(dst_index: usize, dst_len: usize, bmp_len: usize) -> (index: usize)
    requires
        bmp_len < dst_len ==> dst_index * bmp_len <= usize::MAX,
    ensures
        index == mapped(dst_index as int, dst_len as int, bmp_len as int),
{
    let index = if bmp_len >= dst_len {
        dst_index
    } else {
        dst_index * bmp_len / dst_len
    };
    if index < bmp_len {
        index
    } else if bmp_len > 0 {
        bmp_len - 1
    } else {
        0
    }
}

/// Red, green, blue and opacity of the pixel that begins at `i`.
pub open spec fn colour(bpp: u16, data: Seq<u8>, i: int) -> Seq<u8> {
    if bpp == 24 || bpp == 32 {
        seq![data[i + 2], data[i + 1], data[i], 255]
    } else {
        let pixel = le16_at(data, i);
        if bpp == 16 {
            seq![
                (pixel / 0x800 * 8) as u8,
                (pixel / 0x20 % 0x40 * 4) as u8,
                (pixel % 0x20 * 8) as u8,
                255,
            ]
        } else {
            seq![
                (pixel / 0x400 % 0x20 * 8) as u8,
                (pixel / 0x20 % 0x20 * 8) as u8,
                (pixel % 0x20 * 8) as u8,
                255,
            ]
        }
    }
}

/// Where byte `c` of the pixel in column `x` of row `y` stands in a picture.
pub open spec fn pixel_byte(frame_width: int, x: int, y: int, c: int) -> int {
    (y * frame_width + x) * 4 + c
}

/// A bitmap on its way into a picture.
pub struct Drawing {
    pub update: BitmapView,
    pub pixels: Seq<u8>,
    pub top_down: bool,
    pub stride: nat,
    pub draw_width: int,
    pub draw_height: int,
}

/// `update`, clipped to a picture of `frame_width` columns and `frame_height`
/// rows; none where nothing of it is to be drawn.
pub open spec fn drawing(
    frame_len: nat,
    frame_width: u16,
    frame_height: u16,
    update: BitmapView,
    pixels: Seq<u8>,
    top_down: bool,
    stride: nat,
) -> Option<Drawing> {
    let draw_width = if update.width <= frame_width - update.x {
        update.width as int
    } else {
        frame_width - update.x
    };
    let draw_height = if update.height <= frame_height - update.y {
        update.height as int
    } else {
        frame_height - update.y
    };
    if depth_bytes(update.bpp) is None || draw_width <= 0 || draw_height <= 0 || update.bmp_width
        == 0 || update.bmp_height == 0 || frame_len < frame_width * 4 * frame_height
        || pixels.len() < stride * update.bmp_height {
        None
    } else {
        Some(Drawing { update, pixels, top_down, stride, draw_width, draw_height })
    }
}

impl Drawing {
    /// Where the pixel that is shown in column `x` of row `y` begins.
    pub open spec fn source(self, x: int, y: int) -> int {
        let height = self.update.bmp_height as int;
        let row = mapped(y - self.update.y, self.draw_height, height);
        (if self.top_down { row } else { height - 1 - row }) * self.stride + mapped(
            x - self.update.x,
            self.draw_width,
            self.update.bmp_width as int,
        ) * depth_bytes(self.update.bpp)->0
    }

    /// Whether column `x` of row `y` is drawn.
    pub open spec fn covers(self, x: int, y: int) -> bool {
        &&& self.update.x <= x < self.update.x + self.draw_width
        &&& self.update.y <= y < self.update.y + self.draw_height
        &&& self.source(x, y) + depth_bytes(self.update.bpp)->0 <= self.pixels.len()
    }

    /// Byte `c` of the pixel in column `x` of row `y`, after drawing on `before`.
    pub open spec fn shown(
        self,
        frame_width: int,
        before: Seq<u8>,
        x: int,
        y: int,
        c: int,
    ) -> u8 {
        if self.covers(x, y) {
            colour(self.update.bpp, self.pixels, self.source(x, y))[c]
        } else {
            before[pixel_byte(frame_width, x, y, c)]
        }
    }

    /// The bytes of a picture of `frame_width` columns with this drawn on it.
    pub open spec fn drawn(self, frame_width: u16, before: Seq<u8>) -> Seq<u8> {
        Seq::new(
            before.len(),
            |i: int|
                self.shown(
                    frame_width as int,
                    before,
                    i / 4 % frame_width as int,
                    i / 4 / frame_width as int,
                    i % 4,
                ),
        )
    }

    /// Whether drawing has come to column `column` of row `row`.
    spec fn reached(
        self,
        frame_width: u16,
        frame_height: u16,
        before: Seq<u8>,
        now: Seq<u8>,
        row: int,
        column: int,
    ) -> bool {
        &&& now.len() == before.len()
        &&& forall|x: int, y: int, c: int|
            0 <= x < frame_width && 0 <= y < frame_height && 0 <= c < 4
                ==> #[trigger] now[pixel_byte(frame_width as int, x, y, c)] == (if y < row || (y
                == row && x < column) {
                self.shown(frame_width as int, before, x, y, c)
            } else {
                before[pixel_byte(frame_width as int, x, y, c)]
            })
        &&& forall|i: int|
            frame_width * 4 * frame_height <= i < before.len() ==> now[i] == before[i]
    }
}

/// No two bytes of a picture stand in one place.
proof fn lemma_pixel_byte(frame_width: int, x: int, y: int, c: int, x0: int, y0: int, c0: int)
    requires
        0 <= x < frame_width,
        0 <= x0 < frame_width,
        0 <= c < 4,
        0 <= c0 < 4,
        pixel_byte(frame_width, x, y, c) == pixel_byte(frame_width, x0, y0, c0),
    ensures
        x == x0,
        y == y0,
        c == c0,
{
    assert(c == c0 && y * frame_width + x == y0 * frame_width + x0);
    assert(y == y0) by (nonlinear_arith)
        requires
            y * frame_width + x == y0 * frame_width + x0,
            0 <= x < frame_width,
            0 <= x0 < frame_width,
    ;
}

/// The bytes of a pixel inside a picture lie inside its bytes.
proof fn lemma_pixel_inside(frame_width: int, frame_height: int, x: int, y: int)
    by (nonlinear_arith)
    requires
        0 <= x < frame_width,
        0 <= y < frame_height,
    ensures
        0 <= (y * frame_width + x) * 4,
        (y * frame_width + x) * 4 + 4 <= frame_width * 4 * frame_height,
        0 <= y * frame_width <= frame_width * 4 * frame_height,
{
    assert(y * frame_width + frame_width <= frame_height * frame_width);
}

/// Stores the four bytes of a pixel.
fn store_pixel(frame: &mut [u8], at: usize, red: u8, green: u8, blue: u8)
    requires
        at + 4 <= old(frame)@.len(),
    ensures
        final(frame)@ == old(frame)@.update(at as int, red).update(at + 1, green).update(
            at + 2,
            blue,
        ).update(at + 3, 255),
{
    frame[at] = red;
    frame[at + 1] = green;
    frame[at + 2] = blue;
    frame[at + 3] = 255;
}

/// Red, green and blue of the pixel that begins at `i`.
fn read_colour(bpp: u16, data: &[u8], i: usize, bytes_per_pixel: usize) -> (res: (u8, u8, u8))
    requires
        depth_bytes(bpp) == Some(bytes_per_pixel as nat),
        i + bytes_per_pixel <= data@.len(),
    ensures
        colour(bpp, data@, i as int) == seq![res.0, res.1, res.2, 255u8],
{
    let size = data.len();
    if bpp == 24 || bpp == 32 {
        (data[i + 2], data[i + 1], data[i])
    } else {
        let pixel = data[i] as u16 + 256 * data[i + 1] as u16;
        if bpp == 16 {
            (
                (pixel / 0x800 * 8) as u8,
                (pixel / 0x20 % 0x40 * 4) as u8,
                (pixel % 0x20 * 8) as u8,
            )
        } else {
            (
                (pixel / 0x400 % 0x20 * 8) as u8,
                (pixel / 0x20 % 0x20 * 8) as u8,
                (pixel % 0x20 * 8) as u8,
            )
        }
    }
}

/// What one more pixel does to the bytes of a picture.
proof fn lemma_pixel_stored(
    drawing: Drawing,
    frame_width: u16,
    frame_height: u16,
    before: Seq<u8>,
    now: Seq<u8>,
    next: Seq<u8>,
    row: int,
    column: int,
)
    requires
        drawing.reached(frame_width, frame_height, before, now, row, column),
        before.len() >= frame_width * 4 * frame_height,
        0 <= row < frame_height,
        0 <= column < frame_width,
        next.len() == now.len(),
        forall|c: int|
            0 <= c < 4 ==> #[trigger] next[pixel_byte(frame_width as int, column, row, c)]
                == drawing.shown(frame_width as int, before, column, row, c),
        forall|i: int|
            0 <= i < now.len() && !(pixel_byte(frame_width as int, column, row, 0) <= i
                < pixel_byte(frame_width as int, column, row, 0) + 4) ==> next[i] == now[i],
    ensures
        drawing.reached(frame_width, frame_height, before, next, row, column + 1),
{
    let width = frame_width as int;
    let at = pixel_byte(width, column, row, 0);
    lemma_pixel_inside(width, frame_height as int, column, row);
    assert forall|x: int, y: int, c: int|
        0 <= x < frame_width && 0 <= y < frame_height && 0 <= c
            < 4 implies #[trigger] next[pixel_byte(width, x, y, c)] == (if y < row || (y == row && x
        < column + 1) {
        drawing.shown(width, before, x, y, c)
    } else {
        before[pixel_byte(width, x, y, c)]
    }) by {
        lemma_pixel_inside(width, frame_height as int, x, y);
        let i = pixel_byte(width, x, y, c);
        if at <= i < at + 4 {
            lemma_pixel_byte(width, x, y, c, column, row, i - at);
            assert(next[pixel_byte(width, column, row, c)] == drawing.shown(
                width,
                before,
                column,
                row,
                c,
            ));
        } else {
            assert(now[pixel_byte(width, x, y, c)] == next[i]);
            if x == column && y == row {
                assert(i == at + c);
            }
        }
    }
}

/// Where the byte at `i` of a picture stands.
proof fn lemma_byte_place(i: int, frame_width: int)
    requires
        0 <= i,
        0 < frame_width,
    ensures
        0 <= i / 4 % frame_width < frame_width,
        0 <= i / 4 / frame_width,
        0 <= i % 4 < 4,
        pixel_byte(frame_width, i / 4 % frame_width, i / 4 / frame_width, i % 4) == i,
{
    let pixel = i / 4;
    vstd::arithmetic::div_mod::lemma_fundamental_div_mod(pixel, frame_width);
    vstd::arithmetic::div_mod::lemma_mod_bound(pixel, frame_width);
    vstd::arithmetic::div_mod::lemma_div_pos_is_pos(pixel, frame_width);
    assert(frame_width * (pixel / frame_width) == pixel / frame_width * frame_width)
        by (nonlinear_arith);
}

/// Once every row has been drawn, the picture is as it should be.
proof fn lemma_drawn(
    drawing: Drawing,
    frame_width: u16,
    frame_height: u16,
    before: Seq<u8>,
    after: Seq<u8>,
)
    requires
        0 < frame_width,
        drawing.update.y + drawing.draw_height <= frame_height,
        drawing.reached(
            frame_width,
            frame_height,
            before,
            after,
            drawing.update.y + drawing.draw_height,
            0,
        ),
    ensures
        after == drawing.drawn(frame_width, before),
{
    let width = frame_width as int;
    let height = frame_height as int;
    assert forall|i: int| 0 <= i < before.len() implies after[i] == drawing.drawn(
        frame_width,
        before,
    )[i] by {
        let x = i / 4 % width;
        let y = i / 4 / width;
        lemma_byte_place(i, width);
        assert(after[pixel_byte(width, x, y, i % 4)] == after[i]);
        if y >= height {
            assert(i >= width * 4 * height) by (nonlinear_arith)
                requires
                    i == (y * width + x) * 4 + i % 4,
                    y >= height,
                    0 <= x,
                    0 < width,
                    0 <= i % 4,
            ;
        }
    }
    assert(after =~= drawing.drawn(frame_width, before));
}

/// Draws `update`, whose pixels are `decoded`, on a picture of four bytes per
/// pixel, and returns the part that it covers.
pub fn apply_bitmap_to_buffer(
    frame_buffer: &mut [u8],
    frame_width: u16,
    frame_height: u16,
    update: &BitmapUpdate<'_>,
    decoded: DecodedBitmap<'_>,
) -> (res: Option<DirtyRect>)
    requires
        decoded.stride * update.bmp_height <= usize::MAX,
    ensures
        ({
            let plan = drawing(
                old(frame_buffer)@.len(),
                frame_width,
                frame_height,
                update@,
                decoded.data@,
                decoded.top_down,
                decoded.stride as nat,
            );
            match plan {
                Some(drawing) => final(frame_buffer)@ == drawing.drawn(
                    frame_width,
                    old(frame_buffer)@,
                ) && res == Some(
                    DirtyRect {
                        x: update.x,
                        y: update.y,
                        width: drawing.draw_width as u16,
                        height: drawing.draw_height as u16,
                    },
                ),
                None => res is None && final(frame_buffer)@ == old(frame_buffer)@,
            }
        }),
{
    let bytes_per_pixel = match depth(update.bpp) {
        Some(n) => n,
        None => return None,
    };
    let bpp = update.bpp;
    let (left, top) = (update.x, update.y);
    let frame_len = frame_buffer.len();
    let data_len = decoded.data.len();
    proof {
        assert(0 <= frame_width * 4 * frame_height <= 0xFFFF * 4 * 0xFFFF) by (nonlinear_arith)
            requires
                0 <= frame_width <= 0xFFFF,
                0 <= frame_height <= 0xFFFF,
        ;
    }
    if left >= frame_width || top >= frame_height || (frame_len as u64) < frame_width as u64 * 4
        * frame_height as u64 {
        return None;
    }
    let draw_width = if update.width <= frame_width - left {
        update.width
    } else {
        frame_width - left
    };
    let draw_height = if update.height <= frame_height - top {
        update.height
    } else {
        frame_height - top
    };
    let bmp_width = update.bmp_width as usize;
    let bmp_height = update.bmp_height as usize;
    if draw_width == 0 || draw_height == 0 || bmp_width == 0 || bmp_height == 0 {
        return None;
    }
    let stride = decoded.stride;
    if data_len < stride * bmp_height {
        return None;
    }
    let ghost before = frame_buffer@;
    let ghost plan = Drawing {
        update: update@,
        pixels: decoded.data@,
        top_down: decoded.top_down,
        stride: stride as nat,
        draw_width: draw_width as int,
        draw_height: draw_height as int,
    };
    let mut row: u16 = 0;
    while row < draw_height
        invariant
            depth_bytes(bpp) == Some(bytes_per_pixel as nat),
            2 <= bytes_per_pixel <= 4,
            before.len() == frame_len >= frame_width * 4 * frame_height,
            decoded.data@.len() == data_len,
            left + draw_width <= frame_width,
            top + draw_height <= frame_height,
            0 < draw_width,
            row <= draw_height,
            bmp_width == plan.update.bmp_width,
            bmp_height == plan.update.bmp_height,
            0 < bmp_width,
            0 < bmp_height,
            stride * bmp_height <= decoded.data@.len(),
            plan.update.bpp == bpp,
            plan.update.x == left,
            plan.update.y == top,
            plan.pixels == decoded.data@,
            plan.top_down == decoded.top_down,
            plan.stride == stride,
            plan.draw_width == draw_width,
            plan.draw_height == draw_height,
            frame_buffer@.len() == before.len(),
            plan.reached(frame_width, frame_height, before, frame_buffer@, top + row, 0),
        decreases draw_height - row,
    {
        let src_row = map_row(row, draw_height, bmp_height, decoded.top_down);
        proof {
            lemma_row_inside(src_row as int, stride as int, bmp_height as int);
        }
        let src_offset = src_row * stride;
        let mut column: u16 = 0;
        while column < draw_width
            invariant
                depth_bytes(bpp) == Some(bytes_per_pixel as nat),
                2 <= bytes_per_pixel <= 4,
                before.len() == frame_len >= frame_width * 4 * frame_height,
                decoded.data@.len() == data_len,
                left + draw_width <= frame_width,
                top + draw_height <= frame_height,
                column <= draw_width,
                row < draw_height,
                bmp_width == plan.update.bmp_width,
                bmp_height == plan.update.bmp_height,
                0 < bmp_width,
                0 < bmp_height,
                plan.update.bpp == bpp,
                plan.update.x == left,
                plan.update.y == top,
                plan.pixels == decoded.data@,
                plan.top_down == decoded.top_down,
                plan.stride == stride,
                plan.draw_width == draw_width,
                plan.draw_height == draw_height,
                src_row == (if decoded.top_down {
                    mapped(row as int, draw_height as int, bmp_height as int)
                } else {
                    bmp_height - 1 - mapped(row as int, draw_height as int, bmp_height as int)
                }),
                src_offset == src_row * stride,
                src_offset <= decoded.data@.len(),
                frame_buffer@.len() == before.len(),
                plan.reached(
                    frame_width,
                    frame_height,
                    before,
                    frame_buffer@,
                    top + row,
                    left + column,
                ),
            decreases draw_width - column,
        {
            let src_column = map_column(column, draw_width, bmp_width);
            let ghost now = frame_buffer@;
            proof {
                lemma_pixel_inside(
                    frame_width as int,
                    frame_height as int,
                    left + column,
                    top + row,
                );
            }
            let x = left + column;
            let y = top + row;
            if data_len - src_offset >= src_column * bytes_per_pixel + bytes_per_pixel {
                let source = src_offset + src_column * bytes_per_pixel;
                assert(source == plan.source(x as int, y as int));
                let (red, green, blue) = read_colour(bpp, decoded.data, source, bytes_per_pixel);
                let at = (y as usize * frame_width as usize + x as usize) * 4;
                store_pixel(frame_buffer, at, red, green, blue);
                assert(plan.covers(x as int, y as int));
            }
            proof {
                lemma_pixel_stored(
                    plan,
                    frame_width,
                    frame_height,
                    before,
                    now,
                    frame_buffer@,
                    y as int,
                    x as int,
                );
            }
            column += 1;
        }
        assert(plan.reached(frame_width, frame_height, before, frame_buffer@, top + row + 1, 0));
        row += 1;
    }
    proof {
        lemma_drawn(plan, frame_width, frame_height, before, frame_buffer@);
    }
    Some(DirtyRect { x: left, y: top, width: draw_width, height: draw_height })
}

proof fn lemma_row_inside(row: int, stride: int, height: int)
    by (nonlinear_arith)
    requires
        0 <= row < height,
        0 <= stride,
    ensures
        0 <= row * stride <= stride * height,
{
}

fn map_row(row: u16, draw_height: u16, bmp_height: usize, top_down: bool) -> (res: usize)
    requires
        row < draw_height,
        0 < bmp_height <= 0xFFFF,
    ensures
        res < bmp_height,
        res == (if top_down {
            mapped(row as int, draw_height as int, bmp_height as int)
        } else {
            bmp_height - 1 - mapped(row as int, draw_height as int, bmp_height as int)
        }),
{
    let index = map_column(row, draw_height, bmp_height);
    if top_down {
        index
    } else {
        bmp_height - 1 - index
    }
}

fn map_column(column: u16, draw_width: u16, bmp_width: usize) -> (res: usize)
    requires
        column < draw_width,
        0 < bmp_width <= 0xFFFF,
    ensures
        res < bmp_width,
        res == mapped(column as int, draw_width as int, bmp_width as int),
{
    proof {
        if bmp_width < draw_width {
            assert(0 <= column * bmp_width <= 0xFFFF * 0xFFFF) by (nonlinear_arith)
                requires
                    0 <= column <= 0xFFFF,
                    0 <= bmp_width <= 0xFFFF,
            ;
            assert(column * bmp_width / draw_width as int >= 0) by (nonlinear_arith)
                requires
                    0 <= column * bmp_width,
                    0 < draw_width,
            ;
        }
    }
    map_bitmap_coordinate(column as usize, draw_width as usize, bmp_width)
}

} // verus!
