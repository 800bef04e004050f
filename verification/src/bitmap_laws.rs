//! What reading, decoding and drawing bitmaps promise, said from the side of
//! the server: the bytes that it sends, and what is then shown.

use vstd::prelude::*;

use crate::bitmap::{
    colour, counted_rectangles, decode_status, decoded_pixels, depth_bytes, drawing, mapped,
    packet_rectangles, padded_row, rectangle, rectangles, rle_outcome, update_rectangles,
    BitmapView, Drawing,
};
use crate::fields::two_bytes;
use crate::rle::{pixel_at, pixel_bytes, rows_flipped, white, RleDecodeStatus, RleGeometry};
use crate::rle_laws::{one_run_fills_a_row, regular_or_mega};
use crate::wire::le16_at;

verus! {

// ---- Colours ----------------------------------------------------------------

/// Colours of 16 bits have five bits of red, six of green and five of blue; each
/// is shown with the bits that it has.
pub proof fn colours_of_16_bits_are_shown(data: Seq<u8>, i: int, red: int, green: int, blue: int)
    requires
        0 <= red < 32,
        0 <= green < 64,
        0 <= blue < 32,
        data[i] + 256 * data[i + 1] == red * 2048 + green * 32 + blue,
    ensures
        colour(16, data, i) == seq![(8 * red) as u8, (4 * green) as u8, (8 * blue) as u8, 255u8],
{
    let pixel = le16_at(data, i);
    assert(pixel == red * 2048 + green * 32 + blue);
    assert(pixel / 0x800 == red);
    assert(pixel / 0x20 == red * 64 + green);
    assert(pixel / 0x20 % 0x40 == green);
    assert(pixel % 0x20 == blue);
    assert(colour(16, data, i) =~= seq![
        (8 * red) as u8,
        (4 * green) as u8,
        (8 * blue) as u8,
        255u8,
    ]);
}

/// Colours of 15 bits have five bits each of red, green and blue; the bit above
/// them says nothing.
pub proof fn colours_of_15_bits_are_shown(
    data: Seq<u8>,
    i: int,
    top: int,
    red: int,
    green: int,
    blue: int,
)
    requires
        0 <= top < 2,
        0 <= red < 32,
        0 <= green < 32,
        0 <= blue < 32,
        data[i] + 256 * data[i + 1] == top * 32768 + red * 1024 + green * 32 + blue,
    ensures
        colour(15, data, i) == seq![(8 * red) as u8, (8 * green) as u8, (8 * blue) as u8, 255u8],
{
    let pixel = le16_at(data, i);
    assert(pixel == top * 32768 + red * 1024 + green * 32 + blue);
    assert(pixel / 0x400 == top * 32 + red);
    assert(pixel / 0x400 % 0x20 == red);
    assert(pixel / 0x20 == top * 1024 + red * 32 + green);
    assert(pixel / 0x20 % 0x20 == green);
    assert(pixel % 0x20 == blue);
    assert(colour(15, data, i) =~= seq![
        (8 * red) as u8,
        (8 * green) as u8,
        (8 * blue) as u8,
        255u8,
    ]);
}

/// Colours of 24 and 32 bits have a byte each of blue, green and red, which are
/// shown as they are.
pub proof fn colours_of_bytes_are_shown(data: Seq<u8>, i: int, red: u8, green: u8, blue: u8)
    requires
        data[i] == blue,
        data[i + 1] == green,
        data[i + 2] == red,
    ensures
        colour(24, data, i) == seq![red, green, blue, 255u8],
        colour(32, data, i) == seq![red, green, blue, 255u8],
{
    assert(colour(24, data, i) =~= seq![red, green, blue, 255u8]);
    assert(colour(32, data, i) =~= seq![red, green, blue, 255u8]);
}

/// A pixel takes the fewest bytes that hold its bits; other depths than 15, 16,
/// 24 and 32 are not drawn.
pub proof fn depths_take_whole_bytes(bpp: u16)
    ensures
        depth_bytes(bpp) matches Some(n) ==> bpp <= 8 * n < bpp + 8,
        (depth_bytes(bpp) is Some) == (bpp == 15 || bpp == 16 || bpp == 24 || bpp == 32),
{
}

// ---- Places -----------------------------------------------------------------

/// A bitmap that is large enough is cropped: each place shows the pixel with its
/// own index.
pub proof fn large_bitmaps_are_cropped(i: int, shown: int, size: int)
    requires
        0 <= i < shown <= size,
    ensures
        mapped(i, shown, size) == i,
{
}

/// A bitmap that is too small is stretched: each place shows the pixel whose
/// share of the places it falls into.
pub proof fn small_bitmaps_are_stretched(i: int, shown: int, size: int)
    requires
        0 <= i < shown,
        0 < size < shown,
    ensures
        0 <= mapped(i, shown, size) < size,
        mapped(i, shown, size) * shown <= i * size < (mapped(i, shown, size) + 1) * shown,
{
    let k = i * size / shown;
    assert(0 <= i * size < shown * size) by (nonlinear_arith)
        requires
            0 <= i < shown,
            0 < size,
    ;
    vstd::arithmetic::div_mod::lemma_fundamental_div_mod(i * size, shown);
    vstd::arithmetic::div_mod::lemma_mod_bound(i * size, shown);
    assert(k * shown == shown * k) by (nonlinear_arith);
    assert((k + 1) * shown == shown * k + shown) by (nonlinear_arith);
    assert(0 <= k < size) by (nonlinear_arith)
        requires
            shown * k <= i * size < shown * k + shown,
            0 <= i * size < shown * size,
            0 < shown,
    ;
}

/// Rows of a bitmap that is not compressed begin at multiples of four bytes, as
/// close to each other as that allows.
pub proof fn rows_are_padded_to_four(width: nat, bytes_per_pixel: nat)
    ensures
        padded_row(width, bytes_per_pixel) % 4 == 0,
        width * bytes_per_pixel <= padded_row(width, bytes_per_pixel) < width * bytes_per_pixel + 4,
{
}

// ---- Drawing ----------------------------------------------------------------

/// A bitmap that covers its rectangle is drawn pixel by pixel: column `x` of row
/// `y` of the rectangle shows column `x` of row `y` of the bitmap, counted from
/// the top, in red, green, blue and opacity.
pub proof fn bitmaps_are_drawn_in_place(
    before: Seq<u8>,
    frame_width: u16,
    frame_height: u16,
    update: BitmapView,
    pixels: Seq<u8>,
    top_down: bool,
    stride: nat,
    bytes_per_pixel: nat,
    x: int,
    y: int,
    c: int,
)
    requires
        depth_bytes(update.bpp) == Some(bytes_per_pixel),
        before.len() == frame_width * 4 * frame_height,
        update.x + update.width <= frame_width,
        update.y + update.height <= frame_height,
        update.width <= update.bmp_width,
        update.height <= update.bmp_height,
        update.bmp_width * bytes_per_pixel <= stride,
        pixels.len() >= stride * update.bmp_height,
        0 <= x < update.width,
        0 <= y < update.height,
        0 <= c < 4,
    ensures
        ({
            let row = if top_down { y } else { update.bmp_height - 1 - y };
            let d = drawing(
                before.len(),
                frame_width,
                frame_height,
                update,
                pixels,
                top_down,
                stride,
            );
            &&& d is Some
            &&& d->0.draw_width == update.width
            &&& d->0.draw_height == update.height
            &&& d->0.drawn(frame_width, before)[((update.y + y) * frame_width + update.x + x) * 4
                + c] == colour(update.bpp, pixels, row * stride + x * bytes_per_pixel)[c]
        }),
{
    let d = drawing(before.len(), frame_width, frame_height, update, pixels, top_down, stride)->0;
    let row = if top_down { y } else { update.bmp_height - 1 - y };
    let px = update.x + x;
    let py = update.y + y;
    let width = frame_width as int;
    let i = (py * width + update.x + x) * 4 + c;
    lemma_byte_of_pixel(width, frame_height as int, px, py, c);
    assert(i == (py * width + px) * 4 + c);
    assert(d.source(px, py) == row * stride + x * bytes_per_pixel);
    assert(row * stride + x * bytes_per_pixel + bytes_per_pixel <= stride * update.bmp_height)
        by (nonlinear_arith)
        requires
            0 <= row < update.bmp_height,
            0 <= x < update.bmp_width,
            update.bmp_width * bytes_per_pixel <= stride,
    ;
    assert(d.covers(px, py));
}

/// Where a byte of a picture stands tells its pixel.
proof fn lemma_byte_of_pixel(width: int, height: int, x: int, y: int, c: int)
    requires
        0 <= x < width,
        0 <= y < height,
        0 <= c < 4,
    ensures
        ({
            let i = (y * width + x) * 4 + c;
            &&& 0 <= i < width * 4 * height
            &&& i / 4 % width == x
            &&& i / 4 / width == y
            &&& i % 4 == c
        }),
{
    let i = (y * width + x) * 4 + c;
    assert(i / 4 == y * width + x);
    assert(0 <= y * width && (y * width + x) * 4 + 4 <= width * 4 * height) by (nonlinear_arith)
        requires
            0 <= x < width,
            0 <= y < height,
    ;
    vstd::arithmetic::div_mod::lemma_fundamental_div_mod_converse(y * width + x, width, y, x);
}

/// What lies outside the rectangle of a bitmap is not changed by drawing it.
pub proof fn drawing_stays_inside(
    before: Seq<u8>,
    frame_width: u16,
    frame_height: u16,
    update: BitmapView,
    pixels: Seq<u8>,
    top_down: bool,
    stride: nat,
    x: int,
    y: int,
    c: int,
)
    requires
        before.len() == frame_width * 4 * frame_height,
        0 <= x < frame_width,
        0 <= y < frame_height,
        0 <= c < 4,
        !(update.x <= x < update.x + update.width && update.y <= y < update.y + update.height),
    ensures
        drawing(
            before.len(),
            frame_width,
            frame_height,
            update,
            pixels,
            top_down,
            stride,
        ) matches Some(d) ==> d.drawn(frame_width, before).len() == before.len() && d.drawn(
            frame_width,
            before,
        )[(y * frame_width + x) * 4 + c] == before[(y * frame_width + x) * 4 + c],
{
    lemma_byte_of_pixel(frame_width as int, frame_height as int, x, y, c);
}

/// A rectangle that lies beyond the edge of the picture is cut off there.
pub proof fn drawings_end_at_the_edge(
    frame_len: nat,
    frame_width: u16,
    frame_height: u16,
    update: BitmapView,
    pixels: Seq<u8>,
    top_down: bool,
    stride: nat,
)
    ensures
        match drawing(frame_len, frame_width, frame_height, update, pixels, top_down, stride) {
            Some(d) => {
                &&& 0 < d.draw_width <= update.width
                &&& 0 < d.draw_height <= update.height
                &&& update.x + d.draw_width <= frame_width
                &&& update.y + d.draw_height <= frame_height
                &&& d.draw_width < update.width ==> update.x + d.draw_width == frame_width
                &&& d.draw_height < update.height ==> update.y + d.draw_height == frame_height
            },
            None => {
                ||| depth_bytes(update.bpp) is None
                ||| update.width == 0
                ||| update.height == 0
                ||| update.x >= frame_width
                ||| update.y >= frame_height
                ||| update.bmp_width == 0
                ||| update.bmp_height == 0
                ||| frame_len < frame_width * 4 * frame_height
                ||| pixels.len() < stride * update.bmp_height
            },
        },
{
}

// ---- Rectangles on the wire -------------------------------------------------

/// A rectangle as the server sends it: its left, top, right and bottom edges,
/// the size of the bitmap, its depth and flags, and the bytes that follow.
pub open spec fn sent_rectangle(
    left: u16,
    top: u16,
    right: u16,
    bottom: u16,
    width: u16,
    height: u16,
    bpp: u16,
    flags: u16,
    data: Seq<u8>,
) -> Seq<u8> {
    two_bytes(left) + two_bytes(top) + two_bytes(right) + two_bytes(bottom) + two_bytes(width)
        + two_bytes(height) + two_bytes(bpp) + two_bytes(flags) + two_bytes(data.len() as u16)
        + data
}

proof fn lemma_sent_fields(
    left: u16,
    top: u16,
    right: u16,
    bottom: u16,
    width: u16,
    height: u16,
    bpp: u16,
    flags: u16,
    data: Seq<u8>,
    rest: Seq<u8>,
)
    requires
        data.len() <= 0xFFFF,
    ensures
        ({
            let s = sent_rectangle(left, top, right, bottom, width, height, bpp, flags, data)
                + rest;
            &&& s.len() == 18 + data.len() + rest.len()
            &&& le16_at(s, 0) == left
            &&& le16_at(s, 2) == top
            &&& le16_at(s, 4) == right
            &&& le16_at(s, 6) == bottom
            &&& le16_at(s, 8) == width
            &&& le16_at(s, 10) == height
            &&& le16_at(s, 12) == bpp
            &&& le16_at(s, 14) == flags
            &&& le16_at(s, 16) == data.len()
            &&& s.subrange(18, 18 + data.len() as int) == data
            &&& s.skip(18 + data.len() as int) == rest
        }),
{
    let s = sent_rectangle(left, top, right, bottom, width, height, bpp, flags, data) + rest;
    let n = data.len() as u16;
    assert(s[0] == two_bytes(left)[0] && s[1] == two_bytes(left)[1]);
    assert(s[2] == two_bytes(top)[0] && s[3] == two_bytes(top)[1]);
    assert(s[4] == two_bytes(right)[0] && s[5] == two_bytes(right)[1]);
    assert(s[6] == two_bytes(bottom)[0] && s[7] == two_bytes(bottom)[1]);
    assert(s[8] == two_bytes(width)[0] && s[9] == two_bytes(width)[1]);
    assert(s[10] == two_bytes(height)[0] && s[11] == two_bytes(height)[1]);
    assert(s[12] == two_bytes(bpp)[0] && s[13] == two_bytes(bpp)[1]);
    assert(s[14] == two_bytes(flags)[0] && s[15] == two_bytes(flags)[1]);
    assert(s[16] == two_bytes(n)[0] && s[17] == two_bytes(n)[1]);
    assert(s.subrange(18, 18 + data.len() as int) =~= data);
    assert(s.skip(18 + data.len() as int) =~= rest);
}

/// A rectangle is read as it was sent: its corner, one column and row more than
/// its edges are apart, the size and depth of the bitmap, and the pixels, which
/// follow the compression header of eight bytes where there is one. What follows
/// the rectangle is left.
pub proof fn rectangles_are_read_as_sent(
    left: u16,
    top: u16,
    right: u16,
    bottom: u16,
    width: u16,
    height: u16,
    bpp: u16,
    data: Seq<u8>,
    rest: Seq<u8>,
)
    requires
        left <= right < 0xFFFF,
        top <= bottom < 0xFFFF,
        1 <= width <= 4096,
        1 <= height <= 4096,
        1 <= bpp <= 32,
        8 < data.len() <= 0xFFFF,
    ensures
        ({
            let view = BitmapView {
                x: left,
                y: top,
                width: (right - left + 1) as u16,
                height: (bottom - top + 1) as u16,
                bpp,
                bmp_width: width,
                bmp_height: height,
                compressed: false,
                data,
            };
            let taken = 18 + data.len();
            // Neither compressed nor with a header.
            &&& rectangle(
                sent_rectangle(left, top, right, bottom, width, height, bpp, 0, data) + rest,
            ) == Some((view, taken))
            // Compressed, with a header.
            &&& rectangle(
                sent_rectangle(left, top, right, bottom, width, height, bpp, 1, data) + rest,
            ) == Some((BitmapView { compressed: true, data: data.skip(8), ..view }, taken))
            // Compressed, without a header.
            &&& rectangle(
                sent_rectangle(left, top, right, bottom, width, height, bpp, 0x401, data) + rest,
            ) == Some((BitmapView { compressed: true, ..view }, taken))
        }),
{
    lemma_sent_fields(left, top, right, bottom, width, height, bpp, 0, data, rest);
    lemma_sent_fields(left, top, right, bottom, width, height, bpp, 1, data, rest);
    lemma_sent_fields(left, top, right, bottom, width, height, bpp, 0x401, data, rest);
}

/// Rectangles with an empty or too large bitmap, and those that end early, end
/// the list.
pub proof fn broken_rectangles_are_refused(
    left: u16,
    top: u16,
    right: u16,
    bottom: u16,
    width: u16,
    height: u16,
    bpp: u16,
    flags: u16,
    data: Seq<u8>,
    rest: Seq<u8>,
    cut: int,
)
    requires
        data.len() <= 0xFFFF,
        0 <= cut < 18 + data.len(),
    ensures
        (rectangle(
            sent_rectangle(left, top, right, bottom, width, height, bpp, flags, data) + rest,
        ) is Some) == (1 <= width <= 4096 && 1 <= height <= 4096 && 1 <= bpp <= 32 && data.len()
            > 0),
        rectangle(
            sent_rectangle(left, top, right, bottom, width, height, bpp, flags, data).take(cut),
        ) is None,
{
    lemma_sent_fields(left, top, right, bottom, width, height, bpp, flags, data, rest);
    lemma_sent_fields(left, top, right, bottom, width, height, bpp, flags, data, Seq::empty());
    let s = sent_rectangle(left, top, right, bottom, width, height, bpp, flags, data);
    assert(s + Seq::<u8>::empty() =~= s);
    let t = s.take(cut);
    if cut >= 18 {
        assert(t[16] == s[16] && t[17] == s[17]);
    }
}

/// The rectangles of an update come one after another, as many as it says.
pub proof fn rectangles_come_in_order(
    left: u16,
    top: u16,
    right: u16,
    bottom: u16,
    width: u16,
    height: u16,
    bpp: u16,
    flags: u16,
    data: Seq<u8>,
    rest: Seq<u8>,
    n: nat,
)
    requires
        1 <= width <= 4096,
        1 <= height <= 4096,
        1 <= bpp <= 32,
        0 < data.len() <= 0xFFFF,
    ensures
        ({
            let s = sent_rectangle(left, top, right, bottom, width, height, bpp, flags, data)
                + rest;
            let all = rectangles(s, n + 1);
            &&& rectangle(s) matches Some((first, _)) && all[0] == first
            &&& all.len() == 1 + rectangles(rest, n).len()
            &&& all.skip(1) == rectangles(rest, n)
            &&& rectangles(s, 0).len() == 0
        }),
{
    lemma_sent_fields(left, top, right, bottom, width, height, bpp, flags, data, rest);
    let s = sent_rectangle(left, top, right, bottom, width, height, bpp, flags, data) + rest;
    assert(rectangles(s, n + 1).skip(1) =~= rectangles(rest, n));
}

/// An update says what it is, one for bitmaps, and then how many rectangles
/// follow, of which there may be at most 256.
pub proof fn updates_are_counted(kind: u16, count: u16, rest: Seq<u8>)
    ensures
        kind == 1 && count <= 256 ==> update_rectangles(two_bytes(kind) + two_bytes(count) + rest)
            == rectangles(rest, count as nat),
        kind != 1 || count > 256 ==> update_rectangles(
            two_bytes(kind) + two_bytes(count) + rest,
        ).len() == 0,
        count <= 256 ==> counted_rectangles(two_bytes(count) + rest) == rectangles(
            rest,
            count as nat,
        ),
        count > 256 ==> counted_rectangles(two_bytes(count) + rest).len() == 0,
{
    let inner = two_bytes(count) + rest;
    assert(inner[0] == two_bytes(count)[0] && inner[1] == two_bytes(count)[1]);
    assert(inner.skip(2) =~= rest);
    let s = two_bytes(kind) + two_bytes(count) + rest;
    assert(s[0] == two_bytes(kind)[0] && s[1] == two_bytes(kind)[1]);
    assert(s.skip(2) =~= inner);
}

/// An update in a packet follows the headers of the transport, of the channel,
/// whose length takes one byte or two, and of the data.
pub proof fn updates_are_found_in_packets(
    transport: Seq<u8>,
    channel: Seq<u8>,
    length: Seq<u8>,
    share: Seq<u8>,
    update: Seq<u8>,
)
    requires
        transport.len() == 7,
        transport[0] == 3,
        transport[5] == 0xF0,
        channel.len() == 6,
        channel[0] == 0x68,
        (length.len() == 1 && length[0] < 0x80) || (length.len() == 2 && length[0] >= 0x80),
        share.len() == 18,
    ensures
        ({
            let found = packet_rectangles(transport + channel + length + share + update);
            if share[2] % 16 == 7 && share[14] == 2 {
                found == update_rectangles(update)
            } else {
                found.len() == 0
            }
        }),
{
    let s = transport + channel + length + share + update;
    let at = 13 + length.len() as int;
    assert(s[0] == transport[0] && s[5] == transport[5]);
    assert(s[7] == channel[0]);
    assert(s[13] == length[0]);
    assert(s[at + 2] == share[2]);
    assert(s[at + 14] == share[14]);
    assert(s.skip(at + 18) =~= update);
}

// ---- Decoding ---------------------------------------------------------------

/// The pixels of a bitmap that is not compressed are its bytes, from the bottom
/// row up, where there are enough of them.
pub proof fn plain_bitmaps_are_their_bytes(update: BitmapView, bytes_per_pixel: nat)
    requires
        !update.compressed,
        depth_bytes(update.bpp) == Some(bytes_per_pixel),
    ensures
        match decoded_pixels(update) {
            Some((pixels, top_down, stride)) => pixels == update.data && !top_down && stride % 4
                == 0 && update.bmp_width * bytes_per_pixel <= stride < update.bmp_width
                * bytes_per_pixel + 4 && stride * update.bmp_height <= update.data.len(),
            None => update.data.len() < (update.bmp_width * bytes_per_pixel + 3)
                * update.bmp_height,
        },
        decode_status(update) == RleDecodeStatus::Complete,
{
    rows_are_padded_to_four(update.bmp_width as nat, bytes_per_pixel);
    let stride = padded_row(update.bmp_width as nat, bytes_per_pixel);
    assert(stride * update.bmp_height <= (update.bmp_width * bytes_per_pixel + 3)
        * update.bmp_height) by (nonlinear_arith)
        requires
            stride <= update.bmp_width * bytes_per_pixel + 3,
            0 <= update.bmp_height,
    ;
}

/// A compressed row of one colour, written as one run, decodes to that row.
pub proof fn compressed_rows_are_decoded(
    update: BitmapView,
    header: Seq<u8>,
    pixel: u32,
    bytes_per_pixel: nat,
)
    requires
        update.compressed,
        depth_bytes(update.bpp) == Some(bytes_per_pixel),
        update.bmp_height == 1,
        0 < update.bmp_width,
        regular_or_mega(header, 3, 0xF3, update.bmp_width as int),
        pixel <= white(bytes_per_pixel),
        update.data == header + pixel_bytes(pixel, bytes_per_pixel),
    ensures
        decode_status(update) == RleDecodeStatus::Complete,
        decoded_pixels(update) matches Some((pixels, top_down, stride)) && top_down && stride
            == update.bmp_width * bytes_per_pixel && pixels.len() == stride && forall|j: int|
            0 <= j < update.bmp_width ==> #[trigger] pixel_at(
                pixels,
                j * bytes_per_pixel,
                bytes_per_pixel,
            ) == pixel,
{
    let n = update.bmp_width as nat;
    let row = n * bytes_per_pixel;
    assert(0 < row <= 0xFFFF * 4) by (nonlinear_arith)
        requires
            row == n * bytes_per_pixel,
            0 < n <= 0xFFFF,
            1 <= bytes_per_pixel <= 4,
    ;
    one_run_fills_a_row(header, pixel, bytes_per_pixel, n);
    let out = rle_outcome(update, bytes_per_pixel).1;
    let g = RleGeometry {
        row: row as usize,
        size: row as usize,
        bytes_per_pixel: bytes_per_pixel as usize,
    };
    assert(row * update.bmp_height == row) by (nonlinear_arith)
        requires
            update.bmp_height == 1,
    ;
    assert(out.len() == row);
    assert(rows_flipped(out.skip(row as int), row) =~= Seq::<u8>::empty());
    assert(rows_flipped(out, row) =~= out);
    assert forall|j: int| 0 <= j < n implies #[trigger] pixel_at(
        out,
        j * bytes_per_pixel,
        bytes_per_pixel,
    ) == pixel by {
        assert(pixel_at(
            out,
            Seq::<u8>::empty().len() + j * g.bytes_per_pixel,
            g.bytes_per_pixel as nat,
        ) == pixel);
    }
}

} // verus!
