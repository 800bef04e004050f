//! What run-length decoding promises, said from the side of a compressor: the
//! bytes that it writes for an order, and the pixels that come of them.

use vstd::prelude::*;
use vstd::arithmetic::power2::pow2;

use crate::rle::{
    order_code, pixel_at, pixel_bytes, rle_start, rle_status, run_length, white, Paint,
    RleDecodeStatus, RleGeometry, RleState, RleStep,
};

verus! {

// ---- Pixels -----------------------------------------------------------------

/// The bytes of a pixel, each times its weight, add up to the pixel.
pub proof fn pixel_is_the_sum_of_its_bytes(s: Seq<u8>, i: int)
    requires
        0 <= i,
        i + 4 <= s.len(),
    ensures
        pixel_at(s, i, 1) == s[i],
        pixel_at(s, i, 2) == s[i] + 256 * s[i + 1],
        pixel_at(s, i, 3) == s[i] + 256 * s[i + 1] + 65536 * s[i + 2],
        pixel_at(s, i, 4) == s[i] + 256 * s[i + 1] + 65536 * s[i + 2] + 16777216 * s[i + 3],
{
}

/// No pixel of a given size is larger than white, and white is all ones.
pub proof fn white_is_largest(s: Seq<u8>, i: int, bytes_per_pixel: nat)
    requires
        1 <= bytes_per_pixel <= 4,
    ensures
        pixel_at(s, i, bytes_per_pixel) <= white(bytes_per_pixel),
        forall|k: int|
            0 <= k < bytes_per_pixel ==> #[trigger] pixel_bytes(
                white(bytes_per_pixel),
                bytes_per_pixel,
            )[k] == 255,
{
}

proof fn lemma_pixel_bytes_read(pixel: u32, bytes_per_pixel: nat, before: Seq<u8>)
    requires
        1 <= bytes_per_pixel <= 4,
        pixel <= white(bytes_per_pixel),
    ensures
        pixel_bytes(pixel, bytes_per_pixel).len() == bytes_per_pixel,
        pixel_at(
            before + pixel_bytes(pixel, bytes_per_pixel),
            before.len() as int,
            bytes_per_pixel,
        ) == pixel,
{
    crate::rle::pixel_round_trip(before, pixel, bytes_per_pixel, Seq::empty());
    assert(before + pixel_bytes(pixel, bytes_per_pixel) + Seq::<u8>::empty() =~= before
        + pixel_bytes(pixel, bytes_per_pixel));
}

proof fn lemma_pixel_in_front(s: Seq<u8>, t: Seq<u8>, i: int, bytes_per_pixel: nat)
    requires
        1 <= bytes_per_pixel <= 4,
        0 <= i,
        i + bytes_per_pixel <= t.len() <= s.len(),
        s.take(t.len() as int) == t,
    ensures
        pixel_at(s, i, bytes_per_pixel) == pixel_at(t, i, bytes_per_pixel),
{
    assert(forall|k: int| 0 <= k < t.len() ==> s[k] == #[trigger] s.take(t.len() as int)[k]);
    assert(s[i] == t[i]);
    if bytes_per_pixel >= 2 {
        assert(s[i + 1] == t[i + 1]);
    }
    if bytes_per_pixel >= 3 {
        assert(s[i + 2] == t[i + 2]);
    }
    if bytes_per_pixel >= 4 {
        assert(s[i + 3] == t[i + 3]);
    }
}

proof fn lemma_mixed_bound(a: u32, b: u32, bytes_per_pixel: nat)
    requires
        1 <= bytes_per_pixel <= 4,
        a <= white(bytes_per_pixel),
        b <= white(bytes_per_pixel),
    ensures
        (a ^ b) <= white(bytes_per_pixel),
{
    assert(a <= 0xFF && b <= 0xFF ==> (a ^ b) <= 0xFF) by (bit_vector);
    assert(a <= 0xFFFF && b <= 0xFFFF ==> (a ^ b) <= 0xFFFF) by (bit_vector);
    assert(a <= 0xFF_FFFF && b <= 0xFF_FFFF ==> (a ^ b) <= 0xFF_FFFF) by (bit_vector);
}

// ---- Pictures ---------------------------------------------------------------

/// Whether `after` is `before` with `n` pixels behind it, of which pixel `j` is
/// `value(j)`.
pub open spec fn appended(
    g: RleGeometry,
    before: Seq<u8>,
    after: Seq<u8>,
    n: nat,
    value: spec_fn(int) -> u32,
) -> bool {
    &&& after.len() == before.len() + n * g.bytes_per_pixel
    &&& after.take(before.len() as int) == before
    &&& forall|j: int|
        0 <= j < n ==> #[trigger] pixel_at(
            after,
            before.len() + j * g.bytes_per_pixel,
            g.bytes_per_pixel as nat,
        ) == value(j)
}

/// Pixel `j` behind the first `start` bytes of a picture.
pub open spec fn pixel_behind(g: RleGeometry, picture: Seq<u8>, start: int, j: int) -> u32 {
    pixel_at(picture, start + j * g.bytes_per_pixel, g.bytes_per_pixel as nat)
}

/// The pixel one row before pixel `j` behind the first `start` bytes.
pub open spec fn pixel_before(g: RleGeometry, picture: Seq<u8>, start: int, j: int) -> u32 {
    pixel_at(picture, start + j * g.bytes_per_pixel - g.row, g.bytes_per_pixel as nat)
}

/// What a pixel of the background is: black on the first row, else the pixel
/// one row before.
pub open spec fn background(
    g: RleGeometry,
    picture: Seq<u8>,
    start: int,
    first_row: bool,
    j: int,
) -> u32 {
    if first_row {
        0
    } else {
        pixel_before(g, picture, start, j)
    }
}

/// What a pixel of the foreground `pixel` is: itself on the first row, else
/// the exclusive or of it with the pixel one row before.
pub open spec fn foreground(
    g: RleGeometry,
    picture: Seq<u8>,
    start: int,
    first_row: bool,
    pixel: u32,
    j: int,
) -> u32 {
    if first_row {
        pixel
    } else {
        pixel_before(g, picture, start, j) ^ pixel
    }
}

/// Whether `n` more pixels fit behind `out`, and can be painted there.
pub open spec fn fits(g: RleGeometry, out: Seq<u8>, first_row: bool, n: nat) -> bool {
    g.can_paint(out, first_row) && out.len() + n * g.bytes_per_pixel <= g.size
}

proof fn lemma_one(n: nat, b: int)
    by (nonlinear_arith)
    requires
        n > 0,
        1 <= b <= 4,
    ensures
        n * b == (n - 1) * b + b,
        n * b >= b,
{
}

proof fn lemma_place(j: int, n: int, b: int)
    by (nonlinear_arith)
    requires
        0 <= j < n,
        1 <= b <= 4,
    ensures
        0 <= j * b,
        j * b + b <= n * b,
        (j + 1) * b == j * b + b,
{
}

/// What one pixel does.
proof fn lemma_emitted(g: RleGeometry, out: Seq<u8>, paint: Paint, first_row: bool)
    requires
        fits(g, out, first_row, 1),
        match paint {
            Paint::Background => true,
            Paint::Foreground(pixel) => pixel <= white(g.bytes_per_pixel as nat),
            Paint::Solid(pixel) => pixel <= white(g.bytes_per_pixel as nat),
        },
    ensures
        ({
            let after = g.emitted(out, paint, first_row);
            let value = pixel_at(after, out.len() as int, g.bytes_per_pixel as nat);
            let up = pixel_at(out, out.len() - g.row, g.bytes_per_pixel as nat);
            &&& after.len() == out.len() + g.bytes_per_pixel
            &&& after.take(out.len() as int) == out
            &&& g.can_paint(after, first_row)
            &&& match paint {
                Paint::Background => value == (if first_row { 0 } else { up }),
                Paint::Foreground(pixel) => value == (if first_row { pixel } else { up ^ pixel }),
                Paint::Solid(pixel) => value == pixel,
            }
        }),
{
    let n = g.bytes_per_pixel as nat;
    let up = pixel_at(out, out.len() - g.row, n);
    let after = g.emitted(out, paint, first_row);
    white_is_largest(out, out.len() - g.row, n);
    if let Paint::Foreground(pixel) = paint {
        lemma_mixed_bound(up, pixel, n);
    }
    lemma_pixel_bytes_read(g.painted(out, paint, first_row), n, out);
    assert(after.take(out.len() as int) =~= out);
}

/// A run of `n` pixels that fit is `n` pixels, each of them painted.
pub proof fn runs_are_painted(
    g: RleGeometry,
    out: Seq<u8>,
    paint: Paint,
    first_row: bool,
    n: nat,
)
    requires
        fits(g, out, first_row, n),
        match paint {
            Paint::Background => true,
            Paint::Foreground(pixel) => pixel <= white(g.bytes_per_pixel as nat),
            Paint::Solid(pixel) => pixel <= white(g.bytes_per_pixel as nat),
        },
    ensures
        ({
            let after = g.filled(out, paint, first_row, n);
            let start = out.len() as int;
            appended(
                g,
                out,
                after,
                n,
                |j: int|
                    match paint {
                        Paint::Background => background(g, after, start, first_row, j),
                        Paint::Foreground(pixel) => foreground(
                            g,
                            after,
                            start,
                            first_row,
                            pixel,
                            j,
                        ),
                        Paint::Solid(pixel) => pixel,
                    },
            )
        }),
    decreases n,
{
    let b = g.bytes_per_pixel as int;
    let after = g.filled(out, paint, first_row, n);
    let start = out.len() as int;
    if n == 0 {
        assert(after.take(start) =~= out);
        assert(n * b == 0);
    } else {
        lemma_one(n, b);
        let one = g.emitted(out, paint, first_row);
        lemma_emitted(g, out, paint, first_row);
        runs_are_painted(g, one, paint, first_row, (n - 1) as nat);
        assert(after.take(start) =~= out) by {
            assert(forall|k: int|
                0 <= k < start ==> #[trigger] after[k] == after.take(one.len() as int)[k]);
            assert(forall|k: int| 0 <= k < start ==> #[trigger] out[k] == one.take(start)[k]);
        }
        assert forall|j: int| 0 <= j < n implies #[trigger] pixel_at(
            after,
            start + j * g.bytes_per_pixel,
            g.bytes_per_pixel as nat,
        ) == (match paint {
            Paint::Background => background(g, after, start, first_row, j),
            Paint::Foreground(pixel) => foreground(g, after, start, first_row, pixel, j),
            Paint::Solid(pixel) => pixel,
        }) by {
            lemma_place(j, n as int, b);
            if j == 0 {
                assert(j * b == 0);
                lemma_pixel_in_front(after, one, start, b as nat);
                if !first_row {
                    lemma_pixel_in_front(after, out, start - g.row, b as nat);
                }
            } else {
                lemma_place(j - 1, n as int, b);
                assert(start + j * b == one.len() + (j - 1) * b);
                let k = j - 1;
                assert(pixel_at(after, one.len() + k * g.bytes_per_pixel, b as nat) == (
                match paint {
                    Paint::Background => background(g, after, one.len() as int, first_row, k),
                    Paint::Foreground(pixel) => foreground(
                        g,
                        after,
                        one.len() as int,
                        first_row,
                        pixel,
                        k,
                    ),
                    Paint::Solid(pixel) => pixel,
                }));
            }
        }
    }
}

/// Pixels behind pixels are pixels in a row.
proof fn lemma_appended_twice(
    g: RleGeometry,
    out: Seq<u8>,
    middle: Seq<u8>,
    after: Seq<u8>,
    n: nat,
    m: nat,
    first: spec_fn(int) -> u32,
    second: spec_fn(int) -> u32,
    value: spec_fn(int) -> u32,
)
    requires
        g.wf(),
        appended(g, out, middle, n, first),
        appended(g, middle, after, m, second),
        forall|j: int| 0 <= j < n ==> #[trigger] value(j) == first(j),
        forall|j: int| n <= j < n + m ==> #[trigger] value(j) == second(j - n),
    ensures
        appended(g, out, after, n + m, value),
{
    let b = g.bytes_per_pixel as int;
    let start = out.len() as int;
    assert((n + m) * b == n * b + m * b) by (nonlinear_arith);
    assert(0 <= n * b && 0 <= m * b) by (nonlinear_arith)
        requires
            0 <= n,
            0 <= m,
            1 <= b,
    ;
    assert(after.take(start) =~= out) by {
        assert(forall|k: int|
            0 <= k < start ==> #[trigger] after[k] == after.take(middle.len() as int)[k]);
        assert(forall|k: int| 0 <= k < start ==> #[trigger] out[k] == middle.take(start)[k]);
    }
    assert forall|j: int| 0 <= j < n + m implies #[trigger] pixel_at(
        after,
        start + j * g.bytes_per_pixel,
        g.bytes_per_pixel as nat,
    ) == value(j) by {
        if j < n {
            lemma_place(j, n as int, b);
            lemma_pixel_in_front(after, middle, start + j * b, b as nat);
            assert(pixel_at(middle, start + j * g.bytes_per_pixel, b as nat) == first(j));
            assert(value(j) == first(j));
        } else {
            let k = j - n;
            assert(j * b == n * b + k * b) by (nonlinear_arith)
                requires
                    k == j - n,
            ;
            assert(pixel_at(after, middle.len() + k * g.bytes_per_pixel, b as nat) == second(k));
            assert(value(j) == second(j - n));
        }
    }
}

/// A dithered run of `n` pairs is the two pixels by turns.
pub proof fn dithered_runs_alternate(g: RleGeometry, out: Seq<u8>, a: u32, b: u32, n: nat)
    requires
        fits(g, out, true, 2 * n),
        a <= white(g.bytes_per_pixel as nat),
        b <= white(g.bytes_per_pixel as nat),
    ensures
        appended(
            g,
            out,
            g.dithered(out, a, b, n),
            2 * n,
            |j: int| if j % 2 == 0 { a } else { b },
        ),
    decreases n,
{
    let value = |j: int| if j % 2 == 0 { a } else { b };
    let after = g.dithered(out, a, b, n);
    let p = g.bytes_per_pixel as int;
    if n == 0 {
        assert(after.take(out.len() as int) =~= out);
        assert(2 * n * p == 0);
    } else {
        assert(2 * n * p == 2 * (n - 1) * p + 2 * p) by (nonlinear_arith);
        assert(0 <= 2 * (n - 1) * p) by (nonlinear_arith)
            requires
                1 <= n,
                1 <= p,
        ;
        assert(1 * p == p);
        let one = g.emitted(out, Paint::Solid(a), true);
        lemma_emitted(g, out, Paint::Solid(a), true);
        let two = g.emitted(one, Paint::Solid(b), true);
        lemma_emitted(g, one, Paint::Solid(b), true);
        dithered_runs_alternate(g, two, a, b, (n - 1) as nat);
        assert(appended(g, out, one, 1, |j: int| a)) by {
            assert(0 * p == 0);
        }
        assert(appended(g, one, two, 1, |j: int| b)) by {
            assert(0 * p == 0);
        }
        lemma_appended_twice(g, out, one, two, 1, 1, |j: int| a, |j: int| b, value);
        lemma_appended_twice(g, out, two, after, 2, (2 * (n - 1)) as nat, value, value, value);
        assert(2 + 2 * (n - 1) == 2 * n);
    }
}

/// Bit `j` of a mask, the lowest first.
pub open spec fn bit(mask: u8, j: int) -> bool {
    mask as nat / pow2(j as nat) % 2 == 1
}

proof fn lemma_bit(mask: u8, j: int)
    requires
        0 <= j,
    ensures
        j == 0 ==> bit(mask, j) == (mask % 2 == 1),
        j > 0 ==> bit(mask, j) == bit(mask / 2, j - 1),
{
    if j == 0 {
        vstd::arithmetic::power2::lemma2_to64();
    } else {
        vstd::arithmetic::power2::lemma_pow2_unfold(j as nat);
        vstd::arithmetic::power2::lemma_pow2_pos((j - 1) as nat);
        vstd::arithmetic::div_mod::lemma_div_denominator(
            mask as int,
            2,
            pow2((j - 1) as nat) as int,
        );
    }
}

/// What pixel `j` of an image is whose bit is `set`.
pub open spec fn image_pixel(
    g: RleGeometry,
    picture: Seq<u8>,
    start: int,
    first_row: bool,
    pixel: u32,
    set: bool,
    j: int,
) -> u32 {
    if set {
        foreground(g, picture, start, first_row, pixel, j)
    } else {
        background(g, picture, start, first_row, j)
    }
}

proof fn lemma_image_pixel_stays(
    g: RleGeometry,
    middle: Seq<u8>,
    after: Seq<u8>,
    start: int,
    first_row: bool,
    pixel: u32,
    set: bool,
    j: int,
)
    requires
        g.wf(),
        0 <= start,
        0 <= j,
        !first_row ==> g.bytes_per_pixel <= g.row <= start,
        start + j * g.bytes_per_pixel <= middle.len() <= after.len(),
        after.take(middle.len() as int) == middle,
    ensures
        image_pixel(g, after, start, first_row, pixel, set, j) == image_pixel(
            g,
            middle,
            start,
            first_row,
            pixel,
            set,
            j,
        ),
{
    if !first_row {
        assert(0 <= j * g.bytes_per_pixel) by (nonlinear_arith)
            requires
                0 <= j,
        ;
        lemma_pixel_in_front(
            after,
            middle,
            start + j * g.bytes_per_pixel - g.row,
            g.bytes_per_pixel as nat,
        );
    }
}

/// Each bit of a mask, the lowest first, is one pixel: of the foreground where
/// it is set and of the background where it is not.
pub proof fn masks_are_painted(
    g: RleGeometry,
    out: Seq<u8>,
    mask: u8,
    pixel: u32,
    first_row: bool,
    n: nat,
)
    requires
        fits(g, out, first_row, n),
        pixel <= white(g.bytes_per_pixel as nat),
    ensures
        ({
            let after = g.masked(out, mask, pixel, first_row, n);
            let start = out.len() as int;
            &&& g.can_paint(after, first_row)
            &&& appended(
                g,
                out,
                after,
                n,
                |j: int| image_pixel(g, after, start, first_row, pixel, bit(mask, j), j),
            )
        }),
    decreases n,
{
    let b = g.bytes_per_pixel as int;
    let after = g.masked(out, mask, pixel, first_row, n);
    let start = out.len() as int;
    if n == 0 {
        assert(after.take(start) =~= out);
        assert(n * b == 0);
    } else {
        lemma_one(n, b);
        let paint = if mask % 2 == 1 {
            Paint::Foreground(pixel)
        } else {
            Paint::Background
        };
        let one = g.emitted(out, paint, first_row);
        lemma_emitted(g, out, paint, first_row);
        masks_are_painted(g, one, mask / 2, pixel, first_row, (n - 1) as nat);
        let first = |j: int| image_pixel(g, one, start, first_row, pixel, bit(mask, 0), j);
        let second = |j: int|
            image_pixel(g, after, one.len() as int, first_row, pixel, bit(mask / 2, j), j);
        let value = |j: int| image_pixel(g, after, start, first_row, pixel, bit(mask, j), j);
        lemma_bit(mask, 0);
        assert(0 * b == 0);
        assert(1 * b == b);
        if !first_row {
            lemma_pixel_in_front(one, out, start - g.row, b as nat);
        }
        assert(appended(g, out, one, 1, first));
        assert forall|j: int| 0 <= j < 1 implies #[trigger] value(j) == first(j) by {
            lemma_image_pixel_stays(g, one, after, start, first_row, pixel, bit(mask, 0), 0);
        }
        assert forall|j: int| 1 <= j < 1 + (n - 1) implies #[trigger] value(j) == second(
            j - 1,
        ) by {
            lemma_bit(mask, j);
            lemma_place(j - 1, n as int, b);
        }
        lemma_appended_twice(g, out, one, after, 1, (n - 1) as nat, first, second, value);
    }
}

/// An image of `n` pixels takes one mask byte for every eight of them, and the
/// pixels are those of the bits in order.
pub proof fn images_are_painted(
    g: RleGeometry,
    src: Seq<u8>,
    pos: int,
    out: Seq<u8>,
    pixel: u32,
    first_row: bool,
    n: nat,
)
    requires
        fits(g, out, first_row, n),
        pixel <= white(g.bytes_per_pixel as nat),
        0 <= pos,
        pos + (n + 7) / 8 <= src.len(),
    ensures
        g.image(src, pos, out, pixel, first_row, n) matches Ok((end, after)) && end == pos + (n + 7)
            / 8 && appended(
            g,
            out,
            after,
            n,
            |j: int|
                image_pixel(
                    g,
                    after,
                    out.len() as int,
                    first_row,
                    pixel,
                    bit(src[pos + j / 8], j % 8),
                    j,
                ),
        ),
    decreases n,
{
    let b = g.bytes_per_pixel as int;
    let start = out.len() as int;
    if n == 0 {
        assert(out.take(start) =~= out);
        assert(n * b == 0) by (nonlinear_arith)
            requires
                n == 0,
        ;
    } else {
        let count: nat = if n > 8 { 8 } else { n };
        let rest = (n - count) as nat;
        assert(n * b == count * b + rest * b) by (nonlinear_arith)
            requires
                n == count + rest,
        ;
        assert(0 <= rest * b && 0 <= count * b) by (nonlinear_arith)
            requires
                0 <= rest,
                0 <= count,
                1 <= b,
        ;
        let middle = g.masked(out, src[pos], pixel, first_row, count);
        masks_are_painted(g, out, src[pos], pixel, first_row, count);
        images_are_painted(g, src, pos + 1, middle, pixel, first_row, rest);
        let after = g.image(src, pos, out, pixel, first_row, n)->Ok_0.1;
        let first = |j: int|
            image_pixel(g, middle, start, first_row, pixel, bit(src[pos], j), j);
        let second = |j: int|
            image_pixel(
                g,
                after,
                middle.len() as int,
                first_row,
                pixel,
                bit(src[pos + 1 + j / 8], j % 8),
                j,
            );
        let value = |j: int|
            image_pixel(g, after, start, first_row, pixel, bit(src[pos + j / 8], j % 8), j);
        assert forall|j: int| 0 <= j < count implies #[trigger] value(j) == first(j) by {
            lemma_place(j, count as int, b);
            lemma_image_pixel_stays(g, middle, after, start, first_row, pixel, bit(src[pos], j), j);
        }
        assert forall|j: int| count <= j < count + rest implies #[trigger] value(j) == second(
            j - count,
        ) by {
            assert(j * b == count * b + (j - count) * b) by (nonlinear_arith);
        }
        lemma_appended_twice(g, out, middle, after, count, rest, first, second, value);
    }
}

proof fn lemma_digits(a: int, b: int, c: int, d: int, v: int)
    requires
        0 <= a < 256,
        0 <= b < 256,
        0 <= c < 256,
        0 <= d < 256,
        v == a + 256 * b + 65536 * c + 16777216 * d,
    ensures
        v % 256 == a,
        v / 256 % 256 == b,
        v / 65536 % 256 == c,
        v / 16777216 == d,
{
    assert(v / 256 == b + 256 * c + 65536 * d);
    assert(v / 65536 == c + 256 * d);
}

/// The bytes of a pixel that was read are those that it was read from.
proof fn lemma_bytes_stay(s: Seq<u8>, i: int, bytes_per_pixel: nat)
    requires
        1 <= bytes_per_pixel <= 4,
        0 <= i,
        i + bytes_per_pixel <= s.len(),
    ensures
        pixel_bytes(pixel_at(s, i, bytes_per_pixel), bytes_per_pixel) == s.subrange(
            i,
            i + bytes_per_pixel,
        ),
{
    let a = s[i] as int;
    let b = if bytes_per_pixel >= 2 { s[i + 1] as int } else { 0 };
    let c = if bytes_per_pixel >= 3 { s[i + 2] as int } else { 0 };
    let d = if bytes_per_pixel >= 4 { s[i + 3] as int } else { 0 };
    let v = pixel_at(s, i, bytes_per_pixel);
    assert(v == a + 256 * b + 65536 * c + 16777216 * d);
    lemma_digits(a, b, c, d, v as int);
    assert(pixel_bytes(v, bytes_per_pixel) =~= s.subrange(i, i + bytes_per_pixel));
}

/// Pixels that are copied are the bytes of the stream.
pub proof fn copies_are_the_bytes(
    g: RleGeometry,
    src: Seq<u8>,
    pos: int,
    out: Seq<u8>,
    n: nat,
)
    requires
        fits(g, out, true, n),
        0 <= pos,
        pos + n * g.bytes_per_pixel <= src.len(),
    ensures
        g.copied(src, pos, out, n) == (
            pos + n * g.bytes_per_pixel,
            out + src.subrange(pos, pos + n * g.bytes_per_pixel),
        ),
    decreases n,
{
    let b = g.bytes_per_pixel as int;
    if n == 0 {
        assert(n * b == 0) by (nonlinear_arith)
            requires
                n == 0,
        ;
        assert(out + src.subrange(pos, pos) =~= out);
    } else {
        lemma_one(n, b);
        assert(0 <= (n - 1) * b) by (nonlinear_arith)
            requires
                1 <= n,
                1 <= b,
        ;
        let bytes = pixel_bytes(pixel_at(src, pos, b as nat), b as nat);
        lemma_bytes_stay(src, pos, b as nat);
        copies_are_the_bytes(g, src, pos + b, out + bytes, (n - 1) as nat);
        assert(src.subrange(pos, pos + b) + src.subrange(pos + b, pos + n * b) =~= src.subrange(
            pos,
            pos + n * b,
        ));
        assert(out + bytes + src.subrange(pos + b, pos + n * b) =~= out + src.subrange(
            pos,
            pos + n * b,
        ));
    }
}

// ---- Headers ----------------------------------------------------------------

/// The header of a run of `n` pixels, from 1 to 287, whose order stands in the
/// top three bits: lengths below 32 stand beside it, longer ones in a byte of
/// their own, less 32.
pub open spec fn regular_header(order: int, n: int) -> Seq<u8> {
    if n < 32 {
        seq![(32 * order + n) as u8]
    } else {
        seq![(32 * order) as u8, (n - 32) as u8]
    }
}

/// The header of a run of `n` pixels, from 1 to 271, whose order stands in the
/// top four bits: lengths below 16 stand beside it, longer ones in a byte of
/// their own, less 16.
pub open spec fn lite_header(order: int, n: int) -> Seq<u8> {
    if n < 16 {
        seq![(16 * order + n) as u8]
    } else {
        seq![(16 * order) as u8, (n - 16) as u8]
    }
}

/// The header of an image of `n` pixels, from 1 to 256: a length of `most` or
/// less that is a multiple of eight stands beside the order as a number of mask
/// bytes, any other in a byte of its own, less one.
pub open spec fn image_header(order: int, most: int, n: int) -> Seq<u8> {
    if n % 8 == 0 && n <= most {
        seq![(order + n / 8) as u8]
    } else {
        seq![order as u8, (n - 1) as u8]
    }
}

/// The header of a run of any length: the order, and the length in two bytes,
/// low byte first.
pub open spec fn mega_header(order: int, n: int) -> Seq<u8> {
    seq![order as u8, (n % 256) as u8, (n / 256) as u8]
}

/// Whether `header` is one of a run of `n` pixels in the regular form of
/// `order`, or in the long form of `mega`.
pub open spec fn regular_or_mega(header: Seq<u8>, order: int, mega: int, n: int) -> bool {
    ||| 1 <= n <= 287 && header == regular_header(order, n)
    ||| 0 <= n <= 0xFFFF && header == mega_header(mega, n)
}

/// Whether `header` is one of a run of `n` pixels in the short form of `order`,
/// or in the long form of `mega`.
pub open spec fn lite_or_mega(header: Seq<u8>, order: int, mega: int, n: int) -> bool {
    ||| 1 <= n <= 271 && header == lite_header(order, n)
    ||| 0 <= n <= 0xFFFF && header == mega_header(mega, n)
}

/// Whether `header` is one of an image of `n` pixels that leaves the foreground.
pub open spec fn plain_image(header: Seq<u8>, n: int) -> bool {
    ||| 1 <= n <= 256 && header == image_header(0x40, 248, n)
    ||| 0 <= n <= 0xFFFF && header == mega_header(0xF2, n)
}

/// Whether `header` is one of an image of `n` pixels that sets the foreground.
pub open spec fn setting_image(header: Seq<u8>, n: int) -> bool {
    ||| 1 <= n <= 256 && header == image_header(0xD0, 120, n)
    ||| 0 <= n <= 0xFFFF && header == mega_header(0xF7, n)
}

/// The length of a run is read as it was written, and with it all of the bytes
/// that it takes.
pub proof fn regular_lengths_are_read(order: int, n: int, before: Seq<u8>, rest: Seq<u8>)
    requires
        order == 0 || order == 1 || order == 3 || order == 4,
        1 <= n <= 287,
    ensures
        ({
            let src = before + regular_header(order, n) + rest;
            let pos = before.len() as int;
            &&& order_code(src[pos]) == order
            &&& run_length(order as u32, src, pos) == Some(
                (n as nat, (if n < 32 { 1nat } else { 2nat })),
            )
        }),
{
    let header = regular_header(order, n);
    let src = before + header + rest;
    let pos = before.len() as int;
    assert(src[pos] == header[0]);
    if n >= 32 {
        assert(src[pos + 1] == header[1]);
        assert(header[0] as int % 32 == 0);
    } else {
        assert(header[0] as int % 32 == n);
    }
}

/// The length of a run is read as it was written, and with it all of the bytes
/// that it takes.
pub proof fn lite_lengths_are_read(order: int, n: int, before: Seq<u8>, rest: Seq<u8>)
    requires
        order == 12 || order == 14,
        1 <= n <= 271,
    ensures
        ({
            let src = before + lite_header(order, n) + rest;
            let pos = before.len() as int;
            &&& order_code(src[pos]) == order
            &&& run_length(order as u32, src, pos) == Some(
                (n as nat, (if n < 16 { 1nat } else { 2nat })),
            )
        }),
{
    let header = lite_header(order, n);
    let src = before + header + rest;
    let pos = before.len() as int;
    assert(src[pos] == header[0]);
    if n >= 16 {
        assert(src[pos + 1] == header[1]);
        assert(header[0] as int % 16 == 0);
    } else {
        assert(header[0] as int % 16 == n);
    }
}

/// The length of an image is read as it was written, and with it all of the
/// bytes that it takes.
pub proof fn image_lengths_are_read(n: int, before: Seq<u8>, rest: Seq<u8>)
    requires
        1 <= n <= 256,
    ensures
        ({
            let src = before + image_header(0x40, 248, n) + rest;
            let pos = before.len() as int;
            &&& order_code(src[pos]) == 2
            &&& run_length(2, src, pos) == Some(
                (n as nat, (if n % 8 == 0 && n <= 248 { 1nat } else { 2nat })),
            )
        }),
        ({
            let src = before + image_header(0xD0, 120, n) + rest;
            let pos = before.len() as int;
            &&& order_code(src[pos]) == 13
            &&& run_length(13, src, pos) == Some(
                (n as nat, (if n % 8 == 0 && n <= 120 { 1nat } else { 2nat })),
            )
        }),
{
    let pos = before.len() as int;
    let plain = before + image_header(0x40, 248, n) + rest;
    assert(plain[pos] == image_header(0x40, 248, n)[0]);
    if n % 8 == 0 && n <= 248 {
        assert(plain[pos] as int % 32 == n / 8);
    } else {
        assert(plain[pos + 1] == image_header(0x40, 248, n)[1]);
    }
    let setting = before + image_header(0xD0, 120, n) + rest;
    assert(setting[pos] == image_header(0xD0, 120, n)[0]);
    if n % 8 == 0 && n <= 120 {
        assert(setting[pos] as int % 16 == n / 8);
    } else {
        assert(setting[pos + 1] == image_header(0xD0, 120, n)[1]);
    }
}

/// The length of a long run is read as it was written, and with it all three
/// bytes that it takes.
pub proof fn mega_lengths_are_read(order: int, n: int, before: Seq<u8>, rest: Seq<u8>)
    requires
        0xF0 <= order <= 0xF4 || 0xF6 <= order <= 0xF8,
        0 <= n <= 0xFFFF,
    ensures
        ({
            let src = before + mega_header(order, n) + rest;
            let pos = before.len() as int;
            &&& order_code(src[pos]) == order
            &&& run_length(order as u32, src, pos) == Some((n as nat, 3nat))
        }),
{
    let header = mega_header(order, n);
    let src = before + header + rest;
    let pos = before.len() as int;
    assert(src[pos] == header[0]);
    assert(src[pos + 1] == header[1]);
    assert(src[pos + 2] == header[2]);
}

// ---- Orders -----------------------------------------------------------------

/// A background run paints the background; where a background run came just
/// before, its first pixel is one of the foreground.
pub proof fn background_runs_are_drawn(
    g: RleGeometry,
    before: Seq<u8>,
    header: Seq<u8>,
    rest: Seq<u8>,
    s: RleState,
    n: nat,
)
    requires
        regular_or_mega(header, 0, 0xF0, n as int),
        n > 0,
        s.pos == before.len(),
        fits(g, s.out, s.first_row, n),
        s.foreground <= white(g.bytes_per_pixel as nat),
    ensures
        g.step(before + header + rest, s) matches RleStep::Next(t) && t.pos == s.pos + header.len()
            && t.foreground == s.foreground && t.insert_foreground && t.first_row == s.first_row
            && appended(
            g,
            s.out,
            t.out,
            n,
            |j: int|
                image_pixel(
                    g,
                    t.out,
                    s.out.len() as int,
                    s.first_row,
                    s.foreground,
                    s.insert_foreground && j == 0,
                    j,
                ),
        ),
{
    let src = before + header + rest;
    let b = g.bytes_per_pixel as int;
    if header == mega_header(0xF0, n as int) {
        mega_lengths_are_read(0xF0, n as int, before, rest);
    } else {
        regular_lengths_are_read(0, n as int, before, rest);
    }
    let start = s.out.len() as int;
    let t = g.step(src, s)->Next_0;
    let value = |j: int|
        image_pixel(g, t.out, start, s.first_row, s.foreground, s.insert_foreground && j == 0, j);
    if s.insert_foreground {
        lemma_one(n, b);
        assert(0 <= (n - 1) * b) by (nonlinear_arith)
            requires
                1 <= n,
                1 <= b,
        ;
        assert(1 * b == b);
        assert(0 * b == 0);
        let one = g.emitted(s.out, Paint::Foreground(s.foreground), s.first_row);
        lemma_emitted(g, s.out, Paint::Foreground(s.foreground), s.first_row);
        runs_are_painted(g, one, Paint::Background, s.first_row, (n - 1) as nat);
        let first = |j: int| image_pixel(g, one, start, s.first_row, s.foreground, true, j);
        let second = |j: int| background(g, t.out, one.len() as int, s.first_row, j);
        if !s.first_row {
            lemma_pixel_in_front(one, s.out, start - g.row, b as nat);
        }
        assert(appended(g, s.out, one, 1, first));
        assert(appended(g, one, t.out, (n - 1) as nat, second));
        assert forall|j: int| 0 <= j < 1 implies #[trigger] value(j) == first(j) by {
            lemma_image_pixel_stays(g, one, t.out, start, s.first_row, s.foreground, true, 0);
        }
        assert forall|j: int| 1 <= j < 1 + (n - 1) implies #[trigger] value(j) == second(
            j - 1,
        ) by {
            lemma_place(j - 1, n as int, b);
        }
        lemma_appended_twice(g, s.out, one, t.out, 1, (n - 1) as nat, first, second, value);
    } else {
        runs_are_painted(g, s.out, Paint::Background, s.first_row, n);
        lemma_same_values(
            g,
            s.out,
            t.out,
            n,
            |j: int| background(g, t.out, start, s.first_row, j),
            value,
        );
    }
}

proof fn lemma_same_values(
    g: RleGeometry,
    before: Seq<u8>,
    after: Seq<u8>,
    n: nat,
    value: spec_fn(int) -> u32,
    other: spec_fn(int) -> u32,
)
    requires
        appended(g, before, after, n, value),
        forall|j: int| 0 <= j < n ==> #[trigger] other(j) == value(j),
    ensures
        appended(g, before, after, n, other),
{
    assert forall|j: int| 0 <= j < n implies #[trigger] pixel_at(
        after,
        before.len() + j * g.bytes_per_pixel,
        g.bytes_per_pixel as nat,
    ) == other(j) by {
        assert(other(j) == value(j));
    }
}

/// A foreground run paints the foreground that was set last.
pub proof fn foreground_runs_are_drawn(
    g: RleGeometry,
    before: Seq<u8>,
    header: Seq<u8>,
    rest: Seq<u8>,
    s: RleState,
    n: nat,
)
    requires
        regular_or_mega(header, 1, 0xF1, n as int),
        s.pos == before.len(),
        fits(g, s.out, s.first_row, n),
        s.foreground <= white(g.bytes_per_pixel as nat),
    ensures
        g.step(before + header + rest, s) matches RleStep::Next(t) && t.pos == s.pos + header.len()
            && t.foreground == s.foreground && !t.insert_foreground && t.first_row == s.first_row
            && appended(
            g,
            s.out,
            t.out,
            n,
            |j: int|
                foreground(g, t.out, s.out.len() as int, s.first_row, s.foreground, j),
        ),
{
    let src = before + header + rest;
    if header == mega_header(0xF1, n as int) {
        mega_lengths_are_read(0xF1, n as int, before, rest);
    } else {
        regular_lengths_are_read(1, n as int, before, rest);
    }
    runs_are_painted(g, s.out, Paint::Foreground(s.foreground), s.first_row, n);
    let t = g.step(src, s)->Next_0;
    let start = s.out.len() as int;
    assert(t.out == g.filled(s.out, Paint::Foreground(s.foreground), s.first_row, n));
    let value = |j: int|
        match Paint::Foreground(s.foreground) {
            Paint::Background => background(g, t.out, start, s.first_row, j),
            Paint::Foreground(pixel) => foreground(g, t.out, start, s.first_row, pixel, j),
            Paint::Solid(pixel) => pixel,
        };
    lemma_same_values(
        g,
        s.out,
        t.out,
        n,
        value,
        |j: int| foreground(g, t.out, start, s.first_row, s.foreground, j),
    );
}

/// A run that sets the foreground paints it, and leaves it set.
pub proof fn setting_runs_are_drawn(
    g: RleGeometry,
    before: Seq<u8>,
    header: Seq<u8>,
    pixel: u32,
    rest: Seq<u8>,
    s: RleState,
    n: nat,
)
    requires
        lite_or_mega(header, 12, 0xF6, n as int),
        s.pos == before.len(),
        fits(g, s.out, s.first_row, n),
        pixel <= white(g.bytes_per_pixel as nat),
    ensures
        g.step(
            before + header + pixel_bytes(pixel, g.bytes_per_pixel as nat) + rest,
            s,
        ) matches RleStep::Next(t) && t.pos == s.pos + header.len() + g.bytes_per_pixel
            && t.foreground == pixel && !t.insert_foreground && t.first_row == s.first_row
            && appended(
            g,
            s.out,
            t.out,
            n,
            |j: int| foreground(g, t.out, s.out.len() as int, s.first_row, pixel, j),
        ),
{
    let operand = pixel_bytes(pixel, g.bytes_per_pixel as nat);
    let src = before + header + operand + rest;
    assert(src =~= before + header + (operand + rest));
    if header == mega_header(0xF6, n as int) {
        mega_lengths_are_read(0xF6, n as int, before, operand + rest);
    } else {
        lite_lengths_are_read(12, n as int, before, operand + rest);
    }
    crate::rle::pixel_round_trip(before + header, pixel, g.bytes_per_pixel as nat, rest);
    lemma_pixel_bytes_read(pixel, g.bytes_per_pixel as nat, before);
    runs_are_painted(g, s.out, Paint::Foreground(pixel), s.first_row, n);
    let t = g.step(src, s)->Next_0;
    let start = s.out.len() as int;
    assert(t.out == g.filled(s.out, Paint::Foreground(pixel), s.first_row, n));
    let value = |j: int|
        match Paint::Foreground(pixel) {
            Paint::Background => background(g, t.out, start, s.first_row, j),
            Paint::Foreground(pixel) => foreground(g, t.out, start, s.first_row, pixel, j),
            Paint::Solid(pixel) => pixel,
        };
    lemma_same_values(
        g,
        s.out,
        t.out,
        n,
        value,
        |j: int| foreground(g, t.out, start, s.first_row, pixel, j),
    );
}

/// A colour run is `n` copies of its pixel.
#[verifier::rlimit(40)]
pub proof fn colour_runs_are_drawn(
    g: RleGeometry,
    before: Seq<u8>,
    header: Seq<u8>,
    pixel: u32,
    rest: Seq<u8>,
    s: RleState,
    n: nat,
)
    requires
        regular_or_mega(header, 3, 0xF3, n as int),
        s.pos == before.len(),
        fits(g, s.out, s.first_row, n),
        pixel <= white(g.bytes_per_pixel as nat),
    ensures
        g.step(
            before + header + pixel_bytes(pixel, g.bytes_per_pixel as nat) + rest,
            s,
        ) matches RleStep::Next(t) && t.pos == s.pos + header.len() + g.bytes_per_pixel
            && t.foreground == s.foreground && !t.insert_foreground && t.first_row == s.first_row
            && appended(g, s.out, t.out, n, |j: int| pixel),
{
    let operand = pixel_bytes(pixel, g.bytes_per_pixel as nat);
    let src = before + header + operand + rest;
    assert(src =~= before + header + (operand + rest));
    if header == mega_header(0xF3, n as int) {
        mega_lengths_are_read(0xF3, n as int, before, operand + rest);
    } else {
        regular_lengths_are_read(3, n as int, before, operand + rest);
    }
    crate::rle::pixel_round_trip(before + header, pixel, g.bytes_per_pixel as nat, rest);
    lemma_pixel_bytes_read(pixel, g.bytes_per_pixel as nat, before);
    runs_are_painted(g, s.out, Paint::Solid(pixel), s.first_row, n);
    let t = g.step(src, s)->Next_0;
    let start = s.out.len() as int;
    assert(t.out == g.filled(s.out, Paint::Solid(pixel), s.first_row, n));
    let value = |j: int|
        match Paint::Solid(pixel) {
            Paint::Background => background(g, t.out, start, s.first_row, j),
            Paint::Foreground(pixel) => foreground(g, t.out, start, s.first_row, pixel, j),
            Paint::Solid(pixel) => pixel,
        };
    lemma_same_values(g, s.out, t.out, n, value, |j: int| pixel);
}

/// A dithered run is `n` times its two pixels by turns.
#[verifier::rlimit(40)]
pub proof fn dithered_runs_are_drawn(
    g: RleGeometry,
    before: Seq<u8>,
    header: Seq<u8>,
    a: u32,
    b: u32,
    rest: Seq<u8>,
    s: RleState,
    n: nat,
)
    requires
        lite_or_mega(header, 14, 0xF8, n as int),
        s.pos == before.len(),
        fits(g, s.out, true, 2 * n),
        a <= white(g.bytes_per_pixel as nat),
        b <= white(g.bytes_per_pixel as nat),
    ensures
        g.step(
            before + header + pixel_bytes(a, g.bytes_per_pixel as nat) + pixel_bytes(
                b,
                g.bytes_per_pixel as nat,
            ) + rest,
            s,
        ) matches RleStep::Next(t) && t.pos == s.pos + header.len() + 2 * g.bytes_per_pixel
            && t.foreground == s.foreground && !t.insert_foreground && t.first_row == s.first_row
            && appended(g, s.out, t.out, 2 * n, |j: int| if j % 2 == 0 { a } else { b }),
{
    let bpp = g.bytes_per_pixel as nat;
    let one = pixel_bytes(a, bpp);
    let two = pixel_bytes(b, bpp);
    let src = before + header + one + two + rest;
    assert(src =~= before + header + (one + two + rest));
    if header == mega_header(0xF8, n as int) {
        mega_lengths_are_read(0xF8, n as int, before, one + two + rest);
    } else {
        lite_lengths_are_read(14, n as int, before, one + two + rest);
    }
    lemma_pixel_bytes_read(a, bpp, before);
    lemma_pixel_bytes_read(b, bpp, before);
    crate::rle::pixel_round_trip(before + header, a, bpp, two + rest);
    assert(src =~= before + header + one + (two + rest));
    crate::rle::pixel_round_trip(before + header + one, b, bpp, rest);
    dithered_runs_alternate(g, s.out, a, b, n);
}

/// A copy is the bytes that follow it.
pub proof fn copies_are_drawn(
    g: RleGeometry,
    before: Seq<u8>,
    header: Seq<u8>,
    pixels: Seq<u8>,
    rest: Seq<u8>,
    s: RleState,
    n: nat,
)
    requires
        regular_or_mega(header, 4, 0xF4, n as int),
        s.pos == before.len(),
        fits(g, s.out, true, n),
        pixels.len() == n * g.bytes_per_pixel,
    ensures
        g.step(before + header + pixels + rest, s) matches RleStep::Next(t) && t.pos == s.pos
            + header.len() + pixels.len() && t.foreground == s.foreground && !t.insert_foreground
            && t.first_row == s.first_row && t.out == s.out + pixels,
{
    let src = before + header + pixels + rest;
    assert(src =~= before + header + (pixels + rest));
    if header == mega_header(0xF4, n as int) {
        mega_lengths_are_read(0xF4, n as int, before, pixels + rest);
    } else {
        regular_lengths_are_read(4, n as int, before, pixels + rest);
    }
    let data = (before.len() + header.len()) as int;
    copies_are_the_bytes(g, src, data, s.out, n);
    assert(src.subrange(data, data + n * g.bytes_per_pixel) =~= pixels);
}

/// An image that leaves the foreground paints one pixel for each bit of the
/// mask bytes that follow it.
pub proof fn images_are_drawn(
    g: RleGeometry,
    before: Seq<u8>,
    header: Seq<u8>,
    masks: Seq<u8>,
    rest: Seq<u8>,
    s: RleState,
    n: nat,
)
    requires
        plain_image(header, n as int),
        s.pos == before.len(),
        fits(g, s.out, s.first_row, n),
        masks.len() == (n + 7) / 8,
        s.foreground <= white(g.bytes_per_pixel as nat),
    ensures
        g.step(before + header + masks + rest, s) matches RleStep::Next(t) && t.pos == s.pos
            + header.len() + masks.len() && t.foreground == s.foreground && !t.insert_foreground
            && t.first_row == s.first_row && appended(
            g,
            s.out,
            t.out,
            n,
            |j: int|
                image_pixel(
                    g,
                    t.out,
                    s.out.len() as int,
                    s.first_row,
                    s.foreground,
                    bit(masks[j / 8], j % 8),
                    j,
                ),
        ),
{
    let src = before + header + masks + rest;
    assert(src =~= before + header + (masks + rest));
    if header == mega_header(0xF2, n as int) {
        mega_lengths_are_read(0xF2, n as int, before, masks + rest);
    } else {
        image_lengths_are_read(n as int, before, masks + rest);
    }
    let data = (before.len() + header.len()) as int;
    images_are_painted(g, src, data, s.out, s.foreground, s.first_row, n);
    let t = g.step(src, s)->Next_0;
    let start = s.out.len() as int;
    let value = |j: int|
        image_pixel(g, t.out, start, s.first_row, s.foreground, bit(src[data + j / 8], j % 8), j);
    let other = |j: int|
        image_pixel(g, t.out, start, s.first_row, s.foreground, bit(masks[j / 8], j % 8), j);
    assert forall|j: int| 0 <= j < n implies #[trigger] other(j) == value(j) by {
        assert(0 <= j / 8 < masks.len());
        assert(src[data + j / 8] == masks[j / 8]);
    }
    lemma_same_values(g, s.out, t.out, n, value, other);
}

/// An image that sets the foreground paints with it, one pixel for each bit of
/// the mask bytes that follow it.
#[verifier::rlimit(40)]
pub proof fn setting_images_are_drawn(
    g: RleGeometry,
    before: Seq<u8>,
    header: Seq<u8>,
    pixel: u32,
    masks: Seq<u8>,
    rest: Seq<u8>,
    s: RleState,
    n: nat,
)
    requires
        setting_image(header, n as int),
        s.pos == before.len(),
        fits(g, s.out, s.first_row, n),
        masks.len() == (n + 7) / 8,
        pixel <= white(g.bytes_per_pixel as nat),
    ensures
        g.step(
            before + header + pixel_bytes(pixel, g.bytes_per_pixel as nat) + masks + rest,
            s,
        ) matches RleStep::Next(t) && t.pos == s.pos + header.len() + g.bytes_per_pixel
            + masks.len() && t.foreground == pixel && !t.insert_foreground && t.first_row
            == s.first_row && appended(
            g,
            s.out,
            t.out,
            n,
            |j: int|
                image_pixel(
                    g,
                    t.out,
                    s.out.len() as int,
                    s.first_row,
                    pixel,
                    bit(masks[j / 8], j % 8),
                    j,
                ),
        ),
{
    let bpp = g.bytes_per_pixel as nat;
    let operand = pixel_bytes(pixel, bpp);
    let src = before + header + operand + masks + rest;
    assert(src =~= before + header + (operand + masks + rest));
    assert(src =~= before + header + operand + (masks + rest));
    if header == mega_header(0xF7, n as int) {
        mega_lengths_are_read(0xF7, n as int, before, operand + masks + rest);
    } else {
        image_lengths_are_read(n as int, before, operand + masks + rest);
    }
    lemma_pixel_bytes_read(pixel, bpp, before);
    crate::rle::pixel_round_trip(before + header, pixel, bpp, masks + rest);
    let data = (before.len() + header.len() + bpp) as int;
    images_are_painted(g, src, data, s.out, pixel, s.first_row, n);
    let t = g.step(src, s)->Next_0;
    let start = s.out.len() as int;
    let value = |j: int|
        image_pixel(g, t.out, start, s.first_row, pixel, bit(src[data + j / 8], j % 8), j);
    let other = |j: int|
        image_pixel(g, t.out, start, s.first_row, pixel, bit(masks[j / 8], j % 8), j);
    assert forall|j: int| 0 <= j < n implies #[trigger] other(j) == value(j) by {
        assert(0 <= j / 8 < masks.len());
        assert(src[data + j / 8] == masks[j / 8]);
    }
    lemma_same_values(g, s.out, t.out, n, value, other);
}

/// A white pixel and a black one have orders of one byte.
pub proof fn single_pixels_are_drawn(g: RleGeometry, before: Seq<u8>, rest: Seq<u8>, s: RleState)
    requires
        s.pos == before.len(),
        fits(g, s.out, s.first_row, 1),
    ensures
        g.step(before + seq![0xFDu8] + rest, s) matches RleStep::Next(t) && t.pos == s.pos + 1
            && t.foreground == s.foreground && !t.insert_foreground && t.first_row == s.first_row
            && t.out == s.out + Seq::new(g.bytes_per_pixel as nat, |k: int| 255u8),
        g.step(before + seq![0xFEu8] + rest, s) matches RleStep::Next(t) && t.pos == s.pos + 1
            && t.foreground == s.foreground && !t.insert_foreground && t.first_row == s.first_row
            && t.out == s.out + Seq::new(g.bytes_per_pixel as nat, |k: int| 0u8),
{
    let n = g.bytes_per_pixel as nat;
    let pos = before.len() as int;
    let light = before + seq![0xFDu8] + rest;
    assert(light[pos] == 0xFD);
    white_is_largest(s.out, 0, n);
    assert(pixel_bytes(white(n), n) =~= Seq::new(n, |k: int| 255u8));
    let dark = before + seq![0xFEu8] + rest;
    assert(dark[pos] == 0xFE);
    assert(pixel_bytes(0, n) =~= Seq::new(n, |k: int| 0u8));
}

proof fn lemma_special_bits(j: int)
    requires
        0 <= j,
    ensures
        bit(3, j) == (j == 0 || j == 1),
        bit(5, j) == (j == 0 || j == 2),
{
    lemma_bit(3, j);
    lemma_bit(5, j);
    if j >= 1 {
        lemma_bit(1, j - 1);
        lemma_bit(2, j - 1);
    }
    if j >= 2 {
        lemma_bit(0, j - 2);
        lemma_bit(1, j - 2);
        vstd::arithmetic::power2::lemma_pow2_pos((j - 2) as nat);
        vstd::arithmetic::div_mod::lemma_div_basics(pow2((j - 2) as nat) as int);
    }
    if j >= 3 {
        lemma_bit(0, j - 3);
        vstd::arithmetic::power2::lemma_pow2_pos((j - 3) as nat);
        vstd::arithmetic::div_mod::lemma_div_basics(pow2((j - 3) as nat) as int);
    }
}

/// Eight pixels of which the first two, or the first and the third, are of the
/// foreground have orders of one byte.
pub proof fn special_images_are_drawn(g: RleGeometry, before: Seq<u8>, rest: Seq<u8>, s: RleState)
    requires
        s.pos == before.len(),
        fits(g, s.out, s.first_row, 8),
        s.foreground <= white(g.bytes_per_pixel as nat),
    ensures
        g.step(before + seq![0xF9u8] + rest, s) matches RleStep::Next(t) && t.pos == s.pos + 1
            && t.foreground == s.foreground && !t.insert_foreground && t.first_row == s.first_row
            && appended(
            g,
            s.out,
            t.out,
            8,
            |j: int|
                image_pixel(
                    g,
                    t.out,
                    s.out.len() as int,
                    s.first_row,
                    s.foreground,
                    j == 0 || j == 1,
                    j,
                ),
        ),
        g.step(before + seq![0xFAu8] + rest, s) matches RleStep::Next(t) && t.pos == s.pos + 1
            && t.foreground == s.foreground && !t.insert_foreground && t.first_row == s.first_row
            && appended(
            g,
            s.out,
            t.out,
            8,
            |j: int|
                image_pixel(
                    g,
                    t.out,
                    s.out.len() as int,
                    s.first_row,
                    s.foreground,
                    j == 0 || j == 2,
                    j,
                ),
        ),
{
    let pos = before.len() as int;
    let start = s.out.len() as int;
    let three = before + seq![0xF9u8] + rest;
    assert(three[pos] == 0xF9);
    masks_are_painted(g, s.out, 3, s.foreground, s.first_row, 8);
    let t = g.step(three, s)->Next_0;
    let a = |j: int| image_pixel(g, t.out, start, s.first_row, s.foreground, bit(3, j), j);
    let b = |j: int|
        image_pixel(g, t.out, start, s.first_row, s.foreground, j == 0 || j == 1, j);
    assert forall|j: int| 0 <= j < 8 implies #[trigger] b(j) == a(j) by {
        lemma_special_bits(j);
    }
    lemma_same_values(g, s.out, t.out, 8, a, b);
    let five = before + seq![0xFAu8] + rest;
    assert(five[pos] == 0xFA);
    masks_are_painted(g, s.out, 5, s.foreground, s.first_row, 8);
    let u = g.step(five, s)->Next_0;
    let c = |j: int| image_pixel(g, u.out, start, s.first_row, s.foreground, bit(5, j), j);
    let d = |j: int|
        image_pixel(g, u.out, start, s.first_row, s.foreground, j == 0 || j == 2, j);
    assert forall|j: int| 0 <= j < 8 implies #[trigger] d(j) == c(j) by {
        lemma_special_bits(j);
    }
    lemma_same_values(g, s.out, u.out, 8, c, d);
}

// ---- Streams ----------------------------------------------------------------

/// Decoding begins on an empty picture, on its first row, with white as the
/// foreground.
pub proof fn decoding_begins_empty(bytes_per_pixel: nat)
    requires
        1 <= bytes_per_pixel <= 4,
    ensures
        ({
            let s = rle_start(bytes_per_pixel);
            &&& s.pos == 0
            &&& s.out.len() == 0
            &&& s.first_row
            &&& !s.insert_foreground
            &&& forall|k: int|
                0 <= k < bytes_per_pixel ==> #[trigger] pixel_bytes(
                    s.foreground,
                    bytes_per_pixel,
                )[k] == 255
        }),
{
    white_is_largest(Seq::empty(), 0, bytes_per_pixel);
}

/// The first row lasts until its bytes are full; a background run that follows
/// it begins without a foreground pixel.
pub proof fn first_row_ends(g: RleGeometry, s: RleState)
    ensures
        ({
            let t = g.entered(s);
            &&& t.pos == s.pos
            &&& t.out == s.out
            &&& t.foreground == s.foreground
            &&& t.first_row ==> t.out.len() < g.row
            &&& s.out.len() < g.row ==> t == s
            &&& s.first_row && s.out.len() >= g.row ==> !t.first_row && !t.insert_foreground
            &&& !s.first_row ==> t == s
        }),
{
}

/// Decoding is complete exactly where no order failed and the picture is full.
pub proof fn complete_pictures_are_full(complete: bool, out: Seq<u8>, size: nat)
    ensures
        (rle_status(complete, out, size) == RleDecodeStatus::Complete) == (complete && out.len()
            == size && size > 0),
        !complete ==> rle_status(complete, out, size) == RleDecodeStatus::Invalid,
        complete && 0 < out.len() < size ==> rle_status(complete, out, size)
            == RleDecodeStatus::Partial,
{
}

/// A row of one colour, written as one run, decodes completely to that row.
pub proof fn one_run_fills_a_row(header: Seq<u8>, pixel: u32, bytes_per_pixel: nat, n: nat)
    requires
        1 <= bytes_per_pixel <= 4,
        0 < n,
        regular_or_mega(header, 3, 0xF3, n as int),
        n * bytes_per_pixel <= usize::MAX,
        pixel <= white(bytes_per_pixel),
    ensures
        ({
            let g = RleGeometry {
                row: (n * bytes_per_pixel) as usize,
                size: (n * bytes_per_pixel) as usize,
                bytes_per_pixel: bytes_per_pixel as usize,
            };
            let (complete, out) = g.decoded(
                header + pixel_bytes(pixel, bytes_per_pixel),
                rle_start(bytes_per_pixel),
            );
            &&& rle_status(complete, out, n * bytes_per_pixel) == RleDecodeStatus::Complete
            &&& appended(g, Seq::empty(), out, n, |j: int| pixel)
        }),
{
    let size = (n * bytes_per_pixel) as usize;
    let g = RleGeometry { row: size, size, bytes_per_pixel: bytes_per_pixel as usize };
    let src = header + pixel_bytes(pixel, bytes_per_pixel);
    let s = rle_start(bytes_per_pixel);
    lemma_one(n, bytes_per_pixel as int);
    assert(Seq::<u8>::empty() + header + pixel_bytes(pixel, bytes_per_pixel) + Seq::<u8>::empty()
        =~= src);
    colour_runs_are_drawn(g, Seq::empty(), header, pixel, Seq::empty(), s, n);
    assert(g.entered(s) == s);
    let t = g.step(src, s)->Next_0;
    assert(g.decoded(src, s) == g.decoded(src, t));
    assert(g.decoded(src, t) == (true, t.out));
}

/// Where no pixel fits any more, nothing is painted.
pub proof fn full_pictures_stay(
    g: RleGeometry,
    src: Seq<u8>,
    pos: int,
    out: Seq<u8>,
    paint: Paint,
    mask: u8,
    pixel: u32,
    first_row: bool,
    n: nat,
)
    requires
        out.len() + g.bytes_per_pixel > g.size,
    ensures
        g.filled(out, paint, first_row, n) == out,
        g.masked(out, mask, pixel, first_row, n) == out,
        g.dithered(out, pixel, pixel, n) == out,
        g.copied(src, pos, out, n) == (pos, out),
    decreases n,
{
    if n > 0 {
        full_pictures_stay(
            g,
            src,
            pos,
            out,
            paint,
            mask / 2,
            pixel,
            first_row,
            (n - 1) as nat,
        );
    }
}

/// Copying ends where the data end; an image whose masks are missing fails, with
/// what was painted before.
pub proof fn missing_data_end_an_order(
    g: RleGeometry,
    src: Seq<u8>,
    pos: int,
    out: Seq<u8>,
    pixel: u32,
    first_row: bool,
    n: nat,
)
    ensures
        pos + g.bytes_per_pixel > src.len() ==> g.copied(src, pos, out, n) == (pos, out),
        n > 0 && pos >= src.len() ==> g.image(src, pos, out, pixel, first_row, n) == Err::<
            (int, Seq<u8>),
            Seq<u8>,
        >(out),
{
}

/// An order that is not known, or whose length or pixels are missing, fails and
/// paints nothing.
pub proof fn broken_orders_fail(g: RleGeometry, src: Seq<u8>, s: RleState)
    requires
        0 <= s.pos < src.len(),
    ensures
        ({
            let header = src[s.pos];
            let left = src.len() - s.pos;
            let bpp = g.bytes_per_pixel as int;
            let failed = g.step(src, s) == RleStep::Fail(s.out);
            let mega = 0xF0 <= header <= 0xF8 && header != 0xF5;
            &&& 0xA0 <= header < 0xC0 ==> failed
            &&& header == 0xF5 || header == 0xFB || header == 0xFC || header == 0xFF ==> failed
            &&& left == 1 && header < 0xA0 && header % 32 == 0 ==> failed
            &&& left == 1 && 0xC0 <= header < 0xF0 && header % 16 == 0 ==> failed
            &&& left < 3 && mega ==> failed
            &&& 0x60 < header < 0x80 && left < 1 + bpp ==> failed
            &&& 0xC0 < header < 0xD0 && left < 1 + bpp ==> failed
            &&& 0xD0 < header < 0xE0 && left < 1 + bpp ==> failed
            &&& 0xE0 < header < 0xF0 && left < 1 + 2 * bpp ==> failed
        }),
{
}

} // verus!
