//! Interleaved run-length decoding of bitmap data.
//!
//! The stream is a row of orders. Each order begins with a header byte that
//! names it and, for most orders, a run length; each appends pixels to the
//! picture. The picture is stored bottom row first. On its first stored row
//! the background is black; on later rows it is the pixel one row before.

use vstd::prelude::*;

use crate::wire::{le16_at, le32, le32_at, put_zeros, read_u16, zeros};

verus! {

pub const REGULAR_BG_RUN: u32 = 0x00;
pub const MEGA_MEGA_BG_RUN: u32 = 0xF0;
pub const REGULAR_FG_RUN: u32 = 0x01;
pub const MEGA_MEGA_FG_RUN: u32 = 0xF1;
pub const LITE_SET_FG_FG_RUN: u32 = 0x0C;
pub const MEGA_MEGA_SET_FG_RUN: u32 = 0xF6;
pub const LITE_DITHERED_RUN: u32 = 0x0E;
pub const MEGA_MEGA_DITHERED_RUN: u32 = 0xF8;
pub const REGULAR_COLOR_RUN: u32 = 0x03;
pub const MEGA_MEGA_COLOR_RUN: u32 = 0xF3;
pub const REGULAR_FGBG_IMAGE: u32 = 0x02;
pub const MEGA_MEGA_FGBG_IMAGE: u32 = 0xF2;
pub const LITE_SET_FG_FGBG_IMAGE: u32 = 0x0D;
pub const MEGA_MEGA_SET_FGBG_IMAGE: u32 = 0xF7;
pub const REGULAR_COLOR_IMAGE: u32 = 0x04;
pub const MEGA_MEGA_COLOR_IMAGE: u32 = 0xF4;
pub const SPECIAL_FGBG_1: u32 = 0xF9;
pub const SPECIAL_FGBG_2: u32 = 0xFA;
pub const SPECIAL_WHITE: u32 = 0xFD;
pub const SPECIAL_BLACK: u32 = 0xFE;

/// How a decoding ended.
#[derive(Clone, Copy, Debug, PartialEq, Eq, Structural)]
pub enum RleDecodeStatus {
    /// The stream filled the picture.
    Complete,
    /// The stream ended before the picture was full.
    Partial,
    /// The stream holds no picture: an unknown or truncated order, or no pixel.
    Invalid,
}

/// Sizes, in bytes, of the picture that a stream is decoded into.
#[derive(Clone, Copy)]
pub struct RleGeometry {
    pub row: usize,
    pub size: usize,
    pub bytes_per_pixel: usize,
}

/// What the next pixel of a run is.
#[derive(Clone, Copy)]
pub enum Paint {
    /// Black on the first row, else the pixel one row before.
    Background,
    /// The foreground on the first row, else its exclusive or with the pixel
    /// one row before.
    Foreground(u32),
    /// This pixel.
    Solid(u32),
}

/// Decoder state between two orders.
pub struct RleState {
    pub pos: int,
    pub out: Seq<u8>,
    pub foreground: u32,
    pub insert_foreground: bool,
    pub first_row: bool,
}

/// Effect of one order.
pub enum RleStep {
    Next(RleState),
    /// The order is unknown or truncated; these bytes had been decoded.
    Fail(Seq<u8>),
}

impl RleGeometry {
    pub open spec fn wf(self) -> bool {
        1 <= self.bytes_per_pixel <= 4
    }

    /// Whether one more pixel fits behind `out`.
    pub open spec fn has_room(self, out: Seq<u8>) -> bool {
        out.len() + self.bytes_per_pixel <= self.size
    }

    /// The pixel one row before the next one.
    pub open spec fn above(self, out: Seq<u8>) -> u32 {
        pixel_at(out, out.len() - self.row, self.bytes_per_pixel as nat)
    }

    pub open spec fn painted(self, out: Seq<u8>, paint: Paint, first_row: bool) -> u32 {
        match paint {
            Paint::Background => if first_row { 0 } else { self.above(out) },
            Paint::Foreground(pixel) => if first_row { pixel } else { self.above(out) ^ pixel },
            Paint::Solid(pixel) => pixel,
        }
    }

    /// `out` and the pixel `paint` behind it, where it fits.
    pub open spec fn emitted(self, out: Seq<u8>, paint: Paint, first_row: bool) -> Seq<u8> {
        if self.has_room(out) {
            out + pixel_bytes(self.painted(out, paint, first_row), self.bytes_per_pixel as nat)
        } else {
            out
        }
    }

    /// `out` and a run of `n` pixels behind it, as far as they fit.
    pub open spec fn filled(self, out: Seq<u8>, paint: Paint, first_row: bool, n: nat) -> Seq<u8>
        decreases n,
    {
        if n == 0 {
            out
        } else {
            self.filled(self.emitted(out, paint, first_row), paint, first_row, (n - 1) as nat)
        }
    }

    /// `out` and `n` times the two pixels behind it, as far as they fit.
    pub open spec fn dithered(self, out: Seq<u8>, a: u32, b: u32, n: nat) -> Seq<u8>
        decreases n,
    {
        if n == 0 {
            out
        } else {
            let one = self.emitted(out, Paint::Solid(a), true);
            self.dithered(self.emitted(one, Paint::Solid(b), true), a, b, (n - 1) as nat)
        }
    }

    /// `out` and `n` pixels behind it, foreground where the mask (lowest bit
    /// first) has a one and background where it has a zero, as far as they fit.
    pub open spec fn masked(
        self,
        out: Seq<u8>,
        mask: u8,
        foreground: u32,
        first_row: bool,
        n: nat,
    ) -> Seq<u8>
        decreases n,
    {
        if n == 0 {
            out
        } else {
            let paint = if mask % 2 == 1 {
                Paint::Foreground(foreground)
            } else {
                Paint::Background
            };
            self.masked(
                self.emitted(out, paint, first_row),
                mask / 2,
                foreground,
                first_row,
                (n - 1) as nat,
            )
        }
    }

    /// `n` pixels from mask bytes at `pos`, eight to a byte: where the bytes
    /// end and the picture then, or the picture at which they ran out.
    pub open spec fn image(
        self,
        src: Seq<u8>,
        pos: int,
        out: Seq<u8>,
        foreground: u32,
        first_row: bool,
        n: nat,
    ) -> Result<(int, Seq<u8>), Seq<u8>>
        decreases n,
    {
        if n == 0 {
            Ok((pos, out))
        } else if pos >= src.len() {
            Err(out)
        } else {
            let count = if n > 8 { 8 } else { n };
            self.image(
                src,
                pos + 1,
                self.masked(out, src[pos], foreground, first_row, count),
                foreground,
                first_row,
                (n - count) as nat,
            )
        }
    }

    /// At most `n` pixels copied from the stream: where the copy ends and the
    /// picture then.
    pub open spec fn copied(self, src: Seq<u8>, pos: int, out: Seq<u8>, n: nat) -> (int, Seq<u8>)
        decreases n,
    {
        if n == 0 || pos + self.bytes_per_pixel > src.len() || !self.has_room(out) {
            (pos, out)
        } else {
            let pixel = pixel_at(src, pos, self.bytes_per_pixel as nat);
            self.copied(
                src,
                pos + self.bytes_per_pixel,
                out + pixel_bytes(pixel, self.bytes_per_pixel as nat),
                (n - 1) as nat,
            )
        }
    }

    /// Effect of the order at `s.pos`.
    pub open spec fn step(self, src: Seq<u8>, s: RleState) -> RleStep {
        let code = order_code(src[s.pos]);
        let bpp = self.bytes_per_pixel as int;
        if code == SPECIAL_FGBG_1 || code == SPECIAL_FGBG_2 {
            let mask: u8 = if code == SPECIAL_FGBG_1 { 0x03 } else { 0x05 };
            RleStep::Next(
                RleState {
                    pos: s.pos + 1,
                    out: self.masked(s.out, mask, s.foreground, s.first_row, 8),
                    insert_foreground: false,
                    ..s
                },
            )
        } else if code == SPECIAL_WHITE || code == SPECIAL_BLACK {
            let pixel = if code == SPECIAL_WHITE { white(bpp as nat) } else { 0 };
            RleStep::Next(
                RleState {
                    pos: s.pos + 1,
                    out: self.emitted(s.out, Paint::Solid(pixel), s.first_row),
                    insert_foreground: false,
                    ..s
                },
            )
        } else {
            match run_length(code, src, s.pos) {
                None => RleStep::Fail(s.out),
                Some((run, advance)) => self.run_step(src, s, code, run, s.pos + advance),
            }
        }
    }

    /// Effect of an order with a run length, whose operands stand at `pos`.
    pub open spec fn run_step(
        self,
        src: Seq<u8>,
        s: RleState,
        code: u32,
        run: nat,
        pos: int,
    ) -> RleStep {
        let bpp = self.bytes_per_pixel as int;
        if code == REGULAR_BG_RUN || code == MEGA_MEGA_BG_RUN {
            let started = if s.insert_foreground {
                self.emitted(s.out, Paint::Foreground(s.foreground), s.first_row)
            } else {
                s.out
            };
            let rest = if s.insert_foreground && run > 0 { (run - 1) as nat } else { run };
            RleStep::Next(
                RleState {
                    pos,
                    out: self.filled(started, Paint::Background, s.first_row, rest),
                    insert_foreground: true,
                    ..s
                },
            )
        } else if sets_foreground(code) && pos + bpp > src.len() {
            RleStep::Fail(s.out)
        } else {
            let foreground = if sets_foreground(code) {
                pixel_at(src, pos, bpp as nat)
            } else {
                s.foreground
            };
            let data = if sets_foreground(code) { pos + bpp } else { pos };
            let t = RleState { pos: data, foreground, insert_foreground: false, ..s };
            if is_foreground_run(code) {
                RleStep::Next(
                    RleState {
                        out: self.filled(s.out, Paint::Foreground(foreground), s.first_row, run),
                        ..t
                    },
                )
            } else if is_foreground_image(code) {
                match self.image(src, data, s.out, foreground, s.first_row, run) {
                    Ok((end, out)) => RleStep::Next(RleState { pos: end, out, ..t }),
                    Err(out) => RleStep::Fail(out),
                }
            } else if code == REGULAR_COLOR_IMAGE || code == MEGA_MEGA_COLOR_IMAGE {
                let (end, out) = self.copied(src, data, s.out, run);
                RleStep::Next(RleState { pos: end, out, ..t })
            } else if code == REGULAR_COLOR_RUN || code == MEGA_MEGA_COLOR_RUN {
                if data + bpp > src.len() {
                    RleStep::Fail(s.out)
                } else {
                    let paint = Paint::Solid(pixel_at(src, data, bpp as nat));
                    RleStep::Next(
                        RleState {
                            pos: data + bpp,
                            out: self.filled(s.out, paint, s.first_row, run),
                            ..t
                        },
                    )
                }
            } else {
                if data + 2 * bpp > src.len() {
                    RleStep::Fail(s.out)
                } else {
                    let a = pixel_at(src, data, bpp as nat);
                    let b = pixel_at(src, data + bpp, bpp as nat);
                    RleStep::Next(
                        RleState { pos: data + 2 * bpp, out: self.dithered(s.out, a, b, run), ..t },
                    )
                }
            }
        }
    }

    /// `s` with the first-row flags cleared once the first row is full.
    pub open spec fn entered(self, s: RleState) -> RleState {
        if s.first_row && s.out.len() >= self.row {
            RleState { first_row: false, insert_foreground: false, ..s }
        } else {
            s
        }
    }

    /// The bytes decoded from `s` on, and whether no order failed.
    pub open spec fn decoded(self, src: Seq<u8>, s: RleState) -> (bool, Seq<u8>)
        decreases src.len() - s.pos,
    {
        if s.pos >= src.len() || s.out.len() >= self.size {
            (true, s.out)
        } else {
            match self.step(src, self.entered(s)) {
                RleStep::Fail(out) => (false, out),
                RleStep::Next(t) => {
                    proof {
                        self.lemma_step_advances(src, self.entered(s));
                    }
                    self.decoded(src, t)
                },
            }
        }
    }
}

/// Facts that the proofs below rest on.
impl RleGeometry {
    proof fn lemma_image_advances(
        self,
        src: Seq<u8>,
        pos: int,
        out: Seq<u8>,
        foreground: u32,
        first_row: bool,
        n: nat,
    )
        requires
            pos <= src.len(),
        ensures
            self.image(src, pos, out, foreground, first_row, n) matches Ok((end, _)) ==> pos <= end
                <= src.len(),
        decreases n,
    {
        if n != 0 && pos < src.len() {
            let count = if n > 8 { 8 } else { n };
            self.lemma_image_advances(
                src,
                pos + 1,
                self.masked(out, src[pos], foreground, first_row, count),
                foreground,
                first_row,
                (n - count) as nat,
            );
        }
    }

    proof fn lemma_copied_advances(self, src: Seq<u8>, pos: int, out: Seq<u8>, n: nat)
        requires
            pos <= src.len(),
        ensures
            pos <= self.copied(src, pos, out, n).0 <= src.len(),
        decreases n,
    {
        if n != 0 && pos + self.bytes_per_pixel <= src.len() && self.has_room(out) {
            let pixel = pixel_at(src, pos, self.bytes_per_pixel as nat);
            self.lemma_copied_advances(
                src,
                pos + self.bytes_per_pixel,
                out + pixel_bytes(pixel, self.bytes_per_pixel as nat),
                (n - 1) as nat,
            );
        }
    }

    /// Every order takes at least its header byte and stays in the stream.
    pub proof fn lemma_step_advances(self, src: Seq<u8>, s: RleState)
        requires
            s.pos < src.len(),
        ensures
            self.step(src, s) matches RleStep::Next(t) ==> s.pos < t.pos <= src.len(),
    {
        let code = order_code(src[s.pos]);
        if let Some((run, advance)) = run_length(code, src, s.pos) {
            let pos = s.pos + advance;
            let bpp = self.bytes_per_pixel as int;
            let foreground = if sets_foreground(code) {
                pixel_at(src, pos, bpp as nat)
            } else {
                s.foreground
            };
            let data = if sets_foreground(code) { pos + bpp } else { pos };
            if data <= src.len() {
                self.lemma_image_advances(src, data, s.out, foreground, s.first_row, run);
                self.lemma_copied_advances(src, data, s.out, run);
            }
        }
    }
}

/// The decoder state before the first order.
pub open spec fn rle_start(bytes_per_pixel: nat) -> RleState {
    RleState {
        pos: 0,
        out: Seq::empty(),
        foreground: white(bytes_per_pixel),
        insert_foreground: false,
        first_row: true,
    }
}

/// How a decoding that wrote `out` ended.
pub open spec fn rle_status(complete: bool, out: Seq<u8>, size: nat) -> RleDecodeStatus {
    if !complete || out.len() == 0 {
        RleDecodeStatus::Invalid
    } else if out.len() != size {
        RleDecodeStatus::Partial
    } else {
        RleDecodeStatus::Complete
    }
}

/// The rows of `s`, each of `row` bytes, in opposite order.
pub open spec fn rows_flipped(s: Seq<u8>, row: nat) -> Seq<u8>
    decreases s.len(),
{
    if row == 0 || s.len() < row {
        Seq::empty()
    } else {
        rows_flipped(s.skip(row as int), row) + s.take(row as int)
    }
}

proof fn lemma_flipped_length(s: Seq<u8>, row: nat, height: nat)
    requires
        row > 0,
        s.len() == row * height,
    ensures
        rows_flipped(s, row).len() == s.len(),
    decreases height,
{
    if height > 0 {
        assert(row * height == row * (height - 1) + row) by (nonlinear_arith)
            requires
                height > 0,
        ;
        lemma_flipped_length(s.skip(row as int), row, (height - 1) as nat);
    } else {
        assert(row * height == 0) by (nonlinear_arith)
            requires
                height == 0,
        ;
    }
}

/// Flipping puts each row at the place of the one as far from the other end.
pub proof fn flipping_turns_rows(s: Seq<u8>, row: nat, height: nat, i: int)
    requires
        row > 0,
        s.len() == row * height,
        0 <= i < height,
    ensures
        rows_flipped(s, row).len() == s.len(),
        rows_flipped(s, row).subrange(row * i, row * i + row) == s.subrange(
            row * (height - 1 - i),
            row * (height - 1 - i) + row,
        ),
    decreases height,
{
    let rest = s.skip(row as int);
    let below = (height - 1) as nat;
    assert(row * height == row * below + row) by (nonlinear_arith)
        requires
            height == below + 1,
    ;
    lemma_flipped_length(s, row, height);
    lemma_flipped_length(rest, row, below);
    let flipped = rows_flipped(s, row);
    let inner = rows_flipped(rest, row);
    assert(flipped == inner + s.take(row as int));
    if i == below {
        assert(row * (height - 1 - i) == 0) by (nonlinear_arith)
            requires
                i == height - 1,
        ;
        assert(flipped.subrange(row * i, row * i + row) =~= s.take(row as int));
        assert(s.subrange(0, row as int) =~= s.take(row as int));
    } else {
        flipping_turns_rows(rest, row, below, i);
        assert(row * i + row <= row * below && 0 <= row * i) by (nonlinear_arith)
            requires
                0 <= i,
                i + 1 <= below,
        ;
        let from = row * (below - 1 - i);
        assert(row * (height - 1 - i) == from + row && 0 <= from && from + row <= row * below)
            by (nonlinear_arith)
            requires
                from == row * (below - 1 - i),
                height == below + 1,
                0 <= i < below,
        ;
        assert(flipped.subrange(row * i, row * i + row) =~= inner.subrange(row * i, row * i + row));
        assert(rest.subrange(from, from + row) =~= s.subrange(from + row, from + row + row));
    }
}

/// A pixel reads back from where it was stored, as far as it fits there.
pub proof fn pixel_round_trip(
    prefix: Seq<u8>,
    pixel: u32,
    bytes_per_pixel: nat,
    suffix: Seq<u8>,
)
    requires
        1 <= bytes_per_pixel <= 4,
        pixel <= white(bytes_per_pixel),
    ensures
        pixel_at(
            prefix + pixel_bytes(pixel, bytes_per_pixel) + suffix,
            prefix.len() as int,
            bytes_per_pixel,
        ) == pixel,
{
    let bytes = pixel_bytes(pixel, bytes_per_pixel);
    let s = prefix + bytes + suffix;
    let n = prefix.len() as int;
    assert(bytes.len() == bytes_per_pixel);
    assert(s[n] == bytes[0]);
    assert(bytes_per_pixel >= 2 ==> s[n + 1] == bytes[1]);
    assert(bytes_per_pixel >= 3 ==> s[n + 2] == bytes[2]);
    assert(bytes_per_pixel >= 4 ==> s[n + 3] == bytes[3]);
}

/// The pixel with all bits set.
pub open spec fn white(bytes_per_pixel: nat) -> u32 {
    if bytes_per_pixel == 1 {
        0xFF
    } else if bytes_per_pixel == 2 {
        0xFFFF
    } else if bytes_per_pixel == 3 {
        0xFF_FFFF
    } else {
        0xFFFF_FFFF
    }
}

/// The stored form of a pixel: its lowest bytes, low byte first.
pub open spec fn pixel_bytes(pixel: u32, bytes_per_pixel: nat) -> Seq<u8> {
    le32(pixel).take(bytes_per_pixel as int)
}

/// The pixel stored at `i`.
pub open spec fn pixel_at(s: Seq<u8>, i: int, bytes_per_pixel: nat) -> u32 {
    if bytes_per_pixel == 1 {
        s[i] as u32
    } else if bytes_per_pixel == 2 {
        le16_at(s, i) as u32
    } else if bytes_per_pixel == 3 {
        (s[i] + 0x100 * s[i + 1] + 0x1_0000 * s[i + 2]) as u32
    } else {
        le32_at(s, i)
    }
}

/// The order that a header byte names: the top three bits below `C0`, the top
/// four below `F0`, else all eight.
pub open spec fn order_code(header: u8) -> u32 {
    if header < 0xC0 {
        (header / 32) as u32
    } else if header < 0xF0 {
        (header / 16) as u32
    } else {
        header as u32
    }
}

pub open spec fn sets_foreground(code: u32) -> bool {
    code == LITE_SET_FG_FG_RUN || code == MEGA_MEGA_SET_FG_RUN || code == LITE_SET_FG_FGBG_IMAGE
        || code == MEGA_MEGA_SET_FGBG_IMAGE
}

pub open spec fn is_foreground_run(code: u32) -> bool {
    code == REGULAR_FG_RUN || code == MEGA_MEGA_FG_RUN || code == LITE_SET_FG_FG_RUN || code
        == MEGA_MEGA_SET_FG_RUN
}

pub open spec fn is_foreground_image(code: u32) -> bool {
    code == REGULAR_FGBG_IMAGE || code == MEGA_MEGA_FGBG_IMAGE || code == LITE_SET_FG_FGBG_IMAGE
        || code == MEGA_MEGA_SET_FGBG_IMAGE
}

pub open spec fn is_mega_run(code: u32) -> bool {
    (MEGA_MEGA_BG_RUN <= code <= MEGA_MEGA_COLOR_IMAGE) || (MEGA_MEGA_SET_FG_RUN <= code
        <= MEGA_MEGA_DITHERED_RUN)
}

/// A run length in the low bits of the header (below `limit`): itself times
/// `scale`, or, where it is zero, the next byte plus `base`.
pub open spec fn short_run(src: Seq<u8>, pos: int, limit: int, base: int, scale: int) -> Option<
    (nat, nat),
> {
    let low = src[pos] as int % limit;
    if low != 0 {
        Some(((low * scale) as nat, 1nat))
    } else if pos + 1 < src.len() {
        Some(((src[pos + 1] + base) as nat, 2nat))
    } else {
        None
    }
}

/// The run length of the order `code` at `pos` and the bytes that the header
/// and the length take; none for an order without one or a truncated one.
pub open spec fn run_length(code: u32, src: Seq<u8>, pos: int) -> Option<(nat, nat)> {
    if pos >= src.len() {
        None
    } else if is_mega_run(code) {
        if pos + 2 < src.len() {
            Some((le16_at(src, pos + 1) as nat, 3nat))
        } else {
            None
        }
    } else if code == REGULAR_FGBG_IMAGE {
        short_run(src, pos, 32, 1, 8)
    } else if code <= REGULAR_COLOR_IMAGE {
        short_run(src, pos, 32, 32, 1)
    } else if code == LITE_SET_FG_FG_RUN || code == LITE_DITHERED_RUN {
        short_run(src, pos, 16, 16, 1)
    } else if code == LITE_SET_FG_FGBG_IMAGE {
        short_run(src, pos, 16, 1, 8)
    } else {
        None
    }
}

/// The order that a header byte names.
pub fn extract_code_id(order_hdr: u8) -> (code: u32)
    ensures
        code == order_code(order_hdr),
{
    if order_hdr < 0xC0 {
        (order_hdr / 32) as u32
    } else if order_hdr < 0xF0 {
        (order_hdr / 16) as u32
    } else {
        order_hdr as u32
    }
}

fn extract_short_run(src: &[u8], pos: usize, limit: u8, base: usize, scale: usize) -> (res: Option<
    (usize, usize),
>)
    requires
        pos < src@.len(),
        0 < limit,
        base <= 32,
        scale == 1 || scale == 8,
    ensures
        (res matches Some((run, advance)) ==> short_run(
            src@,
            pos as int,
            limit as int,
            base as int,
            scale as int,
        ) == Some((run as nat, advance as nat)) && run <= 2040),
        res is None ==> short_run(
            src@,
            pos as int,
            limit as int,
            base as int,
            scale as int,
        ) is None,
{
    let low = (src[pos] % limit) as usize;
    if low != 0 {
        if scale == 1 {
            Some((low, 1))
        } else {
            Some((low * 8, 1))
        }
    } else if src.len() - pos > 1 {
        Some((src[pos + 1] as usize + base, 2))
    } else {
        None
    }
}

/// The run length of the order `code` whose header stands at `pos`, and the
/// bytes that the header and the length take.
pub fn extract_run_length(code: u32, src: &[u8], pos: usize) -> (res: Option<(usize, usize)>)
    ensures
        res matches Some((run, advance)) ==> run_length(code, src@, pos as int) == Some(
            (run as nat, advance as nat),
        ),
        res is None ==> run_length(code, src@, pos as int) is None,
{
    if pos >= src.len() {
        return None;
    }
    match code {
        MEGA_MEGA_BG_RUN
        | MEGA_MEGA_FG_RUN
        | MEGA_MEGA_FGBG_IMAGE
        | MEGA_MEGA_COLOR_RUN
        | MEGA_MEGA_COLOR_IMAGE
        | MEGA_MEGA_SET_FG_RUN
        | MEGA_MEGA_SET_FGBG_IMAGE
        | MEGA_MEGA_DITHERED_RUN => match read_u16(src, pos + 1) {
            Some(run) => Some((run as usize, 3)),
            None => None,
        },
        REGULAR_FGBG_IMAGE => extract_short_run(src, pos, 32, 1, 8),
        REGULAR_BG_RUN | REGULAR_FG_RUN | REGULAR_COLOR_RUN | REGULAR_COLOR_IMAGE =>
            extract_short_run(src, pos, 32, 32, 1),
        LITE_SET_FG_FG_RUN | LITE_DITHERED_RUN => extract_short_run(src, pos, 16, 16, 1),
        LITE_SET_FG_FGBG_IMAGE => extract_short_run(src, pos, 16, 1, 8),
        _ => None,
    }
}

/// The pixel stored at `offset`.
pub fn read_pixel_value(data: &[u8], offset: usize, bytes_per_pixel: usize) -> (pixel: u32)
    requires
        1 <= bytes_per_pixel <= 4,
        offset + bytes_per_pixel <= data@.len(),
    ensures
        pixel == pixel_at(data@, offset as int, bytes_per_pixel as nat),
{
    let low = data[offset] as u32;
    if bytes_per_pixel == 1 {
        low
    } else if bytes_per_pixel == 2 {
        low + 0x100 * data[offset + 1] as u32
    } else if bytes_per_pixel == 3 {
        low + 0x100 * data[offset + 1] as u32 + 0x1_0000 * data[offset + 2] as u32
    } else {
        low + 0x100 * data[offset + 1] as u32 + 0x1_0000 * data[offset + 2] as u32 + 0x100_0000
            * data[offset + 3] as u32
    }
}

/// Appends the stored form of a pixel.
pub fn write_pixel_value(out: &mut Vec<u8>, pixel: u32, bytes_per_pixel: usize)
    requires
        1 <= bytes_per_pixel <= 4,
    ensures
        final(out)@ == old(out)@ + pixel_bytes(pixel, bytes_per_pixel as nat),
{
    out.push((pixel % 256) as u8);
    if bytes_per_pixel >= 2 {
        out.push((pixel / 256 % 256) as u8);
    }
    if bytes_per_pixel >= 3 {
        out.push((pixel / 0x1_0000 % 256) as u8);
    }
    if bytes_per_pixel >= 4 {
        out.push((pixel / 0x100_0000) as u8);
    }
    assert(out@ =~= old(out)@ + pixel_bytes(pixel, bytes_per_pixel as nat));
}

fn white_pixel(bytes_per_pixel: usize) -> (pixel: u32)
    ensures
        pixel == white(bytes_per_pixel as nat),
{
    match bytes_per_pixel {
        1 => 0xFF,
        2 => 0xFFFF,
        3 => 0xFF_FFFF,
        _ => 0xFFFF_FFFF,
    }
}

impl RleGeometry {
    /// Whether `out` can be painted on: it is inside the picture and, past the
    /// first row, a row stands before its end.
    pub open spec fn can_paint(self, out: Seq<u8>, first_row: bool) -> bool {
        &&& self.wf()
        &&& out.len() <= self.size
        &&& first_row || (self.bytes_per_pixel <= self.row <= out.len())
    }

    fn emit(&self, out: &mut Vec<u8>, paint: Paint, first_row: bool)
        requires
            self.can_paint(old(out)@, first_row),
        ensures
            final(out)@ == self.emitted(old(out)@, paint, first_row),
            self.can_paint(final(out)@, first_row),
    {
        if self.size - out.len() < self.bytes_per_pixel {
            return;
        }
        let pixel = match paint {
            Paint::Background => if first_row {
                0
            } else {
                read_pixel_value(out.as_slice(), out.len() - self.row, self.bytes_per_pixel)
            },
            Paint::Foreground(pixel) => if first_row {
                pixel
            } else {
                read_pixel_value(out.as_slice(), out.len() - self.row, self.bytes_per_pixel) ^ pixel
            },
            Paint::Solid(pixel) => pixel,
        };
        write_pixel_value(out, pixel, self.bytes_per_pixel);
    }

    fn fill(&self, out: &mut Vec<u8>, paint: Paint, first_row: bool, n: usize)
        requires
            self.can_paint(old(out)@, first_row),
        ensures
            final(out)@ == self.filled(old(out)@, paint, first_row, n as nat),
            self.can_paint(final(out)@, first_row),
    {
        let mut left = n;
        while left > 0
            invariant
                left <= n,
                self.can_paint(out@, first_row),
                self.filled(out@, paint, first_row, left as nat) == self.filled(
                    old(out)@,
                    paint,
                    first_row,
                    n as nat,
                ),
            decreases left,
        {
            self.emit(out, paint, first_row);
            left -= 1;
        }
    }

    fn dither(&self, out: &mut Vec<u8>, a: u32, b: u32, n: usize)
        requires
            self.can_paint(old(out)@, true),
        ensures
            final(out)@ == self.dithered(old(out)@, a, b, n as nat),
            self.can_paint(final(out)@, true),
            old(out)@.len() <= final(out)@.len(),
    {
        let mut left = n;
        while left > 0
            invariant
                left <= n,
                self.can_paint(out@, true),
                old(out)@.len() <= out@.len(),
                self.dithered(out@, a, b, left as nat) == self.dithered(old(out)@, a, b, n as nat),
            decreases left,
        {
            self.emit(out, Paint::Solid(a), true);
            self.emit(out, Paint::Solid(b), true);
            left -= 1;
        }
    }

    /// Appends at most `count` pixels, foreground or background by the bits of
    /// the mask.
    pub fn write_fgbg_image(
        &self,
        out: &mut Vec<u8>,
        bitmask: u8,
        foreground: u32,
        first_row: bool,
        count: usize,
    )
        requires
            self.can_paint(old(out)@, first_row),
        ensures
            final(out)@ == self.masked(old(out)@, bitmask, foreground, first_row, count as nat),
            self.can_paint(final(out)@, first_row),
    {
        let mut left = count;
        let mut mask = bitmask;
        while left > 0
            invariant
                left <= count,
                self.can_paint(out@, first_row),
                self.masked(out@, mask, foreground, first_row, left as nat) == self.masked(
                    old(out)@,
                    bitmask,
                    foreground,
                    first_row,
                    count as nat,
                ),
            decreases left,
        {
            if mask % 2 == 1 {
                self.emit(out, Paint::Foreground(foreground), first_row);
            } else {
                self.emit(out, Paint::Background, first_row);
            }
            mask = mask / 2;
            left -= 1;
        }
    }

    /// Decodes an image order of `n` pixels from `pos`; the end of its mask
    /// bytes, or none where they ran out.
    fn write_image(
        &self,
        src: &[u8],
        pos: usize,
        out: &mut Vec<u8>,
        foreground: u32,
        first_row: bool,
        n: usize,
    ) -> (res: Option<usize>)
        requires
            self.can_paint(old(out)@, first_row),
            pos <= src@.len(),
        ensures
            self.can_paint(final(out)@, first_row),
            match res {
                Some(end) => end <= src@.len() && self.image(
                    src@,
                    pos as int,
                    old(out)@,
                    foreground,
                    first_row,
                    n as nat,
                ) == Ok::<(int, Seq<u8>), Seq<u8>>((end as int, final(out)@)),
                None => self.image(src@, pos as int, old(out)@, foreground, first_row, n as nat)
                    == Err::<(int, Seq<u8>), Seq<u8>>(final(out)@),
            },
    {
        let mut left = n;
        let mut at = pos;
        while left > 0
            invariant
                left <= n,
                at <= src@.len(),
                self.can_paint(out@, first_row),
                self.image(src@, at as int, out@, foreground, first_row, left as nat) == self.image(
                    src@,
                    pos as int,
                    old(out)@,
                    foreground,
                    first_row,
                    n as nat,
                ),
            decreases left,
        {
            if at >= src.len() {
                return None;
            }
            let count: usize = if left > 8 { 8 } else { left };
            self.write_fgbg_image(out, src[at], foreground, first_row, count);
            at += 1;
            left -= count;
        }
        Some(at)
    }

    /// Copies at most `n` pixels of the stream from `pos`; where the copy ends.
    fn copy_pixels(&self, src: &[u8], pos: usize, out: &mut Vec<u8>, n: usize) -> (end: usize)
        requires
            self.wf(),
            old(out)@.len() <= self.size,
            pos <= src@.len(),
        ensures
            (end as int, final(out)@) == self.copied(src@, pos as int, old(out)@, n as nat),
            end <= src@.len(),
            old(out)@.len() <= final(out)@.len() <= self.size,
    {
        let bpp = self.bytes_per_pixel;
        let mut left = n;
        let mut at = pos;
        while left > 0 && src.len() - at >= bpp && self.size - out.len() >= bpp
            invariant
                bpp == self.bytes_per_pixel,
                self.wf(),
                left <= n,
                at <= src@.len(),
                old(out)@.len() <= out@.len() <= self.size,
                self.copied(src@, at as int, out@, left as nat) == self.copied(
                    src@,
                    pos as int,
                    old(out)@,
                    n as nat,
                ),
            decreases left,
        {
            let pixel = read_pixel_value(src, at, bpp);
            write_pixel_value(out, pixel, bpp);
            at += bpp;
            left -= 1;
        }
        at
    }
}

/// A decoder under way.
struct RleDecoder {
    pos: usize,
    out: Vec<u8>,
    foreground: u32,
    insert_foreground: bool,
    first_row: bool,
}

impl RleDecoder {
    spec fn state(self) -> RleState {
        RleState {
            pos: self.pos as int,
            out: self.out@,
            foreground: self.foreground,
            insert_foreground: self.insert_foreground,
            first_row: self.first_row,
        }
    }

    /// Runs the order at the current position; whether it was whole.
    fn step(&mut self, geometry: &RleGeometry, src: &[u8]) -> (done: bool)
        requires
            old(self).pos < src@.len(),
            geometry.can_paint(old(self).out@, old(self).first_row),
        ensures
            final(self).pos <= src@.len(),
            geometry.can_paint(final(self).out@, final(self).first_row),
            done ==> geometry.step(src@, old(self).state()) == RleStep::Next(final(self).state()),
            !done ==> geometry.step(src@, old(self).state()) == RleStep::Fail(final(self).out@),
    {
        let code = extract_code_id(src[self.pos]);
        match code {
            SPECIAL_FGBG_1 | SPECIAL_FGBG_2 => {
                let mask: u8 = if code == SPECIAL_FGBG_1 { 0x03 } else { 0x05 };
                self.insert_foreground = false;
                self.pos += 1;
                geometry.write_fgbg_image(&mut self.out, mask, self.foreground, self.first_row, 8);
                true
            },
            SPECIAL_WHITE | SPECIAL_BLACK => {
                let pixel: u32 = if code == SPECIAL_WHITE {
                    white_pixel(geometry.bytes_per_pixel)
                } else {
                    0
                };
                self.insert_foreground = false;
                self.pos += 1;
                geometry.emit(&mut self.out, Paint::Solid(pixel), self.first_row);
                true
            },
            _ => match extract_run_length(code, src, self.pos) {
                None => false,
                Some((run, advance)) => {
                    self.pos += advance;
                    self.run_step(geometry, src, code, run, Ghost(old(self).state()))
                },
            },
        }
    }

    /// Runs the order `code` whose operands stand at the current position;
    /// `before` is the state at its header.
    fn run_step(
        &mut self,
        geometry: &RleGeometry,
        src: &[u8],
        code: u32,
        run: usize,
        Ghost(before): Ghost<RleState>,
    ) -> (done: bool)
        requires
            old(self).pos <= src@.len(),
            old(self).state() == (RleState { pos: old(self).pos as int, ..before }),
            run_length(code, src@, before.pos) is Some,
            geometry.can_paint(old(self).out@, old(self).first_row),
        ensures
            final(self).pos <= src@.len(),
            geometry.can_paint(final(self).out@, final(self).first_row),
            done ==> geometry.run_step(src@, before, code, run as nat, old(self).pos as int)
                == RleStep::Next(final(self).state()),
            !done ==> geometry.run_step(src@, before, code, run as nat, old(self).pos as int)
                == RleStep::Fail(final(self).out@),
    {
        let bpp = geometry.bytes_per_pixel;
        if code == REGULAR_BG_RUN || code == MEGA_MEGA_BG_RUN {
            let mut rest = run;
            if self.insert_foreground {
                geometry.emit(&mut self.out, Paint::Foreground(self.foreground), self.first_row);
                if rest > 0 {
                    rest -= 1;
                }
            }
            geometry.fill(&mut self.out, Paint::Background, self.first_row, rest);
            self.insert_foreground = true;
            return true;
        }
        match code {
            LITE_SET_FG_FG_RUN
            | MEGA_MEGA_SET_FG_RUN
            | LITE_SET_FG_FGBG_IMAGE
            | MEGA_MEGA_SET_FGBG_IMAGE => {
                if src.len() - self.pos < bpp {
                    return false;
                }
                self.foreground = read_pixel_value(src, self.pos, bpp);
                self.pos += bpp;
            },
            _ => {},
        }
        self.insert_foreground = false;
        match code {
            REGULAR_FG_RUN | MEGA_MEGA_FG_RUN | LITE_SET_FG_FG_RUN | MEGA_MEGA_SET_FG_RUN => {
                geometry.fill(
                    &mut self.out,
                    Paint::Foreground(self.foreground),
                    self.first_row,
                    run,
                );
                true
            },
            REGULAR_FGBG_IMAGE
            | MEGA_MEGA_FGBG_IMAGE
            | LITE_SET_FG_FGBG_IMAGE
            | MEGA_MEGA_SET_FGBG_IMAGE => {
                match geometry.write_image(
                    src,
                    self.pos,
                    &mut self.out,
                    self.foreground,
                    self.first_row,
                    run,
                ) {
                    Some(end) => {
                        self.pos = end;
                        true
                    },
                    None => false,
                }
            },
            REGULAR_COLOR_IMAGE | MEGA_MEGA_COLOR_IMAGE => {
                self.pos = geometry.copy_pixels(src, self.pos, &mut self.out, run);
                true
            },
            REGULAR_COLOR_RUN | MEGA_MEGA_COLOR_RUN => {
                if src.len() - self.pos < bpp {
                    return false;
                }
                let pixel = read_pixel_value(src, self.pos, bpp);
                self.pos += bpp;
                geometry.fill(&mut self.out, Paint::Solid(pixel), self.first_row, run);
                true
            },
            _ => {
                if src.len() - self.pos < 2 * bpp {
                    return false;
                }
                let a = read_pixel_value(src, self.pos, bpp);
                let b = read_pixel_value(src, self.pos + bpp, bpp);
                self.pos += 2 * bpp;
                geometry.dither(&mut self.out, a, b, run);
                true
            },
        }
    }
}

/// Decodes `src` into a picture of `width` by `height` pixels.
///
/// `work` then holds what was decoded, bottom row first, and zero bytes where
/// nothing was. Where the picture is complete, `flipped` holds it top row
/// first; else `flipped` is left as it was.
pub fn rle_decompress_into(
    src: &[u8],
    width: usize,
    height: usize,
    bytes_per_pixel: usize,
    work: &mut Vec<u8>,
    flipped: &mut Vec<u8>,
) -> (status: RleDecodeStatus)
    requires
        1 <= bytes_per_pixel <= 4,
        width * bytes_per_pixel * height <= usize::MAX,
        width * bytes_per_pixel <= usize::MAX,
    ensures
        ({
            let row = (width * bytes_per_pixel) as usize;
            let size = (row * height) as usize;
            let geometry = RleGeometry { row, size, bytes_per_pixel };
            let (complete, out) = geometry.decoded(src@, rle_start(bytes_per_pixel as nat));
            &&& status == rle_status(complete, out, size as nat)
            &&& out.len() <= size
            &&& final(work)@ == out + zeros((size - out.len()) as nat)
            &&& final(flipped)@ == (if status == RleDecodeStatus::Complete {
                rows_flipped(out, row as nat)
            } else {
                old(flipped)@
            })
        }),
{
    let row = width * bytes_per_pixel;
    let size = row * height;
    let geometry = RleGeometry { row, size, bytes_per_pixel };
    let mut d = RleDecoder {
        pos: 0,
        out: Vec::new(),
        foreground: white_pixel(bytes_per_pixel),
        insert_foreground: false,
        first_row: true,
    };
    std::mem::swap(work, &mut d.out);
    d.out.clear();
    let mut complete = true;
    let ghost whole = geometry.decoded(src@, rle_start(bytes_per_pixel as nat));
    assert(d.state() == rle_start(bytes_per_pixel as nat));
    while complete && d.pos < src.len() && d.out.len() < size
        invariant
            row == width * bytes_per_pixel,
            size == row * height,
            geometry == (RleGeometry { row, size, bytes_per_pixel }),
            geometry.can_paint(d.out@, d.first_row),
            d.pos <= src@.len(),
            complete ==> geometry.decoded(src@, d.state()) == whole,
            !complete ==> whole == (false, d.out@),
        decreases (if complete { src@.len() - d.pos + 1 } else { 0 }),
    {
        if d.first_row && d.out.len() >= row {
            assert(bytes_per_pixel <= row) by (nonlinear_arith)
                requires
                    row == width * bytes_per_pixel,
                    row * height > 0,
            ;
            d.first_row = false;
            d.insert_foreground = false;
        }
        let ghost before = d.state();
        proof {
            geometry.lemma_step_advances(src@, before);
        }
        complete = d.step(&geometry, src);
    }
    let status = if !complete || d.out.len() == 0 {
        RleDecodeStatus::Invalid
    } else if d.out.len() != size {
        RleDecodeStatus::Partial
    } else {
        RleDecodeStatus::Complete
    };
    if status == RleDecodeStatus::Complete {
        flip_rows(d.out.as_slice(), row, height, flipped);
    }
    let missing = size - d.out.len();
    put_zeros(&mut d.out, missing);
    std::mem::swap(work, &mut d.out);
    status
}

/// Stores in `flipped` the `height` rows of `data` in opposite order.
fn flip_rows(data: &[u8], row: usize, height: usize, flipped: &mut Vec<u8>)
    requires
        data@.len() == row * height,
    ensures
        final(flipped)@ == rows_flipped(data@, row as nat),
{
    flipped.clear();
    let mut left = height;
    let mut start = data.len();
    assert(data@.skip(start as int) =~= Seq::<u8>::empty());
    while left > 0 && row > 0
        invariant
            start == row * left,
            start <= data@.len(),
            flipped@ == rows_flipped(data@.skip(start as int), row as nat),
        decreases left,
    {
        proof {
            assert(row * left == row * (left - 1) + row) by (nonlinear_arith)
                requires
                    left > 0,
            ;
        }
        let end = start;
        start -= row;
        left -= 1;
        flipped.extend_from_slice(vstd::slice::slice_subrange(data, start, end));
        proof {
            let rest = data@.skip(start as int);
            assert(rest.skip(row as int) =~= data@.skip(end as int));
            assert(rest.take(row as int) =~= data@.subrange(start as int, end as int));
            assert(flipped@ =~= rows_flipped(rest, row as nat));
        }
    }
    assert(data@.skip(0) =~= data@);
    if row == 0 {
        assert(data@.len() == 0) by (nonlinear_arith)
            requires
                data@.len() == row * height,
                row == 0,
        ;
    } else {
        assert(start == 0) by (nonlinear_arith)
            requires
                start == row * left,
                left == 0,
        ;
    }
}

} // verus!
