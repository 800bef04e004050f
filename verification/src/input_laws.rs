//! What keys and mouse promise, said from the side of the server: what it reads
//! in the packets.

use vstd::prelude::*;

use crate::activation::{data_header, SHARE_ID};
use crate::fields::{numbers_are_written, u16_at, u32_at};
use crate::framing::IO_CHANNEL;
use crate::framing_laws::{carries, messages_are_sent_whole};
use crate::input::{
    button_event, input_data, input_event, key_event, key_stroke, mouse_event, move_event,
    scancode_of, typed, typed_char, typed_line, MouseButton,
};
use crate::wire::{le16, le32};

verus! {

/// Whether `d` begins with the header of a data message: its whole length, what
/// it is, the sender, the number of the session, and the length and the kind of
/// what it says.
pub open spec fn data_headed(d: Seq<u8>, total: int, user: int, length: int, kind: int) -> bool {
    &&& d.len() >= 18
    &&& u16_at(d, 0) == total
    &&& u16_at(d, 2) == 0x17
    &&& u16_at(d, 4) == user
    &&& u32_at(d, 6) == 0x3EA01
    &&& d[10] == 0
    &&& d[11] == 1
    &&& u16_at(d, 12) == length
    &&& d[14] == kind
    &&& d[15] == 0
    &&& u16_at(d, 16) == 0
}

/// The header of a data message is read as it was written.
pub proof fn data_messages_are_headed(
    total: u16,
    user: u16,
    uncompressed: u16,
    kind: u8,
    rest: Seq<u8>,
)
    ensures
        data_header(total, user, uncompressed, kind).len() == 18,
        data_headed(
            data_header(total, user, uncompressed, kind) + rest,
            total as int,
            user as int,
            uncompressed as int,
            kind as int,
        ),
{
    let h = data_header(total, user, uncompressed, kind);
    let s = h + rest;
    numbers_are_written(total, SHARE_ID, 0);
    numbers_are_written(0x17, 0, 0);
    numbers_are_written(user, 0, 0);
    numbers_are_written(uncompressed, 0, 0);
    numbers_are_written(0, 0, 0);
    assert(s[0] == le16(total)[0] && s[1] == le16(total)[1]);
    assert(s[2] == le16(0x17)[0] && s[3] == le16(0x17)[1]);
    assert(s[4] == le16(user)[0] && s[5] == le16(user)[1]);
    assert(s[6] == le32(SHARE_ID)[0] && s[7] == le32(SHARE_ID)[1]);
    assert(s[8] == le32(SHARE_ID)[2] && s[9] == le32(SHARE_ID)[3]);
    assert(s[12] == le16(uncompressed)[0] && s[13] == le16(uncompressed)[1]);
    assert(s[16] == le16(0)[0] && s[17] == le16(0)[1]);
    assert(s[10] == 0 && s[11] == 1);
    assert(s[14] == kind && s[15] == 0);
}

/// Whether `s` is a packet of `user` on the channel of the picture and the input
/// that tells of one event: its kind, and three values.
pub open spec fn tells_event(s: Seq<u8>, user: int, kind: int, a: int, b: int, c: int) -> bool {
    let d = s.skip(14);
    &&& d.len() == 34
    &&& carries(s, user, 1003, d)
    &&& data_headed(d, 34, user, 16, 28)
    &&& u16_at(d, 18) == 1
    &&& u32_at(d, 22) == 0
    &&& u16_at(d, 26) == kind
    &&& u16_at(d, 28) == a
    &&& u16_at(d, 30) == b
    &&& u16_at(d, 32) == c
}

/// An event is told with its kind and its values, each in its place.
pub proof fn events_are_told(user: u16, kind: u16, a: u16, b: u16, c: u16)
    requires
        1001 <= user,
    ensures
        tells_event(
            input_event(user, kind, a, b, c),
            user as int,
            kind as int,
            a as int,
            b as int,
            c as int,
        ),
{
    let d = input_data(user, kind, a, b, c);
    let h = data_header(34, user, 16, 28);
    let rest = le16(1) + le16(0) + le32(0) + le16(kind) + le16(a) + le16(b) + le16(c);
    data_messages_are_headed(34, user, 16, 28, rest);
    assert(d =~= h + rest);
    numbers_are_written(1, 0, 0);
    numbers_are_written(0, 0, 0);
    numbers_are_written(kind, 0, 0);
    numbers_are_written(a, 0, 0);
    numbers_are_written(b, 0, 0);
    numbers_are_written(c, 0, 0);
    assert(d[18] == le16(1)[0] && d[19] == le16(1)[1]);
    assert(d[20] == le16(0)[0] && d[21] == le16(0)[1]);
    assert(d[22] == le32(0)[0] && d[23] == le32(0)[1]);
    assert(d[24] == le32(0)[2] && d[25] == le32(0)[3]);
    assert(d[26] == le16(kind)[0] && d[27] == le16(kind)[1]);
    assert(d[28] == le16(a)[0] && d[29] == le16(a)[1]);
    assert(d[30] == le16(b)[0] && d[31] == le16(b)[1]);
    assert(d[32] == le16(c)[0] && d[33] == le16(c)[1]);
    assert(d.len() == 34);
    messages_are_sent_whole(user, IO_CHANNEL, d);
}

/// A key is told by its scan code; the flag of a release is set exactly where it
/// goes up.
pub proof fn keys_are_told(user: u16, scancode: u16, is_pressed: bool)
    requires
        1001 <= user,
    ensures
        is_pressed ==> tells_event(
            key_event(user, scancode, is_pressed),
            user as int,
            4,
            0,
            scancode as int,
            0,
        ),
        !is_pressed ==> tells_event(
            key_event(user, scancode, is_pressed),
            user as int,
            4,
            0x8000,
            scancode as int,
            0,
        ),
{
    events_are_told(user, 4, 0, scancode, 0);
    events_are_told(user, 4, 0x8000, scancode, 0);
}

/// A key that is struck goes down and then up.
pub proof fn strokes_go_down_and_up(user: u16, scancode: u16)
    requires
        1001 <= user,
    ensures
        ({
            let s = key_stroke(user, scancode);
            &&& s.len() == 96
            &&& tells_event(s.take(48), user as int, 4, 0, scancode as int, 0)
            &&& tells_event(s.skip(48), user as int, 4, 0x8000, scancode as int, 0)
        }),
{
    keys_are_told(user, scancode, true);
    keys_are_told(user, scancode, false);
    let s = key_stroke(user, scancode);
    assert(s.take(48) =~= key_event(user, scancode, true));
    assert(s.skip(48) =~= key_event(user, scancode, false));
}

/// The mouse is told to be where it is, across and then down; a move has the
/// flag of moves alone.
pub proof fn moves_are_told(user: u16, x: u16, y: u16)
    requires
        1001 <= user,
    ensures
        tells_event(move_event(user, x, y), user as int, 0x8001, 0x800, x as int, y as int),
{
    events_are_told(user, 0x8001, 0x800, x, y);
}

/// A mouse event is told with its flags and its place.
pub proof fn mouse_events_are_told(user: u16, flags: u16, x: u16, y: u16)
    requires
        1001 <= user,
    ensures
        tells_event(
            mouse_event(user, flags, x, y),
            user as int,
            0x8001,
            flags as int,
            x as int,
            y as int,
        ),
{
    events_are_told(user, 0x8001, flags, x, y);
}

/// The flags of a mouse event in a packet.
pub open spec fn pointer_flags(s: Seq<u8>) -> int {
    u16_at(s, 42)
}

/// A button is told at its place. The highest flag is set exactly where it is
/// pressed, and the others name the button.
pub proof fn buttons_are_told(user: u16, x: u16, y: u16, button: MouseButton, is_pressed: bool)
    requires
        1001 <= user,
    ensures
        ({
            let s = button_event(user, x, y, button, is_pressed);
            let flags = pointer_flags(s);
            &&& tells_event(s, user as int, 0x8001, flags, x as int, y as int)
            &&& (flags / 0x8000 % 2 == 1) == is_pressed
            &&& button == MouseButton::Left ==> flags % 0x8000 == 0x1000
            &&& button == MouseButton::Right ==> flags % 0x8000 == 0x2000
            &&& button == MouseButton::Middle ==> flags % 0x8000 == 0x4000
        }),
{
    let s = button_event(user, x, y, button, is_pressed);
    let which: u16 = match button {
        MouseButton::Left => 0x1000,
        MouseButton::Right => 0x2000,
        MouseButton::Middle => 0x4000,
    };
    let flags: u16 = if is_pressed { (0x8000 + which) as u16 } else { which };
    events_are_told(user, 0x8001, flags, x, y);
    let d = s.skip(14);
    assert(d[28] == s[42] && d[29] == s[43]);
}

/// Button 1 is the right one and button 2 the middle; every other number is the
/// left.
pub proof fn buttons_are_numbered(n: u8)
    ensures
        MouseButton::numbered(0) == MouseButton::Left,
        MouseButton::numbered(1) == MouseButton::Right,
        MouseButton::numbered(2) == MouseButton::Middle,
        n > 2 ==> MouseButton::numbered(n) == MouseButton::numbered(0),
{
}

// ---- Typing -----------------------------------------------------------------

/// The keys of a row have consecutive scan codes, in the order in which they lie
/// on the keyboard. Each has one character without shift and one with it.
pub proof fn keys_lie_in_rows(i: int)
    ensures
        0 <= i < 12 ==> scancode_of("1234567890-="@[i]) == Some(((2 + i) as u16, false)),
        0 <= i < 12 ==> scancode_of("!@#$%^&*()_+"@[i]) == Some(((2 + i) as u16, true)),
        0 <= i < 12 ==> scancode_of("qwertyuiop[]"@[i]) == Some(((16 + i) as u16, false)),
        0 <= i < 12 ==> scancode_of("QWERTYUIOP{}"@[i]) == Some(((16 + i) as u16, true)),
        0 <= i < 12 ==> scancode_of("asdfghjkl;\'`"@[i]) == Some(((30 + i) as u16, false)),
        0 <= i < 12 ==> scancode_of("ASDFGHJKL:\"~"@[i]) == Some(((30 + i) as u16, true)),
        0 <= i < 11 ==> scancode_of("\\zxcvbnm,./"@[i]) == Some(((43 + i) as u16, false)),
        0 <= i < 11 ==> scancode_of("|ZXCVBNM<>?"@[i]) == Some(((43 + i) as u16, true)),
        scancode_of(' ') == Some((57u16, false)),
{
    reveal_strlit("1234567890-=");
    reveal_strlit("!@#$%^&*()_+");
    reveal_strlit("qwertyuiop[]");
    reveal_strlit("QWERTYUIOP{}");
    reveal_strlit("asdfghjkl;\'`");
    reveal_strlit("ASDFGHJKL:\"~");
    reveal_strlit("\\zxcvbnm,./");
    reveal_strlit("|ZXCVBNM<>?");
}

/// Characters that are no printable ASCII have no key.
pub proof fn other_characters_have_no_key(c: char)
    requires
        (c as u32) < 32 || (c as u32) > 126,
    ensures
        scancode_of(c) is None,
{
}

/// The same strokes type a text at once and in two parts.
pub proof fn text_is_typed_in_order(user: u16, a: Seq<char>, b: Seq<char>)
    ensures
        match (typed(user, a), typed(user, b)) {
            (Some(first), Some(second)) => typed(user, a + b) == Some(first + second),
            _ => typed(user, a + b) is None,
        },
    decreases b.len(),
{
    if b.len() == 0 {
        assert(a + b =~= a);
        if let Some(first) = typed(user, a) {
            assert(first + Seq::<u8>::empty() =~= first);
        }
    } else {
        text_is_typed_in_order(user, a, b.drop_last());
        assert((a + b).drop_last() =~= a + b.drop_last());
        assert((a + b).last() == b.last());
        if let (Some(first), Some(before), Some((key, shift))) = (
            typed(user, a),
            typed(user, b.drop_last()),
            scancode_of(b.last()),
        ) {
            let last = typed_char(user, key, shift);
            assert(first + before + last =~= first + (before + last));
        }
    }
}

/// A character is typed by striking its key. Where it needs shift, that goes down
/// before and up behind; where it does not, shift is not touched.
pub proof fn characters_are_typed(user: u16, c: char, key: u16, shift: bool)
    requires
        scancode_of(c) == Some((key, shift)),
    ensures
        !shift ==> typed(user, seq![c]) == Some(key_stroke(user, key)),
        shift ==> typed(user, seq![c]) == Some(
            key_event(user, 0x2A, true) + key_stroke(user, key) + key_event(user, 0x2A, false),
        ),
{
    let text = seq![c];
    assert(text.drop_last() =~= Seq::<char>::empty());
    let strokes = typed_char(user, key, shift);
    assert(Seq::<u8>::empty() + strokes =~= strokes);
    assert(typed(user, text.drop_last()) == Some(Seq::<u8>::empty()));
    assert(text.last() == c);
    assert(typed(user, text) == Some(Seq::<u8>::empty() + strokes));
}

/// Where enter is wanted, it is struck once, behind the text.
pub proof fn enter_comes_last(user: u16, text: Seq<char>)
    ensures
        typed_line(user, text, false) == typed(user, text),
        match typed(user, text) {
            Some(strokes) => typed_line(user, text, true) == Some(
                strokes + key_stroke(user, 0x1C),
            ),
            None => typed_line(user, text, true) is None,
        },
{
}

} // verus!
