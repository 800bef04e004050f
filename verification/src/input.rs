//! Keys and mouse.

use vstd::prelude::*;

use crate::activation::{data_header, data_message};
use crate::framing::{sent, wrap_mcs_send_data, IO_CHANNEL};
use crate::text::chars_of;
use crate::wire::{le16, le16_at, le32, put_bytes, put_u16, put_u32};

verus! {

broadcast use crate::wire::lemma_empty_add;

/// Scan code of the left shift key.
pub const SHIFT_KEY: u16 = 0x2A;

/// Scan code of the enter key.
pub const ENTER_KEY: u16 = 0x1C;

/// A button of the mouse.
#[derive(Clone, Copy, Debug, PartialEq, Eq, Structural)]
pub enum MouseButton {
    Left,
    Right,
    Middle,
}

impl MouseButton {
    /// The button with number `n`: 1 is the right, 2 the middle, any other the
    /// left.
    pub open spec fn numbered(n: u8) -> MouseButton {
        if n == 1 {
            MouseButton::Right
        } else if n == 2 {
            MouseButton::Middle
        } else {
            MouseButton::Left
        }
    }

    /// The button with number `n`.
    pub fn from_number(n: u8) -> (button: Self)
        ensures
            button == MouseButton::numbered(n),
    {
        match n {
            1 => MouseButton::Right,
            2 => MouseButton::Middle,
            _ => MouseButton::Left,
        }
    }
}

// ---- Events -----------------------------------------------------------------

/// One input event: what it is, and three values.
pub open spec fn input_data(user_channel_id: u16, kind: u16, a: u16, b: u16, c: u16) -> Seq<u8> {
    data_header(34, user_channel_id, 16, 28) + le16(1) + le16(0) + le32(0) + le16(kind) + le16(a)
        + le16(b) + le16(c)
}

/// One input event as it is sent.
pub open spec fn input_event(user_channel_id: u16, kind: u16, a: u16, b: u16, c: u16) -> Seq<u8> {
    sent(user_channel_id, IO_CHANNEL, input_data(user_channel_id, kind, a, b, c))
}

/// The length that an input event states is its length.
pub proof fn input_data_length(user_channel_id: u16, kind: u16, a: u16, b: u16, c: u16)
    ensures
        input_data(user_channel_id, kind, a, b, c).len() == le16_at(
            input_data(user_channel_id, kind, a, b, c),
            0,
        ),
{
    let data = input_data(user_channel_id, kind, a, b, c);
    assert(data[0] == le16(34)[0] && data[1] == le16(34)[1]);
}

fn build_input_event(user_channel_id: u16, kind: u16, a: u16, b: u16, c: u16) -> (pdu: Vec<u8>)
    ensures
        pdu@ == input_event(user_channel_id, kind, a, b, c),
{
    let mut data = data_message(34, user_channel_id, 16, 28);
    put_u16(&mut data, 1);
    put_u16(&mut data, 0);
    put_u32(&mut data, 0);
    put_u16(&mut data, kind);
    put_u16(&mut data, a);
    put_u16(&mut data, b);
    put_u16(&mut data, c);
    wrap_mcs_send_data(user_channel_id, IO_CHANNEL, data.as_slice())
}

// ---- Keys -------------------------------------------------------------------

/// A key goes down or up.
pub open spec fn key_event(user_channel_id: u16, scancode: u16, is_pressed: bool) -> Seq<u8> {
    input_event(
        user_channel_id,
        4,
        if is_pressed {
            0
        } else {
            0x8000
        },
        scancode,
        0,
    )
}

/// A key goes down or up.
pub fn build_keyboard_pdu(user_channel_id: u16, scancode: u16, is_pressed: bool) -> (pdu: Vec<u8>)
    ensures
        pdu@ == key_event(user_channel_id, scancode, is_pressed),
{
    let flags: u16 = if is_pressed {
        0
    } else {
        0x8000
    };
    build_input_event(user_channel_id, 4, flags, scancode, 0)
}

/// A key goes down and up again.
pub open spec fn key_stroke(user_channel_id: u16, scancode: u16) -> Seq<u8> {
    key_event(user_channel_id, scancode, true) + key_event(user_channel_id, scancode, false)
}

fn put_key_stroke(out: &mut Vec<u8>, user_channel_id: u16, scancode: u16)
    ensures
        final(out)@ == old(out)@ + key_stroke(user_channel_id, scancode),
{
    let down = build_keyboard_pdu(user_channel_id, scancode, true);
    put_bytes(out, down.as_slice());
    let up = build_keyboard_pdu(user_channel_id, scancode, false);
    put_bytes(out, up.as_slice());
    assert(out@ =~= old(out)@ + key_stroke(user_channel_id, scancode));
}

/// Shift goes down and up again, which wakes the remote desktop.
pub fn build_shift_pulse(user_channel_id: u16) -> (pdus: Vec<u8>)
    ensures
        pdus@ == key_stroke(user_channel_id, SHIFT_KEY),
{
    let mut pdus: Vec<u8> = Vec::new();
    put_key_stroke(&mut pdus, user_channel_id, SHIFT_KEY);
    pdus
}

/// The key of a character, and whether shift is held, on a keyboard with the
/// layout of the United States.
pub open spec fn scancode_of(c: char) -> Option<(u16, bool)> {
    match c {
        '!' => Some((0x02, true)),
        '@' => Some((0x03, true)),
        '#' => Some((0x04, true)),
        '$' => Some((0x05, true)),
        '%' => Some((0x06, true)),
        '^' => Some((0x07, true)),
        '&' => Some((0x08, true)),
        '*' => Some((0x09, true)),
        '(' => Some((0x0A, true)),
        ')' => Some((0x0B, true)),
        '_' => Some((0x0C, true)),
        '+' => Some((0x0D, true)),
        '{' => Some((0x1A, true)),
        '}' => Some((0x1B, true)),
        '|' => Some((0x2B, true)),
        ':' => Some((0x27, true)),
        '"' => Some((0x28, true)),
        '~' => Some((0x29, true)),
        '<' => Some((0x33, true)),
        '>' => Some((0x34, true)),
        '?' => Some((0x35, true)),
        '1' => Some((0x02, false)),
        '2' => Some((0x03, false)),
        '3' => Some((0x04, false)),
        '4' => Some((0x05, false)),
        '5' => Some((0x06, false)),
        '6' => Some((0x07, false)),
        '7' => Some((0x08, false)),
        '8' => Some((0x09, false)),
        '9' => Some((0x0A, false)),
        '0' => Some((0x0B, false)),
        '-' => Some((0x0C, false)),
        '=' => Some((0x0D, false)),
        '[' => Some((0x1A, false)),
        ']' => Some((0x1B, false)),
        ';' => Some((0x27, false)),
        '\'' => Some((0x28, false)),
        '`' => Some((0x29, false)),
        '\\' => Some((0x2B, false)),
        ',' => Some((0x33, false)),
        '.' => Some((0x34, false)),
        '/' => Some((0x35, false)),
        ' ' => Some((0x39, false)),
        _ => match letter_key(c) {
            Some(key) => Some((key, false)),
            None => if 'A' <= c && c <= 'Z' {
                match letter_key(((c as u32 + 32) as u32) as char) {
                    Some(key) => Some((key, true)),
                    None => None,
                }
            } else {
                None
            },
        },
    }
}

/// The key of a lower-case letter.
pub open spec fn letter_key(c: char) -> Option<u16> {
    match c {
        'q' => Some(0x10),
        'w' => Some(0x11),
        'e' => Some(0x12),
        'r' => Some(0x13),
        't' => Some(0x14),
        'y' => Some(0x15),
        'u' => Some(0x16),
        'i' => Some(0x17),
        'o' => Some(0x18),
        'p' => Some(0x19),
        'a' => Some(0x1E),
        's' => Some(0x1F),
        'd' => Some(0x20),
        'f' => Some(0x21),
        'g' => Some(0x22),
        'h' => Some(0x23),
        'j' => Some(0x24),
        'k' => Some(0x25),
        'l' => Some(0x26),
        'z' => Some(0x2C),
        'x' => Some(0x2D),
        'c' => Some(0x2E),
        'v' => Some(0x2F),
        'b' => Some(0x30),
        'n' => Some(0x31),
        'm' => Some(0x32),
        _ => None,
    }
}

fn letter_scancode(c: char) -> (res: Option<u16>)
    ensures
        res == letter_key(c),
{
    match c {
        'q' => Some(0x10),
        'w' => Some(0x11),
        'e' => Some(0x12),
        'r' => Some(0x13),
        't' => Some(0x14),
        'y' => Some(0x15),
        'u' => Some(0x16),
        'i' => Some(0x17),
        'o' => Some(0x18),
        'p' => Some(0x19),
        'a' => Some(0x1E),
        's' => Some(0x1F),
        'd' => Some(0x20),
        'f' => Some(0x21),
        'g' => Some(0x22),
        'h' => Some(0x23),
        'j' => Some(0x24),
        'k' => Some(0x25),
        'l' => Some(0x26),
        'z' => Some(0x2C),
        'x' => Some(0x2D),
        'c' => Some(0x2E),
        'v' => Some(0x2F),
        'b' => Some(0x30),
        'n' => Some(0x31),
        'm' => Some(0x32),
        _ => None,
    }
}

/// The key of a character, and whether shift is held.
pub fn ascii_scancode(character: char) -> (res: Option<(u16, bool)>)
    ensures
        res == scancode_of(character),
{
    if 'A' <= character && character <= 'Z' {
        let small = (character as u8 + 32) as char;
        return match letter_scancode(small) {
            Some(key) => Some((key, true)),
            None => None,
        };
    }
    if let Some(key) = letter_scancode(character) {
        return Some((key, false));
    }
    match character {
        '!' => Some((0x02, true)),
        '@' => Some((0x03, true)),
        '#' => Some((0x04, true)),
        '$' => Some((0x05, true)),
        '%' => Some((0x06, true)),
        '^' => Some((0x07, true)),
        '&' => Some((0x08, true)),
        '*' => Some((0x09, true)),
        '(' => Some((0x0A, true)),
        ')' => Some((0x0B, true)),
        '_' => Some((0x0C, true)),
        '+' => Some((0x0D, true)),
        '{' => Some((0x1A, true)),
        '}' => Some((0x1B, true)),
        '|' => Some((0x2B, true)),
        ':' => Some((0x27, true)),
        '"' => Some((0x28, true)),
        '~' => Some((0x29, true)),
        '<' => Some((0x33, true)),
        '>' => Some((0x34, true)),
        '?' => Some((0x35, true)),
        '1' => Some((0x02, false)),
        '2' => Some((0x03, false)),
        '3' => Some((0x04, false)),
        '4' => Some((0x05, false)),
        '5' => Some((0x06, false)),
        '6' => Some((0x07, false)),
        '7' => Some((0x08, false)),
        '8' => Some((0x09, false)),
        '9' => Some((0x0A, false)),
        '0' => Some((0x0B, false)),
        '-' => Some((0x0C, false)),
        '=' => Some((0x0D, false)),
        '[' => Some((0x1A, false)),
        ']' => Some((0x1B, false)),
        ';' => Some((0x27, false)),
        '\'' => Some((0x28, false)),
        '`' => Some((0x29, false)),
        '\\' => Some((0x2B, false)),
        ',' => Some((0x33, false)),
        '.' => Some((0x34, false)),
        '/' => Some((0x35, false)),
        ' ' => Some((0x39, false)),
        _ => None,
    }
}

/// The strokes that type `c`: shift, where it is needed, is held around the key.
pub open spec fn typed_char(user_channel_id: u16, key: u16, shift: bool) -> Seq<u8> {
    if shift {
        key_event(user_channel_id, SHIFT_KEY, true) + key_stroke(user_channel_id, key) + key_event(
            user_channel_id,
            SHIFT_KEY,
            false,
        )
    } else {
        key_stroke(user_channel_id, key)
    }
}

/// The strokes that type `text`; none where it has a character without a key.
pub open spec fn typed(user_channel_id: u16, text: Seq<char>) -> Option<Seq<u8>>
    decreases text.len(),
{
    if text.len() == 0 {
        Some(Seq::empty())
    } else {
        match (typed(user_channel_id, text.drop_last()), scancode_of(text.last())) {
            (Some(before), Some((key, shift))) => Some(
                before + typed_char(user_channel_id, key, shift),
            ),
            _ => None,
        }
    }
}

/// The strokes that type `text`, and then press enter where that is wanted.
pub open spec fn typed_line(user_channel_id: u16, text: Seq<char>, press_enter: bool) -> Option<
    Seq<u8>,
> {
    match typed(user_channel_id, text) {
        Some(strokes) => Some(
            if press_enter {
                strokes + key_stroke(user_channel_id, ENTER_KEY)
            } else {
                strokes
            },
        ),
        None => None,
    }
}

/// Text can be typed where every character has a key, and only there.
pub proof fn typed_where_keys_exist(user_channel_id: u16, text: Seq<char>)
    ensures
        (typed(user_channel_id, text) is Some) == (forall|i: int|
            0 <= i < text.len() ==> scancode_of(#[trigger] text[i]) is Some),
    decreases text.len(),
{
    if text.len() > 0 {
        let rest = text.drop_last();
        typed_where_keys_exist(user_channel_id, rest);
        if typed(user_channel_id, text) is Some {
            assert forall|i: int| 0 <= i < text.len() implies scancode_of(
                #[trigger] text[i],
            ) is Some by {
                if i < rest.len() {
                    assert(scancode_of(rest[i]) is Some);
                }
            }
        } else if forall|i: int| 0 <= i < text.len() ==> scancode_of(#[trigger] text[i]) is Some {
            assert(scancode_of(text[text.len() - 1]) is Some);
            assert forall|i: int| 0 <= i < rest.len() implies scancode_of(
                #[trigger] rest[i],
            ) is Some by {
                assert(scancode_of(text[i]) is Some);
            }
        }
    }
}

/// The strokes that type `text`, and then press enter where that is wanted.
pub fn build_text_input_pdus(user_channel_id: u16, text: &str, press_enter: bool) -> (res: Option<
    Vec<u8>,
>)
    ensures
        match res {
            Some(pdus) => typed_line(user_channel_id, text@, press_enter) == Some(pdus@),
            None => typed_line(user_channel_id, text@, press_enter) is None,
        },
{
    let chars = chars_of(text);
    let mut pdus: Vec<u8> = Vec::new();
    let mut i: usize = 0;
    assert(text@.take(0) =~= Seq::<char>::empty());
    while i < chars.len()
        invariant
            chars@ == text@,
            i <= chars@.len(),
            typed(user_channel_id, text@.take(i as int)) == Some(pdus@),
        decreases chars@.len() - i,
    {
        proof {
            assert(text@.take(i + 1).drop_last() =~= text@.take(i as int));
        }
        match ascii_scancode(chars[i]) {
            None => {
                proof {
                    typed_where_keys_exist(user_channel_id, text@);
                    assert(scancode_of(text@[i as int]) is None);
                }
                return None;
            },
            Some((key, shift)) => {
                let ghost before = pdus@;
                if shift {
                    let down = build_keyboard_pdu(user_channel_id, SHIFT_KEY, true);
                    put_bytes(&mut pdus, down.as_slice());
                    put_key_stroke(&mut pdus, user_channel_id, key);
                    let up = build_keyboard_pdu(user_channel_id, SHIFT_KEY, false);
                    put_bytes(&mut pdus, up.as_slice());
                } else {
                    put_key_stroke(&mut pdus, user_channel_id, key);
                }
                assert(pdus@ =~= before + typed_char(user_channel_id, key, shift));
            },
        }
        i += 1;
    }
    assert(text@.take(i as int) =~= text@);
    if press_enter {
        put_key_stroke(&mut pdus, user_channel_id, ENTER_KEY);
    }
    Some(pdus)
}

// ---- Mouse ------------------------------------------------------------------

/// Flags of a button that goes down or up.
pub open spec fn button_flags(button: MouseButton, is_pressed: bool) -> u16 {
    let which: u16 = match button {
        MouseButton::Left => 0x1000,
        MouseButton::Right => 0x2000,
        MouseButton::Middle => 0x4000,
    };
    if is_pressed {
        (0x8000 + which) as u16
    } else {
        which
    }
}

/// A mouse event at a place.
pub open spec fn mouse_event(user_channel_id: u16, pointer_flags: u16, x: u16, y: u16) -> Seq<u8> {
    input_event(user_channel_id, 0x8001, pointer_flags, x, y)
}

/// The mouse moves.
pub open spec fn move_event(user_channel_id: u16, x: u16, y: u16) -> Seq<u8> {
    mouse_event(user_channel_id, 0x800, x, y)
}

/// A button of the mouse goes down or up.
pub open spec fn button_event(
    user_channel_id: u16,
    x: u16,
    y: u16,
    button: MouseButton,
    is_pressed: bool,
) -> Seq<u8> {
    mouse_event(user_channel_id, button_flags(button, is_pressed), x, y)
}

/// A mouse event at a place.
pub fn build_mouse_event_pdu(user_channel_id: u16, pointer_flags: u16, x: u16, y: u16) -> (pdu: Vec<
    u8,
>)
    ensures
        pdu@ == mouse_event(user_channel_id, pointer_flags, x, y),
{
    build_input_event(user_channel_id, 0x8001, pointer_flags, x, y)
}

/// The mouse moves.
pub fn build_mouse_move_pdu(user_channel_id: u16, x: u16, y: u16) -> (pdu: Vec<u8>)
    ensures
        pdu@ == move_event(user_channel_id, x, y),
{
    build_mouse_event_pdu(user_channel_id, 0x800, x, y)
}

/// A button of the mouse goes down or up.
pub fn build_mouse_button_pdu(
    user_channel_id: u16,
    x: u16,
    y: u16,
    button: MouseButton,
    is_pressed: bool,
) -> (pdu: Vec<u8>)
    ensures
        pdu@ == button_event(user_channel_id, x, y, button, is_pressed),
{
    let which: u16 = match button {
        MouseButton::Left => 0x1000,
        MouseButton::Right => 0x2000,
        MouseButton::Middle => 0x4000,
    };
    let flags = if is_pressed {
        0x8000 + which
    } else {
        which
    };
    build_mouse_event_pdu(user_channel_id, flags, x, y)
}

} // verus!
