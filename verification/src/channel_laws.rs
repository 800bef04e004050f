//! What virtual channels and the clipboard promise, said from the side of the
//! server.

use vstd::prelude::*;
use vstd::utf8::encode_utf8;

use crate::channel::{channel_packets, chunk, chunk_count, lemma_chunk, ChunksView};
use crate::clipboard::{
    before_zero, capability_data, clip_message, clip_packets, decoded_text, encoded_text, name_end,
    offered_formats, preferred_from, ClipboardView,
};
use crate::encoding::{unit_bytes, unit_bytes_round_trip, utf16_bytes};
use crate::fields::{
    four_bytes, lemma_four_at, lemma_two_at, lemma_written, numbers_are_read, two_bytes, u16_at,
    u32_at,
};
use crate::framing_laws::{carries, messages_are_sent_whole};
use crate::wire::le16;

verus! {

// ---- Chunks -----------------------------------------------------------------

/// A message is cut into as many chunks of 1600 bytes as it fills or begins.
pub proof fn chunks_are_as_few_as_can_be(n: nat)
    ensures
        1600 * (chunk_count(n) - 1) < n <= 1600 * chunk_count(n) || (n == 0 && chunk_count(n) == 0),
{
}

/// Each chunk tells the length of the whole message, whether it is the first and
/// whether it is the last, and carries its part of the message: chunk `i` what
/// begins with byte `1600 * i`, and no chunk more than 1600 bytes.
pub proof fn chunks_carry_the_message(message: Seq<u8>, i: int)
    requires
        message.len() < 0x1_0000_0000,
        0 <= i < chunk_count(message.len()),
    ensures
        ({
            let c = chunk(message, i);
            let last = i + 1 == chunk_count(message.len());
            let end = if last { message.len() as int } else { 1600 * (i + 1) };
            &&& c.len() >= 8
            &&& u32_at(c, 0) == message.len()
            &&& u32_at(c, 4) == (if i == 0 { 1int } else { 0 }) + (if last { 2int } else { 0 })
            &&& c.skip(8) == message.subrange(1600 * i, end)
            &&& end - 1600 * i <= 1600
        }),
{
    lemma_chunk(message, i);
    chunks_are_as_few_as_can_be(message.len());
    numbers_are_read(chunk(message, i), 0);
    numbers_are_read(chunk(message, i), 4);
}

/// A message on a channel is sent in its chunks, in order, each to that channel.
pub proof fn chunks_are_sent_in_order(user: u16, channel: u16, message: Seq<u8>, i: int)
    requires
        1001 <= user,
        message.len() < 0x1_0000_0000,
        0 <= i < chunk_count(message.len()),
    ensures
        channel_packets(user, channel, message).len() == chunk_count(message.len()),
        carries(
            channel_packets(user, channel, message)[i],
            user as int,
            channel as int,
            chunk(message, i),
        ),
{
    chunks_carry_the_message(message, i);
    assert(chunk(message, i).len() == 8 + chunk(message, i).skip(8).len());
    messages_are_sent_whole(user, channel, chunk(message, i));
}

/// A chunk as the server writes it.
pub open spec fn sent_chunk(total: u32, flags: u32, part: Seq<u8>) -> Seq<u8> {
    four_bytes(total) + four_bytes(flags) + part
}

/// A first chunk begins a message anew, others go on with it; with the last the
/// message is complete, cut to the length that was told, and nothing is kept.
pub proof fn chunks_are_put_together(state: ChunksView, total: u32, flags: u32, part: Seq<u8>)
    ensures
        ({
            let (next, message) = state.received(sent_chunk(total, flags, part));
            let first = flags % 2 == 1;
            let last = flags / 2 % 2 == 1;
            let data = if first { part } else { state.data + part };
            let length = if first { total as nat } else { state.total };
            &&& !last ==> message is None && next.data == data && next.total == length
            &&& last ==> next.data.len() == 0 && next.total == 0 && message == Some(
                if length < data.len() {
                    data.take(length as int)
                } else {
                    data
                },
            )
        }),
        part.len() < 8 ==> state.received(part) == (state, None::<Seq<u8>>),
{
    let c = sent_chunk(total, flags, part);
    assert(c.subrange(0, 4) =~= four_bytes(total));
    lemma_four_at(c, 0, total);
    assert(c.subrange(4, 8) =~= four_bytes(flags));
    lemma_four_at(c, 4, flags);
    assert(c.skip(8) =~= part);
    assert(Seq::<u8>::empty() + part =~= part);
}

// ---- Clipboard messages -----------------------------------------------------

/// A message about the clipboard tells its kind, its flags and its length.
pub proof fn clipboard_messages_are_told(kind: u16, flags: u16, data: Seq<u8>)
    requires
        data.len() < 0x1_0000_0000,
    ensures
        ({
            let s = clip_message(kind, flags, data);
            &&& u16_at(s, 0) == kind
            &&& u16_at(s, 2) == flags
            &&& u32_at(s, 4) == data.len()
            &&& s.skip(8) == data
        }),
{
    let s = clip_message(kind, flags, data);
    let n = data.len() as u32;
    lemma_written(kind, n, 0);
    lemma_written(flags, 0, 0);
    assert(s.subrange(0, 2) =~= two_bytes(kind));
    lemma_two_at(s, 0, kind);
    assert(s.subrange(2, 4) =~= two_bytes(flags));
    lemma_two_at(s, 2, flags);
    assert(s.subrange(4, 8) =~= four_bytes(n));
    lemma_four_at(s, 4, n);
    assert(s.skip(8) =~= data);
}

/// The client tells that it knows one set of abilities, of version two with long
/// names of formats, and offers text in units of two bytes.
pub proof fn clipboard_abilities_are_told()
    ensures
        ({
            let s = capability_data();
            &&& s.len() == 16
            &&& u16_at(s, 0) == 1
            &&& u16_at(s, 4) == 1
            &&& u16_at(s, 6) == 12
            &&& u32_at(s, 8) == 2
            &&& u32_at(s, 12) == 2
        }),
        offered_formats() == seq![13u8, 0, 0, 0, 0, 0],
{
    let s = capability_data();
    lemma_written(1, 2, 0);
    lemma_written(12, 0, 0);
    assert(s.subrange(0, 2) =~= two_bytes(1));
    lemma_two_at(s, 0, 1);
    assert(s.subrange(4, 6) =~= two_bytes(1));
    lemma_two_at(s, 4, 1);
    assert(s.subrange(6, 8) =~= two_bytes(12));
    lemma_two_at(s, 6, 12);
    assert(s.subrange(8, 12) =~= four_bytes(2));
    lemma_four_at(s, 8, 2);
    assert(s.subrange(12, 16) =~= four_bytes(2));
    lemma_four_at(s, 12, 2);
    assert(offered_formats() =~= seq![13u8, 0, 0, 0, 0, 0]);
}

/// Text is handed out in two formats: 13 is units of two bytes and 1 is bytes,
/// each ended by a zero. Other formats are not known.
pub proof fn text_is_handed_out(text: Seq<char>, format: u32)
    ensures
        format == 13 ==> encoded_text(text, format) == Some(utf16_bytes(text) + seq![0u8, 0]),
        format == 1 ==> encoded_text(text, format) == Some(encode_utf8(text) + seq![0u8]),
        format != 13 && format != 1 ==> encoded_text(text, format) is None,
        format != 13 && format != 1 ==> decoded_text(encode_utf8(text), format) is None,
{
    assert(le16(0) =~= seq![0u8, 0]);
}

/// What stands before the first zero byte holds none, and a zero or nothing
/// follows.
pub proof fn zero_bytes_end_text(data: Seq<u8>)
    ensures
        ({
            let text = before_zero(data);
            &&& text.len() <= data.len()
            &&& text == data.take(text.len() as int)
            &&& text.len() < data.len() ==> data[text.len() as int] == 0
            &&& forall|i: int| 0 <= i < text.len() ==> #[trigger] text[i] != 0
        }),
    decreases data.len(),
{
    let text = before_zero(data);
    if data.len() > 0 && data[0] != 0 {
        let rest = data.skip(1);
        zero_bytes_end_text(rest);
        let inner = before_zero(rest);
        assert(text == seq![data[0]] + inner);
        assert forall|i: int| 0 <= i < text.len() implies text[i] == data[i] && #[trigger] text[i]
            != 0 by {
            if i > 0 {
                assert(inner[i - 1] == rest.take(inner.len() as int)[i - 1]);
            }
        }
        assert(text =~= data.take(text.len() as int));
    } else {
        assert(text =~= data.take(0));
    }
}

/// A format as the server lists it: its number, and its name ended by a zero.
pub open spec fn listed_format(id: u32, name: Seq<u16>) -> Seq<u8> {
    four_bytes(id) + unit_bytes(name) + seq![0u8, 0]
}

/// All formats of a list.
pub open spec fn listed_formats(formats: Seq<(u32, Seq<u16>)>) -> Seq<u8>
    decreases formats.len(),
{
    if formats.len() == 0 {
        Seq::empty()
    } else {
        listed_format(formats[0].0, formats[0].1) + listed_formats(formats.skip(1))
    }
}

proof fn lemma_name_end_at(data: Seq<u8>, at: int, name: Seq<u16>)
    requires
        0 <= at,
        at + 2 * name.len() + 2 <= data.len(),
        data.subrange(at, at + 2 * name.len()) == unit_bytes(name),
        data[at + 2 * name.len()] == 0,
        data[at + 2 * name.len() + 1] == 0,
        forall|i: int| 0 <= i < name.len() ==> #[trigger] name[i] != 0,
    ensures
        name_end(data, at) == at + 2 * name.len() + 2,
    decreases name.len(),
{
    if name.len() > 0 {
        unit_bytes_round_trip(name);
        let part = data.subrange(at, at + 2 * name.len());
        crate::encoding::units_take_two_bytes(name, 0);
        assert(part[0] == data[at] && part[1] == data[at + 1]);
        assert(name[0] != 0);
        let rest = name.skip(1);
        unit_bytes_round_trip(rest);
        let behind = data.subrange(at + 2, at + 2 + 2 * rest.len());
        assert(behind =~= unit_bytes(rest)) by {
            assert forall|k: int| 0 <= k < 2 * rest.len() implies #[trigger] behind[k]
                == unit_bytes(rest)[k] by {
                let i = k / 2;
                assert(behind[k] == data[at + 2 + k]);
                crate::encoding::units_take_two_bytes(rest, i);
                crate::encoding::units_take_two_bytes(name, i + 1);
                assert(part[2 * (i + 1)] == data[at + 2 * (i + 1)]);
                assert(part[2 * (i + 1) + 1] == data[at + 2 * (i + 1) + 1]);
                assert(rest[i] == name[i + 1]);
            }
        }
        assert forall|i: int| 0 <= i < rest.len() implies #[trigger] rest[i] != 0 by {
            assert(rest[i] == name[i + 1]);
        }
        lemma_name_end_at(data, at + 2, rest);
    }
}

/// Of the formats that the server lists, 13 is asked for where it is there, else
/// 1 where that is, else none.
pub proof fn best_format_is_chosen(
    before: Seq<u8>,
    formats: Seq<(u32, Seq<u16>)>,
    fallback: Option<u32>,
)
    requires
        forall|i: int, k: int|
            0 <= i < formats.len() && 0 <= k < formats[i].1.len() ==> #[trigger] formats[i].1[k]
                != 0,
    ensures
        preferred_from(before + listed_formats(formats), before.len() as int, fallback) == (
        if exists|i: int| 0 <= i < formats.len() && (#[trigger] formats[i]).0 == 13 {
            Some(13u32)
        } else if exists|i: int| 0 <= i < formats.len() && (#[trigger] formats[i]).0 == 1 {
            Some(1u32)
        } else {
            fallback
        }),
    decreases formats.len(),
{
    let data = before + listed_formats(formats);
    let at = before.len() as int;
    if formats.len() > 0 {
        let (id, name) = formats[0];
        let rest = formats.skip(1);
        let one = listed_format(id, name);
        let next = before + one;
        unit_bytes_round_trip(name);
        assert(data =~= next + listed_formats(rest));
        assert(data.subrange(at, at + 4) =~= four_bytes(id));
        lemma_four_at(data, at, id);
        assert(data.subrange(at + 4, at + 4 + 2 * name.len()) =~= unit_bytes(name));
        let end = at + 4 + 2 * name.len();
        assert(data[end] == 0 && data[end + 1] == 0);
        assert forall|k: int| 0 <= k < name.len() implies #[trigger] name[k] != 0 by {
            assert(formats[0].1[k] != 0);
        }
        lemma_name_end_at(data, at + 4, name);
        assert(next.len() == end + 2);
        let later = if id == 1 { Some(id) } else { fallback };
        assert forall|i: int, k: int|
            0 <= i < rest.len() && 0 <= k < rest[i].1.len() implies #[trigger] rest[i].1[k]
            != 0 by {
            assert(formats[i + 1].1[k] != 0);
        }
        best_format_is_chosen(next, rest, later);
        assert forall|i: int| 0 <= i < rest.len() implies #[trigger] rest[i] == formats[i + 1] by {}
        if exists|i: int| 0 <= i < formats.len() && (#[trigger] formats[i]).0 == 13 {
            let i = choose|i: int| 0 <= i < formats.len() && (#[trigger] formats[i]).0 == 13;
            if i > 0 {
                assert(rest[i - 1].0 == 13);
            }
        }
        if exists|i: int| 0 <= i < formats.len() && (#[trigger] formats[i]).0 == 1 {
            let i = choose|i: int| 0 <= i < formats.len() && (#[trigger] formats[i]).0 == 1;
            if i > 0 {
                assert(rest[i - 1].0 == 1);
            }
        }
        if exists|i: int| 0 <= i < rest.len() && (#[trigger] rest[i]).0 == 13 {
            let i = choose|i: int| 0 <= i < rest.len() && (#[trigger] rest[i]).0 == 13;
            assert(formats[i + 1].0 == 13);
        }
        if exists|i: int| 0 <= i < rest.len() && (#[trigger] rest[i]).0 == 1 {
            let i = choose|i: int| 0 <= i < rest.len() && (#[trigger] rest[i]).0 == 1;
            assert(formats[i + 1].0 == 1);
        }
        if id == 13 || id == 1 {
            assert(formats[0].0 == id);
        }
    }
}

/// A message of the server about the clipboard.
pub open spec fn told_message(kind: u16, flags: u16, data: Seq<u8>) -> Seq<u8> {
    two_bytes(kind) + two_bytes(flags) + four_bytes(data.len() as u32) + data
}

/// A message is obeyed by its kind, its flags and its data; one that is cut short
/// is not.
pub proof fn clipboard_messages_are_read(
    state: ClipboardView,
    user: u16,
    channel: u16,
    kind: u16,
    flags: u16,
    data: Seq<u8>,
    rest: Seq<u8>,
    cut: int,
)
    requires
        data.len() < 0x1_0000_0000,
        0 <= cut < 8 + data.len(),
    ensures
        state.message_handled(user, channel, told_message(kind, flags, data) + rest)
            == state.handled(user, channel, kind, flags, data),
        state.message_handled(user, channel, told_message(kind, flags, data).take(cut))
            == state.quiet(),
        state.quiet().state == state,
        state.quiet().responses.len() == 0,
        state.quiet().remote_text is None,
{
    let n = data.len() as u32;
    let whole = told_message(kind, flags, data);
    let s = whole + rest;
    assert(s.subrange(0, 2) =~= two_bytes(kind));
    lemma_two_at(s, 0, kind);
    assert(s.subrange(2, 4) =~= two_bytes(flags));
    lemma_two_at(s, 2, flags);
    assert(s.subrange(4, 8) =~= four_bytes(n));
    lemma_four_at(s, 4, n);
    assert(s.subrange(8, 8 + n) =~= data);
    let t = whole.take(cut);
    if cut >= 8 {
        assert(t.subrange(4, 8) =~= four_bytes(n));
        lemma_four_at(t, 4, n);
    }
}

/// Once the server is ready it is told what the client can do and what it offers.
pub proof fn ready_servers_are_offered_text(
    state: ClipboardView,
    user: u16,
    channel: u16,
    flags: u16,
    data: Seq<u8>,
)
    ensures
        ({
            let outcome = state.handled(user, channel, 1, flags, data);
            &&& outcome.state == state
            &&& outcome.remote_text is None
            &&& outcome.responses == clip_packets(user, channel, 7, 0, capability_data())
                + clip_packets(user, channel, 2, 0, offered_formats())
        }),
{
}

/// A list of formats is accepted, and the best of them is asked for and awaited.
pub proof fn offers_are_accepted(
    state: ClipboardView,
    user: u16,
    channel: u16,
    flags: u16,
    data: Seq<u8>,
)
    ensures
        ({
            let outcome = state.handled(user, channel, 2, flags, data);
            let accepted = clip_packets(user, channel, 3, 1, Seq::empty());
            &&& outcome.remote_text is None
            &&& match preferred_from(data, 0, None) {
                Some(format) => {
                    &&& outcome.responses == accepted + clip_packets(
                        user,
                        channel,
                        4,
                        0,
                        four_bytes(format),
                    )
                    &&& outcome.state == (ClipboardView {
                        pending_remote_format: Some(format),
                        ..state
                    })
                },
                None => outcome.responses == accepted && outcome.state == state,
            }
        }),
{
    if let Some(format) = preferred_from(data, 0, None) {
        lemma_written(0, format, 0);
    }
}

/// A request for the text is answered with it in the format that is asked for, or
/// with a failure where that is not known.
pub proof fn text_is_sent_on_request(
    state: ClipboardView,
    user: u16,
    channel: u16,
    flags: u16,
    format: u32,
    rest: Seq<u8>,
)
    ensures
        ({
            let outcome = state.handled(user, channel, 4, flags, four_bytes(format) + rest);
            &&& outcome.state == state
            &&& outcome.remote_text is None
            &&& outcome.responses == (match encoded_text(state.local_text, format) {
                Some(data) => clip_packets(user, channel, 5, 1, data),
                None => clip_packets(user, channel, 5, 2, Seq::empty()),
            })
        }),
{
    let data = four_bytes(format) + rest;
    assert(data.subrange(0, 4) =~= four_bytes(format));
    lemma_four_at(data, 0, format);
}

/// Text that comes is taken where it was awaited and did not fail, in the format
/// that was asked for, and once.
pub proof fn awaited_text_is_taken(
    state: ClipboardView,
    user: u16,
    channel: u16,
    flags: u16,
    data: Seq<u8>,
)
    ensures
        ({
            let outcome = state.handled(user, channel, 5, flags, data);
            &&& outcome.responses.len() == 0
            &&& if flags % 2 == 1 && state.pending_remote_format is Some {
                &&& outcome.remote_text == decoded_text(data, state.pending_remote_format->0)
                &&& outcome.state == (ClipboardView { pending_remote_format: None, ..state })
            } else {
                outcome.remote_text is None && outcome.state == state
            }
        }),
{
}

/// Messages of other kinds do nothing.
pub proof fn other_messages_do_nothing(
    state: ClipboardView,
    user: u16,
    channel: u16,
    kind: u16,
    flags: u16,
    data: Seq<u8>,
)
    requires
        kind != 1 && kind != 2 && kind != 4 && kind != 5,
    ensures
        state.handled(user, channel, kind, flags, data) == state.quiet(),
{
}

} // verus!
