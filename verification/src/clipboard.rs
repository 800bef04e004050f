//! The clipboard channel.

use vstd::prelude::*;
use vstd::utf8::encode_utf8;

use crate::channel::{
    after_chunks, build_static_channel_message_pdus, channel_packets, chunk, chunk_count,
    chunks_reassemble, lemma_chunk, ChunksView,
};
use crate::encoding::{
    byte_units, decode_utf16, decode_utf8_lossy, encode_utf16_bytes, lemma_until_zero,
    lemma_utf16_nonzero, lemma_utf8_nonzero, unit_bytes, unit_bytes_round_trip, units_until_zero,
    until_zero, utf16, utf16_bytes, utf16_round_trip, utf16_text, utf8_round_trip, utf8_text,
};
use crate::framing::{
    channel_message, server_mcs_payload, server_message_arrives, server_packet,
};
use crate::profile::text_view;
use crate::wire::{
    all_bytes, append_messages, le16, le16_at, le32, le32_at, put_bytes, put_u16, put_u32, put_u8,
};

verus! {

broadcast use crate::wire::lemma_empty_add;

/// The server is ready.
pub const CB_MONITOR_READY: u16 = 1;

/// Formats in which text is offered.
pub const CB_FORMAT_LIST: u16 = 2;

/// Answer to such an offer.
pub const CB_FORMAT_LIST_RESPONSE: u16 = 3;

/// Request for text in a format.
pub const CB_FORMAT_DATA_REQUEST: u16 = 4;

/// Answer to such a request.
pub const CB_FORMAT_DATA_RESPONSE: u16 = 5;

/// What the sender can do.
pub const CB_CLIP_CAPS: u16 = 7;

pub const CB_RESPONSE_OK: u16 = 1;

pub const CB_RESPONSE_FAIL: u16 = 2;

/// Plain text.
pub const CF_TEXT: u32 = 1;

/// Text in UTF-16.
pub const CF_UNICODETEXT: u32 = 13;

/// Tells that text was copied on the remote desktop.
#[derive(Clone, Debug)]
pub struct RdpClipboardEvent {
    pub session_id: String,
    pub text: String,
}

// ---- Text as data -----------------------------------------------------------

/// `text` in a format, with the zero that ends it; none in an unknown format.
pub open spec fn encoded_text(text: Seq<char>, format_id: u32) -> Option<Seq<u8>> {
    if format_id == CF_UNICODETEXT {
        Some(utf16_bytes(text) + le16(0))
    } else if format_id == CF_TEXT {
        Some(encode_utf8(text) + seq![0u8])
    } else {
        None
    }
}

/// The bytes before the first that is zero.
pub open spec fn before_zero(data: Seq<u8>) -> Seq<u8>
    decreases data.len(),
{
    if data.len() == 0 || data[0] == 0 {
        Seq::empty()
    } else {
        seq![data[0]] + before_zero(data.skip(1))
    }
}

/// The text of data in a format, up to the zero that ends it; none in an
/// unknown format, or where the data is not text.
pub open spec fn decoded_text(data: Seq<u8>, format_id: u32) -> Option<Seq<char>> {
    if format_id == CF_UNICODETEXT {
        utf16_text(until_zero(byte_units(data)))
    } else if format_id == CF_TEXT {
        Some(utf8_text(before_zero(data)))
    } else {
        None
    }
}

proof fn lemma_before_zero(data: Seq<u8>, rest: Seq<u8>)
    requires
        forall|i: int| 0 <= i < data.len() ==> data[i] != 0,
        rest.len() > 0 ==> rest[0] == 0,
    ensures
        before_zero(data + rest) == data,
    decreases data.len(),
{
    let all = data + rest;
    if data.len() > 0 {
        assert(all.skip(1) =~= data.skip(1) + rest);
        lemma_before_zero(data.skip(1), rest);
        assert(seq![data[0]] + data.skip(1) =~= data);
    } else {
        assert(before_zero(all) =~= data);
    }
}

/// Text that is sent in a known format is read as the same text. Text with the
/// character zero would end there.
pub proof fn clipboard_round_trip(text: Seq<char>, format_id: u32)
    requires
        format_id == CF_UNICODETEXT || format_id == CF_TEXT,
        forall|i: int| 0 <= i < text.len() ==> text[i] != '\0',
    ensures
        encoded_text(text, format_id) is Some,
        decoded_text(encoded_text(text, format_id)->0, format_id) == Some(text),
{
    let data = encoded_text(text, format_id)->0;
    if format_id == CF_UNICODETEXT {
        let units = utf16(text);
        assert(units.push(0).drop_last() =~= units);
        assert(data == unit_bytes(units.push(0)));
        unit_bytes_round_trip(units.push(0));
        lemma_utf16_nonzero(text);
        assert(units.push(0) =~= units + seq![0u16]);
        lemma_until_zero(units, seq![0u16]);
        utf16_round_trip(text);
    } else {
        lemma_utf8_nonzero(text);
        lemma_before_zero(encode_utf8(text), seq![0u8]);
        utf8_round_trip(text);
    }
}

/// `text` in a format, with the zero that ends it.
pub fn encode_local_clipboard(text: &str, format_id: u32) -> (res: Option<Vec<u8>>)
    ensures
        match res {
            Some(data) => encoded_text(text@, format_id) == Some(data@),
            None => encoded_text(text@, format_id) is None,
        },
{
    if format_id == CF_UNICODETEXT {
        let mut data = encode_utf16_bytes(text);
        put_u16(&mut data, 0);
        Some(data)
    } else if format_id == CF_TEXT {
        let mut data: Vec<u8> = Vec::new();
        put_bytes(&mut data, text.as_bytes());
        put_u8(&mut data, 0);
        Some(data)
    } else {
        None
    }
}

/// The bytes before the first that is zero.
fn until_zero_byte(data: &[u8]) -> (res: &[u8])
    ensures
        res@ == before_zero(data@),
{
    let mut i: usize = 0;
    assert(data@.skip(0) =~= data@);
    assert(data@.take(0) + before_zero(data@) =~= before_zero(data@));
    while i < data.len() && data[i] != 0
        invariant
            i <= data@.len(),
            data@.take(i as int) + before_zero(data@.skip(i as int)) == before_zero(data@),
        decreases data@.len() - i,
    {
        proof {
            let rest = data@.skip(i as int);
            assert(rest.skip(1) =~= data@.skip(i + 1));
            assert(data@.take(i as int) + (seq![rest[0]] + before_zero(rest.skip(1)))
                =~= data@.take(i + 1) + before_zero(data@.skip(i + 1)));
        }
        i += 1;
    }
    assert(data@.take(i as int) + Seq::<u8>::empty() =~= data@.take(i as int));
    let res = vstd::slice::slice_subrange(data, 0, i);
    assert(res@ =~= data@.take(i as int));
    res
}

/// The text of data in a format, up to the zero that ends it.
pub fn decode_remote_clipboard(data: &[u8], format_id: u32) -> (res: Option<String>)
    ensures
        text_view(res) == decoded_text(data@, format_id),
{
    if format_id == CF_UNICODETEXT {
        let units = units_until_zero(data);
        decode_utf16(&units)
    } else if format_id == CF_TEXT {
        Some(decode_utf8_lossy(until_zero_byte(data)))
    } else {
        None
    }
}

// ---- Formats ----------------------------------------------------------------

/// Where the name that begins at `offset` ends: behind a code unit of zero, or
/// where the data ends.
pub open spec fn name_end(data: Seq<u8>, offset: int) -> int
    decreases data.len() - offset,
{
    if offset < 0 || offset + 1 >= data.len() {
        offset
    } else if data[offset] == 0 && data[offset + 1] == 0 {
        offset + 2
    } else {
        name_end(data, offset + 2)
    }
}

/// A name does not end before it begins.
pub proof fn lemma_name_end(data: Seq<u8>, offset: int)
    ensures
        offset <= name_end(data, offset),
        0 <= offset <= data.len() ==> name_end(data, offset) <= data.len(),
    decreases data.len() - offset,
{
    if 0 <= offset && offset + 1 < data.len() && !(data[offset] == 0 && data[offset + 1] == 0) {
        lemma_name_end(data, offset + 2);
    }
}

/// The format to ask for among those from `offset` on: Unicode text where it is
/// offered, else plain text, which `fallback` may already tell of.
pub open spec fn preferred_from(data: Seq<u8>, offset: int, fallback: Option<u32>) -> Option<u32>
    decreases data.len() - offset,
{
    if offset < 0 || offset + 4 > data.len() {
        fallback
    } else {
        let format_id = le32_at(data, offset);
        proof {
            lemma_name_end(data, offset + 4);
        }
        if format_id == CF_UNICODETEXT {
            Some(format_id)
        } else {
            preferred_from(
                data,
                name_end(data, offset + 4),
                if format_id == CF_TEXT {
                    Some(format_id)
                } else {
                    fallback
                },
            )
        }
    }
}

/// Where the name that begins at `offset` ends.
fn skip_name(data: &[u8], offset: usize) -> (end: usize)
    requires
        offset <= data@.len(),
    ensures
        end == name_end(data@, offset as int),
        offset <= end <= data@.len(),
{
    let size = data.len();
    let mut end = offset;
    while size - end > 1
        invariant
            size == data@.len(),
            offset <= end <= size,
            name_end(data@, offset as int) == name_end(data@, end as int),
        decreases size - end,
    {
        if data[end] == 0 && data[end + 1] == 0 {
            return end + 2;
        }
        end += 2;
    }
    end
}

/// The format to ask for among those that are offered.
pub fn preferred_clipboard_format(data: &[u8]) -> (res: Option<u32>)
    ensures
        res == preferred_from(data@, 0, None),
{
    let size = data.len();
    let mut offset: usize = 0;
    let mut fallback: Option<u32> = None;
    while size - offset >= 4
        invariant
            size == data@.len(),
            offset <= size,
            preferred_from(data@, 0, None) == preferred_from(data@, offset as int, fallback),
        decreases size - offset,
    {
        let format_id = data[offset] as u32 + 0x100 * data[offset + 1] as u32 + 0x1_0000
            * data[offset + 2] as u32 + 0x100_0000 * data[offset + 3] as u32;
        if format_id == CF_UNICODETEXT {
            return Some(format_id);
        }
        if format_id == CF_TEXT {
            fallback = Some(format_id);
        }
        offset = skip_name(data, offset + 4);
    }
    fallback
}

// ---- Messages ---------------------------------------------------------------

/// A clipboard message.
pub open spec fn clip_message(message_type: u16, message_flags: u16, data: Seq<u8>) -> Seq<u8> {
    le16(message_type) + le16(message_flags) + le32((data.len() % 0x1_0000_0000) as u32) + data
}

/// The packets of a clipboard message.
pub open spec fn clip_packets(
    user_id: u16,
    channel_id: u16,
    message_type: u16,
    message_flags: u16,
    data: Seq<u8>,
) -> Seq<Seq<u8>> {
    channel_packets(user_id, channel_id, clip_message(message_type, message_flags, data))
}

/// What the client can do: it understands long names of formats.
pub open spec fn capability_data() -> Seq<u8> {
    le16(1) + le16(0) + le16(1) + le16(12) + le32(2) + le32(2)
}

/// The one format in which the client offers text.
pub open spec fn offered_formats() -> Seq<u8> {
    le32(CF_UNICODETEXT) + le16(0)
}

/// An offer prefers Unicode text: the client's own offer is answered with it.
pub proof fn offer_is_understood()
    ensures
        preferred_from(offered_formats(), 0, None) == Some(CF_UNICODETEXT),
{
    let data = offered_formats();
    let id = le32(CF_UNICODETEXT);
    assert(data[0] == id[0] && data[1] == id[1] && data[2] == id[2] && data[3] == id[3]);
}

/// The packets of a clipboard message.
pub fn build_cliprdr_message_pdus(
    user_id: u16,
    channel_id: u16,
    message_type: u16,
    message_flags: u16,
    data: &[u8],
) -> (pdus: Vec<Vec<u8>>)
    ensures
        all_bytes(pdus@) == clip_packets(user_id, channel_id, message_type, message_flags, data@),
{
    let mut message: Vec<u8> = Vec::new();
    put_u16(&mut message, message_type);
    put_u16(&mut message, message_flags);
    put_u32(&mut message, (data.len() as u64 % 0x1_0000_0000) as u32);
    put_bytes(&mut message, data);
    build_static_channel_message_pdus(user_id, channel_id, message.as_slice())
}

/// The packets that tell what the client can do.
pub fn build_cliprdr_capabilities(user_id: u16, channel_id: u16) -> (pdus: Vec<Vec<u8>>)
    ensures
        all_bytes(pdus@) == clip_packets(user_id, channel_id, CB_CLIP_CAPS, 0, capability_data()),
{
    let mut data: Vec<u8> = Vec::new();
    put_u16(&mut data, 1);
    put_u16(&mut data, 0);
    put_u16(&mut data, 1);
    put_u16(&mut data, 12);
    put_u32(&mut data, 2);
    put_u32(&mut data, 2);
    build_cliprdr_message_pdus(user_id, channel_id, CB_CLIP_CAPS, 0, data.as_slice())
}

/// The packets that offer text.
pub fn build_cliprdr_format_list(user_id: u16, channel_id: u16) -> (pdus: Vec<Vec<u8>>)
    ensures
        all_bytes(pdus@) == clip_packets(user_id, channel_id, CB_FORMAT_LIST, 0, offered_formats()),
{
    let mut data: Vec<u8> = Vec::new();
    put_u32(&mut data, CF_UNICODETEXT);
    put_u16(&mut data, 0);
    build_cliprdr_message_pdus(user_id, channel_id, CB_FORMAT_LIST, 0, data.as_slice())
}

// ---- The channel ------------------------------------------------------------

/// What is known on the clipboard channel.
pub struct ClipboardChannelState {
    /// The text that was copied here.
    pub local_text: String,
    pub fragment_data: Vec<u8>,
    pub fragment_total_length: usize,
    /// The format in which text was asked for.
    pub pending_remote_format: Option<u32>,
    pub debug: bool,
}

/// What a [`ClipboardChannelState`] holds.
#[verifier::ext_equal]
pub struct ClipboardView {
    pub local_text: Seq<char>,
    pub chunks: ChunksView,
    pub pending_remote_format: Option<u32>,
    pub debug: bool,
}

impl View for ClipboardChannelState {
    type V = ClipboardView;

    open spec fn view(&self) -> ClipboardView {
        ClipboardView {
            local_text: self.local_text@,
            chunks: ChunksView {
                data: self.fragment_data@,
                total: self.fragment_total_length as nat,
            },
            pending_remote_format: self.pending_remote_format,
            debug: self.debug,
        }
    }
}

impl Default for ClipboardChannelState {
    fn default() -> (state: Self)
        ensures
            state@ == (ClipboardView {
                local_text: Seq::empty(),
                chunks: ChunksView::none(),
                pending_remote_format: None,
                debug: false,
            }),
    {
        ClipboardChannelState {
            local_text: String::new(),
            fragment_data: Vec::new(),
            fragment_total_length: 0,
            pending_remote_format: None,
            debug: false,
        }
    }
}

/// What follows from a clipboard packet.
pub struct ClipboardProcessResult {
    /// Packets to send.
    pub responses: Vec<Vec<u8>>,
    /// Text that was copied on the remote desktop.
    pub remote_text: Option<String>,
}

/// What a [`ClipboardProcessResult`] says, and the state after it.
#[verifier::ext_equal]
pub struct ClipboardOutcome {
    pub state: ClipboardView,
    pub responses: Seq<Seq<u8>>,
    pub remote_text: Option<Seq<char>>,
}

impl ClipboardView {
    /// Nothing follows.
    pub open spec fn quiet(self) -> ClipboardOutcome {
        ClipboardOutcome { state: self, responses: Seq::empty(), remote_text: None }
    }

    /// What follows from a message of type `kind` with `flags` and `data`.
    pub open spec fn handled(
        self,
        user_id: u16,
        channel_id: u16,
        kind: u16,
        flags: u16,
        data: Seq<u8>,
    ) -> ClipboardOutcome {
        if kind == CB_MONITOR_READY {
            ClipboardOutcome {
                responses: clip_packets(user_id, channel_id, CB_CLIP_CAPS, 0, capability_data())
                    + clip_packets(user_id, channel_id, CB_FORMAT_LIST, 0, offered_formats()),
                ..self.quiet()
            }
        } else if kind == CB_FORMAT_LIST {
            let accepted = clip_packets(
                user_id,
                channel_id,
                CB_FORMAT_LIST_RESPONSE,
                CB_RESPONSE_OK,
                Seq::empty(),
            );
            match preferred_from(data, 0, None) {
                Some(format_id) => ClipboardOutcome {
                    state: ClipboardView { pending_remote_format: Some(format_id), ..self },
                    responses: accepted + clip_packets(
                        user_id,
                        channel_id,
                        CB_FORMAT_DATA_REQUEST,
                        0,
                        le32(format_id),
                    ),
                    remote_text: None,
                },
                None => ClipboardOutcome { responses: accepted, ..self.quiet() },
            }
        } else if kind == CB_FORMAT_DATA_REQUEST && data.len() >= 4 {
            ClipboardOutcome {
                responses: match encoded_text(self.local_text, le32_at(data, 0)) {
                    Some(encoded) => clip_packets(
                        user_id,
                        channel_id,
                        CB_FORMAT_DATA_RESPONSE,
                        CB_RESPONSE_OK,
                        encoded,
                    ),
                    None => clip_packets(
                        user_id,
                        channel_id,
                        CB_FORMAT_DATA_RESPONSE,
                        CB_RESPONSE_FAIL,
                        Seq::empty(),
                    ),
                },
                ..self.quiet()
            }
        } else if kind == CB_FORMAT_DATA_RESPONSE && flags % 2 == 1 {
            match self.pending_remote_format {
                Some(format_id) => ClipboardOutcome {
                    state: ClipboardView { pending_remote_format: None, ..self },
                    responses: Seq::empty(),
                    remote_text: decoded_text(data, format_id),
                },
                None => self.quiet(),
            }
        } else {
            self.quiet()
        }
    }

    /// What follows from a whole message.
    pub open spec fn message_handled(
        self,
        user_id: u16,
        channel_id: u16,
        message: Seq<u8>,
    ) -> ClipboardOutcome {
        if message.len() < 8 || 8 + le32_at(message, 4) > message.len() {
            self.quiet()
        } else {
            self.handled(
                user_id,
                channel_id,
                le16_at(message, 0),
                le16_at(message, 2),
                message.subrange(8, 8 + le32_at(message, 4)),
            )
        }
    }

    /// What follows from a packet on the clipboard channel.
    pub open spec fn packet_handled(
        self,
        user_id: u16,
        channel_id: u16,
        packet: Seq<u8>,
    ) -> ClipboardOutcome {
        match channel_message(packet) {
            None => self.quiet(),
            Some((_, payload)) => {
                let (chunks, complete) = self.chunks.received(payload);
                let next = ClipboardView { chunks, ..self };
                match complete {
                    Some(message) => next.message_handled(user_id, channel_id, message),
                    None => next.quiet(),
                }
            },
        }
    }
}

proof fn lemma_clip_message(kind: u16, flags: u16, data: Seq<u8>)
    requires
        data.len() < 0x1_0000_0000,
    ensures
        clip_message(kind, flags, data).len() == 8 + data.len(),
        le16_at(clip_message(kind, flags, data), 0) == kind,
        le16_at(clip_message(kind, flags, data), 2) == flags,
        le32_at(clip_message(kind, flags, data), 4) == data.len(),
        clip_message(kind, flags, data).subrange(8, 8 + data.len() as int) == data,
{
    let message = clip_message(kind, flags, data);
    let length = data.len() as u32;
    assert(message[0] == le16(kind)[0] && message[1] == le16(kind)[1]);
    assert(message[2] == le16(flags)[0] && message[3] == le16(flags)[1]);
    assert(message[4] == le32(length)[0] && message[5] == le32(length)[1]);
    assert(message[6] == le32(length)[2] && message[7] == le32(length)[3]);
    assert(message.subrange(8, 8 + data.len() as int) =~= data);
}

/// A message is understood as the type, flags and data that it was made of.
pub proof fn message_is_understood(
    state: ClipboardView,
    user_id: u16,
    channel_id: u16,
    kind: u16,
    flags: u16,
    data: Seq<u8>,
)
    requires
        data.len() < 0x1_0000_0000,
    ensures
        state.message_handled(user_id, channel_id, clip_message(kind, flags, data))
            == state.handled(user_id, channel_id, kind, flags, data),
{
    lemma_clip_message(kind, flags, data);
}

/// The state after the first `n` packets of a message from the server.
pub open spec fn after_packets(
    state: ClipboardView,
    user_id: u16,
    channel_id: u16,
    initiator: u16,
    message: Seq<u8>,
    n: nat,
) -> ClipboardView
    decreases n,
{
    if n == 0 {
        state
    } else {
        after_packets(
            state,
            user_id,
            channel_id,
            initiator,
            message,
            (n - 1) as nat,
        ).packet_handled(
            user_id,
            channel_id,
            server_packet(initiator, channel_id, chunk(message, n - 1)),
        ).state
    }
}

proof fn lemma_after_packets(
    state: ClipboardView,
    user_id: u16,
    channel_id: u16,
    initiator: u16,
    message: Seq<u8>,
    n: nat,
)
    requires
        0 < message.len() < 0x1_0000_0000,
        n < chunk_count(message.len()),
    ensures
        after_packets(state, user_id, channel_id, initiator, message, n) == (ClipboardView {
            chunks: after_chunks(state.chunks, message, n),
            ..state
        }),
    decreases n,
{
    if n > 0 {
        let i = n - 1;
        lemma_after_packets(state, user_id, channel_id, initiator, message, i as nat);
        lemma_chunk(message, i);
        server_message_arrives(initiator, channel_id, chunk(message, i));
        chunks_reassemble(state.chunks, message);
        assert(after_chunks(state.chunks, message, i as nat).received(chunk(message, i)).1 is None);
    }
}

/// A message that the server sends in packets is handled with the last of them,
/// as if it had come whole.
pub proof fn packets_are_one_message(
    state: ClipboardView,
    user_id: u16,
    channel_id: u16,
    initiator: u16,
    message: Seq<u8>,
)
    requires
        0 < message.len() < 0x1_0000_0000,
    ensures
        ({
            let last = chunk_count(message.len()) - 1;
            let before = after_packets(
                state,
                user_id,
                channel_id,
                initiator,
                message,
                last as nat,
            );
            let packet = server_packet(initiator, channel_id, chunk(message, last));
            before.packet_handled(user_id, channel_id, packet) == (ClipboardView {
                chunks: ChunksView::none(),
                ..state
            }).message_handled(user_id, channel_id, message)
        }),
{
    let last = chunk_count(message.len()) - 1;
    assert(last >= 0);
    lemma_after_packets(state, user_id, channel_id, initiator, message, last as nat);
    lemma_chunk(message, last);
    server_message_arrives(initiator, channel_id, chunk(message, last));
    chunks_reassemble(state.chunks, message);
}

/// Text copied on one side arrives on the other: asked for in the format that
/// it was offered in, the answer gives the text.
pub proof fn copied_text_arrives(
    sender: ClipboardView,
    receiver: ClipboardView,
    user_id: u16,
    channel_id: u16,
)
    requires
        receiver.pending_remote_format == Some(CF_UNICODETEXT),
        forall|i: int| 0 <= i < sender.local_text.len() ==> sender.local_text[i] != '\0',
    ensures
        ({
            let request = le32(CF_UNICODETEXT);
            let answer = encoded_text(sender.local_text, CF_UNICODETEXT)->0;
            &&& sender.handled(user_id, channel_id, CB_FORMAT_DATA_REQUEST, 0, request).responses
                == clip_packets(
                user_id,
                channel_id,
                CB_FORMAT_DATA_RESPONSE,
                CB_RESPONSE_OK,
                answer,
            )
            &&& receiver.handled(
                user_id,
                channel_id,
                CB_FORMAT_DATA_RESPONSE,
                CB_RESPONSE_OK,
                answer,
            ).remote_text == Some(sender.local_text)
        }),
{
    clipboard_round_trip(sender.local_text, CF_UNICODETEXT);
    let request = le32(CF_UNICODETEXT);
    assert(le32_at(request, 0) == CF_UNICODETEXT);
}

impl ClipboardChannelState {
    /// Takes in a chunk, and gives the message that is complete with it.
    fn receive(&mut self, payload: &[u8]) -> (res: Option<Vec<u8>>)
        ensures
            ({
                let (chunks, complete) = old(self)@.chunks.received(payload@);
                &&& final(self)@ == (ClipboardView { chunks, ..old(self)@ })
                &&& match res {
                    Some(message) => complete == Some(message@),
                    None => complete is None,
                }
            }),
    {
        let size = payload.len();
        if size < 8 {
            return None;
        }
        let total = payload[0] as u32 + 0x100 * payload[1] as u32 + 0x1_0000 * payload[2] as u32
            + 0x100_0000 * payload[3] as u32;
        let ghost flags = le32_at(payload@, 4);
        assert(flags % 2 == payload[4] % 2 && flags / 2 % 2 == payload[4] / 2 % 2);
        if payload[4] % 2 == 1 {
            self.fragment_data.clear();
            self.fragment_total_length = total as usize;
        }
        let part = vstd::slice::slice_subrange(payload, 8, size);
        assert(part@ =~= payload@.skip(8));
        put_bytes(&mut self.fragment_data, part);
        if payload[4] / 2 % 2 == 0 {
            return None;
        }
        let mut message: Vec<u8> = Vec::new();
        std::mem::swap(&mut message, &mut self.fragment_data);
        let total = self.fragment_total_length;
        self.fragment_total_length = 0;
        if total < message.len() {
            let ghost whole = message@;
            message.truncate(total);
            assert(message@ =~= whole.take(total as int));
        }
        assert(self.fragment_data@ =~= Seq::<u8>::empty());
        Some(message)
    }

    /// Handles a message of type `kind` with `flags` and `data`.
    fn handle(&mut self, user_id: u16, channel_id: u16, kind: u16, flags: u16, data: &[u8]) -> (res:
        ClipboardProcessResult)
        ensures
            ({
                let outcome = old(self)@.handled(user_id, channel_id, kind, flags, data@);
                &&& final(self)@ == outcome.state
                &&& all_bytes(res.responses@) == outcome.responses
                &&& text_view(res.remote_text) == outcome.remote_text
            }),
    {
        let mut responses: Vec<Vec<u8>> = Vec::new();
        let mut remote_text: Option<String> = None;
        assert(all_bytes(responses@) =~= Seq::<Seq<u8>>::empty());
        if kind == CB_MONITOR_READY {
            responses = build_cliprdr_capabilities(user_id, channel_id);
            append_messages(&mut responses, build_cliprdr_format_list(user_id, channel_id));
        } else if kind == CB_FORMAT_LIST {
            responses =
            build_cliprdr_message_pdus(
                user_id,
                channel_id,
                CB_FORMAT_LIST_RESPONSE,
                CB_RESPONSE_OK,
                &[],
            );
            if let Some(format_id) = preferred_clipboard_format(data) {
                self.pending_remote_format = Some(format_id);
                let mut wanted: Vec<u8> = Vec::new();
                put_u32(&mut wanted, format_id);
                append_messages(
                    &mut responses,
                    build_cliprdr_message_pdus(
                        user_id,
                        channel_id,
                        CB_FORMAT_DATA_REQUEST,
                        0,
                        wanted.as_slice(),
                    ),
                );
            }
        } else if kind == CB_FORMAT_DATA_REQUEST && data.len() >= 4 {
            let format_id = data[0] as u32 + 0x100 * data[1] as u32 + 0x1_0000 * data[2] as u32
                + 0x100_0000 * data[3] as u32;
            responses =
            match encode_local_clipboard(self.local_text.as_str(), format_id) {
                Some(encoded) => build_cliprdr_message_pdus(
                    user_id,
                    channel_id,
                    CB_FORMAT_DATA_RESPONSE,
                    CB_RESPONSE_OK,
                    encoded.as_slice(),
                ),
                None => build_cliprdr_message_pdus(
                    user_id,
                    channel_id,
                    CB_FORMAT_DATA_RESPONSE,
                    CB_RESPONSE_FAIL,
                    &[],
                ),
            };
        } else if kind == CB_FORMAT_DATA_RESPONSE && flags % 2 == 1 {
            if let Some(format_id) = self.pending_remote_format {
                self.pending_remote_format = None;
                remote_text = decode_remote_clipboard(data, format_id);
            }
        }
        ClipboardProcessResult { responses, remote_text }
    }
}

fn nothing_follows() -> (res: ClipboardProcessResult)
    ensures
        all_bytes(res.responses@) == Seq::<Seq<u8>>::empty(),
        res.remote_text is None,
{
    let responses: Vec<Vec<u8>> = Vec::new();
    assert(all_bytes(responses@) =~= Seq::<Seq<u8>>::empty());
    ClipboardProcessResult { responses, remote_text: None }
}

/// Takes in a packet on the clipboard channel, and tells what follows from it.
pub fn process_cliprdr_packet(
    packet: &[u8],
    user_channel_id: u16,
    cliprdr_channel_id: u16,
    state: &mut ClipboardChannelState,
) -> (res: ClipboardProcessResult)
    ensures
        ({
            let outcome = old(state)@.packet_handled(user_channel_id, cliprdr_channel_id, packet@);
            &&& final(state)@ == outcome.state
            &&& all_bytes(res.responses@) == outcome.responses
            &&& text_view(res.remote_text) == outcome.remote_text
        }),
{
    let payload = match server_mcs_payload(packet) {
        Some((_, payload)) => payload,
        None => return nothing_follows(),
    };
    let message = match state.receive(payload) {
        Some(message) => message,
        None => return nothing_follows(),
    };
    let size = message.len();
    if size < 8 {
        return nothing_follows();
    }
    let kind = message[0] as u16 + 256 * message[1] as u16;
    let flags = message[2] as u16 + 256 * message[3] as u16;
    let length = message[4] as u32 + 0x100 * message[5] as u32 + 0x1_0000 * message[6] as u32
        + 0x100_0000 * message[7] as u32;
    if length as usize > size - 8 {
        return nothing_follows();
    }
    let data = vstd::slice::slice_subrange(message.as_slice(), 8, 8 + length as usize);
    state.handle(user_channel_id, cliprdr_channel_id, kind, flags, data)
}

} // verus!
