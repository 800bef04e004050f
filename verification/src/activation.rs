//! The messages that activate a session.

use vstd::prelude::*;

use crate::framing::{sent, wrap_mcs_send_data, IO_CHANNEL};
use crate::wire::{
    le16, le16_at, le32, put_bytes, put_u16, put_u32, put_zeros, zeros,
};

verus! {

broadcast use crate::wire::lemma_empty_add;

/// The number of the shared session.
pub const SHARE_ID: u32 = 0x0003_EA01;

// ---- Capabilities -----------------------------------------------------------

/// What the client is.
pub open spec fn general_capability() -> Seq<u8> {
    le16(1) + le16(24) + le16(1) + le16(3) + le16(0x200) + le16(0) + le16(0) + le16(0x1D) + le16(0)
        + le16(0) + le16(0) + seq![0u8, 0]
}

/// Which bitmaps the client draws. Compression is not asked for.
pub open spec fn bitmap_capability(width: u16, height: u16) -> Seq<u8> {
    le16(2) + le16(28) + le16(24) + le16(1) + le16(1) + le16(1) + le16(width) + le16(height) + le16(
        0,
    ) + le16(1) + le16(0) + seq![0u8, 0] + le16(1) + le16(0)
}

/// Which drawing orders the client knows: none.
pub open spec fn order_capability() -> Seq<u8> {
    le16(3) + le16(88) + zeros(16) + le32(0) + le16(1) + le16(20) + le16(0) + le16(1) + le16(0)
        + le16(0x22) + zeros(32) + le16(0) + le16(0) + le32(0) + le32(480) + le16(0) + le16(0)
        + le16(0) + le16(0)
}

/// Which input the client sends.
pub open spec fn input_capability() -> Seq<u8> {
    le16(13) + le16(88) + le16(1) + le16(0) + le32(0x409) + le32(4) + le32(0) + le32(12) + zeros(64)
}

/// All capabilities.
pub open spec fn capabilities(width: u16, height: u16) -> Seq<u8> {
    general_capability() + bitmap_capability(width, height) + order_capability()
        + input_capability()
}

/// The confirmation of the demand to activate.
pub open spec fn confirm_active_data(user_channel_id: u16, width: u16, height: u16) -> Seq<u8> {
    le16(252) + le16(0x13) + le16(user_channel_id) + le32(SHARE_ID) + le16(0x3EA) + le16(4) + le16(
        232,
    ) + seq![0x52u8, 0x44, 0x50, 0] + le16(4) + le16(0) + capabilities(width, height)
}

/// Every length that the confirmation states is the length of what it is about.
pub proof fn confirm_active_lengths(user_channel_id: u16, width: u16, height: u16)
    ensures
        general_capability().len() == 24 == le16_at(general_capability(), 2),
        bitmap_capability(width, height).len() == 28 == le16_at(
            bitmap_capability(width, height),
            2,
        ),
        order_capability().len() == 88 == le16_at(order_capability(), 2),
        input_capability().len() == 88 == le16_at(input_capability(), 2),
        capabilities(width, height).len() + 4 == 232 == le16_at(
            confirm_active_data(user_channel_id, width, height),
            14,
        ),
        confirm_active_data(user_channel_id, width, height).len() == 252 == le16_at(
            confirm_active_data(user_channel_id, width, height),
            0,
        ),
{
    assert(general_capability()[2] == le16(24)[0] && general_capability()[3] == le16(24)[1]);
    let bitmap = bitmap_capability(width, height);
    assert(bitmap[2] == le16(28)[0] && bitmap[3] == le16(28)[1]);
    assert(order_capability()[2] == le16(88)[0] && order_capability()[3] == le16(88)[1]);
    assert(input_capability()[2] == le16(88)[0] && input_capability()[3] == le16(88)[1]);
    let whole = confirm_active_data(user_channel_id, width, height);
    assert(whole[0] == le16(252)[0] && whole[1] == le16(252)[1]);
    assert(whole[14] == le16(232)[0] && whole[15] == le16(232)[1]);
}

fn put_general_capability(out: &mut Vec<u8>)
    ensures
        final(out)@ == old(out)@ + general_capability(),
{
    let mut cap: Vec<u8> = Vec::new();
    put_u16(&mut cap, 1);
    put_u16(&mut cap, 24);
    put_u16(&mut cap, 1);
    put_u16(&mut cap, 3);
    put_u16(&mut cap, 0x200);
    put_u16(&mut cap, 0);
    put_u16(&mut cap, 0);
    put_u16(&mut cap, 0x1D);
    put_u16(&mut cap, 0);
    put_u16(&mut cap, 0);
    put_u16(&mut cap, 0);
    put_bytes(&mut cap, &[0, 0]);
    put_bytes(out, cap.as_slice());
}

fn put_bitmap_capability(out: &mut Vec<u8>, width: u16, height: u16)
    ensures
        final(out)@ == old(out)@ + bitmap_capability(width, height),
{
    let mut cap: Vec<u8> = Vec::new();
    put_u16(&mut cap, 2);
    put_u16(&mut cap, 28);
    put_u16(&mut cap, 24);
    put_u16(&mut cap, 1);
    put_u16(&mut cap, 1);
    put_u16(&mut cap, 1);
    put_u16(&mut cap, width);
    put_u16(&mut cap, height);
    put_u16(&mut cap, 0);
    put_u16(&mut cap, 1);
    put_u16(&mut cap, 0);
    put_bytes(&mut cap, &[0, 0]);
    put_u16(&mut cap, 1);
    put_u16(&mut cap, 0);
    put_bytes(out, cap.as_slice());
}

fn put_order_capability(out: &mut Vec<u8>)
    ensures
        final(out)@ == old(out)@ + order_capability(),
{
    let mut cap: Vec<u8> = Vec::new();
    put_u16(&mut cap, 3);
    put_u16(&mut cap, 88);
    put_zeros(&mut cap, 16);
    put_u32(&mut cap, 0);
    put_u16(&mut cap, 1);
    put_u16(&mut cap, 20);
    put_u16(&mut cap, 0);
    put_u16(&mut cap, 1);
    put_u16(&mut cap, 0);
    put_u16(&mut cap, 0x22);
    put_zeros(&mut cap, 32);
    put_u16(&mut cap, 0);
    put_u16(&mut cap, 0);
    put_u32(&mut cap, 0);
    put_u32(&mut cap, 480);
    put_u16(&mut cap, 0);
    put_u16(&mut cap, 0);
    put_u16(&mut cap, 0);
    put_u16(&mut cap, 0);
    put_bytes(out, cap.as_slice());
}

fn put_input_capability(out: &mut Vec<u8>)
    ensures
        final(out)@ == old(out)@ + input_capability(),
{
    let mut cap: Vec<u8> = Vec::new();
    put_u16(&mut cap, 13);
    put_u16(&mut cap, 88);
    put_u16(&mut cap, 1);
    put_u16(&mut cap, 0);
    put_u32(&mut cap, 0x409);
    put_u32(&mut cap, 4);
    put_u32(&mut cap, 0);
    put_u32(&mut cap, 12);
    put_zeros(&mut cap, 64);
    put_bytes(out, cap.as_slice());
}

/// The confirmation of the demand to activate.
pub fn build_confirm_active_pdu(user_channel_id: u16, width: u16, height: u16) -> (pdu: Vec<u8>)
    ensures
        pdu@ == sent(
            user_channel_id,
            IO_CHANNEL,
            confirm_active_data(user_channel_id, width, height),
        ),
{
    let mut caps: Vec<u8> = Vec::new();
    put_general_capability(&mut caps);
    put_bitmap_capability(&mut caps, width, height);
    put_order_capability(&mut caps);
    put_input_capability(&mut caps);
    let mut data: Vec<u8> = Vec::new();
    put_u16(&mut data, 252);
    put_u16(&mut data, 0x13);
    put_u16(&mut data, user_channel_id);
    put_u32(&mut data, SHARE_ID);
    put_u16(&mut data, 0x3EA);
    put_u16(&mut data, 4);
    put_u16(&mut data, 232);
    put_bytes(&mut data, &[0x52, 0x44, 0x50, 0]);
    put_u16(&mut data, 4);
    put_u16(&mut data, 0);
    put_bytes(&mut data, caps.as_slice());
    wrap_mcs_send_data(user_channel_id, IO_CHANNEL, data.as_slice())
}

// ---- Data messages ----------------------------------------------------------

/// The header of a data message: its whole length, the sender, the length of
/// what is not compressed, and what the message is.
pub open spec fn data_header(
    total: u16,
    user_channel_id: u16,
    uncompressed: u16,
    kind: u8,
) -> Seq<u8> {
    le16(total) + le16(0x17) + le16(user_channel_id) + le32(SHARE_ID) + seq![0u8, 1] + le16(
        uncompressed,
    ) + seq![kind, 0] + le16(0)
}

/// Begins a data message.
pub fn data_message(
    total: u16,
    user_channel_id: u16,
    uncompressed: u16,
    kind: u8,
) -> (out: Vec<u8>)
    ensures
        out@ == data_header(total, user_channel_id, uncompressed, kind),
        out@.len() == 18,
{
    let mut out: Vec<u8> = Vec::new();
    put_u16(&mut out, total);
    put_u16(&mut out, 0x17);
    put_u16(&mut out, user_channel_id);
    put_u32(&mut out, SHARE_ID);
    put_bytes(&mut out, &[0, 1]);
    put_u16(&mut out, uncompressed);
    put_bytes(&mut out, &[kind, 0]);
    put_u16(&mut out, 0);
    out
}

/// The session is synchronised.
pub open spec fn synchronize_data(user_channel_id: u16) -> Seq<u8> {
    data_header(22, user_channel_id, 6, 31) + le16(1) + le16(user_channel_id)
}

/// Control is asked for: 4 to cooperate, 1 to take it.
pub open spec fn control_data(user_channel_id: u16, action: u16) -> Seq<u8> {
    data_header(26, user_channel_id, 8, 20) + le16(action) + le16(0) + le32(0)
}

/// No fonts are offered.
pub open spec fn font_list_data(user_channel_id: u16) -> Seq<u8> {
    data_header(26, user_channel_id, 8, 39) + le16(0) + le16(0) + le16(3) + le16(0x32)
}

/// The end of the session is asked for.
pub open spec fn shutdown_data(user_channel_id: u16) -> Seq<u8> {
    data_header(18, user_channel_id, 0, 36)
}

/// The lengths that these messages state are their lengths.
pub proof fn data_message_lengths(user_channel_id: u16, action: u16)
    ensures
        synchronize_data(user_channel_id).len() == le16_at(synchronize_data(user_channel_id), 0),
        control_data(user_channel_id, action).len() == le16_at(
            control_data(user_channel_id, action),
            0,
        ),
        font_list_data(user_channel_id).len() == le16_at(font_list_data(user_channel_id), 0),
        shutdown_data(user_channel_id).len() == le16_at(shutdown_data(user_channel_id), 0),
{
    let sync = synchronize_data(user_channel_id);
    assert(sync[0] == le16(22)[0] && sync[1] == le16(22)[1]);
    let control = control_data(user_channel_id, action);
    assert(control[0] == le16(26)[0] && control[1] == le16(26)[1]);
    let fonts = font_list_data(user_channel_id);
    assert(fonts[0] == le16(26)[0] && fonts[1] == le16(26)[1]);
    let shutdown = shutdown_data(user_channel_id);
    assert(shutdown[0] == le16(18)[0] && shutdown[1] == le16(18)[1]);
}

/// The four messages that follow the confirmation.
pub open spec fn synchronize_sequence(user_channel_id: u16) -> Seq<u8> {
    sent(user_channel_id, IO_CHANNEL, synchronize_data(user_channel_id)) + sent(
        user_channel_id,
        IO_CHANNEL,
        control_data(user_channel_id, 4),
    ) + sent(user_channel_id, IO_CHANNEL, control_data(user_channel_id, 1)) + sent(
        user_channel_id,
        IO_CHANNEL,
        font_list_data(user_channel_id),
    )
}

fn build_control(user_channel_id: u16, action: u16) -> (pdu: Vec<u8>)
    ensures
        pdu@ == sent(user_channel_id, IO_CHANNEL, control_data(user_channel_id, action)),
{
    let mut data = data_message(26, user_channel_id, 8, 20);
    put_u16(&mut data, action);
    put_u16(&mut data, 0);
    put_u32(&mut data, 0);
    wrap_mcs_send_data(user_channel_id, IO_CHANNEL, data.as_slice())
}

/// The four messages that follow the confirmation.
pub fn build_synchronize_sequence(user_channel_id: u16) -> (pdus: Vec<u8>)
    ensures
        pdus@ == synchronize_sequence(user_channel_id),
{
    let mut sync = data_message(22, user_channel_id, 6, 31);
    put_u16(&mut sync, 1);
    put_u16(&mut sync, user_channel_id);
    let mut pdus = wrap_mcs_send_data(user_channel_id, IO_CHANNEL, sync.as_slice());
    let cooperate = build_control(user_channel_id, 4);
    put_bytes(&mut pdus, cooperate.as_slice());
    let request = build_control(user_channel_id, 1);
    put_bytes(&mut pdus, request.as_slice());
    let mut font = data_message(26, user_channel_id, 8, 39);
    put_u16(&mut font, 0);
    put_u16(&mut font, 0);
    put_u16(&mut font, 3);
    put_u16(&mut font, 0x32);
    let fonts = wrap_mcs_send_data(user_channel_id, IO_CHANNEL, font.as_slice());
    put_bytes(&mut pdus, fonts.as_slice());
    pdus
}

/// The request to end the session.
pub fn build_shutdown_pdu(user_channel_id: u16) -> (pdu: Vec<u8>)
    ensures
        pdu@ == sent(user_channel_id, IO_CHANNEL, shutdown_data(user_channel_id)),
{
    let data = data_message(18, user_channel_id, 0, 36);
    wrap_mcs_send_data(user_channel_id, IO_CHANNEL, data.as_slice())
}

} // verus!
