//! Messages on static channels, which are sent in chunks.

use vstd::prelude::*;

use crate::framing::{sent, wrap_mcs_send_data};
use crate::wire::{all_bytes, le32, le32_at, le32_round_trip, put_bytes, put_u32};

verus! {

broadcast use crate::wire::lemma_empty_add;

/// Most bytes of a message in one chunk.
pub const CHUNK_SIZE: usize = 1600;

/// Flag of the first chunk of a message.
pub const CHANNEL_FLAG_FIRST: u32 = 1;

/// Flag of the last chunk of a message.
pub const CHANNEL_FLAG_LAST: u32 = 2;

/// How many chunks a message of `n` bytes has.
pub open spec fn chunk_count(n: nat) -> nat {
    (n + CHUNK_SIZE - 1) as nat / CHUNK_SIZE as nat
}

/// Where chunk `i` of a message of `n` bytes ends.
pub open spec fn chunk_end(n: nat, i: int) -> int {
    if CHUNK_SIZE * (i + 1) < n {
        CHUNK_SIZE * (i + 1)
    } else {
        n as int
    }
}

/// Flags of chunk `i`.
pub open spec fn chunk_flags(n: nat, i: int) -> u32 {
    ((if i == 0 {
        CHANNEL_FLAG_FIRST as int
    } else {
        0
    }) + (if i + 1 == chunk_count(n) {
        CHANNEL_FLAG_LAST as int
    } else {
        0
    })) as u32
}

/// Chunk `i` of a message: the length of the whole, flags, and its part.
pub open spec fn chunk(message: Seq<u8>, i: int) -> Seq<u8> {
    le32((message.len() % 0x1_0000_0000) as u32) + le32(chunk_flags(message.len(), i))
        + message.subrange(CHUNK_SIZE * i, chunk_end(message.len(), i))
}

/// The packets that carry a message.
pub open spec fn channel_packets(user_id: u16, channel_id: u16, message: Seq<u8>) -> Seq<
    Seq<u8>,
> {
    Seq::new(
        chunk_count(message.len()),
        |i: int| sent(user_id, channel_id, chunk(message, i)),
    )
}

/// The packets that carry a message.
pub fn build_static_channel_message_pdus(user_id: u16, channel_id: u16, message: &[u8]) -> (pdus:
    Vec<Vec<u8>>)
    ensures
        all_bytes(pdus@) == channel_packets(user_id, channel_id, message@),
{
    let size = message.len();
    let total = (size as u64 % 0x1_0000_0000) as u32;
    let mut pdus: Vec<Vec<u8>> = Vec::new();
    let mut start: usize = 0;
    let ghost all = channel_packets(user_id, channel_id, message@);
    assert(all_bytes(pdus@) =~= all.take(0));
    while start < size
        invariant
            size == message@.len(),
            total == size as int % 0x1_0000_0000,
            all == channel_packets(user_id, channel_id, message@),
            start == CHUNK_SIZE * pdus@.len() || start == size,
            start == size ==> pdus@.len() == chunk_count(size as nat),
            start < size ==> pdus@.len() < chunk_count(size as nat),
            start <= size,
            pdus@.len() <= all.len(),
            all_bytes(pdus@) == all.take(pdus@.len() as int),
        decreases size - start,
    {
        let ghost i = pdus@.len() as int;
        let end = if size - start > CHUNK_SIZE {
            start + CHUNK_SIZE
        } else {
            size
        };
        let mut flags: u32 = 0;
        if start == 0 {
            flags += CHANNEL_FLAG_FIRST;
        }
        if end == size {
            flags += CHANNEL_FLAG_LAST;
        }
        let mut data: Vec<u8> = Vec::new();
        put_u32(&mut data, total);
        put_u32(&mut data, flags);
        put_bytes(&mut data, vstd::slice::slice_subrange(message, start, end));
        assert(data@ == chunk(message@, i));
        let ghost before = pdus@;
        pdus.push(wrap_mcs_send_data(user_id, channel_id, data.as_slice()));
        assert(all_bytes(pdus@) =~= all.take(i + 1)) by {
            assert(all_bytes(pdus@).drop_last() =~= all_bytes(before));
            assert(all.take(i + 1).drop_last() =~= all.take(i));
        }
        start = end;
    }
    assert(all.take(all.len() as int) =~= all);
    pdus
}

// ---- Receiving --------------------------------------------------------------

/// The chunks of a message that have come.
#[verifier::ext_equal]
pub struct ChunksView {
    pub data: Seq<u8>,
    pub total: nat,
}

impl ChunksView {
    /// No chunk.
    pub open spec fn none() -> ChunksView {
        ChunksView { data: Seq::empty(), total: 0 }
    }

    /// What a chunk does: the chunks that are kept, and the message that is
    /// complete with it. A message is not longer than its first chunk says.
    pub open spec fn received(self, chunk: Seq<u8>) -> (ChunksView, Option<Seq<u8>>) {
        if chunk.len() < 8 {
            (self, None)
        } else {
            let flags = le32_at(chunk, 4);
            let start = if flags % 2 == 1 {
                ChunksView { data: Seq::empty(), total: le32_at(chunk, 0) as nat }
            } else {
                self
            };
            let data = start.data + chunk.skip(8);
            if flags / 2 % 2 == 0 {
                (ChunksView { data, total: start.total }, None)
            } else {
                (
                    ChunksView::none(),
                    Some(
                        if start.total < data.len() {
                            data.take(start.total as int)
                        } else {
                            data
                        },
                    ),
                )
            }
        }
    }
}

/// The chunks that are kept after the first `n` chunks of a message.
pub open spec fn after_chunks(start: ChunksView, message: Seq<u8>, n: nat) -> ChunksView
    decreases n,
{
    if n == 0 {
        start
    } else {
        after_chunks(start, message, (n - 1) as nat).received(chunk(message, n - 1)).0
    }
}

/// The flags of chunk `i` tell whether it is the first and whether it is the
/// last.
pub proof fn lemma_chunk_flags(n: nat, i: int)
    ensures
        (chunk_flags(n, i) % 2 == 1) == (i == 0),
        (chunk_flags(n, i) / 2 % 2 == 1) == (i + 1 == chunk_count(n)),
{
}

/// Where chunk `i` of a message of `n` bytes stands in it.
proof fn lemma_chunk_place(n: nat, i: int)
    requires
        0 <= i < chunk_count(n),
    ensures
        0 <= CHUNK_SIZE * i <= chunk_end(n, i) <= n,
        i + 1 == chunk_count(n) ==> chunk_end(n, i) == n,
        i + 1 < chunk_count(n) ==> chunk_end(n, i) == CHUNK_SIZE * (i + 1),
{
}

/// What chunk `i` of a message says.
pub proof fn lemma_chunk(message: Seq<u8>, i: int)
    requires
        message.len() < 0x1_0000_0000,
        0 <= i < chunk_count(message.len()),
    ensures
        chunk(message, i).len() >= 8,
        le32_at(chunk(message, i), 0) == message.len(),
        le32_at(chunk(message, i), 4) == chunk_flags(message.len(), i),
        chunk(message, i).skip(8) == message.subrange(
            CHUNK_SIZE * i,
            chunk_end(message.len(), i),
        ),
        0 <= CHUNK_SIZE * i <= chunk_end(message.len(), i) <= message.len(),
        i + 1 == chunk_count(message.len()) ==> chunk_end(message.len(), i) == message.len(),
        i + 1 < chunk_count(message.len()) ==> chunk_end(message.len(), i) == CHUNK_SIZE * (i + 1),
{
    let total = message.len() as u32;
    let flags = chunk_flags(message.len(), i);
    let part = message.subrange(CHUNK_SIZE * i, chunk_end(message.len(), i));
    let c = chunk(message, i);
    lemma_chunk_place(message.len(), i);
    assert(c =~= Seq::<u8>::empty() + le32(total) + (le32(flags) + part));
    le32_round_trip(Seq::empty(), total, le32(flags) + part);
    le32_round_trip(le32(total), flags, part);
    assert(c.skip(8) =~= part);
}

/// What chunk `i` of a message does.
proof fn lemma_chunk_received(state: ChunksView, message: Seq<u8>, i: int)
    requires
        message.len() < 0x1_0000_0000,
        0 <= i < chunk_count(message.len()),
        i > 0 ==> state == (ChunksView {
            data: message.take(CHUNK_SIZE * i),
            total: message.len(),
        }),
    ensures
        i + 1 < chunk_count(message.len()) ==> state.received(chunk(message, i)) == (
            ChunksView { data: message.take(CHUNK_SIZE * (i + 1)), total: message.len() },
            None::<Seq<u8>>,
        ),
        i + 1 == chunk_count(message.len()) ==> state.received(chunk(message, i)) == (
            ChunksView::none(),
            Some(message),
        ),
{
    lemma_chunk(message, i);
    lemma_chunk_flags(message.len(), i);
    let c = chunk(message, i);
    let data = (if i == 0 {
        Seq::<u8>::empty()
    } else {
        state.data
    }) + c.skip(8);
    assert(data =~= message.take(chunk_end(message.len(), i)));
    assert(message.take(message.len() as int) =~= message);
}

proof fn lemma_after_chunks(start: ChunksView, message: Seq<u8>, n: nat)
    requires
        message.len() < 0x1_0000_0000,
        0 < n < chunk_count(message.len()),
    ensures
        after_chunks(start, message, n) == (ChunksView {
            data: message.take(CHUNK_SIZE * n),
            total: message.len(),
        }),
    decreases n,
{
    if n > 1 {
        lemma_after_chunks(start, message, (n - 1) as nat);
    }
    lemma_chunk_received(after_chunks(start, message, (n - 1) as nat), message, n - 1);
}

/// A message that is sent in chunks is put together from them, with the last
/// and not before, whatever came earlier.
pub proof fn chunks_reassemble(start: ChunksView, message: Seq<u8>)
    requires
        0 < message.len() < 0x1_0000_0000,
    ensures
        forall|i: int|
            0 <= i < chunk_count(message.len()) - 1 ==> (#[trigger] after_chunks(
                start,
                message,
                i as nat,
            ).received(chunk(message, i))).1 is None,
        ({
            let last = chunk_count(message.len()) - 1;
            after_chunks(start, message, last as nat).received(chunk(message, last)) == (
                ChunksView::none(),
                Some(message),
            )
        }),
{
    let count = chunk_count(message.len());
    assert(count > 0);
    assert forall|i: int| 0 <= i < count - 1 implies (#[trigger] after_chunks(
        start,
        message,
        i as nat,
    ).received(chunk(message, i))).1 is None by {
        if i > 0 {
            lemma_after_chunks(start, message, i as nat);
        }
        lemma_chunk_received(after_chunks(start, message, i as nat), message, i);
    }
    let last = count - 1;
    if last > 0 {
        lemma_after_chunks(start, message, last as nat);
    }
    lemma_chunk_received(after_chunks(start, message, last as nat), message, last);
}

} // verus!
