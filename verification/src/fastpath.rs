//! Fast-path output: updates that may be split over several packets.

use vstd::prelude::*;

use crate::bitmap::{
    addressable, counted_rectangles, lemma_rectangles_addressable, parse_update_pdu_bitmap_only,
    some_updates, updates_view, BitmapUpdate, BitmapView,
};
use crate::stats::{bump, bumped, DebugCounters, RdpDebugStats};
use crate::wire::{le16_at, put_bytes};

verus! {

/// The update that is being put together from fragments.
pub struct FastPathFragmentState {
    pub code: u8,
    pub data: Vec<u8>,
    pub active: bool,
}

/// What a [`FastPathFragmentState`] holds.
#[verifier::ext_equal]
pub struct FragmentView {
    pub code: u8,
    pub data: Seq<u8>,
    pub active: bool,
}

impl View for FastPathFragmentState {
    type V = FragmentView;

    open spec fn view(&self) -> FragmentView {
        FragmentView { code: self.code, data: self.data@, active: self.active }
    }
}

impl Default for FastPathFragmentState {
    fn default() -> (state: Self)
        ensures
            state@ == (FragmentView { code: 0, data: Seq::empty(), active: false }),
    {
        FastPathFragmentState { code: 0, data: Vec::new(), active: false }
    }
}

impl FragmentView {
    /// What a fragment does: how the state goes on, and the update that is
    /// complete with it. Fragment kind 0 is a whole update, 2 the first part of
    /// one, 3 a further and 1 the last.
    pub open spec fn received(self, code: u8, kind: u8, chunk: Seq<u8>) -> (
        FragmentView,
        Option<(u8, Seq<u8>)>,
    ) {
        if kind == 0 {
            (FragmentView { active: false, ..self }, Some((code, chunk)))
        } else if kind == 2 {
            (FragmentView { code, data: chunk, active: true }, None)
        } else if kind == 3 {
            if self.active && self.code == code {
                (FragmentView { data: self.data + chunk, ..self }, None)
            } else {
                (self, None)
            }
        } else if self.active && self.code == code {
            let whole = self.data + chunk;
            (FragmentView { data: whole, active: false, ..self }, Some((code, whole)))
        } else {
            (FragmentView { data: Seq::empty(), active: false, ..self }, None)
        }
    }
}

/// What reading a packet leaves behind.
#[verifier::ext_equal]
pub struct FastPathOutcome {
    pub updates: Seq<BitmapView>,
    pub fragments: FragmentView,
    /// The counter of drawing orders, which are not drawn.
    pub orders: usize,
}

/// The rectangles of a complete update.
pub open spec fn complete_rectangles(update: Option<(u8, Seq<u8>)>) -> Seq<BitmapView> {
    match update {
        Some((code, data)) if code == 1 => counted_rectangles(data),
        _ => Seq::empty(),
    }
}

/// The counter of drawing orders after a complete update.
pub open spec fn complete_orders(update: Option<(u8, Seq<u8>)>, orders: usize) -> usize {
    match update {
        Some((code, _)) if code == 0 => bumped(orders),
        _ => orders,
    }
}

/// Where the size field of the fragment at `offset` stands: one byte of header,
/// and one more where the header says that compression flags follow.
pub open spec fn size_field(s: Seq<u8>, offset: int) -> int {
    offset + (if s[offset] >= 64 { 2int } else { 1int })
}

/// What reading the fragments from `offset` on leaves behind. Reading ends at a
/// fragment that is not whole.
pub open spec fn fragments_from(
    s: Seq<u8>,
    offset: int,
    fragments: FragmentView,
    orders: usize,
) -> FastPathOutcome
    decreases s.len() - offset,
{
    let start = size_field(s, offset) + 2;
    if offset < 0 || offset >= s.len() || start > s.len() || start + le16_at(s, start - 2)
        > s.len() {
        FastPathOutcome { updates: Seq::empty(), fragments, orders }
    } else {
        let end = start + le16_at(s, start - 2);
        let (next, complete) = fragments.received(
            s[offset] % 16,
            s[offset] / 16 % 4,
            s.subrange(start, end),
        );
        let rest = fragments_from(s, end, next, complete_orders(complete, orders));
        FastPathOutcome { updates: complete_rectangles(complete) + rest.updates, ..rest }
    }
}

/// What a packet of fast-path output leaves behind.
pub open spec fn fastpath_outcome(
    s: Seq<u8>,
    fragments: FragmentView,
    orders: usize,
) -> FastPathOutcome {
    if s.len() < 4 || s[0] / 4 % 4 != 0 {
        FastPathOutcome { updates: Seq::empty(), fragments, orders }
    } else {
        fragments_from(
            s,
            if s[1] >= 128 {
                3
            } else {
                2
            },
            fragments,
            orders,
        )
    }
}

/// Every rectangle that was received can be addressed.
pub proof fn lemma_fragments_addressable(
    s: Seq<u8>,
    offset: int,
    fragments: FragmentView,
    orders: usize,
)
    ensures
        forall|i: int|
            0 <= i < fragments_from(s, offset, fragments, orders).updates.len() ==> addressable(
                #[trigger] fragments_from(s, offset, fragments, orders).updates[i],
            ),
    decreases s.len() - offset,
{
    let start = size_field(s, offset) + 2;
    if !(offset < 0 || offset >= s.len() || start > s.len() || start + le16_at(s, start - 2)
        > s.len()) {
        let end = start + le16_at(s, start - 2);
        let (next, complete) = fragments.received(
            s[offset] % 16,
            s[offset] / 16 % 4,
            s.subrange(start, end),
        );
        let first = complete_rectangles(complete);
        let rest = fragments_from(s, end, next, complete_orders(complete, orders)).updates;
        lemma_fragments_addressable(s, end, next, complete_orders(complete, orders));
        if let Some((code, data)) = complete {
            if code == 1 && data.len() >= 2 {
                lemma_rectangles_addressable(data.skip(2), le16_at(data, 0) as nat);
            }
        }
        let all = fragments_from(s, offset, fragments, orders).updates;
        assert(all == first + rest);
        assert forall|i: int| 0 <= i < all.len() implies addressable(#[trigger] all[i]) by {
            if i < first.len() {
                assert(all[i] == first[i]);
            } else {
                assert(all[i] == rest[i - first.len()]);
            }
        }
    }
}

/// What the state is after the parts of an update between first and last.
pub open spec fn continued(state: FragmentView, code: u8, chunks: Seq<Seq<u8>>) -> FragmentView
    decreases chunks.len(),
{
    if chunks.len() == 0 {
        state
    } else {
        continued(state, code, chunks.drop_last()).received(code, 3, chunks.last()).0
    }
}

proof fn lemma_continued(state: FragmentView, code: u8, chunks: Seq<Seq<u8>>)
    requires
        state.active,
        state.code == code,
    ensures
        continued(state, code, chunks) == (FragmentView {
            data: state.data + chunks.flatten(),
            ..state
        }),
    decreases chunks.len(),
{
    if chunks.len() == 0 {
        assert(state.data + chunks.flatten() =~= state.data);
    } else {
        lemma_continued(state, code, chunks.drop_last());
        chunks.lemma_flatten_and_flatten_alt_are_equivalent();
        chunks.drop_last().lemma_flatten_and_flatten_alt_are_equivalent();
        assert(state.data + (chunks.drop_last().flatten() + chunks.last()) =~= state.data
            + chunks.drop_last().flatten() + chunks.last());
    }
}

/// An update that comes in parts is put together: whatever came before, once
/// the last part is there the update is the parts in order.
pub proof fn parts_make_the_update(
    state: FragmentView,
    code: u8,
    first: Seq<u8>,
    chunks: Seq<Seq<u8>>,
    last: Seq<u8>,
)
    ensures
        continued(state.received(code, 2, first).0, code, chunks).received(code, 1, last).1 == Some(
            (code, first + chunks.flatten() + last),
        ),
{
    lemma_continued(state.received(code, 2, first).0, code, chunks);
}

/// Appends `from` to `to`, with pixel data of its own.
fn append_owned(to: &mut Vec<BitmapUpdate<'static>>, from: Vec<BitmapUpdate<'_>>)
    ensures
        updates_view(final(to)@) == updates_view(old(to)@) + updates_view(from@),
{
    let ghost all = updates_view(from@);
    let ghost before = updates_view(to@);
    let mut from = from;
    let mut reversed: Vec<BitmapUpdate<'_>> = Vec::new();
    while from.len() > 0
        invariant
            updates_view(from@) + updates_view(reversed@).reverse() == all,
        decreases from@.len(),
    {
        let ghost left = from@;
        let ghost right = reversed@;
        if let Some(update) = from.pop() {
            reversed.push(update);
            assert(updates_view(from@) + updates_view(reversed@).reverse() =~= updates_view(left)
                + updates_view(right).reverse());
        }
    }
    assert(updates_view(reversed@).reverse() =~= all);
    while reversed.len() > 0
        invariant
            updates_view(to@) + updates_view(reversed@).reverse() == before + all,
        decreases reversed@.len(),
    {
        let ghost left = to@;
        let ghost right = reversed@;
        if let Some(update) = reversed.pop() {
            to.push(update.into_owned());
            assert(updates_view(to@) + updates_view(reversed@).reverse() =~= updates_view(left)
                + updates_view(right).reverse());
        }
    }
    assert(updates_view(to@) =~= before + all);
}

impl FastPathFragmentState {
    /// Takes in a fragment; tells whether an update is complete with it, which
    /// then stands in `data`, except where the fragment is the whole of it.
    fn receive(&mut self, code: u8, kind: u8, chunk: &[u8]) -> (complete: bool)
        requires
            kind < 4,
        ensures
            ({
                let (next, update) = old(self)@.received(code, kind, chunk@);
                &&& final(self)@ == next
                &&& complete == (update is Some)
                &&& complete && kind != 0 ==> update == Some((code, final(self).data@))
                &&& complete && kind == 0 ==> update == Some((code, chunk@))
            }),
    {
        if kind == 0 {
            self.active = false;
            return true;
        }
        if kind == 2 {
            self.data.clear();
            put_bytes(&mut self.data, chunk);
            assert(self.data@ =~= chunk@);
            self.code = code;
            self.active = true;
            return false;
        }
        if kind == 3 {
            if self.active && self.code == code {
                put_bytes(&mut self.data, chunk);
            }
            return false;
        }
        if !self.active || self.code != code {
            self.active = false;
            self.data.clear();
            return false;
        }
        put_bytes(&mut self.data, chunk);
        self.active = false;
        true
    }
}

/// The bitmap rectangles of a packet of fast-path output. Fragments of updates
/// are kept until the update is complete.
pub fn process_fastpath_output(
    data: &[u8],
    fragments: &mut FastPathFragmentState,
    debug_stats: &mut RdpDebugStats,
) -> (res: Option<Vec<BitmapUpdate<'static>>>)
    ensures
        ({
            let outcome = fastpath_outcome(
                data@,
                old(fragments)@,
                old(debug_stats).counters.fastpath_orders,
            );
            &&& some_updates(res, outcome.updates)
            &&& final(fragments)@ == outcome.fragments
            &&& *final(debug_stats) == (RdpDebugStats {
                counters: DebugCounters {
                    fastpath_orders: outcome.orders,
                    ..old(debug_stats).counters
                },
                ..*old(debug_stats)
            })
        }),
{
    if data.len() < 4 {
        return None;
    }
    if data[0] / 4 % 4 != 0 {
        return None;
    }
    let mut offset: usize = if data[1] >= 128 {
        3
    } else {
        2
    };
    let mut all_updates: Vec<BitmapUpdate<'static>> = Vec::new();
    let size = data.len();
    let mut more = true;
    let ghost outcome = fastpath_outcome(
        data@,
        fragments@,
        debug_stats.counters.fastpath_orders,
    );
    assert(updates_view(all_updates@) =~= Seq::<BitmapView>::empty());
    assert(updates_view(all_updates@) + outcome.updates =~= outcome.updates);
    while more && offset < size
        invariant
            size == data@.len(),
            offset <= size,
            *debug_stats == (RdpDebugStats {
                counters: DebugCounters {
                    fastpath_orders: debug_stats.counters.fastpath_orders,
                    ..old(debug_stats).counters
                },
                ..*old(debug_stats)
            }),
            more ==> ({
                let rest = fragments_from(
                    data@,
                    offset as int,
                    fragments@,
                    debug_stats.counters.fastpath_orders,
                );
                &&& updates_view(all_updates@) + rest.updates == outcome.updates
                &&& rest.fragments == outcome.fragments
                &&& rest.orders == outcome.orders
            }),
            !more ==> updates_view(all_updates@) == outcome.updates && fragments@
                == outcome.fragments && debug_stats.counters.fastpath_orders == outcome.orders,
        decreases (if more { size - offset + 1 } else { 0 }),
    {
        let header = data[offset];
        let code = header % 16;
        let kind = header / 16 % 4;
        let field: usize = if header >= 64 {
            2
        } else {
            1
        };
        assert(updates_view(all_updates@) + Seq::<BitmapView>::empty() =~= updates_view(
            all_updates@,
        ));
        if size - offset < field + 2 {
            more = false;
        } else {
            let start = offset + field + 2;
            let length = data[start - 2] as usize + 256 * data[start - 1] as usize;
            if size - start < length {
                more = false;
            } else {
                let end = start + length;
                let chunk = vstd::slice::slice_subrange(data, start, end);
                let ghost before = fragments@;
                let ghost orders = debug_stats.counters.fastpath_orders;
                let ghost seen = updates_view(all_updates@);
                let complete = fragments.receive(code, kind, chunk);
                let ghost update = before.received(code, kind, chunk@).1;
                if complete && code == 1 {
                    let found = if kind == 0 {
                        parse_update_pdu_bitmap_only(chunk)
                    } else {
                        parse_update_pdu_bitmap_only(fragments.data.as_slice())
                    };
                    if let Some(updates) = found {
                        append_owned(&mut all_updates, updates);
                    } else {
                        assert(counted_rectangles((update->0).1) =~= Seq::empty());
                    }
                }
                if complete && code == 0 {
                    debug_stats.counters.fastpath_orders =
                    bump(debug_stats.counters.fastpath_orders);
                }
                assert(updates_view(all_updates@) =~= seen + complete_rectangles(update));
                proof {
                    let rest = fragments_from(
                        data@,
                        end as int,
                        fragments@,
                        debug_stats.counters.fastpath_orders,
                    );
                    assert(debug_stats.counters.fastpath_orders == complete_orders(update, orders));
                    assert(seen + (complete_rectangles(update) + rest.updates) =~= updates_view(
                        all_updates@,
                    ) + rest.updates);
                }
                offset = end;
            }
        }
    }
    assert(updates_view(all_updates@) + Seq::<BitmapView>::empty() =~= updates_view(all_updates@));
    if all_updates.len() == 0 {
        None
    } else {
        Some(all_updates)
    }
}

} // verus!
