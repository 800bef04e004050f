//! What has come from the server and has not been dealt with yet.

use bytes::{Buf, BytesMut};
use vstd::prelude::*;

use crate::framing::{get_pdu_length, message_length};

verus! {

/// Most bytes that are kept of a message that is not complete.
pub const MAX_KEPT: usize = 524_288;

// ---- The buffer -------------------------------------------------------------

/// A buffer of bytes that are appended at its end and taken from its front.
#[verifier::external_type_specification]
#[verifier::external_body]
pub struct ExBytesMut(BytesMut);

/// The bytes that a buffer holds.
pub uninterp spec fn buffered(buffer: BytesMut) -> Seq<u8>;

/// `BytesMut::with_capacity` makes a buffer that holds nothing.
pub assume_specification[ BytesMut::with_capacity ](capacity: usize) -> (buffer: BytesMut)
    requires
        capacity <= isize::MAX,
    ensures
        buffered(buffer) == Seq::<u8>::empty(),
;

/// `BytesMut::len` counts the bytes of a buffer.
pub assume_specification[ BytesMut::len ](buffer: &BytesMut) -> (n: usize)
    ensures
        n == buffered(*buffer).len(),
;

/// `BytesMut::clear` takes every byte from a buffer.
pub assume_specification[ BytesMut::clear ](buffer: &mut BytesMut)
    ensures
        buffered(*final(buffer)) == Seq::<u8>::empty(),
;

/// `BytesMut::extend_from_slice` appends bytes. It panics where it asks for
/// more than `isize::MAX` bytes of space; it asks for less than four times what
/// the buffer then holds.
pub assume_specification[ BytesMut::extend_from_slice ](buffer: &mut BytesMut, added: &[u8])
    requires
        buffered(*old(buffer)).len() + added@.len() <= usize::MAX / 8,
    ensures
        buffered(*final(buffer)) == buffered(*old(buffer)) + added@,
;

/// Calls `Buf::advance`, which takes `n` bytes from the front of a buffer and
/// panics where it holds fewer.
#[verifier::external_body]
fn advance(buffer: &mut BytesMut, n: usize)
    requires
        n <= buffered(*old(buffer)).len(),
    ensures
        buffered(*final(buffer)) == buffered(*old(buffer)).skip(n as int),
{
    buffer.advance(n);
}

/// Calls `AsRef::as_ref`, which gives the bytes of a buffer.
#[verifier::external_body]
fn bytes_of(buffer: &BytesMut) -> (bytes: &[u8])
    ensures
        bytes@ == buffered(*buffer),
{
    buffer.as_ref()
}

// ---- Messages ---------------------------------------------------------------

/// Whether a stream begins with a complete message.
pub open spec fn has_message(s: Seq<u8>) -> bool {
    message_length(s) matches Some(n) && n <= s.len()
}

/// The first message of a stream that begins with a complete one.
pub open spec fn first_message(s: Seq<u8>) -> Seq<u8> {
    s.take(message_length(s)->0 as int)
}

/// The stream behind that message.
pub open spec fn behind_first(s: Seq<u8>) -> Seq<u8> {
    s.skip(message_length(s)->0 as int)
}

/// The complete messages of a stream.
pub open spec fn messages(s: Seq<u8>) -> Seq<Seq<u8>>
    decreases s.len(),
{
    if has_message(s) && message_length(s)->0 > 0 {
        seq![first_message(s)] + messages(behind_first(s))
    } else {
        Seq::empty()
    }
}

/// What of a stream belongs to no complete message.
pub open spec fn unfinished(s: Seq<u8>) -> Seq<u8>
    decreases s.len(),
{
    if has_message(s) && message_length(s)->0 > 0 {
        unfinished(behind_first(s))
    } else {
        s
    }
}

/// Messages have at least one byte and at most 65535.
pub proof fn lemma_message_length(s: Seq<u8>)
    ensures
        message_length(s) matches Some(n) ==> 0 < n <= 0xFFFF,
{
}

/// More bytes do not change the length of the message that a stream begins
/// with, once it can be told.
proof fn lemma_length_is_known(s: Seq<u8>, more: Seq<u8>)
    ensures
        message_length(s) is Some ==> message_length(s + more) == message_length(s),
{
    assert forall|i: int| 0 <= i < s.len() implies (s + more)[i] == s[i] by {}
}

/// The messages that arrive do not depend on the pieces in which the stream
/// arrives: those of the first piece, and then those of what it left
/// unfinished with the second behind it.
pub proof fn pieces_do_not_matter(first: Seq<u8>, second: Seq<u8>)
    ensures
        messages(first + second) == messages(first) + messages(unfinished(first) + second),
        unfinished(first + second) == unfinished(unfinished(first) + second),
    decreases first.len(),
{
    lemma_message_length(first);
    if has_message(first) {
        lemma_length_is_known(first, second);
        let n = message_length(first)->0 as int;
        let rest = behind_first(first);
        pieces_do_not_matter(rest, second);
        assert((first + second).take(n) =~= first.take(n));
        assert((first + second).skip(n) =~= rest + second);
        assert(messages(first + second) == seq![first.take(n)] + messages(rest + second));
        assert(seq![first.take(n)] + (messages(rest) + messages(unfinished(rest) + second))
            =~= seq![first.take(n)] + messages(rest) + messages(unfinished(rest) + second));
    } else {
        assert(Seq::<Seq<u8>>::empty() + messages(first + second) =~= messages(first + second));
    }
}

/// What is left unfinished is shorter than the longest message, so it is never
/// so long that it is dropped.
pub proof fn unfinished_is_short(s: Seq<u8>)
    ensures
        !has_message(unfinished(s)),
        unfinished(s).len() < 0xFFFF,
        unfinished(s).len() <= MAX_KEPT,
    decreases s.len(),
{
    lemma_message_length(s);
    if has_message(s) {
        unfinished_is_short(behind_first(s));
    }
}

/// No byte is lost: the messages and what is left unfinished make up the
/// stream.
pub proof fn no_byte_is_lost(s: Seq<u8>)
    ensures
        messages(s).flatten() + unfinished(s) == s,
    decreases s.len(),
{
    lemma_message_length(s);
    if has_message(s) {
        let rest = behind_first(s);
        no_byte_is_lost(rest);
        let all = messages(s);
        assert(all.drop_first() =~= messages(rest));
        assert(all.first() == first_message(s));
        assert(all.flatten() == first_message(s) + messages(rest).flatten());
        assert(first_message(s) + messages(rest).flatten() + unfinished(s) =~= first_message(s)
            + rest);
        assert(first_message(s) + rest =~= s);
    } else {
        assert(Seq::<Seq<u8>>::empty().flatten() + s =~= s);
    }
}

// ---- The inbox --------------------------------------------------------------

/// What has come from the server and has not been dealt with yet.
pub struct Inbox {
    buffer: BytesMut,
}

impl View for Inbox {
    type V = Seq<u8>;

    closed spec fn view(&self) -> Seq<u8> {
        buffered(self.buffer)
    }
}

impl Inbox {
    /// Nothing has come yet.
    pub fn new() -> (inbox: Self)
        ensures
            inbox@ == Seq::<u8>::empty(),
    {
        Inbox { buffer: BytesMut::with_capacity(262_144) }
    }

    /// Takes in what came.
    pub fn receive(&mut self, data: &[u8])
        requires
            old(self)@.len() + data@.len() <= usize::MAX / 8,
        ensures
            final(self)@ == old(self)@ + data@,
    {
        self.buffer.extend_from_slice(data);
    }

    /// The first message, where it is complete.
    pub fn first(&self) -> (message: Option<&[u8]>)
        ensures
            match message {
                Some(bytes) => has_message(self@) && bytes@ == first_message(self@),
                None => !has_message(self@),
            },
    {
        let bytes = bytes_of(&self.buffer);
        match get_pdu_length(bytes) {
            Some(n) => if n <= bytes.len() {
                Some(vstd::slice::slice_subrange(bytes, 0, n))
            } else {
                None
            },
            None => None,
        }
    }

    /// Puts the first `n` bytes aside.
    pub fn skip(&mut self, n: usize)
        requires
            n <= old(self)@.len(),
        ensures
            final(self)@ == old(self)@.skip(n as int),
    {
        advance(&mut self.buffer, n);
    }

    /// Drops everything where too much is left unfinished.
    pub fn trim(&mut self)
        ensures
            final(self)@ == (if old(self)@.len() > MAX_KEPT {
                Seq::<u8>::empty()
            } else {
                old(self)@
            }),
    {
        if self.buffer.len() > MAX_KEPT {
            self.buffer.clear();
        }
    }
}

} // verus!
