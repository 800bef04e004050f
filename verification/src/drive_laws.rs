//! What the channel of mapped folders promises, said from the side of the
//! server: the requests that it writes, what the file system is then asked, and
//! what the server reads in the answers.

use vstd::prelude::*;
use vstd::utf8::encode_utf8;

use crate::drive::{
    answer, change_answer, client_name_message, close_answer, create_step, list_step, next_entry,
    open_plan, opened_step, path_text, read_answer, usable, within, write_answer, DriveView,
    HandleView, ListView, OpenPlan, OpenTicket, Purpose, StepView, TargetFacts,
};
use crate::drive_data::{
    attributes, completion, create_data, directory_data, entry_data, failure_status, length_data,
    times, volume_data, write_data, IoFailure,
};
use crate::encoding::{
    lemma_until_zero, lemma_utf16_nonzero, unit_bytes, unit_bytes_round_trip, utf16, utf16_bytes,
    utf16_round_trip,
};
use crate::fields::{
    eight_bytes, four_bytes, lemma_bytes, lemma_eight_at, lemma_four_at, lemma_two_at,
    lemma_written, numbers_are_written, two_bytes, u16_at, u32_at,
};
use crate::paths::{mapped_names, search_parts};
use crate::wire::{le16, le16_at, le32, le32_at, le64_at, zeros};

verus! {

// ---- Answers ----------------------------------------------------------------

/// Whether a step is to send one message, the answer to request `id` of the
/// device, with a status and data.
pub open spec fn answers(step: StepView, id: int, status: int, data: Seq<u8>) -> bool {
    &&& step is Respond
    &&& step->Respond_0.len() == 1
    &&& ({
        let m = step->Respond_0[0];
        &&& m.len() == 16 + data.len()
        &&& u16_at(m, 0) == 0x4472
        &&& u16_at(m, 2) == 0x4943
        &&& u32_at(m, 4) == 1
        &&& u32_at(m, 8) == id
        &&& u32_at(m, 12) == status
        &&& m.skip(16) == data
    })
}

/// Answers tell which request they are to, its status and their data.
pub proof fn answers_are_sent(id: u32, status: u32, data: Seq<u8>)
    ensures
        answers(answer(id, status, data), id as int, status as int, data),
{
    let m = completion(1, id, status, data);
    numbers_are_written(0x4472, 1, 0);
    numbers_are_written(0x4943, id, 0);
    numbers_are_written(0, status, 0);
    assert(m[0] == le16(0x4472)[0] && m[1] == le16(0x4472)[1]);
    assert(m[2] == le16(0x4943)[0] && m[3] == le16(0x4943)[1]);
    assert(m[4] == le32(1)[0] && m[5] == le32(1)[1] && m[6] == le32(1)[2] && m[7] == le32(1)[3]);
    assert(m[8] == le32(id)[0] && m[9] == le32(id)[1] && m[10] == le32(id)[2] && m[11]
        == le32(id)[3]);
    assert(m[12] == le32(status)[0] && m[13] == le32(status)[1] && m[14] == le32(status)[2]
        && m[15] == le32(status)[3]);
    assert(m.skip(16) =~= data);
    assert(answer(id, status, data)->Respond_0[0] == m);
}

/// The status of a failure, as the protocol numbers them.
pub open spec fn status_number(failure: IoFailure) -> int {
    match failure {
        IoFailure::NotFound => 0xC000_000F,
        IoFailure::PermissionDenied => 0xC000_0022,
        IoFailure::AlreadyExists => 0xC000_0035,
        IoFailure::DirectoryNotEmpty => 0xC000_0101,
        IoFailure::InvalidInput => 0xC000_000D,
        IoFailure::Other => 0xC000_0001,
    }
}

/// The number that an outcome is told by: zero is success.
pub open spec fn told(outcome: Result<(), IoFailure>) -> int {
    match outcome {
        Ok(()) => 0,
        Err(failure) => status_number(failure),
    }
}

/// What was read is answered as it is, with its length before it; a failure has
/// no data.
pub proof fn what_was_read_is_sent(id: u32, data: Seq<u8>, failure: IoFailure)
    requires
        data.len() <= 0xFFFF_FFFF,
    ensures
        answers(read_answer(id, Ok(data)), id as int, 0, four_bytes(data.len() as u32) + data),
        answers(
            read_answer(id, Err(failure)),
            id as int,
            status_number(failure),
            four_bytes(0),
        ),
{
    lemma_length_data(data);
    lemma_length_data(Seq::empty());
    answers_are_sent(id, 0, length_data(data));
    answers_are_sent(id, failure_status(failure), length_data(Seq::empty()));
    assert(four_bytes(0) + Seq::<u8>::empty() =~= four_bytes(0));
}

proof fn lemma_length_data(data: Seq<u8>)
    requires
        data.len() <= 0xFFFF_FFFF,
    ensures
        length_data(data) == four_bytes(data.len() as u32) + data,
{
    assert(length_data(data) =~= four_bytes(data.len() as u32) + data);
}

/// A write is answered with the bytes that were written: all of them, or none
/// where it failed.
pub proof fn what_was_written_is_told(id: u32, length: u32, outcome: Result<(), IoFailure>)
    ensures
        answers(
            write_answer(id, length, outcome),
            id as int,
            told(outcome),
            four_bytes(if outcome is Ok { length } else { 0 }) + seq![0u8],
        ),
{
    let written = if outcome is Ok { length } else { 0 };
    let status = match outcome {
        Ok(()) => 0u32,
        Err(failure) => failure_status(failure),
    };
    answers_are_sent(id, status, write_data(written));
    assert(write_data(written) =~= four_bytes(written) + seq![0u8]);
}

/// Changes and closings are answered with their outcome.
pub proof fn changes_are_told(id: u32, length: u32, outcome: Result<(), IoFailure>)
    ensures
        answers(change_answer(id, length, outcome), id as int, told(outcome), four_bytes(length)),
        answers(close_answer(id, outcome), id as int, told(outcome), seq![0u8, 0, 0, 0, 0]),
{
    let status = match outcome {
        Ok(()) => 0u32,
        Err(failure) => failure_status(failure),
    };
    answers_are_sent(id, status, le32(length));
    assert(le32(length) =~= four_bytes(length));
    answers_are_sent(id, status, zeros(5));
    assert(zeros(5) =~= seq![0u8, 0, 0, 0, 0]);
}

/// An opened path is answered with its number and whether it was there before;
/// one that could not be opened with its failure and number zero.
pub proof fn opening_is_told(ticket: OpenTicket, outcome: Result<(), IoFailure>)
    ensures
        answers(
            opened_step(ticket, outcome),
            ticket.completion_id as int,
            told(outcome),
            match outcome {
                Ok(()) => four_bytes(ticket.file_id) + seq![
                    if ticket.existed {
                        1u8
                    } else {
                        2u8
                    },
                ],
                Err(_) => seq![0u8, 0, 0, 0, 0],
            },
        ),
{
    let id = ticket.completion_id;
    match outcome {
        Ok(()) => {
            let info: u8 = if ticket.existed { 1 } else { 2 };
            answers_are_sent(id, 0, create_data(ticket.file_id, info));
            assert(create_data(ticket.file_id, info) =~= four_bytes(ticket.file_id) + seq![info]);
        },
        Err(failure) => {
            answers_are_sent(id, failure_status(failure), create_data(0, 0));
            assert(create_data(0, 0) =~= seq![0u8, 0, 0, 0, 0]);
        },
    }
}

// ---- Requests ---------------------------------------------------------------

/// A request as the server writes it.
pub open spec fn request(
    device: u32,
    file: u32,
    id: u32,
    major: u32,
    minor: u32,
    input: Seq<u8>,
) -> Seq<u8> {
    seq![0x72u8, 0x44, 0x52, 0x49] + four_bytes(device) + four_bytes(file) + four_bytes(id)
        + four_bytes(major) + four_bytes(minor) + input
}

proof fn lemma_request(device: u32, file: u32, id: u32, major: u32, minor: u32, input: Seq<u8>)
    ensures
        ({
            let m = request(device, file, id, major, minor, input);
            &&& m.len() == 24 + input.len()
            &&& le16_at(m, 0) == 0x4472
            &&& le16_at(m, 2) == 0x4952
            &&& le32_at(m, 4) == device
            &&& le32_at(m, 8) == file
            &&& le32_at(m, 12) == id
            &&& le32_at(m, 16) == major
            &&& le32_at(m, 20) == minor
            &&& m.skip(24) == input
        }),
{
    let m = request(device, file, id, major, minor, input);
    let a = seq![0x72u8, 0x44, 0x52, 0x49];
    let b = a + four_bytes(device);
    let c = b + four_bytes(file);
    let d = c + four_bytes(id);
    let e = d + four_bytes(major);
    let tail = four_bytes(minor) + input;
    assert(m =~= e + four_bytes(minor) + input);
    lemma_bytes(e, 0, minor, 0, input);
    assert(m =~= d + four_bytes(major) + tail);
    lemma_bytes(d, 0, major, 0, tail);
    assert(m =~= c + four_bytes(id) + (four_bytes(major) + tail));
    lemma_bytes(c, 0, id, 0, four_bytes(major) + tail);
    assert(m =~= b + four_bytes(file) + (four_bytes(id) + four_bytes(major) + tail));
    lemma_bytes(b, 0, file, 0, four_bytes(id) + four_bytes(major) + tail);
    assert(m =~= a + four_bytes(device) + (four_bytes(file) + four_bytes(id) + four_bytes(major)
        + tail));
    lemma_bytes(a, 0, device, 0, four_bytes(file) + four_bytes(id) + four_bytes(major) + tail);
    assert(m[0] == 0x72 && m[1] == 0x44 && m[2] == 0x52 && m[3] == 0x49);
    assert(m.skip(24) =~= input);
}

/// Which part of the device works on a request, and on which file and under which
/// number. Only closing and changing a file change what is known.
pub proof fn requests_are_routed(
    state: DriveView,
    file: u32,
    id: u32,
    major: u32,
    minor: u32,
    input: Seq<u8>,
)
    ensures
        ({
            let outcome = state.message_outcome(request(1, file, id, major, minor, input));
            &&& major == 0 ==> outcome == (state, create_step(id, input))
            &&& major == 2 ==> outcome == (
                DriveView { handles: state.handles.remove(file), ..state },
                state.close_step(id, file),
            )
            &&& major == 3 ==> outcome == (state, state.read_step(id, file, input))
            &&& major == 4 ==> outcome == (state, state.write_step(id, file, input))
            &&& major == 5 ==> outcome == (state, state.query_step(id, file, input))
            &&& major == 6 ==> outcome == state.set_outcome(id, file, input)
            &&& major == 10 ==> outcome == (state, state.volume_step(id, input))
            &&& major == 12 && minor == 1 ==> outcome == (state, list_step(state, id, file, input))
        }),
{
    lemma_request(1, file, id, major, minor, input);
}

/// Whether `file` is an open file, and no folder.
pub open spec fn is_open(state: DriveView, file: u32) -> bool {
    state.handles.contains_key(file) && state.handles[file].is_file
}

/// Most bytes that are moved at once.
pub open spec fn limit() -> int {
    1_048_576
}

/// A read begins where the request says, and asks for as many bytes as it says.
pub proof fn reads_begin_where_asked(
    state: DriveView,
    file: u32,
    id: u32,
    length: u32,
    offset: u64,
    padding: Seq<u8>,
)
    ensures
        ({
            let input = four_bytes(length) + eight_bytes(offset) + padding;
            let step = state.read_step(id, file, input);
            &&& if length > limit() {
                answers(step, id as int, 0xC000_000D, four_bytes(0))
            } else if !is_open(state, file) {
                answers(step, id as int, 0xC000_000F, four_bytes(0))
            } else {
                step == (StepView::Read { completion_id: id, file_id: file, offset, length })
            }
        }),
{
    let input = four_bytes(length) + eight_bytes(offset) + padding;
    assert(input =~= Seq::<u8>::empty() + four_bytes(length) + (eight_bytes(offset) + padding));
    lemma_bytes(Seq::empty(), 0, length, 0, eight_bytes(offset) + padding);
    lemma_bytes(four_bytes(length), 0, 0, offset, padding);
    lemma_length_data(Seq::empty());
    assert(four_bytes(0) + Seq::<u8>::empty() =~= four_bytes(0));
    answers_are_sent(id, 0xC000_000D, four_bytes(0));
    answers_are_sent(id, 0xC000_000F, four_bytes(0));
}

proof fn lemma_write_input(offset: u64, padding: Seq<u8>, data: Seq<u8>, rest: Seq<u8>)
    requires
        padding.len() == 20,
        data.len() <= 0xFFFF_FFFF,
    ensures
        ({
            let input = four_bytes(data.len() as u32) + eight_bytes(offset) + padding + data + rest;
            &&& input.len() == 32 + data.len() + rest.len()
            &&& le32_at(input, 0) == data.len()
            &&& le64_at(input, 4) == offset
            &&& input.subrange(32, 32 + data.len() as int) == data
        }),
{
    let length = data.len() as u32;
    let input = four_bytes(length) + eight_bytes(offset) + padding + data + rest;
    let tail = padding + data + rest;
    assert(input =~= Seq::<u8>::empty() + four_bytes(length) + (eight_bytes(offset) + tail));
    lemma_bytes(Seq::empty(), 0, length, 0, eight_bytes(offset) + tail);
    assert(input =~= four_bytes(length) + eight_bytes(offset) + tail);
    lemma_bytes(four_bytes(length), 0, 0, offset, tail);
    assert(input.subrange(32, 32 + data.len() as int) =~= data);
}

/// A write begins where the request says, and writes the bytes that follow.
pub proof fn writes_begin_where_asked(
    state: DriveView,
    file: u32,
    id: u32,
    offset: u64,
    padding: Seq<u8>,
    data: Seq<u8>,
    rest: Seq<u8>,
)
    requires
        padding.len() == 20,
        data.len() <= 0xFFFF_FFFF,
    ensures
        ({
            let input = four_bytes(data.len() as u32) + eight_bytes(offset) + padding + data + rest;
            let step = state.write_step(id, file, input);
            &&& if data.len() > limit() {
                answers(step, id as int, 0xC000_000D, seq![0u8, 0, 0, 0, 0])
            } else if !is_open(state, file) {
                answers(step, id as int, 0xC000_000F, seq![0u8, 0, 0, 0, 0])
            } else {
                step == (StepView::Write { completion_id: id, file_id: file, offset, data })
            }
        }),
{
    let length = data.len() as u32;
    let input = four_bytes(length) + eight_bytes(offset) + padding + data + rest;
    lemma_write_input(offset, padding, data, rest);
    assert(write_data(0) =~= seq![0u8, 0, 0, 0, 0]);
    answers_are_sent(id, 0xC000_000D, write_data(0));
    answers_are_sent(id, 0xC000_000F, write_data(0));
}

/// Text as the server writes it: in units of two bytes, with a zero at its end.
pub open spec fn wide(text: Seq<char>) -> Seq<u8> {
    unit_bytes(utf16(text).push(0))
}

proof fn lemma_wide(text: Seq<char>)
    requires
        !text.contains('\0'),
    ensures
        path_text(wide(text)) == Some(text),
        wide(text).len() == 2 * utf16(text).len() + 2,
{
    let units = utf16(text).push(0);
    unit_bytes_round_trip(units);
    lemma_utf16_nonzero(text);
    lemma_until_zero(utf16(text), seq![0u16]);
    assert(units =~= utf16(text) + seq![0u16]);
    utf16_round_trip(text);
}

proof fn lemma_create_input(
    access: u32,
    size: u64,
    shared: Seq<u8>,
    disposition: u32,
    options: u32,
    path: Seq<u8>,
    rest: Seq<u8>,
)
    requires
        shared.len() == 8,
        path.len() <= limit(),
    ensures
        ({
            let input = four_bytes(access) + eight_bytes(size) + shared + four_bytes(disposition)
                + four_bytes(options) + four_bytes(path.len() as u32) + path + rest;
            &&& input.len() == 32 + path.len() + rest.len()
            &&& le32_at(input, 0) == access
            &&& le64_at(input, 4) == size
            &&& le32_at(input, 20) == disposition
            &&& le32_at(input, 24) == options
            &&& le32_at(input, 28) == path.len()
            &&& input.subrange(32, 32 + path.len() as int) == path
        }),
{
    let n = path.len() as u32;
    let input = four_bytes(access) + eight_bytes(size) + shared + four_bytes(disposition)
        + four_bytes(options) + four_bytes(n) + path + rest;
    assert(input.subrange(0, 4) =~= four_bytes(access));
    assert(input.subrange(4, 12) =~= eight_bytes(size));
    assert(input.subrange(20, 24) =~= four_bytes(disposition));
    assert(input.subrange(24, 28) =~= four_bytes(options));
    assert(input.subrange(28, 32) =~= four_bytes(n));
    assert(input.subrange(32, 32 + path.len() as int) =~= path);
    lemma_four_at(input, 0, access);
    lemma_eight_at(input, 4, size);
    lemma_four_at(input, 20, disposition);
    lemma_four_at(input, 24, options);
    lemma_four_at(input, 28, n);
}

/// A request to open asks for the names of its path, with the access, size,
/// disposition and options that it states. Paths that lead out are denied.
pub proof fn opening_asks_for_the_path(
    file: u32,
    id: u32,
    access: u32,
    size: u64,
    shared: Seq<u8>,
    disposition: u32,
    options: u32,
    path: Seq<char>,
    rest: Seq<u8>,
)
    requires
        shared.len() == 8,
        !path.contains('\0'),
        wide(path).len() <= limit(),
    ensures
        ({
            let input = four_bytes(access) + eight_bytes(size) + shared + four_bytes(disposition)
                + four_bytes(options) + four_bytes(wide(path).len() as u32) + wide(path) + rest;
            let step = create_step(id, input);
            &&& match mapped_names(path) {
                Some(names) => step == (StepView::Locate {
                    purpose: Purpose::Create {
                        completion_id: id,
                        desired_access: access,
                        allocation_size: size,
                        disposition,
                        options,
                    },
                    names,
                }),
                None => answers(step, id as int, 0xC000_0022, seq![0u8, 0, 0, 0, 0]),
            }
        }),
{
    let n = wide(path).len() as u32;
    let input = four_bytes(access) + eight_bytes(size) + shared + four_bytes(disposition)
        + four_bytes(options) + four_bytes(n) + wide(path) + rest;
    lemma_wide(path);
    lemma_create_input(access, size, shared, disposition, options, wide(path), rest);
    answers_are_sent(id, 0xC000_0022, create_data(0, 0));
    assert(create_data(0, 0) =~= seq![0u8, 0, 0, 0, 0]);
}

/// A file that is closed is no longer open, and is deleted where that was asked;
/// the others stay.
pub proof fn closing_ends_a_file(state: DriveView, file: u32, id: u32, minor: u32, input: Seq<u8>)
    ensures
        ({
            let (next, step) = state.message_outcome(request(1, file, id, 2, minor, input));
            &&& !next.handles.contains_key(file)
            &&& forall|other: u32|
                other != file ==> (#[trigger] next.handles.contains_key(other)
                    == state.handles.contains_key(other)) && (state.handles.contains_key(other)
                    ==> next.handles[other] == state.handles[other])
            &&& next == (DriveView { handles: next.handles, ..state })
            &&& if state.handles.contains_key(file) {
                step == (StepView::Close {
                    completion_id: id,
                    file_id: file,
                    delete: state.handles[file].delete_on_close,
                })
            } else {
                answers(step, id as int, 0xC000_000F, seq![0u8, 0, 0, 0, 0])
            }
        }),
{
    requests_are_routed(state, file, id, 2, minor, input);
    answers_are_sent(id, 0xC000_000F, zeros(5));
    assert(zeros(5) =~= seq![0u8, 0, 0, 0, 0]);
}

/// A question about a file is asked of the class that it names.
pub proof fn questions_are_asked(
    state: DriveView,
    file: u32,
    id: u32,
    class: u32,
    rest: Seq<u8>,
)
    ensures
        ({
            let input = four_bytes(class) + rest;
            let step = state.query_step(id, file, input);
            &&& if state.handles.contains_key(file) {
                step == (StepView::Inspect { completion_id: id, file_id: file, class })
            } else {
                answers(step, id as int, 0xC000_000F, four_bytes(0))
            }
        }),
        ({
            let input = four_bytes(class) + rest;
            let step = state.volume_step(id, input);
            &&& match volume_data(class, state.name) {
                Some(data) => step == answer(id, 0, length_data(data)),
                None => answers(step, id as int, 0xC000_00BB, four_bytes(0)),
            }
        }),
{
    let input = four_bytes(class) + rest;
    assert(input =~= Seq::<u8>::empty() + four_bytes(class) + rest);
    lemma_bytes(Seq::empty(), 0, class, 0, rest);
    lemma_length_data(Seq::empty());
    assert(four_bytes(0) + Seq::<u8>::empty() =~= four_bytes(0));
    answers_are_sent(id, 0xC000_000F, four_bytes(0));
    answers_are_sent(id, 0xC000_00BB, four_bytes(0));
}

/// A change as the server writes it: its class, and what it is.
pub open spec fn change(class: u32, padding: Seq<u8>, data: Seq<u8>, rest: Seq<u8>) -> Seq<u8> {
    four_bytes(class) + four_bytes(data.len() as u32) + padding + data + rest
}

proof fn lemma_change(class: u32, padding: Seq<u8>, data: Seq<u8>, rest: Seq<u8>)
    requires
        padding.len() == 24,
        data.len() <= limit(),
    ensures
        ({
            let input = change(class, padding, data, rest);
            &&& input.len() == 32 + data.len() + rest.len()
            &&& le32_at(input, 0) == class
            &&& le32_at(input, 4) == data.len()
            &&& input.subrange(32, 32 + data.len() as int) == data
        }),
{
    let n = data.len() as u32;
    let input = change(class, padding, data, rest);
    let tail = padding + data + rest;
    assert(input =~= four_bytes(class) + four_bytes(n) + tail);
    lemma_bytes(four_bytes(class), 0, n, 0, tail);
    assert(input =~= Seq::<u8>::empty() + four_bytes(class) + (four_bytes(n) + tail));
    lemma_bytes(Seq::empty(), 0, class, 0, four_bytes(n) + tail);
    assert(input.subrange(32, 32 + data.len() as int) =~= data);
}

/// The length of a file is set to the size that is asked, under both names of
/// that change; a folder has none.
pub proof fn lengths_are_set(
    state: DriveView,
    file: u32,
    id: u32,
    class: u32,
    padding: Seq<u8>,
    size: u64,
    rest: Seq<u8>,
)
    requires
        padding.len() == 24,
        class == 20 || class == 19,
        state.handles.contains_key(file),
    ensures
        ({
            let input = change(class, padding, eight_bytes(size), rest);
            let (next, step) = state.set_outcome(id, file, input);
            &&& next == state
            &&& if state.handles[file].is_file {
                step == (StepView::SetLength { completion_id: id, file_id: file, size, length: 8 })
            } else {
                answers(step, id as int, 0xC000_0022, four_bytes(8))
            }
        }),
{
    let data = eight_bytes(size);
    let input = change(class, padding, data, rest);
    assert(data.len() == 8);
    lemma_change(class, padding, data, rest);
    lemma_bytes(Seq::empty(), 0, 0, size, Seq::empty());
    assert(Seq::<u8>::empty() + data + Seq::<u8>::empty() =~= data);
    answers_are_sent(id, 0xC000_0022, le32(8));
    assert(le32(8) =~= four_bytes(8));
}

/// A file is marked to be deleted when it is closed, or no longer to be, as the
/// request says; nothing else changes.
pub proof fn deletion_is_marked(
    state: DriveView,
    file: u32,
    id: u32,
    padding: Seq<u8>,
    mark: Seq<u8>,
    rest: Seq<u8>,
)
    requires
        padding.len() == 24,
        mark.len() <= 1,
        state.handles.contains_key(file),
    ensures
        ({
            let input = change(13, padding, mark, rest);
            let (next, step) = state.set_outcome(id, file, input);
            let handle = state.handles[file];
            &&& next.handles.contains_key(file)
            &&& next.handles[file].delete_on_close == !(mark.len() == 1 && mark[0] == 0)
            &&& next.handles[file].is_file == handle.is_file
            &&& next.handles[file].entries == handle.entries
            &&& next.handles[file].index == handle.index
            &&& next == (DriveView {
                handles: state.handles.insert(file, next.handles[file]),
                ..state
            })
            &&& answers(step, id as int, 0, four_bytes(mark.len() as u32))
        }),
{
    let input = change(13, padding, mark, rest);
    lemma_change(13, padding, mark, rest);
    let n = mark.len() as u32;
    answers_are_sent(id, 0, le32(n));
    assert(le32(n) =~= four_bytes(n));
}

proof fn lemma_rename_data(replace: u8, root: u8, path: Seq<u8>)
    requires
        path.len() <= limit(),
    ensures
        ({
            let data = seq![replace, root] + four_bytes(path.len() as u32) + path;
            &&& data.len() == 6 + path.len()
            &&& data[0] == replace
            &&& le32_at(data, 2) == path.len()
            &&& data.subrange(6, 6 + path.len() as int) == path
        }),
{
    let n = path.len() as u32;
    let data = seq![replace, root] + four_bytes(n) + path;
    lemma_bytes(seq![replace, root], 0, n, 0, path);
    assert(data.subrange(6, 6 + path.len() as int) =~= path);
}

/// A file is renamed to the names of the path that the request gives; another
/// file is replaced only where that is asked.
pub proof fn renaming_asks_for_the_path(
    state: DriveView,
    file: u32,
    id: u32,
    padding: Seq<u8>,
    replace: u8,
    root: u8,
    path: Seq<char>,
    rest: Seq<u8>,
)
    requires
        padding.len() == 24,
        state.handles.contains_key(file),
        !path.contains('\0'),
        wide(path).len() + 6 <= limit(),
    ensures
        ({
            let data = seq![replace, root] + four_bytes(wide(path).len() as u32) + wide(path);
            let length = data.len() as u32;
            let input = change(10, padding, data, rest);
            let (next, step) = state.set_outcome(id, file, input);
            &&& next == state
            &&& match mapped_names(path) {
                Some(names) => step == (StepView::Locate {
                    purpose: Purpose::Rename {
                        completion_id: id,
                        file_id: file,
                        replace: replace > 0,
                        length,
                    },
                    names,
                }),
                None => answers(step, id as int, 0xC000_0022, four_bytes(length)),
            }
        }),
{
    let n = wide(path).len() as u32;
    let data = seq![replace, root] + four_bytes(n) + wide(path);
    let length = data.len() as u32;
    let input = change(10, padding, data, rest);
    lemma_wide(path);
    lemma_change(10, padding, data, rest);
    lemma_rename_data(replace, root, wide(path));
    answers_are_sent(id, 0xC000_0022, le32(length));
    assert(le32(length) =~= four_bytes(length));
}

/// Changes of times and attributes are accepted and do nothing; other changes
/// are not known.
pub proof fn other_changes_are_answered(
    state: DriveView,
    file: u32,
    id: u32,
    class: u32,
    padding: Seq<u8>,
    data: Seq<u8>,
    rest: Seq<u8>,
)
    requires
        padding.len() == 24,
        data.len() <= limit(),
        class != 10 && class != 13 && class != 19 && class != 20,
    ensures
        ({
            let input = change(class, padding, data, rest);
            let (next, step) = state.set_outcome(id, file, input);
            &&& next == state
            &&& if !state.handles.contains_key(file) {
                answers(step, id as int, 0xC000_000F, four_bytes(0))
            } else if class == 4 {
                answers(step, id as int, 0, four_bytes(data.len() as u32))
            } else {
                answers(step, id as int, 0xC000_00BB, four_bytes(data.len() as u32))
            }
        }),
{
    let input = change(class, padding, data, rest);
    let n = data.len() as u32;
    lemma_change(class, padding, data, rest);
    answers_are_sent(id, 0xC000_000F, le32(0));
    answers_are_sent(id, 0, le32(n));
    answers_are_sent(id, 0xC000_00BB, le32(n));
    assert(le32(n) =~= four_bytes(n));
    assert(le32(0) =~= four_bytes(0));
}

proof fn lemma_search_input(
    class: u32,
    first: u8,
    padding: Seq<u8>,
    pattern: Seq<u8>,
    rest: Seq<u8>,
)
    requires
        padding.len() == 23,
        pattern.len() <= limit(),
    ensures
        ({
            let input = four_bytes(class) + seq![first] + four_bytes(pattern.len() as u32)
                + padding + pattern + rest;
            &&& input.len() == 32 + pattern.len() + rest.len()
            &&& le32_at(input, 0) == class
            &&& input[4] == first
            &&& le32_at(input, 5) == pattern.len()
            &&& input.subrange(32, 32 + pattern.len() as int) == pattern
        }),
{
    let n = pattern.len() as u32;
    let input = four_bytes(class) + seq![first] + four_bytes(n) + padding + pattern + rest;
    let tail = padding + pattern + rest;
    let head = four_bytes(class) + seq![first];
    assert(input =~= head + four_bytes(n) + tail);
    lemma_bytes(head, 0, n, 0, tail);
    assert(input =~= Seq::<u8>::empty() + four_bytes(class) + (seq![first] + four_bytes(n)
        + tail));
    lemma_bytes(Seq::empty(), 0, class, 0, seq![first] + four_bytes(n) + tail);
    assert(input[4] == first);
    assert(input.subrange(32, 32 + n) =~= pattern);
}

/// A folder is searched by the pattern that the request gives, where the request
/// is the first of a search; else the search goes on.
pub proof fn searches_are_asked(
    state: DriveView,
    file: u32,
    id: u32,
    class: u32,
    first: u8,
    padding: Seq<u8>,
    pattern: Seq<char>,
    rest: Seq<u8>,
)
    requires
        padding.len() == 23,
        !pattern.contains('\0'),
        wide(pattern).len() <= limit(),
    ensures
        ({
            let input = four_bytes(class) + seq![first] + four_bytes(wide(pattern).len() as u32)
                + padding + wide(pattern) + rest;
            let step = list_step(state, id, file, input);
            &&& if !state.handles.contains_key(file) {
                answers(step, id as int, 0xC000_000F, seq![0u8, 0, 0, 0, 0])
            } else {
                step == (StepView::List {
                    completion_id: id,
                    file_id: file,
                    class,
                    folder: if first > 0 {
                        Some(search_parts(pattern).0)
                    } else {
                        None
                    },
                    pattern: search_parts(pattern).1,
                })
            }
        }),
{
    let n = wide(pattern).len() as u32;
    let input = four_bytes(class) + seq![first] + four_bytes(n) + padding + wide(pattern) + rest;
    lemma_wide(pattern);
    lemma_search_input(class, first, padding, wide(pattern), rest);
    answers_are_sent(id, 0xC000_000F, directory_data(Seq::empty()));
    assert(directory_data(Seq::empty()) =~= seq![0u8, 0, 0, 0, 0]);
}

/// Requests to lock and to control are accepted; others, and those to other
/// devices, are refused. None of them changes anything.
pub proof fn other_requests_are_answered(
    state: DriveView,
    device: u32,
    file: u32,
    id: u32,
    major: u32,
    minor: u32,
    input: Seq<u8>,
)
    ensures
        ({
            let (next, step) = state.message_outcome(
                request(device, file, id, major, minor, input),
            );
            &&& device != 1 ==> next == state && step is Respond && step->Respond_0.len() == 1
                && step->Respond_0[0].len() == 16 && u32_at(step->Respond_0[0], 4) == device
                && u32_at(step->Respond_0[0], 8) == id && u32_at(step->Respond_0[0], 12)
                == 0xC000_000F
            &&& device == 1 && (major == 14 || major == 17) ==> next == state && answers(
                step,
                id as int,
                0,
                four_bytes(0),
            )
            &&& device == 1 && (major == 1 || 7 <= major < 10 || major == 11 || major == 13 || major
                == 15 || major == 16 || major > 17 || (major == 12 && minor != 1)) ==> next == state
                && answers(step, id as int, 0xC000_00BB, Seq::empty())
        }),
{
    lemma_request(device, file, id, major, minor, input);
    let m = completion(device, id, 0xC000_000F, Seq::empty());
    numbers_are_written(0, device, 0);
    numbers_are_written(0, id, 0);
    numbers_are_written(0, 0xC000_000F, 0);
    assert(m[4] == le32(device)[0] && m[5] == le32(device)[1] && m[6] == le32(device)[2] && m[7]
        == le32(device)[3]);
    assert(m[8] == le32(id)[0] && m[9] == le32(id)[1] && m[10] == le32(id)[2] && m[11]
        == le32(id)[3]);
    assert(m[12] == le32(0xC000_000F)[0] && m[13] == le32(0xC000_000F)[1] && m[14]
        == le32(0xC000_000F)[2] && m[15] == le32(0xC000_000F)[3]);
    answers_are_sent(id, 0, le32(0));
    assert(le32(0) =~= four_bytes(0));
    answers_are_sent(id, 0xC000_00BB, Seq::empty());
}

// ---- Opening ----------------------------------------------------------------

/// A path is used only where it lies inside the mapped folder; one that is not
/// there only where that is allowed. Else the first of these that fails is told.
pub proof fn paths_are_used_inside(facts: TargetFacts, allow_missing: bool)
    ensures
        (usable(facts, allow_missing) is Ok) == ((facts.exists || allow_missing) && facts.inside
            == Ok::<bool, IoFailure>(true)),
        !facts.exists && !allow_missing ==> usable(facts, allow_missing) == Err::<(), u32>(
            0xC000_000F,
        ),
        (facts.exists || allow_missing) && facts.inside == Ok::<bool, IoFailure>(false) ==> usable(
            facts,
            allow_missing,
        ) == Err::<(), u32>(0xC000_0022),
        (facts.exists || allow_missing) ==> (facts.inside matches Err(failure) ==> (usable(
            facts,
            allow_missing,
        ) matches Err(status) && status == status_number(failure))),
{
}

/// A path lies inside a folder where the folder is the beginning of the path.
pub proof fn paths_below_a_folder_are_inside(
    root: Seq<Seq<u8>>,
    below: Seq<Seq<u8>>,
    other: Seq<Seq<u8>>,
)
    ensures
        within(root, root + below),
        other.len() < root.len() ==> !within(root, other),
        within(root, other) ==> forall|i: int|
            0 <= i < root.len() ==> #[trigger] other[i] == root[i],
{
    assert((root + below).take(root.len() as int) =~= root);
    if within(root, other) {
        assert forall|i: int| 0 <= i < root.len() implies #[trigger] other[i] == root[i] by {
            assert(other[i] == other.take(root.len() as int)[i]);
        }
    }
}

/// What is asked decides how a file that is there, or is not, is opened: 1 and 4
/// need it, 2 must not find it, and the others make it where it is missing. Its
/// contents are kept by 1 and 3, and lost by 0, 4 and 5.
pub proof fn dispositions_are_obeyed(
    exists: bool,
    inside: Result<bool, IoFailure>,
    access: u32,
    size: u64,
    disposition: u32,
    options: u32,
)
    requires
        disposition <= 5,
        options % 2 == 0,
    ensures
        ({
            let facts = TargetFacts { exists, is_directory: false, inside };
            match open_plan(facts, access, size, disposition, options) {
                Err(status) => {
                    ||| exists && disposition == 2 && status == 0xC000_0035
                    ||| !exists && (disposition == 1 || disposition == 4) && status == 0xC000_000F
                },
                Ok(OpenPlan::File { writable, create, create_new, truncate, length }) => {
                    &&& exists ==> disposition != 2
                    &&& !exists ==> disposition != 1 && disposition != 4
                    &&& !exists ==> create || create_new
                    &&& create_new == (disposition == 2)
                    &&& truncate == (disposition == 0 || disposition == 4 || disposition == 5)
                    &&& create == (disposition == 0 || disposition == 3 || disposition == 5)
                    &&& truncate || create || create_new ==> writable
                    &&& disposition == 1 ==> writable == (access / 2 % 2 == 1 || access / 4 % 2 == 1
                        || access / 0x4000_0000 % 2 == 1)
                    &&& length == size
                },
                Ok(_) => false,
            }
        }),
{
}

/// A folder that is there is used as one unless a file is asked for or it must
/// not be there; one that is asked for and missing is made.
pub proof fn folders_are_opened(
    exists: bool,
    is_directory: bool,
    inside: Result<bool, IoFailure>,
    access: u32,
    size: u64,
    disposition: u32,
    options: u32,
)
    ensures
        ({
            let facts = TargetFacts { exists, is_directory, inside };
            let wants_folder = options % 2 == 1;
            let wants_file = options / 64 % 2 == 1;
            let plan = open_plan(facts, access, size, disposition, options);
            &&& exists && wants_folder && !is_directory ==> plan == Err::<OpenPlan, u32>(
                0xC000_0103,
            )
            &&& exists && is_directory && wants_file ==> plan == Err::<OpenPlan, u32>(0xC000_0022)
            &&& exists && is_directory && !wants_file && disposition == 2 ==> plan == Err::<
                OpenPlan,
                u32,
            >(0xC000_0035)
            &&& exists && is_directory && !wants_file && disposition != 2 ==> plan == Ok::<
                OpenPlan,
                u32,
            >(OpenPlan::UseDirectory)
            &&& !exists && wants_folder && disposition != 1 && disposition != 4 ==> plan == Ok::<
                OpenPlan,
                u32,
            >(OpenPlan::MakeDirectory)
            &&& !exists && (disposition == 1 || disposition == 4) ==> plan == Err::<OpenPlan, u32>(
                0xC000_000F,
            )
        }),
{
}

/// A path that can be opened is opened under the next number, and remembers
/// whether it was there and whether it is to be deleted when it is closed.
pub proof fn paths_are_opened(
    state: DriveView,
    id: u32,
    access: u32,
    size: u64,
    disposition: u32,
    options: u32,
    facts: TargetFacts,
    plan: OpenPlan,
)
    requires
        facts.inside == Ok::<bool, IoFailure>(true),
        facts.exists || disposition != 1,
        open_plan(facts, access, size, disposition, options) == Ok::<OpenPlan, u32>(plan),
    ensures
        ({
            let purpose = Purpose::Create {
                completion_id: id,
                desired_access: access,
                allocation_size: size,
                disposition,
                options,
            };
            state.located_step(purpose, facts) matches StepView::Open { ticket, plan: p } && p
                == plan && ticket.completion_id == id && ticket.file_id == state.next_file_id
                && ticket.existed == facts.exists && ticket.is_file == (plan is File)
                && ticket.delete_on_close == (options / 0x1000 % 2 == 1)
        }),
{
}

/// A file is renamed where its new path lies inside the mapped folder, and is
/// free or may be replaced.
pub proof fn files_are_renamed(
    state: DriveView,
    id: u32,
    file: u32,
    replace: bool,
    length: u32,
    facts: TargetFacts,
)
    requires
        facts.inside == Ok::<bool, IoFailure>(true),
    ensures
        ({
            let purpose = Purpose::Rename { completion_id: id, file_id: file, replace, length };
            let step = state.located_step(purpose, facts);
            if facts.exists && !replace {
                answers(step, id as int, 0xC000_0035, four_bytes(length))
            } else {
                step == (StepView::Rename { completion_id: id, file_id: file, length })
            }
        }),
{
    answers_are_sent(id, 0xC000_0035, le32(length));
    assert(le32(length) =~= four_bytes(length));
}

/// A path that was opened is known under its number from then on, and no other is
/// changed; the next one gets another number. Where opening failed nothing is.
pub proof fn opened_files_are_known(
    state: DriveView,
    ticket: OpenTicket,
    failure: IoFailure,
    other: u32,
)
    ensures
        ({
            let next = state.opened_state(ticket, Ok(()));
            &&& next.handles.contains_key(ticket.file_id)
            &&& next.handles[ticket.file_id].is_file == ticket.is_file
            &&& next.handles[ticket.file_id].delete_on_close == ticket.delete_on_close
            &&& next.handles[ticket.file_id].entries.len() == 0
            &&& next.handles[ticket.file_id].index == 0
            &&& other != ticket.file_id ==> next.handles.contains_key(other)
                == state.handles.contains_key(other) && (state.handles.contains_key(other)
                ==> next.handles[other] == state.handles[other])
            &&& next.next_file_id != ticket.file_id
            &&& next.next_file_id != 0
            &&& ticket.file_id < u32::MAX ==> next.next_file_id == ticket.file_id + 1
            &&& next == (DriveView {
                handles: next.handles,
                next_file_id: next.next_file_id,
                ..state
            })
        }),
        state.opened_state(ticket, Err(failure)) == state,
{
}

// ---- Listing ----------------------------------------------------------------

/// The entries that a search found are told one after another, and then that
/// there are no more.
pub proof fn entries_are_told_in_turn(handle: HandleView, class: u32)
    ensures
        ({
            let (next, status, data) = next_entry(handle, class);
            if handle.index < handle.entries.len() {
                let entry = handle.entries[handle.index as int];
                &&& next == (HandleView { index: handle.index + 1, ..handle })
                &&& match entry_data(class, entry.name, entry.metadata) {
                    Some(told) => status == 0 && data == told,
                    None => status == 0xC000_00BB && data.len() == 0,
                }
            } else {
                next == handle && status == 0x8000_0006 && data.len() == 0
            }
        }),
{
}

/// A search begins with the first entry that fits, and goes on where it stopped.
pub proof fn searches_go_on(
    state: DriveView,
    id: u32,
    file: u32,
    class: u32,
    pattern: Seq<char>,
    reply: ListView,
)
    requires
        state.handles.contains_key(file),
        reply is Entries || reply is Present,
    ensures
        ({
            let (next, step) = state.listed_outcome(id, file, class, pattern, reply);
            let handle = state.handles[file];
            let begun = match reply {
                ListView::Entries(entries) => HandleView {
                    entries: crate::drive::found_entries(entries, pattern),
                    index: 0,
                    ..handle
                },
                _ => handle,
            };
            let (moved, status, data) = next_entry(begun, class);
            &&& next.handles[file] == moved
            &&& next == (DriveView { handles: state.handles.insert(file, moved), ..state })
            &&& step == answer(id, status, directory_data(data))
        }),
{
}

/// Entries of a listing are answered with their length before them; where there
/// is none, one zero follows the length.
pub proof fn listings_are_answered(data: Seq<u8>)
    requires
        data.len() <= 0xFFFF_FFFF,
    ensures
        data.len() > 0 ==> directory_data(data) == four_bytes(data.len() as u32) + data,
        data.len() == 0 ==> directory_data(data) == seq![0u8, 0, 0, 0, 0],
{
    if data.len() > 0 {
        assert(directory_data(data) =~= four_bytes(data.len() as u32) + data);
    } else {
        assert(directory_data(data) =~= seq![0u8, 0, 0, 0, 0]);
    }
}

// ---- Introductions ----------------------------------------------------------

/// The number that the server gave is confirmed with the version that is spoken.
pub proof fn numbers_are_confirmed(state: DriveView)
    ensures
        ({
            let m = state.id_confirmation();
            &&& m.len() == 12
            &&& u16_at(m, 0) == 0x4472
            &&& u16_at(m, 2) == 0x4343
            &&& u16_at(m, 4) == state.version_major
            &&& u16_at(m, 6) == state.version_minor
            &&& u32_at(m, 8) == state.client_id
        }),
{
    let m = state.id_confirmation();
    let (a, b, c) = (state.version_major, state.version_minor, state.client_id);
    lemma_written(0x4472, c, 0);
    lemma_written(0x4343, 0, 0);
    lemma_written(a, 0, 0);
    lemma_written(b, 0, 0);
    assert(m.subrange(0, 2) =~= two_bytes(0x4472));
    lemma_two_at(m, 0, 0x4472);
    assert(m.subrange(2, 4) =~= two_bytes(0x4343));
    lemma_two_at(m, 2, 0x4343);
    assert(m.subrange(4, 6) =~= two_bytes(a));
    lemma_two_at(m, 4, a);
    assert(m.subrange(6, 8) =~= two_bytes(b));
    lemma_two_at(m, 6, b);
    assert(m.subrange(8, 12) =~= four_bytes(c));
    lemma_four_at(m, 8, c);
}

/// A folder is announced as one device, a file system with number one: seven
/// bytes of its name, filled up with zeros, and then all of it, ended by a zero.
pub proof fn folders_are_announced(state: DriveView)
    requires
        encode_utf8(state.name).len() < 0xFFFF_FFFF,
    ensures
        ({
            let m = state.announcement();
            let name = encode_utf8(state.name);
            &&& m.len() == 28 + name.len() + 1
            &&& u16_at(m, 0) == 0x4472
            &&& u16_at(m, 2) == 0x4441
            &&& u32_at(m, 4) == 1
            &&& u32_at(m, 8) == 8
            &&& u32_at(m, 12) == 1
            &&& forall|i: int|
                0 <= i < 8 ==> #[trigger] m[16 + i] == (if i < 7 && i < name.len() {
                    name[i]
                } else {
                    0
                })
            &&& u32_at(m, 24) == name.len() + 1
            &&& m.skip(28) == name.push(0)
        }),
{
    let m = state.announcement();
    let name = encode_utf8(state.name);
    let short = if name.len() < 7 { name } else { name.take(7) };
    let whole = name + seq![0u8];
    let n = whole.len() as u32;
    lemma_written(0x4472, 1, 0);
    lemma_written(0x4441, 8, 0);
    lemma_written(0, n, 0);
    assert(m.len() == 28 + name.len() + 1);
    assert(m.subrange(0, 2) =~= two_bytes(0x4472));
    lemma_two_at(m, 0, 0x4472);
    assert(m.subrange(2, 4) =~= two_bytes(0x4441));
    lemma_two_at(m, 2, 0x4441);
    assert(m.subrange(4, 8) =~= four_bytes(1));
    lemma_four_at(m, 4, 1);
    assert(m.subrange(8, 12) =~= four_bytes(8));
    lemma_four_at(m, 8, 8);
    assert(m.subrange(12, 16) =~= four_bytes(1));
    lemma_four_at(m, 12, 1);
    assert(m.subrange(24, 28) =~= four_bytes(n));
    lemma_four_at(m, 24, n);
    assert forall|i: int| 0 <= i < 8 implies #[trigger] m[16 + i] == (if i < 7 && i < name.len() {
        name[i]
    } else {
        0
    }) by {
        let padded = short + zeros((8 - short.len()) as nat);
        assert(m.subrange(16, 24) =~= padded);
        assert(m[16 + i] == m.subrange(16, 24)[i]);
        assert(padded[i] == (if i < short.len() {
            short[i]
        } else {
            0
        }));
    }
    assert(m.skip(28) =~= name.push(0));
}

/// What the client can do is told in two parts, each with its length, for the
/// version that is spoken.
pub proof fn capabilities_are_told(state: DriveView)
    ensures
        ({
            let m = state.capabilities();
            &&& m.len() == 60
            &&& u16_at(m, 0) == 0x4472
            &&& u16_at(m, 2) == 0x4350
            &&& u16_at(m, 4) == 2
            &&& u16_at(m, 8) == 1
            &&& u16_at(m, 10) == 44
            &&& u32_at(m, 12) == 2
            &&& u16_at(m, 24) == state.version_major
            &&& u16_at(m, 26) == state.version_minor
            &&& u32_at(m, 28) == 0x3FFF
            &&& u32_at(m, 36) == 7
            &&& u16_at(m, 52) == 4
            &&& u16_at(m, 54) == 8
            &&& u32_at(m, 56) == 2
        }),
{
    let m = state.capabilities();
    let (a, b) = (state.version_major, state.version_minor);
    lemma_written(0x4472, 2, 0);
    lemma_written(0x4350, 0x3FFF, 0);
    lemma_written(2, 7, 0);
    lemma_written(1, 0, 0);
    lemma_written(44, 0, 0);
    lemma_written(a, 0, 0);
    lemma_written(b, 0, 0);
    lemma_written(4, 0, 0);
    lemma_written(8, 0, 0);
    assert(m.subrange(0, 2) =~= two_bytes(0x4472));
    lemma_two_at(m, 0, 0x4472);
    assert(m.subrange(2, 4) =~= two_bytes(0x4350));
    lemma_two_at(m, 2, 0x4350);
    assert(m.subrange(4, 6) =~= two_bytes(2));
    lemma_two_at(m, 4, 2);
    assert(m.subrange(8, 10) =~= two_bytes(1));
    lemma_two_at(m, 8, 1);
    assert(m.subrange(10, 12) =~= two_bytes(44));
    lemma_two_at(m, 10, 44);
    assert(m.subrange(12, 16) =~= four_bytes(2));
    lemma_four_at(m, 12, 2);
    assert(m.subrange(24, 26) =~= two_bytes(a));
    lemma_two_at(m, 24, a);
    assert(m.subrange(26, 28) =~= two_bytes(b));
    lemma_two_at(m, 26, b);
    assert(m.subrange(28, 32) =~= four_bytes(0x3FFF));
    lemma_four_at(m, 28, 0x3FFF);
    assert(m.subrange(36, 40) =~= four_bytes(7));
    lemma_four_at(m, 36, 7);
    assert(m.subrange(52, 54) =~= two_bytes(4));
    lemma_two_at(m, 52, 4);
    assert(m.subrange(54, 56) =~= two_bytes(8));
    lemma_two_at(m, 54, 8);
    assert(m.subrange(56, 60) =~= four_bytes(2));
    lemma_four_at(m, 56, 2);
}

/// The client's computer has a name, told with its length and ended by a zero.
pub proof fn computer_is_named()
    ensures
        ({
            let m = client_name_message();
            &&& u16_at(m, 0) == 0x4472
            &&& u16_at(m, 2) == 0x434E
            &&& u32_at(m, 4) == 1
            &&& m.len() == 16 + u32_at(m, 12)
            &&& m.skip(16) == wide("PORTIX"@)
        }),
{
    let m = client_name_message();
    let name = utf16_bytes("PORTIX"@) + le16(0);
    reveal_strlit("PORTIX");
    crate::connect::lemma_ascii_units("PORTIX"@);
    unit_bytes_round_trip(utf16("PORTIX"@));
    let units = utf16("PORTIX"@).push(0);
    assert(units.drop_last() =~= utf16("PORTIX"@));
    assert(wide("PORTIX"@) == unit_bytes(units.drop_last()) + le16(units.last()));
    let n = name.len() as u32;
    lemma_written(0x4472, 1, 0);
    lemma_written(0x434E, 0, 0);
    lemma_written(0, n, 0);
    assert(m.subrange(0, 2) =~= two_bytes(0x4472));
    lemma_two_at(m, 0, 0x4472);
    assert(m.subrange(2, 4) =~= two_bytes(0x434E));
    lemma_two_at(m, 2, 0x434E);
    assert(m.subrange(4, 8) =~= four_bytes(1));
    lemma_four_at(m, 4, 1);
    assert(m.subrange(12, 16) =~= four_bytes(n));
    lemma_four_at(m, 12, n);
    assert(m.skip(16) =~= name);
}

/// A message of the server on this channel: what it is, and the rest.
pub open spec fn server_message(kind: u16, rest: Seq<u8>) -> Seq<u8> {
    seq![0x72u8, 0x44] + two_bytes(kind) + rest
}

proof fn lemma_server_message(kind: u16, rest: Seq<u8>)
    ensures
        ({
            let m = server_message(kind, rest);
            &&& m.len() == 4 + rest.len()
            &&& le16_at(m, 0) == 0x4472
            &&& le16_at(m, 2) == kind
            &&& m.skip(4) == rest
        }),
{
    let m = server_message(kind, rest);
    assert(m.subrange(2, 4) =~= two_bytes(kind));
    lemma_two_at(m, 2, kind);
    assert(m[0] == 0x72 && m[1] == 0x44);
    assert(m.skip(4) =~= rest);
}

/// The server's first message gives the version and the client's number, and is
/// answered with both and the name of the computer. The lower of its version and
/// 1.12 is spoken, and all that was known before is forgotten.
pub proof fn introductions_are_answered(
    state: DriveView,
    major: u16,
    minor: u16,
    id: u32,
    rest: Seq<u8>,
)
    ensures
        ({
            let m = server_message(0x496E, two_bytes(major) + two_bytes(minor) + four_bytes(id)
                + rest);
            let (next, step) = state.message_outcome(m);
            &&& next.version_major == major
            &&& next.version_minor == (if minor < 12 { minor } else { 12 })
            &&& next.client_id == id
            &&& !next.have_server_caps
            &&& !next.have_client_id
            &&& !next.announced
            &&& next.handles == Map::<u32, HandleView>::empty()
            &&& next.name == state.name
            &&& step == StepView::Respond(seq![next.id_confirmation(), client_name_message()])
        }),
{
    let body = two_bytes(major) + two_bytes(minor) + four_bytes(id) + rest;
    let m = server_message(0x496E, body);
    lemma_server_message(0x496E, body);
    assert(m.subrange(4, 6) =~= two_bytes(major));
    assert(m.subrange(6, 8) =~= two_bytes(minor));
    assert(m.subrange(8, 12) =~= four_bytes(id));
    lemma_two_at(m, 4, major);
    lemma_two_at(m, 6, minor);
    lemma_four_at(m, 8, id);
}

/// The folder is announced once both the server's capabilities and the client's
/// number have come, in whichever order, and then not again.
pub proof fn announced_once_both_are_known(state: DriveView, caps: Seq<u8>, rest: Seq<u8>)
    requires
        !state.announced,
        !state.have_server_caps,
        !state.have_client_id,
        rest.len() == 0,
    ensures
        ({
            let capabilities = server_message(0x5350, caps);
            let confirmation = server_message(0x4343, rest);
            let (a, first) = state.message_outcome(capabilities);
            let (b, second) = a.message_outcome(confirmation);
            let (c, third) = state.message_outcome(confirmation);
            let (d, fourth) = c.message_outcome(capabilities);
            &&& first == StepView::Respond(seq![state.capabilities()])
            &&& second == StepView::Respond(seq![state.announcement()])
            &&& third == StepView::Respond(Seq::empty())
            &&& fourth == StepView::Respond(seq![state.capabilities(), state.announcement()])
            &&& b.announced && d.announced && b == d
            &&& d.message_outcome(confirmation).1 == StepView::Respond(Seq::empty())
            &&& d.message_outcome(capabilities).1 == StepView::Respond(seq![d.capabilities()])
        }),
{
    lemma_server_message(0x5350, caps);
    lemma_server_message(0x4343, rest);
}

/// When a user signs in, the folder is announced, also again; what is not known
/// is passed over.
pub proof fn announced_to_each_user(state: DriveView, kind: u16, rest: Seq<u8>)
    ensures
        state.message_outcome(server_message(0x554C, rest)) == (
            DriveView { announced: true, ..state },
            StepView::Respond(seq![state.announcement()]),
        ),
        kind != 0x496E && kind != 0x5350 && kind != 0x4343 && kind != 0x554C && kind != 0x4952
            ==> state.message_outcome(server_message(kind, rest)) == (
            state,
            StepView::Respond(Seq::empty()),
        ),
{
    lemma_server_message(0x554C, rest);
    lemma_server_message(kind, rest);
}

} // verus!
