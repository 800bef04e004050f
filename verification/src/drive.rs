//! The channel of mapped folders. What the file system has to do is told as a
//! step, and its answer decides what follows.

use std::collections::HashMap;

use vstd::prelude::*;
use vstd::utf8::encode_utf8;

use crate::channel::{
    chunk, chunk_count, chunk_end, lemma_chunk, lemma_chunk_flags, ChunksView, CHUNK_SIZE,
};
use crate::drive_data::{
    completion, core_header, create_data, create_response, directory_data, directory_response,
    entry_data, failure_status, file_information, header, information, io_completion, length32,
    length_data, length_response, listing_entry, map_io_error, put_length32, set_response,
    volume_data, volume_information, write_data, write_response, FileMetadata, IoFailure,
    FILE_BASIC_INFORMATION, STATUS_ACCESS_DENIED, STATUS_INVALID_PARAMETER,
    STATUS_NOT_A_DIRECTORY, STATUS_NOT_SUPPORTED, STATUS_NO_MORE_FILES, STATUS_NO_SUCH_FILE,
    STATUS_OBJECT_NAME_COLLISION, STATUS_SUCCESS,
};
use crate::encoding::{
    byte_units, decode_utf16, encode_utf16_bytes, units_until_zero, until_zero, utf16_bytes,
    utf16_text,
};
use crate::ordering::{arranged, arranged_in_order, in_order, place_of};
use crate::paths::{
    fits, mapped_components, mapped_names, mapped_names_stay, parts_view, search_parts,
    split_search_pattern, stays, wildcard_matches, PartView, PathPart,
};
use crate::profile::text_view;
use crate::text::{lower, lowered, texts};
use crate::wire::{
    all_bytes, le16, le16_at, le32, le32_at, le64_at, put_bytes, put_u16, put_u32, put_u8,
    put_zeros, read_u16, read_u32, read_u64, zeros,
};

verus! {

broadcast use {crate::wire::lemma_empty_add, vstd::std_specs::hash::group_hash_axioms};

/// The one device: the mapped folder.
pub const DEVICE_ID: u32 = 1;

/// Most bytes of one read or write, and of a path.
pub const MAX_IO_SIZE: usize = 1_048_576;

/// Most bytes of a message that is put together from chunks.
pub const MAX_MESSAGE: usize = 2_097_152;

pub const FILE_SUPERSEDE: u32 = 0;

pub const FILE_OPEN: u32 = 1;

pub const FILE_CREATE: u32 = 2;

pub const FILE_OPEN_IF: u32 = 3;

pub const FILE_OVERWRITE: u32 = 4;

pub const FILE_OVERWRITE_IF: u32 = 5;

pub const FILE_RENAME_INFORMATION: u32 = 10;

pub const FILE_DISPOSITION_INFORMATION: u32 = 13;

pub const FILE_ALLOCATION_INFORMATION: u32 = 19;

pub const FILE_END_OF_FILE_INFORMATION: u32 = 20;

// ---- What the file system is asked ------------------------------------------

/// What a path is looked up for.
#[derive(Clone, Copy, Debug)]
pub enum Purpose {
    Create {
        completion_id: u32,
        desired_access: u32,
        allocation_size: u64,
        disposition: u32,
        options: u32,
    },
    Rename { completion_id: u32, file_id: u32, replace: bool, length: u32 },
}

/// What is known of a path.
#[derive(Clone, Copy, Debug)]
pub struct TargetFacts {
    pub exists: bool,
    pub is_directory: bool,
    /// Whether the path, or its parent where it does not exist, lies in the
    /// mapped folder once links are followed, or why that cannot be told.
    pub inside: Result<bool, IoFailure>,
}

/// How a path that was looked up is opened.
#[derive(Clone, Copy, Debug)]
pub enum OpenPlan {
    MakeDirectory,
    UseDirectory,
    File {
        writable: bool,
        create: bool,
        create_new: bool,
        truncate: bool,
        /// Length to give the file, unless it is zero.
        length: u64,
    },
}

/// What is remembered while a path is opened.
#[derive(Clone, Copy, Debug)]
pub struct OpenTicket {
    pub completion_id: u32,
    /// The name under which the open file is kept.
    pub file_id: u32,
    pub existed: bool,
    pub is_file: bool,
    pub delete_on_close: bool,
}

/// A file in a folder.
#[derive(Clone, Debug)]
pub struct DirectoryEntry {
    pub name: String,
    pub metadata: FileMetadata,
}

/// What comes of looking into a folder.
#[derive(Clone, Debug)]
pub enum ListReply {
    NotADirectory,
    /// The folder to search lies outside the mapped folder.
    Outside,
    Failed(IoFailure),
    /// It is a folder, and was not to be searched.
    Present,
    Entries(Vec<DirectoryEntry>),
}

/// What is to be done next.
#[derive(Clone, Debug)]
pub enum DriveStep {
    /// Send these messages; nothing else is left to do.
    Respond(Vec<Vec<u8>>),
    /// Look up a path, by names from the mapped folder down.
    Locate { purpose: Purpose, names: Vec<String> },
    /// Open the path that was looked up.
    Open { ticket: OpenTicket, plan: OpenPlan },
    /// Close a file, and delete it where that is asked for.
    Close { completion_id: u32, file_id: u32, delete: bool },
    Read { completion_id: u32, file_id: u32, offset: u64, length: u32 },
    Write { completion_id: u32, file_id: u32, offset: u64, data: Vec<u8> },
    /// Find out what is known of a file.
    Inspect { completion_id: u32, file_id: u32, class: u32 },
    SetLength { completion_id: u32, file_id: u32, size: u64, length: u32 },
    /// Rename a file to the path that was looked up.
    Rename { completion_id: u32, file_id: u32, length: u32 },
    /// Look into a folder; search the one named where one is named.
    List {
        completion_id: u32,
        file_id: u32,
        class: u32,
        folder: Option<Vec<PathPart>>,
        pattern: String,
    },
}

/// What a [`DriveStep`] says.
#[verifier::ext_equal]
pub enum StepView {
    Respond(Seq<Seq<u8>>),
    Locate { purpose: Purpose, names: Seq<Seq<char>> },
    Open { ticket: OpenTicket, plan: OpenPlan },
    Close { completion_id: u32, file_id: u32, delete: bool },
    Read { completion_id: u32, file_id: u32, offset: u64, length: u32 },
    Write { completion_id: u32, file_id: u32, offset: u64, data: Seq<u8> },
    Inspect { completion_id: u32, file_id: u32, class: u32 },
    SetLength { completion_id: u32, file_id: u32, size: u64, length: u32 },
    Rename { completion_id: u32, file_id: u32, length: u32 },
    List {
        completion_id: u32,
        file_id: u32,
        class: u32,
        folder: Option<Seq<PartView>>,
        pattern: Seq<char>,
    },
}

impl View for DriveStep {
    type V = StepView;

    open spec fn view(&self) -> StepView {
        match *self {
            DriveStep::Respond(messages) => StepView::Respond(all_bytes(messages@)),
            DriveStep::Locate { purpose, names } => StepView::Locate {
                purpose,
                names: texts(names@),
            },
            DriveStep::Open { ticket, plan } => StepView::Open { ticket, plan },
            DriveStep::Close { completion_id, file_id, delete } => StepView::Close {
                completion_id,
                file_id,
                delete,
            },
            DriveStep::Read { completion_id, file_id, offset, length } => StepView::Read {
                completion_id,
                file_id,
                offset,
                length,
            },
            DriveStep::Write { completion_id, file_id, offset, data } => StepView::Write {
                completion_id,
                file_id,
                offset,
                data: data@,
            },
            DriveStep::Inspect { completion_id, file_id, class } => StepView::Inspect {
                completion_id,
                file_id,
                class,
            },
            DriveStep::SetLength { completion_id, file_id, size, length } => StepView::SetLength {
                completion_id,
                file_id,
                size,
                length,
            },
            DriveStep::Rename { completion_id, file_id, length } => StepView::Rename {
                completion_id,
                file_id,
                length,
            },
            DriveStep::List { completion_id, file_id, class, folder, pattern } => StepView::List {
                completion_id,
                file_id,
                class,
                folder: match folder {
                    Some(parts) => Some(parts_view(parts@)),
                    None => None,
                },
                pattern: pattern@,
            },
        }
    }
}

// ---- State ------------------------------------------------------------------

/// An open file or folder.
pub struct DriveHandle {
    pub is_file: bool,
    pub directory_entries: Vec<DirectoryEntry>,
    pub directory_index: usize,
    pub delete_on_close: bool,
}

/// What a [`DirectoryEntry`] says.
#[verifier::ext_equal]
pub struct EntryView {
    pub name: Seq<char>,
    pub metadata: FileMetadata,
}

impl View for DirectoryEntry {
    type V = EntryView;

    open spec fn view(&self) -> EntryView {
        EntryView { name: self.name@, metadata: self.metadata }
    }
}

/// What the entries of a folder say.
pub open spec fn entries_view(entries: Seq<DirectoryEntry>) -> Seq<EntryView> {
    entries.map_values(|e: DirectoryEntry| e@)
}

/// What a [`DriveHandle`] holds.
#[verifier::ext_equal]
pub struct HandleView {
    pub is_file: bool,
    pub entries: Seq<EntryView>,
    pub index: nat,
    pub delete_on_close: bool,
}

impl View for DriveHandle {
    type V = HandleView;

    open spec fn view(&self) -> HandleView {
        HandleView {
            is_file: self.is_file,
            entries: entries_view(self.directory_entries@),
            index: self.directory_index as nat,
            delete_on_close: self.delete_on_close,
        }
    }
}

/// What is known on the channel of mapped folders.
pub struct RdpdrState {
    pub name: String,
    pub version_major: u16,
    pub version_minor: u16,
    pub client_id: u32,
    pub have_server_caps: bool,
    pub have_client_id: bool,
    pub announced: bool,
    pub fragment_data: Vec<u8>,
    pub fragment_total_length: usize,
    pub handles: HashMap<u32, DriveHandle>,
    pub next_file_id: u32,
    pub debug: bool,
}

/// What an [`RdpdrState`] holds.
#[verifier::ext_equal]
pub struct DriveView {
    pub name: Seq<char>,
    pub version_major: u16,
    pub version_minor: u16,
    pub client_id: u32,
    pub have_server_caps: bool,
    pub have_client_id: bool,
    pub announced: bool,
    pub chunks: ChunksView,
    pub handles: Map<u32, HandleView>,
    pub next_file_id: u32,
    pub debug: bool,
}

/// What open files hold.
pub open spec fn handles_view(handles: Map<u32, DriveHandle>) -> Map<u32, HandleView> {
    handles.map_values(|h: DriveHandle| h@)
}

impl View for RdpdrState {
    type V = DriveView;

    open spec fn view(&self) -> DriveView {
        DriveView {
            name: self.name@,
            version_major: self.version_major,
            version_minor: self.version_minor,
            client_id: self.client_id,
            have_server_caps: self.have_server_caps,
            have_client_id: self.have_client_id,
            announced: self.announced,
            chunks: ChunksView {
                data: self.fragment_data@,
                total: self.fragment_total_length as nat,
            },
            handles: handles_view(self.handles@),
            next_file_id: self.next_file_id,
            debug: self.debug,
        }
    }
}

impl RdpdrState {
    /// A folder that appears under `name`, before anything was said about it.
    pub fn new(name: String, debug: bool) -> (state: Self)
        ensures
            state@ == (DriveView {
                name: name@,
                version_major: 1,
                version_minor: 12,
                client_id: 0,
                have_server_caps: false,
                have_client_id: false,
                announced: false,
                chunks: ChunksView::none(),
                handles: Map::empty(),
                next_file_id: 1,
                debug,
            }),
    {
        let state = RdpdrState {
            name,
            version_major: 1,
            version_minor: 12,
            client_id: 0,
            have_server_caps: false,
            have_client_id: false,
            announced: false,
            fragment_data: Vec::new(),
            fragment_total_length: 0,
            handles: HashMap::new(),
            next_file_id: 1,
            debug,
        };
        assert(state@.handles =~= Map::empty());
        state
    }
}

// ---- Introductions ----------------------------------------------------------

impl DriveView {
    /// Confirms the number that the server gave.
    pub open spec fn id_confirmation(self) -> Seq<u8> {
        header(0x4343) + le16(self.version_major) + le16(self.version_minor) + le32(self.client_id)
    }

    /// What the client can do.
    pub open spec fn capabilities(self) -> Seq<u8> {
        header(0x4350) + le16(2) + le16(0) + le16(1) + le16(44) + le32(2) + le32(0) + le32(0)
            + le16(self.version_major) + le16(self.version_minor) + le32(0x3FFF) + le32(0) + le32(7)
            + le32(0) + le32(0) + le32(0) + le16(4) + le16(8) + le32(2)
    }

    /// Announces the folder: seven bytes of its name, and all of it.
    pub open spec fn announcement(self) -> Seq<u8> {
        let name = encode_utf8(self.name);
        let short = if name.len() < 7 { name } else { name.take(7) };
        header(0x4441) + le32(1) + le32(8) + le32(DEVICE_ID) + short + zeros(
            (8 - short.len()) as nat,
        ) + length32(name + seq![0u8]) + (name + seq![0u8])
    }
}

/// The name of the client's computer.
pub open spec fn client_name_message() -> Seq<u8> {
    let name = utf16_bytes("PORTIX"@) + le16(0);
    header(0x434E) + le32(1) + le32(0) + length32(name) + name
}

impl RdpdrState {
    /// Confirms the number that the server gave.
    pub fn client_id_confirm(&self) -> (out: Vec<u8>)
        ensures
            out@ == self@.id_confirmation(),
    {
        let mut out = core_header(0x4343);
        put_u16(&mut out, self.version_major);
        put_u16(&mut out, self.version_minor);
        put_u32(&mut out, self.client_id);
        out
    }

    /// The name of the client's computer.
    pub fn client_name(&self) -> (out: Vec<u8>)
        ensures
            out@ == client_name_message(),
    {
        let mut name = encode_utf16_bytes("PORTIX");
        put_u16(&mut name, 0);
        let mut out = core_header(0x434E);
        put_u32(&mut out, 1);
        put_u32(&mut out, 0);
        put_length32(&mut out, name.as_slice());
        put_bytes(&mut out, name.as_slice());
        out
    }

    /// What the client can do.
    pub fn client_capabilities(&self) -> (out: Vec<u8>)
        ensures
            out@ == self@.capabilities(),
    {
        let mut out = core_header(0x4350);
        put_u16(&mut out, 2);
        put_u16(&mut out, 0);
        put_u16(&mut out, 1);
        put_u16(&mut out, 44);
        put_u32(&mut out, 2);
        put_u32(&mut out, 0);
        put_u32(&mut out, 0);
        put_u16(&mut out, self.version_major);
        put_u16(&mut out, self.version_minor);
        put_u32(&mut out, 0x3FFF);
        put_u32(&mut out, 0);
        put_u32(&mut out, 7);
        put_u32(&mut out, 0);
        put_u32(&mut out, 0);
        put_u32(&mut out, 0);
        put_u16(&mut out, 4);
        put_u16(&mut out, 8);
        put_u32(&mut out, 2);
        out
    }

    /// Announces the folder.
    pub fn device_announce(&self) -> (out: Vec<u8>)
        ensures
            out@ == self@.announcement(),
    {
        let name = self.name.as_str().as_bytes();
        let mut whole: Vec<u8> = Vec::new();
        put_bytes(&mut whole, name);
        put_u8(&mut whole, 0);
        let short = if name.len() < 7 {
            name
        } else {
            let first = vstd::slice::slice_subrange(name, 0, 7);
            assert(first@ =~= name@.take(7));
            first
        };
        let mut out = core_header(0x4441);
        put_u32(&mut out, 1);
        put_u32(&mut out, 8);
        put_u32(&mut out, DEVICE_ID);
        put_bytes(&mut out, short);
        put_zeros(&mut out, 8 - short.len());
        put_length32(&mut out, whole.as_slice());
        put_bytes(&mut out, whole.as_slice());
        out
    }
}

/// Whether `part` stands at `i` in `s`.
pub open spec fn holds_at(s: Seq<u8>, part: Seq<u8>, i: int) -> bool {
    0 <= i && i + part.len() <= s.len() && s.subrange(i, i + part.len()) == part
}

/// The announcement has the name of the folder in it, whole.
pub proof fn announcement_has_name(state: DriveView)
    ensures
        exists|i: int| holds_at(state.announcement(), encode_utf8(state.name), i),
{
    let name = encode_utf8(state.name);
    let whole = state.announcement();
    let i = whole.len() - name.len() - 1;
    assert(whole.subrange(i, i + name.len()) =~= name);
    assert(holds_at(whole, name, i));
}

// ---- Requests ---------------------------------------------------------------

/// An answer to a request of the device.
pub open spec fn answer(completion_id: u32, status: u32, data: Seq<u8>) -> StepView {
    StepView::Respond(seq![completion(DEVICE_ID, completion_id, status, data)])
}

fn respond(completion_id: u32, status: u32, data: Vec<u8>) -> (step: DriveStep)
    ensures
        step@ == answer(completion_id, status, data@),
{
    let mut messages: Vec<Vec<u8>> = Vec::new();
    messages.push(io_completion(DEVICE_ID, completion_id, status, data.as_slice()));
    assert(all_bytes(messages@) =~= seq![completion(DEVICE_ID, completion_id, status, data@)]);
    DriveStep::Respond(messages)
}

/// The path that `data` writes; none where it is not whole or not text.
pub open spec fn path_text(data: Seq<u8>) -> Option<Seq<char>> {
    if data.len() % 2 != 0 {
        None
    } else {
        utf16_text(until_zero(byte_units(data)))
    }
}

fn read_path(data: &[u8]) -> (res: Option<String>)
    ensures
        text_view(res) == path_text(data@),
{
    if data.len() % 2 != 0 {
        return None;
    }
    let units = units_until_zero(data);
    decode_utf16(&units)
}

/// Whether bit number `k` of `flags` is set, where `bit` is two to the `k`.
pub open spec fn has_bit(flags: u32, bit: u32) -> bool {
    flags / bit % 2 == 1
}

/// What follows from a request to open.
pub open spec fn create_step(completion_id: u32, input: Seq<u8>) -> StepView {
    let refused = answer(completion_id, STATUS_INVALID_PARAMETER, create_data(0, 0));
    if input.len() < 32 {
        refused
    } else {
        let length = le32_at(input, 28);
        if length > MAX_IO_SIZE || 32 + length > input.len() {
            refused
        } else {
            match path_text(input.subrange(32, 32 + length)) {
                None => refused,
                Some(path) => match mapped_names(path) {
                    None => answer(completion_id, STATUS_ACCESS_DENIED, create_data(0, 0)),
                    Some(names) => StepView::Locate {
                        purpose: Purpose::Create {
                            completion_id,
                            desired_access: le32_at(input, 0),
                            allocation_size: le64_at(input, 4),
                            disposition: le32_at(input, 20),
                            options: le32_at(input, 24),
                        },
                        names,
                    },
                },
            }
        }
    }
}

impl RdpdrState {
    /// The names of a remote path from the mapped folder down. A path that
    /// leads upwards is denied.
    pub fn resolve_path(&self, remote_path: &str) -> (res: Result<Vec<String>, u32>)
        ensures
            match res {
                Ok(names) => mapped_names(remote_path@) == Some(texts(names@)),
                Err(status) => mapped_names(remote_path@) is None && status == STATUS_ACCESS_DENIED,
            },
    {
        match mapped_components(remote_path) {
            Some(names) => Ok(names),
            None => Err(STATUS_ACCESS_DENIED),
        }
    }
}

impl RdpdrState {
    /// Opens: looks up the path first.
    pub fn create(&self, completion_id: u32, input: &[u8]) -> (step: DriveStep)
        ensures
            step@ == create_step(completion_id, input@),
    {
        let size = input.len();
        if size < 32 {
            return respond(completion_id, STATUS_INVALID_PARAMETER, create_response(0, 0));
        }
        let (desired_access, allocation_size, disposition, options, length) = match (
            read_u32(input, 0),
            read_u64(input, 4),
            read_u32(input, 20),
            read_u32(input, 24),
            read_u32(input, 28),
        ) {
            (Some(a), Some(b), Some(c), Some(d), Some(e)) => (a, b, c, d, e),
            _ => return respond(completion_id, STATUS_INVALID_PARAMETER, create_response(0, 0)),
        };
        let length = length as usize;
        if length > MAX_IO_SIZE || length > size - 32 {
            return respond(completion_id, STATUS_INVALID_PARAMETER, create_response(0, 0));
        }
        let path = match read_path(vstd::slice::slice_subrange(input, 32, 32 + length)) {
            Some(path) => path,
            None => return respond(completion_id, STATUS_INVALID_PARAMETER, create_response(0, 0)),
        };
        match self.resolve_path(path.as_str()) {
            Err(status) => respond(completion_id, status, create_response(0, 0)),
            Ok(names) => DriveStep::Locate {
                purpose: Purpose::Create {
                    completion_id,
                    desired_access,
                    allocation_size,
                    disposition,
                    options,
                },
                names,
            },
        }
    }
}

/// What the components of a path say.
pub open spec fn components(path: Seq<Vec<u8>>) -> Seq<Seq<u8>> {
    path.map_values(|c: Vec<u8>| c@)
}

/// Whether a path, by its components, is `root` or lies below it.
pub open spec fn within(root: Seq<Seq<u8>>, target: Seq<Seq<u8>>) -> bool {
    root.len() <= target.len() && target.take(root.len() as int) == root
}

/// Whether a path, by its components, is `root` or lies below it. Links in both
/// have been followed.
pub fn lies_within(root: &[Vec<u8>], target: &[Vec<u8>]) -> (inside: bool)
    ensures
        inside == (root@.len() <= target@.len() && forall|i: int|
            0 <= i < root@.len() ==> (#[trigger] target@[i])@ == root@[i]@),
        inside == within(components(root@), components(target@)),
{
    let ghost wanted = components(root@);
    let ghost front = components(target@).take(root@.len() as int);
    if root.len() > target.len() {
        return false;
    }
    let mut i: usize = 0;
    while i < root.len()
        invariant
            i <= root@.len() <= target@.len(),
            wanted == components(root@),
            front == components(target@).take(root@.len() as int),
            forall|j: int| 0 <= j < i ==> (#[trigger] target@[j])@ == root@[j]@,
        decreases root@.len() - i,
    {
        if !same_bytes(root[i].as_slice(), target[i].as_slice()) {
            assert(wanted[i as int] == root@[i as int]@ && front[i as int] == target@[i as int]@);
            assert(target@[i as int]@ != root@[i as int]@);
            return false;
        }
        i += 1;
    }
    assert(front =~= wanted);
    true
}

/// Whether two runs of bytes are the same.
fn same_bytes(a: &[u8], b: &[u8]) -> (same: bool)
    ensures
        same == (a@ == b@),
{
    if a.len() != b.len() {
        return false;
    }
    let mut i: usize = 0;
    while i < a.len()
        invariant
            a@.len() == b@.len(),
            i <= a@.len(),
            forall|j: int| 0 <= j < i ==> a@[j] == b@[j],
        decreases a@.len() - i,
    {
        if a[i] != b[i] {
            return false;
        }
        i += 1;
    }
    assert(a@ =~= b@);
    true
}

/// What is known of a path that was looked up below `root`: `resolved` is the
/// path, or its parent where it does not exist, once links are followed.
pub open spec fn found_facts(
    exists: bool,
    is_directory: bool,
    root: Seq<Seq<u8>>,
    resolved: Result<Seq<Seq<u8>>, IoFailure>,
) -> TargetFacts {
    TargetFacts {
        exists,
        is_directory,
        inside: match resolved {
            Ok(path) => Ok(within(root, path)),
            Err(failure) => Err(failure),
        },
    }
}

impl TargetFacts {
    /// What is known of a path that was looked up below `root`, where `resolved`
    /// is the path, or its parent where it does not exist, once links are
    /// followed.
    pub fn found(
        exists: bool,
        is_directory: bool,
        root: &[Vec<u8>],
        resolved: Result<&[Vec<u8>], IoFailure>,
    ) -> (facts: TargetFacts)
        ensures
            facts == found_facts(
                exists,
                is_directory,
                components(root@),
                match resolved {
                    Ok(path) => Ok(components(path@)),
                    Err(failure) => Err(failure),
                },
            ),
    {
        let inside = match resolved {
            Ok(path) => Ok(lies_within(root, path)),
            Err(failure) => Err(failure),
        };
        TargetFacts { exists, is_directory, inside }
    }
}

/// Whether a path that was looked up may be used: it, or its parent where it
/// may be missing, has to lie in the mapped folder.
pub open spec fn usable(facts: TargetFacts, allow_missing: bool) -> Result<(), u32> {
    if !facts.exists && !allow_missing {
        Err(STATUS_NO_SUCH_FILE)
    } else {
        match facts.inside {
            Ok(true) => Ok(()),
            Ok(false) => Err(STATUS_ACCESS_DENIED),
            Err(failure) => Err(failure_status(failure)),
        }
    }
}

/// Whether a path that was looked up may be used.
pub fn resolve_mapped_path(facts: &TargetFacts, allow_missing: bool) -> (res: Result<(), u32>)
    ensures
        res == usable(*facts, allow_missing),
{
    if !facts.exists && !allow_missing {
        return Err(STATUS_NO_SUCH_FILE);
    }
    match facts.inside {
        Ok(inside) => if inside {
            Ok(())
        } else {
            Err(STATUS_ACCESS_DENIED)
        },
        Err(failure) => Err(map_io_error(failure)),
    }
}

/// A path is used only where it, or its parent, is the mapped folder or lies
/// below it once links are followed.
pub proof fn used_paths_are_inside(
    exists: bool,
    is_directory: bool,
    root: Seq<Seq<u8>>,
    resolved: Result<Seq<Seq<u8>>, IoFailure>,
    allow_missing: bool,
)
    requires
        usable(found_facts(exists, is_directory, root, resolved), allow_missing) is Ok,
    ensures
        resolved matches Ok(path) && within(root, path),
{
}

/// How a path is opened, or the status with which that is refused.
pub open spec fn open_plan(
    facts: TargetFacts,
    desired_access: u32,
    allocation_size: u64,
    disposition: u32,
    options: u32,
) -> Result<OpenPlan, u32> {
    let wants_directory = has_bit(options, 1);
    let wants_file = has_bit(options, 0x40);
    if facts.exists && wants_directory && !facts.is_directory {
        Err(STATUS_NOT_A_DIRECTORY)
    } else if facts.exists && wants_file && facts.is_directory {
        Err(STATUS_ACCESS_DENIED)
    } else if disposition == FILE_CREATE && facts.exists {
        Err(STATUS_OBJECT_NAME_COLLISION)
    } else if (disposition == FILE_OPEN || disposition == FILE_OVERWRITE) && !facts.exists {
        Err(STATUS_NO_SUCH_FILE)
    } else if wants_directory || (facts.exists && facts.is_directory) {
        if facts.exists {
            Ok(OpenPlan::UseDirectory)
        } else {
            Ok(OpenPlan::MakeDirectory)
        }
    } else {
        Ok(
            OpenPlan::File {
                writable: has_bit(desired_access, 0x4000_0000) || has_bit(desired_access, 2)
                    || has_bit(desired_access, 4) || disposition == FILE_SUPERSEDE || (FILE_CREATE
                    <= disposition <= FILE_OVERWRITE_IF),
                create: disposition == FILE_SUPERSEDE || disposition == FILE_OPEN_IF || disposition
                    == FILE_OVERWRITE_IF,
                create_new: disposition == FILE_CREATE,
                truncate: disposition == FILE_SUPERSEDE || disposition == FILE_OVERWRITE
                    || disposition == FILE_OVERWRITE_IF,
                length: allocation_size,
            },
        )
    }
}

/// How a path is opened, or the status with which that is refused.
pub fn open_file(
    facts: &TargetFacts,
    desired_access: u32,
    allocation_size: u64,
    disposition: u32,
    options: u32,
) -> (res: Result<OpenPlan, u32>)
    ensures
        res == open_plan(*facts, desired_access, allocation_size, disposition, options),
{
    let wants_directory = options % 2 == 1;
    let wants_file = options / 0x40 % 2 == 1;
    if facts.exists && wants_directory && !facts.is_directory {
        return Err(STATUS_NOT_A_DIRECTORY);
    }
    if facts.exists && wants_file && facts.is_directory {
        return Err(STATUS_ACCESS_DENIED);
    }
    if disposition == FILE_CREATE && facts.exists {
        return Err(STATUS_OBJECT_NAME_COLLISION);
    }
    if (disposition == FILE_OPEN || disposition == FILE_OVERWRITE) && !facts.exists {
        return Err(STATUS_NO_SUCH_FILE);
    }
    if wants_directory || (facts.exists && facts.is_directory) {
        if facts.exists {
            return Ok(OpenPlan::UseDirectory);
        }
        return Ok(OpenPlan::MakeDirectory);
    }
    let writable = desired_access / 0x4000_0000 % 2 == 1 || desired_access / 2 % 2 == 1
        || desired_access / 4 % 2 == 1 || disposition == FILE_SUPERSEDE || (FILE_CREATE
        <= disposition && disposition <= FILE_OVERWRITE_IF);
    let create = disposition == FILE_SUPERSEDE || disposition == FILE_OPEN_IF || disposition
        == FILE_OVERWRITE_IF;
    let truncate = disposition == FILE_SUPERSEDE || disposition == FILE_OVERWRITE || disposition
        == FILE_OVERWRITE_IF;
    Ok(
        OpenPlan::File {
            writable,
            create,
            create_new: disposition == FILE_CREATE,
            truncate,
            length: allocation_size,
        },
    )
}

/// The number after `id`, never zero.
pub open spec fn next_id(id: u32) -> u32 {
    if id == u32::MAX {
        1
    } else {
        (id + 1) as u32
    }
}

impl DriveView {
    /// What follows once a path was looked up.
    pub open spec fn located_step(self, purpose: Purpose, facts: TargetFacts) -> StepView {
        match purpose {
            Purpose::Create {
                completion_id,
                desired_access,
                allocation_size,
                disposition,
                options,
            } => match usable(facts, disposition != FILE_OPEN) {
                Err(status) => answer(completion_id, status, create_data(0, 0)),
                Ok(()) => match open_plan(
                    facts,
                    desired_access,
                    allocation_size,
                    disposition,
                    options,
                ) {
                    Err(status) => answer(completion_id, status, create_data(0, 0)),
                    Ok(plan) => StepView::Open {
                        ticket: OpenTicket {
                            completion_id,
                            file_id: self.next_file_id,
                            existed: facts.exists,
                            is_file: plan is File,
                            delete_on_close: has_bit(options, 0x1000),
                        },
                        plan,
                    },
                },
            },
            Purpose::Rename { completion_id, file_id, replace, length } => match usable(
                facts,
                true,
            ) {
                Err(status) => answer(completion_id, status, le32(length)),
                Ok(()) => if !replace && facts.exists {
                    answer(completion_id, STATUS_OBJECT_NAME_COLLISION, le32(length))
                } else {
                    StepView::Rename { completion_id, file_id, length }
                },
            },
        }
    }

    /// The state once a path was opened, or could not be.
    pub open spec fn opened_state(
        self,
        ticket: OpenTicket,
        outcome: Result<(), IoFailure>,
    ) -> DriveView {
        match outcome {
            Err(_) => self,
            Ok(()) => DriveView {
                handles: self.handles.insert(
                    ticket.file_id,
                    HandleView {
                        is_file: ticket.is_file,
                        entries: Seq::empty(),
                        index: 0,
                        delete_on_close: ticket.delete_on_close,
                    },
                ),
                next_file_id: next_id(ticket.file_id),
                ..self
            },
        }
    }
}

/// What is answered once a path was opened, or could not be.
pub open spec fn opened_step(ticket: OpenTicket, outcome: Result<(), IoFailure>) -> StepView {
    match outcome {
        Err(failure) => answer(ticket.completion_id, failure_status(failure), create_data(0, 0)),
        Ok(()) => answer(
            ticket.completion_id,
            STATUS_SUCCESS,
            create_data(
                ticket.file_id,
                if ticket.existed {
                    1
                } else {
                    2
                },
            ),
        ),
    }
}

impl RdpdrState {
    /// Goes on once a path was looked up.
    pub fn located(&self, purpose: Purpose, facts: TargetFacts) -> (step: DriveStep)
        ensures
            step@ == self@.located_step(purpose, facts),
    {
        match purpose {
            Purpose::Create {
                completion_id,
                desired_access,
                allocation_size,
                disposition,
                options,
            } => {
                if let Err(status) = resolve_mapped_path(&facts, disposition != FILE_OPEN) {
                    return respond(completion_id, status, create_response(0, 0));
                }
                match open_file(&facts, desired_access, allocation_size, disposition, options) {
                    Err(status) => respond(completion_id, status, create_response(0, 0)),
                    Ok(plan) => {
                        let is_file = match plan {
                            OpenPlan::File { .. } => true,
                            _ => false,
                        };
                        DriveStep::Open {
                            ticket: OpenTicket {
                                completion_id,
                                file_id: self.next_file_id,
                                existed: facts.exists,
                                is_file,
                                delete_on_close: options / 0x1000 % 2 == 1,
                            },
                            plan,
                        }
                    },
                }
            },
            Purpose::Rename { completion_id, file_id, replace, length } => {
                if let Err(status) = resolve_mapped_path(&facts, true) {
                    return respond(completion_id, status, set_response(length));
                }
                if !replace && facts.exists {
                    return respond(
                        completion_id,
                        STATUS_OBJECT_NAME_COLLISION,
                        set_response(length),
                    );
                }
                DriveStep::Rename { completion_id, file_id, length }
            },
        }
    }

    /// Goes on once a path was opened, or could not be.
    pub fn opened(&mut self, ticket: OpenTicket, outcome: Result<(), IoFailure>) -> (step:
        DriveStep)
        ensures
            final(self)@ == old(self)@.opened_state(ticket, outcome),
            step@ == opened_step(ticket, outcome),
    {
        match outcome {
            Err(failure) => respond(
                ticket.completion_id,
                map_io_error(failure),
                create_response(0, 0),
            ),
            Ok(()) => {
                let handle = DriveHandle {
                    is_file: ticket.is_file,
                    directory_entries: Vec::new(),
                    directory_index: 0,
                    delete_on_close: ticket.delete_on_close,
                };
                let ghost before = handles_view(self.handles@);
                let ghost shown = handle@;
                assert(shown.entries =~= Seq::<EntryView>::empty());
                self.handles.insert(ticket.file_id, handle);
                assert(handles_view(self.handles@) =~= before.insert(ticket.file_id, shown));
                self.next_file_id = if ticket.file_id == u32::MAX {
                    1
                } else {
                    ticket.file_id + 1
                };
                let information: u8 = if ticket.existed {
                    1
                } else {
                    2
                };
                respond(
                    ticket.completion_id,
                    STATUS_SUCCESS,
                    create_response(ticket.file_id, information),
                )
            },
        }
    }
}

// ---- Closing, reading, writing ----------------------------------------------

impl DriveView {
    /// What follows from a request to close.
    pub open spec fn close_step(self, completion_id: u32, file_id: u32) -> StepView {
        if self.handles.contains_key(file_id) {
            StepView::Close {
                completion_id,
                file_id,
                delete: self.handles[file_id].delete_on_close,
            }
        } else {
            answer(completion_id, STATUS_NO_SUCH_FILE, zeros(5))
        }
    }

    /// Whether `file_id` is an open file, and no folder.
    pub open spec fn has_file(self, file_id: u32) -> bool {
        self.handles.contains_key(file_id) && self.handles[file_id].is_file
    }

    /// What follows from a request to read.
    pub open spec fn read_step(self, completion_id: u32, file_id: u32, input: Seq<u8>) -> StepView {
        if input.len() < 12 || le32_at(input, 0) > MAX_IO_SIZE {
            answer(completion_id, STATUS_INVALID_PARAMETER, length_data(Seq::empty()))
        } else if !self.has_file(file_id) {
            answer(completion_id, STATUS_NO_SUCH_FILE, length_data(Seq::empty()))
        } else {
            StepView::Read {
                completion_id,
                file_id,
                offset: le64_at(input, 4),
                length: le32_at(input, 0),
            }
        }
    }

    /// What follows from a request to write.
    pub open spec fn write_step(
        self,
        completion_id: u32,
        file_id: u32,
        input: Seq<u8>,
    ) -> StepView {
        if input.len() < 12 || le32_at(input, 0) > MAX_IO_SIZE || input.len() < 32 + le32_at(
            input,
            0,
        ) {
            answer(completion_id, STATUS_INVALID_PARAMETER, write_data(0))
        } else if !self.has_file(file_id) {
            answer(completion_id, STATUS_NO_SUCH_FILE, write_data(0))
        } else {
            StepView::Write {
                completion_id,
                file_id,
                offset: le64_at(input, 4),
                data: input.subrange(32, 32 + le32_at(input, 0)),
            }
        }
    }

    /// What follows from a request for what is known of a file.
    pub open spec fn query_step(
        self,
        completion_id: u32,
        file_id: u32,
        input: Seq<u8>,
    ) -> StepView {
        if input.len() < 4 {
            answer(completion_id, STATUS_INVALID_PARAMETER, length_data(Seq::empty()))
        } else if !self.handles.contains_key(file_id) {
            answer(completion_id, STATUS_NO_SUCH_FILE, length_data(Seq::empty()))
        } else {
            StepView::Inspect { completion_id, file_id, class: le32_at(input, 0) }
        }
    }

    /// What is answered once it is known what there is to know of a file.
    pub open spec fn inspected_step(
        self,
        completion_id: u32,
        file_id: u32,
        class: u32,
        outcome: Result<FileMetadata, IoFailure>,
    ) -> StepView {
        match outcome {
            Err(failure) => answer(
                completion_id,
                failure_status(failure),
                length_data(Seq::empty()),
            ),
            Ok(metadata) => match information(
                class,
                metadata,
                self.handles.contains_key(file_id) && self.handles[file_id].delete_on_close,
            ) {
                Some(data) => answer(completion_id, STATUS_SUCCESS, length_data(data)),
                None => answer(completion_id, STATUS_NOT_SUPPORTED, length_data(Seq::empty())),
            },
        }
    }

    /// What follows from a question about the folder as a volume.
    pub open spec fn volume_step(self, completion_id: u32, input: Seq<u8>) -> StepView {
        if input.len() < 4 {
            answer(completion_id, STATUS_INVALID_PARAMETER, length_data(Seq::empty()))
        } else {
            match volume_data(le32_at(input, 0), self.name) {
                Some(data) => answer(completion_id, STATUS_SUCCESS, length_data(data)),
                None => answer(completion_id, STATUS_NOT_SUPPORTED, length_data(Seq::empty())),
            }
        }
    }
}

/// The status of an outcome.
pub open spec fn outcome_status(outcome: Result<(), IoFailure>) -> u32 {
    match outcome {
        Ok(()) => STATUS_SUCCESS,
        Err(failure) => failure_status(failure),
    }
}

fn status_of(outcome: Result<(), IoFailure>) -> (status: u32)
    ensures
        status == outcome_status(outcome),
{
    match outcome {
        Ok(()) => STATUS_SUCCESS,
        Err(failure) => map_io_error(failure),
    }
}

/// What is answered to closing.
pub open spec fn close_answer(completion_id: u32, outcome: Result<(), IoFailure>) -> StepView {
    answer(completion_id, outcome_status(outcome), zeros(5))
}

/// Answers a request to close.
pub fn closed(completion_id: u32, outcome: Result<(), IoFailure>) -> (step: DriveStep)
    ensures
        step@ == close_answer(completion_id, outcome),
{
    let mut data: Vec<u8> = Vec::new();
    put_zeros(&mut data, 5);
    respond(completion_id, status_of(outcome), data)
}

/// What is answered to reading.
pub open spec fn read_answer(completion_id: u32, outcome: Result<Seq<u8>, IoFailure>) -> StepView {
    match outcome {
        Ok(data) => answer(completion_id, STATUS_SUCCESS, length_data(data)),
        Err(failure) => answer(completion_id, failure_status(failure), length_data(Seq::empty())),
    }
}

/// Answers a request to read.
pub fn read_done(completion_id: u32, outcome: Result<Vec<u8>, IoFailure>) -> (step: DriveStep)
    ensures
        step@ == read_answer(
            completion_id,
            match outcome {
                Ok(data) => Ok(data@),
                Err(failure) => Err(failure),
            },
        ),
{
    match outcome {
        Ok(data) => respond(completion_id, STATUS_SUCCESS, length_response(data.as_slice())),
        Err(failure) => respond(completion_id, map_io_error(failure), length_response(&[])),
    }
}

/// What is answered to writing `length` bytes.
pub open spec fn write_answer(
    completion_id: u32,
    length: u32,
    outcome: Result<(), IoFailure>,
) -> StepView {
    answer(
        completion_id,
        outcome_status(outcome),
        write_data(
            if outcome is Ok {
                length
            } else {
                0
            },
        ),
    )
}

/// Answers a request to write `length` bytes.
pub fn write_done(completion_id: u32, length: u32, outcome: Result<(), IoFailure>) -> (step:
    DriveStep)
    ensures
        step@ == write_answer(completion_id, length, outcome),
{
    let written = if outcome.is_ok() {
        length
    } else {
        0
    };
    respond(completion_id, status_of(outcome), write_response(written))
}

/// What is answered to changing a file.
pub open spec fn change_answer(
    completion_id: u32,
    length: u32,
    outcome: Result<(), IoFailure>,
) -> StepView {
    answer(completion_id, outcome_status(outcome), le32(length))
}

/// Answers a request to change a file.
pub fn change_done(completion_id: u32, length: u32, outcome: Result<(), IoFailure>) -> (step:
    DriveStep)
    ensures
        step@ == change_answer(completion_id, length, outcome),
{
    respond(completion_id, status_of(outcome), set_response(length))
}

impl RdpdrState {
    /// Closes: the file is forgotten at once.
    pub fn close(&mut self, completion_id: u32, file_id: u32) -> (step: DriveStep)
        ensures
            step@ == old(self)@.close_step(completion_id, file_id),
            final(self)@ == (DriveView {
                handles: old(self)@.handles.remove(file_id),
                ..old(self)@
            }),
    {
        let ghost before = handles_view(self.handles@);
        let removed = self.handles.remove(&file_id);
        assert(handles_view(self.handles@) =~= before.remove(file_id));
        match removed {
            Some(handle) => DriveStep::Close {
                completion_id,
                file_id,
                delete: handle.delete_on_close,
            },
            None => {
                let mut data: Vec<u8> = Vec::new();
                put_zeros(&mut data, 5);
                respond(completion_id, STATUS_NO_SUCH_FILE, data)
            },
        }
    }

    fn is_open_file(&self, file_id: u32) -> (res: bool)
        ensures
            res == self@.has_file(file_id),
    {
        match self.handles.get(&file_id) {
            Some(handle) => handle.is_file,
            None => false,
        }
    }

    /// Reads.
    pub fn read(&self, completion_id: u32, file_id: u32, input: &[u8]) -> (step: DriveStep)
        ensures
            step@ == self@.read_step(completion_id, file_id, input@),
    {
        let (length, offset) = match (read_u32(input, 0), read_u64(input, 4)) {
            (Some(length), Some(offset)) => (length, offset),
            _ => return respond(completion_id, STATUS_INVALID_PARAMETER, length_response(&[])),
        };
        if length as usize > MAX_IO_SIZE {
            return respond(completion_id, STATUS_INVALID_PARAMETER, length_response(&[]));
        }
        if !self.is_open_file(file_id) {
            return respond(completion_id, STATUS_NO_SUCH_FILE, length_response(&[]));
        }
        DriveStep::Read { completion_id, file_id, offset, length }
    }

    /// Writes.
    pub fn write(&self, completion_id: u32, file_id: u32, input: &[u8]) -> (step: DriveStep)
        ensures
            step@ == self@.write_step(completion_id, file_id, input@),
    {
        let (length, offset) = match (read_u32(input, 0), read_u64(input, 4)) {
            (Some(length), Some(offset)) => (length, offset),
            _ => return respond(completion_id, STATUS_INVALID_PARAMETER, write_response(0)),
        };
        let length = length as usize;
        if length > MAX_IO_SIZE || input.len() < 32 + length {
            return respond(completion_id, STATUS_INVALID_PARAMETER, write_response(0));
        }
        if !self.is_open_file(file_id) {
            return respond(completion_id, STATUS_NO_SUCH_FILE, write_response(0));
        }
        let data = vstd::slice::slice_to_vec(
            vstd::slice::slice_subrange(input, 32, 32 + length),
        );
        DriveStep::Write { completion_id, file_id, offset, data }
    }

    /// Asks what is known of a file.
    pub fn query_information(&self, completion_id: u32, file_id: u32, input: &[u8]) -> (step:
        DriveStep)
        ensures
            step@ == self@.query_step(completion_id, file_id, input@),
    {
        let class = match read_u32(input, 0) {
            Some(class) => class,
            None => return respond(completion_id, STATUS_INVALID_PARAMETER, length_response(&[])),
        };
        if self.handles.get(&file_id).is_none() {
            return respond(completion_id, STATUS_NO_SUCH_FILE, length_response(&[]));
        }
        DriveStep::Inspect { completion_id, file_id, class }
    }

    /// Answers what is known of a file.
    pub fn inspected(
        &self,
        completion_id: u32,
        file_id: u32,
        class: u32,
        outcome: Result<FileMetadata, IoFailure>,
    ) -> (step: DriveStep)
        ensures
            step@ == self@.inspected_step(completion_id, file_id, class, outcome),
    {
        match outcome {
            Err(failure) => respond(completion_id, map_io_error(failure), length_response(&[])),
            Ok(metadata) => {
                let delete_on_close = match self.handles.get(&file_id) {
                    Some(handle) => handle.delete_on_close,
                    None => false,
                };
                match file_information(class, &metadata, delete_on_close) {
                    Some(data) => respond(
                        completion_id,
                        STATUS_SUCCESS,
                        length_response(data.as_slice()),
                    ),
                    None => respond(completion_id, STATUS_NOT_SUPPORTED, length_response(&[])),
                }
            },
        }
    }

    /// Answers a question about the folder as a volume.
    pub fn query_volume(&self, completion_id: u32, input: &[u8]) -> (step: DriveStep)
        ensures
            step@ == self@.volume_step(completion_id, input@),
    {
        let class = match read_u32(input, 0) {
            Some(class) => class,
            None => return respond(completion_id, STATUS_INVALID_PARAMETER, length_response(&[])),
        };
        match volume_information(class, self.name.as_str()) {
            Some(data) => respond(completion_id, STATUS_SUCCESS, length_response(data.as_slice())),
            None => respond(completion_id, STATUS_NOT_SUPPORTED, length_response(&[])),
        }
    }
}

// ---- Changing files ---------------------------------------------------------

/// What follows from a request to rename, once the file is known to be open.
pub open spec fn rename_step(
    completion_id: u32,
    file_id: u32,
    data: Seq<u8>,
    length: u32,
) -> StepView {
    let refused = answer(completion_id, STATUS_INVALID_PARAMETER, le32(length));
    if data.len() < 6 || le32_at(data, 2) > MAX_IO_SIZE || 6 + le32_at(data, 2) > data.len() {
        refused
    } else {
        match path_text(data.subrange(6, 6 + le32_at(data, 2))) {
            None => refused,
            Some(path) => match mapped_names(path) {
                None => answer(completion_id, STATUS_ACCESS_DENIED, le32(length)),
                Some(names) => StepView::Locate {
                    purpose: Purpose::Rename {
                        completion_id,
                        file_id,
                        replace: data[0] != 0,
                        length,
                    },
                    names,
                },
            },
        }
    }
}

impl DriveView {
    /// What follows from a request to change a file: the state, and the step.
    pub open spec fn set_outcome(self, completion_id: u32, file_id: u32, input: Seq<u8>) -> (
        DriveView,
        StepView,
    ) {
        if input.len() < 32 || le32_at(input, 4) > MAX_IO_SIZE || input.len() < 32 + le32_at(
            input,
            4,
        ) {
            (self, answer(completion_id, STATUS_INVALID_PARAMETER, le32(0)))
        } else if !self.handles.contains_key(file_id) {
            (self, answer(completion_id, STATUS_NO_SUCH_FILE, le32(0)))
        } else {
            let class = le32_at(input, 0);
            let length = le32_at(input, 4);
            let data = input.subrange(32, 32 + length);
            let handle = self.handles[file_id];
            if class == FILE_END_OF_FILE_INFORMATION || class == FILE_ALLOCATION_INFORMATION {
                if data.len() < 8 {
                    (self, answer(completion_id, STATUS_INVALID_PARAMETER, le32(0)))
                } else if !handle.is_file {
                    (self, answer(completion_id, STATUS_ACCESS_DENIED, le32(length)))
                } else {
                    (
                        self,
                        StepView::SetLength {
                            completion_id,
                            file_id,
                            size: le64_at(data, 0),
                            length,
                        },
                    )
                }
            } else if class == FILE_DISPOSITION_INFORMATION {
                let delete = data.len() == 0 || data[0] != 0;
                (
                    DriveView {
                        handles: self.handles.insert(
                            file_id,
                            HandleView { delete_on_close: delete, ..handle },
                        ),
                        ..self
                    },
                    answer(completion_id, STATUS_SUCCESS, le32(length)),
                )
            } else if class == FILE_RENAME_INFORMATION {
                (self, rename_step(completion_id, file_id, data, length))
            } else if class == FILE_BASIC_INFORMATION {
                (self, answer(completion_id, STATUS_SUCCESS, le32(length)))
            } else {
                (self, answer(completion_id, STATUS_NOT_SUPPORTED, le32(length)))
            }
        }
    }
}

impl RdpdrState {
    /// Renames: looks up the new path first.
    fn rename(&self, completion_id: u32, file_id: u32, data: &[u8], length: u32) -> (step:
        DriveStep)
        ensures
            step@ == rename_step(completion_id, file_id, data@, length),
    {
        let size = data.len();
        if size < 6 {
            return respond(completion_id, STATUS_INVALID_PARAMETER, set_response(length));
        }
        let path_length = match read_u32(data, 2) {
            Some(n) => n as usize,
            None => return respond(completion_id, STATUS_INVALID_PARAMETER, set_response(length)),
        };
        if path_length > MAX_IO_SIZE || path_length > size - 6 {
            return respond(completion_id, STATUS_INVALID_PARAMETER, set_response(length));
        }
        let path = match read_path(vstd::slice::slice_subrange(data, 6, 6 + path_length)) {
            Some(path) => path,
            None => return respond(completion_id, STATUS_INVALID_PARAMETER, set_response(length)),
        };
        match self.resolve_path(path.as_str()) {
            Err(status) => respond(completion_id, status, set_response(length)),
            Ok(names) => DriveStep::Locate {
                purpose: Purpose::Rename { completion_id, file_id, replace: data[0] != 0, length },
                names,
            },
        }
    }

    /// Changes a file.
    pub fn set_information(&mut self, completion_id: u32, file_id: u32, input: &[u8]) -> (step:
        DriveStep)
        ensures
            (final(self)@, step@) == old(self)@.set_outcome(completion_id, file_id, input@),
    {
        let size = input.len();
        if size < 32 {
            return respond(completion_id, STATUS_INVALID_PARAMETER, set_response(0));
        }
        let (class, length) = match (read_u32(input, 0), read_u32(input, 4)) {
            (Some(class), Some(length)) => (class, length),
            _ => return respond(completion_id, STATUS_INVALID_PARAMETER, set_response(0)),
        };
        if length as usize > MAX_IO_SIZE || size - 32 < length as usize {
            return respond(completion_id, STATUS_INVALID_PARAMETER, set_response(0));
        }
        let data = vstd::slice::slice_subrange(input, 32, 32 + length as usize);
        let is_file = match self.handles.get(&file_id) {
            Some(handle) => handle.is_file,
            None => return respond(completion_id, STATUS_NO_SUCH_FILE, set_response(0)),
        };
        if class == FILE_END_OF_FILE_INFORMATION || class == FILE_ALLOCATION_INFORMATION {
            let new_size = match read_u64(data, 0) {
                Some(n) => n,
                None => return respond(completion_id, STATUS_INVALID_PARAMETER, set_response(0)),
            };
            if !is_file {
                return respond(completion_id, STATUS_ACCESS_DENIED, set_response(length));
            }
            return DriveStep::SetLength { completion_id, file_id, size: new_size, length };
        }
        if class == FILE_DISPOSITION_INFORMATION {
            let delete = data.len() == 0 || data[0] != 0;
            let ghost before = handles_view(self.handles@);
            if let Some(handle) = self.handles.remove(&file_id) {
                let ghost shown = handle@;
                let mut changed = handle;
                changed.delete_on_close = delete;
                self.handles.insert(file_id, changed);
                assert(handles_view(self.handles@) =~= before.insert(
                    file_id,
                    HandleView { delete_on_close: delete, ..shown },
                ));
            }
            return respond(completion_id, STATUS_SUCCESS, set_response(length));
        }
        if class == FILE_RENAME_INFORMATION {
            return self.rename(completion_id, file_id, data, length);
        }
        if class == FILE_BASIC_INFORMATION {
            return respond(completion_id, STATUS_SUCCESS, set_response(length));
        }
        respond(completion_id, STATUS_NOT_SUPPORTED, set_response(length))
    }
}

// ---- Listing folders --------------------------------------------------------

/// The entries whose names fit a pattern.
pub open spec fn fitting(entries: Seq<EntryView>, pattern: Seq<char>) -> Seq<EntryView>
    decreases entries.len(),
{
    if entries.len() == 0 {
        entries
    } else if fits(pattern, entries.last().name) {
        fitting(entries.drop_last(), pattern).push(entries.last())
    } else {
        fitting(entries.drop_last(), pattern)
    }
}

/// The lower-case names of entries.
pub open spec fn entry_keys(entries: Seq<EntryView>) -> Seq<Seq<char>> {
    entries.map_values(|e: EntryView| lowered(e.name))
}

/// The entries that a search finds, in the order of their lower-case names.
pub open spec fn found_entries(entries: Seq<EntryView>, pattern: Seq<char>) -> Seq<EntryView> {
    let kept = fitting(entries, pattern);
    arranged(entry_keys(kept), kept).1
}

proof fn lemma_fitting(entries: Seq<EntryView>, pattern: Seq<char>)
    ensures
        forall|i: int|
            0 <= i < fitting(entries, pattern).len() ==> fits(
                pattern,
                (#[trigger] fitting(entries, pattern)[i]).name,
            ) && entries.contains(fitting(entries, pattern)[i]),
        forall|i: int|
            0 <= i < entries.len() && fits(pattern, (#[trigger] entries[i]).name) ==> fitting(
                entries,
                pattern,
            ).contains(entries[i]),
    decreases entries.len(),
{
    if entries.len() > 0 {
        let front = entries.drop_last();
        let before = fitting(front, pattern);
        let kept = fitting(entries, pattern);
        lemma_fitting(front, pattern);
        assert forall|i: int| 0 <= i < kept.len() implies fits(
            pattern,
            (#[trigger] kept[i]).name,
        ) && entries.contains(kept[i]) by {
            if i < before.len() {
                let k = front.index_of(before[i]);
                assert(front.contains(before[i]) && kept[i] == before[i]);
                assert(entries[k] == kept[i]);
            } else {
                assert(kept[i] == entries[entries.len() - 1]);
            }
        }
        assert forall|i: int|
            0 <= i < entries.len() && fits(
                pattern,
                (#[trigger] entries[i]).name,
            ) implies kept.contains(entries[i]) by {
            if i < front.len() {
                assert(front[i] == entries[i]);
                let k = before.index_of(entries[i]);
                assert(before.contains(entries[i]));
                assert(kept[k] == entries[i]);
            } else {
                assert(kept[kept.len() - 1] == entries[i]);
            }
        }
    }
}

/// A search finds the entries that fit its pattern, and no others.
pub proof fn search_finds_what_fits(entries: Seq<EntryView>, pattern: Seq<char>, entry: EntryView)
    ensures
        found_entries(entries, pattern).contains(entry) <==> entries.contains(entry) && fits(
            pattern,
            entry.name,
        ),
{
    let kept = fitting(entries, pattern);
    let found = found_entries(entries, pattern);
    lemma_fitting(entries, pattern);
    arranged_in_order(entry_keys(kept), kept);
    kept.to_multiset_ensures();
    found.to_multiset_ensures();
    assert(kept.contains(entry) <==> kept.to_multiset().count(entry) > 0);
    assert(found.contains(entry) <==> found.to_multiset().count(entry) > 0);
    if entries.contains(entry) && fits(pattern, entry.name) {
        let k = entries.index_of(entry);
        assert(kept.contains(entries[k]));
    }
    if kept.contains(entry) {
        let k = kept.index_of(entry);
        assert(entries.contains(kept[k]));
    }
}

/// What a search finds is in the order of the lower-case names.
pub proof fn search_is_in_order(entries: Seq<EntryView>, pattern: Seq<char>)
    ensures
        in_order(entry_keys(found_entries(entries, pattern))),
{
    let kept = fitting(entries, pattern);
    let keys = entry_keys(kept);
    arranged_in_order(keys, kept);
    let (sorted, found) = arranged(keys, kept);
    assert forall|i: int| 0 <= i < found.len() implies entry_keys(found)[i] == sorted[i] by {
        let k = choose|k: int|
            0 <= k < keys.len() && keys[k] == sorted[i] && kept[k] == found[i];
    }
    assert(entry_keys(found) =~= sorted);
}

/// The entries that a search finds, in the order of their lower-case names.
pub fn read_directory_entries(entries: Vec<DirectoryEntry>, pattern: &str) -> (found: Vec<
    DirectoryEntry,
>)
    ensures
        entries_view(found@) == found_entries(entries_view(entries@), pattern@),
{
    let ghost all = entries_view(entries@);
    let mut rest = entries;
    let mut reversed: Vec<DirectoryEntry> = Vec::new();
    while rest.len() > 0
        invariant
            entries_view(rest@) + entries_view(reversed@).reverse() == all,
        decreases rest@.len(),
    {
        let ghost left = rest@;
        let ghost right = reversed@;
        if let Some(entry) = rest.pop() {
            reversed.push(entry);
            assert(entries_view(rest@) + entries_view(reversed@).reverse() =~= entries_view(left)
                + entries_view(right).reverse());
        }
    }
    let mut found: Vec<DirectoryEntry> = Vec::new();
    let mut keys: Vec<String> = Vec::new();
    let ghost mut done: Seq<EntryView> = Seq::empty();
    assert(entries_view(reversed@).reverse() =~= all);
    assert(done + entries_view(reversed@).reverse() =~= all);
    assert(entry_keys(fitting(done, pattern@)) =~= Seq::<Seq<char>>::empty());
    assert(texts(keys@) =~= Seq::<Seq<char>>::empty());
    assert(entries_view(found@) =~= Seq::<EntryView>::empty());
    while reversed.len() > 0
        invariant
            done + entries_view(reversed@).reverse() == all,
            texts(keys@) == arranged(
                entry_keys(fitting(done, pattern@)),
                fitting(done, pattern@),
            ).0,
            entries_view(found@) == found_entries(done, pattern@),
            keys@.len() == found@.len(),
        decreases reversed@.len(),
    {
        let ghost right = reversed@;
        if let Some(entry) = reversed.pop() {
            let ghost shown = entry@;
            let ghost before = fitting(done, pattern@);
            proof {
                assert(done.push(shown).drop_last() =~= done);
                assert(done.push(shown) + entries_view(reversed@).reverse() =~= done
                    + entries_view(right).reverse());
            }
            if wildcard_matches(pattern, entry.name.as_str()) {
                let name = crate::text::chars_of(entry.name.as_str());
                let key = lower(name.as_slice());
                let at = place_of(&keys, key.as_str());
                let ghost old_keys = texts(keys@);
                let ghost old_found = entries_view(found@);
                proof {
                    let kept = before.push(shown);
                    assert(kept.drop_last() =~= before);
                    assert(entry_keys(kept).drop_last() =~= entry_keys(before));
                    assert(entry_keys(kept).last() == key@);
                }
                keys.insert(at, key);
                found.insert(at, entry);
                assert(texts(keys@) =~= old_keys.insert(at as int, key@));
                assert(entries_view(found@) =~= old_found.insert(at as int, shown));
            }
            proof {
                done = done.push(shown);
            }
        }
    }
    assert(done + Seq::<EntryView>::empty() =~= done);
    assert(entries_view(reversed@).reverse() =~= Seq::<EntryView>::empty());
    found
}

/// What follows from a request to list a folder.
pub open spec fn list_step(
    state: DriveView,
    completion_id: u32,
    file_id: u32,
    input: Seq<u8>,
) -> StepView {
    if input.len() < 32 || le32_at(input, 5) > MAX_IO_SIZE || 32 + le32_at(input, 5) > input.len() {
        answer(completion_id, STATUS_INVALID_PARAMETER, directory_data(Seq::empty()))
    } else if !state.handles.contains_key(file_id) {
        answer(completion_id, STATUS_NO_SUCH_FILE, directory_data(Seq::empty()))
    } else {
        let asked = match path_text(input.subrange(32, 32 + le32_at(input, 5))) {
            Some(text) => text,
            None => "*"@,
        };
        let (folder, pattern) = search_parts(asked);
        StepView::List {
            completion_id,
            file_id,
            class: le32_at(input, 0),
            folder: if input[4] != 0 {
                Some(folder)
            } else {
                None
            },
            pattern,
        }
    }
}

/// What a [`ListReply`] says.
#[verifier::ext_equal]
pub enum ListView {
    NotADirectory,
    Outside,
    Failed(IoFailure),
    Present,
    Entries(Seq<EntryView>),
}

impl View for ListReply {
    type V = ListView;

    open spec fn view(&self) -> ListView {
        match *self {
            ListReply::NotADirectory => ListView::NotADirectory,
            ListReply::Outside => ListView::Outside,
            ListReply::Failed(failure) => ListView::Failed(failure),
            ListReply::Present => ListView::Present,
            ListReply::Entries(entries) => ListView::Entries(entries_view(entries@)),
        }
    }
}

/// Why a folder is not searched: `resolved`, which is the folder once links are
/// followed, lies outside `root`, or could not be told. None where it is.
pub open spec fn search_refusal(
    root: Seq<Seq<u8>>,
    resolved: Result<Seq<Seq<u8>>, IoFailure>,
) -> Option<ListView> {
    match resolved {
        Ok(path) => if within(root, path) {
            None
        } else {
            Some(ListView::Outside)
        },
        Err(failure) => Some(ListView::Failed(failure)),
    }
}

/// What comes of reading a folder.
pub open spec fn read_reply(read: Result<Seq<EntryView>, IoFailure>) -> ListView {
    match read {
        Ok(entries) => ListView::Entries(entries),
        Err(failure) => ListView::Failed(failure),
    }
}

/// What comes of a search: the folder is read only where it is not refused.
pub open spec fn search_reply(
    root: Seq<Seq<u8>>,
    resolved: Result<Seq<Seq<u8>>, IoFailure>,
    read: Result<Seq<EntryView>, IoFailure>,
) -> ListView {
    match search_refusal(root, resolved) {
        Some(refusal) => refusal,
        None => read_reply(read),
    }
}

impl ListReply {
    /// Why a folder is not searched, before it is read; none where it may be.
    pub fn refused(root: &[Vec<u8>], resolved: Result<&[Vec<u8>], IoFailure>) -> (reply: Option<
        ListReply,
    >)
        ensures
            match resolved {
                Ok(path) => if within(components(root@), components(path@)) {
                    reply is None
                } else {
                    reply matches Some(ListReply::Outside)
                },
                Err(failure) => reply matches Some(ListReply::Failed(f)) && f == failure,
            },
            search_refusal(
                components(root@),
                match resolved {
                    Ok(path) => Ok(components(path@)),
                    Err(failure) => Err(failure),
                },
            ) == (match reply {
                Some(refusal) => Some(refusal@),
                None => None,
            }),
    {
        match resolved {
            Ok(path) => if lies_within(root, path) {
                None
            } else {
                Some(ListReply::Outside)
            },
            Err(failure) => Some(ListReply::Failed(failure)),
        }
    }

    /// What comes of reading a folder that was not refused.
    pub fn read(outcome: Result<Vec<DirectoryEntry>, IoFailure>) -> (reply: ListReply)
        ensures
            reply@ == read_reply(
                match outcome {
                    Ok(entries) => Ok(entries_view(entries@)),
                    Err(failure) => Err(failure),
                },
            ),
    {
        match outcome {
            Ok(entries) => ListReply::Entries(entries),
            Err(failure) => ListReply::Failed(failure),
        }
    }
}

/// What follows from a folder that is at `handle`: the folder, the status and
/// what is told. Each request is told of one entry, and the place moves on.
pub open spec fn next_entry(handle: HandleView, class: u32) -> (HandleView, u32, Seq<u8>) {
    if handle.index < handle.entries.len() {
        let entry = handle.entries[handle.index as int];
        let moved = HandleView { index: handle.index + 1, ..handle };
        match entry_data(class, entry.name, entry.metadata) {
            Some(data) => (moved, STATUS_SUCCESS, data),
            None => (moved, STATUS_NOT_SUPPORTED, Seq::empty()),
        }
    } else {
        (handle, STATUS_NO_MORE_FILES, Seq::empty())
    }
}

impl DriveView {
    /// What follows once a folder was looked into: the state, and the step.
    pub open spec fn listed_outcome(
        self,
        completion_id: u32,
        file_id: u32,
        class: u32,
        pattern: Seq<char>,
        reply: ListView,
    ) -> (DriveView, StepView) {
        if !self.handles.contains_key(file_id) {
            (self, answer(completion_id, STATUS_NO_SUCH_FILE, directory_data(Seq::empty())))
        } else {
            let handle = self.handles[file_id];
            match reply {
                ListView::NotADirectory => (
                    self,
                    answer(completion_id, STATUS_NOT_A_DIRECTORY, directory_data(Seq::empty())),
                ),
                ListView::Outside => (
                    self,
                    answer(completion_id, STATUS_ACCESS_DENIED, directory_data(Seq::empty())),
                ),
                ListView::Failed(failure) => (
                    self,
                    answer(completion_id, failure_status(failure), directory_data(Seq::empty())),
                ),
                _ => {
                    let start = match reply {
                        ListView::Entries(entries) => HandleView {
                            entries: found_entries(entries, pattern),
                            index: 0,
                            ..handle
                        },
                        _ => handle,
                    };
                    let (next, status, data) = next_entry(start, class);
                    (
                        DriveView { handles: self.handles.insert(file_id, next), ..self },
                        answer(completion_id, status, directory_data(data)),
                    )
                },
            }
        }
    }
}

/// Entries come of a search only where the folder, once links are followed, is
/// the mapped folder or lies below it. Else nothing is told of any entry and
/// nothing changes: the search is denied where the folder lies outside, and
/// fails as resolving it failed.
pub proof fn searched_folders_are_inside(
    state: DriveView,
    completion_id: u32,
    file_id: u32,
    class: u32,
    pattern: Seq<char>,
    root: Seq<Seq<u8>>,
    resolved: Result<Seq<Seq<u8>>, IoFailure>,
    read: Result<Seq<EntryView>, IoFailure>,
)
    requires
        state.handles.contains_key(file_id),
    ensures
        search_reply(root, resolved, read) is Entries ==> (resolved matches Ok(path) && within(
            root,
            path,
        )),
        ({
            let outcome = state.listed_outcome(
                completion_id,
                file_id,
                class,
                pattern,
                search_reply(root, resolved, read),
            );
            let nothing = directory_data(Seq::empty());
            match resolved {
                Ok(path) => !within(root, path) ==> outcome == (
                    state,
                    answer(completion_id, STATUS_ACCESS_DENIED, nothing),
                ),
                Err(failure) => outcome == (
                    state,
                    answer(completion_id, failure_status(failure), nothing),
                ),
            }
        }),
{
}

impl DriveHandle {
    /// Tells of the next entry.
    fn advance(&mut self, class: u32) -> (res: (u32, Vec<u8>))
        ensures
            (final(self)@, res.0, res.1@) == next_entry(old(self)@, class),
    {
        if self.directory_index >= self.directory_entries.len() {
            return (STATUS_NO_MORE_FILES, Vec::new());
        }
        let index = self.directory_index;
        self.directory_index = index + 1;
        let entry = &self.directory_entries[index];
        assert(entries_view(self.directory_entries@)[index as int] == entry@);
        match listing_entry(class, entry.name.as_str(), &entry.metadata) {
            Some(data) => (STATUS_SUCCESS, data),
            None => (STATUS_NOT_SUPPORTED, Vec::new()),
        }
    }
}

impl RdpdrState {
    /// Lists a folder: looks into it first.
    pub fn query_directory(&self, completion_id: u32, file_id: u32, input: &[u8]) -> (step:
        DriveStep)
        ensures
            step@ == list_step(self@, completion_id, file_id, input@),
    {
        let size = input.len();
        if size < 32 {
            return respond(completion_id, STATUS_INVALID_PARAMETER, directory_response(&[]));
        }
        let (class, length) = match (read_u32(input, 0), read_u32(input, 5)) {
            (Some(class), Some(length)) => (class, length as usize),
            _ => return respond(completion_id, STATUS_INVALID_PARAMETER, directory_response(&[])),
        };
        if length > MAX_IO_SIZE || length > size - 32 {
            return respond(completion_id, STATUS_INVALID_PARAMETER, directory_response(&[]));
        }
        if self.handles.get(&file_id).is_none() {
            return respond(completion_id, STATUS_NO_SUCH_FILE, directory_response(&[]));
        }
        let asked = match read_path(vstd::slice::slice_subrange(input, 32, 32 + length)) {
            Some(text) => text,
            None => "*".to_owned(),
        };
        let (folder, pattern) = split_search_pattern(asked.as_str());
        DriveStep::List {
            completion_id,
            file_id,
            class,
            folder: if input[4] != 0 {
                Some(folder)
            } else {
                None
            },
            pattern,
        }
    }

    /// Goes on once a folder was looked into.
    pub fn listed(
        &mut self,
        completion_id: u32,
        file_id: u32,
        class: u32,
        pattern: &str,
        reply: ListReply,
    ) -> (step: DriveStep)
        ensures
            (final(self)@, step@) == old(self)@.listed_outcome(
                completion_id,
                file_id,
                class,
                pattern@,
                reply@,
            ),
    {
        if self.handles.get(&file_id).is_none() {
            return respond(completion_id, STATUS_NO_SUCH_FILE, directory_response(&[]));
        }
        let mut entries: Option<Vec<DirectoryEntry>> = None;
        match reply {
            ListReply::NotADirectory => {
                return respond(completion_id, STATUS_NOT_A_DIRECTORY, directory_response(&[]));
            },
            ListReply::Outside => {
                return respond(completion_id, STATUS_ACCESS_DENIED, directory_response(&[]));
            },
            ListReply::Failed(failure) => {
                return respond(completion_id, map_io_error(failure), directory_response(&[]));
            },
            ListReply::Present => {},
            ListReply::Entries(all) => {
                entries = Some(read_directory_entries(all, pattern));
            },
        }
        let ghost before = handles_view(self.handles@);
        match self.handles.remove(&file_id) {
            None => respond(completion_id, STATUS_NO_SUCH_FILE, directory_response(&[])),
            Some(taken) => {
                let mut handle = taken;
                if let Some(found) = entries {
                    handle.directory_entries = found;
                    handle.directory_index = 0;
                }
                let (status, data) = handle.advance(class);
                let ghost shown = handle@;
                self.handles.insert(file_id, handle);
                assert(handles_view(self.handles@) =~= before.insert(file_id, shown));
                respond(completion_id, status, directory_response(data.as_slice()))
            },
        }
    }
}

// ---- Messages ---------------------------------------------------------------

impl DriveView {
    /// What follows from a request: the state, and the step.
    pub open spec fn request_outcome(self, message: Seq<u8>) -> (DriveView, StepView) {
        if message.len() < 24 {
            (self, answer(0, STATUS_INVALID_PARAMETER, Seq::empty()))
        } else {
            let device_id = le32_at(message, 4);
            let file_id = le32_at(message, 8);
            let id = le32_at(message, 12);
            let major = le32_at(message, 16);
            let minor = le32_at(message, 20);
            let input = message.skip(24);
            if device_id != DEVICE_ID {
                (
                    self,
                    StepView::Respond(
                        seq![completion(device_id, id, STATUS_NO_SUCH_FILE, Seq::empty())],
                    ),
                )
            } else if major == 0 {
                (self, create_step(id, input))
            } else if major == 2 {
                (
                    DriveView { handles: self.handles.remove(file_id), ..self },
                    self.close_step(id, file_id),
                )
            } else if major == 3 {
                (self, self.read_step(id, file_id, input))
            } else if major == 4 {
                (self, self.write_step(id, file_id, input))
            } else if major == 5 {
                (self, self.query_step(id, file_id, input))
            } else if major == 6 {
                self.set_outcome(id, file_id, input)
            } else if major == 0xA {
                (self, self.volume_step(id, input))
            } else if major == 0xC && minor == 1 {
                (self, list_step(self, id, file_id, input))
            } else if major == 0xE || major == 0x11 {
                (self, answer(id, STATUS_SUCCESS, le32(0)))
            } else {
                (self, answer(id, STATUS_NOT_SUPPORTED, Seq::empty()))
            }
        }
    }

    /// What follows from the server's first message: the rest of what was known
    /// is forgotten. One that is cut short is obeyed as far as it goes.
    pub open spec fn announced_outcome(self, message: Seq<u8>) -> (DriveView, StepView) {
        let quiet = StepView::Respond(Seq::empty());
        if message.len() < 6 {
            (self, quiet)
        } else {
            let major = DriveView { version_major: le16_at(message, 4), ..self };
            if message.len() < 8 {
                (major, quiet)
            } else {
                let minor = DriveView {
                    version_minor: if le16_at(message, 6) < 12 {
                        le16_at(message, 6)
                    } else {
                        12
                    },
                    ..major
                };
                if message.len() < 12 {
                    (minor, quiet)
                } else {
                    let next = DriveView {
                        client_id: le32_at(message, 8),
                        have_server_caps: false,
                        have_client_id: false,
                        announced: false,
                        handles: Map::empty(),
                        ..minor
                    };
                    (
                        next,
                        StepView::Respond(seq![next.id_confirmation(), client_name_message()]),
                    )
                }
            }
        }
    }

    /// What follows from a message: the state, and the step. The folder is
    /// announced once the server has told both its capabilities and the
    /// client's number, and again when a user signs in.
    pub open spec fn message_outcome(self, message: Seq<u8>) -> (DriveView, StepView) {
        let quiet = StepView::Respond(Seq::empty());
        if message.len() < 4 || le16_at(message, 0) != 0x4472 {
            (self, quiet)
        } else {
            let kind = le16_at(message, 2);
            if kind == 0x496E {
                self.announced_outcome(message)
            } else if kind == 0x5350 {
                let next = DriveView {
                    have_server_caps: true,
                    announced: self.announced || self.have_client_id,
                    ..self
                };
                if self.have_client_id && !self.announced {
                    (next, StepView::Respond(seq![self.capabilities(), self.announcement()]))
                } else {
                    (next, StepView::Respond(seq![self.capabilities()]))
                }
            } else if kind == 0x4343 {
                let next = DriveView {
                    version_major: if message.len() < 6 {
                        self.version_major
                    } else {
                        le16_at(message, 4)
                    },
                    version_minor: if message.len() < 8 {
                        self.version_minor
                    } else {
                        le16_at(message, 6)
                    },
                    client_id: if message.len() < 12 {
                        self.client_id
                    } else {
                        le32_at(message, 8)
                    },
                    have_client_id: true,
                    announced: self.announced || self.have_server_caps,
                    ..self
                };
                if self.have_server_caps && !self.announced {
                    (next, StepView::Respond(seq![self.announcement()]))
                } else {
                    (next, quiet)
                }
            } else if kind == 0x554C {
                (
                    DriveView { announced: true, ..self },
                    StepView::Respond(seq![self.announcement()]),
                )
            } else if kind == 0x4952 {
                self.request_outcome(message)
            } else {
                (self, quiet)
            }
        }
    }

    /// What follows from a chunk: the state, and the step.
    pub open spec fn payload_outcome(self, payload: Seq<u8>) -> (DriveView, StepView) {
        let (chunks, complete) = received_within(self.chunks, payload);
        let next = DriveView { chunks, ..self };
        match complete {
            Some(message) => next.message_outcome(message),
            None => (next, StepView::Respond(Seq::empty())),
        }
    }
}

/// What a chunk does: the chunks that are kept, and the message that is complete
/// with it. One with no header does nothing.
pub open spec fn received_within(chunks: ChunksView, payload: Seq<u8>) -> (
    ChunksView,
    Option<Seq<u8>>,
) {
    if payload.len() < 8 {
        (chunks, None)
    } else {
        let flags = le32_at(payload, 4);
        received_part(
            chunks,
            flags % 2 == 1,
            flags / 2 % 2 == 1,
            le32_at(payload, 0) as nat,
            payload.skip(8),
        )
    }
}

/// What the bytes of a chunk do: the chunks that are kept, and the message that
/// is complete with it. The first chunk says how long the message is, and one
/// that grows too long is dropped.
pub open spec fn received_part(
    chunks: ChunksView,
    first: bool,
    last: bool,
    total: nat,
    part: Seq<u8>,
) -> (ChunksView, Option<Seq<u8>>) {
    let start = if first {
        ChunksView {
            data: Seq::empty(),
            total: if total < MAX_MESSAGE {
                total
            } else {
                MAX_MESSAGE as nat
            },
        }
    } else {
        chunks
    };
    let data = start.data + part;
    if data.len() > MAX_MESSAGE {
        (ChunksView::none(), None)
    } else if !last {
        (ChunksView { data, ..start }, None)
    } else {
        (
            ChunksView::none(),
            Some(
                if start.total < data.len() {
                    data.take(start.total as int)
                } else {
                    data
                },
            ),
        )
    }
}

/// Whether a step works on the request with number `id`, or answers it.
pub open spec fn works_on(step: StepView, id: u32) -> bool {
    match step {
        StepView::Respond(messages) => messages.len() == 1 && exists|status: u32, data: Seq<u8>|
            messages[0] == #[trigger] completion(DEVICE_ID, id, status, data),
        StepView::Locate { purpose, .. } => match purpose {
            Purpose::Create { completion_id, .. } => completion_id == id,
            Purpose::Rename { completion_id, .. } => completion_id == id,
        },
        StepView::Open { ticket, .. } => ticket.completion_id == id,
        StepView::Close { completion_id, .. } => completion_id == id,
        StepView::Read { completion_id, .. } => completion_id == id,
        StepView::Write { completion_id, .. } => completion_id == id,
        StepView::Inspect { completion_id, .. } => completion_id == id,
        StepView::SetLength { completion_id, .. } => completion_id == id,
        StepView::Rename { completion_id, .. } => completion_id == id,
        StepView::List { completion_id, .. } => completion_id == id,
    }
}

proof fn lemma_answer(id: u32, status: u32, data: Seq<u8>)
    ensures
        works_on(answer(id, status, data), id),
{
    assert(answer(id, status, data)->Respond_0[0] == completion(DEVICE_ID, id, status, data));
}

/// Every whole request to the device is worked on, or answered, under its own
/// number.
pub proof fn requests_are_worked_on(state: DriveView, message: Seq<u8>)
    requires
        message.len() >= 24,
        le32_at(message, 4) == DEVICE_ID,
    ensures
        works_on(state.request_outcome(message).1, le32_at(message, 12)),
{
    let id = le32_at(message, 12);
    assert forall|status: u32, data: Seq<u8>| works_on(#[trigger] answer(id, status, data), id) by {
        lemma_answer(id, status, data);
    }
}

/// Once a path was looked up, its request is worked on, or answered.
pub proof fn lookups_are_worked_on(state: DriveView, purpose: Purpose, facts: TargetFacts, id: u32)
    requires
        works_on(StepView::Locate { purpose, names: Seq::empty() }, id),
    ensures
        works_on(state.located_step(purpose, facts), id),
{
    assert forall|status: u32, data: Seq<u8>| works_on(#[trigger] answer(id, status, data), id) by {
        lemma_answer(id, status, data);
    }
}

/// Whatever comes of the work on a request, it is answered under its number.
pub proof fn work_is_answered(
    state: DriveView,
    ticket: OpenTicket,
    opened: Result<(), IoFailure>,
    read: Result<Seq<u8>, IoFailure>,
    known: Result<FileMetadata, IoFailure>,
    listed: ListView,
    file_id: u32,
    class: u32,
    pattern: Seq<char>,
)
    ensures
        ({
            let id = ticket.completion_id;
            let inspected = state.inspected_step(id, file_id, class, known);
            let found = state.listed_outcome(id, file_id, class, pattern, listed).1;
            &&& opened_step(ticket, opened) is Respond && works_on(opened_step(ticket, opened), id)
            &&& read_answer(id, read) is Respond && works_on(read_answer(id, read), id)
            &&& inspected is Respond && works_on(inspected, id)
            &&& found is Respond && works_on(found, id)
        }),
{
    let id = ticket.completion_id;
    assert forall|status: u32, data: Seq<u8>| works_on(#[trigger] answer(id, status, data), id) by {
        lemma_answer(id, status, data);
    }
}

/// The file system is asked only about files that are open, and never to move
/// more than the limit at once.
pub proof fn steps_are_on_open_files(state: DriveView, message: Seq<u8>)
    ensures
        match state.request_outcome(message).1 {
            StepView::Close { file_id, .. } => state.handles.contains_key(file_id),
            StepView::Read { file_id, length, .. } => state.has_file(file_id) && length
                <= MAX_IO_SIZE,
            StepView::Write { file_id, data, .. } => state.has_file(file_id) && data.len()
                <= MAX_IO_SIZE,
            StepView::Inspect { file_id, .. } => state.handles.contains_key(file_id),
            StepView::SetLength { file_id, .. } => state.has_file(file_id),
            StepView::List { file_id, .. } => state.handles.contains_key(file_id),
            StepView::Locate { purpose: Purpose::Rename { file_id, .. }, .. } =>
                state.handles.contains_key(file_id),
            _ => true,
        },
{
}

/// Every path that is looked up for a request stays in the mapped folder.
pub proof fn looked_up_names_stay(state: DriveView, message: Seq<u8>)
    ensures
        state.request_outcome(message).1 matches StepView::Locate { names, .. } ==> forall|i: int|
            0 <= i < names.len() ==> stays(#[trigger] names[i]),
{
    if let StepView::Locate { names, .. } = state.request_outcome(message).1 {
        let input = message.skip(24);
        let path = if le32_at(message, 16) == 0 {
            path_text(input.subrange(32, 32 + le32_at(input, 28)))->0
        } else {
            let data = input.subrange(32, 32 + le32_at(input, 4));
            path_text(data.subrange(6, 6 + le32_at(data, 2)))->0
        };
        assert(mapped_names(path) == Some(names));
        mapped_names_stay(path);
    }
}

impl DriveView {
    /// Whether no open file has the number zero, nor will the next.
    pub open spec fn numbered(self) -> bool {
        self.next_file_id > 0 && !self.handles.contains_key(0)
    }
}

proof fn lemma_request_numbered(state: DriveView, message: Seq<u8>)
    requires
        state.numbered(),
    ensures
        state.request_outcome(message).0.numbered(),
{
    let input = message.skip(24);
    let changed = state.set_outcome(le32_at(message, 12), le32_at(message, 8), input).0;
    assert(changed.numbered());
}

proof fn lemma_message_numbered(state: DriveView, message: Seq<u8>)
    requires
        state.numbered(),
    ensures
        state.message_outcome(message).0.numbered(),
{
    lemma_request_numbered(state, message);
    assert(state.announced_outcome(message).0.numbered());
}

/// No open file ever has the number zero, whatever comes.
pub proof fn open_files_are_numbered(state: DriveView, payload: Seq<u8>)
    requires
        state.numbered(),
    ensures
        state.payload_outcome(payload).0.numbered(),
{
    let next = DriveView { chunks: ChunksView::none(), ..state };
    assert forall|message: Seq<u8>| (#[trigger] next.message_outcome(message)).0.numbered() by {
        lemma_message_numbered(next, message);
    }
}

/// A file that is opened gets the number that was free for it, and not zero.
pub proof fn opened_files_are_numbered(
    state: DriveView,
    purpose: Purpose,
    facts: TargetFacts,
    outcome: Result<(), IoFailure>,
)
    requires
        state.numbered(),
    ensures
        state.located_step(purpose, facts) matches StepView::Open { ticket, .. } ==> {
            &&& ticket.file_id == state.next_file_id
            &&& state.opened_state(ticket, outcome).numbered()
        },
{
}

/// The state after the first `n` chunks of a message.
pub open spec fn after_payloads(state: DriveView, message: Seq<u8>, n: nat) -> DriveView
    decreases n,
{
    if n == 0 {
        state
    } else {
        after_payloads(state, message, (n - 1) as nat).payload_outcome(chunk(message, n - 1)).0
    }
}

/// What the bytes of a message from `start` to `end` do to the chunks that are
/// kept, where those before have come.
proof fn lemma_received_part(
    chunks: ChunksView,
    message: Seq<u8>,
    start: int,
    end: int,
    last: bool,
)
    requires
        message.len() <= MAX_MESSAGE,
        0 <= start <= end <= message.len(),
        start > 0 ==> chunks == (ChunksView { data: message.take(start), total: message.len() }),
        last ==> end == message.len(),
    ensures
        received_part(chunks, start == 0, last, message.len(), message.subrange(start, end)) == (
        if last {
            (ChunksView::none(), Some(message))
        } else {
            (ChunksView { data: message.take(end), total: message.len() }, None::<Seq<u8>>)
        }),
{
    let before = if start == 0 {
        Seq::<u8>::empty()
    } else {
        chunks.data
    };
    assert(before + message.subrange(start, end) =~= message.take(end));
    assert(message.take(message.len() as int) =~= message);
}

/// What chunk `i` of a message does to the chunks that are kept.
#[verifier::spinoff_prover]
proof fn lemma_received(chunks: ChunksView, message: Seq<u8>, i: int)
    requires
        message.len() <= MAX_MESSAGE,
        0 <= i < chunk_count(message.len()),
        i > 0 ==> chunks == (ChunksView {
            data: message.take(CHUNK_SIZE * i),
            total: message.len(),
        }),
    ensures
        received_within(chunks, chunk(message, i)) == (if i + 1 < chunk_count(message.len()) {
            (
                ChunksView { data: message.take(CHUNK_SIZE * (i + 1)), total: message.len() },
                None::<Seq<u8>>,
            )
        } else {
            (ChunksView::none(), Some(message))
        }),
{
    lemma_chunk(message, i);
    lemma_chunk_flags(message.len(), i);
    lemma_received_part(
        chunks,
        message,
        CHUNK_SIZE * i,
        chunk_end(message.len(), i),
        i + 1 == chunk_count(message.len()),
    );
}

/// What chunk `i` of a message does.
proof fn lemma_payload(state: DriveView, message: Seq<u8>, i: int)
    requires
        message.len() <= MAX_MESSAGE,
        0 <= i < chunk_count(message.len()),
        i > 0 ==> state.chunks == (ChunksView {
            data: message.take(CHUNK_SIZE * i),
            total: message.len(),
        }),
    ensures
        i + 1 < chunk_count(message.len()) ==> state.payload_outcome(chunk(message, i)) == (
            DriveView {
                chunks: ChunksView {
                    data: message.take(CHUNK_SIZE * (i + 1)),
                    total: message.len(),
                },
                ..state
            },
            StepView::Respond(Seq::empty()),
        ),
        i + 1 == chunk_count(message.len()) ==> state.payload_outcome(chunk(message, i)) == (
        DriveView { chunks: ChunksView::none(), ..state }).message_outcome(message),
{
    lemma_received(state.chunks, message, i);
}

proof fn lemma_after_payloads(state: DriveView, message: Seq<u8>, n: nat)
    requires
        message.len() <= MAX_MESSAGE,
        0 < n < chunk_count(message.len()),
    ensures
        after_payloads(state, message, n) == (DriveView {
            chunks: ChunksView { data: message.take(CHUNK_SIZE * n), total: message.len() },
            ..state
        }),
    decreases n,
{
    if n > 1 {
        lemma_after_payloads(state, message, (n - 1) as nat);
    }
    lemma_payload(after_payloads(state, message, (n - 1) as nat), message, n - 1);
}

/// A message that comes in chunks is obeyed with the last of them, as if it had
/// come whole, and nothing is said before.
pub proof fn chunked_message_is_obeyed(state: DriveView, message: Seq<u8>)
    requires
        0 < message.len() <= MAX_MESSAGE,
    ensures
        forall|i: int|
            0 <= i < chunk_count(message.len()) - 1 ==> (#[trigger] after_payloads(
                state,
                message,
                i as nat,
            ).payload_outcome(chunk(message, i))).1 == StepView::Respond(Seq::empty()),
        ({
            let last = chunk_count(message.len()) - 1;
            after_payloads(state, message, last as nat).payload_outcome(chunk(message, last)) == (
            DriveView { chunks: ChunksView::none(), ..state }).message_outcome(message)
        }),
{
    let count = chunk_count(message.len());
    assert(count > 0);
    assert forall|i: int| 0 <= i < count - 1 implies (#[trigger] after_payloads(
        state,
        message,
        i as nat,
    ).payload_outcome(chunk(message, i))).1 == StepView::Respond(Seq::empty()) by {
        if i > 0 {
            lemma_after_payloads(state, message, i as nat);
        }
        lemma_payload(after_payloads(state, message, i as nat), message, i);
    }
    let last = count - 1;
    if last > 0 {
        lemma_after_payloads(state, message, last as nat);
    }
    lemma_payload(after_payloads(state, message, last as nat), message, last);
}

proof fn lemma_request_chunks(state: DriveView, message: Seq<u8>)
    ensures
        state.request_outcome(message).0.chunks == state.chunks,
{
    let input = message.skip(24);
    let changed = state.set_outcome(le32_at(message, 12), le32_at(message, 8), input).0;
    assert(changed.chunks == state.chunks);
}

proof fn lemma_message_chunks(state: DriveView, message: Seq<u8>)
    ensures
        state.message_outcome(message).0.chunks == state.chunks,
{
    lemma_request_chunks(state, message);
    assert(state.announced_outcome(message).0.chunks == state.chunks);
}

/// Chunks that are kept never exceed the limit, whatever comes.
pub proof fn kept_chunks_are_bounded(state: DriveView, payload: Seq<u8>)
    requires
        state.chunks.data.len() <= MAX_MESSAGE,
    ensures
        state.payload_outcome(payload).0.chunks.data.len() <= MAX_MESSAGE,
{
    let next = DriveView { chunks: ChunksView::none(), ..state };
    assert forall|message: Seq<u8>| (#[trigger] next.message_outcome(message)).0.chunks
        == next.chunks by {
        lemma_message_chunks(next, message);
    }
}

fn quiet_step() -> (step: DriveStep)
    ensures
        step@ == StepView::Respond(Seq::empty()),
{
    let messages: Vec<Vec<u8>> = Vec::new();
    assert(all_bytes(messages@) =~= Seq::<Seq<u8>>::empty());
    DriveStep::Respond(messages)
}

fn one_message(message: Vec<u8>) -> (step: DriveStep)
    ensures
        step@ == StepView::Respond(seq![message@]),
{
    let mut messages: Vec<Vec<u8>> = Vec::new();
    let ghost shown = message@;
    messages.push(message);
    assert(all_bytes(messages@) =~= seq![shown]);
    DriveStep::Respond(messages)
}

fn two_messages(first: Vec<u8>, second: Vec<u8>) -> (step: DriveStep)
    ensures
        step@ == StepView::Respond(seq![first@, second@]),
{
    let mut messages: Vec<Vec<u8>> = Vec::new();
    let ghost shown = seq![first@, second@];
    messages.push(first);
    messages.push(second);
    assert(all_bytes(messages@) =~= shown);
    DriveStep::Respond(messages)
}

impl RdpdrState {
    /// Takes in a request.
    pub fn process_irp(&mut self, message: &[u8]) -> (step: DriveStep)
        ensures
            (final(self)@, step@) == old(self)@.request_outcome(message@),
    {
        let size = message.len();
        if size < 24 {
            return respond(0, STATUS_INVALID_PARAMETER, Vec::new());
        }
        let (device_id, file_id, id, major, minor) = match (
            read_u32(message, 4),
            read_u32(message, 8),
            read_u32(message, 12),
            read_u32(message, 16),
            read_u32(message, 20),
        ) {
            (Some(a), Some(b), Some(c), Some(d), Some(e)) => (a, b, c, d, e),
            _ => return respond(0, STATUS_INVALID_PARAMETER, Vec::new()),
        };
        let input = vstd::slice::slice_subrange(message, 24, size);
        assert(input@ =~= message@.skip(24));
        if device_id != DEVICE_ID {
            return one_message(io_completion(device_id, id, STATUS_NO_SUCH_FILE, &[]));
        }
        match major {
            0 => self.create(id, input),
            2 => self.close(id, file_id),
            3 => self.read(id, file_id, input),
            4 => self.write(id, file_id, input),
            5 => self.query_information(id, file_id, input),
            6 => self.set_information(id, file_id, input),
            0xA => self.query_volume(id, input),
            0xE | 0x11 => respond(id, STATUS_SUCCESS, set_response(0)),
            _ => if major == 0xC && minor == 1 {
                self.query_directory(id, file_id, input)
            } else {
                respond(id, STATUS_NOT_SUPPORTED, Vec::new())
            },
        }
    }

    /// Takes in the server's first message.
    fn server_announce(&mut self, message: &[u8]) -> (step: DriveStep)
        ensures
            (final(self)@, step@) == old(self)@.announced_outcome(message@),
    {
        match read_u16(message, 4) {
            Some(major) => self.version_major = major,
            None => return quiet_step(),
        }
        match read_u16(message, 6) {
            Some(minor) => self.version_minor = if minor < 12 {
                minor
            } else {
                12
            },
            None => return quiet_step(),
        }
        match read_u32(message, 8) {
            Some(id) => self.client_id = id,
            None => return quiet_step(),
        }
        self.have_server_caps = false;
        self.have_client_id = false;
        self.announced = false;
        self.handles.clear();
        assert(handles_view(self.handles@) =~= Map::empty());
        two_messages(self.client_id_confirm(), self.client_name())
    }

    /// Takes in a message.
    pub fn process_message(&mut self, message: &[u8]) -> (step: DriveStep)
        ensures
            (final(self)@, step@) == old(self)@.message_outcome(message@),
    {
        let (mark, kind) = match (read_u16(message, 0), read_u16(message, 2)) {
            (Some(mark), Some(kind)) => (mark, kind),
            _ => return quiet_step(),
        };
        if mark != 0x4472 {
            return quiet_step();
        }
        match kind {
            0x496E => self.server_announce(message),
            0x5350 => {
                self.have_server_caps = true;
                let capabilities = self.client_capabilities();
                if self.have_client_id && !self.announced {
                    let announcement = self.device_announce();
                    self.announced = true;
                    two_messages(capabilities, announcement)
                } else {
                    one_message(capabilities)
                }
            },
            0x4343 => {
                if let Some(major) = read_u16(message, 4) {
                    self.version_major = major;
                }
                if let Some(minor) = read_u16(message, 6) {
                    self.version_minor = minor;
                }
                if let Some(id) = read_u32(message, 8) {
                    self.client_id = id;
                }
                self.have_client_id = true;
                if self.have_server_caps && !self.announced {
                    let announcement = self.device_announce();
                    self.announced = true;
                    one_message(announcement)
                } else {
                    quiet_step()
                }
            },
            0x554C => {
                let announcement = self.device_announce();
                self.announced = true;
                one_message(announcement)
            },
            0x4952 => self.process_irp(message),
            _ => quiet_step(),
        }
    }

    /// Takes in a chunk, and gives the message that is complete with it.
    #[verifier::rlimit(50)]
    fn receive(&mut self, payload: &[u8]) -> (res: Option<Vec<u8>>)
        ensures
            ({
                let (chunks, complete) = received_within(old(self)@.chunks, payload@);
                &&& final(self)@ == (DriveView { chunks, ..old(self)@ })
                &&& match res {
                    Some(message) => complete == Some(message@),
                    None => complete is None,
                }
            }),
    {
        let size = payload.len();
        if size < 8 {
            return None;
        }
        let total = payload[0] as u32 + 0x100 * payload[1] as u32 + 0x1_0000 * payload[2] as u32
            + 0x100_0000 * payload[3] as u32;
        let ghost flags = le32_at(payload@, 4);
        assert(flags % 2 == payload[4] % 2 && flags / 2 % 2 == payload[4] / 2 % 2);
        if payload[4] % 2 == 1 {
            self.fragment_data.clear();
            self.fragment_total_length = if (total as usize) < MAX_MESSAGE {
                total as usize
            } else {
                MAX_MESSAGE
            };
        }
        let held = self.fragment_data.len();
        let part = vstd::slice::slice_subrange(payload, 8, size);
        assert(part@ =~= payload@.skip(8));
        if held > MAX_MESSAGE || size - 8 > MAX_MESSAGE - held {
            self.fragment_data.clear();
            self.fragment_total_length = 0;
            return None;
        }
        put_bytes(&mut self.fragment_data, part);
        if payload[4] / 2 % 2 == 0 {
            return None;
        }
        let mut message: Vec<u8> = Vec::new();
        std::mem::swap(&mut message, &mut self.fragment_data);
        assert(self.fragment_data@ =~= Seq::<u8>::empty());
        let total = self.fragment_total_length;
        self.fragment_total_length = 0;
        if total < message.len() {
            let ghost whole = message@;
            message.truncate(total);
            assert(message@ =~= whole.take(total as int));
        }
        Some(message)
    }

    /// Takes in what came on the channel.
    pub fn process_channel_payload(&mut self, payload: &[u8]) -> (step: DriveStep)
        ensures
            (final(self)@, step@) == old(self)@.payload_outcome(payload@),
    {
        match self.receive(payload) {
            Some(message) => self.process_message(message.as_slice()),
            None => quiet_step(),
        }
    }
}

} // verus!
