//! What is said of files on the channel of mapped folders.

use vstd::prelude::*;

use crate::encoding::{encode_utf16_bytes, utf16_bytes};
use crate::wire::{le16, le32, le64, put_bytes, put_u16, put_u32, put_u64, put_u8, put_zeros, zeros};

verus! {

broadcast use crate::wire::lemma_empty_add;

pub const STATUS_SUCCESS: u32 = 0;

pub const STATUS_NO_MORE_FILES: u32 = 0x8000_0006;

pub const STATUS_UNSUCCESSFUL: u32 = 0xC000_0001;

pub const STATUS_INVALID_PARAMETER: u32 = 0xC000_000D;

pub const STATUS_NO_SUCH_FILE: u32 = 0xC000_000F;

pub const STATUS_ACCESS_DENIED: u32 = 0xC000_0022;

pub const STATUS_OBJECT_NAME_COLLISION: u32 = 0xC000_0035;

pub const STATUS_NOT_SUPPORTED: u32 = 0xC000_00BB;

pub const STATUS_DIRECTORY_NOT_EMPTY: u32 = 0xC000_0101;

pub const STATUS_NOT_A_DIRECTORY: u32 = 0xC000_0103;

pub const FILE_DIRECTORY_INFORMATION: u32 = 1;

pub const FILE_FULL_DIRECTORY_INFORMATION: u32 = 2;

pub const FILE_BOTH_DIRECTORY_INFORMATION: u32 = 3;

pub const FILE_BASIC_INFORMATION: u32 = 4;

pub const FILE_STANDARD_INFORMATION: u32 = 5;

pub const FILE_NAMES_INFORMATION: u32 = 12;

pub const FILE_ATTRIBUTE_TAG_INFORMATION: u32 = 35;

pub const FILE_ATTRIBUTE_DIRECTORY: u32 = 0x10;

pub const FILE_ATTRIBUTE_NORMAL: u32 = 0x80;

/// Seconds from the epoch of Windows to that of Unix.
pub const WINDOWS_EPOCH_OFFSET: u64 = 11_644_473_600;

// ---- Files ------------------------------------------------------------------

/// Why the file system refused something.
#[derive(Clone, Copy, Debug, PartialEq, Eq, Structural)]
pub enum IoFailure {
    NotFound,
    PermissionDenied,
    AlreadyExists,
    DirectoryNotEmpty,
    InvalidInput,
    Other,
}

/// The status that tells of a failure.
pub open spec fn failure_status(failure: IoFailure) -> u32 {
    match failure {
        IoFailure::NotFound => STATUS_NO_SUCH_FILE,
        IoFailure::PermissionDenied => STATUS_ACCESS_DENIED,
        IoFailure::AlreadyExists => STATUS_OBJECT_NAME_COLLISION,
        IoFailure::DirectoryNotEmpty => STATUS_DIRECTORY_NOT_EMPTY,
        IoFailure::InvalidInput => STATUS_INVALID_PARAMETER,
        IoFailure::Other => STATUS_UNSUCCESSFUL,
    }
}

/// The status that tells of a failure.
pub fn map_io_error(failure: IoFailure) -> (status: u32)
    ensures
        status == failure_status(failure),
{
    match failure {
        IoFailure::NotFound => STATUS_NO_SUCH_FILE,
        IoFailure::PermissionDenied => STATUS_ACCESS_DENIED,
        IoFailure::AlreadyExists => STATUS_OBJECT_NAME_COLLISION,
        IoFailure::DirectoryNotEmpty => STATUS_DIRECTORY_NOT_EMPTY,
        IoFailure::InvalidInput => STATUS_INVALID_PARAMETER,
        IoFailure::Other => STATUS_UNSUCCESSFUL,
    }
}

/// A time since the epoch of Unix.
#[derive(Clone, Copy, Debug)]
pub struct FileStamp {
    pub seconds: u64,
    pub nanoseconds: u32,
}

/// What the file system says of a file.
#[derive(Clone, Copy, Debug)]
pub struct FileMetadata {
    pub is_directory: bool,
    pub size: u64,
    pub created: Option<FileStamp>,
    pub accessed: Option<FileStamp>,
    pub modified: Option<FileStamp>,
}

/// A time in steps of 100 nanoseconds since the epoch of Windows, modulo 2^64;
/// zero where it is not known.
pub open spec fn windows_time(stamp: Option<FileStamp>) -> u64 {
    match stamp {
        Some(t) => (((t.seconds + WINDOWS_EPOCH_OFFSET) * 10_000_000 + t.nanoseconds / 100)
            % 0x1_0000_0000_0000_0000) as u64,
        None => 0,
    }
}

/// A time in steps of 100 nanoseconds since the epoch of Windows.
pub fn file_time(stamp: Option<FileStamp>) -> (time: u64)
    ensures
        time == windows_time(stamp),
{
    match stamp {
        Some(t) => {
            let steps: u128 = (t.seconds as u128 + WINDOWS_EPOCH_OFFSET as u128) * 10_000_000 + (
            t.nanoseconds / 100) as u128;
            (steps % 0x1_0000_0000_0000_0000) as u64
        },
        None => 0,
    }
}

/// Attributes of a file.
pub open spec fn attributes(metadata: FileMetadata) -> u32 {
    if metadata.is_directory {
        FILE_ATTRIBUTE_DIRECTORY
    } else {
        FILE_ATTRIBUTE_NORMAL
    }
}

/// Attributes of a file.
pub fn file_attributes(metadata: &FileMetadata) -> (res: u32)
    ensures
        res == attributes(*metadata),
{
    if metadata.is_directory {
        FILE_ATTRIBUTE_DIRECTORY
    } else {
        FILE_ATTRIBUTE_NORMAL
    }
}

// ---- Answers ----------------------------------------------------------------

/// The length of `data`, modulo 2^32.
pub open spec fn length32(data: Seq<u8>) -> Seq<u8> {
    le32((data.len() % 0x1_0000_0000) as u32)
}

/// Appends the length of `data`.
pub fn put_length32(out: &mut Vec<u8>, data: &[u8])
    ensures
        final(out)@ == old(out)@ + length32(data@),
{
    put_u32(out, (data.len() as u64 % 0x1_0000_0000) as u32);
}

/// The header of every message.
pub open spec fn header(packet_id: u16) -> Seq<u8> {
    le16(0x4472) + le16(packet_id)
}

/// The header of every message.
pub fn core_header(packet_id: u16) -> (out: Vec<u8>)
    ensures
        out@ == header(packet_id),
{
    let mut out: Vec<u8> = Vec::new();
    put_u16(&mut out, 0x4472);
    put_u16(&mut out, packet_id);
    out
}

/// The answer to a request.
pub open spec fn completion(
    device_id: u32,
    completion_id: u32,
    status: u32,
    data: Seq<u8>,
) -> Seq<u8> {
    header(0x4943) + le32(device_id) + le32(completion_id) + le32(status) + data
}

/// The answer to a request.
pub fn io_completion(device_id: u32, completion_id: u32, status: u32, data: &[u8]) -> (out: Vec<u8>)
    ensures
        out@ == completion(device_id, completion_id, status, data@),
{
    let mut out = core_header(0x4943);
    put_u32(&mut out, device_id);
    put_u32(&mut out, completion_id);
    put_u32(&mut out, status);
    put_bytes(&mut out, data);
    out
}

/// What is answered to opening.
pub open spec fn create_data(file_id: u32, information: u8) -> Seq<u8> {
    le32(file_id) + seq![information]
}

/// What is answered to opening.
pub fn create_response(file_id: u32, information: u8) -> (data: Vec<u8>)
    ensures
        data@ == create_data(file_id, information),
{
    let mut data: Vec<u8> = Vec::new();
    put_u32(&mut data, file_id);
    put_u8(&mut data, information);
    data
}

/// What is answered to reading and asking.
pub open spec fn length_data(data: Seq<u8>) -> Seq<u8> {
    length32(data) + data
}

/// What is answered to reading and asking.
pub fn length_response(data: &[u8]) -> (out: Vec<u8>)
    ensures
        out@ == length_data(data@),
{
    let mut out: Vec<u8> = Vec::new();
    put_length32(&mut out, data);
    put_bytes(&mut out, data);
    out
}

/// What is answered to writing.
pub open spec fn write_data(length: u32) -> Seq<u8> {
    le32(length) + seq![0u8]
}

/// What is answered to writing.
pub fn write_response(length: u32) -> (out: Vec<u8>)
    ensures
        out@ == write_data(length),
{
    let mut out: Vec<u8> = Vec::new();
    put_u32(&mut out, length);
    put_u8(&mut out, 0);
    out
}

/// What is answered to changing.
pub fn set_response(length: u32) -> (out: Vec<u8>)
    ensures
        out@ == le32(length),
{
    let mut out: Vec<u8> = Vec::new();
    put_u32(&mut out, length);
    out
}

/// What is answered to listing.
pub open spec fn directory_data(data: Seq<u8>) -> Seq<u8> {
    if data.len() == 0 {
        length32(data) + data + seq![0u8]
    } else {
        length32(data) + data
    }
}

/// What is answered to listing.
pub fn directory_response(data: &[u8]) -> (out: Vec<u8>)
    ensures
        out@ == directory_data(data@),
{
    let mut out: Vec<u8> = Vec::new();
    put_length32(&mut out, data);
    put_bytes(&mut out, data);
    if data.len() == 0 {
        put_u8(&mut out, 0);
    }
    out
}

// ---- What is known of a file ------------------------------------------------

pub open spec fn flag_byte(flag: bool) -> u8 {
    if flag {
        1
    } else {
        0
    }
}

/// The four times of a file.
pub open spec fn times(metadata: FileMetadata) -> Seq<u8> {
    le64(windows_time(metadata.created)) + le64(windows_time(metadata.accessed)) + le64(
        windows_time(metadata.modified),
    ) + le64(windows_time(metadata.modified))
}

fn put_times(out: &mut Vec<u8>, metadata: &FileMetadata)
    ensures
        final(out)@ == old(out)@ + times(*metadata),
{
    let mut data: Vec<u8> = Vec::new();
    put_u64(&mut data, file_time(metadata.created));
    put_u64(&mut data, file_time(metadata.accessed));
    put_u64(&mut data, file_time(metadata.modified));
    put_u64(&mut data, file_time(metadata.modified));
    put_bytes(out, data.as_slice());
}

/// What is told of a file that is open; none of a class that is not known.
pub open spec fn information(
    class: u32,
    metadata: FileMetadata,
    delete_on_close: bool,
) -> Option<Seq<u8>> {
    if class == FILE_BASIC_INFORMATION {
        Some(times(metadata) + le32(attributes(metadata)))
    } else if class == FILE_STANDARD_INFORMATION {
        Some(
            le64(metadata.size) + le64(metadata.size) + le32(1) + seq![
                flag_byte(delete_on_close),
                flag_byte(metadata.is_directory),
            ],
        )
    } else if class == FILE_ATTRIBUTE_TAG_INFORMATION {
        Some(le32(attributes(metadata)) + le32(0))
    } else {
        None
    }
}

/// What is told of a file that is open.
pub fn file_information(class: u32, metadata: &FileMetadata, delete_on_close: bool) -> (res: Option<
    Vec<u8>,
>)
    ensures
        match res {
            Some(data) => information(class, *metadata, delete_on_close) == Some(data@),
            None => information(class, *metadata, delete_on_close) is None,
        },
{
    let mut data: Vec<u8> = Vec::new();
    if class == FILE_BASIC_INFORMATION {
        put_times(&mut data, metadata);
        put_u32(&mut data, file_attributes(metadata));
    } else if class == FILE_STANDARD_INFORMATION {
        put_u64(&mut data, metadata.size);
        put_u64(&mut data, metadata.size);
        put_u32(&mut data, 1);
        put_bytes(
            &mut data,
            &[
                if delete_on_close {
                    1
                } else {
                    0
                },
                if metadata.is_directory {
                    1
                } else {
                    0
                },
            ],
        );
    } else if class == FILE_ATTRIBUTE_TAG_INFORMATION {
        put_u32(&mut data, file_attributes(metadata));
        put_u32(&mut data, 0);
    } else {
        return None;
    }
    Some(data)
}

/// What is told of a file in a listing; none of a class that is not known.
pub open spec fn entry_data(class: u32, name: Seq<char>, metadata: FileMetadata) -> Option<
    Seq<u8>,
> {
    let encoded = utf16_bytes(name);
    let common = le32(0) + le32(0) + times(metadata) + le64(metadata.size) + le64(metadata.size)
        + le32(attributes(metadata)) + length32(encoded);
    if class == FILE_DIRECTORY_INFORMATION {
        Some(common + encoded)
    } else if class == FILE_FULL_DIRECTORY_INFORMATION {
        Some(common + le32(0) + encoded)
    } else if class == FILE_BOTH_DIRECTORY_INFORMATION {
        Some(common + le32(0) + seq![0u8] + zeros(24) + encoded)
    } else if class == FILE_NAMES_INFORMATION {
        Some(le32(0) + le32(0) + length32(encoded) + encoded)
    } else {
        None
    }
}

/// What is told of a file in a listing.
pub fn listing_entry(class: u32, name: &str, metadata: &FileMetadata) -> (res: Option<Vec<u8>>)
    ensures
        match res {
            Some(data) => entry_data(class, name@, *metadata) == Some(data@),
            None => entry_data(class, name@, *metadata) is None,
        },
{
    let encoded = encode_utf16_bytes(name);
    let mut data: Vec<u8> = Vec::new();
    put_u32(&mut data, 0);
    put_u32(&mut data, 0);
    if class == FILE_NAMES_INFORMATION {
        put_length32(&mut data, encoded.as_slice());
    } else {
        put_times(&mut data, metadata);
        put_u64(&mut data, metadata.size);
        put_u64(&mut data, metadata.size);
        put_u32(&mut data, file_attributes(metadata));
        put_length32(&mut data, encoded.as_slice());
        if class == FILE_FULL_DIRECTORY_INFORMATION {
            put_u32(&mut data, 0);
        } else if class == FILE_BOTH_DIRECTORY_INFORMATION {
            put_u32(&mut data, 0);
            put_u8(&mut data, 0);
            put_zeros(&mut data, 24);
        } else if class != FILE_DIRECTORY_INFORMATION {
            return None;
        }
    }
    put_bytes(&mut data, encoded.as_slice());
    Some(data)
}

/// What is told of the mapped folder as a volume; none of a class that is not
/// known.
pub open spec fn volume_data(class: u32, name: Seq<char>) -> Option<Seq<u8>> {
    if class == 1 {
        let label = utf16_bytes(name) + le16(0);
        Some(le64(0) + le32(0x5054_5852) + length32(label) + seq![0u8] + label)
    } else if class == 3 {
        Some(le64(262_144) + le64(131_072) + le32(8) + le32(512))
    } else if class == 4 {
        Some(le32(7) + le32(0x20))
    } else if class == 5 {
        let label = utf16_bytes("PORTIXFS"@) + le16(0);
        Some(le32(7) + le32(255) + length32(label) + label)
    } else if class == 7 {
        Some(le64(262_144) + le64(131_072) + le64(131_072) + le32(8) + le32(512))
    } else {
        None
    }
}

/// What is told of the mapped folder as a volume.
pub fn volume_information(class: u32, name: &str) -> (res: Option<Vec<u8>>)
    ensures
        match res {
            Some(data) => volume_data(class, name@) == Some(data@),
            None => volume_data(class, name@) is None,
        },
{
    let mut data: Vec<u8> = Vec::new();
    if class == 1 {
        let mut label = encode_utf16_bytes(name);
        put_u16(&mut label, 0);
        put_u64(&mut data, 0);
        put_u32(&mut data, 0x5054_5852);
        put_length32(&mut data, label.as_slice());
        put_u8(&mut data, 0);
        put_bytes(&mut data, label.as_slice());
    } else if class == 3 {
        put_u64(&mut data, 262_144);
        put_u64(&mut data, 131_072);
        put_u32(&mut data, 8);
        put_u32(&mut data, 512);
    } else if class == 4 {
        put_u32(&mut data, 7);
        put_u32(&mut data, 0x20);
    } else if class == 5 {
        let mut label = encode_utf16_bytes("PORTIXFS");
        put_u16(&mut label, 0);
        put_u32(&mut data, 7);
        put_u32(&mut data, 255);
        put_length32(&mut data, label.as_slice());
        put_bytes(&mut data, label.as_slice());
    } else if class == 7 {
        put_u64(&mut data, 262_144);
        put_u64(&mut data, 131_072);
        put_u64(&mut data, 131_072);
        put_u32(&mut data, 8);
        put_u32(&mut data, 512);
    } else {
        return None;
    }
    Some(data)
}

} // verus!
