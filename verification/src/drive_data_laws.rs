//! What is told of files, field by field.

use vstd::prelude::*;

use crate::drive_data::{
    attributes, entry_data, information, times, volume_data, windows_time, FileMetadata, FileStamp,
};
use crate::encoding::utf16_bytes;
use crate::fields::{
    eight_bytes, four_bytes, lemma_eight_at, lemma_four_at, lemma_written, u32_at, u64_at,
};
use crate::wire::{le16, le32, le64, zeros};

verus! {

/// A time counts steps of 100 nanoseconds from the first day of 1601, which is
/// 134774 days before the epoch that the file system counts from; an unknown time
/// is zero.
pub proof fn times_count_from_1601(t: FileStamp)
    requires
        (t.seconds + 134774 * 86400) * 10_000_000 + t.nanoseconds / 100 < 0x1_0000_0000_0000_0000,
    ensures
        windows_time(Some(t)) * 100 + t.nanoseconds % 100 == (t.seconds + 134774 * 86400)
            * 1_000_000_000 + t.nanoseconds,
        windows_time(None) == 0,
{
    let steps = (t.seconds + 134774 * 86400) * 10_000_000 + t.nanoseconds / 100;
    assert(windows_time(Some(t)) == steps);
}

/// A folder is told from a file by its attributes.
pub proof fn attributes_tell_folders(metadata: FileMetadata)
    ensures
        metadata.is_directory ==> attributes(metadata) == 0x10,
        !metadata.is_directory ==> attributes(metadata) == 0x80,
{
}

/// Whether the times of a file stand at `i`: when it was made, read, and twice
/// when it was changed.
pub open spec fn times_at(s: Seq<u8>, i: int, metadata: FileMetadata) -> bool {
    &&& u64_at(s, i) == windows_time(metadata.created)
    &&& u64_at(s, i + 8) == windows_time(metadata.accessed)
    &&& u64_at(s, i + 16) == windows_time(metadata.modified)
    &&& u64_at(s, i + 24) == windows_time(metadata.modified)
}

proof fn lemma_times(s: Seq<u8>, i: int, metadata: FileMetadata)
    requires
        0 <= i,
        i + 32 <= s.len(),
        s.subrange(i, i + 32) == times(metadata),
    ensures
        times_at(s, i, metadata),
{
    let a = windows_time(metadata.created);
    let b = windows_time(metadata.accessed);
    let c = windows_time(metadata.modified);
    lemma_written(0, 0, a);
    lemma_written(0, 0, b);
    lemma_written(0, 0, c);
    let part = s.subrange(i, i + 32);
    assert(s.subrange(i, i + 8) =~= part.subrange(0, 8));
    assert(part.subrange(0, 8) =~= eight_bytes(a));
    lemma_eight_at(s, i, a);
    assert(s.subrange(i + 8, i + 16) =~= part.subrange(8, 16));
    assert(part.subrange(8, 16) =~= eight_bytes(b));
    lemma_eight_at(s, i + 8, b);
    assert(s.subrange(i + 16, i + 24) =~= part.subrange(16, 24));
    assert(part.subrange(16, 24) =~= eight_bytes(c));
    lemma_eight_at(s, i + 16, c);
    assert(s.subrange(i + 24, i + 32) =~= part.subrange(24, 32));
    assert(part.subrange(24, 32) =~= eight_bytes(c));
    lemma_eight_at(s, i + 24, c);
}

/// Of an open file, three classes are told: its times and attributes; its size,
/// whether it will be deleted and whether it is a folder; its attributes alone.
pub proof fn open_files_are_described(class: u32, metadata: FileMetadata, delete_on_close: bool)
    ensures
        match information(class, metadata, delete_on_close) {
            Some(data) => if class == 4 {
                &&& data.len() == 36
                &&& times_at(data, 0, metadata)
                &&& u32_at(data, 32) == attributes(metadata)
            } else if class == 5 {
                &&& data.len() == 22
                &&& u64_at(data, 0) == metadata.size
                &&& u64_at(data, 8) == metadata.size
                &&& u32_at(data, 16) == 1
                &&& data[20] == (if delete_on_close { 1int } else { 0 })
                &&& data[21] == (if metadata.is_directory { 1int } else { 0 })
            } else {
                &&& class == 35
                &&& data.len() == 8
                &&& u32_at(data, 0) == attributes(metadata)
                &&& u32_at(data, 4) == 0
            },
            None => class != 4 && class != 5 && class != 35,
        },
{
    let kind = attributes(metadata);
    lemma_written(0, kind, metadata.size);
    lemma_written(0, 1, 0);
    lemma_written(0, 0, 0);
    if class == 4 {
        let data = information(class, metadata, delete_on_close)->0;
        assert(data.len() == 36);
        assert(data.subrange(0, 32) =~= times(metadata));
        lemma_times(data, 0, metadata);
        assert(data.subrange(32, 36) =~= four_bytes(kind));
        lemma_four_at(data, 32, kind);
    } else if class == 5 {
        let data = information(class, metadata, delete_on_close)->0;
        assert(data.subrange(0, 8) =~= eight_bytes(metadata.size));
        lemma_eight_at(data, 0, metadata.size);
        assert(data.subrange(8, 16) =~= eight_bytes(metadata.size));
        lemma_eight_at(data, 8, metadata.size);
        assert(data.subrange(16, 20) =~= four_bytes(1));
        lemma_four_at(data, 16, 1);
    } else if class == 35 {
        let data = information(class, metadata, delete_on_close)->0;
        assert(data.subrange(0, 4) =~= four_bytes(kind));
        lemma_four_at(data, 0, kind);
        assert(data.subrange(4, 8) =~= four_bytes(0));
        lemma_four_at(data, 4, 0);
    }
}

/// Whether the fields that most listings begin with stand in `data`: nothing of
/// a next entry, the times, twice the size, the attributes, and the length of the
/// name.
pub open spec fn listed_fields(data: Seq<u8>, metadata: FileMetadata, name: Seq<u8>) -> bool {
    &&& u32_at(data, 0) == 0
    &&& u32_at(data, 4) == 0
    &&& times_at(data, 8, metadata)
    &&& u64_at(data, 40) == metadata.size
    &&& u64_at(data, 48) == metadata.size
    &&& u32_at(data, 56) == attributes(metadata)
    &&& u32_at(data, 60) == name.len()
}

proof fn lemma_listed_fields(metadata: FileMetadata, encoded: Seq<u8>, data: Seq<u8>, rest: Seq<u8>)
    requires
        encoded.len() <= 0xFFFF_FFFF,
        data == le32(0) + le32(0) + times(metadata) + le64(metadata.size) + le64(metadata.size)
            + le32(attributes(metadata)) + crate::drive_data::length32(encoded) + rest,
    ensures
        listed_fields(data, metadata, encoded),
        data.len() == 64 + rest.len(),
        data.skip(64) == rest,
{
    let kind = attributes(metadata);
    let n = encoded.len() as u32;
    lemma_written(0, kind, metadata.size);
    lemma_written(0, n, 0);
    lemma_written(0, 0, 0);
    assert(times(metadata).len() == 32);
    assert(data.subrange(8, 40) =~= times(metadata));
    lemma_times(data, 8, metadata);
    assert(data.subrange(0, 4) =~= four_bytes(0));
    lemma_four_at(data, 0, 0);
    assert(data.subrange(4, 8) =~= four_bytes(0));
    lemma_four_at(data, 4, 0);
    assert(data.subrange(40, 48) =~= eight_bytes(metadata.size));
    lemma_eight_at(data, 40, metadata.size);
    assert(data.subrange(48, 56) =~= eight_bytes(metadata.size));
    lemma_eight_at(data, 48, metadata.size);
    assert(data.subrange(56, 60) =~= four_bytes(kind));
    lemma_four_at(data, 56, kind);
    assert(data.subrange(60, 64) =~= four_bytes(n));
    lemma_four_at(data, 60, n);
    assert(data.skip(64) =~= rest);
}

proof fn lemma_entry_1(name: Seq<char>, metadata: FileMetadata)
    requires
        utf16_bytes(name).len() <= 0xFFFF_FFFF,
    ensures
        ({
            let encoded = utf16_bytes(name);
            let data = entry_data(1, name, metadata)->0;
            listed_fields(data, metadata, encoded) && data.skip(64) == encoded
        }),
{
    let encoded = utf16_bytes(name);
    let n = encoded.len() as u32;
    lemma_written(0, n, 0);
    lemma_written(0, 0, 0);
    let data = entry_data(1, name, metadata)->0;
    lemma_listed_fields(metadata, encoded, data, encoded);
}

#[verifier::rlimit(40)]
proof fn lemma_entry_2(name: Seq<char>, metadata: FileMetadata)
    requires
        utf16_bytes(name).len() <= 0xFFFF_FFFF,
    ensures
        ({
            let encoded = utf16_bytes(name);
            let data = entry_data(2, name, metadata)->0;
            listed_fields(data, metadata, encoded) && data.skip(68) == encoded
                && data.subrange(64, 68) == zeros(4)
        }),
{
    let encoded = utf16_bytes(name);
    let n = encoded.len() as u32;
    lemma_written(0, n, 0);
    lemma_written(0, 0, 0);
    let data = entry_data(2, name, metadata)->0;
    let rest = le32(0) + encoded;
    assert(data =~= le32(0) + le32(0) + times(metadata) + le64(metadata.size) + le64(
        metadata.size,
    ) + le32(attributes(metadata)) + crate::drive_data::length32(encoded) + rest);
    lemma_listed_fields(metadata, encoded, data, rest);
    assert(data.skip(68) =~= rest.skip(4));
    assert(rest.skip(4) =~= encoded);
    assert(data.subrange(64, 68) =~= data.skip(64).subrange(0, 4));
    assert(rest.subrange(0, 4) =~= zeros(4));
}

proof fn lemma_joined(common: Seq<u8>, a: Seq<u8>, b: Seq<u8>, c: Seq<u8>, d: Seq<u8>)
    ensures
        common + a + b + c + d == common + (a + b + c + d),
{
    assert(common + a + b + c + d =~= common + (a + b + c + d));
}

proof fn lemma_padding(data: Seq<u8>, encoded: Seq<u8>)
    requires
        data.len() >= 64,
        data.skip(64) == le32(0) + seq![0u8] + zeros(24) + encoded,
    ensures
        data.skip(93) == encoded,
        data.subrange(64, 93) == zeros(29),
{
    let rest = le32(0) + seq![0u8] + zeros(24) + encoded;
    assert(data.skip(93) =~= rest.skip(29));
    assert(rest.skip(29) =~= encoded);
    assert(data.subrange(64, 93) =~= rest.subrange(0, 29));
    assert(rest.subrange(0, 29) =~= zeros(29));
}

proof fn lemma_entry_3(name: Seq<char>, metadata: FileMetadata)
    requires
        utf16_bytes(name).len() <= 0xFFFF_FFFF,
    ensures
        ({
            let encoded = utf16_bytes(name);
            let data = entry_data(3, name, metadata)->0;
            listed_fields(data, metadata, encoded) && data.skip(93) == encoded
                && data.subrange(64, 93) == zeros(29)
        }),
{
    let encoded = utf16_bytes(name);
    let n = encoded.len() as u32;
    lemma_written(0, n, 0);
    lemma_written(0, 0, 0);
    let data = entry_data(3, name, metadata)->0;
    let rest = le32(0) + seq![0u8] + zeros(24) + encoded;
    let common = le32(0) + le32(0) + times(metadata) + le64(metadata.size) + le64(metadata.size)
        + le32(attributes(metadata)) + crate::drive_data::length32(encoded);
    lemma_joined(common, le32(0), seq![0u8], zeros(24), encoded);
    lemma_listed_fields(metadata, encoded, data, rest);
    lemma_padding(data, encoded);
}

proof fn lemma_entry_12(name: Seq<char>, metadata: FileMetadata)
    requires
        utf16_bytes(name).len() <= 0xFFFF_FFFF,
    ensures
        ({
            let encoded = utf16_bytes(name);
            let data = entry_data(12, name, metadata)->0;
            u32_at(data, 0) == 0 && u32_at(data, 4) == 0 && u32_at(data, 8) == encoded.len()
                && data.skip(12) == encoded
        }),
{
    let encoded = utf16_bytes(name);
    let n = encoded.len() as u32;
    lemma_written(0, n, 0);
    lemma_written(0, 0, 0);
    let data = entry_data(12, name, metadata)->0;
    assert(data.subrange(0, 4) =~= four_bytes(0));
    lemma_four_at(data, 0, 0);
    assert(data.subrange(4, 8) =~= four_bytes(0));
    lemma_four_at(data, 4, 0);
    assert(data.subrange(8, 12) =~= four_bytes(n));
    lemma_four_at(data, 8, n);
    assert(data.skip(12) =~= encoded);
}

/// In a listing, a file is told with its times, size and attributes, and last its
/// name; the fields between differ with the class. One class tells the name alone.
pub proof fn entries_are_described(class: u32, name: Seq<char>, metadata: FileMetadata)
    requires
        utf16_bytes(name).len() <= 0xFFFF_FFFF,
    ensures
        ({
            let encoded = utf16_bytes(name);
            match entry_data(class, name, metadata) {
                Some(data) => if class == 1 {
                    listed_fields(data, metadata, encoded) && data.skip(64) == encoded
                } else if class == 2 {
                    listed_fields(data, metadata, encoded) && data.skip(68) == encoded
                        && data.subrange(64, 68) == zeros(4)
                } else if class == 3 {
                    listed_fields(data, metadata, encoded) && data.skip(93) == encoded
                        && data.subrange(64, 93) == zeros(29)
                } else {
                    &&& class == 12
                    &&& u32_at(data, 0) == 0
                    &&& u32_at(data, 4) == 0
                    &&& u32_at(data, 8) == encoded.len()
                    &&& data.skip(12) == encoded
                },
                None => class != 1 && class != 2 && class != 3 && class != 12,
            }
        }),
{
    if class == 1 {
        lemma_entry_1(name, metadata);
    } else if class == 2 {
        lemma_entry_2(name, metadata);
    } else if class == 3 {
        lemma_entry_3(name, metadata);
    } else if class == 12 {
        lemma_entry_12(name, metadata);
    }
}

/// Of the mapped folder as a volume, five classes are told: its name, its room in
/// units of eight sectors of 512 bytes, what kind of device it is, how its names
/// are, and its room again with what the caller may use.
pub proof fn volumes_are_described(class: u32, name: Seq<char>)
    requires
        utf16_bytes(name).len() + 2 <= 0xFFFF_FFFF,
    ensures
        match volume_data(class, name) {
            Some(data) => if class == 1 {
                &&& data.len() == 17 + utf16_bytes(name).len() + 2
                &&& u64_at(data, 0) == 0
                &&& u32_at(data, 12) == utf16_bytes(name).len() + 2
                &&& data[16] == 0
                &&& data.skip(17) == utf16_bytes(name) + seq![0u8, 0]
            } else if class == 3 {
                &&& data.len() == 24
                &&& u64_at(data, 0) == 262_144
                &&& u64_at(data, 8) == 131_072
                &&& u32_at(data, 16) == 8
                &&& u32_at(data, 20) == 512
            } else if class == 4 {
                &&& data.len() == 8
                &&& u32_at(data, 0) == 7
                &&& u32_at(data, 4) == 0x20
            } else if class == 5 {
                &&& u32_at(data, 0) == 7
                &&& u32_at(data, 4) == 255
                &&& data.len() == 12 + u32_at(data, 8)
                &&& data.skip(12) == utf16_bytes("PORTIXFS"@) + seq![0u8, 0]
            } else {
                &&& class == 7
                &&& data.len() == 32
                &&& u64_at(data, 0) == 262_144
                &&& u64_at(data, 8) == 131_072
                &&& u64_at(data, 16) == 131_072
                &&& u32_at(data, 24) == 8
                &&& u32_at(data, 28) == 512
            },
            None => class != 1 && class != 3 && class != 4 && class != 5 && class != 7,
        },
{
    lemma_written(0, 8, 262_144);
    lemma_written(0, 512, 131_072);
    lemma_written(0, 7, 0);
    lemma_written(0, 0x20, 0);
    lemma_written(0, 255, 0);
    if class == 1 {
        let data = volume_data(class, name)->0;
        let label = utf16_bytes(name) + le16(0);
        let n = label.len() as u32;
        lemma_written(0, n, 0);
        assert(data.subrange(0, 8) =~= eight_bytes(0));
        lemma_eight_at(data, 0, 0);
        assert(data.subrange(12, 16) =~= four_bytes(n));
        lemma_four_at(data, 12, n);
        assert(le16(0) =~= seq![0u8, 0]);
        assert(data.skip(17) =~= label);
    } else if class == 3 {
        let data = volume_data(class, name)->0;
        assert(data.subrange(0, 8) =~= eight_bytes(262_144));
        lemma_eight_at(data, 0, 262_144);
        assert(data.subrange(8, 16) =~= eight_bytes(131_072));
        lemma_eight_at(data, 8, 131_072);
        assert(data.subrange(16, 20) =~= four_bytes(8));
        lemma_four_at(data, 16, 8);
        assert(data.subrange(20, 24) =~= four_bytes(512));
        lemma_four_at(data, 20, 512);
    } else if class == 4 {
        let data = volume_data(class, name)->0;
        assert(data.subrange(0, 4) =~= four_bytes(7));
        lemma_four_at(data, 0, 7);
        assert(data.subrange(4, 8) =~= four_bytes(0x20));
        lemma_four_at(data, 4, 0x20);
    } else if class == 5 {
        let data = volume_data(class, name)->0;
        lemma_file_system_name();
        let label = utf16_bytes("PORTIXFS"@) + le16(0);
        let n = label.len() as u32;
        lemma_written(0, n, 0);
        assert(data.subrange(0, 4) =~= four_bytes(7));
        lemma_four_at(data, 0, 7);
        assert(data.subrange(4, 8) =~= four_bytes(255));
        lemma_four_at(data, 4, 255);
        assert(data.subrange(8, 12) =~= four_bytes(n));
        lemma_four_at(data, 8, n);
        assert(le16(0) =~= seq![0u8, 0]);
        assert(data.skip(12) =~= label);
    } else if class == 7 {
        let data = volume_data(class, name)->0;
        assert(data.subrange(0, 8) =~= eight_bytes(262_144));
        lemma_eight_at(data, 0, 262_144);
        assert(data.subrange(8, 16) =~= eight_bytes(131_072));
        lemma_eight_at(data, 8, 131_072);
        assert(data.subrange(16, 24) =~= eight_bytes(131_072));
        lemma_eight_at(data, 16, 131_072);
        assert(data.subrange(24, 28) =~= four_bytes(8));
        lemma_four_at(data, 24, 8);
        assert(data.subrange(28, 32) =~= four_bytes(512));
        lemma_four_at(data, 28, 512);
    }
}

proof fn lemma_file_system_name()
    ensures
        utf16_bytes("PORTIXFS"@).len() == 16,
{
    reveal_strlit("PORTIXFS");
    crate::connect::lemma_ascii_units("PORTIXFS"@);
    crate::encoding::unit_bytes_round_trip(crate::encoding::utf16("PORTIXFS"@));
}

} // verus!
