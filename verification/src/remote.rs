//! What the shell of a remote host answers.

use vstd::prelude::*;
use vstd::utf8::encode_utf8;

use crate::base64_text::{
    base64, base64_alphabet, base64_char, base64_injective, decode_base64,
};
use crate::encoding::{decode_utf8_lossy, utf8_round_trip, utf8_text};
use crate::ordering::{arranged, place_of};
use crate::paths::{strip_end, stripped_end};
use crate::text::{
    begins_with, chars_of, extend, find, find_from, find_last, lemma_find_first,
    lemma_trimmed_fixed, lines, lower, lowered, next_line, parse_signed, parse_unsigned, parsed,
    parsed_signed, part, rfind, same_text, split_n, split_up_to, starts_with, text_of, texts, trim,
    trimmed,
};

verus! {

// ---- The host ---------------------------------------------------------------

/// What is known of a host.
#[derive(Clone, Debug)]
pub struct RemoteSystemSnapshot {
    pub os: String,
    pub hostname: String,
    pub uptime: String,
    pub memory: String,
    pub disk: String,
    pub memory_used_bytes: u64,
    pub memory_free_bytes: u64,
    pub memory_total_bytes: u64,
    pub disk_used_bytes: u64,
    pub disk_free_bytes: u64,
    pub disk_total_bytes: u64,
}

/// What follows `key` in the first line that begins with it, without white
/// space around it; nothing where no line does.
pub open spec fn line_value(lines: Seq<Seq<char>>, key: Seq<char>) -> Seq<char>
    decreases lines.len(),
{
    if lines.len() == 0 {
        Seq::empty()
    } else if begins_with(lines[0], key) {
        trimmed(lines[0].skip(key.len() as int))
    } else {
        line_value(lines.skip(1), key)
    }
}

/// The value of `key` in the output.
pub open spec fn output_value(output: Seq<char>, key: Seq<char>) -> Seq<char> {
    line_value(lines(output), key)
}

/// The number that is the value of `key`; zero where it is none.
pub open spec fn output_number(output: Seq<char>, key: Seq<char>) -> u64 {
    match parsed(output_value(output, key), u64::MAX as nat) {
        Some(n) => n as u64,
        None => 0,
    }
}

/// The value of `key` in the output.
fn value_of(output: &Vec<char>, key: &str) -> (value: String)
    ensures
        value@ == output_value(output@, key@),
{
    let wanted = chars_of(key);
    let mut rest = output.as_slice();
    while rest.len() > 0
        invariant
            wanted@ == key@,
            line_value(lines(output@), key@) == line_value(lines(rest@), key@),
        decreases rest@.len(),
    {
        let (line, next) = next_line(rest);
        let ghost all = lines(rest@);
        assert(all[0] == line@);
        assert(all.skip(1) =~= lines(rest@.skip(next as int)));
        if starts_with(line, wanted.as_slice()) {
            let value = part(line, wanted.len(), line.len());
            assert(value@ =~= line@.skip(key@.len() as int));
            return text_of(trim(value));
        }
        let ghost before = rest@;
        rest = part(rest, next, rest.len());
        assert(rest@ =~= before.skip(next as int));
    }
    let value = String::new();
    assert(value@ =~= Seq::<char>::empty());
    value
}

/// The number that is the value of `key`.
fn number_of(output: &Vec<char>, key: &str) -> (n: u64)
    ensures
        n == output_number(output@, key@),
{
    let value = value_of(output, key);
    let chars = chars_of(value.as_str());
    match parse_unsigned(chars.as_slice(), u64::MAX) {
        Some(n) => n,
        None => 0,
    }
}

/// What the output tells of the host.
pub fn parse_remote_system_snapshot(output: &str) -> (snapshot: RemoteSystemSnapshot)
    ensures
        snapshot.os@ == output_value(output@, "OS="@),
        snapshot.hostname@ == output_value(output@, "HOST="@),
        snapshot.uptime@ == output_value(output@, "UPTIME="@),
        snapshot.memory@ == output_value(output@, "MEM="@),
        snapshot.disk@ == output_value(output@, "DISK="@),
        snapshot.memory_used_bytes == output_number(output@, "MEM_USED_BYTES="@),
        snapshot.memory_free_bytes == output_number(output@, "MEM_FREE_BYTES="@),
        snapshot.memory_total_bytes == output_number(output@, "MEM_TOTAL_BYTES="@),
        snapshot.disk_used_bytes == output_number(output@, "DISK_USED_BYTES="@),
        snapshot.disk_free_bytes == output_number(output@, "DISK_FREE_BYTES="@),
        snapshot.disk_total_bytes == output_number(output@, "DISK_TOTAL_BYTES="@),
{
    let chars = chars_of(output);
    RemoteSystemSnapshot {
        os: value_of(&chars, "OS="),
        hostname: value_of(&chars, "HOST="),
        uptime: value_of(&chars, "UPTIME="),
        memory: value_of(&chars, "MEM="),
        disk: value_of(&chars, "DISK="),
        memory_used_bytes: number_of(&chars, "MEM_USED_BYTES="),
        memory_free_bytes: number_of(&chars, "MEM_FREE_BYTES="),
        memory_total_bytes: number_of(&chars, "MEM_TOTAL_BYTES="),
        disk_used_bytes: number_of(&chars, "DISK_USED_BYTES="),
        disk_free_bytes: number_of(&chars, "DISK_FREE_BYTES="),
        disk_total_bytes: number_of(&chars, "DISK_TOTAL_BYTES="),
    }
}

// ---- Directories ------------------------------------------------------------

/// An entry of a remote directory.
#[derive(Clone, Debug)]
pub struct RemoteFileEntry {
    pub name: String,
    pub path: String,
    pub is_directory: bool,
    pub size_bytes: u64,
    pub modified_unix_seconds: i64,
}

/// What a [`RemoteFileEntry`] says.
#[verifier::ext_equal]
pub struct FileEntryView {
    pub name: Seq<char>,
    pub path: Seq<char>,
    pub is_directory: bool,
    pub size_bytes: u64,
    pub modified_unix_seconds: i64,
}

impl View for RemoteFileEntry {
    type V = FileEntryView;

    open spec fn view(&self) -> FileEntryView {
        FileEntryView {
            name: self.name@,
            path: self.path@,
            is_directory: self.is_directory,
            size_bytes: self.size_bytes,
            modified_unix_seconds: self.modified_unix_seconds,
        }
    }
}

/// What the entries of a directory say.
pub open spec fn listing_view(entries: Seq<RemoteFileEntry>) -> Seq<FileEntryView> {
    entries.map_values(|e: RemoteFileEntry| e@)
}

/// `s` up to its first full stop.
pub open spec fn whole_part(s: Seq<char>) -> Seq<char> {
    match find_from(s, '.', 0) {
        Some(i) => s.take(i),
        None => s,
    }
}

/// The entry that a line tells of: kind, size, time, name and path, with a tab
/// between each two; none where one is missing. Numbers that are none count as
/// zero.
pub open spec fn line_entry(line: Seq<char>) -> Option<FileEntryView> {
    let parts = split_up_to(line, '\t', 5);
    if parts.len() < 5 {
        None
    } else {
        Some(
            FileEntryView {
                name: parts[3],
                path: parts[4],
                is_directory: parts[0] == "d"@ || parts[0] == "dir"@,
                size_bytes: match parsed(parts[1], u64::MAX as nat) {
                    Some(n) => n as u64,
                    None => 0,
                },
                modified_unix_seconds: match parsed_signed(whole_part(parts[2])) {
                    Some(n) => n as i64,
                    None => 0,
                },
            },
        )
    }
}

/// The entries that lines tell of.
pub open spec fn lines_entries(lines: Seq<Seq<char>>) -> Seq<FileEntryView>
    decreases lines.len(),
{
    if lines.len() == 0 {
        Seq::empty()
    } else {
        match line_entry(lines.last()) {
            Some(entry) => lines_entries(lines.drop_last()).push(entry),
            None => lines_entries(lines.drop_last()),
        }
    }
}

/// What entries are ordered by: directories before files, and then by name in
/// lower case.
pub open spec fn entry_key(entry: FileEntryView) -> Seq<char> {
    seq![
        if entry.is_directory {
            '0'
        } else {
            '1'
        },
    ] + lowered(entry.name)
}

/// The keys of entries.
pub open spec fn listing_keys(entries: Seq<FileEntryView>) -> Seq<Seq<char>> {
    entries.map_values(|e: FileEntryView| entry_key(e))
}

/// The entries of a directory, in order.
pub open spec fn directory_listing(output: Seq<char>) -> Seq<FileEntryView> {
    let found = lines_entries(lines(output));
    arranged(listing_keys(found), found).1
}

/// In a listing no directory comes behind a file.
pub proof fn directories_come_first(output: Seq<char>)
    ensures
        forall|i: int, j: int|
            0 <= i < j < directory_listing(output).len() && (#[trigger] directory_listing(
                output,
            )[j]).is_directory ==> (#[trigger] directory_listing(output)[i]).is_directory,
{
    let found = lines_entries(lines(output));
    let keys = listing_keys(found);
    crate::ordering::arranged_in_order(keys, found);
    let (sorted, listing) = arranged(keys, found);
    assert forall|i: int, j: int|
        0 <= i < j < listing.len() && (#[trigger] listing[j]).is_directory implies (
    #[trigger] listing[i]).is_directory by {
        assert(crate::ordering::precedes(sorted[i], sorted[j]));
        let a = choose|k: int|
            0 <= k < keys.len() && keys[k] == sorted[i] && found[k] == listing[i];
        let b = choose|k: int|
            0 <= k < keys.len() && keys[k] == sorted[j] && found[k] == listing[j];
        assert(sorted[i] == entry_key(listing[i]) && sorted[j] == entry_key(listing[j]));
    }
}

/// In a listing the names of directories, and those of files, are in order.
pub proof fn names_are_in_order(output: Seq<char>)
    ensures
        forall|i: int, j: int|
            0 <= i < j < directory_listing(output).len() && (#[trigger] directory_listing(
                output,
            )[i]).is_directory == (#[trigger] directory_listing(output)[j]).is_directory
                ==> crate::ordering::precedes(
                lowered(directory_listing(output)[i].name),
                lowered(directory_listing(output)[j].name),
            ),
{
    let found = lines_entries(lines(output));
    let keys = listing_keys(found);
    crate::ordering::arranged_in_order(keys, found);
    let (sorted, listing) = arranged(keys, found);
    assert forall|i: int, j: int|
        0 <= i < j < listing.len() && (#[trigger] listing[i]).is_directory == (
        #[trigger] listing[j]).is_directory implies crate::ordering::precedes(
        lowered(listing[i].name),
        lowered(listing[j].name),
    ) by {
        assert(crate::ordering::precedes(sorted[i], sorted[j]));
        let a = choose|k: int|
            0 <= k < keys.len() && keys[k] == sorted[i] && found[k] == listing[i];
        let b = choose|k: int|
            0 <= k < keys.len() && keys[k] == sorted[j] && found[k] == listing[j];
        assert(sorted[i] == entry_key(listing[i]) && sorted[j] == entry_key(listing[j]));
        assert(sorted[i].skip(1) =~= lowered(listing[i].name));
        assert(sorted[j].skip(1) =~= lowered(listing[j].name));
    }
}

/// A listing tells of every entry that a line tells of, and of no other.
pub proof fn listing_is_complete(output: Seq<char>)
    ensures
        directory_listing(output).to_multiset() == lines_entries(lines(output)).to_multiset(),
{
    let found = lines_entries(lines(output));
    crate::ordering::arranged_in_order(listing_keys(found), found);
}

/// The entry that a line tells of.
fn parse_entry(line: &[char]) -> (res: Option<RemoteFileEntry>)
    ensures
        match res {
            Some(entry) => line_entry(line@) == Some(entry@),
            None => line_entry(line@) is None,
        },
{
    let parts = split_n(line, '\t', 5);
    let ghost pieces = split_up_to(line@, '\t', 5);
    assert(pieces == parts@.map_values(|p: &[char]| p@));
    if parts.len() < 5 {
        return None;
    }
    assert(pieces[0] == parts@[0]@ && pieces[1] == parts@[1]@ && pieces[2] == parts@[2]@
        && pieces[3] == parts@[3]@ && pieces[4] == parts@[4]@);
    let is_directory = same_text(parts[0], "d") || same_text(parts[0], "dir");
    let size_bytes = match parse_unsigned(parts[1], u64::MAX) {
        Some(n) => n,
        None => 0,
    };
    let time = match find(parts[2], '.') {
        Some(i) => {
            let whole = part(parts[2], 0, i);
            assert(whole@ =~= parts@[2]@.take(i as int));
            whole
        },
        None => parts[2],
    };
    let modified_unix_seconds = match parse_signed(time) {
        Some(n) => n,
        None => 0,
    };
    Some(
        RemoteFileEntry {
            name: text_of(parts[3]),
            path: text_of(parts[4]),
            is_directory,
            size_bytes,
            modified_unix_seconds,
        },
    )
}

/// What an entry is ordered by.
fn key_of(entry: &RemoteFileEntry) -> (key: String)
    ensures
        key@ == entry_key(entry@),
{
    let mut key = String::new();
    key.push(
        if entry.is_directory {
            '0'
        } else {
            '1'
        },
    );
    let name = chars_of(entry.name.as_str());
    let small = lower(name.as_slice());
    let chars = chars_of(small.as_str());
    crate::text::push_chars(&mut key, chars.as_slice());
    assert(key@ =~= entry_key(entry@));
    key
}

/// The entries of a directory, in order, whatever path they were asked for
/// with.
pub fn parse_remote_directory(_base_path: &str, output: &str) -> (entries: Vec<RemoteFileEntry>)
    ensures
        listing_view(entries@) == directory_listing(output@),
{
    let chars = chars_of(output);
    let mut rest = chars.as_slice();
    let mut entries: Vec<RemoteFileEntry> = Vec::new();
    let mut keys: Vec<String> = Vec::new();
    let ghost mut done: Seq<Seq<char>> = Seq::empty();
    assert(done + lines(rest@) =~= lines(output@));
    assert(listing_keys(lines_entries(done)) =~= Seq::<Seq<char>>::empty());
    assert(texts(keys@) =~= Seq::<Seq<char>>::empty());
    assert(listing_view(entries@) =~= Seq::<FileEntryView>::empty());
    while rest.len() > 0
        invariant
            done + lines(rest@) == lines(output@),
            (texts(keys@), listing_view(entries@)) == arranged(
                listing_keys(lines_entries(done)),
                lines_entries(done),
            ),
            keys@.len() == entries@.len(),
        decreases rest@.len(),
    {
        let (line, next) = next_line(rest);
        let ghost before = rest@;
        rest = part(rest, next, rest.len());
        assert(rest@ =~= before.skip(next as int));
        let ghost found = lines_entries(done);
        proof {
            assert(done + (seq![line@] + lines(rest@)) =~= done.push(line@) + lines(rest@));
            assert(done.push(line@).drop_last() =~= done);
        }
        if let Some(entry) = parse_entry(line) {
            let key = key_of(&entry);
            let at = place_of(&keys, key.as_str());
            let ghost old_keys = texts(keys@);
            let ghost old_entries = listing_view(entries@);
            let ghost shown = entry@;
            proof {
                let all = found.push(shown);
                assert(all.drop_last() =~= found);
                assert(listing_keys(all).drop_last() =~= listing_keys(found));
                assert(listing_keys(all).last() == key@);
            }
            keys.insert(at, key);
            entries.insert(at, entry);
            assert(texts(keys@) =~= old_keys.insert(at as int, key@));
            assert(listing_view(entries@) =~= old_entries.insert(at as int, shown));
        }
        proof {
            done = done.push(line@);
        }
    }
    assert(done + Seq::<Seq<char>>::empty() =~= done);
    entries
}

// ---- Finding a directory ----------------------------------------------------

/// Whether `needle` can be read in `haystack` from left to right, with anything
/// between its characters.
pub open spec fn read_within(needle: Seq<char>, haystack: Seq<char>) -> bool
    decreases haystack.len(),
{
    if needle.len() == 0 {
        true
    } else if haystack.len() == 0 {
        false
    } else if needle[0] == haystack[0] {
        read_within(needle.skip(1), haystack.skip(1))
    } else {
        read_within(needle, haystack.skip(1))
    }
}

/// Whether `places` are ascending places of the characters of `needle`.
pub open spec fn reads_at(needle: Seq<char>, haystack: Seq<char>, places: Seq<int>) -> bool {
    &&& places.len() == needle.len()
    &&& forall|i: int|
        0 <= i < places.len() ==> 0 <= #[trigger] places[i] < haystack.len()
            && haystack[places[i]] == needle[i]
    &&& forall|i: int, j: int| 0 <= i < j < places.len() ==> places[i] < places[j]
}

/// Reading from left to right finds every way in which the characters occur in
/// order.
pub proof fn read_within_is_complete(needle: Seq<char>, haystack: Seq<char>, places: Seq<int>)
    requires
        reads_at(needle, haystack, places),
    ensures
        read_within(needle, haystack),
    decreases haystack.len(),
{
    if needle.len() > 0 {
        assert(0 <= places[0] < haystack.len());
        let rest = haystack.skip(1);
        if needle[0] == haystack[0] {
            let shorter = needle.skip(1);
            let moved = Seq::new(shorter.len(), |i: int| places[i + 1] - 1);
            assert forall|i: int| 0 <= i < moved.len() implies 0 <= #[trigger] moved[i] < rest.len()
                && rest[moved[i]] == shorter[i] by {
                assert(places[0] < places[i + 1]);
                assert(haystack[places[i + 1]] == needle[i + 1]);
            }
            assert forall|i: int, j: int| 0 <= i < j < moved.len() implies moved[i] < moved[j] by {
                assert(places[i + 1] < places[j + 1]);
            }
            read_within_is_complete(shorter, rest, moved);
        } else {
            assert(haystack[places[0]] == needle[0]);
            let moved = Seq::new(needle.len(), |i: int| places[i] - 1);
            assert forall|i: int| 0 <= i < moved.len() implies 0 <= #[trigger] moved[i] < rest.len()
                && rest[moved[i]] == needle[i] by {
                assert(i > 0 ==> places[0] < places[i]);
                assert(haystack[places[i]] == needle[i]);
            }
            assert forall|i: int, j: int| 0 <= i < j < moved.len() implies moved[i] < moved[j] by {
                assert(places[i] < places[j]);
            }
            read_within_is_complete(needle, rest, moved);
        }
    }
}

/// Whether a text that is not empty can be read in another from left to right.
pub fn fuzzy_subsequence_match(needle: &str, haystack: &str) -> (res: bool)
    ensures
        res == (needle@.len() > 0 && read_within(needle@, haystack@)),
{
    let wanted = chars_of(needle);
    let all = chars_of(haystack);
    let size = wanted.len();
    if size == 0 {
        return false;
    }
    let mut found: usize = 0;
    let mut i: usize = 0;
    assert(wanted@.skip(0) =~= needle@);
    assert(all@.skip(0) =~= haystack@);
    while i < all.len()
        invariant
            wanted@ == needle@,
            all@ == haystack@,
            found < size == wanted@.len(),
            i <= all@.len(),
            read_within(needle@, haystack@) == read_within(
                wanted@.skip(found as int),
                all@.skip(i as int),
            ),
        decreases all@.len() - i,
    {
        let ghost p = wanted@.skip(found as int);
        let ghost q = all@.skip(i as int);
        assert(p[0] == wanted@[found as int] && q[0] == all@[i as int]);
        assert(q.skip(1) =~= all@.skip(i + 1));
        if all[i] == wanted[found] {
            assert(p.skip(1) =~= wanted@.skip(found + 1));
            found += 1;
            if found == size {
                assert(read_within(p.skip(1), q.skip(1)));
                return true;
            }
        }
        i += 1;
    }
    false
}

/// A directory that might be meant: its name in lower case, and its path.
pub open spec fn candidate(line: Seq<char>) -> Option<(Seq<char>, Seq<char>)> {
    match find_from(line, '\t', 0) {
        Some(i) => Some((lowered(line.take(i)), trimmed(line.skip(i + 1)))),
        None => None,
    }
}

/// The directories that might be meant.
pub open spec fn candidates(lines: Seq<Seq<char>>) -> Seq<(Seq<char>, Seq<char>)>
    decreases lines.len(),
{
    if lines.len() == 0 {
        Seq::empty()
    } else {
        match candidate(lines.last()) {
            Some(c) => candidates(lines.drop_last()).push(c),
            None => candidates(lines.drop_last()),
        }
    }
}

/// Whether a directory of this name is meant.
pub open spec fn is_meant(wanted: Seq<char>, name: Seq<char>, by_prefix: bool) -> bool {
    if by_prefix {
        begins_with(name, wanted)
    } else {
        wanted.len() > 0 && read_within(wanted, name)
    }
}

/// The paths of the directories that are meant.
pub open spec fn meant(
    wanted: Seq<char>,
    all: Seq<(Seq<char>, Seq<char>)>,
    by_prefix: bool,
) -> Seq<Seq<char>>
    decreases all.len(),
{
    if all.len() == 0 {
        Seq::empty()
    } else if is_meant(wanted, all.last().0, by_prefix) {
        meant(wanted, all.drop_last(), by_prefix).push(all.last().1)
    } else {
        meant(wanted, all.drop_last(), by_prefix)
    }
}

/// The only one of `paths`; none where they are none or more.
pub open spec fn only_one(paths: Seq<Seq<char>>) -> Option<Seq<char>> {
    if paths.len() == 1 {
        Some(paths[0])
    } else {
        None
    }
}

/// What stands behind the last slash, not counting slashes at the end.
pub open spec fn last_name(path: Seq<char>) -> Seq<char> {
    let s = stripped_end(path, '/');
    match find_last(s, '/', s.len() as int) {
        Some(i) => s.skip(i + 1),
        None => s,
    }
}

/// The directory that is meant by `requested`: the one that the output names;
/// or, of those beside it, the only one whose name begins with the last name
/// of the path, or else the only one in whose name it can be read. Where none
/// is, it stays as it was.
pub open spec fn resolved(requested: Seq<char>, output: Seq<char>) -> Seq<char> {
    let s = trimmed(output);
    if s.len() == 0 {
        requested
    } else if find_from(s, '\t', 0) is None {
        trimmed(lines(s)[0])
    } else {
        let wanted = lowered(last_name(requested));
        let all = candidates(lines(output));
        if wanted.len() == 0 {
            requested
        } else {
            match only_one(meant(wanted, all, true)) {
                Some(path) => path,
                None => match only_one(meant(wanted, all, false)) {
                    Some(path) => path,
                    None => requested,
                },
            }
        }
    }
}

/// A directory that might be meant.
struct Candidate {
    name: String,
    path: String,
}

spec fn candidates_view(all: Seq<Candidate>) -> Seq<(Seq<char>, Seq<char>)> {
    all.map_values(|c: Candidate| (c.name@, c.path@))
}

/// The directory that a line tells of.
fn parse_candidate(line: &[char]) -> (res: Option<Candidate>)
    ensures
        match res {
            Some(c) => candidate(line@) == Some((c.name@, c.path@)),
            None => candidate(line@) is None,
        },
{
    let size = line.len();
    match find(line, '\t') {
        Some(i) => {
            let name = part(line, 0, i);
            assert(name@ =~= line@.take(i as int));
            let path = part(line, i + 1, size);
            assert(path@ =~= line@.skip(i + 1));
            Some(Candidate { name: lower(name), path: text_of(trim(path)) })
        },
        None => None,
    }
}

/// The directories that might be meant.
fn read_candidates(output: &Vec<char>) -> (all: Vec<Candidate>)
    ensures
        candidates_view(all@) == candidates(lines(output@)),
{
    let mut rest = output.as_slice();
    let mut all: Vec<Candidate> = Vec::new();
    let ghost mut done: Seq<Seq<char>> = Seq::empty();
    assert(done + lines(rest@) =~= lines(output@));
    assert(candidates_view(all@) =~= Seq::<(Seq<char>, Seq<char>)>::empty());
    while rest.len() > 0
        invariant
            done + lines(rest@) == lines(output@),
            candidates_view(all@) == candidates(done),
        decreases rest@.len(),
    {
        let (line, next) = next_line(rest);
        let ghost before = rest@;
        let ghost seen = candidates_view(all@);
        rest = part(rest, next, rest.len());
        assert(rest@ =~= before.skip(next as int));
        if let Some(c) = parse_candidate(line) {
            let ghost shown = (c.name@, c.path@);
            all.push(c);
            assert(candidates_view(all@) =~= seen.push(shown));
        }
        proof {
            assert(done + (seq![line@] + lines(rest@)) =~= done.push(line@) + lines(rest@));
            assert(done.push(line@).drop_last() =~= done);
            done = done.push(line@);
        }
    }
    assert(done + Seq::<Seq<char>>::empty() =~= done);
    all
}

/// The path of the only directory that is meant.
fn unique_match(wanted: &str, all: &Vec<Candidate>, by_prefix: bool) -> (res: Option<String>)
    ensures
        match res {
            Some(path) => only_one(meant(wanted@, candidates_view(all@), by_prefix)) == Some(path@),
            None => only_one(meant(wanted@, candidates_view(all@), by_prefix)) is None,
        },
{
    let prefix = chars_of(wanted);
    let ghost shown = candidates_view(all@);
    let mut count: usize = 0;
    let mut first: usize = 0;
    let mut i: usize = 0;
    assert(shown.take(0) =~= Seq::<(Seq<char>, Seq<char>)>::empty());
    while i < all.len()
        invariant
            prefix@ == wanted@,
            shown == candidates_view(all@),
            i <= all@.len(),
            count <= i,
            count == meant(wanted@, shown.take(i as int), by_prefix).len(),
            count > 0 ==> first < all@.len() && meant(
                wanted@,
                shown.take(i as int),
                by_prefix,
            )[0] == all@[first as int].path@,
        decreases all@.len() - i,
    {
        assert(shown.take(i + 1).drop_last() =~= shown.take(i as int));
        assert(shown[i as int] == (all@[i as int].name@, all@[i as int].path@));
        let hit = if by_prefix {
            let name = chars_of(all[i].name.as_str());
            starts_with(name.as_slice(), prefix.as_slice())
        } else {
            fuzzy_subsequence_match(wanted, all[i].name.as_str())
        };
        if hit {
            if count == 0 {
                first = i;
            }
            count += 1;
        }
        i += 1;
    }
    assert(shown.take(i as int) =~= shown);
    if count == 1 {
        Some(all[first].path.clone())
    } else {
        None
    }
}

/// The directory that is meant by `requested_path`.
pub fn resolve_directory_from_output(requested_path: &str, output: &str) -> (path: String)
    ensures
        path@ == resolved(requested_path@, output@),
{
    let chars = chars_of(output);
    let s = trim(chars.as_slice());
    if s.len() == 0 {
        return requested_path.to_owned();
    }
    if find(s, '\t').is_none() {
        let (line, _) = next_line(s);
        assert(lines(s@)[0] == line@);
        return text_of(trim(line));
    }
    let requested = chars_of(requested_path);
    let bare = strip_end(requested.as_slice(), '/');
    let size = bare.len();
    let name = match rfind(bare, '/') {
        Some(i) => {
            let rest = part(bare, i + 1, size);
            assert(rest@ =~= bare@.skip(i + 1));
            rest
        },
        None => bare,
    };
    let wanted = lower(name);
    if wanted.as_str().is_empty() {
        return requested_path.to_owned();
    }
    let all = read_candidates(&chars);
    match unique_match(wanted.as_str(), &all, true) {
        Some(path) => path,
        None => match unique_match(wanted.as_str(), &all, false) {
            Some(path) => path,
            None => requested_path.to_owned(),
        },
    }
}

// ---- Files ------------------------------------------------------------------

/// The lines that are not blank, one after the other.
pub open spec fn unwrapped(lines: Seq<Seq<char>>) -> Seq<char>
    decreases lines.len(),
{
    if lines.len() == 0 {
        Seq::empty()
    } else if trimmed(lines.last()).len() == 0 {
        unwrapped(lines.drop_last())
    } else {
        unwrapped(lines.drop_last()) + lines.last()
    }
}

/// Whether `data` is what the output of reading a file tells: its bytes, or
/// none where the output is no such text.
pub open spec fn file_contents(output: Seq<char>, data: Seq<u8>) -> bool {
    let text = unwrapped(lines(output));
    base64(data) == text || (data.len() == 0 && forall|other: Seq<u8>| #[trigger] base64(other)
        != text)
}

/// `pieces`, each as a line of its own.
pub open spec fn broken(pieces: Seq<Seq<char>>) -> Seq<char>
    decreases pieces.len(),
{
    if pieces.len() == 0 {
        Seq::empty()
    } else {
        pieces[0] + seq!['\n'] + broken(pieces.skip(1))
    }
}

/// Whether every character of `s` is one of the 64, or padding.
spec fn in_alphabet(s: Seq<char>) -> bool {
    forall|i: int| 0 <= i < s.len() ==> base64_char(#[trigger] s[i])
}

/// What holds of the characters of a text holds of those of its pieces.
proof fn lemma_pieces(pieces: Seq<Seq<char>>)
    requires
        in_alphabet(pieces.flatten_alt()),
    ensures
        forall|i: int| 0 <= i < pieces.len() ==> in_alphabet(#[trigger] pieces[i]),
    decreases pieces.len(),
{
    if pieces.len() > 0 {
        let front = pieces.drop_last();
        let whole = pieces.flatten_alt();
        let before = front.flatten_alt();
        assert(whole =~= before + pieces.last());
        assert forall|i: int| 0 <= i < before.len() implies base64_char(#[trigger] before[i]) by {
            assert(base64_char(whole[i]));
        }
        assert forall|i: int| 0 <= i < pieces.last().len() implies base64_char(
            #[trigger] pieces.last()[i],
        ) by {
            assert(base64_char(whole[before.len() + i]));
        }
        lemma_pieces(front);
        assert forall|i: int| 0 <= i < pieces.len() implies in_alphabet(#[trigger] pieces[i]) by {
            if i < front.len() {
                assert(pieces[i] == front[i]);
            }
        }
    }
}

/// Pieces without line breaks are the lines that they stand on.
proof fn lemma_broken(pieces: Seq<Seq<char>>)
    requires
        forall|i: int| 0 <= i < pieces.len() ==> in_alphabet(#[trigger] pieces[i]),
    ensures
        lines(broken(pieces)) == pieces,
    decreases pieces.len(),
{
    if pieces.len() > 0 {
        let first = pieces[0];
        let rest = pieces.skip(1);
        let whole = broken(pieces);
        assert(in_alphabet(first));
        assert forall|i: int| 0 <= i < rest.len() implies in_alphabet(#[trigger] rest[i]) by {
            assert(in_alphabet(pieces[i + 1]));
        }
        lemma_broken(rest);
        assert forall|i: int| 0 <= i < first.len() implies whole[i] != '\n' && first[i] != '\r' by {
            assert(whole[i] == first[i] && base64_char(first[i]));
        }
        lemma_find_first(whole, '\n', 0, first.len() as int);
        assert(whole.take(first.len() as int) =~= first);
        assert(whole.skip(first.len() as int + 1) =~= broken(rest));
        assert(seq![first] + rest =~= pieces);
    } else {
        assert(lines(broken(pieces)) =~= pieces);
    }
}

/// Lines without white space are joined as they are.
proof fn lemma_unwrapped(pieces: Seq<Seq<char>>)
    requires
        forall|i: int| 0 <= i < pieces.len() ==> in_alphabet(#[trigger] pieces[i]),
    ensures
        unwrapped(pieces) == pieces.flatten_alt(),
    decreases pieces.len(),
{
    if pieces.len() > 0 {
        let front = pieces.drop_last();
        let last = pieces.last();
        assert(in_alphabet(last));
        assert forall|i: int| 0 <= i < front.len() implies in_alphabet(#[trigger] front[i]) by {
            assert(in_alphabet(pieces[i]));
        }
        lemma_unwrapped(front);
        if last.len() > 0 {
            assert(base64_char(last[0]) && base64_char(last.last()));
            lemma_trimmed_fixed(last);
        } else {
            assert(trimmed(last) =~= last);
            assert(front.flatten_alt() + last =~= front.flatten_alt());
        }
    }
}

/// Reading a file gives back what was written: wherever the text of the bytes
/// is broken into lines, the bytes are read, and no others.
pub proof fn file_round_trip(pieces: Seq<Seq<char>>, written: Seq<u8>, read: Seq<u8>)
    requires
        pieces.flatten() == base64(written),
        file_contents(broken(pieces), read),
    ensures
        read == written,
{
    pieces.lemma_flatten_and_flatten_alt_are_equivalent();
    base64_alphabet(written);
    lemma_pieces(pieces);
    lemma_broken(pieces);
    lemma_unwrapped(pieces);
    if base64(read) == base64(written) {
        base64_injective(read, written);
    }
}

/// Reading a file of text gives back the text that was written.
pub proof fn text_round_trip(pieces: Seq<Seq<char>>, written: Seq<char>, read: Seq<u8>)
    requires
        pieces.flatten() == base64(encode_utf8(written)),
        file_contents(broken(pieces), read),
    ensures
        utf8_text(read) == written,
{
    file_round_trip(pieces, encode_utf8(written), read);
    utf8_round_trip(written);
}

/// The lines that are not blank, one after the other.
fn unwrap_lines(output: &str) -> (text: Vec<char>)
    ensures
        text@ == unwrapped(lines(output@)),
{
    let chars = chars_of(output);
    let mut rest = chars.as_slice();
    let mut text: Vec<char> = Vec::new();
    let ghost mut done: Seq<Seq<char>> = Seq::empty();
    assert(done + lines(rest@) =~= lines(output@));
    while rest.len() > 0
        invariant
            done + lines(rest@) == lines(output@),
            text@ == unwrapped(done),
        decreases rest@.len(),
    {
        let (line, next) = next_line(rest);
        let ghost before = rest@;
        rest = part(rest, next, rest.len());
        assert(rest@ =~= before.skip(next as int));
        if trim(line).len() > 0 {
            extend(&mut text, line);
        }
        proof {
            assert(done + (seq![line@] + lines(rest@)) =~= done.push(line@) + lines(rest@));
            assert(done.push(line@).drop_last() =~= done);
            done = done.push(line@);
        }
    }
    assert(done + Seq::<Seq<char>>::empty() =~= done);
    text
}

/// The bytes of a file, from the output of reading it.
pub fn parse_file_bytes(output: &str) -> (data: Vec<u8>)
    ensures
        file_contents(output@, data@),
{
    let text = unwrap_lines(output);
    let joined = text_of(text.as_slice());
    match decode_base64(joined.as_str()) {
        Some(data) => data,
        None => Vec::new(),
    }
}

/// The text of a file, from the output of reading it.
pub fn parse_file_text(output: &str) -> (text: String)
    ensures
        exists|data: Seq<u8>| #[trigger] file_contents(output@, data) && text@ == utf8_text(data),
{
    let data = parse_file_bytes(output);
    decode_utf8_lossy(data.as_slice())
}

/// What the output of reading a file tells is one sequence of bytes.
pub proof fn file_contents_are_unique(output: Seq<char>, a: Seq<u8>, b: Seq<u8>)
    requires
        file_contents(output, a),
        file_contents(output, b),
    ensures
        a == b,
{
    let text = unwrapped(lines(output));
    if base64(a) == text && base64(b) == text {
        base64_injective(a, b);
    } else {
        assert(a =~= b);
    }
}

} // verus!
