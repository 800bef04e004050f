use portix_serv::channel::build_static_channel_message_pdus;
use portix_serv::drive::{
    change_done, closed, lies_within, open_file, read_directory_entries, read_done,
    resolve_mapped_path, write_done, DirectoryEntry, DriveHandle, DriveStep, ListReply, OpenPlan,
    Purpose, RdpdrState, TargetFacts, FILE_OPEN_IF,
};
use portix_serv::drive_data::{
    file_time, map_io_error, FileMetadata, FileStamp, IoFailure, STATUS_ACCESS_DENIED,
    STATUS_INVALID_PARAMETER, STATUS_NOT_A_DIRECTORY, STATUS_NOT_SUPPORTED, STATUS_NO_MORE_FILES,
    STATUS_NO_SUCH_FILE, STATUS_OBJECT_NAME_COLLISION, STATUS_SUCCESS,
};
use portix_serv::encoding::encode_utf16_bytes;
use portix_serv::paths::{mapped_components, split_search_pattern, wildcard_matches, PathPart};

const GENERIC_WRITE: u32 = 0x4000_0000;
const FILE_NON_DIRECTORY_FILE: u32 = 0x0000_0040;
const FILE_DIRECTORY_INFORMATION: u32 = 1;

fn new_state() -> RdpdrState {
    RdpdrState::new("PORTIX".to_owned(), false)
}

/// UTF-16 with the zero that ends it.
fn utf16_bytes(text: &str) -> Vec<u8> {
    let mut bytes = encode_utf16_bytes(text);
    bytes.extend_from_slice(&[0, 0]);
    bytes
}

/// The only message of a step that answers.
fn only(step: DriveStep) -> Vec<u8> {
    match step {
        DriveStep::Respond(messages) => {
            assert_eq!(messages.len(), 1);
            messages.into_iter().next().unwrap()
        }
        other => panic!("unexpected {other:?}"),
    }
}

/// Status and data of an answer.
fn answered(step: DriveStep) -> (u32, Vec<u8>) {
    let message = only(step);
    assert_eq!(&message[0..4], &[0x72, 0x44, 0x43, 0x49]);
    let status = u32::from_le_bytes([message[12], message[13], message[14], message[15]]);
    (status, message[16..].to_vec())
}

fn metadata(size: u64) -> FileMetadata {
    FileMetadata {
        is_directory: false,
        size,
        created: None,
        accessed: None,
        modified: Some(FileStamp {
            seconds: 0,
            nanoseconds: 250,
        }),
    }
}

#[test]
fn rejects_parent_path_escape() {
    let state = new_state();
    assert_eq!(state.resolve_path("\\..\\secret"), Err(STATUS_ACCESS_DENIED));
}

fn create_request(path: &str, access: u32, disposition: u32, options: u32) -> Vec<u8> {
    let path = utf16_bytes(path);
    let mut create = Vec::new();
    create.extend_from_slice(&access.to_le_bytes());
    create.extend_from_slice(&0u64.to_le_bytes());
    create.extend_from_slice(&0u32.to_le_bytes());
    create.extend_from_slice(&3u32.to_le_bytes());
    create.extend_from_slice(&disposition.to_le_bytes());
    create.extend_from_slice(&options.to_le_bytes());
    create.extend_from_slice(&(path.len() as u32).to_le_bytes());
    create.extend_from_slice(&path);
    create
}

#[test]
fn creates_reads_and_writes_inside_mapped_root() {
    let mut state = new_state();
    let create = create_request(
        "\\hello.txt",
        GENERIC_WRITE,
        FILE_OPEN_IF,
        FILE_NON_DIRECTORY_FILE,
    );
    let (purpose, names) = match state.create(7, &create) {
        DriveStep::Locate { purpose, names } => (purpose, names),
        other => panic!("unexpected {other:?}"),
    };
    assert_eq!(names, ["hello.txt"]);
    let facts = TargetFacts {
        exists: false,
        is_directory: false,
        inside: Ok(true),
    };
    let (ticket, plan) = match state.located(purpose, facts) {
        DriveStep::Open { ticket, plan } => (ticket, plan),
        other => panic!("unexpected {other:?}"),
    };
    assert!(matches!(
        plan,
        OpenPlan::File {
            writable: true,
            create: true,
            create_new: false,
            truncate: false,
            length: 0
        }
    ));
    let (status, response) = answered(state.opened(ticket, Ok(())));
    assert_eq!(status, STATUS_SUCCESS);
    let file_id = u32::from_le_bytes([response[0], response[1], response[2], response[3]]);
    assert_eq!(response[4], 2);
    let mut contents: Vec<u8> = Vec::new();

    let mut write = Vec::new();
    write.extend_from_slice(&5u32.to_le_bytes());
    write.extend_from_slice(&0u64.to_le_bytes());
    write.extend_from_slice(&[0; 20]);
    write.extend_from_slice(b"hello");
    match state.write(8, file_id, &write) {
        DriveStep::Write {
            completion_id: 8,
            file_id: id,
            offset: 0,
            data,
        } => {
            assert_eq!(id, file_id);
            contents.extend_from_slice(&data);
        }
        other => panic!("unexpected {other:?}"),
    }
    assert_eq!(answered(write_done(8, 5, Ok(()))).0, STATUS_SUCCESS);

    let mut read = Vec::new();
    read.extend_from_slice(&5u32.to_le_bytes());
    read.extend_from_slice(&0u64.to_le_bytes());
    match state.read(9, file_id, &read) {
        DriveStep::Read {
            completion_id: 9,
            file_id: id,
            offset: 0,
            length: 5,
        } => assert_eq!(id, file_id),
        other => panic!("unexpected {other:?}"),
    }
    assert_eq!(&answered(read_done(9, Ok(contents))).1[4..], b"hello");
}

#[test]
fn device_announce_contains_drive_name() {
    let state = new_state();
    let announce = state.device_announce();
    assert!(announce.windows(6).any(|bytes| bytes == b"PORTIX"));
}

fn directory_request(pattern: &str) -> Vec<u8> {
    let pattern = utf16_bytes(pattern);
    let mut input = Vec::new();
    input.extend_from_slice(&FILE_DIRECTORY_INFORMATION.to_le_bytes());
    input.push(1);
    input.extend_from_slice(&(pattern.len() as u32).to_le_bytes());
    input.extend_from_slice(&[0; 23]);
    input.extend_from_slice(&pattern);
    input
}

fn state_with_folder() -> RdpdrState {
    let mut state = new_state();
    state.handles.insert(
        1,
        DriveHandle {
            is_file: false,
            directory_entries: Vec::new(),
            directory_index: 0,
            delete_on_close: false,
        },
    );
    state
}

#[test]
fn directory_query_cannot_escape_mapped_root() {
    let mut state = state_with_folder();
    let input = directory_request("\\..\\*");
    let (folder, pattern) = match state.query_directory(3, 1, &input) {
        DriveStep::List {
            completion_id: 3,
            file_id: 1,
            class: 1,
            folder: Some(folder),
            pattern,
        } => (folder, pattern),
        other => panic!("unexpected {other:?}"),
    };
    assert!(matches!(folder.as_slice(), [PathPart::Parent]));
    let root = components(&["/", "tmp", "mapped"]);
    let mut resolved = root.clone();
    for part in &folder {
        match part {
            PathPart::Current => {}
            PathPart::Parent => {
                resolved.pop();
            }
            PathPart::Name(name) => resolved.push(name.as_bytes().to_vec()),
        }
    }
    let reply = ListReply::refused(&root, Ok(&resolved)).expect("the folder is refused");
    assert_eq!(
        answered(state.listed(3, 1, 1, &pattern, reply)).0,
        STATUS_ACCESS_DENIED
    );
}

#[test]
fn a_search_is_refused_outside_the_folder_alone() {
    let root = components(&["/", "srv", "map"]);
    assert!(ListReply::refused(&root, Ok(&root)).is_none());
    let below = components(&["/", "srv", "map", "a"]);
    assert!(ListReply::refused(&root, Ok(&below)).is_none());
    let beside = components(&["/", "srv", "mapped"]);
    assert!(matches!(
        ListReply::refused(&root, Ok(&beside)),
        Some(ListReply::Outside)
    ));
    let mut state = state_with_folder();
    let failed = ListReply::refused(&root, Err(IoFailure::NotFound)).expect("refused");
    assert_eq!(answered(state.listed(1, 1, 1, "*", failed)).0, STATUS_NO_SUCH_FILE);
    let unread = ListReply::read(Err(IoFailure::PermissionDenied));
    assert_eq!(answered(state.listed(2, 1, 1, "*", unread)).0, STATUS_ACCESS_DENIED);
    let entry = DirectoryEntry {
        name: "x".to_owned(),
        metadata: metadata(1),
    };
    let read = ListReply::read(Ok(vec![entry]));
    assert_eq!(answered(state.listed(3, 1, 1, "*", read)).0, STATUS_SUCCESS);
    assert_eq!(
        answered(state.listed(4, 1, 1, "*", ListReply::Present)).0,
        STATUS_NO_MORE_FILES
    );
}

#[test]
fn a_folder_is_listed_one_entry_at_a_time() {
    let mut state = state_with_folder();
    let entries = ["b.TXT", "a.txt", "c.bin"]
        .iter()
        .map(|name| DirectoryEntry {
            name: (*name).to_owned(),
            metadata: metadata(3),
        })
        .collect();
    let (status, data) = answered(state.listed(1, 1, 1, "*.txt", ListReply::Entries(entries)));
    assert_eq!(status, STATUS_SUCCESS);
    assert!(data.ends_with(&encode_utf16_bytes("a.txt")));
    let (status, data) = answered(state.listed(2, 1, 1, "*.txt", ListReply::Present));
    assert_eq!(status, STATUS_SUCCESS);
    assert!(data.ends_with(&encode_utf16_bytes("b.TXT")));
    let (status, _) = answered(state.listed(3, 1, 1, "*.txt", ListReply::Present));
    assert_eq!(status, STATUS_NO_MORE_FILES);
    let (status, _) = answered(state.listed(3, 1, 1, "*", ListReply::NotADirectory));
    assert_eq!(status, STATUS_NOT_A_DIRECTORY);
    let failed = ListReply::Failed(IoFailure::PermissionDenied);
    assert_eq!(answered(state.listed(3, 1, 1, "*", failed)).0, STATUS_ACCESS_DENIED);
    assert_eq!(
        answered(state.listed(3, 9, 1, "*", ListReply::Present)).0,
        STATUS_NO_SUCH_FILE
    );
}

#[test]
fn entries_are_chosen_and_put_in_order() {
    let entries = ["Zeta", "alpha", "Beta", "ALPHA2"]
        .iter()
        .map(|name| DirectoryEntry {
            name: (*name).to_owned(),
            metadata: metadata(0),
        })
        .collect();
    let found = read_directory_entries(entries, "*a*");
    assert!(found.is_empty());
    let entries = ["Zeta", "alpha", "Beta", "ALPHA2"]
        .iter()
        .map(|name| DirectoryEntry {
            name: (*name).to_owned(),
            metadata: metadata(0),
        })
        .collect();
    let found = read_directory_entries(entries, "*a");
    let names: Vec<&str> = found.iter().map(|entry| entry.name.as_str()).collect();
    assert_eq!(names, ["alpha", "Beta", "Zeta"]);
}

#[test]
fn paths_never_lead_out_of_the_folder() {
    assert_eq!(
        mapped_components("\\a\\.\\b\0").unwrap(),
        ["a".to_owned(), "b".to_owned()]
    );
    assert_eq!(mapped_components("").unwrap(), Vec::<String>::new());
    assert!(mapped_components("a\\..").is_none());
    assert!(mapped_components("..").is_none());
    let outside = TargetFacts {
        exists: true,
        is_directory: true,
        inside: Ok(false),
    };
    assert_eq!(resolve_mapped_path(&outside, true), Err(STATUS_ACCESS_DENIED));
    let missing = TargetFacts {
        exists: false,
        is_directory: false,
        inside: Ok(true),
    };
    assert_eq!(resolve_mapped_path(&missing, false), Err(STATUS_NO_SUCH_FILE));
    assert_eq!(resolve_mapped_path(&missing, true), Ok(()));
    let failed = TargetFacts {
        exists: true,
        is_directory: false,
        inside: Err(IoFailure::InvalidInput),
    };
    assert_eq!(resolve_mapped_path(&failed, true), Err(STATUS_INVALID_PARAMETER));
}

fn components(names: &[&str]) -> Vec<Vec<u8>> {
    names.iter().map(|name| name.as_bytes().to_vec()).collect()
}

#[test]
fn a_path_lies_in_the_folder_by_whole_components() {
    let root = components(&["/", "srv", "map"]);
    assert!(lies_within(&root, &root));
    assert!(lies_within(&root, &components(&["/", "srv", "map", "a"])));
    assert!(!lies_within(&root, &components(&["/", "srv", "mapped"])));
    assert!(!lies_within(&root, &components(&["/", "srv"])));
    assert!(!lies_within(&root, &components(&["/", "etc", "map", "a"])));
    assert!(lies_within(&[], &root));

    let inside = components(&["/", "srv", "map", "a"]);
    let facts = TargetFacts::found(true, false, &root, Ok(&inside));
    assert_eq!(facts.inside, Ok(true));
    assert_eq!(resolve_mapped_path(&facts, false), Ok(()));
    let outside = components(&["/", "etc", "passwd"]);
    let facts = TargetFacts::found(true, false, &root, Ok(&outside));
    assert_eq!(resolve_mapped_path(&facts, false), Err(STATUS_ACCESS_DENIED));
    let facts = TargetFacts::found(true, true, &root, Err(IoFailure::NotFound));
    assert!(facts.is_directory);
    assert_eq!(resolve_mapped_path(&facts, true), Err(STATUS_NO_SUCH_FILE));
}

#[test]
fn a_file_is_opened_as_asked() {
    let present = TargetFacts {
        exists: true,
        is_directory: false,
        inside: Ok(true),
    };
    let missing = TargetFacts {
        exists: false,
        is_directory: false,
        inside: Ok(true),
    };
    assert!(matches!(
        open_file(&present, 0, 0, 1, 0),
        Ok(OpenPlan::File { writable: false, create: false, create_new: false, truncate: false, .. })
    ));
    assert!(matches!(
        open_file(&missing, 0, 9, 0, 0),
        Ok(OpenPlan::File { writable: true, create: true, truncate: true, length: 9, .. })
    ));
    assert!(matches!(open_file(&present, 0, 0, 2, 0), Err(STATUS_OBJECT_NAME_COLLISION)));
    assert!(matches!(open_file(&missing, 0, 0, 4, 0), Err(STATUS_NO_SUCH_FILE)));
    assert!(matches!(open_file(&present, 0, 0, 1, 1), Err(STATUS_NOT_A_DIRECTORY)));
    assert!(matches!(open_file(&missing, 0, 0, 3, 1), Ok(OpenPlan::MakeDirectory)));
}

#[test]
fn search_patterns_are_split() {
    let (folder, pattern) = split_search_pattern("\\sub\\*.txt");
    assert!(matches!(folder.as_slice(), [PathPart::Name(name)] if name == "sub"));
    assert_eq!(pattern, "*.txt");
    let (folder, pattern) = split_search_pattern("");
    assert!(folder.is_empty());
    assert_eq!(pattern, "*");
}

#[test]
fn wildcards_match_without_regard_to_case() {
    assert!(wildcard_matches("*", "x"));
    assert!(wildcard_matches("*.*", "noextension"));
    assert!(wildcard_matches("A*Z", "abcz"));
    assert!(!wildcard_matches("A*Z", "abc"));
    assert!(wildcard_matches("ÄB", "äb"));
    assert!(!wildcard_matches("a", "ab"));
}

#[test]
fn failures_have_statuses() {
    assert_eq!(map_io_error(IoFailure::NotFound), STATUS_NO_SUCH_FILE);
    assert_eq!(map_io_error(IoFailure::PermissionDenied), STATUS_ACCESS_DENIED);
    assert_eq!(map_io_error(IoFailure::AlreadyExists), STATUS_OBJECT_NAME_COLLISION);
    assert_eq!(map_io_error(IoFailure::DirectoryNotEmpty), 0xc000_0101);
    assert_eq!(map_io_error(IoFailure::InvalidInput), STATUS_INVALID_PARAMETER);
    assert_eq!(map_io_error(IoFailure::Other), 0xc000_0001);
}

#[test]
fn times_count_from_the_epoch_of_windows() {
    assert_eq!(file_time(None), 0);
    let epoch = FileStamp {
        seconds: 0,
        nanoseconds: 250,
    };
    assert_eq!(file_time(Some(epoch)), 116_444_736_000_000_002);
}

fn chunked(message: &[u8], flags: u32) -> Vec<u8> {
    let mut payload = (message.len() as u32).to_le_bytes().to_vec();
    payload.extend_from_slice(&flags.to_le_bytes());
    payload.extend_from_slice(message);
    payload
}

#[test]
fn a_folder_is_announced_once_both_sides_are_known() {
    let mut state = new_state();
    let mut announce = vec![0x72, 0x44, 0x6E, 0x49];
    announce.extend_from_slice(&[1, 0, 0x0D, 0, 5, 0, 0, 0]);
    match state.process_channel_payload(&chunked(&announce, 3)) {
        DriveStep::Respond(messages) => {
            assert_eq!(messages.len(), 2);
            assert_eq!(
                messages[0],
                [0x72, 0x44, 0x43, 0x43, 1, 0, 0x0C, 0, 5, 0, 0, 0]
            );
            assert_eq!(messages[1], state.client_name());
        }
        other => panic!("unexpected {other:?}"),
    }
    match state.process_channel_payload(&chunked(&[0x72, 0x44, 0x50, 0x53], 3)) {
        DriveStep::Respond(messages) => assert_eq!(messages, [state.client_capabilities()]),
        other => panic!("unexpected {other:?}"),
    }
    let mut confirm = vec![0x72, 0x44, 0x43, 0x43];
    confirm.extend_from_slice(&[1, 0, 0x0C, 0, 6, 0, 0, 0]);
    match state.process_channel_payload(&chunked(&confirm, 3)) {
        DriveStep::Respond(messages) => assert_eq!(messages, [state.device_announce()]),
        other => panic!("unexpected {other:?}"),
    }
    assert_eq!(state.client_id, 6);
    match state.process_channel_payload(&chunked(&confirm, 3)) {
        DriveStep::Respond(messages) => assert!(messages.is_empty()),
        other => panic!("unexpected {other:?}"),
    }
}

#[test]
fn requests_come_in_chunks() {
    let mut state = new_state();
    let mut request = vec![0x72, 0x44, 0x52, 0x49];
    for field in [1u32, 0, 77, 0x55, 0] {
        request.extend_from_slice(&field.to_le_bytes());
    }
    let mut first = (request.len() as u32).to_le_bytes().to_vec();
    first.extend_from_slice(&1u32.to_le_bytes());
    first.extend_from_slice(&request[..10]);
    assert!(matches!(
        state.process_channel_payload(&first),
        DriveStep::Respond(messages) if messages.is_empty()
    ));
    let mut last = (request.len() as u32).to_le_bytes().to_vec();
    last.extend_from_slice(&2u32.to_le_bytes());
    last.extend_from_slice(&request[10..]);
    let step = state.process_channel_payload(&last);
    let message = only(step);
    assert_eq!(&message[8..12], &77u32.to_le_bytes());
    assert_eq!(&message[12..16], &STATUS_NOT_SUPPORTED.to_le_bytes());
}

#[test]
fn a_long_request_is_obeyed_with_its_last_chunk() {
    let mut state = new_state();
    state.handles.insert(
        9,
        DriveHandle {
            is_file: true,
            directory_entries: Vec::new(),
            directory_index: 0,
            delete_on_close: false,
        },
    );
    let contents: Vec<u8> = (0..4000).map(|i| (i % 251) as u8).collect();
    let mut request = vec![0x72, 0x44, 0x52, 0x49];
    for field in [1u32, 9, 78, 4, 0, contents.len() as u32] {
        request.extend_from_slice(&field.to_le_bytes());
    }
    request.extend_from_slice(&500u64.to_le_bytes());
    request.extend_from_slice(&[0; 20]);
    request.extend_from_slice(&contents);
    let pdus = build_static_channel_message_pdus(1, 1, &request);
    assert_eq!(pdus.len(), 3);
    for pdu in &pdus[..2] {
        assert!(matches!(
            state.process_channel_payload(&pdu[15..]),
            DriveStep::Respond(messages) if messages.is_empty()
        ));
    }
    match state.process_channel_payload(&pdus[2][15..]) {
        DriveStep::Write { completion_id: 78, file_id: 9, offset: 500, data } => {
            assert_eq!(data, contents)
        }
        other => panic!("unexpected {other:?}"),
    }
    assert_eq!(&only(write_done(78, 4000, Ok(())))[8..12], &78u32.to_le_bytes());
}

#[test]
fn numbers_of_open_files_skip_zero() {
    let mut state = new_state();
    state.next_file_id = u32::MAX;
    for number in [u32::MAX, 1, 2] {
        let purpose = match state.create(7, &create_request("\\x", 0, FILE_OPEN_IF, 0)) {
            DriveStep::Locate { purpose, .. } => purpose,
            other => panic!("unexpected {other:?}"),
        };
        let facts = TargetFacts {
            exists: false,
            is_directory: false,
            inside: Ok(true),
        };
        let ticket = match state.located(purpose, facts) {
            DriveStep::Open { ticket, .. } => ticket,
            other => panic!("unexpected {other:?}"),
        };
        assert_eq!(ticket.completion_id, 7);
        assert_eq!(ticket.file_id, number);
        let mut expected = number.to_le_bytes().to_vec();
        expected.push(2);
        assert_eq!(answered(state.opened(ticket, Ok(()))), (STATUS_SUCCESS, expected));
    }
}

#[test]
fn a_file_is_closed_and_deleted_where_that_was_asked() {
    let mut state = new_state();
    let purpose = match state.create(1, &create_request("\\x", 0, FILE_OPEN_IF, 0x1000)) {
        DriveStep::Locate { purpose, .. } => purpose,
        other => panic!("unexpected {other:?}"),
    };
    assert!(matches!(purpose, Purpose::Create { disposition: 3, .. }));
    let facts = TargetFacts {
        exists: true,
        is_directory: false,
        inside: Ok(true),
    };
    let ticket = match state.located(purpose, facts) {
        DriveStep::Open { ticket, .. } => ticket,
        other => panic!("unexpected {other:?}"),
    };
    assert_eq!(answered(state.opened(ticket, Ok(()))).1, [1, 0, 0, 0, 1]);
    assert!(matches!(
        state.close(2, 1),
        DriveStep::Close { completion_id: 2, file_id: 1, delete: true }
    ));
    assert_eq!(answered(closed(2, Ok(()))), (STATUS_SUCCESS, vec![0; 5]));
    let failed = closed(2, Err(IoFailure::DirectoryNotEmpty));
    assert_eq!(answered(failed), (0xc000_0101, vec![0; 5]));
    assert_eq!(answered(state.close(3, 1)), (STATUS_NO_SUCH_FILE, vec![0; 5]));
}

#[test]
fn a_file_is_renamed_unless_the_name_is_taken() {
    let mut state = state_with_folder();
    let path = utf16_bytes("\\new");
    let mut data = vec![0u8, 0];
    data.extend_from_slice(&(path.len() as u32).to_le_bytes());
    data.extend_from_slice(&path);
    let mut input = 10u32.to_le_bytes().to_vec();
    input.extend_from_slice(&(data.len() as u32).to_le_bytes());
    input.extend_from_slice(&[0; 24]);
    input.extend_from_slice(&data);
    let (purpose, names) = match state.set_information(4, 1, &input) {
        DriveStep::Locate { purpose, names } => (purpose, names),
        other => panic!("unexpected {other:?}"),
    };
    assert_eq!(names, ["new"]);
    let taken = TargetFacts {
        exists: true,
        is_directory: false,
        inside: Ok(true),
    };
    assert_eq!(
        answered(state.located(purpose, taken)).0,
        STATUS_OBJECT_NAME_COLLISION
    );
    let free = TargetFacts {
        exists: false,
        is_directory: false,
        inside: Ok(true),
    };
    let length = data.len() as u32;
    assert!(matches!(
        state.located(purpose, free),
        DriveStep::Rename { completion_id: 4, file_id: 1, length: n } if n == length
    ));
    let (status, data) = answered(change_done(4, length, Ok(())));
    assert_eq!(status, STATUS_SUCCESS);
    assert_eq!(data, length.to_le_bytes());
}

#[test]
fn what_is_known_of_a_file_is_told() {
    let state = state_with_folder();
    assert!(matches!(
        state.query_information(5, 1, &5u32.to_le_bytes()),
        DriveStep::Inspect { completion_id: 5, file_id: 1, class: 5 }
    ));
    let (status, data) = answered(state.inspected(5, 1, 5, Ok(metadata(3))));
    assert_eq!(status, STATUS_SUCCESS);
    assert_eq!(&data[4..12], &3u64.to_le_bytes());
    let (status, _) = answered(state.inspected(5, 1, 99, Ok(metadata(3))));
    assert_eq!(status, STATUS_NOT_SUPPORTED);
    let (status, data) = answered(state.query_volume(6, &3u32.to_le_bytes()));
    assert_eq!(status, STATUS_SUCCESS);
    assert_eq!(&data[4..12], &262_144u64.to_le_bytes());
    let (status, _) = answered(state.query_volume(6, &2u32.to_le_bytes()));
    assert_eq!(status, STATUS_NOT_SUPPORTED);
}
