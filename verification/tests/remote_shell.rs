use portix_serv::errors::PortixError;
use portix_serv::remote::{
    fuzzy_subsequence_match, parse_file_bytes, parse_file_text, parse_remote_directory,
    parse_remote_system_snapshot, resolve_directory_from_output,
};
use portix_serv::shell::{
    chmod_request, create_directory_command, list_directory_command, read_file_command,
    remote_system_command, resolve_directory_command, shell_quote, write_file_command,
};
use portix_serv::ssh::{
    auth_method, channel_action, expand_user_path, normalize_terminal_size, shell_action,
    terminal_input, AuthMethod, ChannelAction, ChannelEvent, ShellAction, SshCommand, MAX_COLS,
    MAX_ROWS, MIN_COLS, MIN_ROWS,
};

#[test]
fn resolve_directory_supports_unique_prefix_directory_match() {
    let output = "igate-core\t/opt/igate-core\nlogs\t/opt/logs\n";

    assert_eq!(
        resolve_directory_from_output("/opt/igate", output),
        "/opt/igate-core"
    );
}

#[test]
fn resolve_directory_supports_unique_fuzzy_directory_match() {
    let output = "igate-core\t/opt/igate-core\nigloo\t/opt/igloo\n";

    assert_eq!(
        resolve_directory_from_output("/opt/igc", output),
        "/opt/igate-core"
    );
}

#[test]
fn resolve_directory_keeps_requested_path_when_fuzzy_match_is_ambiguous() {
    let output = "igate-core\t/opt/igate-core\nignore-cache\t/opt/ignore-cache\n";

    assert_eq!(
        resolve_directory_from_output("/opt/igc", output),
        "/opt/igc"
    );
}

#[test]
fn normalize_terminal_size_clamps_tiny_values() {
    assert_eq!(normalize_terminal_size(1, 1), (MIN_COLS, MIN_ROWS));
}

#[test]
fn normalize_terminal_size_clamps_large_values() {
    assert_eq!(normalize_terminal_size(999, 999), (MAX_COLS, MAX_ROWS));
}

#[test]
fn a_terminal_of_ordinary_size_is_not_changed() {
    assert_eq!(normalize_terminal_size(80, 24), (80, 24));
    assert_eq!(normalize_terminal_size(20, 256), (20, 256));
}

#[test]
fn a_directory_that_was_found_is_taken_as_it_stands() {
    assert_eq!(resolve_directory_from_output("/opt", "  /srv/opt \n"), "/srv/opt");
    assert_eq!(resolve_directory_from_output("/opt", " \n"), "/opt");
    assert_eq!(resolve_directory_from_output("/", "a\t/a\n"), "/");
}

#[test]
fn letters_are_found_in_order() {
    assert!(fuzzy_subsequence_match("igc", "igate-core"));
    assert!(!fuzzy_subsequence_match("cgi", "igate-core"));
    assert!(!fuzzy_subsequence_match("", "igate-core"));
}

#[test]
fn quoting_leaves_nothing_to_the_shell() {
    assert_eq!(shell_quote("a b"), "'a b'");
    assert_eq!(shell_quote("it's"), "'it'\"'\"'s'");
    assert_eq!(shell_quote("~"), "\"$HOME\"");
    assert_eq!(shell_quote("  "), "\"$HOME\"");
    assert_eq!(shell_quote("."), "\".\"");
    assert_eq!(create_directory_command("/x y"), "mkdir -p '/x y'\n");
    assert!(list_directory_command("/x").starts_with("p='/x'\nif [ -d \"$p\" ]; then\n"));
    assert!(resolve_directory_command("/x").starts_with("p='/x'\n"));
    assert!(read_file_command("/x").contains("base64 \"$p\""));
}

#[test]
fn contents_are_written_in_base64() {
    let command = write_file_command("/tmp/a", b"foobar");
    assert!(command.starts_with(
        "p='/tmp/a'\nmkdir -p \"$(dirname \"$p\")\"\ncat > \"$p\".portix.b64 <<'PORTIX_FILE'\nZm9vYmFy\nPORTIX_FILE\n"
    ));
    assert!(write_file_command("/tmp/a", b"").contains("<<'PORTIX_FILE'\n\nPORTIX_FILE\n"));
    assert!(write_file_command("/tmp/a", b"f").contains("\nZg==\n"));
    assert!(write_file_command("/tmp/a", b"fo").contains("\nZm8=\n"));
    assert!(write_file_command("/tmp/a", &[0xFB, 0xFF]).contains("\n+/8=\n"));
}

#[test]
fn contents_are_read_from_base64() {
    assert_eq!(parse_file_bytes("Zm9v\nYmFy\n\n"), b"foobar");
    assert_eq!(parse_file_bytes("Zg==\r\n"), b"f");
    assert_eq!(parse_file_bytes(""), b"");
    assert_eq!(parse_file_bytes("Zh==\n"), b"");
    assert_eq!(parse_file_bytes("Zm9v YmFy\n"), b"");
    assert_eq!(parse_file_text("aGFsw7Y=\n"), "hal\u{f6}");
    assert_eq!(parse_file_text("/w==\n"), "\u{fffd}");
}

#[test]
fn a_file_that_was_written_reads_back_however_it_is_broken_into_lines() {
    let text = "Grüße\nfrom \u{1F980}\n";
    let command = write_file_command("/tmp/a", text.as_bytes());
    let from = command.find("<<'PORTIX_FILE'\n").unwrap() + "<<'PORTIX_FILE'\n".len();
    let to = command.find("\nPORTIX_FILE\n").unwrap();
    let encoded = &command[from..to];
    for width in [1, 3, 7, 76] {
        let mut output = String::new();
        for piece in encoded.as_bytes().chunks(width) {
            output.push_str(std::str::from_utf8(piece).unwrap());
            output.push('\n');
        }
        assert_eq!(parse_file_bytes(&output), text.as_bytes());
        assert_eq!(parse_file_text(&output), text);
    }
}

#[test]
fn a_mode_is_three_or_four_octal_digits() {
    assert_eq!(chmod_request("/a", " 755 ").unwrap(), "chmod 755 '/a'\n");
    assert_eq!(chmod_request("/a", "0644").unwrap(), "chmod 0644 '/a'\n");
    match chmod_request("/a", "75") {
        Err(PortixError::InvalidProfile(text)) => {
            assert_eq!(text, "chmod mode must be 3 or 4 octal digits")
        }
        other => panic!("unexpected {other:?}"),
    }
    match chmod_request("/a", "758") {
        Err(PortixError::InvalidProfile(text)) => {
            assert_eq!(text, "chmod mode must contain only octal digits")
        }
        other => panic!("unexpected {other:?}"),
    }
}

#[test]
fn a_host_is_asked_for_all_that_a_snapshot_tells() {
    let command = remote_system_command();
    assert!(command.starts_with("if [ -r /etc/redhat-release ]; then\n  os=\"$(cat "));
    assert!(command.ends_with("\n'\ntrue\n"));
    for name in ["OS=", "HOST=", "UPTIME=", "MEM=", "DISK="] {
        assert!(command.contains(name));
    }
    for name in ["MEM_USED", "MEM_FREE", "MEM_TOTAL", "DISK_USED", "DISK_FREE", "DISK_TOTAL"] {
        assert!(command.contains(&format!("{name}_BYTES=%.0f\\n")));
    }
}

#[test]
fn a_snapshot_is_read_line_by_line() {
    let snapshot = parse_remote_system_snapshot(
        "OS=Linux 6.1\nHOST= box \nMEM=1.0 GB / 2.0 GB\nMEM_USED_BYTES=1024\nMEM_TOTAL_BYTES=x\n",
    );
    assert_eq!(snapshot.os, "Linux 6.1");
    assert_eq!(snapshot.hostname, "box");
    assert_eq!(snapshot.memory, "1.0 GB / 2.0 GB");
    assert_eq!(snapshot.memory_used_bytes, 1024);
    assert_eq!(snapshot.memory_total_bytes, 0);
    assert_eq!(snapshot.uptime, "");
    assert_eq!(snapshot.disk_free_bytes, 0);
}

#[test]
fn directories_come_before_files_and_names_in_order() {
    let output = "f\t10\t1700000000.5\tb.txt\t/x/b.txt\nd\t0\t-5\tZeta\t/x/Zeta\nf\tx\ty\tA.txt\t/x/A.txt\nbroken\tline\nd\t0\t1\talpha\t/x/alpha\n";
    let entries = parse_remote_directory("/x", output);
    let names: Vec<&str> = entries.iter().map(|entry| entry.name.as_str()).collect();
    assert_eq!(names, ["alpha", "Zeta", "A.txt", "b.txt"]);
    assert_eq!(entries[1].modified_unix_seconds, -5);
    assert_eq!(entries[2].size_bytes, 0);
    assert_eq!(entries[2].modified_unix_seconds, 0);
    assert_eq!(entries[3].size_bytes, 10);
    assert_eq!(entries[3].modified_unix_seconds, 1_700_000_000);
    assert_eq!(entries[3].path, "/x/b.txt");
    assert!(parse_remote_directory("", "").is_empty());
}

#[test]
fn a_tilde_stands_for_the_home_directory() {
    assert_eq!(expand_user_path("~", Some("/home/a")), "/home/a");
    assert_eq!(expand_user_path("~/.ssh/id", Some("/home/a")), "/home/a/.ssh/id");
    assert_eq!(expand_user_path("~/.ssh/id", Some("/home/a/")), "/home/a/.ssh/id");
    assert_eq!(expand_user_path("~//etc", Some("/home/a")), "/etc");
    assert_eq!(expand_user_path("~/x", None), "~/x");
    assert_eq!(expand_user_path("~a/x", Some("/home/a")), "~a/x");
    assert_eq!(expand_user_path("/x", Some("/home/a")), "/x");
}

#[test]
fn paths_are_joined_as_the_standard_library_does() {
    for (home, rest) in [
        ("/home/a", "x"),
        ("/home/a/", "x"),
        ("", "x"),
        ("/", "x"),
        ("rel", "x/y"),
        ("/home/a", "/x"),
    ] {
        let joined = std::path::PathBuf::from(home).join(rest);
        assert_eq!(
            expand_user_path(&format!("~/{rest}"), Some(home)),
            joined.to_string_lossy()
        );
    }
}

#[test]
fn a_key_is_used_before_a_password() {
    assert!(matches!(
        auth_method(Some("~/k"), Some("p"), Some("/h")),
        AuthMethod::Key(path) if path == "/h/k"
    ));
    assert!(matches!(
        auth_method(None, Some("p"), None),
        AuthMethod::Password(text) if text == "p"
    ));
    assert!(matches!(auth_method(None, None, None), AuthMethod::Nothing));
}

#[test]
fn commands_of_a_shell_are_carried_out() {
    assert!(terminal_input::<()>(Vec::new()).is_none());
    let action = shell_action(terminal_input::<()>(vec![1, 2]));
    assert!(matches!(action, ShellAction::Send(data) if data == [1, 2]));
    let action = shell_action(Some(SshCommand::<()>::Resize { cols: 1, rows: 9999 }));
    assert!(matches!(action, ShellAction::ChangeWindow { cols: 20, rows: 256 }));
    let action = shell_action(Some(SshCommand::Exec {
        command: "ls".to_owned(),
        response_tx: 7,
    }));
    assert!(matches!(action, ShellAction::Run { command, response_tx: 7 } if command == "ls"));
    assert!(matches!(shell_action::<()>(None), ShellAction::Close));
    assert!(matches!(
        shell_action(Some(SshCommand::<()>::Disconnect)),
        ShellAction::Close
    ));
}

#[test]
fn a_channel_delivers_until_it_ends() {
    assert_eq!(channel_action(ChannelEvent::Data), ChannelAction::Deliver);
    assert_eq!(channel_action(ChannelEvent::ExtendedData), ChannelAction::Deliver);
    assert_eq!(channel_action(ChannelEvent::Eof), ChannelAction::Stop);
    assert_eq!(channel_action(ChannelEvent::Close), ChannelAction::Stop);
    assert_eq!(channel_action(ChannelEvent::ExitStatus), ChannelAction::Stop);
    assert_eq!(channel_action(ChannelEvent::Ended), ChannelAction::Stop);
    assert_eq!(channel_action(ChannelEvent::Other), ChannelAction::Ignore);
}
