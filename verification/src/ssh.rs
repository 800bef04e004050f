//! Sessions with the shell of a remote host.

use vstd::prelude::*;

use crate::text::{begins_with, chars_of, part, starts_with, text_of};

verus! {

pub const MIN_COLS: u32 = 20;

pub const MIN_ROWS: u32 = 5;

pub const MAX_COLS: u32 = 512;

pub const MAX_ROWS: u32 = 256;

// ---- The terminal -----------------------------------------------------------

/// `n`, or the nearer of `low` and `high` where it lies outside them.
pub open spec fn within(n: u32, low: u32, high: u32) -> u32 {
    if n < low {
        low
    } else if n > high {
        high
    } else {
        n
    }
}

/// The size of a terminal that is asked for.
pub open spec fn terminal_size(cols: u32, rows: u32) -> (u32, u32) {
    (within(cols, MIN_COLS, MAX_COLS), within(rows, MIN_ROWS, MAX_ROWS))
}

fn clamp(n: u32, low: u32, high: u32) -> (res: u32)
    ensures
        res == within(n, low, high),
{
    if n < low {
        low
    } else if n > high {
        high
    } else {
        n
    }
}

/// The size of a terminal that is asked for.
pub fn normalize_terminal_size(cols: u32, rows: u32) -> (size: (u32, u32))
    ensures
        size == terminal_size(cols, rows),
{
    (clamp(cols, MIN_COLS, MAX_COLS), clamp(rows, MIN_ROWS, MAX_ROWS))
}

/// A terminal keeps within its bounds, and a size that does is not changed.
pub proof fn terminal_size_bounds(cols: u32, rows: u32)
    ensures
        MIN_COLS <= terminal_size(cols, rows).0 <= MAX_COLS,
        MIN_ROWS <= terminal_size(cols, rows).1 <= MAX_ROWS,
        MIN_COLS <= cols <= MAX_COLS && MIN_ROWS <= rows <= MAX_ROWS ==> terminal_size(cols, rows)
            == (cols, rows),
{
}

/// What a session with a shell is asked to do. The output of a command is
/// handed to `response_tx`.
#[derive(Debug)]
pub enum SshCommand<T> {
    Input(Vec<u8>),
    Resize { cols: u32, rows: u32 },
    Exec { command: String, response_tx: T },
    Disconnect,
}

/// What is done for it.
#[derive(Debug)]
pub enum ShellAction<T> {
    /// Send to the terminal.
    Send(Vec<u8>),
    /// Give the terminal a size.
    ChangeWindow { cols: u32, rows: u32 },
    /// Run a command beside the terminal, and answer with its output.
    Run { command: String, response_tx: T },
    /// Close the session.
    Close,
}

/// The command that passes input to the terminal; none where there is none.
pub fn terminal_input<T>(data: Vec<u8>) -> (command: Option<SshCommand<T>>)
    ensures
        command == (if data@.len() == 0 {
            None
        } else {
            Some(SshCommand::<T>::Input(data))
        }),
{
    if data.len() == 0 {
        None
    } else {
        Some(SshCommand::Input(data))
    }
}

/// What a command, or the end of commands, calls for.
pub fn shell_action<T>(command: Option<SshCommand<T>>) -> (action: ShellAction<T>)
    ensures
        action == (match command {
            Some(SshCommand::Input(data)) => ShellAction::Send(data),
            Some(SshCommand::Resize { cols, rows }) => ShellAction::ChangeWindow {
                cols: terminal_size(cols, rows).0,
                rows: terminal_size(cols, rows).1,
            },
            Some(SshCommand::Exec { command, response_tx }) => ShellAction::Run {
                command,
                response_tx,
            },
            Some(SshCommand::Disconnect) => ShellAction::Close,
            None => ShellAction::Close,
        }),
{
    match command {
        Some(SshCommand::Input(data)) => ShellAction::Send(data),
        Some(SshCommand::Resize { cols, rows }) => {
            let (cols, rows) = normalize_terminal_size(cols, rows);
            ShellAction::ChangeWindow { cols, rows }
        },
        Some(SshCommand::Exec { command, response_tx }) => ShellAction::Run {
            command,
            response_tx,
        },
        Some(SshCommand::Disconnect) => ShellAction::Close,
        None => ShellAction::Close,
    }
}

/// What comes from a channel.
#[derive(Clone, Copy, Debug, PartialEq, Eq, Structural)]
pub enum ChannelEvent {
    Data,
    ExtendedData,
    Eof,
    Close,
    ExitStatus,
    /// The channel is gone.
    Ended,
    Other,
}

/// What is done about it.
#[derive(Clone, Copy, Debug, PartialEq, Eq, Structural)]
pub enum ChannelAction {
    /// Pass the data on.
    Deliver,
    Stop,
    Ignore,
}

/// What is done about what comes from a channel.
pub fn channel_action(event: ChannelEvent) -> (action: ChannelAction)
    ensures
        action == (match event {
            ChannelEvent::Data => ChannelAction::Deliver,
            ChannelEvent::ExtendedData => ChannelAction::Deliver,
            ChannelEvent::Other => ChannelAction::Ignore,
            _ => ChannelAction::Stop,
        }),
{
    match event {
        ChannelEvent::Data => ChannelAction::Deliver,
        ChannelEvent::ExtendedData => ChannelAction::Deliver,
        ChannelEvent::Eof => ChannelAction::Stop,
        ChannelEvent::Close => ChannelAction::Stop,
        ChannelEvent::ExitStatus => ChannelAction::Stop,
        ChannelEvent::Ended => ChannelAction::Stop,
        ChannelEvent::Other => ChannelAction::Ignore,
    }
}

// ---- Signing in -------------------------------------------------------------

/// `rest` below `home`. A path that begins at the root stays where it is.
pub open spec fn below(home: Seq<char>, rest: Seq<char>) -> Seq<char> {
    if rest.len() > 0 && rest[0] == '/' {
        rest
    } else if home.len() == 0 || home.last() == '/' {
        home + rest
    } else {
        home + seq!['/'] + rest
    }
}

/// A path in which `~` stands for the home directory, where that is known.
pub open spec fn expanded(path: Seq<char>, home: Option<Seq<char>>) -> Seq<char> {
    match home {
        Some(home) => if path == seq!['~'] {
            home
        } else if begins_with(path, seq!['~', '/']) {
            below(home, path.skip(2))
        } else {
            path
        },
        None => path,
    }
}

/// A path in which `~` stands for the home directory, where that is known.
pub fn expand_user_path(path: &str, home: Option<&str>) -> (res: String)
    ensures
        res@ == expanded(
            path@,
            match home {
                Some(home) => Some(home@),
                None => None,
            },
        ),
{
    let chars = chars_of(path);
    let s = chars.as_slice();
    let home = match home {
        Some(home) => home,
        None => return path.to_owned(),
    };
    if s.len() == 1 && s[0] == '~' {
        assert(path@ =~= seq!['~']);
        return home.to_owned();
    }
    if !starts_with(s, &['~', '/']) {
        return path.to_owned();
    }
    let rest = part(s, 2, s.len());
    assert(rest@ =~= path@.skip(2));
    if rest.len() > 0 && rest[0] == '/' {
        return text_of(rest);
    }
    let mut res = home.to_owned();
    let base = chars_of(home);
    if base.len() > 0 && base[base.len() - 1] != '/' {
        res.push('/');
        assert(res@ =~= home@ + seq!['/']);
    }
    crate::text::push_chars(&mut res, rest);
    res
}

/// How a user proves who they are.
#[derive(Clone, Debug)]
pub enum AuthMethod {
    /// With the key in this file.
    Key(String),
    Password(String),
    /// Not at all.
    Nothing,
}

/// How a user proves who they are: with a key where one is named, else with a
/// password where there is one.
pub fn auth_method(private_key_path: Option<&str>, password: Option<&str>, home: Option<&str>) -> (
    method: AuthMethod)
    ensures
        match (private_key_path, password) {
            (Some(path), _) => method matches AuthMethod::Key(file) && file@ == expanded(
                path@,
                match home {
                    Some(home) => Some(home@),
                    None => None,
                },
            ),
            (None, Some(secret)) => method matches AuthMethod::Password(text) && text@ == secret@,
            (None, None) => method is Nothing,
        },
{
    match private_key_path {
        Some(path) => AuthMethod::Key(expand_user_path(path, home)),
        None => match password {
            Some(secret) => AuthMethod::Password(secret.to_owned()),
            None => AuthMethod::Nothing,
        },
    }
}

} // verus!
