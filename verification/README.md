# portix_serv

The protocol core of the Portix remote access service, in verified Rust.

The library in `src/` is the logic of two kinds of sessions: remote desktops and
remote shells. It takes bytes, text and times, and gives back bytes, text and
the next step. Every function states what it returns, and Verus proves it. What
is believed of the few calls into the standard library and other crates is
stated beside each of them.

| Modules | What they hold |
| --- | --- |
| `wire`, `text`, `encoding`, `base64_text`, `ordering`, `paths` | numbers, text and paths as they are written and read |
| `settings`, `profile`, `policy`, `errors` | profiles of remote desktops, their files, and what they ask of a session |
| `framing`, `channel`, `inbox` | packets, channels, and the stream that they are cut from |
| `connect`, `licensing`, `activation`, `handshake` | making a connection, step by step |
| `rle`, `bitmap`, `fastpath`, `framebuffer`, `stats`, `screen` | pictures: decoding, drawing, what has changed and what is counted |
| `input`, `clipboard`, `drive_data`, `drive` | keys and pointer, the clipboard, and a mapped folder |
| `desktop` | an active desktop: what follows from each message, command and tick |
| `shell`, `remote`, `ssh`, `session` | commands for a remote shell, what they answer, and sessions as such |

Laws that relate several functions are public proof functions next to the
functions that they speak of.

`app/` is the service around the library: sockets, encryption, files, time and
the records that leave the process. `tests/` runs the library on concrete input.
