//! Connection profiles of remote desktops, and the files that hold them.

use vstd::prelude::*;

use crate::errors::PortixError;
use crate::settings::{
    distinct, lemma_first_place, lemma_no_place, lookup, lookup_either, put, Entries, Setting,
    Settings,
};
use crate::text::{
    ascii, ascii_lowered, chars_of, decimal, decimal_round_trip, extend, find, find_from,
    find_last, is_white, lemma_find_first, lemma_find_from, lemma_find_is_last,
    lemma_trimmed_again, lemma_trimmed_end_behind, lemma_trimmed_ends, lemma_trimmed_fixed,
    lemma_trimmed_parts, lemma_trimmed_start_before, lines, lower, lowered, next_line,
    parse_unsigned, parsed, part, push_decimal, rfind, same_text, split_n, split_up_to, text_of,
    trim, trimmed, trimmed_end, trimmed_start, without_return,
};

verus! {

/// The port of a remote desktop that names none.
pub const DEFAULT_PORT: u16 = 3389;

/// How to reach a remote desktop, and what to ask of it.
#[derive(Clone, Debug)]
pub struct RdpProfile {
    pub id: String,
    pub name: String,
    pub host: String,
    pub port: u16,
    pub username: String,
    pub password: Option<String>,
    pub domain: Option<String>,
    pub width: u16,
    pub height: u16,
    /// 1 in a window, 2 on the full screen.
    pub screen_mode: u8,
    /// Further settings, by lower-case name.
    pub extra: Settings,
}

/// What an optional string says.
pub open spec fn text_view(text: Option<String>) -> Option<Seq<char>> {
    match text {
        Some(s) => Some(s@),
        None => None,
    }
}

/// What an [`RdpProfile`] says.
#[verifier::ext_equal]
pub struct ProfileView {
    pub id: Seq<char>,
    pub name: Seq<char>,
    pub host: Seq<char>,
    pub port: u16,
    pub username: Seq<char>,
    pub password: Option<Seq<char>>,
    pub domain: Option<Seq<char>>,
    pub width: u16,
    pub height: u16,
    pub screen_mode: u8,
    pub extra: Entries,
}

impl View for RdpProfile {
    type V = ProfileView;

    open spec fn view(&self) -> ProfileView {
        ProfileView {
            id: self.id@,
            name: self.name@,
            host: self.host@,
            port: self.port,
            username: self.username@,
            password: text_view(self.password),
            domain: text_view(self.domain),
            width: self.width,
            height: self.height,
            screen_mode: self.screen_mode,
            extra: self.extra@,
        }
    }
}

// ---- Validity ---------------------------------------------------------------

impl ProfileView {
    /// What is wrong with the profile; none where it can be used.
    pub open spec fn fault(self) -> Option<Seq<char>> {
        if trimmed(self.id).len() == 0 {
            Some("profile id is required"@)
        } else if trimmed(self.host).len() == 0 {
            Some("host is required"@)
        } else if self.port == 0 {
            Some("port must be greater than 0"@)
        } else if self.width == 0 || self.height == 0 {
            Some("desktop size must be greater than 0"@)
        } else {
            None
        }
    }
}

/// Whether `res` refuses exactly with the text of `fault`.
pub open spec fn refused_with<T>(res: Result<T, PortixError>, fault: Option<Seq<char>>) -> bool {
    match res {
        Ok(_) => fault is None,
        Err(error) => error matches PortixError::InvalidProfile(text) && fault == Some(text@),
    }
}

fn invalid(text: &str) -> (error: PortixError)
    ensures
        error matches PortixError::InvalidProfile(s) && s@ == text@,
{
    PortixError::InvalidProfile(text.to_owned())
}

// ---- Addresses --------------------------------------------------------------

/// The number that `s` writes, or `default` where it writes none up to `max`.
pub open spec fn number_or(s: Option<Seq<char>>, max: nat, default: nat) -> nat {
    match s {
        Some(text) => match parsed(text, max) {
            Some(n) => n,
            None => default,
        },
        None => default,
    }
}

/// Host and port of an address: a host in square brackets may be followed by a
/// colon and a port; any other is split at its last colon where a port follows.
pub open spec fn address_parts(address: Seq<char>) -> (Seq<char>, u16) {
    let s = trimmed(address);
    if s.len() > 0 && s[0] == '[' && find_from(s, ']', 0) is Some {
        let end = find_from(s, ']', 0)->0;
        let after = s.skip(end + 1);
        let port = if after.len() > 0 && after[0] == ':' {
            number_or(Some(after.skip(1)), u16::MAX as nat, DEFAULT_PORT as nat)
        } else {
            DEFAULT_PORT as nat
        };
        (s.subrange(1, end), port as u16)
    } else {
        match find_last(s, ':', s.len() as int) {
            Some(colon) if parsed(s.skip(colon + 1), u16::MAX as nat) is Some => (
                s.take(colon),
                parsed(s.skip(colon + 1), u16::MAX as nat)->0 as u16,
            ),
            _ => (s, DEFAULT_PORT),
        }
    }
}

/// Host and port of an address.
pub fn parse_address(address: &str) -> (res: (String, u16))
    ensures
        (res.0@, res.1) == address_parts(address@),
{
    let chars = chars_of(address);
    let s = trim(chars.as_slice());
    let size = s.len();
    if size > 0 && s[0] == '[' {
        if let Some(end) = find(s, ']') {
            assert(end > 0) by {
                lemma_find_from(s@, ']', 0);
            }
            let host = text_of(part(s, 1, end));
            let after = part(s, end + 1, size);
            assert(after@ =~= s@.skip(end + 1));
            if after.len() > 0 && after[0] == ':' {
                let digits = part(after, 1, after.len());
                assert(digits@ =~= after@.skip(1));
                let port = match parse_unsigned(digits, u16::MAX as u64) {
                    Some(n) => n as u16,
                    None => DEFAULT_PORT,
                };
                return (host, port);
            }
            return (host, DEFAULT_PORT);
        }
    }
    if let Some(colon) = rfind(s, ':') {
        let digits = part(s, colon + 1, size);
        assert(digits@ =~= s@.skip(colon + 1));
        if let Some(port) = parse_unsigned(digits, u16::MAX as u64) {
            let host = part(s, 0, colon);
            assert(host@ =~= s@.take(colon as int));
            return (text_of(host), port as u16);
        }
    }
    (text_of(s), DEFAULT_PORT)
}

// ---- Reading files ----------------------------------------------------------

/// Name and value of the setting that a line holds: `name:type:value`, or
/// `name:value`. Empty lines and those that begin with `#` or `;` hold none.
pub open spec fn line_setting(line: Seq<char>) -> Option<(Seq<char>, Seq<char>)> {
    let s = trimmed(line);
    let parts = split_up_to(s, ':', 3);
    if s.len() == 0 || s[0] == '#' || s[0] == ';' || parts.len() < 2 {
        None
    } else {
        Some((lowered(trimmed(parts[0])), trimmed(parts[parts.len() - 1])))
    }
}

/// The settings that `lines` hold, the last of each name.
pub open spec fn lines_settings(lines: Seq<Seq<char>>) -> Entries
    decreases lines.len(),
{
    if lines.len() == 0 {
        Seq::empty()
    } else {
        let before = lines_settings(lines.drop_last());
        match line_setting(lines.last()) {
            Some((key, value)) => put(before, key, value),
            None => before,
        }
    }
}

/// Whether a setting has a place of its own in a profile.
pub open spec fn known_key(key: Seq<char>) -> bool {
    ||| key == "full address"@
    ||| key == "full_address"@
    ||| key == "port"@
    ||| key == "username"@
    ||| key == "domain"@
    ||| key == "desktopwidth"@
    ||| key == "desktopheight"@
    ||| key == "screen mode id"@
}

/// The settings that have no place of their own in a profile.
pub open spec fn other_settings(entries: Entries) -> Entries
    decreases entries.len(),
{
    if entries.len() == 0 {
        entries
    } else {
        let before = other_settings(entries.drop_last());
        if known_key(entries.last().0) {
            before
        } else {
            before.push(entries.last())
        }
    }
}

/// A remote program also serves as the shell where none is set.
pub open spec fn with_shell(entries: Entries) -> Entries {
    match lookup(entries, "remoteapplicationprogram"@) {
        Some(program) if lookup(entries, "alternate shell"@) is None => put(
            entries,
            "alternate shell"@,
            program,
        ),
        _ => entries,
    }
}

/// The user, and the domain that stands before a backslash in the user name or
/// in a setting of its own.
pub open spec fn user_and_domain(entries: Entries) -> (Seq<char>, Option<Seq<char>>) {
    let raw = match lookup(entries, "username"@) {
        Some(name) => name,
        None => Seq::empty(),
    };
    match find_from(raw, '\\', 0) {
        Some(i) => (raw.skip(i + 1), if i == 0 { None } else { Some(raw.take(i)) }),
        None => (
            raw,
            match lookup(entries, "domain"@) {
                Some(domain) if domain.len() > 0 => Some(domain),
                _ => None,
            },
        ),
    }
}

/// Host and port that the settings name.
pub open spec fn settings_address(entries: Entries) -> (Seq<char>, u16) {
    let (host, port) = address_parts(
        match lookup_either(entries, "full address"@, "full_address"@) {
            Some(address) => address,
            None => Seq::empty(),
        },
    );
    (host, number_or(lookup(entries, "port"@), u16::MAX as nat, port as nat) as u16)
}

/// The profile that the settings of a file describe.
pub open spec fn settings_profile(
    id: Seq<char>,
    name: Seq<char>,
    entries: Entries,
) -> ProfileView {
    let (host, port) = settings_address(entries);
    let (username, domain) = user_and_domain(entries);
    ProfileView {
        id,
        name,
        host,
        port,
        username,
        password: None,
        domain,
        width: number_or(lookup(entries, "desktopwidth"@), u16::MAX as nat, 1920) as u16,
        height: number_or(lookup(entries, "desktopheight"@), u16::MAX as nat, 1080) as u16,
        screen_mode: number_or(lookup(entries, "screen mode id"@), u8::MAX as nat, 1) as u8,
        extra: with_shell(other_settings(entries)),
    }
}

/// Name and value of the setting that `line` holds.
fn parse_line(line: &[char]) -> (res: Option<(String, String)>)
    ensures
        match res {
            Some((key, value)) => line_setting(line@) == Some((key@, value@)),
            None => line_setting(line@) is None,
        },
{
    let s = trim(line);
    if s.len() == 0 || s[0] == '#' || s[0] == ';' {
        return None;
    }
    let parts = split_n(s, ':', 3);
    let ghost pieces = split_up_to(s@, ':', 3);
    assert(pieces == parts@.map_values(|p: &[char]| p@));
    if parts.len() < 2 {
        return None;
    }
    let key = lower(trim(parts[0]));
    let value = text_of(trim(parts[parts.len() - 1]));
    assert(pieces[0] == parts@[0]@ && pieces[pieces.len() - 1] == parts@[parts@.len() - 1]@);
    Some((key, value))
}

/// The settings that a file holds.
fn read_settings(content: &str) -> (settings: Settings)
    ensures
        settings@ == lines_settings(lines(content@)),
        distinct(settings@),
{
    let chars = chars_of(content);
    let mut settings = Settings::new();
    let mut rest = chars.as_slice();
    let ghost mut done: Seq<Seq<char>> = Seq::empty();
    assert(done + lines(rest@) =~= lines(content@));
    while rest.len() > 0
        invariant
            done + lines(rest@) == lines(content@),
            settings@ == lines_settings(done),
            distinct(settings@),
        decreases rest@.len(),
    {
        let (line, next) = next_line(rest);
        let ghost before = rest@;
        rest = part(rest, next, rest.len());
        assert(rest@ =~= before.skip(next as int));
        if let Some((key, value)) = parse_line(line) {
            settings.insert(key, value);
        }
        proof {
            assert(done + (seq![line@] + lines(rest@)) =~= done.push(line@) + lines(rest@));
            assert(done.push(line@).drop_last() =~= done);
            done = done.push(line@);
        }
    }
    assert(done + Seq::<Seq<char>>::empty() =~= done);
    settings
}

fn is_known_key(key: &str) -> (known: bool)
    ensures
        known == known_key(key@),
{
    let chars = chars_of(key);
    let s = chars.as_slice();
    same_text(s, "full address") || same_text(s, "full_address") || same_text(s, "port")
        || same_text(s, "username") || same_text(s, "domain") || same_text(s, "desktopwidth")
        || same_text(s, "desktopheight") || same_text(s, "screen mode id")
}

/// The settings that have no place of their own, with a shell where a remote
/// program can serve as one.
fn extra_settings(settings: &Settings) -> (extra: Settings)
    ensures
        extra@ == with_shell(other_settings(settings@)),
        distinct(settings@) ==> distinct(extra@),
{
    let mut extra = Settings::new();
    let mut i: usize = 0;
    assert(settings@.take(0) =~= Seq::<(Seq<char>, Seq<char>)>::empty());
    while i < settings.entries.len()
        invariant
            i <= settings.entries@.len(),
            extra@ == other_settings(settings@.take(i as int)),
        decreases settings.entries@.len() - i,
    {
        let key = settings.entries[i].key.as_str();
        let ghost before = extra@;
        assert(settings@.take(i + 1).drop_last() =~= settings@.take(i as int));
        assert(settings@[i as int] == settings.entries@[i as int]@);
        if !is_known_key(key) {
            let value = settings.entries[i].value.clone();
            extra.entries.push(Setting { key: key.to_owned(), value });
            assert(extra@ =~= before.push(settings@[i as int]));
        }
        i += 1;
    }
    assert(settings@.take(i as int) =~= settings@);
    proof {
        lemma_other_distinct(settings@);
    }
    if !extra.contains_key("alternate shell") {
        let program = match extra.get("remoteapplicationprogram") {
            Some(program) => Some(program.clone()),
            None => None,
        };
        if let Some(program) = program {
            extra.insert("alternate shell".to_owned(), program);
        }
    }
    extra
}

/// Leaving settings out adds none and repeats none.
proof fn lemma_other_distinct(entries: Entries)
    ensures
        forall|i: int|
            0 <= i < other_settings(entries).len() ==> exists|j: int|
                0 <= j < entries.len() && entries[j] == #[trigger] other_settings(entries)[i],
        distinct(entries) ==> distinct(other_settings(entries)),
    decreases entries.len(),
{
    if entries.len() > 0 {
        let rest = entries.drop_last();
        lemma_other_distinct(rest);
        assert(distinct(entries) ==> distinct(rest));
        assert forall|i: int| 0 <= i < other_settings(entries).len() implies exists|j: int|
            0 <= j < entries.len() && entries[j] == #[trigger] other_settings(entries)[i] by {
            if i < other_settings(rest).len() {
                assert(other_settings(entries)[i] == other_settings(rest)[i]);
                let j = choose|j: int| 0 <= j < rest.len() && rest[j] == other_settings(rest)[i];
                assert(entries[j] == other_settings(entries)[i]);
            } else {
                assert(entries[entries.len() - 1] == other_settings(entries)[i]);
            }
        }
        if distinct(entries) && !known_key(entries.last().0) {
            let all = other_settings(entries);
            let some = other_settings(rest);
            assert forall|i: int, j: int| 0 <= i < j < all.len() implies (#[trigger] all[i]).0 != (
            #[trigger] all[j]).0 by {
                if j == some.len() {
                    let k = choose|k: int| 0 <= k < rest.len() && rest[k] == some[i];
                    assert(entries[k].0 != entries[entries.len() - 1].0);
                } else {
                    assert(all[i] == some[i] && all[j] == some[j]);
                }
            }
        }
    }
}

/// The number that the setting `key` writes, or `default`.
fn number_setting(settings: &Settings, key: &str, max: u64, default: u64) -> (n: u64)
    requires
        default <= max,
    ensures
        n == number_or(lookup(settings@, key@), max as nat, default as nat),
        n <= max,
{
    match settings.get(key) {
        Some(value) => {
            let chars = chars_of(value.as_str());
            match parse_unsigned(chars.as_slice(), max) {
                Some(n) => n,
                None => default,
            }
        },
        None => default,
    }
}

fn split_user(settings: &Settings) -> (res: (String, Option<String>))
    ensures
        (res.0@, text_view(res.1)) == user_and_domain(settings@),
{
    let raw = match settings.get("username") {
        Some(name) => chars_of(name.as_str()),
        None => Vec::new(),
    };
    let size = raw.len();
    match find(raw.as_slice(), '\\') {
        Some(i) => {
            let user = part(raw.as_slice(), i + 1, size);
            assert(user@ =~= raw@.skip(i + 1));
            let domain = part(raw.as_slice(), 0, i);
            assert(domain@ =~= raw@.take(i as int));
            if i == 0 {
                (text_of(user), None)
            } else {
                (text_of(user), Some(text_of(domain)))
            }
        },
        None => {
            let domain = match settings.get("domain") {
                Some(domain) => {
                    if domain.as_str().is_empty() {
                        None
                    } else {
                        Some(domain.clone())
                    }
                },
                None => None,
            };
            (text_of(raw.as_slice()), domain)
        },
    }
}

impl RdpProfile {
    /// Whether the profile can be used, and if not, why.
    pub fn validate(&self) -> (res: Result<(), PortixError>)
        ensures
            refused_with(res, self@.fault()),
    {
        let id = chars_of(self.id.as_str());
        if trim(id.as_slice()).len() == 0 {
            return Err(invalid("profile id is required"));
        }
        let host = chars_of(self.host.as_str());
        if trim(host.as_slice()).len() == 0 {
            return Err(invalid("host is required"));
        }
        if self.port == 0 {
            return Err(invalid("port must be greater than 0"));
        }
        if self.width == 0 || self.height == 0 {
            return Err(invalid("desktop size must be greater than 0"));
        }
        Ok(())
    }

    /// The profile that the file `content` describes. A file that names no host
    /// describes none.
    pub fn from_rdp_file(id: String, name: String, content: &str) -> (res: Result<
        Self,
        PortixError,
    >)
        ensures
            ({
                let entries = lines_settings(lines(content@));
                &&& refused_with(
                    res,
                    if settings_address(entries).0.len() == 0 {
                        Some("RDP file missing 'full address' field"@)
                    } else {
                        None
                    },
                )
                &&& res matches Ok(profile) ==> profile@ == settings_profile(id@, name@, entries)
                    && distinct(profile.extra@)
            }),
    {
        let settings = read_settings(content);
        let address = match settings.get_either("full address", "full_address") {
            Some(address) => address.clone(),
            None => String::new(),
        };
        let (host, address_port) = parse_address(address.as_str());
        if host.as_str().is_empty() {
            return Err(invalid("RDP file missing 'full address' field"));
        }
        let port = number_setting(&settings, "port", u16::MAX as u64, address_port as u64) as u16;
        let (username, domain) = split_user(&settings);
        let width = number_setting(&settings, "desktopwidth", u16::MAX as u64, 1920) as u16;
        let height = number_setting(&settings, "desktopheight", u16::MAX as u64, 1080) as u16;
        let screen_mode = number_setting(&settings, "screen mode id", u8::MAX as u64, 1) as u8;
        let extra = extra_settings(&settings);
        Ok(
            RdpProfile {
                id,
                name,
                host,
                port,
                username,
                password: None,
                domain,
                width,
                height,
                screen_mode,
                extra,
            },
        )
    }
}

// ---- Writing files ----------------------------------------------------------

/// An address as files write it: the port is left out where it is the usual.
pub open spec fn address_text(host: Seq<char>, port: u16) -> Seq<char> {
    if port == DEFAULT_PORT {
        host
    } else {
        host + seq![':'] + decimal(port as nat)
    }
}

/// The lines, with a line break between each two.
pub open spec fn joined(lines: Seq<Seq<char>>) -> Seq<char>
    decreases lines.len(),
{
    if lines.len() == 0 {
        Seq::empty()
    } else if lines.len() == 1 {
        lines[0]
    } else {
        joined(lines.drop_last()) + seq!['\r', '\n'] + lines.last()
    }
}

/// The line of a setting.
pub open spec fn setting_line(key: Seq<char>, kind: char, value: Seq<char>) -> Seq<char> {
    key + seq![':', kind, ':'] + value
}

impl ProfileView {
    /// The settings that a file holds first.
    pub open spec fn head_lines(self) -> Seq<Seq<char>> {
        seq![setting_line("full address"@, 's', address_text(self.host, self.port))] + (
        if self.username.len() > 0 {
            seq![setting_line("username"@, 's', self.username)]
        } else {
            Seq::empty()
        }) + (match self.domain {
            Some(domain) if domain.len() > 0 => seq![setting_line("domain"@, 's', domain)],
            _ => Seq::empty(),
        }) + seq![
            setting_line("desktopwidth"@, 'i', decimal(self.width as nat)),
            setting_line("desktopheight"@, 'i', decimal(self.height as nat)),
            setting_line("screen mode id"@, 'i', decimal(self.screen_mode as nat)),
        ]
    }

    /// The lines of the file that holds the profile.
    pub open spec fn file_lines(self) -> Seq<Seq<char>> {
        self.head_lines() + self.extra.map_values(
            |e: (Seq<char>, Seq<char>)| setting_line(e.0, 's', e.1),
        )
    }
}

/// Appends the line of a setting.
fn push_setting(out: &mut Vec<char>, key: &str, kind: char, value: &[char])
    ensures
        final(out)@ == old(out)@ + setting_line(key@, kind, value@),
{
    let chars = chars_of(key);
    extend(out, chars.as_slice());
    out.push(':');
    out.push(kind);
    out.push(':');
    extend(out, value);
    assert(out@ =~= old(out)@ + setting_line(key@, kind, value@));
}

/// Appends the line of a setting to the text of `lines`.
fn push_line(out: &mut Vec<char>, key: &str, kind: char, value: &[char], Ghost(lines): Ghost<
    Seq<Seq<char>>,
>)
    requires
        lines.len() > 0,
        old(out)@ == joined(lines),
    ensures
        final(out)@ == joined(lines.push(setting_line(key@, kind, value@))),
{
    assert(lines.push(setting_line(key@, kind, value@)).drop_last() =~= lines);
    out.push('\r');
    out.push('\n');
    assert(out@ =~= joined(lines) + seq!['\r', '\n']);
    push_setting(out, key, kind, value);
}

/// Appends the line of a number to the text of `lines`.
fn push_number_line(out: &mut Vec<char>, key: &str, n: u64, Ghost(lines): Ghost<Seq<Seq<char>>>)
    requires
        lines.len() > 0,
        old(out)@ == joined(lines),
    ensures
        final(out)@ == joined(lines.push(setting_line(key@, 'i', decimal(n as nat)))),
{
    let mut digits: Vec<char> = Vec::new();
    push_decimal(&mut digits, n);
    assert(digits@ =~= decimal(n as nat));
    push_line(out, key, 'i', digits.as_slice(), Ghost(lines));
}

impl RdpProfile {
    /// The file that holds the profile, except for its password.
    pub fn to_rdp_file_content(&self) -> (content: String)
        ensures
            content@ == joined(self@.file_lines()),
    {
        let ghost view = self@;
        let mut address = chars_of(self.host.as_str());
        if self.port != DEFAULT_PORT {
            address.push(':');
            push_decimal(&mut address, self.port as u64);
            assert(address@ =~= address_text(view.host, view.port));
        }
        let mut out: Vec<char> = Vec::new();
        push_setting(&mut out, "full address", 's', address.as_slice());
        let ghost mut lines = seq![setting_line("full address"@, 's', address@)];
        assert(out@ =~= joined(lines));
        if !self.username.as_str().is_empty() {
            let value = chars_of(self.username.as_str());
            push_line(&mut out, "username", 's', value.as_slice(), Ghost(lines));
            proof {
                lines = lines.push(setting_line("username"@, 's', view.username));
            }
        }
        if let Some(domain) = &self.domain {
            if !domain.as_str().is_empty() {
                let value = chars_of(domain.as_str());
                push_line(&mut out, "domain", 's', value.as_slice(), Ghost(lines));
                proof {
                    lines = lines.push(setting_line("domain"@, 's', domain@));
                }
            }
        }
        push_number_line(&mut out, "desktopwidth", self.width as u64, Ghost(lines));
        proof {
            lines = lines.push(setting_line("desktopwidth"@, 'i', decimal(view.width as nat)));
        }
        push_number_line(&mut out, "desktopheight", self.height as u64, Ghost(lines));
        proof {
            lines = lines.push(setting_line("desktopheight"@, 'i', decimal(view.height as nat)));
        }
        push_number_line(&mut out, "screen mode id", self.screen_mode as u64, Ghost(lines));
        proof {
            lines =
            lines.push(setting_line("screen mode id"@, 'i', decimal(view.screen_mode as nat)));
            assert(lines =~= view.head_lines());
        }
        let ghost rest = view.extra.map_values(
            |e: (Seq<char>, Seq<char>)| setting_line(e.0, 's', e.1),
        );
        let mut i: usize = 0;
        assert(lines =~= view.head_lines() + rest.take(0));
        while i < self.extra.entries.len()
            invariant
                view == self@,
                rest == view.extra.map_values(
                    |e: (Seq<char>, Seq<char>)| setting_line(e.0, 's', e.1),
                ),
                i <= self.extra.entries@.len(),
                lines == view.head_lines() + rest.take(i as int),
                view.head_lines().len() > 0,
                out@ == joined(lines),
            decreases self.extra.entries@.len() - i,
        {
            let entry = &self.extra.entries[i];
            let value = chars_of(entry.value.as_str());
            assert(view.extra[i as int] == entry@);
            push_line(&mut out, entry.key.as_str(), 's', value.as_slice(), Ghost(lines));
            proof {
                lines = lines.push(rest[i as int]);
                assert(lines =~= view.head_lines() + rest.take(i + 1));
            }
            i += 1;
        }
        assert(rest.take(i as int) =~= rest);
        text_of(out.as_slice())
    }
}

// ---- What is written is read back -------------------------------------------

/// Text that stands in one line.
pub open spec fn one_line(s: Seq<char>) -> bool {
    forall|i: int| 0 <= i < s.len() ==> s[i] != '\n'
}

/// A value that a file gives back as it was.
pub open spec fn plain_value(s: Seq<char>) -> bool {
    one_line(s) && trimmed(s) == s
}

/// A name of a setting that a file gives back as it was.
pub open spec fn plain_key(s: Seq<char>) -> bool {
    &&& plain_value(s)
    &&& lowered(s) == s
    &&& find_from(s, ':', 0) is None
    &&& s.len() > 0 ==> s[0] != '#' && s[0] != ';'
}

impl ProfileView {
    /// A profile that a file gives back as it was: it has no password, every
    /// text stands in one line without white space around it, the address reads
    /// as host and port, the user name has no backslash, and every further
    /// setting has a name of its own. A remote program comes with a shell.
    pub open spec fn writable(self) -> bool {
        &&& self.password is None
        &&& self.host.len() > 0
        &&& plain_value(address_text(self.host, self.port))
        &&& address_parts(address_text(self.host, self.port)) == (self.host, self.port)
        &&& plain_value(self.username)
        &&& find_from(self.username, '\\', 0) is None
        &&& self.domain matches Some(domain) ==> domain.len() > 0 && plain_value(domain)
        &&& distinct(self.extra)
        &&& forall|i: int|
            0 <= i < self.extra.len() ==> plain_key((#[trigger] self.extra[i]).0) && !known_key(
                self.extra[i].0,
            ) && plain_value(self.extra[i].1)
        &&& with_shell(self.extra) == self.extra
    }

    /// The settings of the head of the file.
    spec fn head_entries(self) -> Entries {
        seq![("full address"@, address_text(self.host, self.port))] + (if self.username.len() > 0 {
            seq![("username"@, self.username)]
        } else {
            Seq::empty()
        }) + (match self.domain {
            Some(domain) if domain.len() > 0 => seq![("domain"@, domain)],
            _ => Seq::empty(),
        }) + seq![
            ("desktopwidth"@, decimal(self.width as nat)),
            ("desktopheight"@, decimal(self.height as nat)),
            ("screen mode id"@, decimal(self.screen_mode as nat)),
        ]
    }
}

proof fn lemma_joined_front(lines: Seq<Seq<char>>)
    requires
        lines.len() > 1,
    ensures
        joined(lines) == lines[0] + seq!['\r', '\n'] + joined(lines.skip(1)),
    decreases lines.len(),
{
    let rest = lines.skip(1);
    if lines.len() == 2 {
        assert(lines.drop_last()[0] == lines[0]);
        assert(joined(lines.drop_last()) == lines[0]);
        assert(rest[0] == lines.last());
    } else {
        lemma_joined_front(lines.drop_last());
        assert(lines.drop_last().skip(1) =~= rest.drop_last());
        assert(joined(lines) =~= lines[0] + seq!['\r', '\n'] + joined(rest));
    }
}

/// Lines joined by line breaks are split into the same lines.
proof fn lemma_lines_joined(all: Seq<Seq<char>>)
    requires
        all.len() > 0,
        forall|i: int| 0 <= i < all.len() ==> one_line(#[trigger] all[i]),
        all.last().len() > 0,
    ensures
        lines(joined(all)) == all,
    decreases all.len(),
{
    let text = joined(all);
    assert(one_line(all[0]));
    if all.len() == 1 {
        lemma_find_from(text, '\n', 0);
        assert(lines(text) =~= all);
    } else {
        let rest = all.skip(1);
        lemma_joined_front(all);
        assert forall|i: int| 0 <= i < rest.len() implies one_line(#[trigger] rest[i]) by {
            assert(one_line(all[i + 1]));
        }
        lemma_lines_joined(rest);
        let at = all[0].len() as int + 1;
        assert(text[at] == '\n');
        assert forall|j: int| 0 <= j < at implies text[j] != '\n' by {
            if j < all[0].len() {
                assert(text[j] == all[0][j]);
            }
        }
        lemma_find_first(text, '\n', 0, at);
        assert(text.take(at) =~= all[0].push('\r'));
        assert(text.take(at).drop_last() =~= all[0]);
        assert(text.skip(at + 1) =~= joined(rest));
        assert(lines(text) =~= seq![all[0]] + rest);
        assert(seq![all[0]] + rest =~= all);
    }
}

/// The line of a setting reads as that setting.
proof fn lemma_setting_line(key: Seq<char>, kind: char, value: Seq<char>)
    requires
        plain_key(key),
        kind == 's' || kind == 'i',
        plain_value(value),
    ensures
        line_setting(setting_line(key, kind, value)) == Some((key, value)),
        one_line(setting_line(key, kind, value)),
{
    let line = setting_line(key, kind, value);
    lemma_trimmed_ends(key);
    lemma_trimmed_ends(value);
    if value.len() > 0 {
        assert(line.last() == value.last());
    }
    lemma_trimmed_fixed(line);
    lemma_find_from(key, ':', 0);
    assert forall|j: int| 0 <= j < key.len() implies line[j] != ':' by {
        assert(line[j] == key[j]);
    }
    lemma_find_first(line, ':', 0, key.len() as int);
    assert(line.take(key.len() as int) =~= key);
    let rest = line.skip(key.len() as int + 1);
    assert(rest =~= seq![kind, ':'] + value);
    lemma_find_first(rest, ':', 0, 1);
    assert(rest.skip(2) =~= value);
    let parts = split_up_to(line, ':', 3);
    reveal_with_fuel(split_up_to, 3);
    assert(parts == seq![key] + (seq![rest.take(1)] + seq![value]));
    assert(parts.len() == 3 && parts[0] == key && parts[2] == value);
    assert(line.len() > 0 && line[0] != '#' && line[0] != ';');
}

proof fn lemma_lines_settings(all: Seq<Seq<char>>, entries: Entries)
    requires
        all.len() == entries.len(),
        forall|i: int| 0 <= i < all.len() ==> line_setting(#[trigger] all[i]) == Some(entries[i]),
        distinct(entries),
    ensures
        lines_settings(all) == entries,
    decreases all.len(),
{
    if all.len() > 0 {
        let rest = entries.drop_last();
        assert forall|i: int| 0 <= i < rest.len() implies line_setting(
            #[trigger] all.drop_last()[i],
        ) == Some(rest[i]) by {
            assert(line_setting(all[i]) == Some(entries[i]));
        }
        assert(distinct(rest)) by {
            assert forall|i: int, j: int| 0 <= i < j < rest.len() implies (#[trigger] rest[i]).0
                != (#[trigger] rest[j]).0 by {
                assert(entries[i].0 != entries[j].0);
            }
        }
        lemma_lines_settings(all.drop_last(), rest);
        let n = all.len() - 1;
        assert(line_setting(all[n]) == Some(entries[n]));
        assert forall|j: int| 0 <= j < rest.len() implies (#[trigger] rest[j]).0
            != entries[n].0 by {
            assert(entries[j].0 != entries[n].0);
        }
        lemma_no_place(rest, entries[n].0, 0);
        assert(lines_settings(all) =~= entries);
    } else {
        assert(lines_settings(all) =~= entries);
    }
}

proof fn lemma_lookup_at(entries: Entries, i: int)
    requires
        0 <= i < entries.len(),
        distinct(entries),
    ensures
        lookup(entries, entries[i].0) == Some(entries[i].1),
{
    assert forall|j: int| 0 <= j < i implies (#[trigger] entries[j]).0 != entries[i].0 by {
        assert(entries[j].0 != entries[i].0);
    }
    lemma_first_place(entries, entries[i].0, 0, i);
}

proof fn lemma_other_settings(head: Entries, rest: Entries)
    requires
        forall|i: int| 0 <= i < head.len() ==> known_key((#[trigger] head[i]).0),
        forall|i: int| 0 <= i < rest.len() ==> !known_key((#[trigger] rest[i]).0),
    ensures
        other_settings(head + rest) == rest,
    decreases head.len() + rest.len(),
{
    let all = head + rest;
    if rest.len() > 0 {
        assert(all.drop_last() =~= head + rest.drop_last());
        lemma_other_settings(head, rest.drop_last());
        assert(all.last() == rest[rest.len() - 1]);
        assert(other_settings(all) =~= rest);
    } else if head.len() > 0 {
        assert(all.drop_last() =~= head.drop_last() + rest);
        lemma_other_settings(head.drop_last(), rest);
        assert(all.last() == head[head.len() - 1]);
        assert(other_settings(all) =~= rest);
    } else {
        assert(other_settings(all) =~= rest);
    }
}

proof fn lemma_known_keys()
    ensures
        plain_key("full address"@),
        plain_key("username"@),
        plain_key("domain"@),
        plain_key("desktopwidth"@),
        plain_key("desktopheight"@),
        plain_key("screen mode id"@),
        "full address"@.len() == 12,
        "full_address"@.len() == 12,
        "full_address"@ != "full address"@,
        "port"@.len() == 4,
        "username"@.len() == 8,
        "domain"@.len() == 6,
        "desktopwidth"@.len() == 12,
        "desktopwidth"@ != "full address"@,
        "desktopheight"@.len() == 13,
        "screen mode id"@.len() == 14,
{
    reveal_strlit("full address");
    reveal_strlit("full_address");
    reveal_strlit("port");
    reveal_strlit("username");
    reveal_strlit("domain");
    reveal_strlit("desktopwidth");
    reveal_strlit("desktopheight");
    reveal_strlit("screen mode id");
    lemma_plain_literal("full address"@);
    lemma_plain_literal("username"@);
    lemma_plain_literal("domain"@);
    lemma_plain_literal("desktopwidth"@);
    lemma_plain_literal("desktopheight"@);
    lemma_plain_literal("screen mode id"@);
    assert("full_address"@[4] != "full address"@[4]);
    assert("desktopwidth"@[0] != "full address"@[0]);
}

proof fn lemma_plain_literal(s: Seq<char>)
    requires
        s.len() > 0,
        s[0] != ' ',
        s.last() != ' ',
        forall|i: int|
            0 <= i < s.len() ==> (#[trigger] s[i] == ' ' || 'a' <= s[i] && s[i] <= 'z'),
    ensures
        plain_key(s),
{
    assert('a' <= s[0] && 'a' <= s[s.len() - 1]);
    lemma_trimmed_fixed(s);
    lemma_find_from(s, ':', 0);
    assert(ascii_lowered(s) =~= s);
}

proof fn lemma_decimal_plain(n: nat)
    ensures
        plain_value(decimal(n)),
{
    decimal_round_trip(n, n);
    lemma_trimmed_fixed(decimal(n));
}

/// A profile that is written to a file is read back from it, under the name
/// and identity that are given when the file is read.
#[verifier::rlimit(50)]
pub proof fn file_round_trip(profile: ProfileView)
    requires
        profile.writable(),
    ensures
        ({
            let entries = lines_settings(lines(joined(profile.file_lines())));
            &&& settings_address(entries).0.len() > 0
            &&& settings_profile(profile.id, profile.name, entries) == profile
        }),
{
    let head = profile.head_entries();
    let all = profile.file_lines();
    let entries = head + profile.extra;
    lemma_known_keys();
    lemma_decimal_plain(profile.width as nat);
    lemma_decimal_plain(profile.height as nat);
    lemma_decimal_plain(profile.screen_mode as nat);
    let heads = profile.head_lines();
    assert(heads.len() == head.len());
    let address = address_text(profile.host, profile.port);
    lemma_setting_line("full address"@, 's', address);
    lemma_setting_line("username"@, 's', profile.username);
    if profile.domain is Some {
        lemma_setting_line("domain"@, 's', profile.domain->0);
    }
    lemma_setting_line("desktopwidth"@, 'i', decimal(profile.width as nat));
    lemma_setting_line("desktopheight"@, 'i', decimal(profile.height as nat));
    lemma_setting_line("screen mode id"@, 'i', decimal(profile.screen_mode as nat));
    assert forall|i: int| 0 <= i < all.len() implies line_setting(#[trigger] all[i]) == Some(
        entries[i],
    ) && one_line(all[i]) && all[i].len() > 0 by {
        if i < heads.len() {
            assert(all[i] == heads[i] && entries[i] == head[i]);
        } else {
            let e = profile.extra[i - heads.len()];
            assert(plain_key(e.0));
            lemma_setting_line(e.0, 's', e.1);
            assert(all[i] == setting_line(e.0, 's', e.1));
            assert(entries[i] == e);
        }
    }
    assert forall|i: int| 0 <= i < head.len() implies known_key((#[trigger] head[i]).0) by {}
    assert forall|i: int, j: int| 0 <= i < j < entries.len() implies (#[trigger] entries[i]).0 != (
    #[trigger] entries[j]).0 by {
        if j < head.len() {
            assert(entries[i] == head[i] && entries[j] == head[j]);
        } else if i < head.len() {
            assert(known_key(head[i].0));
            assert(entries[j] == profile.extra[j - head.len()]);
        } else {
            assert(entries[i] == profile.extra[i - head.len()]);
            assert(entries[j] == profile.extra[j - head.len()]);
        }
    }
    assert(one_line(all[all.len() - 1]));
    lemma_lines_joined(all);
    lemma_lines_settings(all, entries);
    lemma_other_settings(head, profile.extra);
    let n = head.len() as int;
    lemma_lookup_at(entries, 0);
    lemma_lookup_at(entries, n - 3);
    lemma_lookup_at(entries, n - 2);
    lemma_lookup_at(entries, n - 1);
    decimal_round_trip(profile.width as nat, u16::MAX as nat);
    decimal_round_trip(profile.height as nat, u16::MAX as nat);
    decimal_round_trip(profile.screen_mode as nat, u8::MAX as nat);
    lemma_absent(profile, "port"@);
    if profile.username.len() > 0 {
        lemma_lookup_at(entries, 1);
    } else {
        lemma_absent(profile, "username"@);
        assert(profile.username =~= Seq::<char>::empty());
    }
    match profile.domain {
        Some(domain) => lemma_lookup_at(entries, n - 4),
        None => lemma_absent(profile, "domain"@),
    }
    assert(settings_profile(profile.id, profile.name, entries) =~= profile);
}

/// A setting that a profile does not have is not in its file.
proof fn lemma_absent(profile: ProfileView, key: Seq<char>)
    requires
        profile.writable(),
        known_key(key),
        key == "port"@ || key == "username"@ && profile.username.len() == 0 || key == "domain"@
            && profile.domain is None,
    ensures
        lookup(profile.head_entries() + profile.extra, key) is None,
{
    lemma_known_keys();
    let head = profile.head_entries();
    let entries = head + profile.extra;
    assert forall|j: int| 0 <= j < entries.len() implies (#[trigger] entries[j]).0 != key by {
        if j < head.len() {
            assert(entries[j] == head[j]);
        } else {
            assert(entries[j] == profile.extra[j - head.len()]);
        }
    }
    lemma_no_place(entries, key, 0);
}

// ---- What does not matter in files ------------------------------------------

/// Whether a line is passed over: it is blank, or begins with `#` or `;`.
pub open spec fn passed_over(line: Seq<char>) -> bool {
    let s = trimmed(line);
    s.len() == 0 || s[0] == '#' || s[0] == ';'
}

/// The lines that are not passed over.
pub open spec fn noted(lines: Seq<Seq<char>>) -> Seq<Seq<char>>
    decreases lines.len(),
{
    if lines.len() == 0 {
        Seq::empty()
    } else if passed_over(lines.last()) {
        noted(lines.drop_last())
    } else {
        noted(lines.drop_last()).push(lines.last())
    }
}

/// A line of a file: `name:kind:value`, or `name:value`. White space before the
/// line and around the name is part of `name`, and that around the value and
/// behind the line is part of `value`.
#[verifier::ext_equal]
pub struct FileLine {
    pub name: Seq<char>,
    pub kind: Option<Seq<char>>,
    pub value: Seq<char>,
}

/// Whether `s` has no colon.
pub open spec fn colon_free(s: Seq<char>) -> bool {
    forall|i: int| 0 <= i < s.len() ==> s[i] != ':'
}

/// Whether two names are the same in lower case.
pub open spec fn same_name(a: Seq<char>, b: Seq<char>) -> bool {
    lowered(a) == lowered(b)
}

/// ASCII names that differ only in the case of their letters are the same.
pub proof fn case_makes_no_name(a: Seq<char>, b: Seq<char>)
    requires
        ascii(a),
        ascii(b),
        ascii_lowered(a) == ascii_lowered(b),
    ensures
        same_name(a, b),
{
}

impl FileLine {
    /// The colons stand where the line is cut.
    pub open spec fn wf(self) -> bool {
        &&& colon_free(self.name)
        &&& match self.kind {
            Some(kind) => colon_free(kind),
            None => colon_free(self.value),
        }
    }

    /// What stands between name and value.
    pub open spec fn middle(self) -> Seq<char> {
        match self.kind {
            Some(kind) => seq![':'] + kind + seq![':'],
            None => seq![':'],
        }
    }

    pub open spec fn text(self) -> Seq<char> {
        self.name + self.middle() + self.value
    }

    /// Whether another line writes the same value under the same name, whatever
    /// the kinds, the case of the names and the white space.
    pub open spec fn says_as(self, other: FileLine) -> bool {
        &&& same_name(trimmed(self.name), trimmed(other.name))
        &&& trimmed(self.value) == trimmed(other.value)
    }
}

/// Whether two lines differ at most in white space around them or, where they
/// write settings, in the kind, in the case of the name, and in white space
/// around name and value.
pub open spec fn alike(a: Seq<char>, b: Seq<char>) -> bool {
    ||| trimmed(a) == trimmed(b)
    ||| exists|x: FileLine, y: FileLine|
        x.wf() && y.wf() && a == #[trigger] x.text() && b == #[trigger] y.text() && x.says_as(y)
}

/// Whether the lines of two files that are not passed over are alike, one by
/// one.
pub open spec fn alike_files(a: Seq<char>, b: Seq<char>) -> bool {
    let left = noted(lines(a));
    let right = noted(lines(b));
    &&& left.len() == right.len()
    &&& forall|i: int| 0 <= i < left.len() ==> alike(#[trigger] left[i], right[i])
}

/// A line that is not passed over holds its value under its name in lower case.
pub proof fn lemma_file_line(line: FileLine)
    requires
        line.wf(),
        !passed_over(line.text()),
    ensures
        line_setting(line.text()) == Some((lowered(trimmed(line.name)), trimmed(line.value))),
{
    let name = trimmed_start(line.name);
    let value = trimmed_end(line.value);
    let middle = line.middle();
    let s = trimmed(line.text());
    lemma_trimmed_again(line.name);
    lemma_trimmed_again(line.value);
    assert(middle[0] == ':' && middle.last() == ':');
    lemma_trimmed_start_before(line.name, middle + line.value);
    assert(line.name + (middle + line.value) =~= line.text());
    lemma_trimmed_end_behind(name + middle, line.value);
    assert(name + (middle + line.value) =~= name + middle + line.value);
    assert(s == name + middle + value);
    lemma_trimmed_parts(line.name);
    lemma_trimmed_parts(line.value);
    let k = choose|k: int| 0 <= k <= line.name.len() && name == #[trigger] line.name.skip(k);
    let n = name.len() as int;
    assert forall|j: int| 0 <= j < n implies s[j] != ':' by {
        assert(s[j] == line.name[j + k]);
    }
    assert(s[n] == ':');
    lemma_find_first(s, ':', 0, n);
    assert(s.take(n) =~= name);
    let rest = s.skip(n + 1);
    match line.kind {
        Some(kind) => {
            assert(rest =~= kind + seq![':'] + value);
            lemma_find_first(rest, ':', 0, kind.len() as int);
            assert(rest.take(kind.len() as int) =~= kind);
            assert(rest.skip(kind.len() as int + 1) =~= value);
            assert(split_up_to(value, ':', 1) == seq![value]);
            assert(split_up_to(rest, ':', 2) =~= seq![kind, value]);
            assert(split_up_to(s, ':', 3) =~= seq![name, kind, value]);
        },
        None => {
            assert(rest =~= value);
            let m = choose|m: int|
                0 <= m <= line.value.len() && value == #[trigger] line.value.take(m);
            lemma_find_from(value, ':', 0);
            assert(split_up_to(rest, ':', 2) =~= seq![value]);
            assert(split_up_to(s, ':', 3) =~= seq![name, value]);
        },
    }
}

proof fn lemma_alike(a: Seq<char>, b: Seq<char>)
    requires
        !passed_over(a),
        !passed_over(b),
        alike(a, b),
    ensures
        line_setting(a) == line_setting(b),
{
    if trimmed(a) != trimmed(b) {
        let (x, y) = choose|x: FileLine, y: FileLine|
            x.wf() && y.wf() && a == #[trigger] x.text() && b == #[trigger] y.text()
                && x.says_as(y);
        lemma_file_line(x);
        lemma_file_line(y);
    }
}

/// Lines that are passed over hold nothing.
proof fn lemma_noted(all: Seq<Seq<char>>)
    ensures
        lines_settings(noted(all)) == lines_settings(all),
        forall|i: int| 0 <= i < noted(all).len() ==> !passed_over(#[trigger] noted(all)[i]),
    decreases all.len(),
{
    if all.len() > 0 {
        let front = all.drop_last();
        lemma_noted(front);
        if !passed_over(all.last()) {
            assert(noted(all).drop_last() =~= noted(front));
            assert forall|i: int| 0 <= i < noted(all).len() implies !passed_over(
                #[trigger] noted(all)[i],
            ) by {
                if i < noted(front).len() {
                    assert(noted(all)[i] == noted(front)[i]);
                }
            }
        }
    }
}

proof fn lemma_same_settings(a: Seq<Seq<char>>, b: Seq<Seq<char>>)
    requires
        a.len() == b.len(),
        forall|i: int| 0 <= i < a.len() ==> line_setting(#[trigger] a[i]) == line_setting(b[i]),
    ensures
        lines_settings(a) == lines_settings(b),
    decreases a.len(),
{
    if a.len() > 0 {
        assert forall|i: int| 0 <= i < a.drop_last().len() implies line_setting(
            #[trigger] a.drop_last()[i],
        ) == line_setting(b.drop_last()[i]) by {
            assert(line_setting(a[i]) == line_setting(b[i]));
        }
        lemma_same_settings(a.drop_last(), b.drop_last());
        assert(line_setting(a[a.len() - 1]) == line_setting(b[a.len() - 1]));
    }
}

/// Blank lines, comments, the case of names, the kinds of values and white space
/// around lines, names and values do not change what a file describes.
pub proof fn layout_does_not_matter(id: Seq<char>, name: Seq<char>, a: Seq<char>, b: Seq<char>)
    requires
        alike_files(a, b),
    ensures
        lines_settings(lines(a)) == lines_settings(lines(b)),
        settings_address(lines_settings(lines(a))) == settings_address(lines_settings(lines(b))),
        settings_profile(id, name, lines_settings(lines(a))) == settings_profile(
            id,
            name,
            lines_settings(lines(b)),
        ),
{
    let left = noted(lines(a));
    let right = noted(lines(b));
    lemma_noted(lines(a));
    lemma_noted(lines(b));
    assert forall|i: int| 0 <= i < left.len() implies line_setting(#[trigger] left[i])
        == line_setting(right[i]) by {
        lemma_alike(left[i], right[i]);
    }
    lemma_same_settings(left, right);
}

/// Text that ends a line has its own lines, whatever follows.
proof fn lemma_lines_split(before: Seq<char>, after: Seq<char>)
    requires
        before.len() > 0 ==> before.last() == '\n',
    ensures
        lines(before + after) == lines(before) + lines(after),
    decreases before.len(),
{
    let all = before + after;
    if before.len() == 0 {
        assert(all =~= after);
        assert(lines(before) + lines(after) =~= lines(after));
    } else {
        lemma_find_from(before, '\n', 0);
        let i = find_from(before, '\n', 0)->0;
        assert(before[before.len() - 1] == '\n');
        assert forall|j: int| 0 <= j < i implies all[j] != '\n' by {
            assert(all[j] == before[j]);
        }
        assert(all[i] == before[i]);
        lemma_find_first(all, '\n', 0, i);
        let rest = before.skip(i + 1);
        assert(all.take(i) =~= before.take(i));
        assert(all.skip(i + 1) =~= rest + after);
        if rest.len() > 0 {
            assert(rest.last() == before.last());
        }
        lemma_lines_split(rest, after);
        let first = seq![without_return(before.take(i))];
        assert(first + (lines(rest) + lines(after)) =~= (first + lines(rest)) + lines(after));
    }
}

proof fn lemma_noted_split(a: Seq<Seq<char>>, b: Seq<Seq<char>>)
    ensures
        noted(a + b) == noted(a) + noted(b),
    decreases b.len(),
{
    if b.len() > 0 {
        assert((a + b).drop_last() =~= a + b.drop_last());
        lemma_noted_split(a, b.drop_last());
        assert(noted(a + b) =~= noted(a) + noted(b));
    } else {
        assert(a + b =~= a);
        assert(noted(a) + noted(b) =~= noted(a));
    }
}

/// A blank line or a comment between two lines makes no other file of it.
pub proof fn inserted_lines_do_not_matter(before: Seq<char>, line: Seq<char>, after: Seq<char>)
    requires
        before.len() > 0 ==> before.last() == '\n',
        forall|i: int| 0 <= i < line.len() ==> line[i] != '\n',
        passed_over(line),
    ensures
        alike_files(before + after, before + line + seq!['\n'] + after),
        lines_settings(lines(before + line + seq!['\n'] + after)) == lines_settings(
            lines(before + after),
        ),
{
    let inserted = line + seq!['\n'];
    let all = before + line + seq!['\n'] + after;
    assert(all =~= before + (inserted + after));
    lemma_lines_split(before, inserted + after);
    lemma_lines_split(inserted, after);
    lemma_lines_split(before, after);
    lemma_find_first(inserted, '\n', 0, line.len() as int);
    assert(inserted.take(line.len() as int) =~= line);
    assert(inserted.skip(line.len() as int + 1) =~= Seq::<char>::empty());
    let read = without_return(line);
    assert(lines(Seq::<char>::empty()) =~= Seq::<Seq<char>>::empty());
    assert(lines(inserted) =~= seq![read]);
    lemma_return_is_white(line);
    assert(seq![read].drop_last() =~= Seq::<Seq<char>>::empty());
    assert(noted(seq![read].drop_last()) =~= Seq::<Seq<char>>::empty());
    assert(noted(lines(inserted)) =~= Seq::<Seq<char>>::empty());
    lemma_noted_split(lines(before), lines(inserted) + lines(after));
    lemma_noted_split(lines(inserted), lines(after));
    lemma_noted_split(lines(before), lines(after));
    assert(noted(lines(inserted)) + noted(lines(after)) =~= noted(lines(after)));
    layout_does_not_matter(Seq::empty(), Seq::empty(), before + after, all);
}

/// A carriage return at its end does not make a line another.
proof fn lemma_return_is_white(line: Seq<char>)
    ensures
        trimmed(without_return(line)) == trimmed(line),
{
    lemma_trimmed_again(line);
    lemma_trimmed_again(without_return(line));
}

/// A host without white space, colons or an opening bracket reads back from an
/// address, whatever the port.
pub proof fn plain_host_reads_back(host: Seq<char>, port: u16)
    requires
        host.len() > 0,
        host[0] != '[',
        forall|i: int| 0 <= i < host.len() ==> #[trigger] host[i] != ':' && !is_white(host[i]),
    ensures
        plain_value(address_text(host, port)),
        address_parts(address_text(host, port)) == (host, port),
{
    let s = address_text(host, port);
    assert(!is_white(host[0]) && !is_white(host[host.len() - 1]));
    decimal_round_trip(port as nat, u16::MAX as nat);
    let digits = decimal(port as nat);
    let n = host.len() as int;
    assert(s[0] == host[0]);
    if port == DEFAULT_PORT {
        lemma_trimmed_fixed(s);
        crate::text::lemma_find_last(s, ':', n);
        assert(one_line(s));
    } else {
        assert(s.last() == digits.last());
        lemma_trimmed_fixed(s);
        assert(s[n] == ':');
        assert forall|j: int| n < j < s.len() implies s[j] != ':' by {
            assert(s[j] == digits[j - n - 1]);
        }
        lemma_find_is_last(s, ':', n, s.len() as int);
        assert(s.skip(n + 1) =~= digits);
        assert(s.take(n) =~= host);
        assert forall|j: int| 0 <= j < s.len() implies s[j] != '\n' by {
            if j < n {
                assert(s[j] == host[j]);
            } else if j > n {
                assert(s[j] == digits[j - n - 1]);
            }
        }
    }
}

} // verus!
