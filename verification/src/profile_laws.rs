//! What profiles, terminals, commands and counts promise.

use vstd::prelude::*;
use vstd::utf8::encode_utf8;

use crate::bitmap::BitmapView;
use crate::profile::{
    address_parts, address_text, joined, known_key, line_setting, lines_settings, other_settings,
    setting_line, settings_address, settings_profile, user_and_domain, with_shell, ProfileView,
};
use crate::settings::{lookup, Entries};
use crate::shell::{chmod_text, mode_fault, quoted, single_quoted, with_path};
use crate::ssh::{expanded, terminal_size};
use crate::stats::{raised, sample_text, StatsView};
use crate::text::{
    decimal, decimal_round_trip, find_from, is_white, lemma_find_first, lemma_find_is_last,
    lemma_trimmed_fixed, lowered, parsed, split_up_to, trimmed,
};
use crate::text_laws::{free_of, text_is_split_at_marks};

verus! {

// ---- Profiles ---------------------------------------------------------------

/// A profile needs an id, a host, a port and a size; the first that is missing is
/// named, and one that has all of them is valid.
pub proof fn missing_parts_are_named(profile: ProfileView)
    ensures
        ({
            let id = trimmed(profile.id).len() > 0;
            let host = trimmed(profile.host).len() > 0;
            let port = profile.port > 0;
            let size = profile.width > 0 && profile.height > 0;
            &&& (profile.fault() is None) == (id && host && port && size)
            &&& !id ==> profile.fault() == Some("profile id is required"@)
            &&& id && !host ==> profile.fault() == Some("host is required"@)
            &&& id && host && !port ==> profile.fault() == Some("port must be greater than 0"@)
            &&& id && host && port && !size ==> profile.fault() == Some(
                "desktop size must be greater than 0"@,
            )
        }),
{
}

/// An address in brackets is what stands between them; a port may follow, else it
/// is the usual one.
pub proof fn bracketed_addresses_are_read(host: Seq<char>, port: u16)
    requires
        free_of(host, ']'),
    ensures
        address_parts(seq!['['] + host + seq![']']) == (host, 3389u16),
        address_parts(seq!['['] + host + seq![']', ':'] + decimal(port as nat)) == (host, port),
{
    let s = seq!['['] + host + seq![']'];
    let end = host.len() as int + 1;
    assert forall|j: int| 0 <= j < end implies s[j] != ']' by {
        if j > 0 {
            assert(host[j - 1] != ']');
        }
    }
    lemma_find_first(s, ']', 0, end);
    assert(!is_white('[') && !is_white(']'));
    lemma_trimmed_fixed(s);
    assert(s.subrange(1, end) =~= host);
    assert(s.skip(end + 1) =~= Seq::<char>::empty());
    let number = decimal(port as nat);
    let t = seq!['['] + host + seq![']', ':'] + number;
    assert forall|j: int| 0 <= j < end implies t[j] != ']' by {
        if j > 0 {
            assert(host[j - 1] != ']');
        }
    }
    lemma_find_first(t, ']', 0, end);
    decimal_round_trip(port as nat, u16::MAX as nat);
    assert(t.last() == number.last());
    assert('0' <= number[number.len() - 1] <= '9');
    lemma_trimmed_fixed(t);
    assert(t.subrange(1, end) =~= host);
    let after = t.skip(end + 1);
    assert(after =~= seq![':'] + number);
    assert(after.skip(1) =~= number);
}

/// Without a port an address has the usual one, and with that one it is written
/// without.
pub proof fn usual_port_is_not_written(host: Seq<char>, port: u16)
    requires
        host.len() > 0,
        host[0] != '[',
        forall|i: int| 0 <= i < host.len() ==> #[trigger] host[i] != ':' && !is_white(host[i]),
    ensures
        address_parts(host) == (host, 3389u16),
        address_text(host, 3389) == host,
        port != 3389 ==> address_text(host, port) == host + seq![':'] + decimal(port as nat),
        address_parts(host + seq![':'] + decimal(port as nat)) == (host, port),
{
    crate::profile::plain_host_reads_back(host, 3389);
    crate::profile::plain_host_reads_back(host, port);
    if port == 3389 {
        let number = decimal(port as nat);
        let s = host + seq![':'] + number;
        decimal_round_trip(port as nat, u16::MAX as nat);
        let colon = host.len() as int;
        assert forall|j: int| colon < j < s.len() implies s[j] != ':' by {
            assert('0' <= number[j - colon - 1] <= '9');
        }
        lemma_find_is_last(s, ':', colon, s.len() as int);
        assert(s.skip(colon + 1) =~= number);
        assert(s.take(colon) =~= host);
        assert(!is_white(host[0]) && host[0] != '[');
        assert('0' <= number[number.len() - 1] <= '9');
        assert(s.last() == number.last());
        lemma_trimmed_fixed(s);
    }
}

/// A user may be written with the domain before it and a backslash between; else
/// the domain is a setting of its own.
pub proof fn domains_stand_before_users(
    entries: Entries,
    domain: Seq<char>,
    user: Seq<char>,
    name: Seq<char>,
)
    requires
        free_of(domain, '\\'),
        free_of(name, '\\'),
    ensures
        lookup(entries, "username"@) == Some(domain + seq!['\\'] + user) ==> user_and_domain(
            entries,
        ) == (
            user,
            if domain.len() > 0 {
                Some(domain)
            } else {
                None
            },
        ),
        lookup(entries, "username"@) == Some(name) ==> user_and_domain(entries).0 == name && (
        match lookup(entries, "domain"@) {
            Some(text) => user_and_domain(entries).1 == (if text.len() > 0 {
                Some(text)
            } else {
                None
            }),
            None => user_and_domain(entries).1 is None,
        }),
        lookup(entries, "username"@) is None ==> user_and_domain(entries).0.len() == 0,
{
    let s = domain + seq!['\\'] + user;
    let at = domain.len() as int;
    assert forall|j: int| 0 <= j < at implies s[j] != '\\' by {
        assert(domain[j] != '\\');
    }
    lemma_find_first(s, '\\', 0, at);
    assert(s.take(at) =~= domain);
    assert(s.skip(at + 1) =~= user);
    crate::text::lemma_find_from(name, '\\', 0);
    if let Some(i) = find_from(name, '\\', 0) {
        assert(name[i] != '\\');
    }
}

/// Each field of a profile is read from the setting with its name; sizes that are
/// not set are those of a common screen. A password is never read.
pub proof fn settings_become_fields(id: Seq<char>, name: Seq<char>, entries: Entries, n: u16)
    ensures
        ({
            let profile = settings_profile(id, name, entries);
            &&& profile.id == id
            &&& profile.name == name
            &&& profile.password is None
            &&& profile.extra == with_shell(other_settings(entries))
            &&& (profile.host, profile.port) == settings_address(entries)
            &&& (profile.username, profile.domain) == user_and_domain(entries)
            &&& lookup(entries, "desktopwidth"@) == Some(decimal(n as nat)) ==> profile.width == n
            &&& lookup(entries, "desktopwidth"@) is None ==> profile.width == 1920
            &&& lookup(entries, "desktopwidth"@) matches Some(text) ==> (parsed(
                text,
                u16::MAX as nat,
            ) is None ==> profile.width == 1920)
            &&& lookup(entries, "desktopheight"@) == Some(decimal(n as nat)) ==> profile.height == n
            &&& lookup(entries, "desktopheight"@) is None ==> profile.height == 1080
            &&& lookup(entries, "desktopheight"@) matches Some(text) ==> (parsed(
                text,
                u16::MAX as nat,
            ) is None ==> profile.height == 1080)
            &&& lookup(entries, "screen mode id"@) is None ==> profile.screen_mode == 1
            &&& n < 256 && lookup(entries, "screen mode id"@) == Some(decimal(n as nat))
                ==> profile.screen_mode == n
        }),
{
    decimal_round_trip(n as nat, u16::MAX as nat);
    if n < 256 {
        decimal_round_trip(n as nat, u8::MAX as nat);
    }
}

/// A port that is a setting of its own comes before the one in the address; the
/// name of the address may be written with a low line.
pub proof fn port_setting_comes_first(entries: Entries, host: Seq<char>, port: u16)
    requires
        lookup(entries, "full address"@) == Some(host) || (lookup(entries, "full address"@) is None
            && lookup(entries, "full_address"@) == Some(host)),
    ensures
        settings_address(entries).0 == address_parts(host).0,
        lookup(entries, "port"@) == Some(decimal(port as nat)) ==> settings_address(entries).1
            == port,
        lookup(entries, "port"@) is None ==> settings_address(entries).1 == address_parts(host).1,
{
    decimal_round_trip(port as nat, u16::MAX as nat);
}

/// A program that is named stands in for a shell that is not.
pub proof fn programs_stand_in_for_shells(entries: Entries)
    ensures
        ({
            let next = with_shell(entries);
            &&& lookup(entries, "alternate shell"@) is Some ==> next == entries
            &&& lookup(entries, "remoteapplicationprogram"@) is None ==> next == entries
            &&& lookup(entries, "alternate shell"@) is None ==> (lookup(
                entries,
                "remoteapplicationprogram"@,
            ) matches Some(program) ==> lookup(next, "alternate shell"@) == Some(program))
        }),
{
    if let Some(program) = lookup(entries, "remoteapplicationprogram"@) {
        crate::settings::put_then_lookup(
            entries,
            "alternate shell"@,
            program,
            "alternate shell"@,
        );
    }
}

/// A line of a file is a name, a kind and a value with colons between them; the
/// name is read in small letters, and white space round each does not count.
pub proof fn lines_are_settings(name: Seq<char>, kind: Seq<char>, value: Seq<char>)
    requires
        free_of(name, ':'),
        free_of(kind, ':'),
        name.len() > 0,
        !is_white(name[0]),
        name[0] != '#' && name[0] != ';',
        value.len() > 0,
        !is_white(value.last()),
    ensures
        line_setting(name + seq![':'] + kind + seq![':'] + value) == Some(
            (lowered(trimmed(name)), trimmed(value)),
        ),
{
    let s = name + seq![':'] + kind + seq![':'] + value;
    let rest = kind + seq![':'] + value;
    assert(s =~= name + seq![':'] + rest);
    assert(s[0] == name[0] && s.last() == value.last());
    lemma_trimmed_fixed(s);
    text_is_split_at_marks(name, ':', rest, 3);
    text_is_split_at_marks(kind, ':', value, 2);
    assert(split_up_to(value, ':', 1) == seq![value]);
    let parts = split_up_to(s, ':', 3);
    assert(parts =~= seq![name, kind, value]);
}

/// Empty lines and those that begin with a number sign or a semicolon say nothing.
pub proof fn comments_say_nothing(line: Seq<char>)
    ensures
        trimmed(line).len() == 0 ==> line_setting(line) is None,
        trimmed(line).len() > 0 && (trimmed(line)[0] == '#' || trimmed(line)[0] == ';')
            ==> line_setting(line) is None,
{
}

/// Settings are read line by line; a later one replaces an earlier of its name.
pub proof fn later_lines_replace_earlier(
    lines: Seq<Seq<char>>,
    line: Seq<char>,
    key: Seq<char>,
    value: Seq<char>,
)
    ensures
        line_setting(line) == Some((key, value)) ==> lookup(
            lines_settings(lines.push(line)),
            key,
        ) == Some(value),
        line_setting(line) is None ==> lines_settings(lines.push(line)) == lines_settings(lines),
{
    assert(lines.push(line).drop_last() =~= lines);
    crate::settings::put_then_lookup(lines_settings(lines), key, value, key);
}

/// Eight settings have fields of their own; the others are kept as they are, in
/// order.
pub proof fn other_settings_are_kept(entries: Entries, key: Seq<char>, value: Seq<char>)
    ensures
        known_key(key) ==> other_settings(entries.push((key, value))) == other_settings(entries),
        !known_key(key) ==> other_settings(entries.push((key, value))) == other_settings(
            entries,
        ).push((key, value)),
        known_key("full address"@) && known_key("full_address"@) && known_key("port"@) && known_key(
            "username"@,
        ) && known_key("domain"@) && known_key("desktopwidth"@) && known_key("desktopheight"@)
            && known_key("screen mode id"@),
{
    assert(entries.push((key, value)).drop_last() =~= entries);
}

/// A file is written line by line, with a carriage return and a line feed between
/// two lines: the address, user and domain where there are any, and the sizes,
/// each under its name.
pub proof fn files_are_written_line_by_line(
    lines: Seq<Seq<char>>,
    line: Seq<char>,
    profile: ProfileView,
)
    requires
        lines.len() > 0,
    ensures
        joined(lines.push(line)) == joined(lines) + seq!['\r', '\n'] + line,
        joined(seq![line]) == line,
        setting_line(line, 's', line) == line + seq![':', 's', ':'] + line,
        ({
            let head = profile.head_lines();
            let n = head.len() as int;
            &&& head[0] == "full address"@ + seq![':', 's', ':'] + address_text(
                profile.host,
                profile.port,
            )
            &&& profile.username.len() > 0 ==> head[1] == "username"@ + seq![':', 's', ':']
                + profile.username
            &&& head[n - 3] == "desktopwidth"@ + seq![':', 'i', ':'] + decimal(
                profile.width as nat,
            )
            &&& head[n - 2] == "desktopheight"@ + seq![':', 'i', ':'] + decimal(
                profile.height as nat,
            )
            &&& head[n - 1] == "screen mode id"@ + seq![':', 'i', ':'] + decimal(
                profile.screen_mode as nat,
            )
            &&& profile.domain matches Some(domain) ==> (domain.len() > 0 ==> head[n - 4]
                == "domain"@ + seq![':', 's', ':'] + domain)
            &&& n == 4 + (if profile.username.len() > 0 { 1int } else { 0 }) + (
            if profile.domain matches Some(domain) && domain.len() > 0 { 1int } else { 0 })
        }),
{
    assert(lines.push(line).drop_last() =~= lines);
}

// ---- Terminals and paths ----------------------------------------------------

/// A terminal is at least 20 by 5 and at most 512 by 256; between these it has the
/// size that was asked for.
pub proof fn terminals_have_the_size_asked(cols: u32, rows: u32)
    ensures
        20 <= cols <= 512 ==> terminal_size(cols, rows).0 == cols,
        5 <= rows <= 256 ==> terminal_size(cols, rows).1 == rows,
        cols < 20 ==> terminal_size(cols, rows).0 == 20,
        cols > 512 ==> terminal_size(cols, rows).0 == 512,
        rows < 5 ==> terminal_size(cols, rows).1 == 5,
        rows > 256 ==> terminal_size(cols, rows).1 == 256,
{
}

/// A tilde stands for the home directory, alone or before a slash; other paths,
/// and all paths where there is no home, are taken as they are.
pub proof fn tildes_stand_for_home(home: Seq<char>, rest: Seq<char>, path: Seq<char>)
    requires
        home.len() > 0,
        home.last() != '/',
        rest.len() > 0,
        rest[0] != '/',
    ensures
        expanded(seq!['~'], Some(home)) == home,
        expanded(seq!['~', '/'] + rest, Some(home)) == home + seq!['/'] + rest,
        expanded(path, None) == path,
        path.len() > 0 && path[0] != '~' ==> expanded(path, Some(home)) == path,
        path.len() > 1 && path[1] != '/' ==> expanded(path, Some(home)) == path,
{
    let s = seq!['~', '/'] + rest;
    assert(s.take(2) =~= seq!['~', '/']);
    assert(s.skip(2) =~= rest);
    if path.len() > 1 {
        assert(path.take(2)[0] == path[0] && path.take(2)[1] == path[1]);
    }
    if path.len() > 0 && path[0] != '~' {
        assert(seq!['~'][0] == '~');
    }
}

// ---- Commands ---------------------------------------------------------------

/// A mode is three or four octal digits.
pub proof fn modes_are_octal(mode: Seq<char>)
    ensures
        ({
            let s = trimmed(mode);
            let digits = forall|i: int| 0 <= i < s.len() ==> '0' <= #[trigger] s[i] && s[i] <= '7';
            let size = encode_utf8(s).len();
            (mode_fault(mode) is None) == ((size == 3 || size == 4) && digits)
        }),
{
}

/// A path stands in a command quoted, between what is to be done and the rest.
pub proof fn paths_are_quoted_in_commands(
    before: Seq<char>,
    path: Seq<char>,
    after: Seq<char>,
    mode: Seq<char>,
)
    ensures
        with_path(before, path, after) == before + quoted(path) + after,
        chmod_text(path, mode) == "chmod "@ + mode + " "@ + quoted(path) + "\n"@,
        trimmed(path).len() > 0 && path != "~"@ && path != "."@ ==> quoted(path) == single_quoted(
            path,
        ),
        quoted("~"@) == "\"$HOME\""@,
{
}

// ---- Counts -----------------------------------------------------------------

/// Counts are reported once a second where that is switched on, from the first
/// tick on, and then begin anew; at most eight samples are kept.
pub proof fn counts_are_reported_each_second(stats: StatsView, now: u64, update: BitmapView)
    ensures
        ({
            let next = stats.ticked(now);
            &&& !stats.enabled ==> !stats.due(now) && next == stats
            &&& stats.enabled && stats.last_log is None ==> !stats.due(now) && next == (StatsView {
                last_log: Some(now),
                ..stats
            })
            &&& stats.enabled ==> (stats.last_log matches Some(last) ==> stats.due(now) == (now
                - last >= 1_000_000_000))
            &&& stats.due(now) ==> next.enabled && next.last_log == Some(now)
                && next.counters.pdus == 0 && next.counters.read_bytes == 0 && next.samples.len()
                == 0
            &&& stats.enabled && stats.last_log is Some && !stats.due(now) ==> next == stats
        }),
        ({
            let next = stats.mismatched(update);
            &&& next.counters.size_mismatch == crate::stats::bumped(stats.counters.size_mismatch)
            &&& next.samples.len() == (if stats.enabled && stats.samples.len() < 8 {
                stats.samples.len() + 1
            } else {
                stats.samples.len()
            })
            &&& next.samples.take(stats.samples.len() as int) == stats.samples
            &&& stats.enabled && stats.samples.len() < 8 ==> next.samples.last() == sample_text(
                update,
            )
        }),
{
    assert(stats.mismatched(update).samples.take(stats.samples.len() as int) =~= stats.samples);
}

/// A sample tells place, size, size of the bitmap, depth, whether it is compressed
/// and the number of its bytes.
pub proof fn samples_tell_sizes(update: BitmapView)
    ensures
        sample_text(update) == seq!['@'] + decimal(update.x as nat) + seq![','] + decimal(
            update.y as nat,
        ) + " dst="@ + decimal(update.width as nat) + seq!['x'] + decimal(update.height as nat)
            + " bmp="@ + decimal(update.bmp_width as nat) + seq!['x'] + decimal(
            update.bmp_height as nat,
        ) + " bpp="@ + decimal(update.bpp as nat) + " comp="@ + (if update.compressed {
            "true"@
        } else {
            "false"@
        }) + " len="@ + decimal(update.data.len()),
{
    reveal_strlit("@");
    reveal_strlit(",");
    reveal_strlit("x");
    assert("@"@ =~= seq!['@']);
    assert(","@ =~= seq![',']);
    assert("x"@ =~= seq!['x']);
}

/// Counts add up, and begin again at zero where they are full.
pub proof fn counts_add_up(count: usize, by: usize)
    ensures
        count + by <= usize::MAX ==> raised(count, by) == count + by,
        count + by > usize::MAX ==> raised(count, by) == count + by - (usize::MAX + 1),
{
}

} // verus!
