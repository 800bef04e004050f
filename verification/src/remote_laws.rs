//! What listings, commands and files of other computers promise.

use vstd::prelude::*;

use crate::base64_text::{base64, sextet};
use crate::ordering::precedes;
use crate::paths::stripped_end;
use crate::remote::{
    candidate, candidates, last_name, line_entry, line_value, lines_entries, meant, output_number,
    output_value, read_within, reads_at, resolved, unwrapped, whole_part,
};
use crate::shell::{
    list_script, quoted, read_script, resolve_script, write_command, write_head, write_tail,
};
use crate::text::{
    begins_with, decimal, decimal_round_trip, find_from, find_last, lemma_find_first,
    lemma_find_is_last, lines, lowered, parsed, split_up_to, trimmed,
};
use crate::text_laws::{free_of, text_is_split_at_marks};

verus! {

// ---- Listings ---------------------------------------------------------------

/// A line of a listing tells the kind, size, time, name and path of a file, with
/// tabs between them.
pub proof fn listed_lines_are_read(
    kind: Seq<char>,
    size: u64,
    time: Seq<char>,
    name: Seq<char>,
    path: Seq<char>,
)
    requires
        free_of(kind, '\t'),
        free_of(time, '\t'),
        free_of(name, '\t'),
    ensures
        ({
            let line = kind + seq!['\t'] + (decimal(size as nat) + seq!['\t'] + (time + seq!['\t']
                + (name + seq!['\t'] + path)));
            line_entry(line) matches Some(entry) && entry.name == name && entry.path == path
                && entry.size_bytes == size && entry.is_directory == (kind == "d"@ || kind
                == "dir"@) && entry.modified_unix_seconds == (match crate::text::parsed_signed(
                whole_part(time),
            ) {
                Some(n) => n,
                None => 0,
            })
        }),
{
    let number = decimal(size as nat);
    decimal_round_trip(size as nat, u64::MAX as nat);
    assert forall|i: int| 0 <= i < number.len() implies #[trigger] number[i] != '\t' by {
        assert('0' <= number[i] <= '9');
    }
    let d = name + seq!['\t'] + path;
    let c = time + seq!['\t'] + d;
    let b = number + seq!['\t'] + c;
    text_is_split_at_marks(kind, '\t', b, 5);
    text_is_split_at_marks(number, '\t', c, 4);
    text_is_split_at_marks(time, '\t', d, 3);
    text_is_split_at_marks(name, '\t', path, 2);
    let line = kind + seq!['\t'] + b;
    assert(split_up_to(line, '\t', 5) =~= seq![kind, number, time, name, path]);
}

/// Of a time only the whole seconds are read.
pub proof fn fractions_are_dropped(whole: Seq<char>, fraction: Seq<char>)
    requires
        free_of(whole, '.'),
    ensures
        whole_part(whole + seq!['.'] + fraction) == whole,
        whole_part(whole) == whole,
{
    let s = whole + seq!['.'] + fraction;
    let at = whole.len() as int;
    assert forall|j: int| 0 <= j < at implies s[j] != '.' by {
        assert(whole[j] != '.');
    }
    lemma_find_first(s, '.', 0, at);
    assert(s.take(at) =~= whole);
    crate::text::lemma_find_from(whole, '.', 0);
    if let Some(i) = find_from(whole, '.', 0) {
        assert(whole[i] != '.');
    }
}

/// A value is what stands behind its key on the first line that begins with it.
pub proof fn values_stand_behind_keys(
    line: Seq<char>,
    rest: Seq<Seq<char>>,
    key: Seq<char>,
    value: Seq<char>,
)
    ensures
        line_value(seq![key + value] + rest, key) == trimmed(value),
        !begins_with(line, key) ==> line_value(seq![line] + rest, key) == line_value(rest, key),
        line_value(Seq::empty(), key).len() == 0,
{
    let first = key + value;
    assert(first.take(key.len() as int) =~= key);
    assert(first.skip(key.len() as int) =~= value);
    assert((seq![first] + rest).skip(1) =~= rest);
    assert((seq![line] + rest).skip(1) =~= rest);
}

/// A number that is told is read; what is none counts as zero.
pub proof fn told_numbers_are_read(output: Seq<char>, key: Seq<char>, n: u64)
    ensures
        output_value(output, key) == decimal(n as nat) ==> output_number(output, key) == n,
        parsed(output_value(output, key), u64::MAX as nat) is None ==> output_number(output, key)
            == 0,
{
    decimal_round_trip(n as nat, u64::MAX as nat);
}

/// The last name of a path is what follows its last slash, apart from slashes at
/// its end.
pub proof fn paths_end_with_a_name(front: Seq<char>, name: Seq<char>)
    requires
        name.len() > 0,
        free_of(name, '/'),
    ensures
        last_name(front + seq!['/'] + name) == name,
        last_name(name) == name,
        last_name(front + seq!['/'] + name + seq!['/']) == name,
{
    let s = front + seq!['/'] + name;
    assert(name[name.len() - 1] != '/');
    assert(stripped_end(s, '/') == s);
    let at = front.len() as int;
    assert forall|j: int| at < j < s.len() implies s[j] != '/' by {
        assert(name[j - at - 1] != '/');
    }
    lemma_find_is_last(s, '/', at, s.len() as int);
    assert(s.skip(at + 1) =~= name);
    assert(stripped_end(name, '/') == name);
    crate::text::lemma_find_last(name, '/', name.len() as int);
    if let Some(i) = find_last(name, '/', name.len() as int) {
        assert(name[i] != '/');
    }
    let t = s + seq!['/'];
    assert(t.drop_last() =~= s);
}

/// A directory that was found is taken; else the only one whose name begins as
/// asked, else the only one that can be read into the name; else what was asked.
pub proof fn directories_are_resolved(requested: Seq<char>, output: Seq<char>)
    ensures
        ({
            let s = trimmed(output);
            let wanted = lowered(last_name(requested));
            let all = crate::remote::candidates(lines(output));
            let begun = meant(wanted, all, true);
            let read = meant(wanted, all, false);
            &&& s.len() == 0 ==> resolved(requested, output) == requested
            &&& s.len() > 0 && find_from(s, '\t', 0) is None ==> resolved(requested, output)
                == trimmed(lines(s)[0])
            &&& s.len() > 0 && find_from(s, '\t', 0) is Some && wanted.len() > 0 ==> resolved(
                requested,
                output,
            ) == (if begun.len() == 1 {
                begun[0]
            } else if read.len() == 1 {
                read[0]
            } else {
                requested
            })
        }),
{
}

/// A candidate is a name and a path with a tab between them.
pub proof fn candidates_are_read(name: Seq<char>, path: Seq<char>)
    requires
        free_of(name, '\t'),
    ensures
        candidate(name + seq!['\t'] + path) == Some((lowered(name), trimmed(path))),
        candidate(name) is None,
{
    let s = name + seq!['\t'] + path;
    let at = name.len() as int;
    assert forall|j: int| 0 <= j < at implies s[j] != '\t' by {
        assert(name[j] != '\t');
    }
    lemma_find_first(s, '\t', 0, at);
    assert(s.take(at) =~= name);
    assert(s.skip(at + 1) =~= path);
    crate::text::lemma_find_from(name, '\t', 0);
    if let Some(i) = find_from(name, '\t', 0) {
        assert(name[i] != '\t');
    }
}

/// Lines are read in order, and those that tell of no file are passed over.
pub proof fn lines_are_read_in_order(lines: Seq<Seq<char>>, line: Seq<char>)
    ensures
        line_entry(line) matches Some(entry) ==> lines_entries(lines.push(line)) == lines_entries(
            lines,
        ).push(entry),
        line_entry(line) is None ==> lines_entries(lines.push(line)) == lines_entries(lines),
        candidate(line) matches Some(c) ==> candidates(lines.push(line)) == candidates(lines).push(
            c,
        ),
        candidate(line) is None ==> candidates(lines.push(line)) == candidates(lines),
        trimmed(line).len() > 0 ==> unwrapped(lines.push(line)) == unwrapped(lines) + line,
        trimmed(line).len() == 0 ==> unwrapped(lines.push(line)) == unwrapped(lines),
{
    assert(lines.push(line).drop_last() =~= lines);
}

/// The candidates that are meant are those whose names begin with what is wanted,
/// or in which it can be read.
pub proof fn meant_candidates_are_kept(
    wanted: Seq<char>,
    all: Seq<(Seq<char>, Seq<char>)>,
    name: Seq<char>,
    path: Seq<char>,
)
    requires
        wanted.len() > 0,
    ensures
        begins_with(name, wanted) ==> meant(wanted, all.push((name, path)), true) == meant(
            wanted,
            all,
            true,
        ).push(path),
        !begins_with(name, wanted) ==> meant(wanted, all.push((name, path)), true) == meant(
            wanted,
            all,
            true,
        ),
        read_within(wanted, name) ==> meant(wanted, all.push((name, path)), false) == meant(
            wanted,
            all,
            false,
        ).push(path),
        !read_within(wanted, name) ==> meant(wanted, all.push((name, path)), false) == meant(
            wanted,
            all,
            false,
        ),
        meant(wanted, Seq::empty(), true).len() == 0,
        meant(wanted, Seq::empty(), false).len() == 0,
{
    assert(all.push((name, path)).drop_last() =~= all);
}

/// A text that can be read in another stands there, character by character, from
/// left to right.
pub proof fn what_is_read_stands_there(needle: Seq<char>, haystack: Seq<char>) -> (places: Seq<int>)
    requires
        read_within(needle, haystack),
    ensures
        reads_at(needle, haystack, places),
    decreases haystack.len(),
{
    if needle.len() == 0 {
        Seq::empty()
    } else if needle[0] == haystack[0] {
        let rest = what_is_read_stands_there(needle.skip(1), haystack.skip(1));
        let places = Seq::new(needle.len(), |i: int| if i == 0 { 0 } else { rest[i - 1] + 1 });
        assert forall|i: int| 0 <= i < needle.len() implies 0 <= #[trigger] places[i]
            < haystack.len() && haystack[places[i]] == needle[i] by {
            if i > 0 {
                assert(0 <= rest[i - 1] < haystack.skip(1).len());
                assert(haystack.skip(1)[rest[i - 1]] == needle.skip(1)[i - 1]);
            }
        }
        assert forall|i: int, j: int| 0 <= i < j < needle.len() implies places[i] < places[j] by {
            assert(0 <= rest[j - 1]);
            if i > 0 {
                assert(rest[i - 1] < rest[j - 1]);
            }
        }
        places
    } else {
        let rest = what_is_read_stands_there(needle, haystack.skip(1));
        let places = Seq::new(needle.len(), |i: int| rest[i] + 1);
        assert forall|i: int| 0 <= i < needle.len() implies 0 <= #[trigger] places[i]
            < haystack.len() && haystack[places[i]] == needle[i] by {
            assert(0 <= rest[i] < haystack.skip(1).len());
            assert(haystack.skip(1)[rest[i]] == needle[i]);
        }
        assert forall|i: int, j: int| 0 <= i < j < needle.len() implies places[i] < places[j] by {
            assert(rest[i] < rest[j]);
        }
        places
    }
}

/// Texts are ordered by the first character in which they differ, and a text comes
/// before all that go on from it.
pub proof fn first_difference_orders(
    front: Seq<char>,
    a: char,
    b: char,
    s: Seq<char>,
    t: Seq<char>,
)
    requires
        a < b,
    ensures
        precedes(front + seq![a] + s, front + seq![b] + t),
        !precedes(front + seq![b] + t, front + seq![a] + s),
        precedes(front, front + s),
        s.len() > 0 ==> !precedes(front + s, front),
    decreases front.len(),
{
    if front.len() > 0 {
        first_difference_orders(front.skip(1), a, b, s, t);
        assert((front + seq![a] + s).skip(1) =~= front.skip(1) + seq![a] + s);
        assert((front + seq![b] + t).skip(1) =~= front.skip(1) + seq![b] + t);
        assert((front + s).skip(1) =~= front.skip(1) + s);
    }
}

// ---- Bytes as text ----------------------------------------------------------

/// The value that a character stands for: letters, large ones first, digits, the
/// plus sign and the slash.
pub open spec fn stands_for(c: char) -> int {
    let code = c as u32 as int;
    if 65 <= code <= 90 {
        code - 65
    } else if 97 <= code <= 122 {
        code - 71
    } else if 48 <= code <= 57 {
        code + 4
    } else if code == 43 {
        62
    } else if code == 47 {
        63
    } else {
        64
    }
}

/// Three bytes are four characters that stand for the same number, the highest
/// part first.
pub proof fn bytes_come_in_threes(a: u8, b: u8, c: u8, rest: Seq<u8>)
    ensures
        ({
            let s = base64(seq![a, b, c] + rest);
            &&& s.len() == 4 + base64(rest).len()
            &&& s.skip(4) == base64(rest)
            &&& a * 0x1_0000 + b * 0x100 + c == stands_for(s[0]) * 0x4_0000 + stands_for(s[1])
                * 0x1000 + stands_for(s[2]) * 0x40 + stands_for(s[3])
            &&& stands_for(s[0]) < 64 && stands_for(s[1]) < 64 && stands_for(s[2]) < 64
                && stands_for(s[3]) < 64
        }),
{
    let all = seq![a, b, c] + rest;
    let s = base64(all);
    assert(all.skip(3) =~= rest);
    assert(s.skip(4) =~= base64(rest));
    assert(s[0] == sextet(a as int / 4));
    assert(s[1] == sextet(a as int % 4 * 16 + b as int / 16));
    assert(s[2] == sextet(b as int % 16 * 4 + c as int / 64));
    assert(s[3] == sextet(c as int % 64));
    lemma_sextet(a as int / 4);
    lemma_sextet(a as int % 4 * 16 + b as int / 16);
    lemma_sextet(b as int % 16 * 4 + c as int / 64);
    lemma_sextet(c as int % 64);
}

proof fn lemma_sextet(v: int)
    requires
        0 <= v < 64,
    ensures
        stands_for(sextet(v)) == v,
{
}

/// The last one or two bytes are padded to four characters.
pub proof fn last_bytes_are_padded(a: u8, b: u8)
    ensures
        ({
            let s = base64(seq![a]);
            s.len() == 4 && s[2] == '=' && s[3] == '=' && a * 0x10 == stands_for(s[0]) * 0x40
                + stands_for(s[1])
        }),
        ({
            let s = base64(seq![a, b]);
            s.len() == 4 && s[3] == '=' && (a * 0x100 + b) * 4 == stands_for(s[0]) * 0x1000
                + stands_for(s[1]) * 0x40 + stands_for(s[2])
        }),
        base64(Seq::empty()).len() == 0,
{
    lemma_sextet(a as int / 4);
    lemma_sextet(a as int % 4 * 16);
    lemma_sextet(a as int % 4 * 16 + b as int / 16);
    lemma_sextet(b as int % 16 * 4);
}

// ---- Commands ---------------------------------------------------------------

/// Whether a text stands in another.
pub open spec fn holds(s: Seq<char>, part: Seq<char>) -> bool {
    exists|i: int|
        0 <= i && i + part.len() <= s.len() && #[trigger] s.subrange(i, i + part.len()) == part
}

proof fn lemma_holds(s: Seq<char>, part: Seq<char>, i: int)
    requires
        0 <= i,
        i + part.len() <= s.len(),
        forall|k: int| 0 <= k < part.len() ==> s[i + k] == #[trigger] part[k],
    ensures
        holds(s, part),
{
    assert(s.subrange(i, i + part.len()) =~= part);
}

/// A listing prints kind, size, time, name and path of each file in a line, with
/// tabs between them, as they are read.
pub proof fn listings_are_printed_line_by_line()
    ensures
        holds(list_script(), "find \"$p\" -mindepth 1 -maxdepth 1 -printf '%y\\t%s\\t%T@\\t%f\\t%p\\n'"@),
        holds(list_script(), "printf 'd\\t0\\t%s\\t%s\\t%s\\n' \"$modified\" \"$name\" \"$item\""@),
        holds(list_script(), "printf 'f\\t%s\\t%s\\t%s\\t%s\\n' \"$size\" \"$modified\" \"$name\" \"$item\""@),
{
    let s = list_script();
    reveal_strlit("\nif [ -d \"$p\" ]; then\n  if find \"$p\" -mindepth 1 -maxdepth 1 -printf '%y\\t%s\\t%T@\\t%f\\t%p\\n' >/tmp/portix_ls_$$ 2>/dev/null; then\n    cat /tmp/portix_ls_$$\n    rm -f /tmp/portix_ls_$$\n  else\n    rm -f /tmp/portix_ls_$$\n    for item in \"$p\"/.[!.]* \"$p\"/..?* \"$p\"/*; do\n      [ -e \"$item\" ] || continue\n      name=$(basename \"$item\")\n      modified=$(stat -c %Y \"$item\" 2>/dev/null || stat -f %m \"$item\" 2>/dev/null || printf 0)\n      if [ -d \"$item\" ]; then\n        printf 'd\\t0\\t%s\\t%s\\t%s\\n' \"$modified\" \"$name\" \"$item\"\n      else\n        size=$(wc -c < \"$item\" 2>/dev/null || printf 0)\n        printf 'f\\t%s\\t%s\\t%s\\t%s\\n' \"$size\" \"$modified\" \"$name\" \"$item\"\n      fi\n    done\n  fi\nfi\n");
    reveal_strlit("find \"$p\" -mindepth 1 -maxdepth 1 -printf '%y\\t%s\\t%T@\\t%f\\t%p\\n'");
    lemma_holds(s, "find \"$p\" -mindepth 1 -maxdepth 1 -printf '%y\\t%s\\t%T@\\t%f\\t%p\\n'"@, 27);
    reveal_strlit("printf 'd\\t0\\t%s\\t%s\\t%s\\n' \"$modified\" \"$name\" \"$item\"");
    lemma_holds(s, "printf 'd\\t0\\t%s\\t%s\\t%s\\n' \"$modified\" \"$name\" \"$item\""@, 465);
    reveal_strlit("printf 'f\\t%s\\t%s\\t%s\\t%s\\n' \"$size\" \"$modified\" \"$name\" \"$item\"");
    lemma_holds(s, "printf 'f\\t%s\\t%s\\t%s\\t%s\\n' \"$size\" \"$modified\" \"$name\" \"$item\""@, 596);
}

/// The full path of a directory is printed; where there is none, the name and path
/// of each beside it, with a tab between them.
pub proof fn directories_are_printed()
    ensures
        holds(resolve_script(), "(cd \"$p\" 2>/dev/null && pwd -P)"@),
        holds(resolve_script(), "printf '%s\\t%s\\n' \"$(basename \"$item\")\" \"$item\""@),
{
    let s = resolve_script();
    reveal_strlit("\nif [ -d \"$p\" ]; then\n  (cd \"$p\" 2>/dev/null && pwd -P) || printf '%s\\n' \"$p\"\nelse\n  parent=$(dirname \"$p\")\n  for item in \"$parent\"/* \"$parent\"/.[!.]* \"$parent\"/..?*; do\n    [ -d \"$item\" ] || continue\n    printf '%s\\t%s\\n' \"$(basename \"$item\")\" \"$item\"\n  done\nfi\n");
    reveal_strlit("(cd \"$p\" 2>/dev/null && pwd -P)");
    lemma_holds(s, "(cd \"$p\" 2>/dev/null && pwd -P)"@, 24);
    reveal_strlit("printf '%s\\t%s\\n' \"$(basename \"$item\")\" \"$item\"");
    lemma_holds(s, "printf '%s\\t%s\\n' \"$(basename \"$item\")\" \"$item\""@, 205);
}

/// A file is printed as text of 64 characters.
pub proof fn files_are_printed_as_text()
    ensures
        holds(read_script(), "base64 \"$p\"\n"@),
{
    let s = read_script();
    reveal_strlit("\nif [ -f \"$p\" ] && [ -r \"$p\" ]; then\n  if command -v base64 >/dev/null 2>&1; then\n    base64 \"$p\"\n  else\n    openssl base64 -in \"$p\"\n  fi\nfi\n");
    reveal_strlit("base64 \"$p\"\n");
    lemma_holds(s, "base64 \"$p\"\n"@, 86);
}

/// What is written begins behind the line that names the mark.
pub proof fn contents_begin_behind_a_mark()
    ensures
        write_head().skip(write_head().len() - 38) == "cat > \"$p\".portix.b64 <<'PORTIX_FILE'\n"@,
{
    let s = write_head();
    reveal_strlit("\nmkdir -p \"$(dirname \"$p\")\"\ncat > \"$p\".portix.b64 <<'PORTIX_FILE'\n");
    reveal_strlit("cat > \"$p\".portix.b64 <<'PORTIX_FILE'\n");
    assert(s.skip(s.len() - 38) =~= "cat > \"$p\".portix.b64 <<'PORTIX_FILE'\n"@);
}

/// What is written ends before a line that is the mark, and is turned back into
/// bytes.
pub proof fn contents_end_before_the_mark()
    ensures
        begins_with(write_tail(), "\nPORTIX_FILE\n"@),
        holds(write_tail(), "base64 -d \"$p\".portix.b64 > \"$p\""@),
{
    let s = write_tail();
    reveal_strlit("\nPORTIX_FILE\nif command -v base64 >/dev/null 2>&1; then\n  base64 -d \"$p\".portix.b64 > \"$p\" 2>/dev/null || base64 --decode \"$p\".portix.b64 > \"$p\"\nelse\n  openssl base64 -d -in \"$p\".portix.b64 -out \"$p\"\nfi\nrm -f \"$p\".portix.b64\n");
    reveal_strlit("\nPORTIX_FILE\n");
    assert(s.take(13) =~= "\nPORTIX_FILE\n"@);
    reveal_strlit("base64 -d \"$p\".portix.b64 > \"$p\"");
    lemma_holds(s, "base64 -d \"$p\".portix.b64 > \"$p\""@, 58);
}

/// A command that writes names the path first, then gives the bytes as text of 64
/// characters.
pub proof fn writing_gives_the_bytes(path: Seq<char>, data: Seq<u8>)
    ensures
        write_command(path, data) == seq!['p', '='] + quoted(path) + write_head() + base64(data)
            + write_tail(),
{
    reveal_strlit("p=");
    assert("p="@ =~= seq!['p', '=']);
}

} // verus!
