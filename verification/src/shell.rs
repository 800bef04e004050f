//! Commands for the shell of a remote host.

use vstd::prelude::*;
use vstd::utf8::encode_utf8;

use crate::base64_text::{base64, encode_base64};
use crate::errors::PortixError;
use crate::profile::refused_with;
use crate::text::{chars_of, push_chars, replace, replaced, same_text, text_of, trim, trimmed};

verus! {

// ---- Quoting ----------------------------------------------------------------

/// `value` between single quotes; each quote in it closes them, stands between
/// double quotes, and opens them again.
pub open spec fn single_quoted(value: Seq<char>) -> Seq<char> {
    seq!['\''] + replaced(value, '\'', seq!['\'', '"', '\'', '"', '\'']) + seq!['\'']
}

/// `value` as one word for the shell. Nothing, and `~`, stand for the home
/// directory.
pub open spec fn quoted(value: Seq<char>) -> Seq<char> {
    if trimmed(value).len() == 0 || value == "~"@ {
        "\"$HOME\""@
    } else if value == "."@ {
        "\".\""@
    } else {
        single_quoted(value)
    }
}

/// Where the shell stands between quotes.
pub enum Quote {
    Bare,
    Single,
    Double,
}

/// The word that the shell makes of quoted text; none where a character stands
/// outside quotes, or means something between double quotes, or where quotes
/// are left open.
pub open spec fn shell_word(s: Seq<char>, quote: Quote) -> Option<Seq<char>>
    decreases s.len(),
{
    if s.len() == 0 {
        if quote is Bare {
            Some(Seq::empty())
        } else {
            None
        }
    } else {
        let c = s[0];
        let rest = s.skip(1);
        match quote {
            Quote::Bare => if c == '\'' {
                shell_word(rest, Quote::Single)
            } else if c == '"' {
                shell_word(rest, Quote::Double)
            } else {
                None
            },
            Quote::Single => if c == '\'' {
                shell_word(rest, Quote::Bare)
            } else {
                match shell_word(rest, Quote::Single) {
                    Some(word) => Some(seq![c] + word),
                    None => None,
                }
            },
            Quote::Double => if c == '"' {
                shell_word(rest, Quote::Bare)
            } else if c == '$' || c == '`' || c == '\\' {
                None
            } else {
                match shell_word(rest, Quote::Double) {
                    Some(word) => Some(seq![c] + word),
                    None => None,
                }
            },
        }
    }
}

proof fn lemma_replaced_front(s: Seq<char>, c: char, by: Seq<char>)
    requires
        s.len() > 0,
    ensures
        replaced(s, c, by) == (if s[0] == c {
            by
        } else {
            seq![s[0]]
        }) + replaced(s.skip(1), c, by),
    decreases s.len(),
{
    let first = if s[0] == c {
        by
    } else {
        seq![s[0]]
    };
    let rest = s.skip(1);
    if s.len() == 1 {
        assert(s.drop_last() =~= Seq::<char>::empty());
        assert(rest =~= Seq::<char>::empty());
        assert(replaced(s, c, by) =~= first + replaced(rest, c, by));
    } else {
        lemma_replaced_front(s.drop_last(), c, by);
        assert(s.drop_last().skip(1) =~= rest.drop_last());
        assert(replaced(s, c, by) =~= first + replaced(rest, c, by));
    }
}

proof fn lemma_inside_quotes(value: Seq<char>)
    ensures
        shell_word(
            replaced(value, '\'', seq!['\'', '"', '\'', '"', '\'']) + seq!['\''],
            Quote::Single,
        ) == Some(value),
    decreases value.len(),
{
    let by = seq!['\'', '"', '\'', '"', '\''];
    let whole = replaced(value, '\'', by) + seq!['\''];
    reveal_with_fuel(shell_word, 7);
    if value.len() == 0 {
        assert(whole =~= seq!['\'']);
        assert(whole.skip(1) =~= Seq::<char>::empty());
        assert(value =~= Seq::<char>::empty());
    } else {
        let rest = value.skip(1);
        let tail = replaced(rest, '\'', by) + seq!['\''];
        lemma_replaced_front(value, '\'', by);
        lemma_inside_quotes(rest);
        assert(seq![value[0]] + rest =~= value);
        if value[0] == '\'' {
            assert(whole =~= by + tail);
            assert(whole.skip(1).skip(1).skip(1).skip(1).skip(1) =~= tail);
            let a = whole.skip(1);
            let b = a.skip(1);
            let d = b.skip(1);
            let e = d.skip(1);
            assert(whole[0] == '\'' && a[0] == '"' && b[0] == '\'' && d[0] == '"' && e[0] == '\'');
            assert(e.skip(1) =~= tail);
            assert(shell_word(e, Quote::Bare) == shell_word(tail, Quote::Single));
            assert(shell_word(d, Quote::Double) == shell_word(e, Quote::Bare));
            assert(shell_word(b, Quote::Double) == Some(seq!['\''] + rest));
            assert(shell_word(a, Quote::Bare) == shell_word(b, Quote::Double));
        } else {
            assert(whole =~= seq![value[0]] + tail);
            assert(whole.skip(1) =~= tail);
        }
    }
}

/// Whatever text is quoted, the shell reads it as one word with that text,
/// unless it stands for the home directory.
pub proof fn quoting_keeps_text(value: Seq<char>)
    requires
        trimmed(value).len() > 0,
        value != "~"@,
    ensures
        shell_word(quoted(value), Quote::Bare) == Some(value),
{
    let whole = quoted(value);
    if value == "."@ {
        reveal_strlit(".");
        reveal_strlit("\".\"");
        reveal_with_fuel(shell_word, 4);
        assert(whole =~= seq!['"', '.', '"']);
        assert(whole.skip(1) =~= seq!['.', '"']);
        assert(whole.skip(1).skip(1) =~= seq!['"']);
        assert(whole.skip(1).skip(1).skip(1) =~= Seq::<char>::empty());
        assert(seq!['.'] + Seq::<char>::empty() =~= value);
    } else {
        let by = seq!['\'', '"', '\'', '"', '\''];
        lemma_inside_quotes(value);
        assert(whole.skip(1) =~= replaced(value, '\'', by) + seq!['\'']);
    }
}

/// `value` as one word for the shell.
pub fn shell_quote(value: &str) -> (res: String)
    ensures
        res@ == quoted(value@),
{
    let chars = chars_of(value);
    let s = chars.as_slice();
    if trim(s).len() == 0 || same_text(s, "~") {
        return "\"$HOME\"".to_owned();
    }
    if same_text(s, ".") {
        return "\".\"".to_owned();
    }
    let body = replace(s, '\'', &['\'', '"', '\'', '"', '\'']);
    let mut res = String::new();
    res.push('\'');
    push_chars(&mut res, body.as_slice());
    res.push('\'');
    assert(res@ =~= single_quoted(value@));
    res
}

// ---- Commands ---------------------------------------------------------------

/// `before`, the word for `path`, and `after`.
pub open spec fn with_path(before: Seq<char>, path: Seq<char>, after: Seq<char>) -> Seq<char> {
    before + quoted(path) + after
}

fn around_path(before: &str, path: &str, after: &str) -> (command: String)
    ensures
        command@ == with_path(before@, path@, after@),
{
    let mut command = before.to_owned();
    let word = shell_quote(path);
    command.append(word.as_str());
    command.append(after);
    command
}

/// Prints what is known of the host, one `NAME=value` in a line.
pub open spec fn system_script() -> Seq<char> {
    "if [ -r /etc/redhat-release ]; then\n  os=\"$(cat /etc/redhat-release 2>/dev/null)\"\nelse\n  os=\"$(uname -srm 2>/dev/null)\"\nfi\nprintf 'OS=%s\\n' \"$os\"\nprintf 'HOST=%s\\n' \"$(hostname 2>/dev/null)\"\nprintf 'UPTIME=%s\\n' \"$(uptime 2>/dev/null)\"\nawk '\n  /MemTotal:/ {total=$2 * 1024}\n  /MemFree:/ {mem_free=$2 * 1024}\n  /Buffers:/ {buffers=$2 * 1024}\n  /^Cached:/ {cached=$2 * 1024}\n  /MemAvailable:/ {available=$2 * 1024}\n  END {\n    if (available == 0) available = mem_free + buffers + cached\n    used = total - available\n    if (used < 0) used = 0\n    printf \"MEM=%s / %s\\n\", human(used), human(total)\n    printf \"MEM_USED_BYTES=%.0f\\nMEM_FREE_BYTES=%.0f\\nMEM_TOTAL_BYTES=%.0f\\n\", used, available, total\n  }\n  function human(bytes, value, unit) {\n    value = bytes\n    unit = \"B\"\n    if (value >= 1024) { value = value / 1024; unit = \"KB\" }\n    if (value >= 1024) { value = value / 1024; unit = \"MB\" }\n    if (value >= 1024) { value = value / 1024; unit = \"GB\" }\n    return sprintf(\"%.1f %s\", value, unit)\n  }\n' /proc/meminfo 2>/dev/null\ndf -P -k / 2>/dev/null | awk '\n  NR==2 {\n    total=$2 * 1024\n    used=$3 * 1024\n    free=$4 * 1024\n    printf \"DISK=%s free / %s\\n\", human(free), human(total)\n    printf \"DISK_USED_BYTES=%.0f\\nDISK_FREE_BYTES=%.0f\\nDISK_TOTAL_BYTES=%.0f\\n\", used, free, total\n  }\n  function human(bytes, value, unit) {\n    value = bytes\n    unit = \"B\"\n    if (value >= 1024) { value = value / 1024; unit = \"KB\" }\n    if (value >= 1024) { value = value / 1024; unit = \"MB\" }\n    if (value >= 1024) { value = value / 1024; unit = \"GB\" }\n    return sprintf(\"%.1f %s\", value, unit)\n  }\n'\ntrue\n"@
}

/// Prints what is known of the host.
pub fn remote_system_command() -> (command: String)
    ensures
        command@ == system_script(),
{
    "if [ -r /etc/redhat-release ]; then\n  os=\"$(cat /etc/redhat-release 2>/dev/null)\"\nelse\n  os=\"$(uname -srm 2>/dev/null)\"\nfi\nprintf 'OS=%s\\n' \"$os\"\nprintf 'HOST=%s\\n' \"$(hostname 2>/dev/null)\"\nprintf 'UPTIME=%s\\n' \"$(uptime 2>/dev/null)\"\nawk '\n  /MemTotal:/ {total=$2 * 1024}\n  /MemFree:/ {mem_free=$2 * 1024}\n  /Buffers:/ {buffers=$2 * 1024}\n  /^Cached:/ {cached=$2 * 1024}\n  /MemAvailable:/ {available=$2 * 1024}\n  END {\n    if (available == 0) available = mem_free + buffers + cached\n    used = total - available\n    if (used < 0) used = 0\n    printf \"MEM=%s / %s\\n\", human(used), human(total)\n    printf \"MEM_USED_BYTES=%.0f\\nMEM_FREE_BYTES=%.0f\\nMEM_TOTAL_BYTES=%.0f\\n\", used, available, total\n  }\n  function human(bytes, value, unit) {\n    value = bytes\n    unit = \"B\"\n    if (value >= 1024) { value = value / 1024; unit = \"KB\" }\n    if (value >= 1024) { value = value / 1024; unit = \"MB\" }\n    if (value >= 1024) { value = value / 1024; unit = \"GB\" }\n    return sprintf(\"%.1f %s\", value, unit)\n  }\n' /proc/meminfo 2>/dev/null\ndf -P -k / 2>/dev/null | awk '\n  NR==2 {\n    total=$2 * 1024\n    used=$3 * 1024\n    free=$4 * 1024\n    printf \"DISK=%s free / %s\\n\", human(free), human(total)\n    printf \"DISK_USED_BYTES=%.0f\\nDISK_FREE_BYTES=%.0f\\nDISK_TOTAL_BYTES=%.0f\\n\", used, free, total\n  }\n  function human(bytes, value, unit) {\n    value = bytes\n    unit = \"B\"\n    if (value >= 1024) { value = value / 1024; unit = \"KB\" }\n    if (value >= 1024) { value = value / 1024; unit = \"MB\" }\n    if (value >= 1024) { value = value / 1024; unit = \"GB\" }\n    return sprintf(\"%.1f %s\", value, unit)\n  }\n'\ntrue\n".to_owned()
}

/// Lists a directory: kind, size, time, name and path of each entry.
pub open spec fn list_script() -> Seq<char> {
    "\nif [ -d \"$p\" ]; then\n  if find \"$p\" -mindepth 1 -maxdepth 1 -printf '%y\\t%s\\t%T@\\t%f\\t%p\\n' >/tmp/portix_ls_$$ 2>/dev/null; then\n    cat /tmp/portix_ls_$$\n    rm -f /tmp/portix_ls_$$\n  else\n    rm -f /tmp/portix_ls_$$\n    for item in \"$p\"/.[!.]* \"$p\"/..?* \"$p\"/*; do\n      [ -e \"$item\" ] || continue\n      name=$(basename \"$item\")\n      modified=$(stat -c %Y \"$item\" 2>/dev/null || stat -f %m \"$item\" 2>/dev/null || printf 0)\n      if [ -d \"$item\" ]; then\n        printf 'd\\t0\\t%s\\t%s\\t%s\\n' \"$modified\" \"$name\" \"$item\"\n      else\n        size=$(wc -c < \"$item\" 2>/dev/null || printf 0)\n        printf 'f\\t%s\\t%s\\t%s\\t%s\\n' \"$size\" \"$modified\" \"$name\" \"$item\"\n      fi\n    done\n  fi\nfi\n"@
}

/// Lists a directory.
pub fn list_directory_command(path: &str) -> (command: String)
    ensures
        command@ == with_path("p="@, path@, list_script()),
{
    around_path(
        "p=",
        path,
        "\nif [ -d \"$p\" ]; then\n  if find \"$p\" -mindepth 1 -maxdepth 1 -printf '%y\\t%s\\t%T@\\t%f\\t%p\\n' >/tmp/portix_ls_$$ 2>/dev/null; then\n    cat /tmp/portix_ls_$$\n    rm -f /tmp/portix_ls_$$\n  else\n    rm -f /tmp/portix_ls_$$\n    for item in \"$p\"/.[!.]* \"$p\"/..?* \"$p\"/*; do\n      [ -e \"$item\" ] || continue\n      name=$(basename \"$item\")\n      modified=$(stat -c %Y \"$item\" 2>/dev/null || stat -f %m \"$item\" 2>/dev/null || printf 0)\n      if [ -d \"$item\" ]; then\n        printf 'd\\t0\\t%s\\t%s\\t%s\\n' \"$modified\" \"$name\" \"$item\"\n      else\n        size=$(wc -c < \"$item\" 2>/dev/null || printf 0)\n        printf 'f\\t%s\\t%s\\t%s\\t%s\\n' \"$size\" \"$modified\" \"$name\" \"$item\"\n      fi\n    done\n  fi\nfi\n",
    )
}

/// Finds a directory, or lists those beside where it is not there.
pub open spec fn resolve_script() -> Seq<char> {
    "\nif [ -d \"$p\" ]; then\n  (cd \"$p\" 2>/dev/null && pwd -P) || printf '%s\\n' \"$p\"\nelse\n  parent=$(dirname \"$p\")\n  for item in \"$parent\"/* \"$parent\"/.[!.]* \"$parent\"/..?*; do\n    [ -d \"$item\" ] || continue\n    printf '%s\\t%s\\n' \"$(basename \"$item\")\" \"$item\"\n  done\nfi\n"@
}

/// Finds a directory, or lists those beside where it is not there.
pub fn resolve_directory_command(path: &str) -> (command: String)
    ensures
        command@ == with_path("p="@, path@, resolve_script()),
{
    around_path(
        "p=",
        path,
        "\nif [ -d \"$p\" ]; then\n  (cd \"$p\" 2>/dev/null && pwd -P) || printf '%s\\n' \"$p\"\nelse\n  parent=$(dirname \"$p\")\n  for item in \"$parent\"/* \"$parent\"/.[!.]* \"$parent\"/..?*; do\n    [ -d \"$item\" ] || continue\n    printf '%s\\t%s\\n' \"$(basename \"$item\")\" \"$item\"\n  done\nfi\n",
    )
}

/// Prints a file as text of 64 characters.
pub open spec fn read_script() -> Seq<char> {
    "\nif [ -f \"$p\" ] && [ -r \"$p\" ]; then\n  if command -v base64 >/dev/null 2>&1; then\n    base64 \"$p\"\n  else\n    openssl base64 -in \"$p\"\n  fi\nfi\n"@
}

/// Prints a file as text of 64 characters.
pub fn read_file_command(path: &str) -> (command: String)
    ensures
        command@ == with_path("p="@, path@, read_script()),
{
    around_path(
        "p=",
        path,
        "\nif [ -f \"$p\" ] && [ -r \"$p\" ]; then\n  if command -v base64 >/dev/null 2>&1; then\n    base64 \"$p\"\n  else\n    openssl base64 -in \"$p\"\n  fi\nfi\n",
    )
}

/// What stands before the contents that are written.
pub open spec fn write_head() -> Seq<char> {
    "\nmkdir -p \"$(dirname \"$p\")\"\ncat > \"$p\".portix.b64 <<'PORTIX_FILE'\n"@
}

/// What stands behind the contents that are written.
pub open spec fn write_tail() -> Seq<char> {
    "\nPORTIX_FILE\nif command -v base64 >/dev/null 2>&1; then\n  base64 -d \"$p\".portix.b64 > \"$p\" 2>/dev/null || base64 --decode \"$p\".portix.b64 > \"$p\"\nelse\n  openssl base64 -d -in \"$p\".portix.b64 -out \"$p\"\nfi\nrm -f \"$p\".portix.b64\n"@
}

/// Writes `data` to a file: the shell takes it from the lines up to the mark.
pub open spec fn write_command(path: Seq<char>, data: Seq<u8>) -> Seq<char> {
    with_path("p="@, path, write_head()) + base64(data) + write_tail()
}

/// Writes `data` to a file.
pub fn write_file_command(path: &str, data: &[u8]) -> (command: String)
    requires
        data@.len() <= usize::MAX / 4,
    ensures
        command@ == write_command(path@, data@),
{
    let mut command = around_path(
        "p=",
        path,
        "\nmkdir -p \"$(dirname \"$p\")\"\ncat > \"$p\".portix.b64 <<'PORTIX_FILE'\n",
    );
    let encoded = encode_base64(data);
    command.append(encoded.as_str());
    command.append(
        "\nPORTIX_FILE\nif command -v base64 >/dev/null 2>&1; then\n  base64 -d \"$p\".portix.b64 > \"$p\" 2>/dev/null || base64 --decode \"$p\".portix.b64 > \"$p\"\nelse\n  openssl base64 -d -in \"$p\".portix.b64 -out \"$p\"\nfi\nrm -f \"$p\".portix.b64\n",
    );
    command
}

/// The contents that are written never hold the mark that ends them, nor a line
/// break.
pub proof fn contents_do_not_end_early(data: Seq<u8>)
    ensures
        forall|i: int| 0 <= i < base64(data).len() ==> base64(data)[i] != '\n' && base64(data)[i]
            != '_',
        "PORTIX_FILE"@.contains('_'),
{
    crate::base64_text::base64_alphabet(data);
    assert forall|i: int| 0 <= i < base64(data).len() implies base64(data)[i] != '\n' && base64(
        data,
    )[i] != '_' by {
        assert(crate::base64_text::base64_char(base64(data)[i]));
    }
    reveal_strlit("PORTIX_FILE");
    assert("PORTIX_FILE"@[6] == '_');
}

/// Makes a directory, with those above it.
pub fn create_directory_command(path: &str) -> (command: String)
    ensures
        command@ == with_path("mkdir -p "@, path@, "\n"@),
{
    around_path("mkdir -p ", path, "\n")
}

/// Changes permissions.
pub open spec fn chmod_text(path: Seq<char>, mode: Seq<char>) -> Seq<char> {
    with_path("chmod "@ + mode + " "@, path, "\n"@)
}

/// Changes permissions.
pub fn chmod_command(path: &str, mode: &str) -> (command: String)
    ensures
        command@ == chmod_text(path@, mode@),
{
    let mut before = "chmod ".to_owned();
    before.append(mode);
    before.append(" ");
    around_path(before.as_str(), path, "\n")
}

/// Whether every character of `s` is an octal digit.
pub open spec fn octal(s: Seq<char>) -> bool {
    forall|i: int| 0 <= i < s.len() ==> '0' <= #[trigger] s[i] && s[i] <= '7'
}

/// What is wrong with permissions; none where they can be set.
pub open spec fn mode_fault(mode: Seq<char>) -> Option<Seq<char>> {
    let s = trimmed(mode);
    let size = encode_utf8(s).len();
    if size != 3 && size != 4 {
        Some("chmod mode must be 3 or 4 octal digits"@)
    } else if !octal(s) {
        Some("chmod mode must contain only octal digits"@)
    } else {
        None
    }
}

fn is_octal(s: &[char]) -> (res: bool)
    ensures
        res == octal(s@),
{
    let mut i: usize = 0;
    while i < s.len()
        invariant
            i <= s@.len(),
            forall|j: int| 0 <= j < i ==> '0' <= #[trigger] s@[j] && s@[j] <= '7',
        decreases s@.len() - i,
    {
        if s[i] < '0' || s[i] > '7' {
            return false;
        }
        i += 1;
    }
    true
}

/// The command that changes permissions, or why they cannot be set.
pub fn chmod_request(path: &str, mode: &str) -> (res: Result<String, PortixError>)
    ensures
        refused_with(res, mode_fault(mode@)),
        res matches Ok(command) ==> command@ == chmod_text(path@, trimmed(mode@)),
{
    let chars = chars_of(mode);
    let digits = trim(chars.as_slice());
    let text = text_of(digits);
    let size = text.as_str().as_bytes().len();
    if size != 3 && size != 4 {
        return Err(
            PortixError::InvalidProfile("chmod mode must be 3 or 4 octal digits".to_owned()),
        );
    }
    if !is_octal(digits) {
        return Err(
            PortixError::InvalidProfile("chmod mode must contain only octal digits".to_owned()),
        );
    }
    Ok(chmod_command(path, text.as_str()))
}

} // verus!
