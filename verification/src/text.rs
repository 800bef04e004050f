//! Text as sequences of characters: splitting, trimming, numbers.

use vstd::prelude::*;

verus! {

// ---- Between strings and characters -----------------------------------------

/// `String::push` appends one character.
pub assume_specification[ String::push ](s: &mut String, c: char)
    ensures
        final(s)@ == old(s)@.push(c),
;

/// The characters of `s`.
pub fn chars_of(s: &str) -> (chars: Vec<char>)
    ensures
        chars@ == s@,
{
    let mut chars: Vec<char> = Vec::new();
    for c in it: s.chars()
        invariant
            it.seq() == s@,
            chars@ == s@.take(it.index() as int),
    {
        chars.push(c);
        assert(chars@ =~= s@.take(it.index() + 1));
    }
    assert(chars@ =~= s@);
    chars
}

/// Appends `chars` to `s`.
pub fn push_chars(s: &mut String, chars: &[char])
    ensures
        final(s)@ == old(s)@ + chars@,
{
    let mut i: usize = 0;
    assert(s@ =~= s@ + chars@.take(0));
    while i < chars.len()
        invariant
            i <= chars@.len(),
            s@ == old(s)@ + chars@.take(i as int),
        decreases chars@.len() - i,
    {
        s.push(chars[i]);
        assert(s@ =~= old(s)@ + chars@.take(i + 1));
        i += 1;
    }
    assert(chars@.take(i as int) =~= chars@);
}

/// The string of `chars`.
pub fn text_of(chars: &[char]) -> (s: String)
    ensures
        s@ == chars@,
{
    let mut s = String::new();
    push_chars(&mut s, chars);
    assert(s@ =~= chars@);
    s
}

/// Whether `chars` are those of `s`.
pub fn same_text(chars: &[char], s: &str) -> (same: bool)
    ensures
        same == (chars@ == s@),
{
    let other = chars_of(s);
    same_chars(chars, other.as_slice())
}

/// Whether `a` and `b` are the same.
pub fn same_chars(a: &[char], b: &[char]) -> (same: bool)
    ensures
        same == (a@ == b@),
{
    if a.len() != b.len() {
        return false;
    }
    let mut i: usize = 0;
    while i < a.len()
        invariant
            i <= a@.len(),
            a@.len() == b@.len(),
            forall|j: int| 0 <= j < i ==> a@[j] == b@[j],
        decreases a@.len() - i,
    {
        if a[i] != b[i] {
            return false;
        }
        i += 1;
    }
    assert(a@ =~= b@);
    true
}

/// Whether two strings hold the same text.
pub fn same_str(a: &str, b: &str) -> (same: bool)
    ensures
        same == (a@ == b@),
{
    let chars = chars_of(a);
    same_text(chars.as_slice(), b)
}

/// Appends the characters of `chars` to a list of characters.
pub fn extend(out: &mut Vec<char>, chars: &[char])
    ensures
        final(out)@ == old(out)@ + chars@,
{
    out.extend_from_slice(chars);
    assert(out@ =~= old(out)@ + chars@);
}

/// The characters of `data` from `from` up to `to`.
pub fn part(data: &[char], from: usize, to: usize) -> (res: &[char])
    requires
        from <= to <= data@.len(),
    ensures
        res@ == data@.subrange(from as int, to as int),
{
    vstd::slice::slice_subrange(data, from, to)
}

// ---- White space ------------------------------------------------------------

/// Whether `c` is white space by the Unicode property `White_Space`.
pub open spec fn is_white(c: char) -> bool {
    let code = c as u32;
    9 <= code <= 13 || code == 0x20 || code == 0x85 || code == 0xA0 || code == 0x1680 || 0x2000
        <= code <= 0x200A || code == 0x2028 || code == 0x2029 || code == 0x202F || code == 0x205F
        || code == 0x3000
}

/// Whether `c` is white space.
pub fn white(c: char) -> (res: bool)
    ensures
        res == is_white(c),
{
    let code = c as u32;
    (9 <= code && code <= 13) || code == 0x20 || code == 0x85 || code == 0xA0 || code == 0x1680 || (
    0x2000 <= code && code <= 0x200A) || code == 0x2028 || code == 0x2029 || code == 0x202F || code
        == 0x205F || code == 0x3000
}

/// `s` without the white space that it begins with.
pub open spec fn trimmed_start(s: Seq<char>) -> Seq<char>
    decreases s.len(),
{
    if s.len() > 0 && is_white(s[0]) {
        trimmed_start(s.skip(1))
    } else {
        s
    }
}

/// `s` without the white space that it ends with.
pub open spec fn trimmed_end(s: Seq<char>) -> Seq<char>
    decreases s.len(),
{
    if s.len() > 0 && is_white(s.last()) {
        trimmed_end(s.drop_last())
    } else {
        s
    }
}

/// `s` without the white space around it.
pub open spec fn trimmed(s: Seq<char>) -> Seq<char> {
    trimmed_end(trimmed_start(s))
}

/// `s` without the white space around it.
pub fn trim(s: &[char]) -> (res: &[char])
    ensures
        res@ == trimmed(s@),
{
    let mut from: usize = 0;
    assert(s@.skip(0) =~= s@);
    while from < s.len() && white(s[from])
        invariant
            from <= s@.len(),
            trimmed_start(s@) == trimmed_start(s@.skip(from as int)),
        decreases s@.len() - from,
    {
        assert(s@.skip(from as int).skip(1) =~= s@.skip(from + 1));
        from += 1;
    }
    let mut to = s.len();
    assert(s@.subrange(from as int, to as int) =~= s@.skip(from as int));
    while to > from && white(s[to - 1])
        invariant
            from <= to <= s@.len(),
            trimmed(s@) == trimmed_end(s@.subrange(from as int, to as int)),
        decreases to,
    {
        assert(s@.subrange(from as int, to as int).drop_last() =~= s@.subrange(
            from as int,
            to - 1,
        ));
        to -= 1;
    }
    part(s, from, to)
}

/// Text that neither begins nor ends with white space stays as it is.
pub proof fn lemma_trimmed_fixed(s: Seq<char>)
    requires
        s.len() > 0 ==> !is_white(s[0]) && !is_white(s.last()),
    ensures
        trimmed(s) == s,
{
}

/// Trimmed text neither begins nor ends with white space.
pub proof fn lemma_trimmed_ends(s: Seq<char>)
    ensures
        trimmed(s).len() > 0 ==> !is_white(trimmed(s)[0]) && !is_white(trimmed(s).last()),
{
    lemma_trimmed_start_ends(s);
    lemma_trimmed_end_ends(trimmed_start(s));
}

proof fn lemma_trimmed_start_ends(s: Seq<char>)
    ensures
        trimmed_start(s).len() > 0 ==> !is_white(trimmed_start(s)[0]),
    decreases s.len(),
{
    if s.len() > 0 && is_white(s[0]) {
        lemma_trimmed_start_ends(s.skip(1));
    }
}

proof fn lemma_trimmed_end_ends(s: Seq<char>)
    ensures
        trimmed_end(s).len() > 0 ==> !is_white(trimmed_end(s).last()) && trimmed_end(s)[0] == s[0],
    decreases s.len(),
{
    if s.len() > 0 && is_white(s.last()) {
        lemma_trimmed_end_ends(s.drop_last());
    }
}

/// Trimming the start leaves what stands behind some place, and the end what
/// stands before one.
pub proof fn lemma_trimmed_parts(s: Seq<char>)
    ensures
        exists|k: int| 0 <= k <= s.len() && trimmed_start(s) == #[trigger] s.skip(k),
        exists|k: int| 0 <= k <= s.len() && trimmed_end(s) == #[trigger] s.take(k),
    decreases s.len(),
{
    if s.len() > 0 && is_white(s[0]) {
        let rest = s.skip(1);
        lemma_trimmed_parts(rest);
        let k = choose|k: int|
            0 <= k <= rest.len() && trimmed_start(rest) == #[trigger] rest.skip(k);
        assert(rest.skip(k) =~= s.skip(k + 1));
    } else {
        assert(s.skip(0) =~= s);
    }
    if s.len() > 0 && is_white(s.last()) {
        let rest = s.drop_last();
        lemma_trimmed_parts(rest);
        let k = choose|k: int|
            0 <= k <= rest.len() && trimmed_end(rest) == #[trigger] rest.take(k);
        assert(rest.take(k) =~= s.take(k));
    } else {
        assert(s.take(s.len() as int) =~= s);
    }
}

/// White space before text that begins without any is trimmed alone.
pub proof fn lemma_trimmed_start_before(s: Seq<char>, rest: Seq<char>)
    requires
        rest.len() > 0,
        !is_white(rest[0]),
    ensures
        trimmed_start(s + rest) == trimmed_start(s) + rest,
    decreases s.len(),
{
    let all = s + rest;
    if s.len() > 0 {
        assert(all[0] == s[0]);
        assert(all.skip(1) =~= s.skip(1) + rest);
        lemma_trimmed_start_before(s.skip(1), rest);
    } else {
        assert(all =~= rest);
        assert(trimmed_start(s) + rest =~= rest);
    }
}

/// White space behind text that ends without any is trimmed alone.
pub proof fn lemma_trimmed_end_behind(front: Seq<char>, s: Seq<char>)
    requires
        front.len() > 0,
        !is_white(front.last()),
    ensures
        trimmed_end(front + s) == front + trimmed_end(s),
    decreases s.len(),
{
    let all = front + s;
    if s.len() > 0 {
        assert(all.last() == s.last());
        assert(all.drop_last() =~= front + s.drop_last());
        lemma_trimmed_end_behind(front, s.drop_last());
    } else {
        assert(all =~= front);
        assert(front + trimmed_end(s) =~= front);
    }
}

/// What trimming the end leaves of text with one more character before it.
proof fn lemma_trimmed_end_front(c: char, s: Seq<char>)
    ensures
        trimmed_end(seq![c] + s) == (if trimmed_end(s).len() > 0 {
            seq![c] + trimmed_end(s)
        } else if is_white(c) {
            Seq::empty()
        } else {
            seq![c]
        }),
    decreases s.len(),
{
    let all = seq![c] + s;
    if s.len() == 0 {
        assert(all =~= seq![c]);
        assert(all.drop_last() =~= Seq::<char>::empty());
        assert(trimmed_end(all.drop_last()) =~= Seq::<char>::empty());
    } else {
        assert(all.last() == s.last());
        assert(all.drop_last() =~= seq![c] + s.drop_last());
        if is_white(s.last()) {
            lemma_trimmed_end_front(c, s.drop_last());
        }
    }
}

/// The two ends can be trimmed in either order.
proof fn lemma_trimmed_either(s: Seq<char>)
    ensures
        trimmed_start(trimmed_end(s)) == trimmed_end(trimmed_start(s)),
    decreases s.len(),
{
    if s.len() > 0 {
        let rest = s.skip(1);
        assert(seq![s[0]] + rest =~= s);
        lemma_trimmed_end_front(s[0], rest);
        if is_white(s[0]) {
            lemma_trimmed_either(rest);
            if trimmed_end(rest).len() > 0 {
                let left = seq![s[0]] + trimmed_end(rest);
                assert(left.skip(1) =~= trimmed_end(rest));
            } else {
                assert(trimmed_end(rest) =~= Seq::<char>::empty());
            }
        }
    }
}

/// Text that is trimmed at one end already is trimmed to the same.
pub proof fn lemma_trimmed_again(s: Seq<char>)
    ensures
        trimmed(trimmed_start(s)) == trimmed(s),
        trimmed(trimmed_end(s)) == trimmed(s),
{
    lemma_trimmed_start_ends(s);
    lemma_trimmed_either(s);
    lemma_trimmed_end_ends(trimmed_start(s));
}

// ---- Case -------------------------------------------------------------------

/// What `str::to_lowercase` makes of `s`.
pub uninterp spec fn lowercase(s: Seq<char>) -> Seq<char>;

/// Whether every character of `s` is an ASCII character.
pub open spec fn ascii(s: Seq<char>) -> bool {
    forall|i: int| 0 <= i < s.len() ==> (#[trigger] s[i] as u32) < 128
}

/// `s` with the letters `A` to `Z` replaced by `a` to `z`.
pub open spec fn ascii_lowered(s: Seq<char>) -> Seq<char> {
    s.map_values(
        |c: char|
            if 'A' <= c && c <= 'Z' {
                ((c as u32 + 32) as u32) as char
            } else {
                c
            },
    )
}

/// `str::to_lowercase` maps text to lower case by the rules of Unicode, which
/// depend on the text alone. Of ASCII text it changes the letters `A` to `Z`
/// and nothing else. What it makes of other text is not said here.
pub assume_specification[ str::to_lowercase ](s: &str) -> (res: String)
    ensures
        res@ == lowercase(s@),
        ascii(s@) ==> res@ == ascii_lowered(s@),
;

/// The lower case of `s`.
pub open spec fn lowered(s: Seq<char>) -> Seq<char> {
    if ascii(s) {
        ascii_lowered(s)
    } else {
        lowercase(s)
    }
}

/// The lower case of `s`.
pub fn lower(s: &[char]) -> (res: String)
    ensures
        res@ == lowered(s@),
{
    text_of(s).to_lowercase()
}

// ---- Searching --------------------------------------------------------------

/// The first place of `c` in `s` from `from` on.
pub open spec fn find_from(s: Seq<char>, c: char, from: int) -> Option<int>
    decreases s.len() - from,
{
    if from < 0 || from >= s.len() {
        None
    } else if s[from] == c {
        Some(from)
    } else {
        find_from(s, c, from + 1)
    }
}

/// The last place of `c` in the first `n` characters of `s`.
pub open spec fn find_last(s: Seq<char>, c: char, n: int) -> Option<int>
    decreases n,
{
    if n <= 0 || n > s.len() {
        None
    } else if s[n - 1] == c {
        Some(n - 1)
    } else {
        find_last(s, c, n - 1)
    }
}

/// The first place of `c`.
pub fn find(s: &[char], c: char) -> (res: Option<usize>)
    ensures
        match res {
            Some(i) => i < s@.len() && find_from(s@, c, 0) == Some(i as int),
            None => find_from(s@, c, 0) is None,
        },
{
    let mut i: usize = 0;
    while i < s.len()
        invariant
            i <= s@.len(),
            find_from(s@, c, 0) == find_from(s@, c, i as int),
        decreases s@.len() - i,
    {
        if s[i] == c {
            return Some(i);
        }
        i += 1;
    }
    None
}

/// The last place of `c`.
pub fn rfind(s: &[char], c: char) -> (res: Option<usize>)
    ensures
        match res {
            Some(i) => i < s@.len() && find_last(s@, c, s@.len() as int) == Some(i as int),
            None => find_last(s@, c, s@.len() as int) is None,
        },
{
    let mut n = s.len();
    while n > 0
        invariant
            n <= s@.len(),
            find_last(s@, c, s@.len() as int) == find_last(s@, c, n as int),
        decreases n,
    {
        if s[n - 1] == c {
            return Some(n - 1);
        }
        n -= 1;
    }
    None
}

/// A first place is a place, and nothing before it is one.
pub proof fn lemma_find_from(s: Seq<char>, c: char, from: int)
    requires
        0 <= from,
    ensures
        match find_from(s, c, from) {
            Some(i) => from <= i < s.len() && s[i] == c && forall|j: int|
                from <= j < i ==> s[j] != c,
            None => forall|j: int| from <= j < s.len() ==> s[j] != c,
        },
    decreases s.len() - from,
{
    if from < s.len() && s[from] != c {
        lemma_find_from(s, c, from + 1);
    }
}

/// A place before which there is none is the first.
pub proof fn lemma_find_first(s: Seq<char>, c: char, from: int, i: int)
    requires
        0 <= from <= i < s.len(),
        s[i] == c,
        forall|j: int| from <= j < i ==> s[j] != c,
    ensures
        find_from(s, c, from) == Some(i),
    decreases i - from,
{
    if from < i {
        lemma_find_first(s, c, from + 1, i);
    }
}

/// A last place is a place, and nothing behind it is one.
pub proof fn lemma_find_last(s: Seq<char>, c: char, n: int)
    requires
        0 <= n <= s.len(),
    ensures
        match find_last(s, c, n) {
            Some(i) => 0 <= i < n && s[i] == c && forall|j: int| i < j < n ==> s[j] != c,
            None => forall|j: int| 0 <= j < n ==> s[j] != c,
        },
    decreases n,
{
    if n > 0 && s[n - 1] != c {
        lemma_find_last(s, c, n - 1);
    }
}

/// A place behind which there is none is the last.
pub proof fn lemma_find_is_last(s: Seq<char>, c: char, i: int, n: int)
    requires
        0 <= i < n <= s.len(),
        s[i] == c,
        forall|j: int| i < j < n ==> s[j] != c,
    ensures
        find_last(s, c, n) == Some(i),
    decreases n,
{
    if i < n - 1 {
        lemma_find_is_last(s, c, i, n - 1);
    }
}

/// Whether `s` begins with `prefix`.
pub open spec fn begins_with(s: Seq<char>, prefix: Seq<char>) -> bool {
    s.len() >= prefix.len() && s.take(prefix.len() as int) == prefix
}

/// Whether `s` begins with `prefix`.
pub fn starts_with(s: &[char], prefix: &[char]) -> (res: bool)
    ensures
        res == begins_with(s@, prefix@),
{
    if s.len() < prefix.len() {
        return false;
    }
    same_chars(part(s, 0, prefix.len()), prefix)
}

// ---- Splitting --------------------------------------------------------------

/// `s` without the carriage return that it may end with.
pub open spec fn without_return(s: Seq<char>) -> Seq<char> {
    if s.len() > 0 && s.last() == '\r' {
        s.drop_last()
    } else {
        s
    }
}

/// The lines of `s`: each ends with a line feed, with or without a carriage
/// return before it, and the last may end without one.
pub open spec fn lines(s: Seq<char>) -> Seq<Seq<char>>
    decreases s.len(),
{
    if s.len() == 0 {
        Seq::empty()
    } else {
        match find_from(s, '\n', 0) {
            None => seq![s],
            Some(i) => if 0 <= i < s.len() {
                seq![without_return(s.take(i))] + lines(s.skip(i + 1))
            } else {
                seq![s]
            },
        }
    }
}

/// The line that `s` begins with, and where the rest begins.
pub fn next_line(s: &[char]) -> (res: (&[char], usize))
    requires
        s@.len() > 0,
    ensures
        0 < res.1 <= s@.len(),
        lines(s@) == seq![res.0@] + lines(s@.skip(res.1 as int)),
{
    match find(s, '\n') {
        None => {
            assert(s@.skip(s@.len() as int) =~= Seq::<char>::empty());
            assert(seq![s@] + Seq::<Seq<char>>::empty() =~= seq![s@]);
            (s, s.len())
        },
        Some(i) => {
            let line = part(s, 0, i);
            assert(line@ =~= s@.take(i as int));
            if i > 0 && s[i - 1] == '\r' {
                let bare = part(s, 0, i - 1);
                assert(bare@ =~= line@.drop_last());
                (bare, i + 1)
            } else {
                (line, i + 1)
            }
        },
    }
}

/// The pieces of `s` between the places of `c`, at most `n` of them.
pub open spec fn split_up_to(s: Seq<char>, c: char, n: nat) -> Seq<Seq<char>>
    decreases n,
{
    if n <= 1 {
        seq![s]
    } else {
        match find_from(s, c, 0) {
            None => seq![s],
            Some(i) => seq![s.take(i)] + split_up_to(s.skip(i + 1), c, (n - 1) as nat),
        }
    }
}

/// The pieces of `s` between the places of `c`, at most `n` of them.
pub fn split_n<'a>(s: &'a [char], c: char, n: usize) -> (pieces: Vec<&'a [char]>)
    ensures
        pieces@.map_values(|p: &'a [char]| p@) == split_up_to(s@, c, n as nat),
    decreases n,
{
    let mut pieces: Vec<&'a [char]> = Vec::new();
    if n > 1 {
        if let Some(i) = find(s, c) {
            let size = s.len();
            let head = part(s, 0, i);
            let rest = part(s, i + 1, size);
            assert(head@ =~= s@.take(i as int));
            assert(rest@ =~= s@.skip(i + 1));
            pieces.push(head);
            let mut others = split_n(rest, c, n - 1);
            let ghost before = others@;
            pieces.append(&mut others);
            assert(pieces@.map_values(|p: &'a [char]| p@) =~= seq![head@] + before.map_values(
                |p: &'a [char]| p@,
            ));
            return pieces;
        }
    }
    pieces.push(s);
    assert(pieces@.map_values(|p: &'a [char]| p@) =~= seq![s@]);
    pieces
}

/// `s` with every `c` replaced by `by`.
pub open spec fn replaced(s: Seq<char>, c: char, by: Seq<char>) -> Seq<char>
    decreases s.len(),
{
    if s.len() == 0 {
        s
    } else {
        replaced(s.drop_last(), c, by) + (if s.last() == c {
            by
        } else {
            seq![s.last()]
        })
    }
}

/// `s` with every `c` replaced by `by`.
pub fn replace(s: &[char], c: char, by: &[char]) -> (out: Vec<char>)
    ensures
        out@ == replaced(s@, c, by@),
{
    let mut out: Vec<char> = Vec::new();
    let mut i: usize = 0;
    assert(s@.take(0) =~= Seq::<char>::empty());
    while i < s.len()
        invariant
            i <= s@.len(),
            out@ == replaced(s@.take(i as int), c, by@),
        decreases s@.len() - i,
    {
        assert(s@.take(i + 1).drop_last() =~= s@.take(i as int));
        let ghost before = out@;
        if s[i] == c {
            extend(&mut out, by);
        } else {
            out.push(s[i]);
            assert(out@ =~= before + seq![s@[i as int]]);
        }
        i += 1;
    }
    assert(s@.take(i as int) =~= s@);
    out
}

// ---- Numbers ----------------------------------------------------------------

/// The value of the digit `c`; none of any other character.
pub open spec fn digit_value(c: char) -> Option<nat> {
    if '0' <= c && c <= '9' {
        Some((c as u32 - '0' as u32) as nat)
    } else {
        None
    }
}

/// The digit of value `d`.
pub open spec fn digit(d: nat) -> char {
    (('0' as u32 + d) as u32) as char
}

/// The value of `s` as decimal digits; none where another character occurs.
pub open spec fn digits_value(s: Seq<char>) -> Option<nat>
    decreases s.len(),
{
    if s.len() == 0 {
        Some(0)
    } else {
        match (digits_value(s.drop_last()), digit_value(s.last())) {
            (Some(high), Some(d)) => Some(high * 10 + d),
            _ => None,
        }
    }
}

/// The number that `s` writes: digits, at least one, with or without a plus
/// sign before them; none where it exceeds `max`.
pub open spec fn parsed(s: Seq<char>, max: nat) -> Option<nat> {
    let digits = if s.len() > 0 && s[0] == '+' { s.skip(1) } else { s };
    match digits_value(digits) {
        Some(n) if digits.len() > 0 && n <= max => Some(n),
        _ => None,
    }
}

/// The signed number that `s` writes; none where it does not fit 64 bits.
pub open spec fn parsed_signed(s: Seq<char>) -> Option<int> {
    if s.len() > 0 && s[0] == '-' {
        match digits_value(s.skip(1)) {
            Some(n) if s.len() > 1 && n <= 0x8000_0000_0000_0000 => Some(-n),
            _ => None,
        }
    } else {
        match parsed(s, i64::MAX as nat) {
            Some(n) => Some(n as int),
            None => None,
        }
    }
}

/// `n` in decimal digits.
pub open spec fn decimal(n: nat) -> Seq<char>
    decreases n,
{
    if n < 10 {
        seq![digit(n)]
    } else {
        decimal(n / 10).push(digit(n % 10))
    }
}

proof fn lemma_digits_prefix(s: Seq<char>, i: int)
    requires
        0 <= i <= s.len(),
    ensures
        match (digits_value(s), digits_value(s.take(i))) {
            (Some(n), Some(m)) => m <= n,
            (Some(n), None) => false,
            _ => true,
        },
    decreases s.len() - i,
{
    if i < s.len() {
        lemma_digits_prefix(s, i + 1);
        assert(s.take(i + 1).drop_last() =~= s.take(i));
    } else {
        assert(s.take(i) =~= s);
    }
}

/// The value of `s` as decimal digits, where it is at most `max`.
fn parse_digits(s: &[char], max: u64) -> (res: Option<u64>)
    ensures
        match res {
            Some(n) => digits_value(s@) == Some(n as nat) && n <= max,
            None => digits_value(s@) is None || digits_value(s@)->0 > max,
        },
{
    let mut value: u64 = 0;
    let mut i: usize = 0;
    assert(s@.take(0) =~= Seq::<char>::empty());
    while i < s.len()
        invariant
            i <= s@.len(),
            value <= max,
            digits_value(s@.take(i as int)) == Some(value as nat),
        decreases s@.len() - i,
    {
        let c = s[i];
        proof {
            assert(s@.take(i + 1).drop_last() =~= s@.take(i as int));
            lemma_digits_prefix(s@, i + 1);
        }
        if c < '0' || c > '9' {
            return None;
        }
        let d = (c as u32 - '0' as u32) as u64;
        if d > max || value > max / 10 || value * 10 > max - d {
            return None;
        }
        value = value * 10 + d;
        i += 1;
    }
    assert(s@.take(i as int) =~= s@);
    Some(value)
}

/// The number that `s` writes, where it is at most `max`.
pub fn parse_unsigned(s: &[char], max: u64) -> (res: Option<u64>)
    ensures
        match res {
            Some(n) => parsed(s@, max as nat) == Some(n as nat) && n <= max,
            None => parsed(s@, max as nat) is None,
        },
{
    let digits = if s.len() > 0 && s[0] == '+' {
        let rest = part(s, 1, s.len());
        assert(rest@ =~= s@.skip(1));
        rest
    } else {
        s
    };
    if digits.len() == 0 {
        return None;
    }
    parse_digits(digits, max)
}

/// The signed number that `s` writes.
pub fn parse_signed(s: &[char]) -> (res: Option<i64>)
    ensures
        match res {
            Some(n) => parsed_signed(s@) == Some(n as int),
            None => parsed_signed(s@) is None,
        },
{
    if s.len() > 0 && s[0] == '-' {
        if s.len() == 1 {
            return None;
        }
        let rest = part(s, 1, s.len());
        assert(rest@ =~= s@.skip(1));
        match parse_digits(rest, 0x8000_0000_0000_0000) {
            Some(n) => if n == 0x8000_0000_0000_0000 {
                Some(i64::MIN)
            } else {
                Some(-(n as i64))
            },
            None => None,
        }
    } else {
        match parse_unsigned(s, i64::MAX as u64) {
            Some(n) => Some(n as i64),
            None => None,
        }
    }
}

/// The digit of value `d`.
fn digit_char(d: u64) -> (c: char)
    requires
        d < 10,
    ensures
        c == digit(d as nat),
{
    ('0' as u8 + d as u8) as char
}

/// Appends `n` in decimal digits.
pub fn push_decimal(out: &mut Vec<char>, n: u64)
    ensures
        final(out)@ == old(out)@ + decimal(n as nat),
    decreases n,
{
    if n >= 10 {
        push_decimal(out, n / 10);
    }
    out.push(digit_char(n % 10));
    assert(out@ =~= old(out)@ + decimal(n as nat));
}

proof fn lemma_decimal_value(n: nat)
    ensures
        digits_value(decimal(n)) == Some(n),
        decimal(n).len() > 0,
        forall|i: int| 0 <= i < decimal(n).len() ==> '0' <= #[trigger] decimal(n)[i] <= '9',
    decreases n,
{
    if n < 10 {
        assert(decimal(n).drop_last() =~= Seq::<char>::empty());
        reveal_with_fuel(digits_value, 2);
    } else {
        lemma_decimal_value(n / 10);
        assert(decimal(n).drop_last() =~= decimal(n / 10));
    }
}

/// A number written in decimal digits is read back as that number.
pub proof fn decimal_round_trip(n: nat, max: nat)
    requires
        n <= max,
    ensures
        parsed(decimal(n), max) == Some(n),
        decimal(n).len() > 0,
        forall|i: int| 0 <= i < decimal(n).len() ==> '0' <= #[trigger] decimal(n)[i] <= '9',
{
    lemma_decimal_value(n);
    assert(decimal(n)[0] != '+');
}

/// The texts of a list.
pub open spec fn texts(list: Seq<String>) -> Seq<Seq<char>> {
    list.map_values(|s: String| s@)
}

} // verus!
