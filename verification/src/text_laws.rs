//! What working on text and paths promises.

use vstd::prelude::*;

use crate::errors::{hex_byte, hex_digit};
use crate::paths::{
    fits, leads_up, mapped_names, names, part_of, path_parts, relative, search_parts, slashed,
    stays, stripped_end, stripped_start, PartView,
};
use crate::text::{
    ascii, ascii_lowered, decimal, digit, digit_value, digits_value, find_from, is_white,
    lemma_find_first, lemma_find_from, lemma_trimmed_fixed, lines, lowered, parsed, parsed_signed,
    replaced, split_up_to, trimmed, without_return,
};

verus! {

// ---- Characters -------------------------------------------------------------

/// Of the ASCII characters, the space and five controls are white space.
pub proof fn ascii_white_space(c: char)
    requires
        (c as u32) < 128,
    ensures
        is_white(c) == (c == ' ' || c == '\t' || c == '\n' || c == '\r' || c as u32 == 11 || c
            as u32 == 12),
{
}

/// White space before and behind a text does not count.
pub proof fn white_space_is_trimmed(before: Seq<char>, text: Seq<char>, behind: Seq<char>)
    requires
        forall|i: int| 0 <= i < before.len() ==> is_white(#[trigger] before[i]),
        forall|i: int| 0 <= i < behind.len() ==> is_white(#[trigger] behind[i]),
        text.len() > 0 ==> !is_white(text[0]) && !is_white(text.last()),
        text.len() == 0 ==> behind.len() == 0,
    ensures
        trimmed(before + text + behind) == text,
    decreases before.len() + behind.len(),
{
    let s = before + text + behind;
    if before.len() > 0 {
        assert(s[0] == before[0]);
        assert(s.skip(1) =~= before.skip(1) + text + behind);
        white_space_is_trimmed(before.skip(1), text, behind);
    } else if behind.len() > 0 {
        assert(s[0] == text[0]);
        assert(s.last() == behind.last());
        assert(s.drop_last() =~= before + text + behind.drop_last());
        white_space_is_trimmed(before, text, behind.drop_last());
        assert(s.drop_last()[0] == text[0]);
    } else {
        assert(s =~= text);
        lemma_trimmed_fixed(text);
    }
}

/// Capital letters become small ones, in the order of the alphabet; other ASCII
/// characters stay.
pub proof fn capitals_become_small(s: Seq<char>, i: int)
    requires
        ascii(s),
        0 <= i < s.len(),
    ensures
        lowered(s).len() == s.len(),
        'A' <= s[i] && s[i] <= 'Z' ==> lowered(s)[i] as u32 - 'a' as u32 == s[i] as u32
            - 'A' as u32,
        !('A' <= s[i] && s[i] <= 'Z') ==> lowered(s)[i] == s[i],
{
    assert((s[i] as u32) < 128);
}

/// Digits stand for the numbers from zero to nine, in order.
pub proof fn digits_count_from_zero(d: nat, c: char)
    ensures
        digit(0) == '0' && digit(1) == '1' && digit(5) == '5' && digit(9) == '9',
        d < 10 ==> digit_value(digit(d)) == Some(d),
        d < 9 ==> digit(d + 1) as u32 == digit(d) as u32 + 1,
        (digit_value(c) is Some) == ('0' <= c && c <= '9'),
{
}

/// Hexadecimal digits are the ten digits and then six capital letters; a byte has
/// two, the higher first.
pub proof fn bytes_are_shown_in_hexadecimal(b: u8)
    ensures
        hex_digit(0) == '0' && hex_digit(9) == '9' && hex_digit(10) == 'A' && hex_digit(15) == 'F',
        hex_byte(b).len() == 2,
        hex_byte(b)[0] == hex_digit((b / 16) as nat),
        hex_byte(b)[1] == hex_digit((b % 16) as nat),
{
}

// ---- Numbers ----------------------------------------------------------------

/// A digit behind a number makes it ten times as large, and adds itself.
pub proof fn digits_have_places(s: Seq<char>, n: nat, d: nat)
    requires
        digits_value(s) == Some(n),
        d < 10,
    ensures
        digits_value(s.push(digit(d))) == Some(10 * n + d),
        digits_value(Seq::empty()) == Some(0nat),
{
    assert(s.push(digit(d)).drop_last() =~= s);
    digits_count_from_zero(d, '0');
}

/// A number is digits, at least one, with or without a plus sign; one that is too
/// large is none.
pub proof fn numbers_are_digits(s: Seq<char>, max: nat)
    requires
        s.len() == 0 || s[0] != '+',
    ensures
        parsed(seq!['+'] + s, max) == parsed(s, max),
        parsed(s, max) matches Some(n) ==> s.len() > 0 && digits_value(s) == Some(n) && n <= max,
        parsed(s, max) is None ==> s.len() == 0 || digits_value(s) is None || digits_value(s)->0
            > max,
        parsed(Seq::empty(), max) is None,
{
    assert((seq!['+'] + s).skip(1) =~= s);
}

/// A minus sign makes a number negative.
pub proof fn minus_signs_make_negative(n: nat)
    requires
        n <= 0x7FFF_FFFF_FFFF_FFFF,
    ensures
        parsed_signed(seq!['-'] + decimal(n)) == Some(-n),
        parsed_signed(decimal(n)) == Some(n as int),
{
    crate::text::decimal_round_trip(n, n);
    crate::text::decimal_round_trip(n, i64::MAX as nat);
    let s = seq!['-'] + decimal(n);
    assert(s.skip(1) =~= decimal(n));
    assert('0' <= decimal(n)[0] <= '9');
    numbers_are_digits(decimal(n), n);
}

// ---- Pieces -----------------------------------------------------------------

/// Whether a character does not occur in a text.
pub open spec fn free_of(s: Seq<char>, c: char) -> bool {
    forall|i: int| 0 <= i < s.len() ==> #[trigger] s[i] != c
}

proof fn lemma_first_found(a: Seq<char>, c: char, b: Seq<char>)
    requires
        free_of(a, c),
    ensures
        find_from(a + seq![c] + b, c, 0) == Some(a.len() as int),
        (a + seq![c] + b).take(a.len() as int) == a,
        (a + seq![c] + b).skip(a.len() as int + 1) == b,
{
    let s = a + seq![c] + b;
    assert forall|j: int| 0 <= j < a.len() implies s[j] != c by {
        assert(a[j] != c);
    }
    lemma_find_first(s, c, 0, a.len() as int);
    assert(s.take(a.len() as int) =~= a);
    assert(s.skip(a.len() as int + 1) =~= b);
}

proof fn lemma_none_found(a: Seq<char>, c: char)
    requires
        free_of(a, c),
    ensures
        find_from(a, c, 0) is None,
{
    lemma_find_from(a, c, 0);
    if let Some(i) = find_from(a, c, 0) {
        assert(a[i] != c);
    }
}

/// Lines end with a line feed, which is not part of them, nor is a carriage return
/// before it; what follows the last is a line where it is not empty.
pub proof fn lines_end_with_a_feed(line: Seq<char>, rest: Seq<char>)
    requires
        free_of(line, '\n'),
    ensures
        lines(line + seq!['\n'] + rest) == seq![without_return(line)] + lines(rest),
        line.len() > 0 ==> lines(line) == seq![line],
        lines(Seq::empty()) == Seq::<Seq<char>>::empty(),
        without_return(line.push('\r')) == line,
        line.len() == 0 || line.last() != '\r' ==> without_return(line) == line,
{
    lemma_first_found(line, '\n', rest);
    lemma_none_found(line, '\n');
    assert(line.push('\r').drop_last() =~= line);
}

/// A text is split at the first marks, as long as more than one piece is wanted;
/// the last piece is all that is left.
pub proof fn text_is_split_at_marks(piece: Seq<char>, c: char, rest: Seq<char>, n: nat)
    requires
        free_of(piece, c),
    ensures
        n > 1 ==> split_up_to(piece + seq![c] + rest, c, n) == seq![piece] + split_up_to(
            rest,
            c,
            (n - 1) as nat,
        ),
        split_up_to(piece, c, n) == seq![piece],
        split_up_to(rest, c, 1) == seq![rest],
{
    lemma_first_found(piece, c, rest);
    lemma_none_found(piece, c);
}

/// A character is replaced wherever it stands, and no other is touched.
pub proof fn characters_are_replaced(a: Seq<char>, b: Seq<char>, c: char, by: Seq<char>)
    ensures
        replaced(a + b, c, by) == replaced(a, c, by) + replaced(b, c, by),
        replaced(seq![c], c, by) == by,
        free_of(a, c) ==> replaced(a, c, by) == a,
    decreases b.len(),
{
    if b.len() == 0 {
        assert(a + b =~= a);
        assert(replaced(a, c, by) + b =~= replaced(a, c, by));
    } else {
        characters_are_replaced(a, b.drop_last(), c, by);
        assert((a + b).drop_last() =~= a + b.drop_last());
        let last = if b.last() == c { by } else { seq![b.last()] };
        assert(replaced(a, c, by) + (replaced(b.drop_last(), c, by) + last) =~= replaced(a, c, by)
            + replaced(b.drop_last(), c, by) + last);
    }
    let one = seq![c];
    assert(one.drop_last() =~= Seq::<char>::empty());
    assert(replaced(one.drop_last(), c, by) == Seq::<char>::empty());
    assert(one.last() == c);
    assert(Seq::<char>::empty() + by =~= by);
    if free_of(a, c) {
        lemma_not_replaced(a, c, by);
    }
}

proof fn lemma_not_replaced(a: Seq<char>, c: char, by: Seq<char>)
    requires
        free_of(a, c),
    ensures
        replaced(a, c, by) == a,
    decreases a.len(),
{
    if a.len() > 0 {
        let front = a.drop_last();
        assert forall|i: int| 0 <= i < front.len() implies #[trigger] front[i] != c by {
            assert(a[i] != c);
        }
        lemma_not_replaced(front, c, by);
        assert(a[a.len() - 1] != c);
        assert(front + seq![a.last()] =~= a);
    }
}

// ---- Paths ------------------------------------------------------------------

/// Whether a piece of a path is one: it is not empty, and holds neither a slash
/// of either kind nor a zero.
pub open spec fn whole_piece(s: Seq<char>) -> bool {
    s.len() > 0 && free_of(s, '/') && free_of(s, '\\') && free_of(s, '\0')
}

/// A path as the server writes it: each piece behind a backslash.
pub open spec fn written_path(pieces: Seq<Seq<char>>) -> Seq<char>
    decreases pieces.len(),
{
    if pieces.len() == 0 {
        Seq::empty()
    } else {
        written_path(pieces.drop_last()) + seq!['\\'] + pieces.last()
    }
}

/// The pieces of a path with slashes between them.
spec fn slash_path(pieces: Seq<Seq<char>>) -> Seq<char>
    decreases pieces.len(),
{
    if pieces.len() == 0 {
        Seq::empty()
    } else if pieces.len() == 1 {
        pieces[0]
    } else {
        pieces[0] + seq!['/'] + slash_path(pieces.skip(1))
    }
}

spec fn all_parts(pieces: Seq<Seq<char>>, first: bool) -> Seq<PartView>
    decreases pieces.len(),
{
    if pieces.len() == 0 {
        Seq::empty()
    } else {
        part_of(pieces[0], first) + all_parts(pieces.skip(1), false)
    }
}

proof fn lemma_slash_parts(pieces: Seq<Seq<char>>, first: bool)
    requires
        forall|i: int| 0 <= i < pieces.len() ==> whole_piece(#[trigger] pieces[i]),
    ensures
        path_parts(slash_path(pieces), first) == all_parts(pieces, first),
    decreases pieces.len(),
{
    if pieces.len() == 1 {
        assert(whole_piece(pieces[0]));
        lemma_none_found(pieces[0], '/');
        assert(pieces.skip(1) =~= Seq::<Seq<char>>::empty());
        assert(all_parts(pieces.skip(1), false) == Seq::<PartView>::empty());
        assert(part_of(pieces[0], first) + Seq::<PartView>::empty() =~= part_of(pieces[0], first));
    } else if pieces.len() > 1 {
        assert(whole_piece(pieces[0]));
        let rest = pieces.skip(1);
        lemma_first_found(pieces[0], '/', slash_path(rest));
        assert forall|i: int| 0 <= i < rest.len() implies whole_piece(#[trigger] rest[i]) by {
            assert(whole_piece(pieces[i + 1]));
        }
        lemma_slash_parts(rest, false);
    }
}

proof fn lemma_slash_snoc(pieces: Seq<Seq<char>>, last: Seq<char>)
    requires
        pieces.len() > 0,
    ensures
        slash_path(pieces.push(last)) == slash_path(pieces) + seq!['/'] + last,
    decreases pieces.len(),
{
    let all = pieces.push(last);
    if pieces.len() == 1 {
        assert(all.skip(1) =~= seq![last]);
        assert(slash_path(seq![last]) == last);
    } else {
        assert(all.skip(1) =~= pieces.skip(1).push(last));
        lemma_slash_snoc(pieces.skip(1), last);
        assert(pieces[0] + seq!['/'] + (slash_path(pieces.skip(1)) + seq!['/'] + last) =~= pieces[0]
            + seq!['/'] + slash_path(pieces.skip(1)) + seq!['/'] + last);
    }
}

proof fn lemma_slashed_piece(s: Seq<char>)
    requires
        free_of(s, '\\'),
    ensures
        slashed(s) == s,
{
    assert forall|i: int| 0 <= i < s.len() implies slashed(s)[i] == s[i] by {
        assert(s[i] != '\\');
    }
    assert(slashed(s) =~= s);
}

proof fn lemma_written(pieces: Seq<Seq<char>>)
    requires
        pieces.len() > 0,
        forall|i: int| 0 <= i < pieces.len() ==> whole_piece(#[trigger] pieces[i]),
    ensures
        slashed(written_path(pieces)) == seq!['/'] + slash_path(pieces),
        written_path(pieces).len() > 0,
        written_path(pieces)[0] == '\\',
        written_path(pieces).last() != '\0',
        slash_path(pieces).len() > 0,
        slash_path(pieces)[0] != '/',
    decreases pieces.len(),
{
    let front = pieces.drop_last();
    let last = pieces.last();
    assert(whole_piece(pieces[pieces.len() - 1]));
    assert(whole_piece(pieces[0]));
    assert(pieces[0][0] != '/');
    assert(last[last.len() - 1] != '\0');
    lemma_slashed_piece(last);
    let w = written_path(pieces);
    assert(w.last() == last.last());
    if front.len() == 0 {
        assert(written_path(front) == Seq::<char>::empty());
        assert(w =~= seq!['\\'] + last);
        assert(slashed(w) =~= seq!['/'] + slashed(last));
        assert(pieces[0] == last);
    } else {
        assert forall|i: int| 0 <= i < front.len() implies whole_piece(#[trigger] front[i]) by {
            assert(whole_piece(pieces[i]));
        }
        lemma_written(front);
        lemma_slash_snoc(front, last);
        assert(front.push(last) =~= pieces);
        let v = written_path(front);
        assert(slashed(w) =~= slashed(v) + seq!['/'] + slashed(last));
        assert(seq!['/'] + slash_path(front) + seq!['/'] + last =~= seq!['/'] + slash_path(pieces));
        assert(w[0] == v[0]);
        assert(slash_path(pieces)[0] == slash_path(front)[0]);
    }
}

proof fn lemma_relative(pieces: Seq<Seq<char>>)
    requires
        forall|i: int| 0 <= i < pieces.len() ==> whole_piece(#[trigger] pieces[i]),
    ensures
        relative(written_path(pieces)) == slash_path(pieces),
{
    if pieces.len() == 0 {
        assert(slashed(Seq::<char>::empty()) =~= Seq::<char>::empty());
    } else {
        lemma_written(pieces);
        let w = written_path(pieces);
        assert(stripped_start(w, '\0') == w);
        assert(stripped_end(w, '\0') == w);
        let s = slashed(w);
        assert(s[0] == '/');
        assert(s.skip(1) =~= slash_path(pieces));
        assert(stripped_start(s.skip(1), '/') == s.skip(1));
    }
}

/// The parts of a path are those of its pieces, in order.
proof fn lemma_parts(pieces: Seq<Seq<char>>)
    requires
        forall|i: int| 0 <= i < pieces.len() ==> whole_piece(#[trigger] pieces[i]),
    ensures
        path_parts(relative(written_path(pieces)), true) == all_parts(pieces, true),
{
    lemma_relative(pieces);
    lemma_slash_parts(pieces, true);
}

proof fn lemma_plain_parts(pieces: Seq<Seq<char>>, first: bool)
    requires
        forall|i: int| 0 <= i < pieces.len() ==> stays(#[trigger] pieces[i]),
    ensures
        all_parts(pieces, first) == pieces.map_values(|s: Seq<char>| PartView::Name(s)),
    decreases pieces.len(),
{
    let named = pieces.map_values(|s: Seq<char>| PartView::Name(s));
    if pieces.len() == 0 {
        assert(named =~= Seq::<PartView>::empty());
    } else {
        let rest = pieces.skip(1);
        assert(stays(pieces[0]));
        assert forall|i: int| 0 <= i < rest.len() implies stays(#[trigger] rest[i]) by {
            assert(stays(pieces[i + 1]));
        }
        lemma_plain_parts(rest, false);
        assert(seq![PartView::Name(pieces[0])] + rest.map_values(
            |s: Seq<char>| PartView::Name(s),
        ) =~= named);
    }
}

proof fn lemma_names_of(pieces: Seq<Seq<char>>)
    ensures
        names(pieces.map_values(|s: Seq<char>| PartView::Name(s))) == pieces,
    decreases pieces.len(),
{
    let parts = pieces.map_values(|s: Seq<char>| PartView::Name(s));
    if pieces.len() > 0 {
        lemma_names_of(pieces.drop_last());
        assert(parts.drop_last() =~= pieces.drop_last().map_values(
            |s: Seq<char>| PartView::Name(s),
        ));
        assert(parts.last() == PartView::Name(pieces.last()));
        assert(pieces.drop_last().push(pieces.last()) =~= pieces);
    }
}

/// A path that the server writes stands for its pieces, one below the other.
pub proof fn paths_stand_for_their_pieces(pieces: Seq<Seq<char>>)
    requires
        forall|i: int|
            0 <= i < pieces.len() ==> whole_piece(#[trigger] pieces[i]) && stays(pieces[i]),
    ensures
        mapped_names(written_path(pieces)) == Some(pieces),
{
    assert forall|i: int| 0 <= i < pieces.len() implies whole_piece(#[trigger] pieces[i]) by {}
    assert forall|i: int| 0 <= i < pieces.len() implies stays(#[trigger] pieces[i]) by {
        assert(whole_piece(pieces[i]));
    }
    lemma_parts(pieces);
    lemma_plain_parts(pieces, true);
    lemma_names_of(pieces);
    let parts = pieces.map_values(|s: Seq<char>| PartView::Name(s));
    assert forall|i: int| 0 <= i < parts.len() implies !(#[trigger] parts[i] is Parent) by {}
}

proof fn lemma_parent_among(pieces: Seq<Seq<char>>, first: bool, k: int)
    requires
        0 <= k < pieces.len(),
        pieces[k] == seq!['.', '.'],
    ensures
        leads_up(all_parts(pieces, first)),
    decreases pieces.len(),
{
    let parts = all_parts(pieces, first);
    let head = part_of(pieces[0], first);
    let rest = all_parts(pieces.skip(1), false);
    assert(seq!['.', '.'].len() == 2 && seq!['.'].len() == 1);
    if k == 0 {
        assert(parts[0] is Parent);
    } else {
        lemma_parent_among(pieces.skip(1), false, k - 1);
        let j = choose|j: int| 0 <= j < rest.len() && #[trigger] rest[j] is Parent;
        assert(parts[head.len() + j] == rest[j]);
        assert(parts[head.len() + j] is Parent);
    }
}

/// A path with a step up anywhere in it stands for nothing.
pub proof fn steps_up_are_refused(pieces: Seq<Seq<char>>, k: int)
    requires
        forall|i: int| 0 <= i < pieces.len() ==> whole_piece(#[trigger] pieces[i]),
        0 <= k < pieces.len(),
        pieces[k] == seq!['.', '.'],
    ensures
        mapped_names(written_path(pieces)) is None,
{
    lemma_parts(pieces);
    lemma_parent_among(pieces, true, k);
}

/// The last piece of what is searched for is the pattern, and the others are the
/// folder; without any, everything is searched for.
pub proof fn searches_end_with_the_pattern(pieces: Seq<Seq<char>>, pattern: Seq<char>)
    requires
        forall|i: int|
            0 <= i < pieces.len() ==> whole_piece(#[trigger] pieces[i]) && stays(pieces[i]),
        whole_piece(pattern) && stays(pattern),
    ensures
        search_parts(written_path(pieces.push(pattern))) == (
            pieces.map_values(|s: Seq<char>| PartView::Name(s)),
            pattern,
        ),
        search_parts(Seq::empty()).1 == "*"@,
        search_parts(Seq::empty()).0.len() == 0,
{
    let all = pieces.push(pattern);
    assert forall|i: int| 0 <= i < all.len() implies whole_piece(#[trigger] all[i]) by {
        if i < pieces.len() {
            assert(whole_piece(pieces[i]));
        }
    }
    assert forall|i: int| 0 <= i < all.len() implies stays(#[trigger] all[i]) by {
        if i < pieces.len() {
            assert(whole_piece(pieces[i]));
        }
    }
    lemma_parts(all);
    lemma_plain_parts(all, true);
    let parts = all.map_values(|s: Seq<char>| PartView::Name(s));
    assert(parts.drop_last() =~= pieces.map_values(|s: Seq<char>| PartView::Name(s)));
    assert(parts.last() == PartView::Name(pattern));
    assert(slashed(Seq::<char>::empty()) =~= Seq::<char>::empty());
    assert(relative(Seq::<char>::empty()) =~= Seq::<char>::empty());
}

// ---- Wildcards --------------------------------------------------------------

/// Names fit a pattern with a star where they begin and end as it does; the case
/// of letters does not matter. Everything fits an empty pattern and a star.
pub proof fn stars_stand_for_anything(
    front: Seq<char>,
    middle: Seq<char>,
    back: Seq<char>,
    name: Seq<char>,
)
    requires
        ascii(front) && ascii(middle) && ascii(back),
        free_of(front, '*'),
    ensures
        fits(front + seq!['*'] + back, front + middle + back),
        fits(Seq::empty(), name),
        fits("*"@, name),
        fits("*.*"@, name),
{
    let pattern = front + seq!['*'] + back;
    let whole = front + middle + back;
    lemma_ascii_three(front, seq!['*'], back);
    lemma_ascii_three(front, middle, back);
    let p = lowered(pattern);
    let n = lowered(whole);
    let f = ascii_lowered(front);
    let b = ascii_lowered(back);
    assert(p =~= f + seq!['*'] + b) by {
        assert(ascii_lowered(seq!['*']) =~= seq!['*']);
    }
    assert forall|i: int| 0 <= i < f.len() implies #[trigger] f[i] != '*' by {
        assert(front[i] != '*');
        assert((front[i] as u32) < 128);
    }
    lemma_first_found(f, '*', b);
    assert(n =~= f + ascii_lowered(middle) + b);
    assert(n.take(f.len() as int) =~= f);
    assert(n.skip(n.len() - b.len()) =~= b);
}

proof fn lemma_ascii_three(a: Seq<char>, b: Seq<char>, c: Seq<char>)
    requires
        ascii(a),
        ascii(b),
        ascii(c),
    ensures
        ascii(a + b + c),
        ascii_lowered(a + b + c) == ascii_lowered(a) + ascii_lowered(b) + ascii_lowered(c),
{
    let s = a + b + c;
    assert forall|i: int| 0 <= i < s.len() implies (#[trigger] s[i] as u32) < 128 by {
        if i < a.len() {
            assert((a[i] as u32) < 128);
        } else if i < a.len() + b.len() {
            assert((b[i - a.len()] as u32) < 128);
        } else {
            assert((c[i - a.len() - b.len()] as u32) < 128);
        }
    }
    assert(ascii_lowered(s) =~= ascii_lowered(a) + ascii_lowered(b) + ascii_lowered(c));
}

/// Without a star only the name itself fits, in whatever case.
pub proof fn plain_patterns_name_one(pattern: Seq<char>, name: Seq<char>)
    requires
        ascii(pattern),
        free_of(pattern, '*'),
        pattern.len() > 0,
    ensures
        fits(pattern, name) == (lowered(pattern) == lowered(name)),
{
    reveal_strlit("*");
    reveal_strlit("*.*");
    assert("*"@[0] == '*' && "*.*"@[0] == '*');
    assert(pattern[0] != '*');
    let p = lowered(pattern);
    assert forall|i: int| 0 <= i < p.len() implies #[trigger] p[i] != '*' by {
        assert(pattern[i] != '*');
        assert((pattern[i] as u32) < 128);
    }
    lemma_none_found(p, '*');
}

} // verus!
