//! Paths as the remote desktop writes them, and file names with wildcards.

use vstd::prelude::*;

use crate::text::{
    begins_with, chars_of, find, find_from, lemma_find_from, lower, lowered, part, same_chars,
    same_text, starts_with, text_of, texts,
};

verus! {

// ---- Parts of paths ---------------------------------------------------------

/// A part of a path.
#[derive(Clone, Debug)]
pub enum PathPart {
    /// `.` at the beginning.
    Current,
    /// `..`
    Parent,
    /// Any other name.
    Name(String),
}

/// What a [`PathPart`] says.
#[verifier::ext_equal]
pub enum PartView {
    Current,
    Parent,
    Name(Seq<char>),
}

impl View for PathPart {
    type V = PartView;

    open spec fn view(&self) -> PartView {
        match *self {
            PathPart::Current => PartView::Current,
            PathPart::Parent => PartView::Parent,
            PathPart::Name(name) => PartView::Name(name@),
        }
    }
}

/// What the parts of a path say.
pub open spec fn parts_view(parts: Seq<PathPart>) -> Seq<PartView> {
    parts.map_values(|p: PathPart| p@)
}

/// `s` without the characters `c` that it begins with.
pub open spec fn stripped_start(s: Seq<char>, c: char) -> Seq<char>
    decreases s.len(),
{
    if s.len() > 0 && s[0] == c {
        stripped_start(s.skip(1), c)
    } else {
        s
    }
}

/// `s` without the characters `c` that it ends with.
pub open spec fn stripped_end(s: Seq<char>, c: char) -> Seq<char>
    decreases s.len(),
{
    if s.len() > 0 && s.last() == c {
        stripped_end(s.drop_last(), c)
    } else {
        s
    }
}

/// `s` with slashes for backslashes.
pub open spec fn slashed(s: Seq<char>) -> Seq<char> {
    s.map_values(
        |c: char|
            if c == '\\' {
                '/'
            } else {
                c
            },
    )
}

/// A remote path without zeros around it, with slashes between its parts and
/// none before them.
pub open spec fn relative(path: Seq<char>) -> Seq<char> {
    stripped_start(slashed(stripped_end(stripped_start(path, '\0'), '\0')), '/')
}

/// The part that stands between two slashes, if any: nothing and `.` count as
/// none, except for a `.` that is the first.
pub open spec fn part_of(piece: Seq<char>, first: bool) -> Seq<PartView> {
    if piece.len() == 0 {
        Seq::empty()
    } else if piece == seq!['.'] {
        if first {
            seq![PartView::Current]
        } else {
            Seq::empty()
        }
    } else if piece == seq!['.', '.'] {
        seq![PartView::Parent]
    } else {
        seq![PartView::Name(piece)]
    }
}

/// The parts of a path between its slashes.
pub open spec fn path_parts(s: Seq<char>, first: bool) -> Seq<PartView>
    decreases s.len(),
{
    if s.len() == 0 {
        Seq::empty()
    } else {
        match find_from(s, '/', 0) {
            Some(i) => if 0 <= i < s.len() {
                part_of(s.take(i), first) + path_parts(s.skip(i + 1), false)
            } else {
                Seq::empty()
            },
            None => part_of(s, first),
        }
    }
}

/// `s` without the characters `c` that it begins with.
fn strip_start(s: &[char], c: char) -> (res: &[char])
    ensures
        res@ == stripped_start(s@, c),
{
    let size = s.len();
    let mut from: usize = 0;
    assert(s@.skip(0) =~= s@);
    while from < size && s[from] == c
        invariant
            size == s@.len(),
            from <= size,
            stripped_start(s@, c) == stripped_start(s@.skip(from as int), c),
        decreases size - from,
    {
        assert(s@.skip(from as int).skip(1) =~= s@.skip(from + 1));
        from += 1;
    }
    let res = part(s, from, size);
    assert(res@ =~= s@.skip(from as int));
    res
}

/// `s` without the characters `c` that it ends with.
pub fn strip_end(s: &[char], c: char) -> (res: &[char])
    ensures
        res@ == stripped_end(s@, c),
{
    let mut to = s.len();
    assert(s@.take(to as int) =~= s@);
    while to > 0 && s[to - 1] == c
        invariant
            to <= s@.len(),
            stripped_end(s@, c) == stripped_end(s@.take(to as int), c),
        decreases to,
    {
        assert(s@.take(to as int).drop_last() =~= s@.take(to - 1));
        to -= 1;
    }
    let res = part(s, 0, to);
    assert(res@ =~= s@.take(to as int));
    res
}

/// A remote path with slashes between its parts and none before them.
fn relative_path(path: &str) -> (res: Vec<char>)
    ensures
        res@ == relative(path@),
{
    let chars = chars_of(path);
    let bare = strip_end(strip_start(chars.as_slice(), '\0'), '\0');
    let mut out: Vec<char> = Vec::new();
    let mut i: usize = 0;
    while i < bare.len()
        invariant
            i <= bare@.len(),
            out@ =~= slashed(bare@).take(i as int),
        decreases bare@.len() - i,
    {
        out.push(
            if bare[i] == '\\' {
                '/'
            } else {
                bare[i]
            },
        );
        i += 1;
    }
    assert(out@ =~= slashed(bare@));
    let res = strip_start(out.as_slice(), '/');
    vstd::slice::slice_to_vec(res)
}

/// Appends the part that stands between two slashes, if any.
fn push_part(parts: &mut Vec<PathPart>, piece: &[char], first: bool)
    ensures
        parts_view(final(parts)@) == parts_view(old(parts)@) + part_of(piece@, first),
{
    if piece.len() == 1 && piece[0] == '.' {
        assert(piece@ =~= seq!['.']);
        if first {
            parts.push(PathPart::Current);
        }
    } else if piece.len() == 2 && piece[0] == '.' && piece[1] == '.' {
        assert(piece@ =~= seq!['.', '.']);
        parts.push(PathPart::Parent);
    } else if piece.len() > 0 {
        parts.push(PathPart::Name(text_of(piece)));
    }
    assert(parts_view(parts@) =~= parts_view(old(parts)@) + part_of(piece@, first));
}

/// The parts of a path between its slashes.
fn split_parts(s: &[char]) -> (parts: Vec<PathPart>)
    ensures
        parts_view(parts@) == path_parts(s@, true),
{
    let mut parts: Vec<PathPart> = Vec::new();
    let mut rest = s;
    let mut first = true;
    assert(parts_view(parts@) =~= Seq::<PartView>::empty());
    assert(Seq::<PartView>::empty() + path_parts(s@, true) =~= path_parts(s@, true));
    while rest.len() > 0
        invariant
            parts_view(parts@) + path_parts(rest@, first) == path_parts(s@, true),
        decreases rest@.len(),
    {
        let size = rest.len();
        let ghost before = parts_view(parts@);
        match find(rest, '/') {
            Some(i) => {
                let piece = part(rest, 0, i);
                assert(piece@ =~= rest@.take(i as int));
                push_part(&mut parts, piece, first);
                let next = part(rest, i + 1, size);
                assert(next@ =~= rest@.skip(i + 1));
                assert(before + (part_of(piece@, first) + path_parts(next@, false))
                    =~= parts_view(parts@) + path_parts(next@, false));
                rest = next;
                first = false;
            },
            None => {
                push_part(&mut parts, rest, first);
                rest = part(rest, size, size);
                first = false;
                assert(parts_view(parts@) + Seq::<PartView>::empty() =~= parts_view(parts@));
            },
        }
    }
    assert(parts_view(parts@) + Seq::<PartView>::empty() =~= parts_view(parts@));
    parts
}

// ---- Paths in the mapped folder ---------------------------------------------

/// Whether a path leads upwards somewhere.
pub open spec fn leads_up(parts: Seq<PartView>) -> bool {
    exists|i: int| 0 <= i < parts.len() && #[trigger] parts[i] is Parent
}

/// The names among the parts of a path.
pub open spec fn names(parts: Seq<PartView>) -> Seq<Seq<char>>
    decreases parts.len(),
{
    if parts.len() == 0 {
        Seq::empty()
    } else {
        match parts.last() {
            PartView::Name(name) => names(parts.drop_last()).push(name),
            _ => names(parts.drop_last()),
        }
    }
}

/// The names of a remote path from the mapped folder down; none where it leads
/// upwards.
pub open spec fn mapped_names(path: Seq<char>) -> Option<Seq<Seq<char>>> {
    let parts = path_parts(relative(path), true);
    if leads_up(parts) {
        None
    } else {
        Some(names(parts))
    }
}

/// A name that stays in its folder.
pub open spec fn stays(name: Seq<char>) -> bool {
    &&& name.len() > 0
    &&& name != seq!['.']
    &&& name != seq!['.', '.']
    &&& forall|i: int| 0 <= i < name.len() ==> name[i] != '/'
}

proof fn lemma_parts_stay(s: Seq<char>, first: bool)
    ensures
        forall|i: int|
            0 <= i < path_parts(s, first).len() ==> (#[trigger] path_parts(s, first)[i] matches
                PartView::Name(name) ==> stays(name)),
    decreases s.len(),
{
    if s.len() > 0 {
        lemma_find_from(s, '/', 0);
        match find_from(s, '/', 0) {
            Some(i) => {
                lemma_parts_stay(s.skip(i + 1), false);
                let head = part_of(s.take(i), first);
                let rest = path_parts(s.skip(i + 1), false);
                assert forall|j: int| 0 <= j < path_parts(s, first).len() implies (
                #[trigger] path_parts(s, first)[j] matches PartView::Name(name) ==> stays(
                    name,
                )) by {
                    if j >= head.len() {
                        assert(path_parts(s, first)[j] == rest[j - head.len()]);
                    } else {
                        assert(path_parts(s, first)[j] == head[j]);
                    }
                }
            },
            None => {},
        }
    }
}

proof fn lemma_names(parts: Seq<PartView>)
    ensures
        forall|i: int|
            0 <= i < names(parts).len() ==> exists|j: int|
                0 <= j < parts.len() && parts[j] == PartView::Name(#[trigger] names(parts)[i]),
    decreases parts.len(),
{
    if parts.len() > 0 {
        let rest = parts.drop_last();
        lemma_names(rest);
        assert forall|i: int| 0 <= i < names(parts).len() implies exists|j: int|
            0 <= j < parts.len() && parts[j] == PartView::Name(#[trigger] names(parts)[i]) by {
            if i < names(rest).len() {
                let j = choose|j: int|
                    0 <= j < rest.len() && rest[j] == PartView::Name(names(rest)[i]);
                assert(parts[j] == PartView::Name(names(parts)[i]));
            } else {
                assert(parts[parts.len() - 1] == PartView::Name(names(parts)[i]));
            }
        }
    }
}

/// A remote path that is accepted stays in the mapped folder: each of its names
/// leads one step down.
pub proof fn mapped_names_stay(path: Seq<char>)
    requires
        mapped_names(path) is Some,
    ensures
        forall|i: int| 0 <= i < mapped_names(path)->0.len() ==> stays(
            #[trigger] mapped_names(path)->0[i],
        ),
{
    let parts = path_parts(relative(path), true);
    lemma_parts_stay(relative(path), true);
    lemma_names(parts);
    assert forall|i: int| 0 <= i < mapped_names(path)->0.len() implies stays(
        #[trigger] mapped_names(path)->0[i],
    ) by {
        let j = choose|j: int| 0 <= j < parts.len() && parts[j] == PartView::Name(names(parts)[i]);
        assert(parts[j] matches PartView::Name(name) ==> stays(name));
    }
}

/// The names of a remote path from the mapped folder down; none where it leads
/// upwards.
pub fn mapped_components(path: &str) -> (res: Option<Vec<String>>)
    ensures
        match res {
            Some(found) => mapped_names(path@) == Some(texts(found@)),
            None => mapped_names(path@) is None,
        },
{
    let text = relative_path(path);
    let parts = split_parts(text.as_slice());
    let ghost all = parts_view(parts@);
    let mut found: Vec<String> = Vec::new();
    let mut i: usize = 0;
    assert(all.take(0) =~= Seq::<PartView>::empty());
    assert(texts(found@) =~= Seq::<Seq<char>>::empty());
    while i < parts.len()
        invariant
            all == parts_view(parts@),
            all == path_parts(relative(path@), true),
            i <= parts@.len(),
            texts(found@) == names(all.take(i as int)),
            forall|j: int| 0 <= j < i ==> !(#[trigger] all[j] is Parent),
        decreases parts@.len() - i,
    {
        let ghost before = found@;
        assert(all[i as int] == parts@[i as int]@);
        assert(all.take(i + 1).drop_last() =~= all.take(i as int));
        match &parts[i] {
            PathPart::Current => {},
            PathPart::Parent => {
                assert(leads_up(all));
                return None;
            },
            PathPart::Name(name) => {
                found.push(name.clone());
                assert(texts(found@) =~= texts(before).push(name@));
            },
        }
        i += 1;
    }
    assert(all.take(i as int) =~= all);
    Some(found)
}

// ---- Searching --------------------------------------------------------------

/// What a search asks for: the folder to search, relative to the one that is
/// open, and the pattern of names in it.
pub open spec fn search_parts(pattern: Seq<char>) -> (Seq<PartView>, Seq<char>) {
    let parts = path_parts(relative(pattern), true);
    if parts.len() == 0 {
        (parts, "*"@)
    } else {
        (
            parts.drop_last(),
            match parts.last() {
                PartView::Name(name) => name,
                _ => "*"@,
            },
        )
    }
}

/// The folder that a search goes through, and the pattern of names in it.
pub fn split_search_pattern(pattern: &str) -> (res: (Vec<PathPart>, String))
    ensures
        (parts_view(res.0@), res.1@) == search_parts(pattern@),
{
    let text = relative_path(pattern);
    let mut parts = split_parts(text.as_slice());
    let ghost all = parts_view(parts@);
    match parts.pop() {
        Some(last) => {
            assert(parts_view(parts@) =~= all.drop_last());
            let name = match last {
                PathPart::Name(name) => name,
                _ => "*".to_owned(),
            };
            (parts, name)
        },
        None => {
            assert(parts_view(parts@) =~= all);
            (parts, "*".to_owned())
        },
    }
}

/// Whether `s` ends with `suffix`.
pub open spec fn finishes_with(s: Seq<char>, suffix: Seq<char>) -> bool {
    s.len() >= suffix.len() && s.skip(s.len() - suffix.len()) == suffix
}

/// Whether a name fits a pattern. Case does not count. The first star of a
/// pattern stands for anything between what is before and what is behind it.
pub open spec fn fits(pattern: Seq<char>, name: Seq<char>) -> bool {
    if pattern.len() == 0 || pattern == "*"@ || pattern == "*.*"@ {
        true
    } else {
        let p = lowered(pattern);
        let n = lowered(name);
        match find_from(p, '*', 0) {
            Some(i) => begins_with(n, p.take(i)) && finishes_with(n, p.skip(i + 1)),
            None => p == n,
        }
    }
}

/// Whether a name fits a pattern.
pub fn wildcard_matches(pattern: &str, name: &str) -> (res: bool)
    ensures
        res == fits(pattern@, name@),
{
    let chars = chars_of(pattern);
    let wanted = chars.as_slice();
    if wanted.len() == 0 || same_text(wanted, "*") || same_text(wanted, "*.*") {
        return true;
    }
    let small = lower(wanted);
    let p = chars_of(small.as_str());
    let name_chars = chars_of(name);
    let small_name = lower(name_chars.as_slice());
    let n = chars_of(small_name.as_str());
    match find(p.as_slice(), '*') {
        Some(i) => {
            let size = p.len();
            let prefix = part(p.as_slice(), 0, i);
            assert(prefix@ =~= p@.take(i as int));
            let suffix = part(p.as_slice(), i + 1, size);
            assert(suffix@ =~= p@.skip(i + 1));
            if !starts_with(n.as_slice(), prefix) || n.len() < suffix.len() {
                return false;
            }
            let end = part(n.as_slice(), n.len() - suffix.len(), n.len());
            assert(end@ =~= n@.skip(n@.len() - suffix@.len()));
            same_chars(end, suffix)
        },
        None => same_chars(p.as_slice(), n.as_slice()),
    }
}

} // verus!
