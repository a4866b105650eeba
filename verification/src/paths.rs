//! Paths as bytes.
//!
//! A slash separates the parts of a path, and on Windows a backslash as well. A path of Windows
//! may start with a prefix: a drive (`C:`), a share (`\\server\share`), a device (`\\.\name`), or
//! a verbatim prefix (`\\?\name`), behind which only backslashes separate parts and a lone dot is
//! a part like any other.

use vstd::prelude::*;
use vstd::slice::slice_subrange;
use vstd::utf8::encode_utf8;

use crate::text::copy_bytes;

verus! {

/// The byte between the parts of a path.
pub const SLASH: u8 = 0x2f;

/// The other byte between the parts of a path, on Windows.
pub const BACKSLASH: u8 = 0x5c;

/// The byte that a part begins its extension with, and that stands alone for a directory itself.
pub const DOT: u8 = 0x2e;

/// The byte behind the letter of a drive.
pub const COLON: u8 = 0x3a;

/// The byte in the middle of what a verbatim prefix starts with.
pub const QUESTION: u8 = 0x3f;

// ---------------------------------------------------------------------------
// Separators and prefixes
// ---------------------------------------------------------------------------

/// `b` separates parts, behind a verbatim prefix or not.
pub open spec fn is_separator(b: u8, windows: bool, verbatim: bool) -> bool {
    b == SLASH && !verbatim || b == BACKSLASH && windows
}

/// The byte that is put between two parts.
pub open spec fn main_separator(windows: bool) -> u8 {
    if windows {
        BACKSLASH
    } else {
        SLASH
    }
}

/// `path` has the letter of a drive at `at`.
pub open spec fn has_drive_at(path: Seq<u8>, at: int) -> bool {
    &&& path.len() >= at + 2
    &&& path[at + 1] == COLON
    &&& 0x41 <= path[at] <= 0x5a || 0x61 <= path[at] <= 0x7a
}

/// `path` starts with a verbatim prefix.
pub open spec fn is_verbatim(path: Seq<u8>, windows: bool) -> bool {
    &&& windows
    &&& path.len() >= 4
    &&& path[0] == BACKSLASH
    &&& path[1] == BACKSLASH
    &&& path[2] == QUESTION
    &&& path[3] == BACKSLASH
}

/// `path` has a separator at `at`, in a prefix that is not verbatim.
pub open spec fn separator_at(path: Seq<u8>, at: int) -> bool {
    path.len() > at && is_separator(path[at], true, false)
}

/// Where the part of a prefix that starts at `from` ends: at the next separator, or with `path`.
pub open spec fn piece_end(path: Seq<u8>, from: int, verbatim: bool) -> int
    decreases path.len() - from,
{
    if from >= path.len() {
        path.len() as int
    } else if is_separator(path[from], true, verbatim) {
        from
    } else {
        piece_end(path, from + 1, verbatim)
    }
}

/// Where the share whose server starts at `from` ends, if there is one.
pub open spec fn share_end(path: Seq<u8>, from: int, verbatim: bool) -> Option<int> {
    let server = piece_end(path, from, verbatim);
    let share = piece_end(path, server + 1, verbatim);
    if share > server + 1 {
        Some(share)
    } else {
        None
    }
}

/// `path`, which starts with a verbatim prefix, names a share in it.
pub open spec fn names_share(path: Seq<u8>) -> bool {
    path.len() >= 8 && path[4] == 0x55 && path[5] == 0x4e && path[6] == 0x43 && separator_at(
        path,
        7,
    )
}

/// How long a verbatim prefix is.
pub open spec fn verbatim_len(path: Seq<u8>) -> int {
    if names_share(path) {
        match share_end(path, 8, true) {
            Some(end) => end,
            None => piece_end(path, 8, true),
        }
    } else if has_drive_at(path, 4) && (path.len() == 6 || separator_at(path, 6)) {
        6
    } else {
        piece_end(path, 4, true)
    }
}

/// How many bytes of `path` are its prefix.
pub open spec fn prefix_len(path: Seq<u8>, windows: bool) -> int {
    if !windows {
        0
    } else if is_verbatim(path, windows) {
        verbatim_len(path)
    } else if separator_at(path, 0) && separator_at(path, 1) {
        if path.len() >= 4 && path[2] == DOT && separator_at(path, 3) {
            piece_end(path, 4, false)
        } else {
            match share_end(path, 2, false) {
                Some(end) if piece_end(path, 2, false) > 2 => end,
                _ => 0,
            }
        }
    } else if has_drive_at(path, 0) {
        2
    } else {
        0
    }
}

/// `path` is the letter of a drive and nothing more.
pub open spec fn is_bare_drive(path: Seq<u8>, windows: bool) -> bool {
    windows && path.len() == 2 && has_drive_at(path, 0)
}

/// What [`piece_end`] is.
pub proof fn lemma_piece_end(path: Seq<u8>, from: int, verbatim: bool)
    requires
        0 <= from,
    ensures
        from <= path.len() ==> from <= piece_end(path, from, verbatim),
        piece_end(path, from, verbatim) <= path.len(),
        piece_end(path, from, verbatim) < path.len() ==> is_separator(
            path[piece_end(path, from, verbatim)],
            true,
            verbatim,
        ),
        forall|i: int|
            from <= i < piece_end(path, from, verbatim) ==> !is_separator(
                #[trigger] path[i],
                true,
                verbatim,
            ),
    decreases path.len() - from,
{
    if from < path.len() && !is_separator(path[from], true, verbatim) {
        lemma_piece_end(path, from + 1, verbatim);
    }
}

/// [`piece_end`] is the only position with those properties.
pub proof fn lemma_piece_end_is(path: Seq<u8>, from: int, verbatim: bool, at: int)
    requires
        0 <= from <= at <= path.len(),
        at < path.len() ==> is_separator(path[at], true, verbatim),
        forall|i: int| from <= i < at ==> !is_separator(#[trigger] path[i], true, verbatim),
    ensures
        piece_end(path, from, verbatim) == at,
{
    lemma_piece_end(path, from, verbatim);
    let k = piece_end(path, from, verbatim);
    if at < k {
        assert(is_separator(path[at], true, verbatim));
    } else if k < at {
        assert(is_separator(path[k], true, verbatim));
    }
}

/// A prefix lies in its path. Behind one that is more than a drive stands a separator, if
/// anything does.
pub proof fn lemma_prefix_len(path: Seq<u8>, windows: bool)
    ensures
        0 <= prefix_len(path, windows) <= path.len(),
        is_verbatim(path, windows) ==> prefix_len(path, windows) >= 4,
        prefix_len(path, windows) > 0 ==> prefix_len(path, windows) >= 2,
        prefix_len(path, windows) == 2 ==> has_drive_at(path, 0),
        2 < prefix_len(path, windows) < path.len() ==> separator_at(
            path,
            prefix_len(path, windows),
        ),
{
    if windows && path.len() >= 2 {
        let verbatim = is_verbatim(path, windows);
        let from = if !verbatim {
            2int
        } else {
            8
        };
        let server = piece_end(path, from, verbatim);
        lemma_piece_end(path, from, verbatim);
        lemma_piece_end(path, server + 1, verbatim);
        lemma_piece_end(path, 4, verbatim);
        lemma_piece_end(path, 4, false);
    }
}

// ---------------------------------------------------------------------------
// Parts
// ---------------------------------------------------------------------------

/// How many bytes of `path` stand before its parts: its prefix, and one where a separator or a
/// part that is a lone dot comes next.
pub open spec fn body_start(path: Seq<u8>, windows: bool) -> int {
    let prefix = prefix_len(path, windows);
    if path.len() > prefix && (is_separator(path[prefix], windows, false) || path[prefix] == DOT
        && (path.len() == prefix + 1 || is_separator(
        path[prefix + 1],
        windows,
        is_verbatim(path, windows),
    ))) {
        prefix + 1
    } else {
        prefix
    }
}

/// Where the last part of `path` starts: behind the last separator at or after `from`, or at
/// `from`.
pub open spec fn part_start(path: Seq<u8>, from: int, windows: bool, verbatim: bool) -> int
    decreases path.len(),
{
    if path.len() == 0 || path.len() <= from || is_separator(path.last(), windows, verbatim) {
        path.len() as int
    } else {
        part_start(path.drop_last(), from, windows, verbatim)
    }
}

/// Where the last part of `path` starts.
pub open spec fn last_start(path: Seq<u8>, windows: bool) -> int {
    part_start(path, body_start(path, windows), windows, is_verbatim(path, windows))
}

/// The last part of `path`.
pub open spec fn last_part(path: Seq<u8>, windows: bool) -> Seq<u8> {
    path.skip(last_start(path, windows))
}

/// `path` without its last part and without the separator before it.
pub open spec fn without_last_part(path: Seq<u8>, windows: bool) -> Seq<u8> {
    let start = last_start(path, windows);
    if start > body_start(path, windows) {
        path.take(start - 1)
    } else {
        path.take(start)
    }
}

/// `path` has a part behind its start.
pub open spec fn has_part(path: Seq<u8>, windows: bool) -> bool {
    path.len() > body_start(path, windows)
}

/// The last part of `path` names nothing of its own: it is empty or, but behind a verbatim
/// prefix, a lone dot.
pub open spec fn ends_idle(path: Seq<u8>, windows: bool) -> bool {
    has_part(path, windows) && (last_part(path, windows) == Seq::<u8>::empty() || last_part(
        path,
        windows,
    ) == seq![DOT] && !is_verbatim(path, windows))
}

/// What [`part_start`] is.
pub proof fn lemma_part_start(path: Seq<u8>, from: int, windows: bool, verbatim: bool)
    requires
        0 <= from <= path.len(),
    ensures
        from <= part_start(path, from, windows, verbatim) <= path.len(),
        part_start(path, from, windows, verbatim) > from ==> is_separator(
            path[part_start(path, from, windows, verbatim) - 1],
            windows,
            verbatim,
        ),
        forall|i: int|
            part_start(path, from, windows, verbatim) <= i < path.len() ==> !is_separator(
                #[trigger] path[i],
                windows,
                verbatim,
            ),
    decreases path.len(),
{
    if path.len() > from && !is_separator(path.last(), windows, verbatim) {
        let shorter = path.drop_last();
        lemma_part_start(shorter, from, windows, verbatim);
        assert forall|i: int|
            part_start(path, from, windows, verbatim) <= i < path.len() implies !is_separator(
            #[trigger] path[i],
            windows,
            verbatim,
        ) by {
            if i < shorter.len() {
                assert(shorter[i] == path[i]);
            }
        }
    }
}

/// [`part_start`] is the only position with those properties.
pub proof fn lemma_part_start_is(
    path: Seq<u8>,
    from: int,
    windows: bool,
    verbatim: bool,
    at: int,
)
    requires
        0 <= from <= at <= path.len(),
        at > from ==> is_separator(path[at - 1], windows, verbatim),
        forall|i: int|
            at <= i < path.len() ==> !is_separator(#[trigger] path[i], windows, verbatim),
    ensures
        part_start(path, from, windows, verbatim) == at,
{
    lemma_part_start(path, from, windows, verbatim);
    let k = part_start(path, from, windows, verbatim);
    if k < at {
        assert(!is_separator(path[at - 1], windows, verbatim));
    } else if at < k {
        assert(!is_separator(path[k - 1], windows, verbatim));
    }
}

/// The last part of a path starts behind its start, and in it.
pub proof fn lemma_last_start(path: Seq<u8>, windows: bool)
    ensures
        0 <= body_start(path, windows) <= last_start(path, windows) <= path.len(),
{
    lemma_prefix_len(path, windows);
    lemma_part_start(
        path,
        body_start(path, windows),
        windows,
        is_verbatim(path, windows),
    );
}

/// `path` without the parts at its end that name nothing.
pub open spec fn tidy(path: Seq<u8>, windows: bool) -> Seq<u8>
    decreases path.len(),
{
    if ends_idle(path, windows) {
        proof {
            lemma_last_start(path, windows);
        }
        tidy(without_last_part(path, windows), windows)
    } else {
        path
    }
}

// ---------------------------------------------------------------------------
// Parents and names
// ---------------------------------------------------------------------------

/// The path that `path` lies in. A root, a prefix and the empty path lie in none.
pub open spec fn parent_of(path: Seq<u8>, windows: bool) -> Option<Seq<u8>> {
    let t = tidy(path, windows);
    if has_part(t, windows) {
        Some(tidy(without_last_part(t, windows), windows))
    } else if t == seq![DOT] {
        Some(Seq::empty())
    } else {
        None
    }
}

/// The name that `path` ends in, unless it ends in a part of dots or at its start.
pub open spec fn file_name_of(path: Seq<u8>, windows: bool) -> Option<Seq<u8>> {
    let t = tidy(path, windows);
    if has_part(t, windows) && last_part(t, windows) != seq![DOT, DOT] && last_part(t, windows)
        != seq![DOT] {
        Some(last_part(t, windows))
    } else {
        None
    }
}

/// Where the extension of `name` starts: at its last dot, or at its end where the only dot is
/// its first byte or there is none.
pub open spec fn stem_end(name: Seq<u8>, whole: nat) -> nat
    decreases name.len(),
{
    if name.len() <= 1 {
        whole
    } else if name.last() == DOT {
        (name.len() - 1) as nat
    } else {
        stem_end(name.drop_last(), whole)
    }
}

/// `name` without its extension.
pub open spec fn stem_of(name: Seq<u8>) -> Seq<u8> {
    name.take(stem_end(name, name.len()) as int)
}

/// `rest` behind `base`. A path with a prefix stays as it is, and one that starts with a separator
/// keeps only the prefix of `base`. No separator is put behind the letter of a drive.
pub open spec fn join_path(base: Seq<u8>, rest: Seq<u8>, windows: bool) -> Seq<u8> {
    if prefix_len(rest, windows) > 0 {
        rest
    } else if rest.len() > 0 && is_separator(rest[0], windows, false) {
        base.take(prefix_len(base, windows)) + rest
    } else if base.len() == 0 || is_bare_drive(base, windows) || is_separator(
        base.last(),
        windows,
        is_verbatim(base, windows),
    ) {
        base + rest
    } else {
        base + seq![main_separator(windows)] + rest
    }
}

/// The directory that `path` lies in: its parent, or `.` where that is nothing.
pub open spec fn directory_of(path: Seq<u8>, windows: bool) -> Seq<u8> {
    match parent_of(path, windows) {
        Some(parent) => if parent.len() == 0 {
            seq![DOT]
        } else {
            parent
        },
        None => seq![DOT],
    }
}

// ---------------------------------------------------------------------------
// Reading paths
// ---------------------------------------------------------------------------

/// Whether `b` separates parts.
fn separates(b: u8, windows: bool, verbatim: bool) -> (yes: bool)
    ensures
        yes == is_separator(b, windows, verbatim),
{
    b == SLASH && !verbatim || b == BACKSLASH && windows
}

/// Whether `path` has a separator at `at`, in a prefix that is not verbatim.
fn separates_at(path: &[u8], at: usize) -> (yes: bool)
    ensures
        yes == separator_at(path@, at as int),
{
    path.len() > at && separates(path[at], true, false)
}

/// Whether `path` has the letter of a drive at `at`.
fn drive_at(path: &[u8], at: usize) -> (yes: bool)
    requires
        at <= 4,
    ensures
        yes == has_drive_at(path@, at as int),
{
    path.len() >= at + 2 && path[at + 1] == COLON && ((0x41 <= path[at] && path[at] <= 0x5a) || (
    0x61 <= path[at] && path[at] <= 0x7a))
}

/// Whether `path` starts with a verbatim prefix.
fn verbatim(path: &[u8], windows: bool) -> (yes: bool)
    ensures
        yes == is_verbatim(path@, windows),
{
    windows && path.len() >= 4 && path[0] == BACKSLASH && path[1] == BACKSLASH && path[2]
        == QUESTION && path[3] == BACKSLASH
}

/// Where the part of a prefix that starts at `from` ends.
fn end_of_piece(path: &[u8], from: usize, verbatim: bool) -> (end: usize)
    ensures
        end == piece_end(path@, from as int, verbatim),
        end <= path@.len(),
{
    let mut at: usize = from;
    while at < path.len() && !separates(path[at], true, verbatim)
        invariant
            from <= at,
            from <= path@.len() ==> at <= path@.len(),
            piece_end(path@, from as int, verbatim) == piece_end(path@, at as int, verbatim),
        decreases path@.len() - at,
    {
        at = at + 1;
    }
    if at < path.len() {
        at
    } else {
        path.len()
    }
}

/// Where the share whose server starts at `from` ends, if there is one.
fn end_of_share(path: &[u8], from: usize, verbatim: bool) -> (end: Option<usize>)
    ensures
        match end {
            Some(at) => share_end(path@, from as int, verbatim) == Some(at as int) && at
                <= path@.len(),
            None => share_end(path@, from as int, verbatim) is None,
        },
{
    let server: usize = end_of_piece(path, from, verbatim);
    proof {
        lemma_piece_end(path@, server + 1, verbatim);
    }
    if server >= path.len() {
        return None;
    }
    let share: usize = end_of_piece(path, server + 1, verbatim);
    if share > server + 1 {
        Some(share)
    } else {
        None
    }
}

/// How many bytes of `path` are its prefix.
fn length_of_prefix(path: &[u8], windows: bool) -> (len: usize)
    ensures
        len == prefix_len(path@, windows),
        len <= path@.len(),
{
    proof {
        lemma_prefix_len(path@, windows);
    }
    if !windows {
        return 0;
    }
    if verbatim(path, windows) {
        let share = path.len() >= 8 && path[4] == 0x55 && path[5] == 0x4e && path[6] == 0x43
            && separates_at(path, 7);
        if share {
            return match end_of_share(path, 8, true) {
                Some(end) => end,
                None => end_of_piece(path, 8, true),
            };
        }
        if drive_at(path, 4) && (path.len() == 6 || separates_at(path, 6)) {
            return 6;
        }
        return end_of_piece(path, 4, true);
    }
    if separates_at(path, 0) && separates_at(path, 1) {
        if path.len() >= 4 && path[2] == DOT && separates_at(path, 3) {
            return end_of_piece(path, 4, false);
        }
        let server: usize = end_of_piece(path, 2, false);
        return match end_of_share(path, 2, false) {
            Some(end) => if server > 2 {
                end
            } else {
                0
            },
            None => 0,
        };
    }
    if drive_at(path, 0) {
        2
    } else {
        0
    }
}

fn start_of_body(path: &[u8], windows: bool) -> (start: usize)
    ensures
        start == body_start(path@, windows),
        start <= path@.len(),
{
    let prefix: usize = length_of_prefix(path, windows);
    if path.len() > prefix && (separates(path[prefix], windows, false) || path[prefix] == DOT && (
    path.len() == prefix + 1 || separates(path[prefix + 1], windows, verbatim(path, windows)))) {
        prefix + 1
    } else {
        prefix
    }
}

fn start_of_part(path: &[u8], windows: bool) -> (start: usize)
    ensures
        start == last_start(path@, windows),
        body_start(path@, windows) <= start <= path@.len(),
{
    let from: usize = start_of_body(path, windows);
    let verbatim = verbatim(path, windows);
    let mut at: usize = path.len();
    while at > from && !separates(path[at - 1], windows, verbatim)
        invariant
            from <= at <= path@.len(),
            forall|i: int|
                at <= i < path@.len() ==> !is_separator(#[trigger] path@[i], windows, verbatim),
        decreases at,
    {
        at = at - 1;
    }
    proof {
        lemma_part_start_is(path@, from as int, windows, verbatim, at as int);
    }
    at
}

/// The last part of `path`.
fn part_at_end(path: &[u8], windows: bool) -> (part: &[u8])
    ensures
        part@ == last_part(path@, windows),
{
    let start: usize = start_of_part(path, windows);
    let part = slice_subrange(path, start, path.len());
    assert(part@ =~= path@.skip(start as int));
    part
}

/// `path` without its last part.
fn drop_part(path: &[u8], windows: bool) -> (rest: &[u8])
    ensures
        rest@ == without_last_part(path@, windows),
{
    let start: usize = start_of_part(path, windows);
    let rest = if start > start_of_body(path, windows) {
        slice_subrange(path, 0, start - 1)
    } else {
        slice_subrange(path, 0, start)
    };
    assert(rest@ =~= without_last_part(path@, windows));
    rest
}

/// Whether `part` is a lone dot.
fn is_lone_dot(part: &[u8]) -> (yes: bool)
    ensures
        yes == (part@ == seq![DOT]),
{
    let yes = part.len() == 1 && part[0] == DOT;
    assert(yes ==> part@ =~= seq![DOT]);
    yes
}

/// `path` without the parts at its end that name nothing.
fn tidied(path: &[u8], windows: bool) -> (rest: &[u8])
    ensures
        rest@ == tidy(path@, windows),
{
    let mut rest: &[u8] = path;
    loop
        invariant
            tidy(rest@, windows) == tidy(path@, windows),
        decreases rest@.len(),
    {
        if rest.len() <= start_of_body(rest, windows) {
            return rest;
        }
        let part = part_at_end(rest, windows);
        assert(part.len() == 0 ==> part@ =~= Seq::empty());
        if part.len() != 0 && !(is_lone_dot(part) && !verbatim(rest, windows)) {
            return rest;
        }
        proof {
            lemma_last_start(rest@, windows);
        }
        rest = drop_part(rest, windows);
    }
}

/// The path that `path` lies in.
pub fn parent(path: &[u8], windows: bool) -> (found: Option<Vec<u8>>)
    ensures
        match found {
            Some(p) => parent_of(path@, windows) == Some(p@),
            None => parent_of(path@, windows) is None,
        },
{
    let t = tidied(path, windows);
    if t.len() > start_of_body(t, windows) {
        return Some(copy_bytes(tidied(drop_part(t, windows), windows)));
    }
    if is_lone_dot(t) {
        Some(Vec::new())
    } else {
        None
    }
}

/// The name that `path` ends in.
pub fn file_name(path: &[u8], windows: bool) -> (found: Option<Vec<u8>>)
    ensures
        match found {
            Some(name) => file_name_of(path@, windows) == Some(name@),
            None => file_name_of(path@, windows) is None,
        },
{
    let t = tidied(path, windows);
    if t.len() <= start_of_body(t, windows) {
        return None;
    }
    let part = part_at_end(t, windows);
    let up = part.len() == 2 && part[0] == DOT && part[1] == DOT;
    assert(up ==> part@ =~= seq![DOT, DOT]);
    if up || is_lone_dot(part) {
        None
    } else {
        Some(copy_bytes(part))
    }
}

/// `name` without its extension.
pub fn stem(name: &[u8]) -> (rest: Vec<u8>)
    ensures
        rest@ == stem_of(name@),
{
    let mut at: usize = name.len();
    assert(name@.take(name@.len() as int) =~= name@);
    while at > 1
        invariant
            at <= name@.len(),
            stem_end(name@, name@.len()) == stem_end(name@.take(at as int), name@.len()),
        decreases at,
    {
        assert(name@.take(at as int).drop_last() =~= name@.take(at - 1));
        at = at - 1;
        if name[at] == DOT {
            return copy_bytes(slice_subrange(name, 0, at));
        }
    }
    copy_bytes(name)
}

/// `rest` behind `base`.
pub fn join_paths(base: &[u8], rest: &[u8], windows: bool) -> (path: Vec<u8>)
    ensures
        path@ == join_path(base@, rest@, windows),
{
    if length_of_prefix(rest, windows) > 0 {
        return copy_bytes(rest);
    }
    if rest.len() > 0 && separates(rest[0], windows, false) {
        let kept: usize = length_of_prefix(base, windows);
        let mut path = copy_bytes(slice_subrange(base, 0, kept));
        path.extend_from_slice(rest);
        assert(path@ =~= join_path(base@, rest@, windows));
        return path;
    }
    let mut path = copy_bytes(base);
    let bare_drive = windows && base.len() == 2 && drive_at(base, 0);
    if base.len() > 0 && !bare_drive && !separates(
        base[base.len() - 1],
        windows,
        verbatim(base, windows),
    ) {
        path.push(
            if windows {
                BACKSLASH
            } else {
                SLASH
            },
        );
    }
    path.extend_from_slice(rest);
    assert(path@ =~= join_path(base@, rest@, windows));
    path
}

/// The directory itself.
fn here() -> (dir: Vec<u8>)
    ensures
        dir@ == seq![DOT],
{
    let mut dir: Vec<u8> = Vec::new();
    dir.push(DOT);
    assert(dir@ =~= seq![DOT]);
    dir
}

/// The directory that `path` lies in.
pub fn directory(path: &[u8], windows: bool) -> (dir: Vec<u8>)
    ensures
        dir@ == directory_of(path@, windows),
{
    match parent(path, windows) {
        Some(p) => if p.len() > 0 {
            p
        } else {
            here()
        },
        None => here(),
    }
}

// ---------------------------------------------------------------------------
// The output directory
// ---------------------------------------------------------------------------

/// The name of the output directory where the input has none to give.
pub open spec fn fallback_name() -> Seq<u8> {
    encode_utf8("extracted_game_data"@)
}

/// The directory that an installer is extracted to when none is asked for: next to `input`, and
/// called after it without its extension.
pub open spec fn default_output(input: Seq<u8>, windows: bool) -> Seq<u8> {
    let name = match file_name_of(input, windows) {
        Some(name) => stem_of(name),
        None => fallback_name(),
    };
    join_path(directory_of(input, windows), name, windows)
}

/// The directory that `input` is extracted to when none is asked for.
pub fn default_output_dir(input: &[u8], windows: bool) -> (dir: Vec<u8>)
    ensures
        dir@ == default_output(input@, windows),
{
    let name = match file_name(input, windows) {
        Some(name) => stem(name.as_slice()),
        None => copy_bytes("extracted_game_data".as_bytes()),
    };
    join_paths(directory(input, windows).as_slice(), name.as_slice(), windows)
}

} // verus!
