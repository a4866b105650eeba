//! What holds of paths.

use vstd::prelude::*;

use crate::paths::{body_start, default_output, directory_of, ends_idle, file_name_of, has_part};
use crate::paths::{has_drive_at, is_bare_drive, is_separator, is_verbatim, join_path, last_part};
use crate::paths::{last_start, lemma_last_start, lemma_part_start, lemma_part_start_is};
use crate::paths::{lemma_piece_end, lemma_piece_end_is, lemma_prefix_len, main_separator};
use crate::paths::{parent_of, piece_end, prefix_len, separator_at, stem_end, stem_of, tidy};
use crate::paths::{without_last_part, DOT};

verus! {

/// `name` can be the name of something in a directory.
pub open spec fn is_name(name: Seq<u8>, windows: bool) -> bool {
    &&& name.len() > 0
    &&& forall|i: int| 0 <= i < name.len() ==> !is_separator(#[trigger] name[i], windows, false)
    &&& name != seq![DOT]
    &&& name != seq![DOT, DOT]
    &&& windows ==> !has_drive_at(name, 0)
}

/// What is put in `directory` under `name` has the prefix of `directory`. On Windows a name can
/// lengthen the prefix: that of `\\server` is the share of `\\server\name`.
pub open spec fn keeps_prefix(directory: Seq<u8>, name: Seq<u8>, windows: bool) -> bool {
    prefix_len(join_path(directory, name, windows), windows) == prefix_len(directory, windows)
}

/// `directory` is more than a prefix, or the letter of a drive.
pub open spec fn is_rooted(directory: Seq<u8>, windows: bool) -> bool {
    prefix_len(directory, windows) < directory.len() || is_bare_drive(directory, windows)
}

proof fn lemma_tidy_is_tidy(path: Seq<u8>, windows: bool)
    ensures
        !ends_idle(tidy(path, windows), windows),
    decreases path.len(),
{
    if ends_idle(path, windows) {
        lemma_last_start(path, windows);
        lemma_tidy_is_tidy(without_last_part(path, windows), windows);
    }
}

proof fn lemma_name_has_no_prefix(name: Seq<u8>, windows: bool)
    requires
        is_name(name, windows),
    ensures
        prefix_len(name, windows) == 0,
{
    if windows {
        assert(!is_separator(name[0], windows, false));
    }
}

/// What is put in a directory lies in it, under its name.
pub proof fn law_join_puts_inside(directory: Seq<u8>, name: Seq<u8>, windows: bool)
    requires
        directory.len() > 0,
        !ends_idle(directory, windows),
        is_name(name, windows),
        is_rooted(directory, windows),
        keeps_prefix(directory, name, windows),
    ensures
        parent_of(join_path(directory, name, windows), windows) == Some(directory),
        file_name_of(join_path(directory, name, windows), windows) == Some(name),
{
    let path = join_path(directory, name, windows);
    let prefix = prefix_len(directory, windows);
    let verbatim = is_verbatim(directory, windows);
    let from = body_start(directory, windows);
    lemma_name_has_no_prefix(name, windows);
    lemma_prefix_len(directory, windows);
    lemma_prefix_len(path, windows);
    lemma_last_start(directory, windows);
    assert(!is_separator(name[0], windows, false));
    assert(forall|i: int| 0 <= i < directory.len() ==> path[i] == directory[i]);
    assert(is_verbatim(path, windows) == verbatim);
    assert(forall|i: int|
        0 <= i < name.len() ==> !is_separator(#[trigger] name[i], windows, verbatim));
    let ends_apart = is_separator(directory.last(), windows, verbatim);
    if is_bare_drive(directory, windows) || ends_apart {
        let at = directory.len() as int;
        if ends_apart && has_part(directory, windows) {
            lemma_part_start_is(directory, from, windows, verbatim, at);
            assert(last_part(directory, windows) =~= Seq::empty());
        }
        assert(path =~= directory + name);
        assert(path[at] == name[0]);
        if name.len() > 1 {
            assert(path[at + 1] == name[1]);
        } else if name[0] == DOT {
            assert(name =~= seq![DOT]);
        }
        assert(body_start(path, windows) == at);
        assert forall|i: int| at <= i < path.len() implies !is_separator(
            #[trigger] path[i],
            windows,
            verbatim,
        ) by {
            assert(path[i] == name[i - at]);
        }
        lemma_part_start_is(path, at, windows, verbatim, at);
        assert(without_last_part(path, windows) =~= directory);
    } else {
        let at = directory.len() as int + 1;
        assert(path =~= directory + seq![main_separator(windows)] + name);
        assert(path[at - 1] == main_separator(windows));
        assert(body_start(path, windows) == from);
        assert forall|i: int| at <= i < path.len() implies !is_separator(
            #[trigger] path[i],
            windows,
            verbatim,
        ) by {
            assert(path[i] == name[i - at]);
        }
        lemma_part_start_is(path, from, windows, verbatim, at);
        assert(without_last_part(path, windows) =~= directory);
    }
    assert(last_part(path, windows) =~= name);
    assert(name != Seq::<u8>::empty());
    assert(!ends_idle(path, windows));
}

// ---------------------------------------------------------------------------
// Prefixes
// ---------------------------------------------------------------------------

proof fn lemma_piece_end_of_take(path: Seq<u8>, from: int, verbatim: bool, n: int)
    requires
        0 <= from <= n <= path.len(),
    ensures
        piece_end(path.take(n), from, verbatim) == if piece_end(path, from, verbatim) < n {
            piece_end(path, from, verbatim)
        } else {
            n
        },
{
    lemma_piece_end(path, from, verbatim);
    let end = piece_end(path, from, verbatim);
    let at = if end < n {
        end
    } else {
        n
    };
    lemma_piece_end_is(path.take(n), from, verbatim, at);
}

/// A path that is cut behind its start keeps its prefix.
proof fn lemma_prefix_of_take(path: Seq<u8>, windows: bool, n: int)
    requires
        body_start(path, windows) <= n <= path.len(),
    ensures
        prefix_len(path.take(n), windows) == prefix_len(path, windows),
{
    lemma_prefix_len(path, windows);
    let cut = path.take(n);
    if windows && path.len() >= 2 {
        let verbatim = is_verbatim(path, windows);
        let double = separator_at(path, 0) && separator_at(path, 1);
        if verbatim {
            lemma_piece_end(path, 4, true);
            lemma_piece_end_of_take(path, 4, true, n);
            assert(is_verbatim(cut, windows));
            if path.len() >= 8 {
                let server = piece_end(path, 8, true);
                lemma_piece_end(path, 8, true);
                lemma_piece_end(path, server + 1, true);
                if n >= 8 {
                    lemma_piece_end_of_take(path, 8, true, n);
                    if server < n {
                        lemma_piece_end_of_take(path, server + 1, true, n);
                    }
                }
            }
        } else if double {
            let server = piece_end(path, 2, false);
            lemma_piece_end(path, 2, false);
            lemma_piece_end(path, server + 1, false);
            if n >= 2 {
                lemma_piece_end_of_take(path, 2, false, n);
                if server < n {
                    lemma_piece_end_of_take(path, server + 1, false, n);
                }
            }
            if path.len() >= 4 {
                lemma_piece_end(path, 4, false);
                if n >= 4 {
                    lemma_piece_end_of_take(path, 4, false, n);
                }
            }
        }
    }
}

/// A path that is cut behind its start is still rooted.
proof fn lemma_cut_is_rooted(path: Seq<u8>, windows: bool)
    requires
        has_part(path, windows),
    ensures
        without_last_part(path, windows).len() == 0 || is_rooted(
            without_last_part(path, windows),
            windows,
        ),
{
    let start = last_start(path, windows);
    let cut = without_last_part(path, windows);
    lemma_last_start(path, windows);
    lemma_prefix_len(path, windows);
    lemma_prefix_of_take(path, windows, cut.len() as int);
}

proof fn lemma_tidy_is_rooted(path: Seq<u8>, windows: bool)
    requires
        path.len() == 0 || is_rooted(path, windows),
    ensures
        tidy(path, windows).len() == 0 || is_rooted(tidy(path, windows), windows),
    decreases path.len(),
{
    if ends_idle(path, windows) {
        lemma_last_start(path, windows);
        lemma_cut_is_rooted(path, windows);
        lemma_tidy_is_rooted(without_last_part(path, windows), windows);
    }
}

proof fn lemma_directory(path: Seq<u8>, windows: bool)
    ensures
        directory_of(path, windows).len() > 0,
        !ends_idle(directory_of(path, windows), windows),
        is_rooted(directory_of(path, windows), windows),
{
    let t = tidy(path, windows);
    let cut = without_last_part(t, windows);
    lemma_tidy_is_tidy(cut, windows);
    if has_part(t, windows) {
        lemma_cut_is_rooted(t, windows);
        lemma_tidy_is_rooted(cut, windows);
    }
    lemma_prefix_len(seq![DOT], windows);
}

// ---------------------------------------------------------------------------
// Siblings
// ---------------------------------------------------------------------------

proof fn lemma_stem(name: Seq<u8>, whole: nat)
    requires
        name.len() > 0,
        whole >= name.len(),
    ensures
        0 < stem_end(name, whole) <= whole,
    decreases name.len(),
{
    if name.len() > 1 && name.last() != DOT {
        lemma_stem(name.drop_last(), whole);
    }
}

proof fn lemma_file_name(path: Seq<u8>, windows: bool)
    ensures
        file_name_of(path, windows) matches Some(name) ==> {
            &&& name.len() > 0
            &&& forall|i: int|
                0 <= i < name.len() ==> !is_separator(
                    #[trigger] name[i],
                    windows,
                    is_verbatim(tidy(path, windows), windows),
                )
        },
{
    let t = tidy(path, windows);
    let verbatim = is_verbatim(t, windows);
    lemma_tidy_is_tidy(path, windows);
    lemma_last_start(t, windows);
    lemma_part_start(t, body_start(t, windows), windows, verbatim);
    if let Some(name) = file_name_of(path, windows) {
        assert forall|i: int| 0 <= i < name.len() implies !is_separator(
            #[trigger] name[i],
            windows,
            verbatim,
        ) by {
            assert(name[i] == t[last_start(t, windows) + i]);
        }
        if name.len() == 0 {
            assert(name =~= Seq::empty());
        }
    }
}

/// By default an installer is extracted next to itself, into a directory called after it. A name
/// whose stem is `.` or `..`, such as `..x`, has no such directory; nor, on Windows, has one whose
/// stem starts with the letter of a drive or, behind a verbatim prefix, holds a slash.
pub proof fn law_default_output_is_beside_the_input(input: Seq<u8>, windows: bool)
    requires
        file_name_of(input, windows) matches Some(name) && stem_of(name) != seq![DOT] && stem_of(
            name,
        ) != seq![DOT, DOT],
        windows ==> is_name(stem_of(file_name_of(input, windows).unwrap()), windows)
            && keeps_prefix(
            directory_of(input, windows),
            stem_of(file_name_of(input, windows).unwrap()),
            windows,
        ),
    ensures
        parent_of(default_output(input, windows), windows) == Some(directory_of(input, windows)),
        file_name_of(default_output(input, windows), windows) == Some(
            stem_of(file_name_of(input, windows).unwrap()),
        ),
{
    let name = file_name_of(input, windows).unwrap();
    lemma_file_name(input, windows);
    lemma_stem(name, name.len());
    let stem = stem_of(name);
    assert(forall|i: int| 0 <= i < stem.len() ==> stem[i] == name[i]);
    lemma_directory(input, windows);
    law_join_puts_inside(directory_of(input, windows), stem, windows);
}

/// What is put in the directory of a path lies next to it.
pub proof fn law_siblings_share_a_directory(path: Seq<u8>, name: Seq<u8>, windows: bool)
    requires
        is_name(name, windows),
        keeps_prefix(directory_of(path, windows), name, windows),
    ensures
        parent_of(join_path(directory_of(path, windows), name, windows), windows) == Some(
            directory_of(path, windows),
        ),
        file_name_of(join_path(directory_of(path, windows), name, windows), windows) == Some(name),
{
    lemma_directory(path, windows);
    law_join_puts_inside(directory_of(path, windows), name, windows);
}

} // verus!
