//! Where the output of an extraction goes, spelled out.

use vstd::prelude::*;
use vstd::utf8::{encode_utf8, encode_utf8_decode_utf8};

use crate::layout::{backup_name, layout_for, staging_name, staging_text};
use crate::name_laws::{law_a_name_without_extension_is_kept, law_extension_is_dropped};
use crate::name_laws::lemma_ascii_bytes;
use crate::numbers::decimal;
use crate::paths::{
    body_start, default_output, directory_of, ends_idle, file_name_of, has_part, is_separator,
    is_verbatim, join_path, last_part, last_start, lemma_part_start_is, lemma_piece_end_is,
    lemma_prefix_len, parent_of, prefix_len, separator_at, tidy, without_last_part,
};
use crate::text_laws::{law_decimal_digits, law_decimals_differ};

verus! {

// ---------------------------------------------------------------------------
// Directories and names
// ---------------------------------------------------------------------------

/// `b` stands between the parts of a path: a slash or, on Windows, a backslash.
pub open spec fn stands_between(b: u8, windows: bool) -> bool {
    b == 0x2f || windows && b == 0x5c
}

/// `part` is one part of a path, and no lone dot.
pub open spec fn is_path_part(part: Seq<u8>, windows: bool) -> bool {
    &&& part.len() > 0
    &&& part != seq![0x2eu8]
    &&& forall|i: int| 0 <= i < part.len() ==> !stands_between(#[trigger] part[i], windows)
}

/// No byte of `part` is a colon, where colons matter.
pub open spec fn is_free_of_colons(part: Seq<u8>, windows: bool) -> bool {
    windows ==> forall|i: int| 0 <= i < part.len() ==> #[trigger] part[i] != 0x3a
}

/// The directory called `last` in `up`, or in no other.
pub open spec fn directory_path(up: Option<Seq<u8>>, s: u8, last: Seq<u8>) -> Seq<u8> {
    match up {
        Some(u) => u.push(s) + last,
        None => last,
    }
}

/// A directory that can be written with its last part: in another one, which on Windows does not
/// start with two separators, or on its own, without a colon.
pub open spec fn is_spelled_out(up: Option<Seq<u8>>, s: u8, last: Seq<u8>, windows: bool) -> bool {
    &&& is_path_part(last, windows)
    &&& stands_between(s, windows)
    &&& match up {
        Some(u) => windows && u.push(s).len() >= 2 ==> !(stands_between(u.push(s)[0], windows)
            && stands_between(u.push(s)[1], windows)),
        None => is_free_of_colons(last, windows),
    }
}

/// What stands between the parts of a path that is made.
pub open spec fn own_separator(windows: bool) -> u8 {
    if windows {
        0x5c
    } else {
        0x2f
    }
}

/// A path that does not start with two separators has the letter of a drive for a prefix, or none.
proof fn lemma_plain_prefix(path: Seq<u8>, windows: bool)
    requires
        windows && path.len() >= 2 ==> !(stands_between(path[0], windows) && stands_between(
            path[1],
            windows,
        )),
    ensures
        !is_verbatim(path, windows),
        prefix_len(path, windows) == 0 || prefix_len(path, windows) == 2,
        prefix_len(path, windows) == 2 ==> path.len() >= 2 && path[1] == 0x3a && !stands_between(
            path[0],
            windows,
        ),
{
}

/// What is known of the directory of a file in a directory that is spelled out.
proof fn lemma_spelled_out(
    up: Option<Seq<u8>>,
    s: u8,
    last: Seq<u8>,
    between: u8,
    name: Seq<u8>,
    windows: bool,
)
    requires
        is_spelled_out(up, s, last, windows),
        stands_between(between, windows),
        is_path_part(name, windows),
    ensures
        ({
            let dir = directory_path(up, s, last);
            let path = dir.push(between) + name;
            &&& directory_of(path, windows) == dir
            &&& parent_of(path, windows) == Some(dir)
            &&& name != seq![0x2eu8, 0x2e] ==> file_name_of(path, windows) == Some(name)
            &&& name == seq![0x2eu8, 0x2e] ==> file_name_of(path, windows) is None
        }),
{
    let dir = directory_path(up, s, last);
    let path = dir.push(between) + name;
    assert(dir.len() > 0);
    assert(dir.last() == last.last());
    assert(!stands_between(last[last.len() - 1], windows));
    assert(!stands_between(last[0], windows));
    if let Some(u) = up {
        assert(forall|i: int| 0 <= i < u.len() + 1 ==> dir[i] == u.push(s)[i]);
        assert(dir[u.len() as int] == s);
        assert(dir[u.len() as int + 1] == last[0]);
    } else {
        if windows && last.len() >= 2 {
            assert(last[1] != 0x3a);
            assert(!stands_between(last[1], windows));
        }
    }
    assert(forall|i: int| 0 <= i < dir.len() ==> path[i] == dir[i]);
    assert(path[dir.len() as int] == between);
    lemma_plain_prefix(dir, windows);
    lemma_plain_prefix(path, windows);
    lemma_prefix_len(dir, windows);
    lemma_prefix_len(path, windows);
    assert(prefix_len(path, windows) == prefix_len(dir, windows));
    // The directory does not end idle.
    let from = body_start(dir, windows);
    let at = match up {
        Some(u) => u.len() as int + 1,
        None => 0,
    };
    assert forall|i: int| at <= i < dir.len() implies !is_separator(
        #[trigger] dir[i],
        windows,
        false,
    ) by {
        assert(dir[i] == last[i - at]);
    }
    if up is None {
        if last.len() == 1 && last[0] == 0x2e {
            assert(last =~= seq![0x2eu8]);
        }
        if last.len() >= 2 {
            assert(!is_separator(dir[1], windows, false));
        }
        assert(from == 0);
    } else {
        assert(is_separator(dir[at - 1], windows, false));
    }
    lemma_part_start_is(dir, from, windows, false, at);
    assert(last_part(dir, windows) =~= last);
    assert(last != Seq::<u8>::empty());
    assert(!ends_idle(dir, windows));
    assert(tidy(dir, windows) == dir);
    // The path ends in the name.
    let start = dir.len() as int + 1;
    let body = body_start(path, windows);
    assert(body < start);
    assert forall|i: int| start <= i < path.len() implies !is_separator(
        #[trigger] path[i],
        windows,
        false,
    ) by {
        assert(path[i] == name[i - start]);
        assert(!stands_between(name[i - start], windows));
    }
    assert(is_separator(path[start - 1], windows, false));
    lemma_part_start_is(path, body, windows, false, start);
    assert(last_part(path, windows) =~= name);
    assert(name != Seq::<u8>::empty());
    assert(!ends_idle(path, windows));
    assert(tidy(path, windows) == path);
    assert(path.take(start - 1) =~= dir);
    assert(without_last_part(path, windows) == dir);
}

/// A name that is put into a directory that is spelled out stands behind it and a separator.
proof fn lemma_join(
    up: Option<Seq<u8>>,
    s: u8,
    last: Seq<u8>,
    name: Seq<u8>,
    windows: bool,
)
    requires
        is_spelled_out(up, s, last, windows),
        name.len() > 0,
        forall|i: int| 0 <= i < name.len() ==> !stands_between(#[trigger] name[i], windows),
        is_free_of_colons(name, windows),
    ensures
        join_path(directory_path(up, s, last), name, windows) == directory_path(up, s, last).push(
            own_separator(windows),
        ) + name,
{
    let dir = directory_path(up, s, last);
    assert(!stands_between(name[0], windows));
    if windows && name.len() >= 2 {
        assert(name[1] != 0x3a);
    }
    assert(prefix_len(name, windows) == 0);
    assert(dir.last() == last.last());
    assert(!stands_between(last[last.len() - 1], windows));
    if let Some(u) = up {
        assert(dir[u.len() as int] == s);
    } else if windows && last.len() >= 2 {
        assert(last[1] != 0x3a);
    }
    assert(dir + seq![own_separator(windows)] + name =~= dir.push(own_separator(windows)) + name);
}

// ---------------------------------------------------------------------------
// The default output
// ---------------------------------------------------------------------------

/// By default `dir/base.ext` is extracted to `dir/base`, whatever the directory, the name and the
/// extension are: the extension is what stands behind the last dot.
pub proof fn law_default_output_drops_the_extension(
    up: Option<Seq<u8>>,
    s: u8,
    last: Seq<u8>,
    between: u8,
    base: Seq<u8>,
    extension: Seq<u8>,
    windows: bool,
)
    requires
        is_spelled_out(up, s, last, windows),
        stands_between(between, windows),
        base.len() > 0,
        !extension.contains(0x2e),
        is_path_part(base.push(0x2e) + extension, windows),
        base.push(0x2e) + extension != seq![0x2eu8, 0x2e],
        is_free_of_colons(base, windows),
    ensures
        ({
            let dir = directory_path(up, s, last);
            default_output(dir.push(between) + (base.push(0x2e) + extension), windows) == dir.push(
                own_separator(windows),
            ) + base
        }),
{
    let name = base.push(0x2e) + extension;
    lemma_spelled_out(up, s, last, between, name, windows);
    law_extension_is_dropped(base, extension);
    assert forall|i: int| 0 <= i < base.len() implies !stands_between(
        #[trigger] base[i],
        windows,
    ) by {
        assert(base[i] == name[i]);
    }
    lemma_join(up, s, last, base, windows);
}

/// A name without an extension is kept whole, and one that names nothing is replaced.
pub proof fn law_default_output_of_other_names(
    up: Option<Seq<u8>>,
    s: u8,
    last: Seq<u8>,
    between: u8,
    name: Seq<u8>,
    windows: bool,
)
    requires
        is_spelled_out(up, s, last, windows),
        stands_between(between, windows),
        is_path_part(name, windows),
        name != seq![0x2eu8, 0x2e],
        forall|i: int| 0 < i < name.len() ==> #[trigger] name[i] != 0x2e,
        is_free_of_colons(name, windows),
    ensures
        ({
            let dir = directory_path(up, s, last);
            &&& default_output(dir.push(between) + name, windows) == dir.push(
                own_separator(windows),
            ) + name
            &&& default_output(dir.push(between) + seq![0x2eu8, 0x2e], windows) == dir.push(
                own_separator(windows),
            ) + encode_utf8("extracted_game_data"@)
        }),
{
    lemma_spelled_out(up, s, last, between, name, windows);
    law_a_name_without_extension_is_kept(name);
    lemma_join(up, s, last, name, windows);
    let dots = seq![0x2eu8, 0x2e];
    assert(dots.len() == 2);
    lemma_spelled_out(up, s, last, between, dots, windows);
    lemma_fallback(windows);
    lemma_join(up, s, last, encode_utf8("extracted_game_data"@), windows);
}

proof fn lemma_fallback(windows: bool)
    ensures
        ({
            let name = encode_utf8("extracted_game_data"@);
            &&& name.len() > 0
            &&& forall|i: int| 0 <= i < name.len() ==> !stands_between(#[trigger] name[i], windows)
            &&& is_free_of_colons(name, windows)
        }),
{
    reveal_strlit("extracted_game_data");
    let text = "extracted_game_data"@;
    lemma_free_text(text, windows);
}

/// A text without separators and colons is free of them in bytes.
proof fn lemma_free_text(text: Seq<char>, windows: bool)
    requires
        text.len() > 0,
        !text.contains('/'),
        !text.contains('\\'),
        !text.contains(':'),
    ensures
        ({
            let name = encode_utf8(text);
            &&& name.len() > 0
            &&& forall|i: int| 0 <= i < name.len() ==> !stands_between(#[trigger] name[i], windows)
            &&& is_free_of_colons(name, windows)
        }),
{
    let name = encode_utf8(text);
    if name.len() == 0 {
        encode_utf8_decode_utf8(text);
        encode_utf8_decode_utf8(Seq::empty());
        assert(encode_utf8(Seq::empty()) =~= name);
    }
    assert forall|i: int| 0 <= i < name.len() implies name[i] != 0x2f && name[i] != 0x5c && name[i]
        != 0x3a by {
        if name[i] < 0x80 {
            lemma_ascii_bytes(text, i);
        }
    }
}

/// A name on its own is extracted to the directory that the program runs in, and one at the root to
/// the root.
pub proof fn law_default_output_of_a_bare_name(
    base: Seq<u8>,
    extension: Seq<u8>,
    root: u8,
    windows: bool,
)
    requires
        base.len() > 0,
        !extension.contains(0x2e),
        is_path_part(base.push(0x2e) + extension, windows),
        base.push(0x2e) + extension != seq![0x2eu8, 0x2e],
        is_free_of_colons(base.push(0x2e) + extension, windows),
        stands_between(root, windows),
    ensures
        default_output(base.push(0x2e) + extension, windows) == seq![
            0x2eu8,
            own_separator(windows),
        ] + base,
        default_output(seq![root] + (base.push(0x2e) + extension), windows) == seq![root] + base,
{
    let name = base.push(0x2e) + extension;
    law_extension_is_dropped(base, extension);
    assert forall|i: int| 0 <= i < base.len() implies !stands_between(#[trigger] base[i], windows)
        && (windows ==> base[i] != 0x3a) by {
        assert(base[i] == name[i]);
    }
    assert(!stands_between(base[0], windows));
    if windows && base.len() >= 2 {
        assert(base[1] != 0x3a);
    }
    assert(!stands_between(name[0], windows));
    if name.len() >= 2 {
        assert(!stands_between(name[1], windows));
        assert(windows ==> name[1] != 0x3a);
    }
    // On its own.
    lemma_plain_prefix(name, windows);
    assert(prefix_len(name, windows) == 0);
    assert(body_start(name, windows) == 0) by {
        if name[0] == 0x2e && name.len() == 1 {
            assert(name =~= seq![0x2eu8]);
        }
    }
    assert forall|i: int| 0 <= i < name.len() implies !is_separator(
        #[trigger] name[i],
        windows,
        false,
    ) by {
        assert(!stands_between(name[i], windows));
    }
    lemma_part_start_is(name, 0, windows, false, 0);
    assert(last_part(name, windows) =~= name);
    assert(name != Seq::<u8>::empty());
    assert(tidy(name, windows) == name);
    let none = Seq::<u8>::empty();
    assert(without_last_part(name, windows) =~= none);
    lemma_prefix_len(none, windows);
    assert(tidy(none, windows) == none);
    let here = seq![0x2eu8];
    assert(directory_of(name, windows) == here);
    assert(here.last() == 0x2e);
    assert(here + seq![own_separator(windows)] + base =~= seq![0x2eu8, own_separator(windows)]
        + base);
    // At the root.
    let path = seq![root] + name;
    assert(path[0] == root);
    assert(path[1] == name[0]);
    lemma_plain_prefix(path, windows);
    assert(prefix_len(path, windows) == 0);
    assert(body_start(path, windows) == 1);
    assert forall|i: int| 1 <= i < path.len() implies !is_separator(
        #[trigger] path[i],
        windows,
        false,
    ) by {
        assert(path[i] == name[i - 1]);
    }
    lemma_part_start_is(path, 1, windows, false, 1);
    assert(last_part(path, windows) =~= name);
    assert(tidy(path, windows) == path);
    let top = seq![root];
    assert(without_last_part(path, windows) =~= top);
    lemma_plain_prefix(top, windows);
    assert(!has_part(top, windows));
    assert(tidy(top, windows) == top);
    assert(directory_of(path, windows) == top);
    assert(top.last() == root);
}

// ---------------------------------------------------------------------------
// Shares
// ---------------------------------------------------------------------------

/// The share `share` of the server `server`.
pub open spec fn share_path(server: Seq<u8>, share: Seq<u8>) -> Seq<u8> {
    seq![0x5cu8, 0x5c] + server + seq![0x5cu8] + share
}

/// `server` and `share` can stand in the path of a share.
pub open spec fn is_share(server: Seq<u8>, share: Seq<u8>) -> bool {
    &&& is_path_part(server, true)
    &&& server != seq![0x3fu8]
    &&& is_path_part(share, true)
}

/// What lies on a share has the share for its prefix.
proof fn lemma_share_prefix(server: Seq<u8>, share: Seq<u8>, rest: Seq<u8>)
    requires
        is_share(server, share),
        rest.len() > 0 ==> stands_between(rest[0], true),
    ensures
        prefix_len(share_path(server, share) + rest, true) == share_path(server, share).len(),
        !is_verbatim(share_path(server, share) + rest, true),
{
    let path = share_path(server, share) + rest;
    let middle = 2 + server.len() as int;
    let end = middle + 1 + share.len();
    assert(path[0] == 0x5c && path[1] == 0x5c);
    assert(path[2] == server[0]);
    assert(path[middle] == 0x5c);
    assert forall|i: int| 2 <= i < middle implies !is_separator(#[trigger] path[i], true, false) by {
        assert(path[i] == server[i - 2]);
        assert(!stands_between(server[i - 2], true));
    }
    assert forall|i: int| middle + 1 <= i < end implies !is_separator(
        #[trigger] path[i],
        true,
        false,
    ) by {
        assert(path[i] == share[i - middle - 1]);
        assert(!stands_between(share[i - middle - 1], true));
    }
    if rest.len() > 0 {
        assert(path[end] == rest[0]);
    }
    lemma_piece_end_is(path, 2, false, middle);
    lemma_piece_end_is(path, middle + 1, false, end);
    if path[2] == 0x3f && path[3] == 0x5c {
        assert(middle == 3) by {
            if middle > 3 {
                assert(!is_separator(path[3], true, false));
            }
        }
        assert(server =~= seq![0x3fu8]);
    }
    if path[2] == 0x2e && separator_at(path, 3) {
        assert(middle == 3) by {
            if middle > 3 {
                assert(!is_separator(path[3], true, false));
            }
        }
        assert(server =~= seq![0x2eu8]);
    }
}

/// The directory of what lies at the root of a share is that root.
proof fn lemma_root_of_share(server: Seq<u8>, share: Seq<u8>, name: Seq<u8>)
    requires
        is_share(server, share),
        is_path_part(name, true),
        name != seq![0x2eu8, 0x2e],
    ensures
        ({
            let root = share_path(server, share).push(0x5c);
            &&& directory_of(root + name, true) == root
            &&& file_name_of(root + name, true) == Some(name)
        }),
{
    let top = share_path(server, share);
    let k = top.len() as int;
    let root = top.push(0x5c);
    let path = root + name;
    lemma_share_prefix(server, share, seq![0x5cu8] + name);
    assert(top + (seq![0x5cu8] + name) =~= path);
    lemma_share_prefix(server, share, seq![0x5cu8]);
    assert(top + seq![0x5cu8] =~= root);
    assert(path[k] == 0x5c);
    assert(body_start(path, true) == k + 1);
    lemma_ends_in(path, k + 1, name);
    assert(without_last_part(path, true) =~= root);
    assert(root[k] == 0x5c);
    assert(!has_part(root, true));
    assert(tidy(root, true) == root);
}

/// The directory of what lies in a directory of a share is that directory.
proof fn lemma_directory_of_share(
    server: Seq<u8>,
    share: Seq<u8>,
    inner: Seq<u8>,
    last: Seq<u8>,
    name: Seq<u8>,
)
    requires
        is_share(server, share),
        inner.len() > 0 ==> stands_between(inner[0], true),
        is_path_part(last, true),
        is_path_part(name, true),
        name != seq![0x2eu8, 0x2e],
    ensures
        ({
            let dir = (share_path(server, share) + inner).push(0x5c) + last;
            &&& directory_of(dir.push(0x5c) + name, true) == dir
            &&& file_name_of(dir.push(0x5c) + name, true) == Some(name)
        }),
{
    let top = share_path(server, share);
    let k = top.len() as int;
    let up = top + inner;
    let dir = up.push(0x5c) + last;
    let deep = dir.push(0x5c) + name;
    let behind = inner.push(0x5c) + last;
    assert(behind[0] == if inner.len() > 0 {
        inner[0]
    } else {
        0x5c
    });
    lemma_share_prefix(server, share, behind);
    assert(top + behind =~= dir);
    lemma_share_prefix(server, share, behind.push(0x5c) + name);
    assert(top + (behind.push(0x5c) + name) =~= deep);
    let at = up.len() as int + 1;
    assert(dir[k] == behind[0]);
    assert(body_start(dir, true) == k + 1);
    lemma_ends_in(dir, at, last);
    let start = dir.len() as int + 1;
    assert(deep[k] == behind[0]);
    assert(body_start(deep, true) == k + 1);
    lemma_ends_in(deep, start, name);
    assert(deep.take(start - 1) =~= dir);
    assert(without_last_part(deep, true) == dir);
}

/// An installer at the root of a share is extracted to the root of the share, and one in a directory
/// of the share to that directory, under its name without the extension.
pub proof fn law_default_output_on_a_share(
    server: Seq<u8>,
    share: Seq<u8>,
    inner: Seq<u8>,
    last: Seq<u8>,
    base: Seq<u8>,
    extension: Seq<u8>,
)
    requires
        is_share(server, share),
        inner.len() > 0 ==> stands_between(inner[0], true),
        is_path_part(last, true),
        base.len() > 0,
        !extension.contains(0x2e),
        is_path_part(base.push(0x2e) + extension, true),
        base.push(0x2e) + extension != seq![0x2eu8, 0x2e],
        is_free_of_colons(base, true),
    ensures
        ({
            let root = share_path(server, share).push(0x5c);
            let dir = (share_path(server, share) + inner).push(0x5c) + last;
            let name = base.push(0x2e) + extension;
            &&& default_output(root + name, true) == root + base
            &&& default_output(dir.push(0x5c) + name, true) == dir.push(0x5c) + base
        }),
{
    let top = share_path(server, share);
    let name = base.push(0x2e) + extension;
    law_extension_is_dropped(base, extension);
    assert forall|i: int| 0 <= i < base.len() implies !stands_between(#[trigger] base[i], true) by {
        assert(base[i] == name[i]);
    }
    assert(!stands_between(base[0], true));
    if base.len() >= 2 {
        assert(base[1] != 0x3a);
    }
    assert(prefix_len(base, true) == 0);
    lemma_root_of_share(server, share, name);
    lemma_directory_of_share(server, share, inner, last, name);
    let root = top.push(0x5c);
    assert(root.last() == 0x5c);
    let up = top + inner;
    let dir = up.push(0x5c) + last;
    let behind = inner.push(0x5c) + last;
    lemma_share_prefix(server, share, behind);
    assert(top + behind =~= dir);
    assert(dir.last() == last.last());
    assert(!stands_between(last[last.len() - 1], true));
    assert(dir[0] == 0x5c);
    assert(dir + seq![0x5cu8] + base =~= dir.push(0x5c) + base);
    assert(join_path(dir, base, true) == dir.push(0x5c) + base);
    assert(join_path(root, base, true) == root + base);
}

/// A slash behind a path, or a slash and a dot, changes nothing.
pub proof fn law_trailing_slashes_change_nothing(path: Seq<u8>)
    requires
        path.len() > 0,
        path.last() != 0x2f,
    ensures
        default_output(path.push(0x2f), false) == default_output(path, false),
        default_output(path.push(0x2f).push(0x2e), false) == default_output(path, false),
        file_name_of(path.push(0x2f), false) == file_name_of(path, false),
        parent_of(path.push(0x2f), false) == parent_of(path, false),
{
    let slashed = path.push(0x2f);
    let n = slashed.len() as int;
    lemma_part_start_is(slashed, body_start(slashed, false), false, false, n);
    assert(last_part(slashed, false) =~= Seq::empty());
    assert(slashed.take(n - 1) =~= path);
    assert(without_last_part(slashed, false) == path);
    assert(tidy(slashed, false) == tidy(path, false));
    let dotted = slashed.push(0x2e);
    assert(dotted[n - 1] == 0x2f);
    assert(dotted[n] == 0x2e);
    lemma_part_start_is(dotted, body_start(dotted, false), false, false, n);
    assert(last_part(dotted, false) =~= seq![0x2eu8]);
    assert(dotted.take(n - 1) =~= path);
    assert(without_last_part(dotted, false) == path);
    assert(tidy(dotted, false) == tidy(path, false));
}

/// A path that ends in a separator and a part ends in that part.
proof fn lemma_ends_in(path: Seq<u8>, at: int, name: Seq<u8>)
    requires
        !is_verbatim(path, true),
        0 <= body_start(path, true) <= at,
        is_path_part(name, true),
        0 < at <= path.len(),
        path.skip(at) =~= name,
        stands_between(path[at - 1], true),
    ensures
        last_part(path, true) == name,
        last_start(path, true) == at,
        has_part(path, true),
        tidy(path, true) == path,
{
    assert forall|i: int| at <= i < path.len() implies !is_separator(
        #[trigger] path[i],
        true,
        false,
    ) by {
        assert(path[i] == name[i - at]);
        assert(!stands_between(name[i - at], true));
    }
    lemma_part_start_is(path, body_start(path, true), true, false, at);
    assert(name != Seq::<u8>::empty());
    assert(path.len() == at + name.len());
}

// ---------------------------------------------------------------------------
// The staging directory
// ---------------------------------------------------------------------------

/// The staging directory of an extraction to `dir/name` is in `dir`, under a name that begins with
/// a dot and holds the number of the process and the time; what is to be replaced is kept beside it
/// under the same name with `-prev` behind it, and only where something is to be replaced.
pub proof fn law_layout_spelled_out(
    up: Option<Seq<u8>>,
    s: u8,
    last: Seq<u8>,
    between: u8,
    name: Seq<u8>,
    force: bool,
    present: bool,
    pid: u32,
    millis: u128,
    windows: bool,
)
    requires
        is_spelled_out(up, s, last, windows),
        stands_between(between, windows),
        is_path_part(name, windows),
    ensures
        ({
            let dir = directory_path(up, s, last);
            let output = dir.push(between) + name;
            let layout = layout_for(output, force, present, pid, millis, windows);
            let own = ".gogextract-tmp-"@ + decimal(pid as nat) + "-"@ + decimal(millis as nat);
            &&& layout.output == output
            &&& layout.staging == dir.push(own_separator(windows)) + encode_utf8(own)
            &&& force && present ==> layout.backup == Some(
                dir.push(own_separator(windows)) + encode_utf8(own + "-prev"@),
            )
            &&& !(force && present) ==> layout.backup is None
        }),
{
    lemma_spelled_out(up, s, last, between, name, windows);
    lemma_name_is_free(staging_text(pid, millis), pid, millis, windows);
    lemma_name_is_free(staging_text(pid, millis) + "-prev"@, pid, millis, windows);
    lemma_join(up, s, last, staging_name(pid, millis), windows);
    lemma_join(up, s, last, backup_name(pid, millis), windows);
}

proof fn lemma_name_is_free(text: Seq<char>, pid: u32, millis: u128, windows: bool)
    requires
        text == staging_text(pid, millis) || text == staging_text(pid, millis) + "-prev"@,
    ensures
        ({
            let name = encode_utf8(text);
            &&& name.len() > 0
            &&& forall|i: int| 0 <= i < name.len() ==> !stands_between(#[trigger] name[i], windows)
            &&& is_free_of_colons(name, windows)
        }),
{
    reveal_strlit(".gogextract-tmp-");
    reveal_strlit("-");
    reveal_strlit("-prev");
    let a = ".gogextract-tmp-"@;
    let b = decimal(pid as nat);
    let c = "-"@;
    let d = decimal(millis as nat);
    let e = "-prev"@;
    law_decimal_digits(pid as nat);
    law_decimal_digits(millis as nat);
    let own = a + b + c + d;
    assert forall|i: int| 0 <= i < text.len() implies text[i] != '/' && text[i] != '\\' && text[i]
        != ':' by {
        let n1 = a.len() as int;
        let n2 = n1 + b.len();
        let n3 = n2 + c.len();
        let n4 = n3 + d.len();
        if i < n1 {
            assert(text[i] == a[i]);
        } else if i < n2 {
            assert(text[i] == b[i - n1]);
        } else if i < n3 {
            assert(text[i] == c[i - n2]);
        } else if i < n4 {
            assert(text[i] == d[i - n3]);
        } else {
            assert(text[i] == e[i - n4]);
        }
    }
    lemma_free_text(text, windows);
}

/// Two processes, or one at two times, never share a staging directory; nor is the one's staging
/// directory the other's backup.
pub proof fn law_staging_names_differ(
    pid: u32,
    millis: u128,
    other_pid: u32,
    other_millis: u128,
)
    requires
        pid != other_pid || millis != other_millis,
    ensures
        staging_name(pid, millis) != staging_name(other_pid, other_millis),
        backup_name(pid, millis) != backup_name(other_pid, other_millis),
{
    if staging_name(pid, millis) == staging_name(other_pid, other_millis) {
        encode_utf8_decode_utf8(staging_text(pid, millis));
        encode_utf8_decode_utf8(staging_text(other_pid, other_millis));
        lemma_staging_texts(pid, millis, other_pid, other_millis);
    }
    if backup_name(pid, millis) == backup_name(other_pid, other_millis) {
        let a = staging_text(pid, millis);
        let b = staging_text(other_pid, other_millis);
        let end = "-prev"@;
        encode_utf8_decode_utf8(a + end);
        encode_utf8_decode_utf8(b + end);
        assert(a.len() == b.len());
        assert((a + end).take(a.len() as int) =~= a);
        assert((b + end).take(b.len() as int) =~= b);
        lemma_staging_texts(pid, millis, other_pid, other_millis);
    }
}

proof fn lemma_staging_texts(pid: u32, millis: u128, other_pid: u32, other_millis: u128)
    requires
        staging_text(pid, millis) == staging_text(other_pid, other_millis),
    ensures
        pid == other_pid,
        millis == other_millis,
{
    reveal_strlit("-");
    let lead = ".gogextract-tmp-"@;
    let n = lead.len() as int;
    let text = staging_text(pid, millis);
    let a = decimal(pid as nat);
    let b = decimal(other_pid as nat);
    let c = decimal(millis as nat);
    let d = decimal(other_millis as nat);
    law_decimal_digits(pid as nat);
    law_decimal_digits(other_pid as nat);
    assert(text[n + a.len()] == '-');
    assert(text[n + b.len()] == '-');
    if a.len() < b.len() {
        assert(text[n + a.len()] == b[a.len() as int]);
    }
    if b.len() < a.len() {
        assert(text[n + b.len()] == a[b.len() as int]);
    }
    assert(text.subrange(n, n + a.len()) =~= a);
    assert(text.subrange(n, n + b.len()) =~= b);
    assert(text.skip(n + a.len() + 1) =~= c);
    assert(text.skip(n + b.len() + 1) =~= d);
    law_decimals_differ(pid as nat, other_pid as nat);
    law_decimals_differ(millis as nat, other_millis as nat);
}

} // verus!
