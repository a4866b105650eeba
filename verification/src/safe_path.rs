//! Paths in an archive, made safe to write below a directory.

use vstd::prelude::*;
use vstd::slice::slice_subrange;

use crate::split::{law_pieces_are_free_of_the_separator, lemma_split_last, split_on, split_text};
use crate::text::{begins_with, chars_of, first_index, join, joined, same_text, texts};
use crate::text::{lemma_first_index, lemma_first_index_is};

verus! {

/// `raw` without one `./` at its start.
pub open spec fn without_here(raw: Seq<char>) -> Seq<char> {
    if begins_with(raw, "./"@) {
        raw.skip(2)
    } else {
        raw
    }
}

/// `part` names something: it is neither empty nor the directory itself.
pub open spec fn names_something(part: Seq<char>) -> bool {
    part != ""@ && part != "."@
}

/// `path` with a slash between its parts. On Windows a backslash separates parts as well.
pub open spec fn slashed(path: Seq<char>, windows: bool) -> Seq<char> {
    Seq::new(
        path.len(),
        |i: int|
            if windows && path[i] == '\\' {
                '/'
            } else {
                path[i]
            },
    )
}

/// What stands between the parts of a path that is written to.
pub open spec fn separator(windows: bool) -> Seq<char> {
    if windows {
        "\\"@
    } else {
        "/"@
    }
}

/// `part` starts with the letter of a drive.
pub open spec fn has_drive(part: Seq<char>) -> bool {
    part.len() >= 2 && part[1] == ':' && ('a' <= part[0] <= 'z' || 'A' <= part[0] <= 'Z')
}

/// `part` leads out of the directory that it is looked up in.
pub open spec fn leads_out(part: Seq<char>, windows: bool) -> bool {
    part == ".."@ || windows && has_drive(part)
}

/// One of `parts` leads out of the directory that it is looked up in.
pub open spec fn any_leads_out(parts: Seq<Seq<char>>, windows: bool) -> bool {
    exists|i: int| 0 <= i < parts.len() && leads_out(#[trigger] parts[i], windows)
}

/// The parts of `path` between slashes that name something.
pub open spec fn named_parts(path: Seq<char>) -> Seq<Seq<char>> {
    split_on(path, '/').filter(|part: Seq<char>| names_something(part))
}

/// The path below the output directory that the entry `raw` of an archive is written to. There
/// is none for an absolute path, for one with a `..` in it, and for one that names nothing; nor,
/// on Windows, for one with a part that starts with the letter of a drive.
pub open spec fn safe_path(raw: Seq<char>, windows: bool) -> Option<Seq<char>> {
    let path = slashed(without_here(raw), windows);
    if path.len() == 0 || path[0] == '/' || any_leads_out(split_on(path, '/'), windows)
        || named_parts(path).len() == 0 {
        None
    } else {
        Some(joined(named_parts(path), separator(windows)))
    }
}

/// The path with a slash between its parts.
fn with_slashes(path: &[char], windows: bool) -> (out: Vec<char>)
    ensures
        out@ == slashed(path@, windows),
{
    let mut out: Vec<char> = Vec::new();
    for i in 0..path.len()
        invariant
            out@ == slashed(path@, windows).take(i as int),
    {
        let c = if windows && path[i] == '\\' {
            '/'
        } else {
            path[i]
        };
        out.push(c);
        assert(out@ =~= slashed(path@, windows).take(i + 1));
    }
    assert(out@ =~= slashed(path@, windows));
    out
}

/// Whether `part` starts with the letter of a drive.
fn starts_with_drive(part: &str) -> (yes: bool)
    ensures
        yes == has_drive(part@),
{
    let chars = chars_of(part);
    chars.len() >= 2 && chars[1] == ':' && (('a' <= chars[0] && chars[0] <= 'z') || ('A'
        <= chars[0] && chars[0] <= 'Z'))
}

/// Validates and normalizes the path of an archive entry. A slash separates its parts, and on
/// Windows a backslash too.
pub fn sanitize_cpio_path(raw: &str, windows: bool) -> (safe: Option<String>)
    ensures
        match safe {
            Some(path) => safe_path(raw@, windows) == Some(path@),
            None => safe_path(raw@, windows) is None,
        },
{
    proof {
        reveal_strlit("./");
        reveal_strlit("");
    }
    let chars = chars_of(raw);
    let mut start: usize = 0;
    if chars.len() >= 2 && chars[0] == '.' && chars[1] == '/' {
        assert(raw@.subrange(0, 2) =~= "./"@);
        start = 2;
    } else {
        assert(begins_with(raw@, "./"@) ==> raw@[0] == raw@.subrange(0, 2)[0] && raw@[1]
            == raw@.subrange(0, 2)[1]);
    }
    let behind = slice_subrange(chars.as_slice(), start, chars.len());
    assert(behind@ =~= without_here(raw@));
    let path = with_slashes(behind, windows);
    if path.len() == 0 || path[0] == '/' {
        return None;
    }
    let parts = split_text(path.as_slice(), '/');
    let ghost all = texts(parts@);
    let ghost pred = |part: Seq<char>| names_something(part);
    let mut named: Vec<String> = Vec::new();
    proof {
        reveal(Seq::filter);
        assert(texts(named@) =~= all.take(0).filter(pred));
    }
    for i in 0..parts.len()
        invariant
            all == texts(parts@),
            all == split_on(slashed(without_here(raw@), windows), '/'),
            pred == (|part: Seq<char>| names_something(part)),
            forall|j: int| 0 <= j < i ==> !leads_out(#[trigger] all[j], windows),
            texts(named@) == all.take(i as int).filter(pred),
    {
        let part = parts[i].as_str();
        let ghost before = texts(named@);
        proof {
            reveal(Seq::filter);
            assert(all[i as int] == part@);
            assert(all.take(i + 1).drop_last() =~= all.take(i as int));
        }
        if same_text(part, "..") || windows && starts_with_drive(part) {
            assert(leads_out(all[i as int], windows));
            return None;
        }
        if !same_text(part, "") && !same_text(part, ".") {
            named.push(part.to_owned());
            assert(texts(named@) =~= before.push(part@));
        }
    }
    assert(all.take(all.len() as int) =~= all);
    if named.len() == 0 {
        assert(texts(named@).len() == 0);
        return None;
    }
    if windows {
        Some(join(&named, "\\"))
    } else {
        Some(join(&named, "/"))
    }
}

/// `part` can be one part of a path.
pub open spec fn is_part(part: Seq<char>, windows: bool) -> bool {
    !part.contains('/') && (windows ==> !part.contains('\\'))
}

proof fn lemma_split_joined(parts: Seq<Seq<char>>)
    requires
        parts.len() > 0,
        forall|i: int| 0 <= i < parts.len() ==> is_part(#[trigger] parts[i], false),
    ensures
        split_on(joined(parts, "/"@), '/') == parts,
    decreases parts.len(),
{
    reveal_strlit("/");
    let last = parts.last();
    assert(is_part(parts[parts.len() - 1], false));
    if parts.len() == 1 {
        lemma_first_index(last, '/');
        assert(split_on(last, '/') =~= parts);
    } else {
        let before = parts.drop_last();
        assert forall|i: int| 0 <= i < before.len() implies is_part(
            #[trigger] before[i],
            false,
        ) by {
            assert(before[i] == parts[i]);
        }
        lemma_split_joined(before);
        lemma_split_last(joined(before, "/"@), '/', last);
        assert(joined(parts, "/"@) =~= joined(before, "/"@).push('/') + last);
        assert(before.push(last) =~= parts);
    }
}

/// Parts joined with the separator of the system are those joined with slashes.
pub proof fn lemma_slashed_joined(parts: Seq<Seq<char>>, windows: bool)
    requires
        forall|i: int| 0 <= i < parts.len() ==> is_part(#[trigger] parts[i], windows),
    ensures
        slashed(joined(parts, separator(windows)), windows) == joined(parts, "/"@),
        windows ==> !joined(parts, separator(windows)).contains('/'),
    decreases parts.len(),
{
    reveal_strlit("/");
    reveal_strlit("\\");
    let path = joined(parts, separator(windows));
    if parts.len() == 0 {
        assert(slashed(path, windows) =~= joined(parts, "/"@));
    } else {
        let last = parts.last();
        assert(is_part(parts[parts.len() - 1], windows));
        assert(slashed(last, windows) =~= last) by {
            assert forall|i: int| 0 <= i < last.len() implies slashed(last, windows)[i]
                == last[i] by {
                assert(last.contains(last[i]));
            }
        }
        if parts.len() > 1 {
            let before = parts.drop_last();
            assert forall|i: int| 0 <= i < before.len() implies is_part(
                #[trigger] before[i],
                windows,
            ) by {
                assert(before[i] == parts[i]);
            }
            lemma_slashed_joined(before, windows);
            let head = joined(before, separator(windows));
            assert(path =~= head + separator(windows) + last);
            assert(slashed(path, windows) =~= slashed(head, windows) + "/"@ + slashed(
                last,
                windows,
            ));
            if windows && path.contains('/') {
                let i = choose|i: int| 0 <= i < path.len() && path[i] == '/';
                if i < head.len() {
                    assert(head[i] == '/');
                } else if i > head.len() {
                    assert(last[i - head.len() - 1] == '/');
                }
            }
        }
    }
}

proof fn lemma_named_parts(path: Seq<char>, windows: bool)
    ensures
        forall|i: int|
            0 <= i < named_parts(slashed(path, windows)).len() ==> is_part(
                #[trigger] named_parts(slashed(path, windows))[i],
                windows,
            ) && names_something(named_parts(slashed(path, windows))[i]) && split_on(
                slashed(path, windows),
                '/',
            ).contains(named_parts(slashed(path, windows))[i]),
{
    let s = slashed(path, windows);
    let all = split_on(s, '/');
    let pred = |part: Seq<char>| names_something(part);
    law_pieces_are_free_of_the_separator(s, '/');
    assert forall|i: int| 0 <= i < named_parts(s).len() implies is_part(
        #[trigger] named_parts(s)[i],
        windows,
    ) && names_something(named_parts(s)[i]) && all.contains(named_parts(s)[i]) by {
        all.lemma_filter_pred(pred, i);
        assert(pred(all.filter(pred)[i]));
        assert(all.filter(pred).contains(named_parts(s)[i]));
        all.lemma_filter_contains_rev(pred, named_parts(s)[i]);
        let k = choose|k: int| 0 <= k < all.len() && all[k] == named_parts(s)[i];
        if windows && all[k].contains('\\') {
            lemma_pieces_are_of_the_text(s, '/', k);
            let j = choose|j: int| 0 <= j < all[k].len() && all[k][j] == '\\';
            assert(s.contains(all[k][j]));
        }
    }
}

/// What a piece holds, the text holds.
proof fn lemma_pieces_are_of_the_text(s: Seq<char>, c: char, k: int)
    requires
        0 <= k < split_on(s, c).len(),
    ensures
        forall|j: int|
            0 <= j < split_on(s, c)[k].len() ==> s.contains(#[trigger] split_on(s, c)[k][j]),
    decreases s.len(),
{
    lemma_first_index(s, c);
    let at = first_index(s, c) as int;
    if at < s.len() && k > 0 {
        let rest = s.skip(at + 1);
        assert(split_on(s, c)[k] == split_on(rest, c)[k - 1]);
        lemma_pieces_are_of_the_text(rest, c, k - 1);
        assert forall|j: int| 0 <= j < split_on(s, c)[k].len() implies s.contains(
            #[trigger] split_on(s, c)[k][j],
        ) by {
            let d = split_on(rest, c)[k - 1][j];
            assert(rest.contains(d));
            let m = choose|m: int| 0 <= m < rest.len() && rest[m] == d;
            assert(s[at + 1 + m] == d);
        }
    }
}

/// `path` leads to something below the directory that it starts from: it is relative, and none
/// of its parts is empty, `.` or `..`, nor does one, on Windows, start with the letter of a drive.
pub open spec fn stays_inside(path: Seq<char>, windows: bool) -> bool {
    let parts = split_on(slashed(path, windows), '/');
    &&& path.len() > 0
    &&& slashed(path, windows)[0] != '/'
    &&& forall|i: int|
        0 <= i < parts.len() ==> names_something(#[trigger] parts[i]) && !leads_out(
            parts[i],
            windows,
        )
}

/// What a safe path is made of.
proof fn lemma_safe_path(raw: Seq<char>, windows: bool)
    requires
        safe_path(raw, windows) is Some,
    ensures
        ({
            let parts = named_parts(slashed(without_here(raw), windows));
            let path = safe_path(raw, windows).unwrap();
            &&& split_on(slashed(path, windows), '/') == parts
            &&& windows ==> !path.contains('/')
            &&& forall|i: int|
                0 <= i < parts.len() ==> names_something(#[trigger] parts[i]) && !leads_out(
                    parts[i],
                    windows,
                )
        }),
{
    let s = slashed(without_here(raw), windows);
    let all = split_on(s, '/');
    let parts = named_parts(s);
    lemma_named_parts(without_here(raw), windows);
    lemma_slashed_joined(parts, windows);
    assert forall|i: int| 0 <= i < parts.len() implies is_part(
        #[trigger] parts[i],
        false,
    ) && names_something(parts[i]) && !leads_out(parts[i], windows) by {
        assert(is_part(parts[i], windows));
        let k = choose|k: int| 0 <= k < all.len() && all[k] == parts[i];
        assert(!leads_out(all[k], windows));
    }
    lemma_split_joined(parts);
}

/// A path that is written to stays below the output directory.
pub proof fn law_safe_paths_stay_inside(raw: Seq<char>, windows: bool)
    ensures
        safe_path(raw, windows) matches Some(path) ==> stays_inside(path, windows),
{
    if let Some(path) = safe_path(raw, windows) {
        lemma_safe_path(raw, windows);
        let s = slashed(path, windows);
        reveal_strlit("");
        lemma_first_index(s, '/');
        if s.len() == 0 || s[0] == '/' {
            assert(split_on(s, '/')[0] =~= ""@);
            assert(names_something(split_on(s, '/')[0]));
        }
    }
}

/// A path that is safe already is left as it is.
pub proof fn law_safe_paths_are_kept(raw: Seq<char>, windows: bool)
    ensures
        safe_path(raw, windows) matches Some(path) ==> safe_path(path, windows) == Some(path),
{
    if let Some(path) = safe_path(raw, windows) {
        lemma_safe_path(raw, windows);
        law_safe_paths_stay_inside(raw, windows);
        let all = split_on(slashed(path, windows), '/');
        let pred = |part: Seq<char>| names_something(part);
        reveal_strlit("./");
        reveal_strlit(".");
        if begins_with(path, "./"@) {
            assert(path[0] == path.subrange(0, 2)[0] && path[1] == path.subrange(0, 2)[1]);
            assert(path.contains(path[1]));
            lemma_first_index_is(slashed(path, windows), '/', 1);
            assert(all[0] =~= "."@);
            assert(names_something(all[0]));
        }
        assert(forall|i: int| 0 <= i < all.len() ==> pred(#[trigger] all[i]));
        lemma_filter_all(all, pred);
    }
}

pub proof fn lemma_filter_all(s: Seq<Seq<char>>, pred: spec_fn(Seq<char>) -> bool)
    requires
        forall|i: int| 0 <= i < s.len() ==> pred(#[trigger] s[i]),
    ensures
        s.filter(pred) == s,
    decreases s.len(),
{
    reveal(Seq::filter);
    if s.len() > 0 {
        assert(pred(s[s.len() - 1]));
        assert forall|i: int| 0 <= i < s.drop_last().len() implies pred(
            #[trigger] s.drop_last()[i],
        ) by {
            assert(pred(s[i]));
        }
        lemma_filter_all(s.drop_last(), pred);
        assert(s.drop_last().push(s.last()) =~= s);
    } else {
        assert(s.filter(pred) =~= s);
    }
}

} // verus!
