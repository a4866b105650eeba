//! Which paths of an archive are written to, and where.

use vstd::prelude::*;

use crate::safe_path::{
    any_leads_out, is_part, leads_out, lemma_filter_all, lemma_slashed_joined, names_something,
    safe_path, separator, slashed, without_here,
};
use crate::split::split_on;
use crate::text::{begins_with, joined, lemma_first_index, lemma_first_index_is};
use crate::text_laws::law_parts_read_back;

verus! {

/// `part` starts with the letter of a drive and a colon.
pub open spec fn starts_with_drive_letter(part: Seq<char>) -> bool {
    &&& part.len() >= 2
    &&& part[1] == ':'
    &&& ('a' <= part[0] <= 'z' || 'A' <= part[0] <= 'Z')
}

/// `part` is one part of a path: no separator stands in it.
pub open spec fn is_one_part(part: Seq<char>, windows: bool) -> bool {
    !part.contains('/') && (windows ==> !part.contains('\\'))
}

/// `part` leads out of a directory.
pub open spec fn climbs(part: Seq<char>, windows: bool) -> bool {
    part == seq!['.', '.'] || windows && starts_with_drive_letter(part)
}

/// `part` names a file or a directory.
pub open spec fn is_a_name(part: Seq<char>, windows: bool) -> bool {
    &&& is_one_part(part, windows)
    &&& part.len() > 0
    &&& part != seq!['.']
    &&& !climbs(part, windows)
}

proof fn lemma_part(part: Seq<char>, windows: bool)
    ensures
        climbs(part, windows) == leads_out(part, windows),
        is_one_part(part, windows) == is_part(part, windows),
        names_something(part) == (part.len() > 0 && part != seq!['.']),
{
    reveal_strlit("");
    reveal_strlit(".");
    reveal_strlit("..");
    assert(""@ =~= Seq::empty());
    assert("."@ =~= seq!['.']);
    assert(".."@ =~= seq!['.', '.']);
    if part.len() == 0 {
        assert(part =~= ""@);
    }
}

proof fn lemma_free_of_backslashes(parts: Seq<Seq<char>>)
    requires
        forall|i: int| 0 <= i < parts.len() ==> is_one_part(#[trigger] parts[i], true),
    ensures
        slashed(joined(parts, "/"@), true) == joined(parts, "/"@),
    decreases parts.len(),
{
    reveal_strlit("/");
    let path = joined(parts, "/"@);
    if parts.len() > 0 {
        let last = parts[parts.len() - 1];
        assert(is_one_part(last, true));
        assert forall|i: int| 0 <= i < last.len() implies last[i] != '\\' by {
            assert(last.contains(last[i]));
        }
        if parts.len() > 1 {
            let before = parts.drop_last();
            assert forall|i: int| 0 <= i < before.len() implies is_one_part(
                #[trigger] before[i],
                true,
            ) by {
                assert(before[i] == parts[i]);
            }
            lemma_free_of_backslashes(before);
            let head = joined(before, "/"@);
            assert(path == head + "/"@ + last);
            assert forall|i: int| 0 <= i < path.len() implies slashed(path, true)[i] == path[i] by {
                if i < head.len() {
                    assert(slashed(head, true)[i] == head[i]);
                }
            }
        }
    }
    assert(slashed(path, true) =~= path);
}

/// What comes of a path whose first part names something.
proof fn lemma_of_parts(parts: Seq<Seq<char>>, windows: bool)
    requires
        parts.len() > 0,
        forall|i: int| 0 <= i < parts.len() ==> is_one_part(#[trigger] parts[i], windows),
        parts[0].len() > 0,
        parts[0] != seq!['.'],
    ensures
        ({
            let path = joined(parts, "/"@);
            let kept = parts.filter(|part: Seq<char>| names_something(part));
            &&& path.len() > 0
            &&& path[0] != '/'
            &&& !begins_with(path, "./"@)
            &&& slashed(path, windows) == path
            &&& split_on(path, '/') == parts
            &&& kept.len() > 0
            &&& safe_path(path, windows) == if any_leads_out(parts, windows) {
                None
            } else {
                Some(joined(kept, separator(windows)))
            }
        }),
{
    reveal_strlit("/");
    reveal_strlit("./");
    let path = joined(parts, "/"@);
    assert("/"@ =~= seq!['/']);
    assert forall|i: int| 0 <= i < parts.len() implies !(#[trigger] parts[i]).contains('/') by {
        assert(is_one_part(parts[i], windows));
    }
    law_parts_read_back(parts, '/');
    lemma_first_index(path, '/');
    if path.len() == 0 || path[0] == '/' {
        assert(split_on(path, '/')[0].len() == 0);
    }
    if begins_with(path, "./"@) {
        assert(path[0] == path.subrange(0, 2)[0] && path[1] == path.subrange(0, 2)[1]);
        lemma_first_index_is(path, '/', 1);
        assert(split_on(path, '/')[0] =~= seq!['.']);
    }
    if windows {
        lemma_free_of_backslashes(parts);
    } else {
        assert(slashed(path, windows) =~= path);
    }
    let pred = |part: Seq<char>| names_something(part);
    let first = seq![parts[0]];
    let rest = parts.drop_first();
    lemma_part(parts[0], windows);
    assert(parts =~= first + rest);
    Seq::filter_distributes_over_add(first, rest, pred);
    assert(first.filter(pred).len() == 1) by {
        reveal(Seq::filter);
        reveal_with_fuel(Seq::filter, 2);
        assert(first.last() == parts[0]);
    }
}

/// A path of names is written to as it is, below the output directory: its parts stay in order and
/// none is left out. One `./` before it changes nothing, and on Windows it makes no difference
/// which of the two separators stands between the parts.
pub proof fn law_plain_paths_are_kept(parts: Seq<Seq<char>>, windows: bool)
    requires
        parts.len() > 0,
        forall|i: int| 0 <= i < parts.len() ==> is_a_name(#[trigger] parts[i], windows),
    ensures
        ({
            let own = if windows {
                joined(parts, "\\"@)
            } else {
                joined(parts, "/"@)
            };
            &&& safe_path(joined(parts, "/"@), windows) == Some(own)
            &&& safe_path("./"@ + joined(parts, "/"@), windows) == Some(own)
            &&& safe_path(own, windows) == Some(own)
        }),
{
    reveal_strlit("/");
    reveal_strlit("./");
    let path = joined(parts, "/"@);
    assert forall|i: int| 0 <= i < parts.len() implies is_one_part(
        #[trigger] parts[i],
        windows,
    ) by {
        assert(is_a_name(parts[i], windows));
    }
    assert(is_a_name(parts[0], windows));
    lemma_of_parts(parts, windows);
    let pred = |part: Seq<char>| names_something(part);
    assert forall|i: int| 0 <= i < parts.len() implies pred(#[trigger] parts[i]) && !leads_out(
        parts[i],
        windows,
    ) && is_part(parts[i], windows) by {
        assert(is_a_name(parts[i], windows));
        lemma_part(parts[i], windows);
    }
    lemma_filter_all(parts, pred);
    let dotted = "./"@ + path;
    assert(dotted.subrange(0, 2) =~= "./"@);
    assert(dotted.skip(2) =~= path);
    assert(without_here(dotted) == path);
    if windows {
        reveal_strlit("\\");
        lemma_slashed_joined(parts, windows);
        let own = joined(parts, separator(windows));
        if begins_with(own, "./"@) {
            assert(own[1] == own.subrange(0, 2)[1]);
            assert(own.contains(own[1]));
        }
        assert(without_here(own) == own);
    }
}

proof fn lemma_joined_first(parts: Seq<Seq<char>>, sep: Seq<char>)
    requires
        parts.len() > 1,
    ensures
        joined(parts, sep) == parts[0] + sep + joined(parts.drop_first(), sep),
    decreases parts.len(),
{
    let rest = parts.drop_first();
    if parts.len() == 2 {
        reveal_with_fuel(joined, 2);
        assert(parts.drop_last() =~= seq![parts[0]]);
        assert(rest =~= seq![parts[1]]);
    } else {
        lemma_joined_first(parts.drop_last(), sep);
        assert(parts.drop_last().drop_first() =~= rest.drop_last());
        assert(rest.last() == parts.last());
        assert(joined(parts, sep) =~= parts[0] + sep + joined(rest, sep));
    }
}

/// A path with a part that leads out of a directory is never written to, wherever that part stands.
pub proof fn law_climbing_paths_are_refused(parts: Seq<Seq<char>>, windows: bool, i: int)
    requires
        0 <= i < parts.len(),
        forall|j: int| 0 <= j < parts.len() ==> is_one_part(#[trigger] parts[j], windows),
        climbs(parts[i], windows),
    ensures
        safe_path(joined(parts, "/"@), windows) is None,
        windows ==> safe_path(joined(parts, "\\"@), windows) is None,
{
    lemma_climbing(parts, windows, i, joined(parts, "/"@));
    if windows {
        lemma_climbing(parts, windows, i, joined(parts, "\\"@));
    }
}

proof fn lemma_climbing(parts: Seq<Seq<char>>, windows: bool, i: int, raw: Seq<char>)
    requires
        0 <= i < parts.len(),
        forall|j: int| 0 <= j < parts.len() ==> is_one_part(#[trigger] parts[j], windows),
        climbs(parts[i], windows),
        raw == joined(parts, "/"@) || windows && raw == joined(parts, "\\"@),
    ensures
        safe_path(raw, windows) is None,
{
    reveal_strlit("/");
    reveal_strlit("./");
    reveal_strlit("\\");
    assert("/"@ =~= seq!['/']);
    let path = joined(parts, "/"@);
    assert forall|j: int| 0 <= j < parts.len() implies !(#[trigger] parts[j]).contains('/')
        && is_part(parts[j], windows) by {
        assert(is_one_part(parts[j], windows));
        lemma_part(parts[j], windows);
    }
    law_parts_read_back(parts, '/');
    lemma_part(parts[i], windows);
    if windows {
        lemma_free_of_backslashes(parts);
        lemma_slashed_joined(parts, windows);
    } else {
        assert(slashed(path, windows) =~= path);
    }
    assert(slashed(raw, windows) == path);
    if begins_with(raw, "./"@) {
        assert(raw[0] == raw.subrange(0, 2)[0] && raw[1] == raw.subrange(0, 2)[1]);
        assert(path[0] == slashed(raw, windows)[0] && path[1] == slashed(raw, windows)[1]);
        lemma_first_index_is(path, '/', 1);
        assert(split_on(path, '/')[0] =~= seq!['.']);
        assert(parts[0] == seq!['.']);
        if i == 0 {
            assert(seq!['.'].len() == 1);
        }
        let rest = parts.drop_first();
        lemma_joined_first(parts, "/"@);
        assert(path.skip(2) =~= joined(rest, "/"@));
        assert(slashed(raw.skip(2), windows) =~= path.skip(2));
        assert forall|j: int| 0 <= j < rest.len() implies !(#[trigger] rest[j]).contains('/') by {
            assert(rest[j] == parts[j + 1]);
        }
        law_parts_read_back(rest, '/');
        assert(rest[i - 1] == parts[i]);
        assert(leads_out(rest[i - 1], windows));
        assert(any_leads_out(rest, windows));
    } else {
        assert(leads_out(parts[i], windows));
        assert(any_leads_out(parts, windows));
    }
}

/// A path that starts at the root is never written to.
pub proof fn law_absolute_paths_are_refused(rest: Seq<char>, windows: bool)
    ensures
        safe_path(seq!['/'] + rest, windows) is None,
        windows ==> safe_path(seq!['\\'] + rest, windows) is None,
        safe_path(Seq::empty(), windows) is None,
{
    reveal_strlit("./");
    let raw = seq!['/'] + rest;
    if begins_with(raw, "./"@) {
        assert(raw[0] == raw.subrange(0, 2)[0]);
    }
    assert(slashed(raw, windows)[0] == '/');
    let other = seq!['\\'] + rest;
    if begins_with(other, "./"@) {
        assert(other[0] == other.subrange(0, 2)[0]);
    }
    if windows {
        assert(slashed(other, windows)[0] == '/');
    }
}

/// Parts that name nothing, behind the first, are left out, and nothing else is.
pub proof fn law_idle_parts_are_dropped(
    a: Seq<Seq<char>>,
    idle: Seq<char>,
    b: Seq<Seq<char>>,
    windows: bool,
)
    requires
        a.len() > 0,
        is_a_name(a[0], windows),
        forall|i: int| 0 <= i < a.len() ==> is_one_part(#[trigger] a[i], windows),
        forall|i: int| 0 <= i < b.len() ==> is_one_part(#[trigger] b[i], windows),
        idle.len() == 0 || idle == seq!['.'],
    ensures
        safe_path(joined(a + seq![idle] + b, "/"@), windows) == safe_path(
            joined(a + b, "/"@),
            windows,
        ),
{
    let with = a + seq![idle] + b;
    let without = a + b;
    let n = a.len() as int;
    if idle.len() == 1 {
        assert(idle[0] == '.');
    }
    assert(is_one_part(idle, windows));
    assert forall|i: int| 0 <= i < with.len() implies is_one_part(#[trigger] with[i], windows) by {
        if i < n {
            assert(with[i] == a[i]);
        } else if i > n {
            assert(with[i] == b[i - n - 1]);
        }
    }
    assert forall|i: int| 0 <= i < without.len() implies is_one_part(
        #[trigger] without[i],
        windows,
    ) by {
        if i < n {
            assert(without[i] == a[i]);
        } else {
            assert(without[i] == b[i - n]);
        }
    }
    lemma_of_parts(with, windows);
    lemma_of_parts(without, windows);
    lemma_part(idle, windows);
    if any_leads_out(with, windows) {
        let i = choose|i: int| 0 <= i < with.len() && leads_out(#[trigger] with[i], windows);
        if i < n {
            assert(leads_out(without[i], windows));
        } else if i > n {
            assert(leads_out(without[i - 1], windows));
        }
    }
    if any_leads_out(without, windows) {
        let i = choose|i: int| 0 <= i < without.len() && leads_out(#[trigger] without[i], windows);
        if i < n {
            assert(leads_out(with[i], windows));
        } else {
            assert(leads_out(with[i + 1], windows));
        }
    }
    let pred = |part: Seq<char>| names_something(part);
    let one = seq![idle];
    Seq::filter_distributes_over_add(a + one, b, pred);
    Seq::filter_distributes_over_add(a, one, pred);
    Seq::filter_distributes_over_add(a, b, pred);
    assert(one.filter(pred) =~= Seq::empty()) by {
        reveal(Seq::filter);
        reveal_with_fuel(Seq::filter, 2);
        assert(one.last() == idle);
    }
    assert(a.filter(pred) + Seq::empty() =~= a.filter(pred));
}

} // verus!
