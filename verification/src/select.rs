//! Which of the archives in a package are extracted.

use vstd::prelude::*;
use vstd::slice::slice_subrange;

use crate::text::{chars_of, same_text, string_of};
use crate::toc::{entries_view, EntryKind, EntryView, PayloadEntry};

verus! {

/// What stands before the last slash of `path`, where there is one.
pub open spec fn before_last_slash(path: Seq<char>) -> Option<Seq<char>>
    decreases path.len(),
{
    if path.len() == 0 {
        None
    } else if path.last() == '/' {
        Some(path.drop_last())
    } else {
        before_last_slash(path.drop_last())
    }
}

/// The component that the entry at `path` belongs to: the path up to its last slash, with the
/// slash. The entries at the root of the package, which have no slash, share the component without
/// a name.
pub open spec fn component_of(path: Seq<char>) -> Seq<char> {
    match before_last_slash(path) {
        Some(dir) => dir.push('/'),
        None => Seq::empty(),
    }
}

/// What the component of the entry at `path` is called where it has to be told from others: what
/// stands before the last slash, or the whole path where there is none.
pub open spec fn component_label(path: Seq<char>) -> Seq<char> {
    match before_last_slash(path) {
        Some(dir) => dir,
        None => path,
    }
}

/// The path of the first of `entries` that is of the kind `kind` and belongs to `component`.
pub open spec fn first_path(
    entries: Seq<EntryView>,
    component: Seq<char>,
    kind: EntryKind,
) -> Option<Seq<char>>
    decreases entries.len(),
{
    if entries.len() == 0 {
        None
    } else if entries[0].kind == kind && component_of(entries[0].full_path) == component {
        Some(entries[0].full_path)
    } else {
        first_path(entries.drop_first(), component, kind)
    }
}

/// The path that is extracted for `component`: that of its first `Payload`, or else that of its
/// first `Scripts`.
pub open spec fn chosen_path(entries: Seq<EntryView>, component: Seq<char>) -> Option<Seq<char>> {
    match first_path(entries, component, EntryKind::Payload) {
        Some(path) => Some(path),
        None => first_path(entries, component, EntryKind::Scripts),
    }
}

/// `entry` stands at the path that is extracted for its component.
pub open spec fn is_chosen(entries: Seq<EntryView>, entry: EntryView) -> bool {
    chosen_path(entries, component_of(entry.full_path)) == Some(entry.full_path)
}

/// Those of `entries` that are extracted, in order.
pub open spec fn selected(entries: Seq<EntryView>) -> Seq<EntryView> {
    entries.filter(|e: EntryView| is_chosen(entries, e))
}

/// What stands before the last slash of `path`.
fn split_off_name(path: &str) -> (dir: Option<String>)
    ensures
        match dir {
            Some(d) => before_last_slash(path@) == Some(d@),
            None => before_last_slash(path@) is None,
        },
{
    let chars = chars_of(path);
    let mut end: usize = chars.len();
    assert(chars@.take(chars@.len() as int) =~= chars@);
    while end > 0
        invariant
            end <= chars@.len(),
            chars@ == path@,
            before_last_slash(chars@.take(end as int)) == before_last_slash(path@),
        decreases end,
    {
        assert(chars@.take(end as int).drop_last() =~= chars@.take(end - 1));
        end = end - 1;
        if chars[end] == '/' {
            return Some(string_of(slice_subrange(chars.as_slice(), 0, end)));
        }
    }
    None
}

/// The component that the entry at `full_path` belongs to.
pub fn component_dir(full_path: &str) -> (dir: String)
    ensures
        dir@ == component_of(full_path@),
{
    match split_off_name(full_path) {
        Some(dir) => {
            let mut dir = dir;
            dir.push('/');
            dir
        },
        None => String::new(),
    }
}

/// What the component of the entry at `full_path` is called.
pub fn component_name(full_path: &str) -> (name: String)
    ensures
        name@ == component_label(full_path@),
{
    match split_off_name(full_path) {
        Some(dir) => dir,
        None => full_path.to_owned(),
    }
}

/// The index of the first of `entries` that is of the kind `kind` and belongs to `component`.
fn first_index_of(
    entries: &Vec<PayloadEntry>,
    components: &Vec<String>,
    component: &str,
    kind: EntryKind,
) -> (found: Option<usize>)
    requires
        components@.len() == entries@.len(),
        forall|i: int|
            0 <= i < entries@.len() ==> #[trigger] components@[i]@ == component_of(
                entries@[i].full_path@,
            ),
    ensures
        match found {
            Some(i) => i < entries@.len() && first_path(entries_view(entries@), component@, kind)
                == Some(entries@[i as int].full_path@),
            None => first_path(entries_view(entries@), component@, kind) is None,
        },
{
    let ghost all = entries_view(entries@);
    assert(all.skip(0) =~= all);
    for i in 0..entries.len()
        invariant
            all == entries_view(entries@),
            components@.len() == entries@.len(),
            forall|i: int|
                0 <= i < entries@.len() ==> #[trigger] components@[i]@ == component_of(
                    entries@[i].full_path@,
                ),
            first_path(all.skip(i as int), component@, kind) == first_path(all, component@, kind),
    {
        assert(all.skip(i as int).drop_first() =~= all.skip(i + 1));
        if entries[i].kind == kind && same_text(components[i].as_str(), component) {
            return Some(i);
        }
    }
    None
}

/// Whether the entry at `at` stands at the path that is extracted for its component.
fn chosen_at(entries: &Vec<PayloadEntry>, components: &Vec<String>, at: usize) -> (chosen: bool)
    requires
        at < entries@.len(),
        components@.len() == entries@.len(),
        forall|i: int|
            0 <= i < entries@.len() ==> #[trigger] components@[i]@ == component_of(
                entries@[i].full_path@,
            ),
    ensures
        chosen == is_chosen(entries_view(entries@), entries@[at as int]@),
{
    let component = components[at].as_str();
    assert(component@ == components@[at as int]@);
    let found = match first_index_of(entries, components, component, EntryKind::Payload) {
        Some(i) => Some(i),
        None => first_index_of(entries, components, component, EntryKind::Scripts),
    };
    match found {
        Some(i) => same_text(entries[i].full_path.as_str(), entries[at].full_path.as_str()),
        None => false,
    }
}

/// Picks the archives to extract. Each component gives its `Payload`, or its `Scripts` where it
/// has no `Payload`.
pub fn select_extractable_entries(entries: Vec<PayloadEntry>) -> (kept: Vec<PayloadEntry>)
    ensures
        entries_view(kept@) == selected(entries_view(entries@)),
{
    let ghost all = entries_view(entries@);
    let ghost pred = |e: EntryView| is_chosen(all, e);
    let mut components: Vec<String> = Vec::new();
    for i in 0..entries.len()
        invariant
            components@.len() == i,
            forall|j: int|
                0 <= j < i ==> #[trigger] components@[j]@ == component_of(entries@[j].full_path@),
    {
        components.push(component_dir(entries[i].full_path.as_str()));
    }
    let mut keep: Vec<bool> = Vec::new();
    for i in 0..entries.len()
        invariant
            all == entries_view(entries@),
            components@.len() == entries@.len(),
            forall|j: int|
                0 <= j < entries@.len() ==> #[trigger] components@[j]@ == component_of(
                    entries@[j].full_path@,
                ),
            keep@.len() == i,
            forall|j: int| 0 <= j < i ==> #[trigger] keep@[j] == is_chosen(all, all[j]),
    {
        keep.push(chosen_at(&entries, &components, i));
    }
    let mut kept: Vec<PayloadEntry> = Vec::new();
    let mut at: usize = 0;
    let count: usize = keep.len();
    reveal(Seq::filter);
    assert(all.take(0) =~= Seq::empty());
    assert(entries_view(kept@) =~= all.take(0).filter(pred));
    for entry in it: entries.into_iter()
        invariant
            all == entries_view(it.seq()),
            pred == (|e: EntryView| is_chosen(all, e)),
            at == it.index(),
            keep@.len() == all.len() == count,
            forall|j: int| 0 <= j < all.len() ==> #[trigger] keep@[j] == is_chosen(all, all[j]),
            entries_view(kept@) == all.take(at as int).filter(pred),
    {
        let ghost before = entries_view(kept@);
        proof {
            reveal(Seq::filter);
            assert(all.take(at + 1).drop_last() =~= all.take(at as int));
            assert(all.take(at + 1).last() == all[at as int]);
        }
        if keep[at] {
            kept.push(entry);
            assert(entries_view(kept@) =~= before.push(all[at as int]));
        }
        assert(entries_view(kept@) == all.take(at + 1).filter(pred));
        at = at + 1;
    }
    assert(all.take(all.len() as int) =~= all);
    kept
}

} // verus!
