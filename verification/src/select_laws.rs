//! What holds of the choice of archives.

use vstd::prelude::*;

use crate::select::{chosen_path, component_of, first_path, is_chosen, selected};
use crate::toc::{EntryKind, EntryView};
use crate::toc_laws::{ends_in, kind_matches};

verus! {

/// `entry` is of the kind `kind` and belongs to `component`.
pub open spec fn belongs(entry: EntryView, component: Seq<char>, kind: EntryKind) -> bool {
    entry.kind == kind && component_of(entry.full_path) == component
}

proof fn lemma_first_path(entries: Seq<EntryView>, component: Seq<char>, kind: EntryKind)
    ensures
        match first_path(entries, component, kind) {
            Some(path) => exists|i: int|
                #![trigger entries[i]]
                0 <= i < entries.len() && belongs(entries[i], component, kind)
                    && entries[i].full_path == path,
            None => forall|i: int|
                0 <= i < entries.len() ==> !belongs(#[trigger] entries[i], component, kind),
        },
    decreases entries.len(),
{
    if entries.len() > 0 && !belongs(entries[0], component, kind) {
        let rest = entries.drop_first();
        lemma_first_path(rest, component, kind);
        match first_path(entries, component, kind) {
            Some(path) => {
                let i = choose|i: int|
                    #![trigger rest[i]]
                    0 <= i < rest.len() && belongs(rest[i], component, kind) && rest[i].full_path
                        == path;
                assert(entries[i + 1] == rest[i]);
            },
            None => {
                assert forall|i: int| 0 <= i < entries.len() implies !belongs(
                    #[trigger] entries[i],
                    component,
                    kind,
                ) by {
                    if i > 0 {
                        assert(entries[i] == rest[i - 1]);
                    }
                }
            },
        }
    }
}

proof fn lemma_selected_is_chosen(entries: Seq<EntryView>, entry: EntryView)
    requires
        selected(entries).contains(entry),
    ensures
        entries.contains(entry),
        is_chosen(entries, entry),
{
    let pred = |e: EntryView| is_chosen(entries, e);
    entries.lemma_filter_contains_rev(pred, entry);
    let i = choose|i: int| 0 <= i < selected(entries).len() && selected(entries)[i] == entry;
    entries.lemma_filter_pred(pred, i);
    assert(pred(selected(entries)[i]));
}

/// Nothing is extracted that the table does not name.
pub proof fn law_nothing_is_made_up(entries: Seq<EntryView>, entry: EntryView)
    requires
        selected(entries).contains(entry),
    ensures
        entries.contains(entry),
{
    lemma_selected_is_chosen(entries, entry);
}

/// `Scripts` are extracted only for a component that has no `Payload`.
pub proof fn law_payload_is_preferred(
    entries: Seq<EntryView>,
    entry: EntryView,
    other: EntryView,
)
    requires
        forall|i: int| 0 <= i < entries.len() ==> kind_matches(#[trigger] entries[i]),
        selected(entries).contains(entry),
        entry.kind == EntryKind::Scripts,
        entries.contains(other),
        component_of(other.full_path) == component_of(entry.full_path),
    ensures
        other.kind == EntryKind::Scripts,
{
    lemma_selected_is_chosen(entries, entry);
    let component = component_of(entry.full_path);
    lemma_first_path(entries, component, EntryKind::Payload);
    if other.kind == EntryKind::Payload {
        let j = choose|j: int| 0 <= j < entries.len() && entries[j] == other;
        assert(belongs(entries[j], component, EntryKind::Payload));
        let i = choose|i: int|
            #![trigger entries[i]]
            0 <= i < entries.len() && belongs(entries[i], component, EntryKind::Payload)
                && entries[i].full_path == entry.full_path;
        let k = choose|k: int| 0 <= k < entries.len() && entries[k] == entry;
        assert(kind_matches(entries[i]) && kind_matches(entries[k]));
        reveal_strlit("Payload");
        reveal_strlit("Scripts");
        assert(ends_in(entry.full_path, "Payload"@));
        assert(ends_in(entry.full_path, "Scripts"@));
        assert(entry.full_path.last() == "Payload"@.last());
        assert(entry.full_path.last() == "Scripts"@.last());
    }
}

/// Every component that the table names is extracted.
pub proof fn law_every_component_is_extracted(entries: Seq<EntryView>, entry: EntryView) -> (kept:
    EntryView)
    requires
        entries.contains(entry),
    ensures
        selected(entries).contains(kept),
        component_of(kept.full_path) == component_of(entry.full_path),
{
    let component = component_of(entry.full_path);
    lemma_first_path(entries, component, EntryKind::Payload);
    lemma_first_path(entries, component, EntryKind::Scripts);
    let j = choose|j: int| 0 <= j < entries.len() && entries[j] == entry;
    assert(belongs(entries[j], component, entry.kind));
    let path = chosen_path(entries, component).unwrap();
    let i = choose|i: int|
        #![trigger entries[i]]
        0 <= i < entries.len() && component_of(entries[i].full_path) == component
            && entries[i].full_path == path;
    let pred = |e: EntryView| is_chosen(entries, e);
    assert(pred(entries[i]));
    entries.lemma_filter_contains(pred, i);
    entries[i]
}

/// A component is extracted from one path: two archives that are extracted and belong to one
/// component stand at the same path.
pub proof fn law_one_path_for_each_component(
    entries: Seq<EntryView>,
    a: EntryView,
    b: EntryView,
)
    requires
        selected(entries).contains(a),
        selected(entries).contains(b),
        component_of(a.full_path) == component_of(b.full_path),
    ensures
        a.full_path == b.full_path,
{
    lemma_selected_is_chosen(entries, a);
    lemma_selected_is_chosen(entries, b);
}

proof fn lemma_first_path_is(
    entries: Seq<EntryView>,
    component: Seq<char>,
    kind: EntryKind,
    i: int,
)
    requires
        0 <= i < entries.len(),
        belongs(entries[i], component, kind),
        forall|j: int| 0 <= j < i ==> !belongs(#[trigger] entries[j], component, kind),
    ensures
        first_path(entries, component, kind) == Some(entries[i].full_path),
    decreases i,
{
    if i > 0 {
        let rest = entries.drop_first();
        assert(!belongs(entries[0], component, kind));
        assert(rest[i - 1] == entries[i]);
        assert forall|j: int| 0 <= j < i - 1 implies !belongs(
            #[trigger] rest[j],
            component,
            kind,
        ) by {
            assert(rest[j] == entries[j + 1]);
        }
        lemma_first_path_is(rest, component, kind, i - 1);
    }
}

proof fn lemma_all_pass(s: Seq<EntryView>, pred: spec_fn(EntryView) -> bool)
    requires
        forall|i: int| 0 <= i < s.len() ==> pred(#[trigger] s[i]),
    ensures
        s.filter(pred) == s,
    decreases s.len(),
{
    reveal(Seq::filter);
    if s.len() > 0 {
        let before = s.drop_last();
        assert(pred(s[s.len() - 1]));
        assert forall|i: int| 0 <= i < before.len() implies pred(#[trigger] before[i]) by {
            assert(before[i] == s[i]);
        }
        lemma_all_pass(before, pred);
        assert(before.push(s.last()) =~= s);
    }
}

/// The first `Payload` of a component is extracted; and so is the first `Scripts` of one that has
/// no `Payload`.
pub proof fn law_the_first_of_a_component_is_extracted(entries: Seq<EntryView>, i: int)
    requires
        0 <= i < entries.len(),
        forall|j: int|
            0 <= j < i && (#[trigger] entries[j]).kind == entries[i].kind ==> component_of(
                entries[j].full_path,
            ) != component_of(entries[i].full_path),
        entries[i].kind == EntryKind::Scripts ==> forall|j: int|
            0 <= j < entries.len() && (#[trigger] entries[j]).kind == EntryKind::Payload
                ==> component_of(entries[j].full_path) != component_of(entries[i].full_path),
    ensures
        selected(entries).contains(entries[i]),
{
    let component = component_of(entries[i].full_path);
    let pred = |e: EntryView| is_chosen(entries, e);
    assert forall|j: int| 0 <= j < i implies !belongs(
        #[trigger] entries[j],
        component,
        entries[i].kind,
    ) by {}
    lemma_first_path_is(entries, component, entries[i].kind, i);
    if entries[i].kind == EntryKind::Scripts {
        lemma_first_path(entries, component, EntryKind::Payload);
        if let Some(path) = first_path(entries, component, EntryKind::Payload) {
            let j = choose|j: int|
                #![trigger entries[j]]
                0 <= j < entries.len() && belongs(entries[j], component, EntryKind::Payload)
                    && entries[j].full_path == path;
            assert(entries[j].kind == EntryKind::Payload);
        }
    }
    assert(pred(entries[i]));
    entries.lemma_filter_contains(pred, i);
}

/// Archives of one kind that belong to different components are all extracted, in order and as
/// they are.
pub proof fn law_all_components_are_extracted_in_order(entries: Seq<EntryView>, kind: EntryKind)
    requires
        forall|i: int| 0 <= i < entries.len() ==> (#[trigger] entries[i]).kind == kind,
        forall|i: int, j: int|
            0 <= i < j < entries.len() ==> component_of((#[trigger] entries[i]).full_path)
                != component_of((#[trigger] entries[j]).full_path),
    ensures
        selected(entries) == entries,
{
    let pred = |e: EntryView| is_chosen(entries, e);
    assert forall|i: int| 0 <= i < entries.len() implies pred(#[trigger] entries[i]) by {
        let component = component_of(entries[i].full_path);
        assert forall|j: int| 0 <= j < i implies !belongs(
            #[trigger] entries[j],
            component,
            kind,
        ) by {}
        assert(entries[i].kind == kind);
        lemma_first_path_is(entries, component, kind, i);
        if kind == EntryKind::Scripts {
            lemma_first_path(entries, component, EntryKind::Payload);
            if let Some(path) = first_path(entries, component, EntryKind::Payload) {
                let j = choose|j: int|
                    #![trigger entries[j]]
                    0 <= j < entries.len() && belongs(entries[j], component, EntryKind::Payload)
                        && entries[j].full_path == path;
                assert(entries[j].kind == kind);
            }
        }
    }
    lemma_all_pass(entries, pred);
}

} // verus!
