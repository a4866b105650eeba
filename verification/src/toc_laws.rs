//! Laws of the table of contents.

use vstd::prelude::*;
use vstd::utf8::{encode_utf8, encode_utf8_decode_utf8};

use crate::text::joined;
use crate::toc::{
    after_end, after_start, entries_in, entry_of, in_file, in_own_data, is_named, kind_name,
    kind_of, lemma_walk_concat, target_in, walk, walk_start, walk_step, Elem, EntryView,
    TextTarget, WalkView,
};
use crate::xml::{EventView, TagView};

verus! {

/// XML elements side by side.
pub ghost enum Forest {
    Nil,
    /// An event that opens and closes nothing, and what follows it.
    Leaf(EventView, Box<Forest>),
    /// An element with its content, and what follows it.
    Element(TagView, Box<Forest>, Box<Forest>),
}

impl Forest {
    /// Every leaf is an event that opens and closes nothing.
    pub open spec fn well_formed(self) -> bool
        decreases self,
    {
        match self {
            Forest::Nil => true,
            Forest::Leaf(event, rest) => !(event is Start) && !(event is End)
                && rest.well_formed(),
            Forest::Element(_, content, rest) => content.well_formed() && rest.well_formed(),
        }
    }

    /// No element is called `<file>`.
    pub open spec fn without_files(self) -> bool
        decreases self,
    {
        match self {
            Forest::Nil => true,
            Forest::Leaf(_, rest) => rest.without_files(),
            Forest::Element(tag, content, rest) => !is_named(tag.name, "file"@)
                && content.without_files() && rest.without_files(),
        }
    }

    /// The events of the elements.
    pub open spec fn events(self) -> Seq<EventView>
        decreases self,
    {
        match self {
            Forest::Nil => Seq::empty(),
            Forest::Leaf(event, rest) => seq![event] + rest.events(),
            Forest::Element(tag, content, rest) => seq![EventView::Start(tag)] + content.events()
                + seq![EventView::End(tag.name)] + rest.events(),
        }
    }
}

/// A walk over one event.
proof fn lemma_walk_one(w: WalkView, event: EventView)
    ensures
        walk(w, seq![event]) == walk_step(w, event),
{
    assert(seq![event].drop_first() =~= Seq::empty());
    reveal_with_fuel(walk, 2);
}

/// A walk over a leaf and what follows it.
pub proof fn lemma_walk_leaf(w: WalkView, event: EventView, rest: Forest)
    ensures
        walk(w, Forest::Leaf(event, Box::new(rest)).events()) == walk(
            walk_step(w, event),
            rest.events(),
        ),
{
    lemma_walk_concat(w, seq![event], rest.events());
    lemma_walk_one(w, event);
}

/// A walk over an element and what follows it.
pub proof fn lemma_walk_element(w: WalkView, tag: TagView, content: Forest, rest: Forest)
    ensures
        walk(w, Forest::Element(tag, Box::new(content), Box::new(rest)).events()) == walk(
            after_end(walk(after_start(w, tag), content.events()), tag.name),
            rest.events(),
        ),
{
    let open = seq![EventView::Start(tag)];
    let close = seq![EventView::End(tag.name)];
    lemma_walk_concat(w, open + content.events() + close, rest.events());
    lemma_walk_concat(w, open + content.events(), close);
    lemma_walk_concat(w, open, content.events());
    lemma_walk_one(w, EventView::Start(tag));
    lemma_walk_one(walk(after_start(w, tag), content.events()), EventView::End(tag.name));
}

// ---------------------------------------------------------------------------
// Nesting
// ---------------------------------------------------------------------------

/// `v` differs from `w` at most in the innermost frame and its name on the path, in what the
/// next text is, and in the entries found.
pub open spec fn same_nesting(w: WalkView, v: WalkView) -> bool {
    &&& v.elems == w.elems
    &&& v.frames.len() == w.frames.len()
    &&& w.frames.len() == 0 ==> v.path == w.path
    &&& w.frames.len() > 0 ==> {
        &&& v.frames.drop_last() == w.frames.drop_last()
        &&& w.frames.last().pushed_name ==> v.frames.last().pushed_name
        &&& if v.frames.last().pushed_name && !w.frames.last().pushed_name {
            v.path.len() > 0 && v.path.drop_last() == w.path
        } else {
            v.path == w.path
        }
    }
}

proof fn lemma_same_nesting_trans(u: WalkView, v: WalkView, w: WalkView)
    requires
        same_nesting(u, v),
        same_nesting(v, w),
    ensures
        same_nesting(u, w),
{
}

proof fn lemma_leaf_nesting(w: WalkView, event: EventView)
    requires
        !(event is Start),
        !(event is End),
    ensures
        same_nesting(w, walk_step(w, event)),
{
    let v = walk_step(w, event);
    if w.frames.len() > 0 {
        assert(v.frames.drop_last() =~= w.frames.drop_last());
        if v.path != w.path {
            assert(v.path.drop_last() =~= w.path);
        }
    }
}

/// Elements that are opened and closed leave the files and elements around them open, and the
/// path of the files around the innermost one as it was.
pub proof fn law_elements_keep_nesting(w: WalkView, forest: Forest)
    requires
        forest.well_formed(),
    ensures
        same_nesting(w, walk(w, forest.events())),
    decreases forest,
{
    match forest {
        Forest::Nil => {},
        Forest::Leaf(event, rest) => {
            lemma_walk_leaf(w, event, *rest);
            lemma_leaf_nesting(w, event);
            law_elements_keep_nesting(walk_step(w, event), *rest);
            lemma_same_nesting_trans(w, walk_step(w, event), walk(w, forest.events()));
        },
        Forest::Element(tag, content, rest) => {
            lemma_walk_element(w, tag, *content, *rest);
            let opened = after_start(w, tag);
            let inside = walk(opened, content.events());
            law_elements_keep_nesting(opened, *content);
            let closed = after_end(inside, tag.name);
            assert(opened.elems.drop_last() =~= w.elems);
            assert(closed.elems == w.elems);
            if is_named(tag.name, "file"@) {
                assert(opened.frames.drop_last() =~= w.frames);
                assert(closed.frames == w.frames);
                assert(closed.path == w.path);
            } else {
                assert(opened.path == w.path);
                if w.frames.len() > 0 {
                    assert(opened.frames.drop_last() =~= w.frames.drop_last());
                }
            }
            assert(same_nesting(w, closed));
            law_elements_keep_nesting(closed, *rest);
            lemma_same_nesting_trans(w, closed, walk(w, forest.events()));
        },
    }
}

/// A whole document leaves no element, no file and no name open.
pub proof fn law_document_closes_everything(document: Forest)
    requires
        document.well_formed(),
    ensures
        walk(walk_start(), document.events()).elems == Seq::<Elem>::empty(),
        walk(walk_start(), document.events()).frames.len() == 0,
        walk(walk_start(), document.events()).path == Seq::<Seq<char>>::empty(),
{
    law_elements_keep_nesting(walk_start(), document);
}

/// A `<file>` adds, after the entries of the files in it, the entry that it is itself, at its
/// own name under the path of the files around it. One without a name of its own adds nothing.
pub proof fn law_file_entry(w: WalkView, tag: TagView, content: Forest)
    requires
        content.well_formed(),
        is_named(tag.name, "file"@),
    ensures
        ({
            let inside = walk(after_start(w, tag), content.events());
            let after = walk(
                w,
                Forest::Element(tag, Box::new(content), Box::new(Forest::Nil)).events(),
            );
            &&& inside.frames.len() == w.frames.len() + 1
            &&& if inside.frames.last().pushed_name {
                inside.path.len() > 0 && inside.path.drop_last() == w.path
            } else {
                inside.path == w.path
            }
            &&& after.entries == (match entry_of(inside.frames.last(), inside.path) {
                Some(entry) => inside.entries.push(entry),
                None => inside.entries,
            })
            &&& !inside.frames.last().pushed_name ==> after.entries == inside.entries
            &&& after.path == w.path
            &&& after.frames == w.frames
            &&& after.elems == w.elems
        }),
{
    let opened = after_start(w, tag);
    law_elements_keep_nesting(opened, content);
    lemma_walk_element(w, tag, content, Forest::Nil);
    assert(opened.frames.drop_last() =~= w.frames);
    assert(opened.elems.drop_last() =~= w.elems);
}

// ---------------------------------------------------------------------------
// Elements that are not the file's own
// ---------------------------------------------------------------------------

/// An element that is none of those that describe a file: not a file, not its `<data>`, and
/// neither a text nor an encoding that is read where it stands.
pub open spec fn is_foreign(tag: TagView, elems: Seq<Elem>) -> bool {
    &&& !is_named(tag.name, "file"@)
    &&& !(is_named(tag.name, "data"@) && in_file(elems))
    &&& !(is_named(tag.name, "encoding"@) && in_own_data(elems))
    &&& target_in(tag.name, elems) is Ignored
}

/// Nothing is read in the innermost open element.
spec fn is_deaf(w: WalkView) -> bool {
    &&& w.target is Ignored
    &&& w.elems.len() > 0
    &&& !in_file(w.elems)
    &&& !in_own_data(w.elems)
}

proof fn lemma_deaf_walk(w: WalkView, content: Forest)
    requires
        is_deaf(w),
        content.well_formed(),
        content.without_files(),
    ensures
        walk(w, content.events()) == w,
    decreases content,
{
    match content {
        Forest::Nil => {},
        Forest::Leaf(event, rest) => {
            lemma_walk_leaf(w, event, *rest);
            lemma_deaf_walk(w, *rest);
        },
        Forest::Element(tag, inner, rest) => {
            lemma_walk_element(w, tag, *inner, *rest);
            let opened = after_start(w, tag);
            assert(opened.elems.drop_last() =~= w.elems);
            lemma_deaf_walk(opened, *inner);
            assert(after_end(opened, tag.name) =~= w);
            lemma_deaf_walk(w, *rest);
        },
    }
}

/// An element such as `<ea>`, with whatever names, offsets, lengths and encodings in it, changes
/// nothing of what is known of the file that it stands in.
pub proof fn law_foreign_elements_are_ignored(w: WalkView, tag: TagView, content: Forest)
    requires
        is_foreign(tag, w.elems),
        content.well_formed(),
        content.without_files(),
    ensures
        walk(w, Forest::Element(tag, Box::new(content), Box::new(Forest::Nil)).events()) == (
        WalkView { target: TextTarget::Ignored, ..w }),
{
    lemma_walk_element(w, tag, content, Forest::Nil);
    let opened = after_start(w, tag);
    assert(opened.elems.drop_last() =~= w.elems);
    lemma_deaf_walk(opened, content);
    assert(after_end(opened, tag.name) =~= WalkView { target: TextTarget::Ignored, ..w });
}

/// Two texts with one encoding are one text.
pub proof fn lemma_names_differ(a: Seq<char>, b: Seq<char>)
    requires
        encode_utf8(a) == encode_utf8(b),
    ensures
        a == b,
{
    encode_utf8_decode_utf8(a);
    encode_utf8_decode_utf8(b);
}

/// `<ea>` is such an element wherever it stands.
pub proof fn law_ea_is_foreign(tag: TagView, elems: Seq<Elem>)
    requires
        is_named(tag.name, "ea"@),
    ensures
        is_foreign(tag, elems),
{
    reveal_strlit("ea");
    reveal_strlit("file");
    reveal_strlit("data");
    reveal_strlit("encoding");
    reveal_strlit("name");
    reveal_strlit("type");
    reveal_strlit("offset");
    reveal_strlit("length");
    let ea = "ea"@;
    assert forall|other: Seq<char>| is_named(tag.name, other) implies other.len() == 2 by {
        lemma_names_differ(ea, other);
    }
    assert("file"@.len() == 4);
    assert("data"@.len() == 4);
    assert("encoding"@.len() == 8);
    assert("name"@.len() == 4);
    assert("type"@.len() == 4);
    assert("offset"@.len() == 6);
    assert("length"@.len() == 6);
}

// ---------------------------------------------------------------------------
// Entries
// ---------------------------------------------------------------------------

/// `path` is `leaf` itself, or `leaf` behind a slash.
pub open spec fn ends_in(path: Seq<char>, leaf: Seq<char>) -> bool {
    path == leaf || exists|dir: Seq<char>| path == #[trigger] (dir + "/"@) + leaf
}

/// The last component of the path is the name of the kind.
pub open spec fn kind_matches(entry: EntryView) -> bool {
    ends_in(entry.full_path, kind_name(entry.kind))
}

proof fn lemma_step_entries(w: WalkView, event: EventView)
    ensures
        w.entries.is_prefix_of(walk_step(w, event).entries),
        (forall|i: int| 0 <= i < w.entries.len() ==> kind_matches(#[trigger] w.entries[i]))
            ==> (forall|i: int|
            0 <= i < walk_step(w, event).entries.len() ==> kind_matches(
                #[trigger] walk_step(w, event).entries[i],
            )),
{
    let v = walk_step(w, event);
    if event is End && v.entries != w.entries {
        let frame = w.frames.last();
        let entry = entry_of(frame, w.path).unwrap();
        assert(v.entries == w.entries.push(entry));
        let leaf = w.path.last();
        assert(kind_of(leaf) == Some(entry.kind));
        assert(leaf == kind_name(entry.kind));
        if w.path.len() > 1 {
            let dir = joined(w.path.drop_last(), "/"@);
            assert(entry.full_path == (dir + "/"@) + leaf);
        }
        assert(kind_matches(entry));
    }
}

proof fn lemma_walk_entries(w: WalkView, events: Seq<EventView>)
    requires
        forall|i: int| 0 <= i < w.entries.len() ==> kind_matches(#[trigger] w.entries[i]),
    ensures
        forall|i: int|
            0 <= i < walk(w, events).entries.len() ==> kind_matches(
                #[trigger] walk(w, events).entries[i],
            ),
    decreases events.len(),
{
    if events.len() > 0 {
        lemma_step_entries(w, events[0]);
        lemma_walk_entries(walk_step(w, events[0]), events.drop_first());
    }
}

/// Every entry found is called after its kind: `Payload` or `Scripts`.
pub proof fn law_entries_are_named_after_their_kind(events: Seq<EventView>)
    ensures
        forall|i: int|
            0 <= i < entries_in(events).len() ==> kind_matches(#[trigger] entries_in(events)[i]),
{
    lemma_walk_entries(walk_start(), events);
}

/// What is found early stays found: more events only add entries at the end.
pub proof fn law_entries_only_grow(w: WalkView, events: Seq<EventView>)
    ensures
        w.entries.is_prefix_of(walk(w, events).entries),
    decreases events.len(),
{
    if events.len() > 0 {
        lemma_step_entries(w, events[0]);
        law_entries_only_grow(walk_step(w, events[0]), events.drop_first());
    }
}

} // verus!
