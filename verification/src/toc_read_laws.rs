//! What is read back from a table of contents.

use vstd::prelude::*;
use vstd::utf8::encode_utf8;

use crate::numbers::{decimal, number_in};
use crate::text::{contains_run, is_space, joined, occurs_at};
use crate::text_laws::{law_decimal_digits, law_decimal_read_back, law_trimmed};
use crate::toc::{
    after_end, after_start, after_text, entries_in, is_named, new_frame, number_of,
    style_encoding, styled, walk, walk_start, walk_step, Elem, EntryKind, EntryView, FrameView,
    HeapEncoding, TextTarget, WalkView,
};
use crate::toc_laws::{lemma_names_differ, lemma_walk_element, lemma_walk_leaf, Forest};
use crate::xml::{AttrView, EventView, TagView};

verus! {

// ---------------------------------------------------------------------------
// Numbers
// ---------------------------------------------------------------------------

/// All the characters of `s` are white space.
pub open spec fn is_blank(s: Seq<char>) -> bool {
    forall|i: int| 0 <= i < s.len() ==> is_space(#[trigger] s[i])
}

/// Every number of sixty-four bits is read back from its decimal digits, with white space around
/// them or without, and no larger number is read.
pub proof fn law_numbers_read_back(n: nat, a: Seq<char>, b: Seq<char>)
    requires
        is_blank(a),
        is_blank(b),
    ensures
        n < 0x1_0000_0000_0000_0000 ==> number_of(a + decimal(n) + b) == Some(n as u64),
        n >= 0x1_0000_0000_0000_0000 ==> number_of(a + decimal(n) + b) is None,
        n < 0x1_0000_0000_0000_0000 ==> number_of(decimal(n)) == Some(n as u64),
        n >= 0x1_0000_0000_0000_0000 ==> number_of(decimal(n)) is None,
{
    let text = decimal(n);
    law_decimal_digits(n);
    assert('0' <= text[0] <= '9');
    assert('0' <= text[text.len() - 1] <= '9');
    law_trimmed(a, text, b);
    let none = Seq::<char>::empty();
    law_trimmed(none, text, none);
    assert(none + text + none =~= text);
    law_decimal_read_back(n, u64::MAX as nat);
}

/// A text with anything but digits in it, behind its first character, is no number.
pub proof fn law_other_texts_are_no_numbers(a: Seq<char>, s: Seq<char>, b: Seq<char>, i: int)
    requires
        is_blank(a),
        is_blank(b),
        0 < i < s.len(),
        !('0' <= s[i] <= '9'),
        !is_space(s[0]),
        !is_space(s.last()),
    ensures
        number_of(a + s + b) is None,
        number_of(a) is None,
{
    law_trimmed(a, s, b);
    let none = Seq::<char>::empty();
    law_trimmed(a, none, none);
    assert(a + none + none =~= a);
    if s[0] == '+' {
        assert(s.drop_first()[i - 1] == s[i]);
    }
    assert(number_in(s, 10, u64::MAX as nat) is None);
}

// ---------------------------------------------------------------------------
// Encodings
// ---------------------------------------------------------------------------

/// `part` stands somewhere in `s`.
pub open spec fn has_part(s: Seq<char>, part: Seq<char>) -> bool {
    exists|a: Seq<char>, b: Seq<char>| s == #[trigger] ((a + part) + b)
}

proof fn lemma_has_part(s: Seq<char>, part: Seq<char>)
    ensures
        has_part(s, part) == contains_run(s, part),
{
    if has_part(s, part) {
        let (a, b) = choose|a: Seq<char>, b: Seq<char>| s == #[trigger] ((a + part) + b);
        assert(s.subrange(a.len() as int, (a.len() + part.len()) as int) =~= part);
        assert(occurs_at(s, part, a.len() as int));
    }
    if contains_run(s, part) {
        let at = choose|at: int| #[trigger] occurs_at(s, part, at);
        let a = s.take(at);
        let b = s.skip(at + part.len());
        assert(s =~= (a + part) + b);
    }
}

/// A style names its encoding by a part of it: the first of `gzip`, `zlib`, `bzip2` and
/// `octet-stream` that it holds, the last of which stands for bytes stored as they are.
pub proof fn law_styles(style: Seq<char>)
    ensures
        style_encoding(style) == HeapEncoding::Gzip <==> has_part(style, "gzip"@),
        style_encoding(style) == HeapEncoding::Zlib <==> has_part(style, "zlib"@) && !has_part(
            style,
            "gzip"@,
        ),
        style_encoding(style) == HeapEncoding::Bzip2 <==> has_part(style, "bzip2"@) && !has_part(
            style,
            "gzip"@,
        ) && !has_part(style, "zlib"@),
        style_encoding(style) == HeapEncoding::Raw <==> has_part(style, "octet-stream"@)
            && !has_part(style, "gzip"@) && !has_part(style, "zlib"@) && !has_part(
            style,
            "bzip2"@,
        ),
{
    lemma_has_part(style, "gzip"@);
    lemma_has_part(style, "zlib"@);
    lemma_has_part(style, "bzip2"@);
    lemma_has_part(style, "octet-stream"@);
}

/// Of several styles the last one counts, whatever attributes stand around it.
pub proof fn law_last_style_counts(
    attrs: Seq<Option<AttrView>>,
    style: Seq<char>,
    others: Seq<Option<AttrView>>,
    before: HeapEncoding,
)
    requires
        forall|i: int|
            0 <= i < others.len() ==> (#[trigger] others[i] matches Some(other) ==> !is_named(
                other.key,
                "style"@,
            )),
    ensures
        ({
            let own = Some(AttrView { key: encode_utf8("style"@), value: Some(style) });
            styled(attrs.push(own) + others, before) == style_encoding(style)
        }),
        styled(others, before) == before,
    decreases others.len(),
{
    let own = Some(AttrView { key: encode_utf8("style"@), value: Some(style) });
    let all = attrs.push(own) + others;
    if others.len() == 0 {
        assert(all =~= attrs.push(own));
        assert(all.last() == own);
    } else {
        assert(all.last() == others.last());
        assert(all.drop_last() =~= attrs.push(own) + others.drop_last());
        assert forall|i: int| 0 <= i < others.drop_last().len() implies (
        #[trigger] others.drop_last()[i] matches Some(other) ==> !is_named(other.key, "style"@)) by {
            assert(others.drop_last()[i] == others[i]);
        }
        law_last_style_counts(attrs, style, others.drop_last(), before);
        assert(others[others.len() - 1] == others.last());
    }
}

// ---------------------------------------------------------------------------
// Tables
// ---------------------------------------------------------------------------

/// Files and directories side by side.
pub ghost enum Tree {
    Nil,
    /// A file with its place in the heap, and what follows it.
    File {
        name: Seq<char>,
        offset: u64,
        length: u64,
        style: Seq<char>,
        rest: Box<Tree>,
    },
    /// A directory with what is in it, and what follows it.
    Directory { name: Seq<char>, inside: Box<Tree>, rest: Box<Tree> },
}

/// The element `<name>` around `content`, and what follows it.
pub open spec fn element(name: Seq<char>, content: Forest, rest: Forest) -> Forest {
    Forest::Element(
        TagView { name: encode_utf8(name), attrs: Seq::empty() },
        Box::new(content),
        Box::new(rest),
    )
}

/// The element `<name>` around a text, and what follows it.
pub open spec fn field(name: Seq<char>, value: Seq<char>, rest: Forest) -> Forest {
    element(name, Forest::Leaf(EventView::Text(Some(value)), Box::new(Forest::Nil)), rest)
}

/// The tag `<encoding style=".."/>`.
pub open spec fn encoding_tag(style: Seq<char>) -> TagView {
    TagView {
        name: encode_utf8("encoding"@),
        attrs: seq![Some(AttrView { key: encode_utf8("style"@), value: Some(style) })],
    }
}

/// What stands in the `<data>` of a file.
pub open spec fn data_of(offset: Seq<char>, length: Seq<char>, style: Seq<char>) -> Forest {
    Forest::Leaf(
        EventView::Empty(encoding_tag(style)),
        Box::new(field("offset"@, offset, field("length"@, length, Forest::Nil))),
    )
}

impl Tree {
    /// The elements of a table with these files and directories, where `a` and `b` stand around
    /// each number.
    pub open spec fn elements(self, a: Seq<char>, b: Seq<char>) -> Forest
        decreases self,
    {
        match self {
            Tree::Nil => Forest::Nil,
            Tree::File { name, offset, length, style, rest } => element(
                "file"@,
                field(
                    "name"@,
                    name,
                    field(
                        "type"@,
                        "file"@,
                        element(
                            "data"@,
                            data_of(
                                a + decimal(offset as nat) + b,
                                a + decimal(length as nat) + b,
                                style,
                            ),
                            Forest::Nil,
                        ),
                    ),
                ),
                rest.elements(a, b),
            ),
            Tree::Directory { name, inside, rest } => element(
                "file"@,
                field("name"@, name, field("type"@, "directory"@, inside.elements(a, b))),
                rest.elements(a, b),
            ),
        }
    }

    /// The payloads and scripts among the files, in order, with `before` before the path of each.
    pub open spec fn archives(self, before: Seq<char>) -> Seq<EntryView>
        decreases self,
    {
        match self {
            Tree::Nil => Seq::empty(),
            Tree::File { name, offset, length, style, rest } => {
                let more = rest.archives(before);
                if name == "Payload"@ || name == "Scripts"@ {
                    seq![
                        EntryView {
                            kind: if name == "Payload"@ {
                                EntryKind::Payload
                            } else {
                                EntryKind::Scripts
                            },
                            full_path: before + name,
                            heap_offset: offset,
                            heap_length: length,
                            encoding: style_encoding(style),
                        },
                    ] + more
                } else {
                    more
                }
            },
            Tree::Directory { name, inside, rest } => inside.archives((before + name).push('/'))
                + rest.archives(before),
        }
    }
}

/// What stands before the name of a file in the directories `path`.
pub open spec fn before_name(path: Seq<Seq<char>>) -> Seq<char> {
    if path.len() == 0 {
        Seq::empty()
    } else {
        joined(path, "/"@).push('/')
    }
}

proof fn lemma_full_path(path: Seq<Seq<char>>, name: Seq<char>)
    ensures
        joined(path.push(name), "/"@) == before_name(path) + name,
{
    reveal_strlit("/");
    let all = path.push(name);
    assert(all.drop_last() =~= path);
    assert(all.last() == name);
    if path.len() == 0 {
        assert(before_name(path) + name =~= name);
    } else {
        assert(joined(path, "/"@) + "/"@ =~= joined(path, "/"@).push('/'));
    }
}

/// The names of the elements that are read are all different.
proof fn lemma_element_names()
    ensures
        forall|x: Seq<char>, y: Seq<char>| #[trigger]
            is_named(encode_utf8(x), y) ==> x == y,
        "file"@ != "data"@,
        "file"@ != "encoding"@,
        "file"@ != "name"@,
        "file"@ != "type"@,
        "file"@ != "offset"@,
        "file"@ != "length"@,
        "data"@ != "encoding"@,
        "data"@ != "name"@,
        "data"@ != "type"@,
        "data"@ != "offset"@,
        "data"@ != "length"@,
        "encoding"@ != "name"@,
        "encoding"@ != "type"@,
        "encoding"@ != "offset"@,
        "encoding"@ != "length"@,
        "name"@ != "type"@,
        "name"@ != "offset"@,
        "name"@ != "length"@,
        "type"@ != "offset"@,
        "type"@ != "length"@,
        "offset"@ != "length"@,
        "file"@ != "directory"@,
        "toc"@ != "file"@,
        "toc"@ != "data"@,
        "toc"@ != "encoding"@,
        "toc"@ != "name"@,
        "toc"@ != "type"@,
        "xar"@ != "file"@,
        "xar"@ != "data"@,
        "xar"@ != "encoding"@,
        "xar"@ != "name"@,
        "xar"@ != "type"@,
{
    reveal_strlit("file");
    reveal_strlit("data");
    reveal_strlit("encoding");
    reveal_strlit("name");
    reveal_strlit("type");
    reveal_strlit("offset");
    reveal_strlit("length");
    reveal_strlit("directory");
    reveal_strlit("toc");
    reveal_strlit("xar");
    assert forall|x: Seq<char>, y: Seq<char>| #[trigger] is_named(encode_utf8(x), y) implies x
        == y by {
        lemma_names_differ(x, y);
    }
    assert("file"@[0] == 'f');
    assert("data"@[0] == 'd');
    assert("encoding"@[0] == 'e');
    assert("name"@[0] == 'n');
    assert("type"@[0] == 't');
    assert("offset"@[0] == 'o');
    assert("length"@[0] == 'l');
    assert("directory"@[0] == 'd');
    assert("toc"@.len() == 3);
    assert("type"@.len() == 4);
    assert("xar"@[0] == 'x');
}

/// A walk over a text element: its text is taken for what it is, and the element is left again.
proof fn lemma_walk_field(w: WalkView, name: Seq<char>, value: Seq<char>, rest: Forest)
    requires
        name == "name"@ || name == "type"@ || name == "offset"@ || name == "length"@,
    ensures
        ({
            let opened = after_start(
                w,
                TagView { name: encode_utf8(name), attrs: Seq::empty() },
            );
            let read = after_text(opened, Some(value));
            walk(w, field(name, value, rest).events()) == walk(
                WalkView { elems: w.elems, target: TextTarget::Ignored, ..read },
                rest.events(),
            )
        }),
{
    let tag = TagView { name: encode_utf8(name), attrs: Seq::empty() };
    let content = Forest::Leaf(EventView::Text(Some(value)), Box::new(Forest::Nil));
    let opened = after_start(w, tag);
    let read = after_text(opened, Some(value));
    lemma_element_names();
    lemma_walk_element(w, tag, content, rest);
    lemma_walk_leaf(opened, EventView::Text(Some(value)), Forest::Nil);
    assert(walk_step(opened, EventView::Text(Some(value))) == read);
    assert(walk(read, Forest::Nil.events()) == read);
    assert(read.elems == opened.elems);
    assert(opened.elems.drop_last() =~= w.elems);
    assert(after_end(read, tag.name) == (WalkView {
        elems: w.elems,
        target: TextTarget::Ignored,
        ..read
    }));
}

/// The walk inside a `<file>` once its name and type are read.
spec fn opened_file(w: WalkView, name: Seq<char>, file_type: Seq<char>) -> WalkView {
    WalkView {
        path: w.path.push(name),
        frames: w.frames.push(
            FrameView { pushed_name: true, file_type: Some(file_type), ..new_frame() },
        ),
        elems: w.elems.push(Elem::File),
        target: TextTarget::Ignored,
        entries: w.entries,
    }
}

proof fn lemma_walk_opened(w: WalkView, name: Seq<char>, file_type: Seq<char>, content: Forest)
    ensures
        ({
            let tag = TagView { name: encode_utf8("file"@), attrs: Seq::empty() };
            walk(
                after_start(w, tag),
                field("name"@, name, field("type"@, file_type, content)).events(),
            ) == walk(opened_file(w, name, file_type), content.events())
        }),
{
    let tag = TagView { name: encode_utf8("file"@), attrs: Seq::empty() };
    lemma_element_names();
    let start = after_start(w, tag);
    assert(start.elems.last() == Elem::File);
    assert(start.frames.last() == new_frame());
    lemma_walk_field(start, "name"@, name, field("type"@, file_type, content));
    let named = WalkView {
        path: w.path.push(name),
        frames: w.frames.push(FrameView { pushed_name: true, ..new_frame() }),
        elems: start.elems,
        target: TextTarget::Ignored,
        entries: w.entries,
    };
    let name_tag = TagView { name: encode_utf8("name"@), attrs: Seq::empty() };
    assert((WalkView {
        elems: start.elems,
        target: TextTarget::Ignored,
        ..after_text(after_start(start, name_tag), Some(name))
    }) =~= named);
    lemma_walk_field(named, "type"@, file_type, content);
    let type_tag = TagView { name: encode_utf8("type"@), attrs: Seq::empty() };
    assert((WalkView {
        elems: named.elems,
        target: TextTarget::Ignored,
        ..after_text(after_start(named, type_tag), Some(file_type))
    }) =~= opened_file(w, name, file_type));
}

/// `w` with `frame` for its innermost file.
spec fn with_frame(w: WalkView, frame: FrameView) -> WalkView {
    WalkView { frames: w.frames.drop_last().push(frame), target: TextTarget::Ignored, ..w }
}

proof fn lemma_walk_data(
    w: WalkView,
    offset: Seq<char>,
    length: Seq<char>,
    style: Seq<char>,
)
    requires
        w.elems.len() > 0,
        w.elems.last() == Elem::File,
        w.frames.len() > 0,
    ensures
        walk(w, element("data"@, data_of(offset, length, style), Forest::Nil).events())
            == with_frame(
            w,
            FrameView {
                data_offset: number_of(offset),
                data_length: number_of(length),
                encoding: style_encoding(style),
                ..w.frames.last()
            },
        ),
{
    let tag = TagView { name: encode_utf8("data"@), attrs: Seq::empty() };
    lemma_element_names();
    lemma_walk_element(w, tag, data_of(offset, length, style), Forest::Nil);
    let start = after_start(w, tag);
    assert(start.elems.last() == Elem::Data);
    assert(start.elems[start.elems.len() - 2] == Elem::File);
    let last = field("length"@, length, Forest::Nil);
    let both = field("offset"@, offset, last);
    lemma_walk_leaf(start, EventView::Empty(encoding_tag(style)), both);
    let own = Some(AttrView { key: encode_utf8("style"@), value: Some(style) });
    let none = Seq::<Option<AttrView>>::empty();
    law_last_style_counts(none, style, none, w.frames.last().encoding);
    assert(none.push(own) + none =~= seq![own]);
    let frame = w.frames.last();
    let styled_frame = FrameView { encoding: style_encoding(style), ..frame };
    let styled_walk = walk_step(start, EventView::Empty(encoding_tag(style)));
    assert(styled_walk.frames =~= w.frames.drop_last().push(styled_frame));
    lemma_walk_field(styled_walk, "offset"@, offset, last);
    let placed_frame = FrameView { data_offset: number_of(offset), ..styled_frame };
    let placed = WalkView {
        frames: w.frames.drop_last().push(placed_frame),
        target: TextTarget::Ignored,
        ..start
    };
    let offset_tag = TagView { name: encode_utf8("offset"@), attrs: Seq::empty() };
    assert((WalkView {
        elems: styled_walk.elems,
        target: TextTarget::Ignored,
        ..after_text(after_start(styled_walk, offset_tag), Some(offset))
    }) =~= placed);
    lemma_walk_field(placed, "length"@, length, Forest::Nil);
    let full_frame = FrameView { data_length: number_of(length), ..placed_frame };
    let full = WalkView { frames: w.frames.drop_last().push(full_frame), ..placed };
    let length_tag = TagView { name: encode_utf8("length"@), attrs: Seq::empty() };
    assert((WalkView {
        elems: placed.elems,
        target: TextTarget::Ignored,
        ..after_text(after_start(placed, length_tag), Some(length))
    }) =~= full);
    assert(walk(full, Forest::Nil.events()) == full);
    assert(full.elems.drop_last() =~= w.elems);
    assert(after_end(full, tag.name) =~= with_frame(w, full_frame));
}

proof fn lemma_walk_tree(w: WalkView, tree: Tree, a: Seq<char>, b: Seq<char>)
    requires
        is_blank(a),
        is_blank(b),
        w.target is Ignored,
    ensures
        walk(w, tree.elements(a, b).events()) == (WalkView {
            entries: w.entries + tree.archives(before_name(w.path)),
            ..w
        }),
    decreases tree,
{
    let tag = TagView { name: encode_utf8("file"@), attrs: Seq::empty() };
    let before = before_name(w.path);
    lemma_element_names();
    match tree {
        Tree::Nil => {
            assert(w.entries + tree.archives(before) =~= w.entries);
        },
        Tree::File { name, offset, length, style, rest } => {
            let o = a + decimal(offset as nat) + b;
            let l = a + decimal(length as nat) + b;
            let data = element("data"@, data_of(o, l, style), Forest::Nil);
            let content = field("name"@, name, field("type"@, "file"@, data));
            law_numbers_read_back(offset as nat, a, b);
            law_numbers_read_back(length as nat, a, b);
            lemma_walk_element(w, tag, content, rest.elements(a, b));
            lemma_walk_opened(w, name, "file"@, data);
            let inside = opened_file(w, name, "file"@);
            lemma_walk_data(inside, o, l, style);
            let read = walk(inside, data.events());
            lemma_full_path(w.path, name);
            assert(read.path.drop_last() =~= w.path);
            assert(read.path.last() == name);
            assert(read.elems.drop_last() =~= w.elems);
            assert(read.frames.drop_last() =~= w.frames);
            let own = (Tree::File { name, offset, length, style, rest: Box::new(Tree::Nil) }).archives(
                before,
            );
            let closed = after_end(read, tag.name);
            assert(closed.entries =~= w.entries + own) by {
                reveal_with_fuel(Tree::archives, 2);
            }
            assert(closed == WalkView { entries: w.entries + own, ..w });
            lemma_walk_tree(closed, *rest, a, b);
            assert(w.entries + own + rest.archives(before) =~= w.entries + tree.archives(before))
                by {
                reveal_with_fuel(Tree::archives, 2);
            }
        },
        Tree::Directory { name, inside, rest } => {
            let held = inside.elements(a, b);
            let content = field("name"@, name, field("type"@, "directory"@, held));
            lemma_walk_element(w, tag, content, rest.elements(a, b));
            lemma_walk_opened(w, name, "directory"@, held);
            let opened = opened_file(w, name, "directory"@);
            lemma_walk_tree(opened, *inside, a, b);
            lemma_full_path(w.path, name);
            let read = walk(opened, held.events());
            let own = inside.archives((before + name).push('/'));
            assert(read.entries == w.entries + own);
            assert(read.path.drop_last() =~= w.path);
            assert(read.elems.drop_last() =~= w.elems);
            assert(read.frames.drop_last() =~= w.frames);
            let closed = after_end(read, tag.name);
            assert(closed == WalkView { entries: w.entries + own, ..w });
            lemma_walk_tree(closed, *rest, a, b);
            assert(w.entries + own + rest.archives(before) =~= w.entries + tree.archives(before));
        },
    }
}

/// A table of contents is read back: of the files and directories that a document lists, each file
/// called `Payload` or `Scripts` is found, in order, at its own path and with exactly the offset,
/// the length and the encoding that its `<data>` gives, whatever number of sixty-four bits each is
/// and whatever white space stands around it; and nothing else is found.
pub proof fn law_table_read_back(tree: Tree, a: Seq<char>, b: Seq<char>)
    requires
        is_blank(a),
        is_blank(b),
    ensures
        entries_in(
            element(
                "xar"@,
                element("toc"@, tree.elements(a, b), Forest::Nil),
                Forest::Nil,
            ).events(),
        ) == tree.archives(Seq::empty()),
{
    let xar = TagView { name: encode_utf8("xar"@), attrs: Seq::empty() };
    let toc = TagView { name: encode_utf8("toc"@), attrs: Seq::empty() };
    let files = tree.elements(a, b);
    let inner = element("toc"@, files, Forest::Nil);
    lemma_element_names();
    lemma_walk_element(walk_start(), xar, inner, Forest::Nil);
    let outer = after_start(walk_start(), xar);
    lemma_walk_element(outer, toc, files, Forest::Nil);
    let inside = after_start(outer, toc);
    lemma_walk_tree(inside, tree, a, b);
    let none = Seq::<EntryView>::empty();
    assert(none + tree.archives(Seq::empty()) =~= tree.archives(Seq::empty()));
}

/// Wherever it stands in a table, a file called `Payload` or `Scripts` adds one entry, with exactly
/// the offset and the length that stand in its `<data>`.
pub proof fn law_offset_and_length_are_kept(
    w: WalkView,
    name: Seq<char>,
    offset: u64,
    length: u64,
    style: Seq<char>,
    a: Seq<char>,
    b: Seq<char>,
)
    requires
        w.target is Ignored,
        name == "Payload"@ || name == "Scripts"@,
        is_blank(a),
        is_blank(b),
    ensures
        ({
            let file = Tree::File { name, offset, length, style, rest: Box::new(Tree::Nil) };
            let after = walk(w, file.elements(a, b).events());
            &&& after.entries.len() == w.entries.len() + 1
            &&& after.entries.drop_last() == w.entries
            &&& after.entries.last().heap_offset == offset
            &&& after.entries.last().heap_length == length
            &&& after.entries.last().encoding == style_encoding(style)
            &&& (after.entries.last().kind == EntryKind::Payload) == (name == "Payload"@)
            &&& after.entries.last().full_path == before_name(w.path) + name
        }),
{
    let file = Tree::File { name, offset, length, style, rest: Box::new(Tree::Nil) };
    lemma_walk_tree(w, file, a, b);
    reveal_with_fuel(Tree::archives, 2);
    let own = file.archives(before_name(w.path));
    assert(own.len() == 1);
    assert((w.entries + own).drop_last() =~= w.entries);
}

// ---------------------------------------------------------------------------
// What is not listed
// ---------------------------------------------------------------------------

/// The walk inside a `<file>` once its name is read.
spec fn named_file_walk(w: WalkView, name: Seq<char>) -> WalkView {
    WalkView {
        path: w.path.push(name),
        frames: w.frames.push(FrameView { pushed_name: true, ..new_frame() }),
        elems: w.elems.push(Elem::File),
        target: TextTarget::Ignored,
        entries: w.entries,
    }
}

proof fn lemma_walk_named(w: WalkView, name: Seq<char>, content: Forest)
    ensures
        ({
            let tag = TagView { name: encode_utf8("file"@), attrs: Seq::empty() };
            walk(after_start(w, tag), field("name"@, name, content).events()) == walk(
                named_file_walk(w, name),
                content.events(),
            )
        }),
{
    let tag = TagView { name: encode_utf8("file"@), attrs: Seq::empty() };
    lemma_element_names();
    let start = after_start(w, tag);
    assert(start.elems.last() == Elem::File);
    assert(start.frames.last() == new_frame());
    lemma_walk_field(start, "name"@, name, content);
    let name_tag = TagView { name: encode_utf8("name"@), attrs: Seq::empty() };
    assert((WalkView {
        elems: start.elems,
        target: TextTarget::Ignored,
        ..after_text(after_start(start, name_tag), Some(name))
    }) =~= named_file_walk(w, name));
}

/// A `<file>` with a name, a type, and a `<data>` that gives the texts `offset` and `length`.
pub open spec fn typed_file(
    name: Seq<char>,
    file_type: Seq<char>,
    offset: Seq<char>,
    length: Seq<char>,
    style: Seq<char>,
) -> Forest {
    element(
        "file"@,
        field(
            "name"@,
            name,
            field(
                "type"@,
                file_type,
                element("data"@, data_of(offset, length, style), Forest::Nil),
            ),
        ),
        Forest::Nil,
    )
}

/// A file is found whatever its type is, as long as that is not `directory`, and also where it has
/// none; one whose offset or length is no number is not.
pub proof fn law_types_and_numbers_decide(
    w: WalkView,
    name: Seq<char>,
    file_type: Seq<char>,
    offset: Seq<char>,
    length: Seq<char>,
    style: Seq<char>,
)
    requires
        w.target is Ignored,
        name == "Payload"@ || name == "Scripts"@,
    ensures
        ({
            let typed = walk(w, typed_file(name, file_type, offset, length, style).events());
            let data = element("data"@, data_of(offset, length, style), Forest::Nil);
            let untyped = walk(
                w,
                element("file"@, field("name"@, name, data), Forest::Nil).events(),
            );
            let placed = number_of(offset) is Some && number_of(length) is Some;
            let own = EntryView {
                kind: if name == "Payload"@ {
                    EntryKind::Payload
                } else {
                    EntryKind::Scripts
                },
                full_path: before_name(w.path) + name,
                heap_offset: number_of(offset).unwrap(),
                heap_length: number_of(length).unwrap(),
                encoding: style_encoding(style),
            };
            &&& file_type == "directory"@ || !placed ==> typed.entries == w.entries
            &&& file_type != "directory"@ && placed ==> typed.entries == w.entries.push(own)
            &&& !placed ==> untyped.entries == w.entries
            &&& placed ==> untyped.entries == w.entries.push(own)
        }),
{
    let tag = TagView { name: encode_utf8("file"@), attrs: Seq::empty() };
    let data = element("data"@, data_of(offset, length, style), Forest::Nil);
    lemma_element_names();
    lemma_full_path(w.path, name);
    lemma_walk_element(
        w,
        tag,
        field("name"@, name, field("type"@, file_type, data)),
        Forest::Nil,
    );
    lemma_walk_opened(w, name, file_type, data);
    lemma_walk_data(opened_file(w, name, file_type), offset, length, style);
    lemma_walk_element(w, tag, field("name"@, name, data), Forest::Nil);
    lemma_walk_named(w, name, data);
    lemma_walk_data(named_file_walk(w, name), offset, length, style);
    assert(w.path.push(name).last() == name);
}

/// A file without a `<data>` of its own is not found, and the first name of a file is the one that
/// counts.
pub proof fn law_files_without_data_are_not_found(
    w: WalkView,
    name: Seq<char>,
    other: Seq<char>,
)
    requires
        w.target is Ignored,
    ensures
        walk(w, element("file"@, field("name"@, name, Forest::Nil), Forest::Nil).events()) == w,
        walk(
            w,
            element(
                "file"@,
                field("name"@, name, field("name"@, other, Forest::Nil)),
                Forest::Nil,
            ).events(),
        ) == w,
{
    let tag = TagView { name: encode_utf8("file"@), attrs: Seq::empty() };
    lemma_element_names();
    let named = named_file_walk(w, name);
    lemma_walk_element(w, tag, field("name"@, name, Forest::Nil), Forest::Nil);
    lemma_walk_named(w, name, Forest::Nil);
    assert(walk(named, Forest::Nil.events()) == named);
    assert(named.path.drop_last() =~= w.path);
    assert(named.elems.drop_last() =~= w.elems);
    assert(named.frames.drop_last() =~= w.frames);
    assert(after_end(named, tag.name) =~= w);
    let second = field("name"@, other, Forest::Nil);
    lemma_walk_element(w, tag, field("name"@, name, second), Forest::Nil);
    lemma_walk_named(w, name, second);
    lemma_walk_field(named, "name"@, other, Forest::Nil);
    let name_tag = TagView { name: encode_utf8("name"@), attrs: Seq::empty() };
    assert((WalkView {
        elems: named.elems,
        target: TextTarget::Ignored,
        ..after_text(after_start(named, name_tag), Some(other))
    }) =~= named);
}

/// A second name is passed over where the file has a `<data>` as well.
pub proof fn law_the_first_name_counts(
    w: WalkView,
    name: Seq<char>,
    other: Seq<char>,
    content: Forest,
)
    ensures
        walk(
            w,
            element(
                "file"@,
                field("name"@, name, field("name"@, other, content)),
                Forest::Nil,
            ).events(),
        ) == walk(w, element("file"@, field("name"@, name, content), Forest::Nil).events()),
{
    let tag = TagView { name: encode_utf8("file"@), attrs: Seq::empty() };
    let named = named_file_walk(w, name);
    let second = field("name"@, other, content);
    lemma_element_names();
    lemma_walk_element(w, tag, field("name"@, name, second), Forest::Nil);
    lemma_walk_element(w, tag, field("name"@, name, content), Forest::Nil);
    lemma_walk_named(w, name, second);
    lemma_walk_named(w, name, content);
    lemma_walk_field(named, "name"@, other, content);
    let name_tag = TagView { name: encode_utf8("name"@), attrs: Seq::empty() };
    assert((WalkView {
        elems: named.elems,
        target: TextTarget::Ignored,
        ..after_text(after_start(named, name_tag), Some(other))
    }) =~= named);
}

/// It makes no difference whether the tag of an encoding closes itself or is closed behind nothing;
/// and a text that cannot be read counts as an empty one.
pub proof fn law_encodings_may_be_open(w: WalkView, style: Seq<char>)
    requires
        w.target is Ignored,
    ensures
        walk(
            w,
            Forest::Element(
                encoding_tag(style),
                Box::new(Forest::Nil),
                Box::new(Forest::Nil),
            ).events(),
        ) == walk_step(w, EventView::Empty(encoding_tag(style))),
        walk_step(w, EventView::Text(None)) == walk_step(w, EventView::Text(Some(Seq::empty()))),
        walk_step(w, EventView::Other) == w,
{
    let tag = encoding_tag(style);
    lemma_element_names();
    lemma_walk_element(w, tag, Forest::Nil, Forest::Nil);
    let opened = after_start(w, tag);
    assert(walk(opened, Forest::Nil.events()) == opened);
    assert(opened.elems.drop_last() =~= w.elems);
    assert(after_end(opened, tag.name) =~= walk_step(w, EventView::Empty(tag)));
}

} // verus!
