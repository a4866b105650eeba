//! The table of contents of a XAR archive.
//!
//! The table is an XML tree of `<file>` elements, which nest where a file is a directory. A
//! file names itself in a `<name>` child, and says in a `<data>` child where its bytes lie in
//! the heap. Other children, such as `<ea>` for extended attributes, may hold a name, an offset
//! and a length of their own, which are not the file's.

use vstd::prelude::*;
use vstd::utf8::encode_utf8;

use crate::numbers::{number_in, read_number};
use crate::text::{
    chars_of, contains_run, contains_text, join, joined, same_bytes, same_text, texts, trim,
    trimmed,
};
use crate::xml::{
    attr_view, document_events, next_event, pending_events, read_document, text_view, AttrView,
    EventView, TagView, XmlEvent, XmlTag,
};

verus! {

// ---------------------------------------------------------------------------
// Entries
// ---------------------------------------------------------------------------

/// How the archive stores the bytes of an entry.
#[derive(Debug, Clone, Copy, PartialEq, Eq, Structural)]
pub enum HeapEncoding {
    /// As they are.
    Raw,
    Gzip,
    Zlib,
    Bzip2,
    Other,
}

/// The encoding that the style `style` names.
pub open spec fn style_encoding(style: Seq<char>) -> HeapEncoding {
    if contains_run(style, "gzip"@) {
        HeapEncoding::Gzip
    } else if contains_run(style, "zlib"@) {
        HeapEncoding::Zlib
    } else if contains_run(style, "bzip2"@) {
        HeapEncoding::Bzip2
    } else if contains_run(style, "octet-stream"@) {
        HeapEncoding::Raw
    } else {
        HeapEncoding::Other
    }
}

impl HeapEncoding {
    /// Reads a `style` attribute, such as `application/x-gzip` or `application/octet-stream`.
    pub fn from_style_attr(style: &str) -> (encoding: Self)
        ensures
            encoding == style_encoding(style@),
    {
        if contains_text(style, "gzip") {
            HeapEncoding::Gzip
        } else if contains_text(style, "zlib") {
            HeapEncoding::Zlib
        } else if contains_text(style, "bzip2") {
            HeapEncoding::Bzip2
        } else if contains_text(style, "octet-stream") {
            HeapEncoding::Raw
        } else {
            HeapEncoding::Other
        }
    }
}

/// Which of the two archives of a component an entry is.
#[derive(Debug, Clone, Copy, PartialEq, Eq, Structural)]
pub enum EntryKind {
    /// The files to install.
    Payload,
    /// The scripts to run, or, in some packages, the files to install.
    Scripts,
}

/// The name of an entry of kind `kind`.
pub open spec fn kind_name(kind: EntryKind) -> Seq<char> {
    match kind {
        EntryKind::Payload => "Payload"@,
        EntryKind::Scripts => "Scripts"@,
    }
}

impl EntryKind {
    /// The name of an entry of this kind.
    pub fn name(&self) -> (name: &'static str)
        ensures
            name@ == kind_name(*self),
    {
        match self {
            EntryKind::Payload => "Payload",
            EntryKind::Scripts => "Scripts",
        }
    }
}

/// One archive of files in the heap.
#[derive(Debug)]
pub struct PayloadEntry {
    pub kind: EntryKind,
    /// Path from the root of the table, such as `Game.pkg/Payload`.
    pub full_path: String,
    pub heap_offset: u64,
    pub heap_length: u64,
    pub encoding: HeapEncoding,
}

/// What an entry holds.
pub ghost struct EntryView {
    pub kind: EntryKind,
    pub full_path: Seq<char>,
    pub heap_offset: u64,
    pub heap_length: u64,
    pub encoding: HeapEncoding,
}

impl View for PayloadEntry {
    type V = EntryView;

    open spec fn view(&self) -> EntryView {
        EntryView {
            kind: self.kind,
            full_path: self.full_path@,
            heap_offset: self.heap_offset,
            heap_length: self.heap_length,
            encoding: self.encoding,
        }
    }
}

/// What each of `entries` holds.
pub open spec fn entries_view(entries: Seq<PayloadEntry>) -> Seq<EntryView> {
    entries.map_values(|e: PayloadEntry| e@)
}

// ---------------------------------------------------------------------------
// The state of a walk
// ---------------------------------------------------------------------------

/// What matters of an open element.
#[derive(Debug, Clone, Copy, PartialEq, Eq, Structural)]
pub enum Elem {
    File,
    Data,
    Other,
}

/// What the next text is.
#[derive(Debug, Clone, Copy, PartialEq, Eq, Structural)]
pub enum TextTarget {
    /// Nothing that matters.
    Ignored,
    Name,
    Type,
    Offset,
    Length,
}

/// What is known of an open `<file>`.
pub struct Frame {
    /// Its name is on the path.
    pub pushed_name: bool,
    pub file_type: Option<String>,
    pub data_offset: Option<u64>,
    pub data_length: Option<u64>,
    pub encoding: HeapEncoding,
}

/// What a frame holds.
pub ghost struct FrameView {
    pub pushed_name: bool,
    pub file_type: Option<Seq<char>>,
    pub data_offset: Option<u64>,
    pub data_length: Option<u64>,
    pub encoding: HeapEncoding,
}

impl View for Frame {
    type V = FrameView;

    open spec fn view(&self) -> FrameView {
        FrameView {
            pushed_name: self.pushed_name,
            file_type: text_view(self.file_type),
            data_offset: self.data_offset,
            data_length: self.data_length,
            encoding: self.encoding,
        }
    }
}

/// A walk over the events of a table.
pub struct TocWalk {
    /// The names of the open files, outermost first.
    path: Vec<String>,
    /// The open files, outermost first.
    frames: Vec<Frame>,
    /// The open elements, outermost first.
    elems: Vec<Elem>,
    target: TextTarget,
    entries: Vec<PayloadEntry>,
}

/// What a walk holds.
#[verifier::ext_equal]
pub ghost struct WalkView {
    pub path: Seq<Seq<char>>,
    pub frames: Seq<FrameView>,
    pub elems: Seq<Elem>,
    pub target: TextTarget,
    pub entries: Seq<EntryView>,
}

impl View for TocWalk {
    type V = WalkView;

    closed spec fn view(&self) -> WalkView {
        WalkView {
            path: texts(self.path@),
            frames: self.frames@.map_values(|f: Frame| f@),
            elems: self.elems@,
            target: self.target,
            entries: entries_view(self.entries@),
        }
    }
}

// ---------------------------------------------------------------------------
// What an event does to a walk
// ---------------------------------------------------------------------------

/// A walk that has seen nothing.
pub open spec fn walk_start() -> WalkView {
    WalkView {
        path: Seq::empty(),
        frames: Seq::empty(),
        elems: Seq::empty(),
        target: TextTarget::Ignored,
        entries: Seq::empty(),
    }
}

/// `name` is the name `text`.
pub open spec fn is_named(name: Seq<u8>, text: Seq<char>) -> bool {
    name == encode_utf8(text)
}

/// What matters of an element called `name`.
pub open spec fn elem_of(name: Seq<u8>) -> Elem {
    if is_named(name, "file"@) {
        Elem::File
    } else if is_named(name, "data"@) {
        Elem::Data
    } else {
        Elem::Other
    }
}

/// The innermost open element is a `<file>`.
pub open spec fn in_file(elems: Seq<Elem>) -> bool {
    elems.len() > 0 && elems.last() == Elem::File
}

/// The innermost open element is a `<data>` that stands directly in a `<file>`.
pub open spec fn in_own_data(elems: Seq<Elem>) -> bool {
    &&& elems.len() > 1
    &&& elems.last() == Elem::Data
    &&& elems[elems.len() - 2] == Elem::File
}

/// A file of which nothing is known yet.
pub open spec fn new_frame() -> FrameView {
    FrameView {
        pushed_name: false,
        file_type: None,
        data_offset: None,
        data_length: None,
        encoding: HeapEncoding::Raw,
    }
}

/// The encoding after the attributes `attrs`: that of the last `style`, or `before` where there
/// is none.
pub open spec fn styled(attrs: Seq<Option<AttrView>>, before: HeapEncoding) -> HeapEncoding
    decreases attrs.len(),
{
    if attrs.len() == 0 {
        before
    } else {
        match attrs.last() {
            Some(attr) if is_named(attr.key, "style"@) => style_encoding(
                match attr.value {
                    Some(value) => value,
                    None => Seq::empty(),
                },
            ),
            _ => styled(attrs.drop_last(), before),
        }
    }
}

/// `frames` with the innermost one replaced.
pub open spec fn with_last(frames: Seq<FrameView>, frame: FrameView) -> Seq<FrameView> {
    frames.drop_last().push(frame)
}

/// The walk after the attributes of an `<encoding>` in the file's own `<data>`.
pub open spec fn with_style(w: WalkView, tag: TagView) -> WalkView {
    if w.frames.len() == 0 {
        w
    } else {
        let frame = w.frames.last();
        WalkView {
            frames: with_last(
                w.frames,
                FrameView { encoding: styled(tag.attrs, frame.encoding), ..frame },
            ),
            ..w
        }
    }
}

/// What the text in an element called `name` is.
pub open spec fn target_in(name: Seq<u8>, elems: Seq<Elem>) -> TextTarget {
    if is_named(name, "name"@) && in_file(elems) {
        TextTarget::Name
    } else if is_named(name, "type"@) && in_file(elems) {
        TextTarget::Type
    } else if is_named(name, "offset"@) && in_own_data(elems) {
        TextTarget::Offset
    } else if is_named(name, "length"@) && in_own_data(elems) {
        TextTarget::Length
    } else {
        TextTarget::Ignored
    }
}

/// The walk after an opening tag.
pub open spec fn after_start(w: WalkView, tag: TagView) -> WalkView {
    let elems = w.elems.push(elem_of(tag.name));
    if is_named(tag.name, "file"@) {
        WalkView { frames: w.frames.push(new_frame()), elems, ..w }
    } else if is_named(tag.name, "encoding"@) && in_own_data(w.elems) {
        WalkView { target: TextTarget::Ignored, elems, ..with_style(w, tag) }
    } else {
        WalkView { target: target_in(tag.name, w.elems), elems, ..w }
    }
}

/// The walk after a self-closing tag.
pub open spec fn after_empty(w: WalkView, tag: TagView) -> WalkView {
    if is_named(tag.name, "encoding"@) && in_own_data(w.elems) {
        with_style(w, tag)
    } else {
        w
    }
}

/// The number in a text, where it holds one.
pub open spec fn number_of(text: Seq<char>) -> Option<u64> {
    match number_in(trimmed(text), 10, u64::MAX as nat) {
        Some(n) => Some(n as u64),
        None => None,
    }
}

/// The walk after a text.
pub open spec fn after_text(w: WalkView, text: Option<Seq<char>>) -> WalkView {
    if w.target is Ignored || w.frames.len() == 0 {
        w
    } else {
        let text = match text {
            Some(t) => t,
            None => Seq::empty(),
        };
        let frame = w.frames.last();
        match w.target {
            TextTarget::Name => if frame.pushed_name {
                w
            } else {
                WalkView {
                    path: w.path.push(text),
                    frames: with_last(w.frames, FrameView { pushed_name: true, ..frame }),
                    ..w
                }
            },
            TextTarget::Type => WalkView {
                frames: with_last(w.frames, FrameView { file_type: Some(text), ..frame }),
                ..w
            },
            TextTarget::Offset => WalkView {
                frames: with_last(
                    w.frames,
                    FrameView { data_offset: number_of(text), ..frame },
                ),
                ..w
            },
            TextTarget::Length => WalkView {
                frames: with_last(
                    w.frames,
                    FrameView { data_length: number_of(text), ..frame },
                ),
                ..w
            },
            TextTarget::Ignored => w,
        }
    }
}

/// The kind of an entry called `name`.
pub open spec fn kind_of(name: Seq<char>) -> Option<EntryKind> {
    if name == "Payload"@ {
        Some(EntryKind::Payload)
    } else if name == "Scripts"@ {
        Some(EntryKind::Scripts)
    } else {
        None
    }
}

/// The entry that a file with the frame `frame` at `path` is: none if it has no name of its own,
/// if it is a directory, if it is called neither `Payload` nor `Scripts`, or if its place in the
/// heap is not known.
pub open spec fn entry_of(frame: FrameView, path: Seq<Seq<char>>) -> Option<EntryView> {
    if !frame.pushed_name || frame.file_type == Some("directory"@) || path.len() == 0 {
        None
    } else {
        match (kind_of(path.last()), frame.data_offset, frame.data_length) {
            (Some(kind), Some(heap_offset), Some(heap_length)) => Some(
                EntryView {
                    kind,
                    full_path: joined(path, "/"@),
                    heap_offset,
                    heap_length,
                    encoding: frame.encoding,
                },
            ),
            _ => None,
        }
    }
}

/// `s` without its last item, if it has one.
pub open spec fn popped<T>(s: Seq<T>) -> Seq<T> {
    if s.len() == 0 {
        s
    } else {
        s.drop_last()
    }
}

/// The walk after a closing tag.
pub open spec fn after_end(w: WalkView, name: Seq<u8>) -> WalkView {
    let closed = WalkView { elems: popped(w.elems), target: TextTarget::Ignored, ..w };
    if is_named(name, "file"@) && w.frames.len() > 0 {
        let frame = w.frames.last();
        WalkView {
            frames: w.frames.drop_last(),
            path: if frame.pushed_name {
                popped(w.path)
            } else {
                w.path
            },
            entries: match entry_of(frame, w.path) {
                Some(entry) => w.entries.push(entry),
                None => w.entries,
            },
            ..closed
        }
    } else {
        closed
    }
}

/// The walk after one more event.
pub open spec fn walk_step(w: WalkView, event: EventView) -> WalkView {
    match event {
        EventView::Start(tag) => after_start(w, tag),
        EventView::Empty(tag) => after_empty(w, tag),
        EventView::Text(text) => after_text(w, text),
        EventView::End(name) => after_end(w, name),
        EventView::Other => w,
    }
}

/// The walk after `events`.
pub open spec fn walk(w: WalkView, events: Seq<EventView>) -> WalkView
    decreases events.len(),
{
    if events.len() == 0 {
        w
    } else {
        walk(walk_step(w, events[0]), events.drop_first())
    }
}

/// The entries of a table with the events `events`.
pub open spec fn entries_in(events: Seq<EventView>) -> Seq<EntryView> {
    walk(walk_start(), events).entries
}

// ---------------------------------------------------------------------------
// Walking
// ---------------------------------------------------------------------------

/// Whether `name` is the name `text`.
fn name_is(name: &[u8], text: &str) -> (same: bool)
    ensures
        same == is_named(name@, text@),
{
    same_bytes(name, text.as_bytes())
}

/// Reads the number in a text.
fn parse_number(text: &str) -> (number: Option<u64>)
    ensures
        number == number_of(text@),
{
    let chars = chars_of(text);
    read_number(trim(chars.as_slice()), 10, u64::MAX)
}

/// Reads the encoding in the attributes of a tag.
fn read_style(tag: &XmlTag, before: HeapEncoding) -> (encoding: HeapEncoding)
    ensures
        encoding == styled(tag@.attrs, before),
{
    let mut encoding = before;
    let ghost attrs = tag@.attrs;
    for i in 0..tag.attrs.len()
        invariant
            attrs == tag@.attrs,
            encoding == styled(attrs.take(i as int), before),
    {
        assert(attrs.take(i + 1).drop_last() =~= attrs.take(i as int));
        assert(attrs.take(i + 1).last() == attr_view(tag.attrs@[i as int]));
        if let Some(attr) = &tag.attrs[i] {
            if name_is(attr.key.as_slice(), "style") {
                encoding = match &attr.value {
                    Some(value) => HeapEncoding::from_style_attr(value.as_str()),
                    None => HeapEncoding::from_style_attr(String::new().as_str()),
                };
            }
        }
    }
    assert(attrs.take(attrs.len() as int) =~= attrs);
    encoding
}

impl TocWalk {
    /// A walk that has seen nothing.
    pub fn new() -> (walk: Self)
        ensures
            walk@ == walk_start(),
    {
        let walk = TocWalk {
            path: Vec::new(),
            frames: Vec::new(),
            elems: Vec::new(),
            target: TextTarget::Ignored,
            entries: Vec::new(),
        };
        assert(walk@ =~= walk_start());
        walk
    }

    /// Whether the innermost open element is a `<file>`.
    fn is_direct_file_child(&self) -> (direct: bool)
        ensures
            direct == in_file(self@.elems),
    {
        let n: usize = self.elems.len();
        n > 0 && self.elems[n - 1] == Elem::File
    }

    /// Whether the innermost open element is a `<data>` directly in a `<file>`.
    fn in_own_data_block(&self) -> (own: bool)
        ensures
            own == in_own_data(self@.elems),
    {
        let n: usize = self.elems.len();
        n > 1 && self.elems[n - 1] == Elem::Data && self.elems[n - 2] == Elem::File
    }

    /// Takes the encoding of the innermost file from the attributes of a tag.
    fn take_style(&mut self, tag: &XmlTag)
        ensures
            final(self)@ == with_style(old(self)@, tag@),
    {
        if let Some(mut frame) = self.frames.pop() {
            frame.encoding = read_style(tag, frame.encoding);
            self.frames.push(frame);
        }
        assert(self@ =~= with_style(old(self)@, tag@));
    }

    /// Takes an opening tag.
    fn on_start(&mut self, tag: &XmlTag)
        ensures
            final(self)@ == after_start(old(self)@, tag@),
    {
        let name = tag.name.as_slice();
        let elem = if name_is(name, "file") {
            Elem::File
        } else if name_is(name, "data") {
            Elem::Data
        } else {
            Elem::Other
        };
        if name_is(name, "file") {
            self.frames.push(
                Frame {
                    pushed_name: false,
                    file_type: None,
                    data_offset: None,
                    data_length: None,
                    encoding: HeapEncoding::Raw,
                },
            );
        } else if name_is(name, "encoding") && self.in_own_data_block() {
            self.take_style(tag);
            self.target = TextTarget::Ignored;
        } else if name_is(name, "name") && self.is_direct_file_child() {
            self.target = TextTarget::Name;
        } else if name_is(name, "type") && self.is_direct_file_child() {
            self.target = TextTarget::Type;
        } else if name_is(name, "offset") && self.in_own_data_block() {
            self.target = TextTarget::Offset;
        } else if name_is(name, "length") && self.in_own_data_block() {
            self.target = TextTarget::Length;
        } else {
            self.target = TextTarget::Ignored;
        }
        self.elems.push(elem);
        assert(self@ =~= after_start(old(self)@, tag@));
    }

    /// Takes a self-closing tag.
    fn on_empty(&mut self, tag: &XmlTag)
        ensures
            final(self)@ == after_empty(old(self)@, tag@),
    {
        if name_is(tag.name.as_slice(), "encoding") && self.in_own_data_block() {
            self.take_style(tag);
        }
    }

    /// Takes a text.
    fn on_text(&mut self, text: Option<String>)
        ensures
            final(self)@ == after_text(old(self)@, text_view(text)),
    {
        if self.target == TextTarget::Ignored {
            return;
        }
        let ghost given = text_view(text);
        let text = match text {
            Some(t) => t,
            None => String::new(),
        };
        if let Some(mut frame) = self.frames.pop() {
            match self.target {
                TextTarget::Name => {
                    if !frame.pushed_name {
                        self.path.push(text);
                        frame.pushed_name = true;
                    }
                },
                TextTarget::Type => {
                    frame.file_type = Some(text);
                },
                TextTarget::Offset => {
                    frame.data_offset = parse_number(text.as_str());
                },
                TextTarget::Length => {
                    frame.data_length = parse_number(text.as_str());
                },
                TextTarget::Ignored => {},
            }
            self.frames.push(frame);
        }
        assert(self@ =~= after_text(old(self)@, given));
    }

    /// The entry that a file with the frame `frame` is.
    fn entry_for(&self, frame: &Frame) -> (entry: Option<PayloadEntry>)
        ensures
            match entry {
                Some(e) => entry_of(frame@, self@.path) == Some(e@),
                None => entry_of(frame@, self@.path) is None,
            },
    {
        if !frame.pushed_name {
            return None;
        }
        if let Some(file_type) = &frame.file_type {
            if same_text(file_type.as_str(), "directory") {
                return None;
            }
        }
        let depth: usize = self.path.len();
        if depth == 0 {
            return None;
        }
        assert(texts(self.path@).last() == self.path@[depth - 1]@);
        let name = self.path[depth - 1].as_str();
        let kind = if same_text(name, "Payload") {
            EntryKind::Payload
        } else if same_text(name, "Scripts") {
            EntryKind::Scripts
        } else {
            return None;
        };
        if let (Some(heap_offset), Some(heap_length)) = (frame.data_offset, frame.data_length) {
            Some(
                PayloadEntry {
                    kind,
                    full_path: join(&self.path, "/"),
                    heap_offset,
                    heap_length,
                    encoding: frame.encoding,
                },
            )
        } else {
            None
        }
    }

    /// Takes a closing tag.
    fn on_end(&mut self, name: &[u8])
        ensures
            final(self)@ == after_end(old(self)@, name@),
    {
        let _ = self.elems.pop();
        self.target = TextTarget::Ignored;
        if name_is(name, "file") {
            if let Some(frame) = self.frames.pop() {
                if let Some(entry) = self.entry_for(&frame) {
                    self.entries.push(entry);
                }
                if frame.pushed_name {
                    let _ = self.path.pop();
                }
            }
        }
        assert(self@ =~= after_end(old(self)@, name@));
    }

    /// Takes one event.
    pub fn step(&mut self, event: XmlEvent)
        ensures
            final(self)@ == walk_step(old(self)@, event@),
    {
        match event {
            XmlEvent::Start(tag) => self.on_start(&tag),
            XmlEvent::Empty(tag) => self.on_empty(&tag),
            XmlEvent::Text(text) => self.on_text(text),
            XmlEvent::End(name) => self.on_end(name.as_slice()),
            XmlEvent::Other => {},
        }
    }

    /// The entries found, in the order in which their elements close.
    pub fn into_entries(self) -> (entries: Vec<PayloadEntry>)
        ensures
            entries_view(entries@) == self@.entries,
    {
        self.entries
    }
}

/// What each of `events` holds.
pub open spec fn events_view(events: Seq<XmlEvent>) -> Seq<EventView> {
    events.map_values(|e: XmlEvent| e@)
}

/// A walk over `a` and then `b`.
pub proof fn lemma_walk_concat(w: WalkView, a: Seq<EventView>, b: Seq<EventView>)
    ensures
        walk(w, a + b) == walk(walk(w, a), b),
    decreases a.len(),
{
    if a.len() == 0 {
        assert(a + b =~= b);
    } else {
        assert((a + b).drop_first() =~= a.drop_first() + b);
        lemma_walk_concat(walk_step(w, a[0]), a.drop_first(), b);
    }
}

/// The entries of a table with the events `events`.
pub fn entries_of_events(events: Vec<XmlEvent>) -> (entries: Vec<PayloadEntry>)
    ensures
        entries_view(entries@) == entries_in(events_view(events@)),
{
    let mut walker = TocWalk::new();
    let ghost all = events_view(events@);
    for event in it: events.into_iter()
        invariant
            all == events_view(it.seq()),
            walker@ == walk(walk_start(), all.take(it.index())),
    {
        proof {
            let n = it.index();
            assert(all.take(n + 1) =~= all.take(n) + seq![all[n]]);
            lemma_walk_concat(walk_start(), all.take(n), seq![all[n]]);
            assert(seq![all[n]].drop_first() =~= Seq::empty());
            reveal_with_fuel(walk, 2);
        }
        walker.step(event);
    }
    assert(all.take(all.len() as int) =~= all);
    walker.into_entries()
}

/// Every `Payload` and `Scripts` archive in the table of contents `xml`, in the order in which
/// their elements close, or the message of an error where `xml` is malformed.
pub fn find_payload_entries(xml: &str) -> (found: Result<Vec<PayloadEntry>, String>)
    ensures
        match found {
            Ok(entries) => {
                &&& document_events(xml@).error is None
                &&& entries_view(entries@) == entries_in(document_events(xml@).events)
            },
            Err(message) => document_events(xml@).error == Some(message@),
        },
{
    let mut reader = read_document(xml);
    let mut walker = TocWalk::new();
    loop
        invariant
            pending_events(reader).error == document_events(xml@).error,
            walk(walker@, pending_events(reader).events).entries == entries_in(
                document_events(xml@).events,
            ),
        decreases pending_events(reader).events.len(),
    {
        match next_event(&mut reader) {
            Ok(Some(event)) => {
                walker.step(event);
            },
            Ok(None) => {
                return Ok(walker.into_entries());
            },
            Err(message) => {
                return Err(message);
            },
        }
    }
}

} // verus!
