//! What holds of the last part of a path, in bytes and in text.

use vstd::prelude::*;
use vstd::utf8::{
    char_is_scalar, encode_scalar, encode_utf8, encode_utf8_decode_utf8, encode_utf8_first_scalar,
    is_ascii_chars_encode_utf8,
};

use crate::paths::{body_start, ends_idle, file_name_of, is_separator};
use crate::paths::{is_verbatim, last_part, lemma_part_start_is, lemma_prefix_len, prefix_len};
use crate::paths::{stem_end, stem_of, tidy, DOT};
use crate::paths_laws::is_name;

verus! {

// ---------------------------------------------------------------------------
// Text and its bytes
// ---------------------------------------------------------------------------

/// Text is encoded character by character.
pub proof fn lemma_encode_concat(a: Seq<char>, b: Seq<char>)
    ensures
        encode_utf8(a + b) == encode_utf8(a) + encode_utf8(b),
    decreases a.len(),
{
    if a.len() == 0 {
        assert(a + b =~= b);
        assert(encode_utf8(a) + encode_utf8(b) =~= encode_utf8(b));
    } else {
        assert((a + b).drop_first() =~= a.drop_first() + b);
        lemma_encode_concat(a.drop_first(), b);
        assert(encode_utf8(a + b) =~= encode_utf8(a) + encode_utf8(b));
    }
}

proof fn lemma_ascii_char(c: char)
    ensures
        c as u32 <= 0x7f ==> '\0' <= c <= '\u{7f}' && c as u8 as char == c && c as u8 as u32 == c as u32,
{
}

proof fn lemma_scalar_bytes(text: Seq<char>)
    requires
        text.len() > 0,
    ensures
        ({
            let first = encode_scalar(text[0] as u32);
            &&& first.len() > 0
            &&& text[0] as u32 <= 0x7f ==> first == seq![text[0] as u8]
            &&& text[0] as u32 > 0x7f ==> forall|i: int|
                0 <= i < first.len() ==> #[trigger] first[i] >= 0x80
        }),
{
    encode_utf8_first_scalar(text);
    lemma_ascii_char(text[0]);
    char_is_scalar(text[0]);
    let first = encode_scalar(text[0] as u32);
    let all = encode_utf8(text);
    assert(forall|i: int| 0 <= i < first.len() ==> all[i] == first[i]);
    if text[0] as u32 <= 0x7f {
        let one = seq![text[0]];
        is_ascii_chars_encode_utf8(one);
        assert(one.drop_first() =~= Seq::empty());
        reveal_with_fuel(encode_utf8, 2);
        assert(encode_utf8(one) =~= first);
        assert(first =~= seq![text[0] as u8]);
    }
}

/// A byte below 128 stands in the bytes of a text only where its character stands in the text.
pub proof fn lemma_ascii_bytes(text: Seq<char>, i: int)
    requires
        0 <= i < encode_utf8(text).len(),
        encode_utf8(text)[i] < 0x80,
    ensures
        text.contains(encode_utf8(text)[i] as char),
    decreases text.len(),
{
    let first = encode_scalar(text[0] as u32);
    let all = encode_utf8(text);
    lemma_scalar_bytes(text);
    if i < first.len() {
        assert(all[i] == first[i]);
        assert(text[0] as u32 <= 0x7f);
        lemma_ascii_char(text[0]);
        assert(all[i] as char == text[0]);
    } else {
        let rest = text.drop_first();
        assert(all[i] == encode_utf8(rest)[i - first.len()]);
        lemma_ascii_bytes(rest, i - first.len());
        let k = choose|k: int| 0 <= k < rest.len() && rest[k] == all[i] as char;
        assert(text[k + 1] == all[i] as char);
    }
}

/// ASCII characters are bytes of their own.
pub proof fn lemma_encode_ascii(c: char)
    requires
        c as u32 <= 0x7f,
    ensures
        encode_utf8(seq![c]) == seq![c as u8],
{
    lemma_scalar_bytes(seq![c]);
    assert(seq![c].drop_first() =~= Seq::empty());
    reveal_with_fuel(encode_utf8, 2);
    assert(encode_utf8(seq![c]) =~= seq![c as u8]);
}

/// A text that can be the name of something, on every system.
pub open spec fn is_plain_name(name: Seq<char>) -> bool {
    &&& name.len() > 0
    &&& !name.contains('/') && !name.contains('\\') && !name.contains(':')
    &&& name != seq!['.'] && name != seq!['.', '.']
}

/// Such a text is a name in bytes.
pub proof fn lemma_plain_name(name: Seq<char>, windows: bool)
    requires
        is_plain_name(name),
    ensures
        is_name(encode_utf8(name), windows),
{
    let bytes = encode_utf8(name);
    lemma_scalar_bytes(name);
    assert forall|i: int| 0 <= i < bytes.len() implies bytes[i] != 0x2f && bytes[i] != 0x5c && bytes[i]
        != 0x3a by {
        if bytes[i] < 0x80 {
            lemma_ascii_bytes(name, i);
        }
    }
    assert forall|i: int| 0 <= i < bytes.len() implies !is_separator(
        #[trigger] bytes[i],
        windows,
        false,
    ) by {
        assert(bytes[i] != 0x2f);
    }
    lemma_encode_ascii('.');
    let dot = seq!['.'];
    lemma_encode_concat(dot, dot);
    assert(dot + dot =~= seq!['.', '.']);
    assert(encode_utf8(dot) + encode_utf8(dot) =~= seq![DOT, DOT]);
    encode_utf8_decode_utf8(name);
    encode_utf8_decode_utf8(dot);
    encode_utf8_decode_utf8(seq!['.', '.']);
}

// ---------------------------------------------------------------------------
// The last part
// ---------------------------------------------------------------------------

/// A path that ends in a separator and a name has that name, whatever stands before them, as long
/// as it is no prefix.
pub proof fn law_last_part_is_the_name(dir: Seq<u8>, separator: u8, name: Seq<u8>, windows: bool)
    requires
        is_name(name, windows),
        is_separator(separator, windows, false),
        prefix_len(dir.push(separator) + name, windows) == 0,
    ensures
        file_name_of(dir.push(separator) + name, windows) == Some(name),
{
    let path = dir.push(separator) + name;
    let at = dir.len() as int + 1;
    let from = body_start(path, windows);
    lemma_prefix_len(path, windows);
    assert(!is_verbatim(path, windows));
    assert(path[at] == name[0]);
    assert forall|i: int| at <= i < path.len() implies !is_separator(
        #[trigger] path[i],
        windows,
        false,
    ) by {
        assert(path[i] == name[i - at]);
    }
    lemma_part_start_is(path, from, windows, false, at);
    assert(last_part(path, windows) =~= name);
    assert(name != Seq::<u8>::empty());
    assert(!ends_idle(path, windows));
    assert(tidy(path, windows) == path);
}

/// A path that is a name alone has that name.
pub proof fn law_a_name_is_its_own_name(name: Seq<u8>, windows: bool)
    requires
        is_name(name, windows),
    ensures
        file_name_of(name, windows) == Some(name),
{
    lemma_prefix_len(name, windows);
    assert(!is_separator(name[0], windows, false));
    assert(prefix_len(name, windows) == 0);
    assert(!is_verbatim(name, windows));
    if name[0] == DOT {
        if name.len() == 1 {
            assert(name =~= seq![DOT]);
        } else {
            assert(!is_separator(name[1], windows, false));
        }
    }
    assert(body_start(name, windows) == 0);
    lemma_part_start_is(name, 0, windows, false, 0);
    assert(last_part(name, windows) =~= name);
    assert(name != Seq::<u8>::empty());
    assert(!ends_idle(name, windows));
}

// ---------------------------------------------------------------------------
// Stems
// ---------------------------------------------------------------------------

proof fn lemma_stem_at(name: Seq<u8>, whole: nat, at: int)
    requires
        0 < at < name.len(),
        name[at] == DOT,
        forall|i: int| at < i < name.len() ==> #[trigger] name[i] != DOT,
    ensures
        stem_end(name, whole) == at,
    decreases name.len(),
{
    if at < name.len() - 1 {
        assert(name.last() != DOT);
        let shorter = name.drop_last();
        assert forall|i: int| at < i < shorter.len() implies #[trigger] shorter[i] != DOT by {
            assert(shorter[i] == name[i]);
        }
        lemma_stem_at(shorter, whole, at);
    }
}

proof fn lemma_stem_whole(name: Seq<u8>, whole: nat)
    requires
        forall|i: int| 0 < i < name.len() ==> #[trigger] name[i] != DOT,
    ensures
        stem_end(name, whole) == whole,
    decreases name.len(),
{
    if name.len() > 1 {
        assert(name[name.len() - 1] != DOT);
        let shorter = name.drop_last();
        assert forall|i: int| 0 < i < shorter.len() implies #[trigger] shorter[i] != DOT by {
            assert(shorter[i] == name[i]);
        }
        lemma_stem_whole(shorter, whole);
    }
}

/// A name loses its extension, which is what stands behind its last dot, and the dot.
pub proof fn law_extension_is_dropped(base: Seq<u8>, extension: Seq<u8>)
    requires
        base.len() > 0,
        !extension.contains(DOT),
    ensures
        stem_of(base.push(DOT) + extension) == base,
{
    let name = base.push(DOT) + extension;
    assert forall|i: int| base.len() < i < name.len() implies #[trigger] name[i] != DOT by {
        assert(name[i] == extension[i - base.len() - 1]);
    }
    lemma_stem_at(name, name.len(), base.len() as int);
    assert(name.take(base.len() as int) =~= base);
}

/// A name without a dot, but for one that it starts with, is kept whole.
pub proof fn law_a_name_without_extension_is_kept(name: Seq<u8>)
    requires
        forall|i: int| 0 < i < name.len() ==> #[trigger] name[i] != DOT,
    ensures
        stem_of(name) == name,
{
    lemma_stem_whole(name, name.len());
    assert(name.take(name.len() as int) =~= name);
}

} // verus!
