//! What holds of the kind of an installer.

use vstd::prelude::*;
use vstd::utf8::encode_utf8;

use crate::detect::{eocd_magic, head, inno_magic, kind_of_file, label_of, tail, zip_magic};
use crate::detect::InstallerKind;
use crate::text::{contains_run, occurs_at};

verus! {

/// The bytes `what` stand in `data` from position `at` on.
pub open spec fn stands_at(data: Seq<u8>, what: Seq<u8>, at: int) -> bool {
    &&& 0 <= at <= data.len() - what.len()
    &&& forall|i: int| 0 <= i < what.len() ==> data[at + i] == #[trigger] what[i]
}

/// The signature of an Inno Setup installer lies within the first eight mebibytes of `data`.
pub open spec fn is_signed(data: Seq<u8>) -> bool {
    exists|at: int| #[trigger]
        stands_at(data, encode_utf8("Inno Setup Setup Data"@), at) && at
            + encode_utf8("Inno Setup Setup Data"@).len() <= 8388608
}

/// The four bytes that the end record of a ZIP archive starts with stand at `at` in `data`.
pub open spec fn record_at(data: Seq<u8>, at: int) -> bool {
    &&& 0 <= at <= data.len() - 4
    &&& data[at] == 0x50 && data[at + 1] == 0x4b && data[at + 2] == 0x05 && data[at + 3] == 0x06
}

/// The end record of a ZIP archive starts within the last 65557 bytes of `data`.
pub open spec fn has_end_record(data: Seq<u8>) -> bool {
    exists|at: int| #[trigger] record_at(data, at) && at >= data.len() - 65557
}

/// `data` starts with the four bytes that a ZIP archive starts with.
pub open spec fn starts_archive(data: Seq<u8>) -> bool {
    &&& data.len() >= 4
    &&& data[0] == 0x50 && data[1] == 0x4b && data[2] == 0x03 && data[3] == 0x04
}

proof fn lemma_record(data: Seq<u8>)
    ensures
        forall|at: int| #[trigger] record_at(data, at) <==> stands_at(data, eocd_magic(), at),
        starts_archive(data) <==> stands_at(data, zip_magic(), 0),
{
    let magic = eocd_magic();
    assert forall|at: int| #[trigger] record_at(data, at) <==> stands_at(data, eocd_magic(), at) by {
        if stands_at(data, magic, at) {
            assert(data[at + 0] == magic[0] && data[at + 1] == magic[1] && data[at + 2] == magic[2]
                && data[at + 3] == magic[3]);
        }
    }
    let zip = zip_magic();
    if stands_at(data, zip, 0) {
        let at: int = 0;
        assert(data[at + 0] == zip[0] && data[at + 1] == zip[1] && data[at + 2] == zip[2] && data[at
            + 3] == zip[3]);
    }
}

proof fn lemma_occurs(data: Seq<u8>, what: Seq<u8>, at: int)
    ensures
        occurs_at(data, what, at) <==> stands_at(data, what, at),
{
    if occurs_at(data, what, at) {
        assert forall|i: int| 0 <= i < what.len() implies data[at + i] == #[trigger] what[i] by {
            assert(data.subrange(at, at + what.len())[i] == data[at + i]);
        }
    }
    if stands_at(data, what, at) {
        assert(data.subrange(at, at + what.len()) =~= what);
    }
}

proof fn lemma_in_head(data: Seq<u8>, what: Seq<u8>, n: int)
    requires
        n >= 0,
    ensures
        contains_run(head(data, n), what) <==> exists|at: int| #[trigger]
            stands_at(data, what, at) && at + what.len() <= n,
{
    let first = head(data, n);
    if contains_run(first, what) {
        let at = choose|at: int| #[trigger] occurs_at(first, what, at);
        lemma_occurs(first, what, at);
        assert(stands_at(data, what, at)) by {
            assert forall|i: int| 0 <= i < what.len() implies data[at + i] == #[trigger] what[i] by {
                assert(first[at + i] == what[i]);
            }
        }
    }
    if exists|at: int| #[trigger] stands_at(data, what, at) && at + what.len() <= n {
        let at = choose|at: int| #[trigger] stands_at(data, what, at) && at + what.len() <= n;
        assert(stands_at(first, what, at)) by {
            assert forall|i: int| 0 <= i < what.len() implies first[at + i] == #[trigger] what[i] by {
                assert(data[at + i] == what[i]);
            }
        }
        lemma_occurs(first, what, at);
    }
}

proof fn lemma_in_tail(data: Seq<u8>, what: Seq<u8>, n: int)
    requires
        n >= 0,
    ensures
        contains_run(tail(data, n), what) <==> exists|at: int| #[trigger]
            stands_at(data, what, at) && at >= data.len() - n,
{
    let last = tail(data, n);
    let from = data.len() - last.len();
    if contains_run(last, what) {
        let at = choose|at: int| #[trigger] occurs_at(last, what, at);
        lemma_occurs(last, what, at);
        assert(stands_at(data, what, from + at)) by {
            assert forall|i: int| 0 <= i < what.len() implies data[from + at + i]
                == #[trigger] what[i] by {
                assert(last[at + i] == what[i]);
            }
        }
    }
    if exists|at: int| #[trigger] stands_at(data, what, at) && at >= data.len() - n {
        let at = choose|at: int| #[trigger] stands_at(data, what, at) && at >= data.len() - n;
        assert(stands_at(last, what, at - from)) by {
            assert forall|i: int| 0 <= i < what.len() implies last[at - from + i]
                == #[trigger] what[i] by {
                assert(data[at + i] == what[i]);
            }
        }
        lemma_occurs(last, what, at - from);
    }
}

/// The kind of a file, by the positions of the bytes in it, whatever its length: an Inno Setup
/// installer where the signature lies within the first eight mebibytes; else a MojoSetup installer
/// where a ZIP archive starts at its first byte, or where the end record of one starts within its
/// last 65557 bytes; else of no kind.
pub proof fn law_kinds(data: Seq<u8>)
    ensures
        kind_of_file(data) == if is_signed(data) {
            Some(InstallerKind::Inno)
        } else if starts_archive(data) || has_end_record(data) {
            Some(InstallerKind::MojoSetup)
        } else {
            None
        },
{
    lemma_in_head(data, inno_magic(), 8388608);
    lemma_in_tail(data, eocd_magic(), 65557);
    lemma_occurs(data, zip_magic(), 0);
    lemma_record(data);
    if has_end_record(data) {
        let at = choose|at: int| #[trigger] record_at(data, at) && at >= data.len() - 65557;
        assert(stands_at(data, eocd_magic(), at));
    }
    if exists|at: int| #[trigger] stands_at(data, eocd_magic(), at) && at >= data.len() - 65557 {
        let at = choose|at: int| #[trigger]
            stands_at(data, eocd_magic(), at) && at >= data.len() - 65557;
        assert(record_at(data, at));
    }
}

/// A script with a ZIP archive behind it is a MojoSetup installer, whatever the length of either,
/// if the archive has an end record with a comment of at most 65535 bytes and no Inno Setup
/// signature lies near the start.
pub proof fn law_script_and_archive(script: Seq<u8>, archive: Seq<u8>, record: int)
    requires
        record_at(archive, record),
        22 <= archive.len() - record <= 22 + 65535,
        !is_signed(script + archive),
    ensures
        kind_of_file(script + archive) == Some(InstallerKind::MojoSetup),
{
    let data = script + archive;
    assert(record_at(data, script.len() + record));
    law_kinds(data);
}

/// A file with an Inno Setup signature that ends within the first eight mebibytes, is an
/// Inno Setup installer, whatever else it holds.
pub proof fn law_signed_file(before: Seq<u8>, after: Seq<u8>)
    requires
        before.len() + encode_utf8("Inno Setup Setup Data"@).len() <= 8388608,
    ensures
        kind_of_file(before + encode_utf8("Inno Setup Setup Data"@) + after) == Some(
            InstallerKind::Inno,
        ),
{
    let magic = encode_utf8("Inno Setup Setup Data"@);
    let data = before + magic + after;
    assert(stands_at(data, magic, before.len() as int));
    law_kinds(data);
}

/// The kinds of installers can be told apart by what they are called.
pub proof fn law_labels_differ(a: Option<InstallerKind>, b: Option<InstallerKind>)
    ensures
        label_of(a) == label_of(b) ==> a == b,
        label_of(Some(InstallerKind::Inno)) == "Inno Setup"@,
        label_of(Some(InstallerKind::MojoSetup)) == "MojoSetup"@,
{
    reveal_strlit("MojoSetup");
    reveal_strlit("Inno Setup");
    reveal_strlit("pkg");
    reveal_strlit("Unknown");
    assert("MojoSetup"@.len() == 9);
    assert("Inno Setup"@.len() == 10);
    assert("pkg"@.len() == 3);
    assert("Unknown"@.len() == 7);
}

} // verus!
