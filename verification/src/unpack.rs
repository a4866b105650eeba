//! The unpacking of an entry of a ZIP archive, part by part.

use vstd::prelude::*;

use crate::mojo::{MojoError, MojoErrorView};
use crate::run_control::{CancelGate, CANCEL_CHECK_INTERVAL_BYTES};
use crate::zip_archive::{info_of, next_chunk, open_meta, unread, OpenEntry};

verus! {

/// Size of the buffer that files are unpacked through.
pub const COPY_BUFFER_SIZE: usize = 65536;

/// How far the unpacking of an entry has come.
#[verifier::ext_equal]
pub ghost struct Unpacking {
    /// The name of the entry.
    pub name: Seq<char>,
    /// What the entry unpacks to, or the message of the error that this comes to.
    pub content: Result<Seq<u8>, Seq<char>>,
    /// The bytes that have been given out.
    pub given: Seq<u8>,
    /// How many of them came since the last look at whether the run is still wanted.
    pub since_check: int,
}

/// An entry of the name `name` with the content `content`, before its first bytes.
pub open spec fn unpacking_of(
    name: Seq<char>,
    content: Result<Seq<u8>, Seq<char>>,
) -> Unpacking {
    Unpacking { name, content, given: Seq::empty(), since_check: 0 }
}

/// The run is not wanted any more (`running` is false), and enough bytes came for another look at
/// that.
pub open spec fn stops(before: Unpacking, running: bool) -> bool {
    !running && before.since_check >= CANCEL_CHECK_INTERVAL_BYTES
}

/// What the next part of an entry is: `part`, which is some bytes, the end, or an error; and how
/// far the unpacking has come after it. The unpacking is stopped with an error where the run is no
/// longer wanted. Else an entry that unpacks gives its next bytes, at most [`COPY_BUFFER_SIZE`],
/// until all are given; and one that does not comes to its error, at once or after some bytes.
pub open spec fn part_follows(
    before: Unpacking,
    running: bool,
    part: Result<Option<Seq<u8>>, MojoErrorView>,
    after: Unpacking,
) -> bool {
    let checked = if before.since_check >= CANCEL_CHECK_INTERVAL_BYTES {
        0
    } else {
        before.since_check
    };
    if stops(before, running) {
        &&& part == Err::<Option<Seq<u8>>, MojoErrorView>(
            MojoErrorView::Unpack { name: before.name, cause: "cancelled"@ },
        )
        &&& after == before
    } else {
        match part {
            Ok(Some(bytes)) => {
                &&& 0 < bytes.len() <= COPY_BUFFER_SIZE
                &&& before.content matches Ok(content) ==> {
                    &&& before.given.len() + bytes.len() <= content.len()
                    &&& bytes == content.subrange(
                        before.given.len() as int,
                        (before.given.len() + bytes.len()) as int,
                    )
                }
                &&& after == (Unpacking {
                    given: before.given + bytes,
                    since_check: checked + bytes.len(),
                    ..before
                })
            },
            Ok(None) => {
                &&& before.content == Ok::<Seq<u8>, Seq<char>>(before.given)
                &&& after == (Unpacking { since_check: checked, ..before })
            },
            Err(e) => {
                &&& before.content matches Err(cause) && e == (MojoErrorView::Unpack {
                    name: before.name,
                    cause,
                })
                &&& after.content == before.content && after.name == before.name
            },
        }
    }
}

/// What a part holds.
pub open spec fn part_view(part: Result<Option<Vec<u8>>, MojoError>) -> Result<
    Option<Seq<u8>>,
    MojoErrorView,
> {
    match part {
        Ok(Some(bytes)) => Ok(Some(bytes@)),
        Ok(None) => Ok(None),
        Err(e) => Err(e@),
    }
}

/// The unpacking of one entry, part by part.
pub struct EntryUnpacking<'w, 'd> {
    entry: OpenEntry<'w, 'd>,
    name: String,
    gate: CancelGate,
    content: Ghost<Result<Seq<u8>, Seq<char>>>,
    given: Ghost<Seq<u8>>,
}

impl<'w, 'd> View for EntryUnpacking<'w, 'd> {
    type V = Unpacking;

    closed spec fn view(&self) -> Unpacking {
        Unpacking {
            name: self.name@,
            content: self.content@,
            given: self.given@,
            since_check: self.gate.since_check(),
        }
    }
}

impl<'w, 'd> EntryUnpacking<'w, 'd> {
    /// What was given out and what is still to be read are the content together.
    pub closed spec fn wf(&self) -> bool {
        match self.content@ {
            Ok(content) => unread(self.entry) matches Ok(rest) && content == self.given@ + rest,
            Err(_) => unread(self.entry) == self.content@,
        }
    }

    /// The unpacking of `entry`, before its first bytes.
    pub(crate) fn new(entry: OpenEntry<'w, 'd>) -> (unpacking: Self)
        ensures
            unpacking.wf(),
            unpacking@ == unpacking_of(open_meta(entry).name, unread(entry)),
    {
        let name = info_of(&entry).name;
        let given: Ghost<Seq<u8>> = Ghost(Seq::empty());
        let content: Ghost<Result<Seq<u8>, Seq<char>>> = Ghost(unread(entry));
        assert(content@ matches Ok(c) ==> c =~= given@ + c);
        EntryUnpacking { entry, name, gate: CancelGate::new(), content, given }
    }

    /// The next part of the entry: some bytes, or nothing at its end. An entry that came to its
    /// error is not read on.
    pub fn next_part(&mut self, running: bool) -> (part: Result<Option<Vec<u8>>, MojoError>)
        requires
            old(self).wf(),
        ensures
            part is Ok || stops(old(self)@, running) ==> final(self).wf(),
            part_follows(old(self)@, running, part_view(part), final(self)@),
    {
        match self.gate.before_read(running) {
            Ok(()) => {},
            Err(_) => {
                return Err(
                    MojoError::Unpack { name: self.name.clone(), cause: "cancelled".to_owned() },
                );
            },
        }
        match next_chunk(&mut self.entry, COPY_BUFFER_SIZE) {
            Ok(bytes) => {
                if bytes.len() == 0 {
                    assert(old(self).content@ matches Ok(content) ==> content
                        =~= old(self).given@);
                    return Ok(None);
                }
                self.gate.after_read(bytes.len());
                self.given = Ghost(self.given@ + bytes@);
                proof {
                    if let Ok(content) = self.content@ {
                        let rest = unread(self.entry)->Ok_0;
                        let before = old(self).given@;
                        assert(content =~= self.given@ + rest);
                        assert(bytes@ =~= content.subrange(
                            before.len() as int,
                            (before.len() + bytes@.len()) as int,
                        ));
                    }
                }
                Ok(Some(bytes))
            },
            Err(cause) => Err(MojoError::Unpack { name: self.name.clone(), cause }),
        }
    }
}

} // verus!
