//! The capability pair a record type implements to plug into the codec
//! engine: `MessageWrite` to serialize itself into a [`Writer`], and
//! `MessageRead` to rebuild itself from a [`ByteCursor`].

use vstd::prelude::*;

use crate::errors::Error;
use crate::reader::ByteCursor;
use crate::writer::Writer;

verus! {

/// A record that can report its exact encoded length and serialize itself.
pub trait MessageWrite {
    /// The exact bytes this record serializes to, excluding any outer
    /// length prefix.
    spec fn encoding(&self) -> Seq<u8>;

    /// Reports the exact byte count `write_message` emits.
    fn get_size(&self) -> (size: usize)
        ensures
            size == self.encoding().len(),
    ;

    /// Serializes the record into `w`, field by field. Bytes already emitted
    /// are never rolled back.
    fn write_message(&self, w: &mut Writer) -> (r: Result<(), Error>)
        ensures
            r.is_ok() ==> final(w)@ == old(w)@ + self.encoding(),
            old(w)@.is_prefix_of(final(w)@),
    ;
}

/// A record that can rebuild itself by consuming tagged fields.
pub trait MessageRead: Sized {
    /// Rebuilds a record from `reader`, which is bounded to the record's own
    /// span: a decode loop that reads a tag, dispatches on it, defaults to
    /// skipping unrecognized fields, and stops at the boundary.
    fn from_reader(reader: &mut ByteCursor, bytes: &[u8]) -> (res: Result<Self, Error>)
        requires
            old(reader).wf(bytes@),
        ensures
            final(reader).boundary == old(reader).boundary,
            old(reader).offset <= final(reader).offset,
            final(reader).wf(bytes@),
    ;
}

} // verus!
