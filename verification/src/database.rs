//! The persistence unit: one named text buffer with a dirty flag.
//!
//! A `Database` tracks the raw text of one category file and whether that
//! text has diverged from what was last durably written.  The unit itself
//! never touches the filesystem: a caller reads the file and hands the text
//! to [`Database::read`], and performs the actual write of the payload that
//! [`Database::begin_write`] hands out, confirming it with
//! [`Database::finish_write`].  `begin_write` returns nothing when the
//! buffer is clean, so an unchanged buffer never causes a write.

use vstd::prelude::*;
use vstd::string::StringExecFns;

verus! {

/// The in-memory half of one category file: its name, its raw text, and
/// whether the text still has to be written out.
pub struct Database {
    pub name: String,
    pub data: String,
    pub dirty: bool,
}

impl Database {
    /// A fresh handle over empty text, as produced by creating a new,
    /// empty category file: nothing buffered, nothing to write.
    pub fn new(name: &str) -> (r: Self)
        ensures
            r.name@ == name@,
            r.data@ == Seq::<char>::empty(),
            !r.dirty,
    {
        Database { name: String::from_str(name), data: String::new(), dirty: false }
    }

    /// The raw text currently buffered.
    pub fn data(&self) -> (r: &str)
        ensures
            r@ == self.data@,
    {
        self.data.as_str()
    }

    /// Appends text read from the underlying file to the buffer.  Reading
    /// does not mark the buffer dirty: it reflects what is on disk.
    pub fn read(&mut self, text: &str)
        ensures
            final(self).name@ == old(self).name@,
            final(self).data@ == old(self).data@ + text@,
            final(self).dirty == old(self).dirty,
    {
        self.data.append(text);
    }

    /// Replaces the buffer and marks it dirty: the text now differs from
    /// what was last written.
    pub fn update(&mut self, data: String)
        ensures
            final(self).name@ == old(self).name@,
            final(self).data@ == data@,
            final(self).dirty,
    {
        self.data = data;
        self.dirty = true;
    }

    /// The first half of a write: the text that has to be persisted, or
    /// nothing when the buffer is clean.  A clean buffer is never written.
    pub fn begin_write(&self) -> (r: Option<&String>)
        ensures
            match r {
                Some(t) => self.dirty && t@ == self.data@,
                None => !self.dirty,
            },
    {
        if self.dirty {
            Some(&self.data)
        } else {
            None
        }
    }

    /// The second half of a write: once the payload reached storage, the
    /// buffer is clean again.  On a failed write this is not called, so the
    /// buffer stays dirty and the write can be retried.
    pub fn finish_write(&mut self)
        ensures
            final(self).name@ == old(self).name@,
            final(self).data@ == old(self).data@,
            !final(self).dirty,
    {
        self.dirty = false;
    }
}

} // verus!
