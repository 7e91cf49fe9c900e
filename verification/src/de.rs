use vstd::prelude::*;

use crate::cursor::{CursorView, SquashCursor};
use crate::object::SquashObject;
use crate::error::{err_zero_width_element, err_zero_width_entry, Error, Result};

verus! {

/// How deep values may nest while they are read.
pub const MAX_DEPTH: usize = 128;

/// The state of reading a value through a self-describing data model: the
/// bytes, read from the end, and how deeply the values read so far nest.
pub struct Deserializer {
    input: SquashCursor,
    depth: usize,
}

impl Deserializer {
    /// The bytes being read and the position before which they remain.
    pub closed spec fn spec_input(&self) -> CursorView {
        self.input@
    }

    /// How deeply the value being read nests.
    pub closed spec fn spec_depth(&self) -> nat {
        self.depth as nat
    }

    /// A reader of `input`, at its end and at depth zero.
    pub fn new(input: Vec<u8>) -> (r: Result<Deserializer>)
        ensures
            r matches Ok(d) && d.spec_input().bytes == input@ && d.spec_input().pos == input@.len() && d.spec_depth() == 0,
    {
        let mut cursor = SquashCursor::from_vec(input);
        match cursor.seek_end() {
            Ok(_) => Ok(Deserializer { input: cursor, depth: 0 }),
            Err(e) => Err(e),
        }
    }

    /// Pops a value off the bytes that remain.
    pub fn pop<T: SquashObject>(&mut self) -> (r: Result<T>)
        ensures
            final(self).spec_depth() == old(self).spec_depth(),
            match T::spec_decode(old(self).spec_input().readable()) {
                Some((w, n)) => {
                    &&& r matches Ok(v) && v.deep_view() == w
                    &&& final(self).spec_input() == old(self).spec_input().popped(n)
                },
                None => r is Err,
            },
    {
        self.input.pop()
    }

    /// The number of bytes that remain.
    pub fn remaining(&mut self) -> (r: Result<u64>)
        ensures
            final(self).spec_depth() == old(self).spec_depth(),
            final(self).spec_input() == old(self).spec_input(),
            r matches Ok(p) && p == old(self).spec_input().pos,
    {
        self.input.remaining()
    }

    pub fn depth(&self) -> (r: usize)
        ensures
            r == self.spec_depth(),
    {
        self.depth
    }

    /// Goes one level deeper; fails with `RecursionDepthExceeded` at
    /// [`MAX_DEPTH`], leaving the depth as it was.
    pub fn enter(&mut self) -> (r: Result<()>)
        ensures
            final(self).spec_input() == old(self).spec_input(),
            old(self).spec_depth() >= MAX_DEPTH ==> (r matches Err(e) && e is RecursionDepthExceeded
                && final(self).spec_depth() == old(self).spec_depth()),
            old(self).spec_depth() < MAX_DEPTH ==> (r is Ok && final(self).spec_depth() == old(self).spec_depth() + 1),
    {
        if self.depth >= MAX_DEPTH {
            return Err(Error::RecursionDepthExceeded);
        }
        self.depth = self.depth + 1;
        Ok(())
    }

    /// Comes back up one level.
    pub fn exit(&mut self)
        requires
            old(self).spec_depth() > 0,
        ensures
            final(self).spec_input() == old(self).spec_input(),
            final(self).spec_depth() == old(self).spec_depth() - 1,
    {
        self.depth = self.depth - 1;
    }
}

/// The count of a sequence, tuple, struct or map being read, and whether it
/// came off the wire (a sequence's or a map's count) rather than from the
/// type being read.
pub struct SeqState {
    pub size_hint: u64,
    pub guarded: bool,
}

impl SeqState {
    pub fn new(size_hint: u64, guarded: bool) -> (r: SeqState)
        ensures
            r.size_hint == size_hint,
            r.guarded == guarded,
    {
        SeqState { size_hint, guarded }
    }

    /// Starts the next element: `false` where none is left, else counts it off.
    pub fn next_start(&mut self) -> (r: bool)
        ensures
            final(self).guarded == old(self).guarded,
            r == (old(self).size_hint > 0),
            final(self).size_hint == (if r { old(self).size_hint - 1 } else { old(self).size_hint as int }),
    {
        if self.size_hint == 0 {
            return false;
        }
        self.size_hint = self.size_hint - 1;
        true
    }

    /// After an element: an error where the count came off the wire, more
    /// elements are claimed, and this one took no bytes (the bytes that remain
    /// are `before` before it and `after` after it).
    pub fn check_element(&self, before: u64, after: u64) -> (r: Result<()>)
        ensures
            (self.guarded && self.size_hint > 0 && after == before) ==> (r matches Err(e) && e is Custom),
            !(self.guarded && self.size_hint > 0 && after == before) ==> r is Ok,
    {
        if self.guarded && self.size_hint > 0 && after == before {
            return Err(err_zero_width_element(self.size_hint));
        }
        Ok(())
    }

    /// The same check after a map entry.
    pub fn check_entry(&self, before: u64, after: u64) -> (r: Result<()>)
        ensures
            (self.guarded && self.size_hint > 0 && after == before) ==> (r matches Err(e) && e is Custom),
            !(self.guarded && self.size_hint > 0 && after == before) ==> r is Ok,
    {
        if self.guarded && self.size_hint > 0 && after == before {
            return Err(err_zero_width_entry(self.size_hint));
        }
        Ok(())
    }
}

} // verus!
