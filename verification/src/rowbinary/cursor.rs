//! A forward-only reader over a borrowed byte region.

use crate::error::{Error, Fault};
use vstd::prelude::*;
use vstd::slice::slice_subrange;

verus! {

/// A non-owning view of the bytes that have not been read yet.
///
/// The cursor never copies and never moves backwards: every operation either
/// leaves the unread bytes as they are or drops a prefix of them.
#[derive(Clone, Copy)]
pub struct Cursor<'a> {
    rest: &'a [u8],
}

impl<'a> View for Cursor<'a> {
    type V = Seq<u8>;

    /// The unread bytes, in order.
    closed spec fn view(&self) -> Seq<u8> {
        self.rest@
    }
}

impl<'a> Cursor<'a> {
    /// Starts reading at the first byte of `data`.
    pub fn new(data: &'a [u8]) -> (cursor: Self)
        ensures
            cursor@ == data@,
    {
        Cursor { rest: data }
    }

    /// How many bytes are left to read.
    pub fn remaining(&self) -> (count: usize)
        ensures
            count == self@.len(),
    {
        self.rest.len()
    }

    /// The next `count` bytes, without moving.
    pub fn peek(&self, count: usize) -> (outcome: Result<&'a [u8], Error>)
        ensures
            count <= self@.len() ==> outcome is Ok && outcome->Ok_0@ == self@.take(count as int),
            count > self@.len() ==> outcome is Err && outcome->Err_0@ == Fault::NotEnoughData,
    {
        if count > self.rest.len() {
            return Err(Error::NotEnoughData);
        }
        Ok(slice_subrange(self.rest, 0, count))
    }

    /// The next `count` bytes, which are then behind the cursor. When fewer
    /// are left the cursor stays where it is.
    pub fn take(&mut self, count: usize) -> (outcome: Result<&'a [u8], Error>)
        ensures
            count <= old(self)@.len() ==> outcome is Ok && outcome->Ok_0@ == old(self)@.take(
                count as int,
            ) && final(self)@ == old(self)@.skip(count as int),
            count > old(self)@.len() ==> outcome is Err && outcome->Err_0@ == Fault::NotEnoughData
                && final(self)@ == old(self)@,
    {
        let len = self.rest.len();
        if count > len {
            return Err(Error::NotEnoughData);
        }
        let head = slice_subrange(self.rest, 0, count);
        self.rest = slice_subrange(self.rest, count, len);
        Ok(head)
    }
}

} // verus!
