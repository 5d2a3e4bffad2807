//! Iteration over the code units of a string.

use vstd::prelude::*;

use crate::js_str::JsStr;
use crate::order;

verus! {

/// Iterator over the code units of a string.
#[derive(Debug)]
pub struct Iter<'a> {
    /// What is still to come.
    rest: JsStr<'a>,
}

impl<'a> Iter<'a> {
    /// The code units that are still to come.
    pub closed spec fn remaining(&self) -> Seq<u16> {
        self.rest@
    }

    pub(crate) fn new(string: JsStr<'a>) -> (iter: Iter<'a>)
        ensures
            iter.remaining() == string@,
    {
        Iter { rest: string }
    }

    /// Advances the iterator and returns the next code unit, or [`None`] after the last one.
    pub fn next(&mut self) -> (unit: Option<u16>)
        ensures
            old(self).remaining().len() == 0 ==> unit is None && final(self).remaining() == old(
                self,
            ).remaining(),
            old(self).remaining().len() > 0 ==> unit == Some(old(self).remaining()[0])
                && final(self).remaining() == old(self).remaining().skip(1),
    {
        let len = self.rest.len();
        if len == 0 {
            None
        } else {
            let unit = self.rest.unit(0);
            self.rest = self.rest.slice(1, len);
            assert(self.remaining() =~= old(self).remaining().skip(1));
            Some(unit)
        }
    }

    /// The number of code units that are still to come.
    pub fn len(&self) -> (len: usize)
        ensures
            len == self.remaining().len(),
    {
        self.rest.len()
    }
}

impl<'a> Clone for Iter<'a> {
    fn clone(&self) -> (iter: Iter<'a>)
        ensures
            iter.remaining() == self.remaining(),
    {
        Iter { rest: self.rest }
    }
}

/// Iterator over the overlapping parts of a string that have a given length, from left to right.
#[derive(Debug)]
pub struct Windows<'a> {
    /// What the windows that are still to come are taken from.
    rest: JsStr<'a>,
    size: usize,
    /// Set once the empty window at the very end has been handed out.
    done: bool,
}

impl<'a> Windows<'a> {
    /// The code units of the windows that are still to come.
    pub closed spec fn remaining(&self) -> Seq<Seq<u16>> {
        if self.done {
            seq![]
        } else {
            order::windows(self.rest@, self.size as int)
        }
    }

    /// Whether the windows are stored as Latin1.
    pub closed spec fn in_latin1(&self) -> bool {
        self.rest.in_latin1()
    }

    pub(crate) fn new(string: JsStr<'a>, size: usize) -> (windows: Windows<'a>)
        ensures
            windows.remaining() == order::windows(string@, size as int),
            windows.in_latin1() == string.in_latin1(),
    {
        Windows { rest: string, size, done: false }
    }

    /// Advances the iterator and returns the next window, or [`None`] after the last one.
    pub fn next(&mut self) -> (window: Option<JsStr<'a>>)
        ensures
            old(self).remaining().len() == 0 ==> window is None && final(self).remaining() == old(
                self,
            ).remaining(),
            old(self).remaining().len() > 0 ==> {
                &&& window matches Some(string)
                &&& string@ == old(self).remaining()[0]
                &&& string.in_latin1() == old(self).in_latin1()
                &&& final(self).remaining() == old(self).remaining().skip(1)
            },
            final(self).in_latin1() == old(self).in_latin1(),
    {
        let len = self.rest.len();
        if self.done || self.size > len {
            return None;
        }
        let window = self.rest.slice(0, self.size);
        if len == 0 {
            self.done = true;
        } else {
            self.rest = self.rest.slice(1, len);
        }
        assert(self.remaining() =~= old(self).remaining().skip(1)) by {
            let before = old(self).rest@;
            let size = self.size as int;
            if len > 0 {
                assert forall|i: int|
                    0 <= i < self.remaining().len() implies #[trigger] self.remaining()[i] == old(
                    self,
                ).remaining().skip(1)[i] by {
                    assert(self.rest@.subrange(i, i + size) =~= before.subrange(
                        i + 1,
                        i + 1 + size,
                    ));
                }
            }
        }
        Some(window)
    }
}

impl<'a> Clone for Windows<'a> {
    fn clone(&self) -> (windows: Windows<'a>)
        ensures
            windows.remaining() == self.remaining(),
            windows.in_latin1() == self.in_latin1(),
    {
        Windows { rest: self.rest, size: self.size, done: self.done }
    }
}

} // verus!
