//! The command-line argument cursor: the invocation path first, then the
//! arguments, consumed one at a time with one token of lookahead.
use vstd::prelude::*;

verus! {

/// A cursor over the process arguments. The first element is the program
/// path; it is consumed on construction and kept aside.
#[derive(Debug)]
pub struct Arguments {
    arguments: Vec<String>,
    dir: Option<String>,
    index: usize,
}

impl Arguments {
    /// All elements, the program path included.
    pub closed spec fn model(self) -> Seq<String> {
        self.arguments@
    }

    /// The position of the next unconsumed element.
    pub closed spec fn spec_pos(self) -> int {
        self.index as int
    }

    /// The program path, when there was one.
    pub closed spec fn spec_dir(self) -> Option<String> {
        self.dir
    }

    pub open spec fn wf(self) -> bool {
        self.spec_pos() <= self.model().len()
    }

    /// A cursor over the given elements; the leading program path, if any,
    /// is consumed at once.
    pub fn new(arguments: Vec<String>) -> (a: Arguments)
        ensures
            a.wf(),
            a.model() == arguments@,
            a.spec_pos() == if arguments@.len() > 0 {
                1int
            } else {
                0int
            },
            arguments@.len() > 0 ==> (a.spec_dir() matches Some(d) && d@ == arguments@[0]@),
            arguments@.len() == 0 ==> a.spec_dir() is None,
    {
        if arguments.len() > 0 {
            let dir = Some(arguments[0].clone());
            Arguments { arguments, dir, index: 1 }
        } else {
            Arguments { arguments, dir: None, index: 0 }
        }
    }

    /// The next unconsumed element, without consuming it.
    pub fn current(&self) -> (r: Option<&String>)
        requires
            self.wf(),
        ensures
            match r {
                Some(s) => self.spec_pos() < self.model().len() && *s == self.model()[self.spec_pos()],
                None => self.spec_pos() == self.model().len(),
            },
    {
        if self.index < self.arguments.len() {
            Some(&self.arguments[self.index])
        } else {
            None
        }
    }

    /// Consumes and returns the next element.
    pub fn next(&mut self) -> (r: Option<String>)
        requires
            old(self).wf(),
        ensures
            final(self).wf(),
            final(self).model() == old(self).model(),
            final(self).spec_dir() == old(self).spec_dir(),
            match r {
                Some(s) => old(self).spec_pos() < old(self).model().len() && s@ == old(
                    self,
                ).model()[old(self).spec_pos()]@ && final(self).spec_pos() == old(self).spec_pos()
                    + 1,
                None => old(self).spec_pos() == old(self).model().len() && final(self).spec_pos()
                    == old(self).spec_pos(),
            },
    {
        if self.index < self.arguments.len() {
            let s = self.arguments[self.index].clone();
            self.index = self.index + 1;
            Some(s)
        } else {
            None
        }
    }

    /// The next unconsumed element, without consuming it.
    pub fn peek(&self) -> (r: Option<&String>)
        requires
            self.wf(),
        ensures
            match r {
                Some(s) => self.spec_pos() < self.model().len() && *s == self.model()[self.spec_pos()],
                None => self.spec_pos() == self.model().len(),
            },
    {
        self.current()
    }

    /// Whether an unconsumed element remains.
    pub fn has_next(&self) -> (r: bool)
        requires
            self.wf(),
        ensures
            r == (self.spec_pos() < self.model().len()),
    {
        self.index < self.arguments.len()
    }
}

} // verus!
