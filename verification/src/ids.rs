//! The identifier allocator: two sequences of identifiers, one for logs and
//! one for objects, each rising by one from 1.

use crate::error::{outcome, Error, ErrorView};
use vstd::prelude::*;

verus! {

/// Identifiers start at 1 and stay below this bound.
pub open spec fn id_limit() -> int {
    2147483647
}

/// The kinds of record, each with a sequence of its own.
#[derive(Debug, Clone, Copy, PartialEq, Eq, Structural)]
pub enum Sequence {
    Logs,
    Objects,
}

/// The allocator. It holds, for each sequence, the identifier that comes
/// next.
pub struct IdAllocator {
    logs: i32,
    objs: i32,
}

impl IdAllocator {
    /// The identifier that a sequence issues next.
    pub closed spec fn peek(&self, seq: Sequence) -> int {
        match seq {
            Sequence::Logs => self.logs as int,
            Sequence::Objects => self.objs as int,
        }
    }

    /// Both sequences have started and are within the bound.
    pub open spec fn wf(&self) -> bool {
        &&& 1 <= self.peek(Sequence::Logs) <= id_limit()
        &&& 1 <= self.peek(Sequence::Objects) <= id_limit()
    }

    /// An allocator with both sequences at 1.
    pub fn new() -> (a: Self)
        ensures
            a.wf(),
            a.peek(Sequence::Logs) == 1,
            a.peek(Sequence::Objects) == 1,
    {
        IdAllocator { logs: 1, objs: 1 }
    }

    /// An allocator with the sequences where they were left; there is none
    /// for a sequence that has not started.
    pub fn starting_at(logs: i32, objs: i32) -> (r: Option<Self>)
        ensures
            match r {
                Some(a) => 1 <= logs && 1 <= objs && a.wf() && a.peek(Sequence::Logs) == logs
                    && a.peek(Sequence::Objects) == objs,
                None => logs < 1 || objs < 1,
            },
    {
        if logs >= 1 && objs >= 1 {
            Some(IdAllocator { logs, objs })
        } else {
            None
        }
    }

    /// The identifier that a sequence issues next.
    pub fn upcoming(&self, seq: Sequence) -> (id: i32)
        ensures
            id == self.peek(seq),
    {
        match seq {
            Sequence::Logs => self.logs,
            Sequence::Objects => self.objs,
        }
    }

    /// Whether a sequence has an identifier left.
    pub fn has_next(&self, seq: Sequence) -> (b: bool)
        ensures
            b == (self.peek(seq) < id_limit()),
    {
        self.upcoming(seq) < i32::MAX
    }

    /// Issues the next identifier of a sequence and moves the sequence past
    /// it; the other sequence stays. A sequence that is used up issues
    /// nothing and gives `StoreUnavailable`.
    pub fn next(&mut self, seq: Sequence) -> (res: Result<i32, Error>)
        requires
            old(self).wf(),
        ensures
            final(self).wf(),
            forall|other: Sequence|
                other != seq ==> final(self).peek(other) == old(self).peek(other),
            old(self).peek(seq) < id_limit() ==> outcome(res) == Ok::<i32, ErrorView>(
                old(self).peek(seq) as i32,
            ) && final(self).peek(seq) == old(self).peek(seq) + 1,
            old(self).peek(seq) >= id_limit() ==> outcome(res) == Err::<i32, ErrorView>(
                ErrorView::StoreUnavailable,
            ) && final(self).peek(seq) == old(self).peek(seq),
    {
        match seq {
            Sequence::Logs => {
                if self.logs == i32::MAX {
                    return Err(Error::StoreUnavailable);
                }
                let id = self.logs;
                self.logs = id + 1;
                Ok(id)
            },
            Sequence::Objects => {
                if self.objs == i32::MAX {
                    return Err(Error::StoreUnavailable);
                }
                let id = self.objs;
                self.objs = id + 1;
                Ok(id)
            },
        }
    }
}

} // verus!
